//! Splitting a tag string on the `-` separator into its subtags.

use vstd::prelude::*;
use vstd::string::StrSliceExecFns;

verus! {

/// Index of the first `-` in the sequence, or its length when there is none.
pub open spec fn first_dash(s: Seq<char>) -> int
    decreases s.len(),
{
    if s.len() == 0 {
        0
    } else if s[0] == '-' {
        0
    } else {
        1 + first_dash(s.skip(1))
    }
}

pub proof fn lemma_first_dash_bounds(s: Seq<char>)
    ensures
        0 <= first_dash(s) <= s.len(),
        forall|k: int| 0 <= k < first_dash(s) ==> s[k] != '-',
        first_dash(s) < s.len() ==> s[first_dash(s)] == '-',
    decreases s.len(),
{
    if s.len() == 0 {
    } else if s[0] == '-' {
    } else {
        lemma_first_dash_bounds(s.skip(1));
        assert forall|k: int| 0 <= k < first_dash(s) implies s[k] != '-' by {
            if k > 0 {
                assert(s.skip(1)[k - 1] != '-');
            }
        }
        if first_dash(s) < s.len() {
            assert(s.skip(1)[first_dash(s) - 1] == '-');
        }
    }
}

/// The converse: a dash-free prefix ending at the first dash (or at the end)
/// pins `first_dash` down.
pub proof fn lemma_first_dash_at(s: Seq<char>, i: int)
    requires
        0 <= i <= s.len(),
        forall|k: int| 0 <= k < i ==> s[k] != '-',
        i < s.len() ==> s[i] == '-',
    ensures
        first_dash(s) == i,
    decreases s.len(),
{
    if s.len() == 0 {
    } else if s[0] == '-' {
        assert(i == 0);
    } else {
        assert(i >= 1);
        assert forall|k: int| 0 <= k < i - 1 implies s.skip(1)[k] != '-' by {
            assert(s[k + 1] != '-');
        }
        if i - 1 < s.skip(1).len() {
            assert(s.skip(1)[i - 1] == s[i]);
        }
        lemma_first_dash_at(s.skip(1), i - 1);
    }
}

/// The subtags of a string: the maximal dash-free pieces, in order. Every
/// string has at least one subtag; an empty string has the single empty one.
pub open spec fn split_dash(s: Seq<char>) -> Seq<Seq<char>>
    decreases s.len(),
{
    let i = first_dash(s);
    if i == s.len() {
        seq![s]
    } else if 0 <= i < s.len() {
        seq![s.subrange(0, i)] + split_dash(s.subrange(i + 1, s.len() as int))
    } else {
        seq![s]
    }
}

pub proof fn lemma_split_dash_free(s: Seq<char>)
    requires
        forall|k: int| 0 <= k < s.len() ==> s[k] != '-',
    ensures
        split_dash(s) == seq![s],
{
    lemma_first_dash_at(s, s.len() as int);
}

/// Splitting `head + "-" + tail` with a dash-free head peels the head off.
pub proof fn lemma_split_concat(head: Seq<char>, tail: Seq<char>)
    requires
        forall|k: int| 0 <= k < head.len() ==> head[k] != '-',
    ensures
        split_dash(head + seq!['-'] + tail) == seq![head] + split_dash(tail),
{
    let s = head + seq!['-'] + tail;
    assert forall|k: int| 0 <= k < head.len() implies s[k] != '-' by {
        assert(s[k] == head[k]);
    }
    assert(s[head.len() as int] == '-');
    lemma_first_dash_at(s, head.len() as int);
    assert(s.subrange(0, head.len() as int) =~= head);
    assert(s.subrange(head.len() as int + 1, s.len() as int) =~= tail);
}

/// Splits the string into its subtags.
pub fn split_tag(s: &str) -> (r: Vec<String>)
    ensures
        r.deep_view() == split_dash(s@),
        r.len() >= 1,
{
    let n: usize = s.unicode_len();
    let mut acc: Vec<String> = Vec::new();
    let mut start: usize = 0;
    proof {
        assert(s@.subrange(0, n as int) =~= s@);
        assert(acc.deep_view() =~= Seq::<Seq<char>>::empty());
    }
    loop
        invariant
            n == s@.len(),
            start <= n,
            split_dash(s@) =~= acc.deep_view() + split_dash(s@.subrange(start as int, n as int)),
        decreases n - start,
    {
        // scan for the next dash
        let mut j: usize = start;
        while j < n && s.get_char(j) != '-'
            invariant
                n == s@.len(),
                start <= j <= n,
                forall|k: int| start <= k < j ==> s@[k] != '-',
            decreases n - j,
        {
            j = j + 1;
        }
        let piece: String = s.substring_char(start, j).to_owned();
        let ghost rest = s@.subrange(start as int, n as int);
        proof {
            assert(piece@ =~= rest.subrange(0, j - start));
            assert forall|k: int| 0 <= k < j - start implies rest[k] != '-' by {
                assert(rest[k] == s@[start + k]);
            }
        }
        if j == n {
            proof {
                assert(piece@ =~= rest);
                lemma_split_dash_free(rest);
            }
            let ghost before = acc.deep_view();
            acc.push(piece);
            proof {
                assert(acc.deep_view() =~= before + seq![rest]);
                assert(split_dash(s@) =~= acc.deep_view());
            }
            return acc;
        } else {
            let ghost tail = s@.subrange(j + 1, n as int);
            proof {
                assert(s@[j as int] == '-');
                assert(rest =~= piece@ + seq!['-'] + tail);
                lemma_split_concat(piece@, tail);
            }
            let ghost before = acc.deep_view();
            acc.push(piece);
            proof {
                assert(acc.deep_view() =~= before + seq![piece@]);
                assert(split_dash(s@) =~= acc.deep_view() + split_dash(tail));
            }
            start = j + 1;
        }
    }
}

} // verus!
