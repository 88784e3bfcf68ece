//! Extraction of locale-preference keywords from the `u` (Unicode locale)
//! extension block: its subtags are re-segmented into key-value groups, where
//! a key is exactly 2 alphanumeric characters and its value is the maximal
//! run of following subtags that are not themselves keys.

use vstd::prelude::*;
use vstd::string::{StrSliceExecFns, StringExecFns};
use crate::subtag::{all_alphanum, check_all_alphanum, push_char};
use crate::tag::{
    lemma_variants_part_push, variants_part, Extension, ExtensionView, Tag, TagView,
};

verus! {

/// A keyword key: exactly 2 alphanumeric characters.
pub open spec fn is_key(s: Seq<char>) -> bool {
    s.len() == 2 && all_alphanum(s)
}

/// The subtags of the first extension block with the given singleton.
pub open spec fn ext_lookup(exts: Seq<ExtensionView>, k: char) -> Option<Seq<Seq<char>>>
    decreases exts.len(),
{
    if exts.len() == 0 {
        None
    } else if exts[0].singleton == k {
        Some(exts[0].subtags)
    } else {
        ext_lookup(exts.skip(1), k)
    }
}

/// The maximal run of leading subtags that are not keys.
pub open spec fn value_run(subs: Seq<Seq<char>>) -> Seq<Seq<char>>
    decreases subs.len(),
{
    if subs.len() == 0 || is_key(subs[0]) {
        Seq::empty()
    } else {
        seq![subs[0]] + value_run(subs.skip(1))
    }
}

/// The value run after the first occurrence of the key, or nothing when the
/// key does not occur.
pub open spec fn keyword_lookup(subs: Seq<Seq<char>>, key: Seq<char>) -> Option<Seq<Seq<char>>>
    decreases subs.len(),
{
    if subs.len() == 0 {
        None
    } else if subs[0] == key {
        Some(value_run(subs.skip(1)))
    } else {
        keyword_lookup(subs.skip(1), key)
    }
}

/// The run joined with `-`; empty for a key that is present with no value.
pub open spec fn join_run(vs: Seq<Seq<char>>) -> Seq<char> {
    if vs.len() == 0 {
        Seq::empty()
    } else {
        vs[0] + variants_part(vs.skip(1))
    }
}

/// What the keyword accessors yield: the joined value run of the key inside
/// the `u` extension block, or nothing when the block or the key is absent.
pub open spec fn spec_keyword(t: TagView, key: Seq<char>) -> Option<Seq<char>> {
    match ext_lookup(t.extensions, 'u') {
        None => None,
        Some(subs) => match keyword_lookup(subs, key) {
            None => None,
            Some(run) => Some(join_run(run)),
        },
    }
}

fn is_key_subtag(s: &String) -> (r: bool)
    ensures
        r == is_key(s@),
{
    s.as_str().unicode_len() == 2 && check_all_alphanum(s.as_str())
}

/// The first extension block with the given singleton, if any.
fn find_extension<'a>(exts: &'a Vec<Extension>, k: char) -> (r: Option<&'a Vec<String>>)
    ensures
        match r {
            Some(subs) => ext_lookup(exts@.map_values(|e: Extension| e@), k) == Some(
                subs.deep_view(),
            ),
            None => ext_lookup(exts@.map_values(|e: Extension| e@), k) is None,
        },
{
    let ghost views = exts@.map_values(|e: Extension| e@);
    let n: usize = exts.len();
    let mut m: usize = 0;
    proof {
        assert(views.skip(0) =~= views);
    }
    while m < n
        invariant
            n == exts.len(),
            m <= n,
            views == exts@.map_values(|e: Extension| e@),
            ext_lookup(views, k) == ext_lookup(views.skip(m as int), k),
        decreases n - m,
    {
        proof {
            assert(views.skip(m as int)[0] == views[m as int]);
            assert(views.skip(m as int).skip(1) =~= views.skip(m as int + 1));
        }
        if exts[m].singleton == k {
            return Some(&exts[m].subtags);
        }
        m = m + 1;
    }
    proof {
        assert(views.skip(n as int) =~= Seq::<ExtensionView>::empty());
    }
    None
}

/// The value run starting at the given position.
fn collect_run(subs: &Vec<String>, start: usize) -> (r: Vec<String>)
    requires
        start <= subs.len(),
    ensures
        r.deep_view() == value_run(subs.deep_view().skip(start as int)),
{
    let n: usize = subs.len();
    let mut acc: Vec<String> = Vec::new();
    let mut j: usize = start;
    proof {
        assert(acc.deep_view() =~= Seq::<Seq<char>>::empty());
    }
    while j < n && !is_key_subtag(&subs[j])
        invariant
            n == subs.len(),
            start <= j <= n,
            value_run(subs.deep_view().skip(start as int)) =~= acc.deep_view() + value_run(
                subs.deep_view().skip(j as int),
            ),
        decreases n - j,
    {
        let ghost rem = subs.deep_view().skip(j as int);
        proof {
            assert(rem[0] == subs.deep_view()[j as int]);
            assert(rem.skip(1) =~= subs.deep_view().skip(j as int + 1));
        }
        let ghost before = acc.deep_view();
        acc.push(subs[j].clone());
        proof {
            assert(acc.deep_view() =~= before.push(rem[0]));
            assert(value_run(rem) == seq![rem[0]] + value_run(rem.skip(1)));
            assert(value_run(subs.deep_view().skip(start as int)) =~= acc.deep_view() + value_run(
                subs.deep_view().skip(j as int + 1),
            ));
        }
        j = j + 1;
    }
    proof {
        let rem = subs.deep_view().skip(j as int);
        if j < n {
            assert(rem[0] == subs.deep_view()[j as int]);
            assert(is_key(rem[0]));
        } else {
            assert(rem =~= Seq::<Seq<char>>::empty());
        }
        assert(value_run(rem) =~= Seq::<Seq<char>>::empty());
        assert(acc.deep_view() =~= value_run(subs.deep_view().skip(start as int)));
    }
    acc
}

/// The run joined with `-` into one string.
fn join_strings(vs: &Vec<String>) -> (r: String)
    ensures
        r@ == join_run(vs.deep_view()),
{
    if vs.len() == 0 {
        let out = String::new();
        proof {
            assert(out@ =~= join_run(vs.deep_view()));
        }
        return out;
    }
    let mut out: String = vs[0].clone();
    let ghost head = out@;
    let n: usize = vs.len();
    let mut i: usize = 1;
    proof {
        assert(vs.deep_view().skip(1).take(0) =~= Seq::<Seq<char>>::empty());
    }
    while i < n
        invariant
            n == vs.len(),
            1 <= i <= n,
            head == vs.deep_view()[0],
            out@ == head + variants_part(vs.deep_view().skip(1).take(i - 1)),
        decreases n - i,
    {
        let ghost before = vs.deep_view().skip(1).take(i - 1);
        push_char(&mut out, '-');
        out.append(vs[i].as_str());
        proof {
            lemma_variants_part_push(before, vs.deep_view()[i as int]);
            assert(vs.deep_view().skip(1).take(i as int) =~= before.push(
                vs.deep_view()[i as int],
            ));
        }
        i = i + 1;
    }
    proof {
        assert(vs.deep_view().skip(1).take(n - 1) =~= vs.deep_view().skip(1));
    }
    out
}

impl Tag {
    /// The value of the given keyword inside the `u` extension block, its
    /// subtags joined with `-`, or `None` when the block or the keyword is
    /// absent. A keyword that is present with no value yields the empty
    /// string.
    pub fn keyword(&self, key: &str) -> (r: Option<String>)
        ensures
            r.deep_view() == spec_keyword(self@, key@),
    {
        let usubs: &Vec<String> = match find_extension(&self.extensions, 'u') {
            None => {
                return None;
            },
            Some(subs) => subs,
        };
        let key_string: String = String::from_str(key);
        let ghost subs_v = usubs.deep_view();
        let n: usize = usubs.len();
        let mut m: usize = 0;
        proof {
            assert(subs_v.skip(0) =~= subs_v);
        }
        while m < n
            invariant
                n == usubs.len(),
                subs_v == usubs.deep_view(),
                key_string@ == key@,
                ext_lookup(self@.extensions, 'u') == Some(subs_v),
                m <= n,
                keyword_lookup(subs_v, key@) == keyword_lookup(subs_v.skip(m as int), key@),
            decreases n - m,
        {
            proof {
                assert(subs_v.skip(m as int)[0] == subs_v[m as int]);
                assert(subs_v.skip(m as int).skip(1) =~= subs_v.skip(m as int + 1));
            }
            if usubs[m].eq(&key_string) {
                proof {
                    assert(usubs[m as int]@ == key_string@);
                    assert(subs_v[m as int] == usubs[m as int]@);
                    assert(subs_v[m as int] == key@);
                }
                let run = collect_run(usubs, m + 1);
                let joined = join_strings(&run);
                proof {
                    assert(keyword_lookup(subs_v, key@) == Some(value_run(subs_v.skip(m as int + 1))));
                    assert(joined@ == join_run(value_run(subs_v.skip(m as int + 1))));
                    assert(Some(joined).deep_view() == Some(joined@));
                }
                return Some(joined);
            }
            m = m + 1;
        }
        proof {
            assert(subs_v.skip(n as int) =~= Seq::<Seq<char>>::empty());
        }
        None
    }
}

} // verus!
