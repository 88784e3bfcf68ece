//! Character classes, case normalization and the shape predicates for the
//! individual subtags of a language tag.

use vstd::prelude::*;
use vstd::string::StrSliceExecFns;

verus! {

// ---------------------------------------------------------------------------
// Character classes
// ---------------------------------------------------------------------------
pub open spec fn spec_is_lower(c: char) -> bool {
    'a' <= c && c <= 'z'
}

pub open spec fn spec_is_upper(c: char) -> bool {
    'A' <= c && c <= 'Z'
}

pub open spec fn spec_is_alpha(c: char) -> bool {
    spec_is_lower(c) || spec_is_upper(c)
}

pub open spec fn spec_is_digit(c: char) -> bool {
    '0' <= c && c <= '9'
}

pub open spec fn spec_is_alphanum(c: char) -> bool {
    spec_is_alpha(c) || spec_is_digit(c)
}

pub open spec fn spec_to_lower(c: char) -> char {
    if spec_is_upper(c) {
        ((c as u32) + 32) as char
    } else {
        c
    }
}

pub open spec fn spec_to_upper(c: char) -> char {
    if spec_is_lower(c) {
        ((c as u32) - 32) as char
    } else {
        c
    }
}

// ---------------------------------------------------------------------------
// Case normalization of whole subtags
// ---------------------------------------------------------------------------
/// Every character lowered.
pub open spec fn lower_seq(s: Seq<char>) -> Seq<char> {
    s.map_values(|c: char| spec_to_lower(c))
}

/// Every character raised.
pub open spec fn upper_seq(s: Seq<char>) -> Seq<char> {
    s.map_values(|c: char| spec_to_upper(c))
}

/// First character raised, the rest lowered (the canonical script form).
pub open spec fn title_seq(s: Seq<char>) -> Seq<char> {
    if s.len() == 0 {
        s
    } else {
        seq![spec_to_upper(s[0])] + lower_seq(s.skip(1))
    }
}

// ---------------------------------------------------------------------------
// Subtag shape predicates (over the raw, not yet normalized characters)
// ---------------------------------------------------------------------------
pub open spec fn all_alpha(s: Seq<char>) -> bool {
    forall|i: int| 0 <= i < s.len() ==> spec_is_alpha(#[trigger] s[i])
}

pub open spec fn all_digit(s: Seq<char>) -> bool {
    forall|i: int| 0 <= i < s.len() ==> spec_is_digit(#[trigger] s[i])
}

pub open spec fn all_alphanum(s: Seq<char>) -> bool {
    forall|i: int| 0 <= i < s.len() ==> spec_is_alphanum(#[trigger] s[i])
}

/// Primary language subtag: 2 to 8 alphabetic characters.
pub open spec fn is_language_subtag(s: Seq<char>) -> bool {
    2 <= s.len() && s.len() <= 8 && all_alpha(s)
}

/// Script subtag: exactly 4 alphabetic characters.
pub open spec fn is_script_subtag(s: Seq<char>) -> bool {
    s.len() == 4 && all_alpha(s)
}

/// Region subtag: exactly 2 alphabetic or exactly 3 numeric characters.
pub open spec fn is_region_subtag(s: Seq<char>) -> bool {
    (s.len() == 2 && all_alpha(s)) || (s.len() == 3 && all_digit(s))
}

/// Variant subtag: 4 alphanumeric characters starting with a digit, or 5 to 8
/// alphanumeric characters.
pub open spec fn is_variant_subtag(s: Seq<char>) -> bool {
    (s.len() == 4 && all_alphanum(s) && spec_is_digit(s[0])) || (5 <= s.len() && s.len() <= 8
        && all_alphanum(s))
}

/// Extension singleton: one alphanumeric character other than `x`.
pub open spec fn is_singleton_subtag(s: Seq<char>) -> bool {
    s.len() == 1 && spec_is_alphanum(s[0]) && spec_to_lower(s[0]) != 'x'
}

/// The subtag that introduces the private-use block: a lone `x`.
pub open spec fn is_private_intro(s: Seq<char>) -> bool {
    s.len() == 1 && spec_to_lower(s[0]) == 'x'
}

/// A subtag inside an extension block: 2 to 8 alphanumeric characters (a
/// one-character subtag would introduce the next block instead).
pub open spec fn is_extension_subtag(s: Seq<char>) -> bool {
    2 <= s.len() && s.len() <= 8 && all_alphanum(s)
}

/// A subtag inside the private-use block: 1 to 8 alphanumeric characters.
pub open spec fn is_private_subtag(s: Seq<char>) -> bool {
    1 <= s.len() && s.len() <= 8 && all_alphanum(s)
}

/// The reserved code of the undetermined language, in lower case.
pub open spec fn und_seq() -> Seq<char> {
    seq!['u', 'n', 'd']
}

// ---------------------------------------------------------------------------
// Facts about case normalization
// ---------------------------------------------------------------------------
pub proof fn lemma_char_case(c: char)
    ensures
        spec_is_alpha(c) ==> spec_is_lower(spec_to_lower(c)) && spec_is_upper(spec_to_upper(c)),
        spec_is_digit(c) ==> spec_to_lower(c) == c && spec_to_upper(c) == c,
        spec_is_alphanum(c) ==> spec_is_alphanum(spec_to_lower(c)) && spec_is_alphanum(
            spec_to_upper(c),
        ),
        spec_to_lower(spec_to_lower(c)) == spec_to_lower(c),
        spec_to_upper(spec_to_upper(c)) == spec_to_upper(c),
        spec_is_alphanum(c) ==> c != '-' && spec_to_lower(c) != '-',
        spec_to_lower(c) == 'x' <==> (c == 'x' || c == 'X'),
{
}

pub proof fn lemma_lower_seq(s: Seq<char>)
    ensures
        lower_seq(s).len() == s.len(),
        forall|i: int| 0 <= i < s.len() ==> lower_seq(s)[i] == spec_to_lower(s[i]),
        all_alpha(s) ==> all_alpha(lower_seq(s)),
        all_alphanum(s) ==> all_alphanum(lower_seq(s)),
        lower_seq(lower_seq(s)) == lower_seq(s),
{
    assert forall|i: int| 0 <= i < s.len() implies lower_seq(s)[i] == spec_to_lower(s[i]) by {}
    if all_alpha(s) {
        assert forall|i: int| 0 <= i < s.len() implies spec_is_alpha(#[trigger] lower_seq(s)[i])
            by {
            lemma_char_case(s[i]);
        }
    }
    if all_alphanum(s) {
        assert forall|i: int| 0 <= i < s.len() implies spec_is_alphanum(#[trigger] lower_seq(s)[i])
            by {
            lemma_char_case(s[i]);
        }
    }
    assert forall|i: int| 0 <= i < s.len() implies lower_seq(lower_seq(s))[i] == lower_seq(s)[i]
        by {
        lemma_char_case(s[i]);
    }
    assert(lower_seq(lower_seq(s)) =~= lower_seq(s));
}

pub proof fn lemma_upper_seq(s: Seq<char>)
    ensures
        upper_seq(s).len() == s.len(),
        forall|i: int| 0 <= i < s.len() ==> upper_seq(s)[i] == spec_to_upper(s[i]),
        all_alpha(s) ==> all_alpha(upper_seq(s)),
        all_digit(s) ==> upper_seq(s) == s,
        upper_seq(upper_seq(s)) == upper_seq(s),
{
    if all_alpha(s) {
        assert forall|i: int| 0 <= i < s.len() implies spec_is_alpha(#[trigger] upper_seq(s)[i])
            by {
            lemma_char_case(s[i]);
        }
    }
    if all_digit(s) {
        assert forall|i: int| 0 <= i < s.len() implies upper_seq(s)[i] == s[i] by {
            lemma_char_case(s[i]);
        }
        assert(upper_seq(s) =~= s);
    }
    assert forall|i: int| 0 <= i < s.len() implies upper_seq(upper_seq(s))[i] == upper_seq(s)[i]
        by {
        lemma_char_case(s[i]);
    }
    assert(upper_seq(upper_seq(s)) =~= upper_seq(s));
}

pub proof fn lemma_title_seq(s: Seq<char>)
    requires
        s.len() > 0,
    ensures
        title_seq(s).len() == s.len(),
        title_seq(s)[0] == spec_to_upper(s[0]),
        forall|i: int| 1 <= i < s.len() ==> title_seq(s)[i] == spec_to_lower(s[i]),
        all_alpha(s) ==> all_alpha(title_seq(s)),
        title_seq(title_seq(s)) == title_seq(s),
{
    lemma_lower_seq(s.skip(1));
    assert forall|i: int| 1 <= i < s.len() implies title_seq(s)[i] == spec_to_lower(s[i]) by {
        assert(title_seq(s)[i] == lower_seq(s.skip(1))[i - 1]);
    }
    if all_alpha(s) {
        assert forall|i: int| 0 <= i < s.len() implies spec_is_alpha(#[trigger] title_seq(s)[i])
            by {
            lemma_char_case(s[i]);
        }
    }
    let t = title_seq(s);
    lemma_lower_seq(t.skip(1));
    assert forall|i: int| 0 <= i < s.len() implies title_seq(t)[i] == t[i] by {
        lemma_char_case(s[i]);
        if i >= 1 {
            assert(title_seq(t)[i] == lower_seq(t.skip(1))[i - 1]);
            assert(t[i] == spec_to_lower(s[i]));
        }
    }
    assert(title_seq(t) =~= t);
}

/// Normalized subtags keep the shape of their position, and normalizing
/// twice is normalizing once.
pub proof fn lemma_norm_subtag(s: Seq<char>)
    ensures
        is_language_subtag(s) ==> is_language_subtag(lower_seq(s)),
        is_variant_subtag(s) ==> is_variant_subtag(lower_seq(s)),
        is_extension_subtag(s) ==> is_extension_subtag(lower_seq(s)),
        is_private_subtag(s) ==> is_private_subtag(lower_seq(s)),
        is_script_subtag(s) ==> is_script_subtag(title_seq(s)),
        is_region_subtag(s) ==> is_region_subtag(upper_seq(s)),
        lower_seq(lower_seq(s)) == lower_seq(s),
{
    lemma_lower_seq(s);
    lemma_upper_seq(s);
    if s.len() > 0 {
        lemma_title_seq(s);
        lemma_char_case(s[0]);
    }
    if is_region_subtag(s) && s.len() == 3 {
        assert(upper_seq(s) == s);
    }
}

// ---------------------------------------------------------------------------
// Executable character helpers
// ---------------------------------------------------------------------------
pub fn is_alpha_char(c: char) -> (r: bool)
    ensures
        r == spec_is_alpha(c),
{
    ('a' <= c && c <= 'z') || ('A' <= c && c <= 'Z')
}

pub fn is_digit_char(c: char) -> (r: bool)
    ensures
        r == spec_is_digit(c),
{
    '0' <= c && c <= '9'
}

pub fn is_alphanum_char(c: char) -> (r: bool)
    ensures
        r == spec_is_alphanum(c),
{
    is_alpha_char(c) || is_digit_char(c)
}

pub fn to_lower_char(c: char) -> (r: char)
    ensures
        r == spec_to_lower(c),
{
    if 'A' <= c && c <= 'Z' {
        ((c as u8) + 32) as char
    } else {
        c
    }
}

pub fn to_upper_char(c: char) -> (r: char)
    ensures
        r == spec_to_upper(c),
{
    if 'a' <= c && c <= 'z' {
        ((c as u8) - 32) as char
    } else {
        c
    }
}

/// Relies on String::push: appends exactly the given character to the end.
#[verifier::external_body]
pub(crate) fn push_char(s: &mut String, c: char)
    ensures
        final(s)@ == old(s)@ + seq![c],
{
    s.push(c)
}

// ---------------------------------------------------------------------------
// Executable case normalization of whole subtags
// ---------------------------------------------------------------------------
pub fn lower_string(s: &str) -> (r: String)
    ensures
        r@ == lower_seq(s@),
{
    let n: usize = s.unicode_len();
    let mut out = String::new();
    let mut i: usize = 0;
    while i < n
        invariant
            n == s@.len(),
            i <= n,
            out@.len() == i,
            forall|k: int| 0 <= k < i ==> out@[k] == spec_to_lower(s@[k]),
        decreases n - i,
    {
        let c = s.get_char(i);
        push_char(&mut out, to_lower_char(c));
        i = i + 1;
    }
    proof {
        assert(out@ =~= lower_seq(s@));
    }
    out
}

pub fn upper_string(s: &str) -> (r: String)
    ensures
        r@ == upper_seq(s@),
{
    let n: usize = s.unicode_len();
    let mut out = String::new();
    let mut i: usize = 0;
    while i < n
        invariant
            n == s@.len(),
            i <= n,
            out@.len() == i,
            forall|k: int| 0 <= k < i ==> out@[k] == spec_to_upper(s@[k]),
        decreases n - i,
    {
        let c = s.get_char(i);
        push_char(&mut out, to_upper_char(c));
        i = i + 1;
    }
    proof {
        assert(out@ =~= upper_seq(s@));
    }
    out
}

pub fn title_string(s: &str) -> (r: String)
    ensures
        r@ == title_seq(s@),
{
    let n: usize = s.unicode_len();
    let mut out = String::new();
    let mut i: usize = 0;
    while i < n
        invariant
            n == s@.len(),
            i <= n,
            out@.len() == i,
            forall|k: int|
                0 <= k < i ==> out@[k] == (if k == 0 {
                    spec_to_upper(s@[0])
                } else {
                    spec_to_lower(s@[k])
                }),
        decreases n - i,
    {
        let c = s.get_char(i);
        if i == 0 {
            push_char(&mut out, to_upper_char(c));
        } else {
            push_char(&mut out, to_lower_char(c));
        }
        i = i + 1;
    }
    proof {
        assert(out@ =~= title_seq(s@));
    }
    out
}

// ---------------------------------------------------------------------------
// Executable subtag classification
// ---------------------------------------------------------------------------
pub fn check_all_alpha(s: &str) -> (r: bool)
    ensures
        r == all_alpha(s@),
{
    let n: usize = s.unicode_len();
    let mut i: usize = 0;
    while i < n
        invariant
            n == s@.len(),
            i <= n,
            forall|k: int| 0 <= k < i ==> spec_is_alpha(#[trigger] s@[k]),
        decreases n - i,
    {
        if !is_alpha_char(s.get_char(i)) {
            return false;
        }
        i = i + 1;
    }
    true
}

pub fn check_all_digit(s: &str) -> (r: bool)
    ensures
        r == all_digit(s@),
{
    let n: usize = s.unicode_len();
    let mut i: usize = 0;
    while i < n
        invariant
            n == s@.len(),
            i <= n,
            forall|k: int| 0 <= k < i ==> spec_is_digit(#[trigger] s@[k]),
        decreases n - i,
    {
        if !is_digit_char(s.get_char(i)) {
            return false;
        }
        i = i + 1;
    }
    true
}

pub fn check_all_alphanum(s: &str) -> (r: bool)
    ensures
        r == all_alphanum(s@),
{
    let n: usize = s.unicode_len();
    let mut i: usize = 0;
    while i < n
        invariant
            n == s@.len(),
            i <= n,
            forall|k: int| 0 <= k < i ==> spec_is_alphanum(#[trigger] s@[k]),
        decreases n - i,
    {
        if !is_alphanum_char(s.get_char(i)) {
            return false;
        }
        i = i + 1;
    }
    true
}

pub fn is_language(s: &str) -> (r: bool)
    ensures
        r == is_language_subtag(s@),
{
    let n: usize = s.unicode_len();
    2 <= n && n <= 8 && check_all_alpha(s)
}

pub fn is_script(s: &str) -> (r: bool)
    ensures
        r == is_script_subtag(s@),
{
    let n: usize = s.unicode_len();
    n == 4 && check_all_alpha(s)
}

pub fn is_region(s: &str) -> (r: bool)
    ensures
        r == is_region_subtag(s@),
{
    let n: usize = s.unicode_len();
    (n == 2 && check_all_alpha(s)) || (n == 3 && check_all_digit(s))
}

pub fn is_variant(s: &str) -> (r: bool)
    ensures
        r == is_variant_subtag(s@),
{
    let n: usize = s.unicode_len();
    if n == 4 {
        check_all_alphanum(s) && is_digit_char(s.get_char(0))
    } else {
        5 <= n && n <= 8 && check_all_alphanum(s)
    }
}

pub fn is_singleton(s: &str) -> (r: bool)
    ensures
        r == is_singleton_subtag(s@),
{
    let n: usize = s.unicode_len();
    n == 1 && is_alphanum_char(s.get_char(0)) && to_lower_char(s.get_char(0)) != 'x'
}

pub fn is_private_intro_subtag(s: &str) -> (r: bool)
    ensures
        r == is_private_intro(s@),
{
    let n: usize = s.unicode_len();
    n == 1 && to_lower_char(s.get_char(0)) == 'x'
}

pub fn is_extension_inner(s: &str) -> (r: bool)
    ensures
        r == is_extension_subtag(s@),
{
    let n: usize = s.unicode_len();
    2 <= n && n <= 8 && check_all_alphanum(s)
}

pub fn is_private_inner(s: &str) -> (r: bool)
    ensures
        r == is_private_subtag(s@),
{
    let n: usize = s.unicode_len();
    1 <= n && n <= 8 && check_all_alphanum(s)
}

/// True when the subtag, lowered, is the reserved code `und`.
pub fn is_und(s: &str) -> (r: bool)
    ensures
        r == (lower_seq(s@) == und_seq()),
{
    let n: usize = s.unicode_len();
    let r = n == 3 && to_lower_char(s.get_char(0)) == 'u' && to_lower_char(s.get_char(1)) == 'n'
        && to_lower_char(s.get_char(2)) == 'd';
    proof {
        if r {
            assert(lower_seq(s@) =~= und_seq());
        } else {
            if lower_seq(s@) == und_seq() {
                assert(lower_seq(s@).len() == 3);
                assert(lower_seq(s@)[0] == 'u' && lower_seq(s@)[1] == 'n' && lower_seq(s@)[2]
                    == 'd');
            }
        }
    }
    r
}

} // verus!

