//! Grammar-driven parsing of a tag string: the subtags are consumed in strict
//! order (language, script, region, variants, extension blocks, private-use
//! block), case-normalized and collected into a [`Tag`], or the whole parse
//! fails with a structural error.

use vstd::prelude::*;
use crate::split::{split_dash, split_tag};
use crate::subtag::{
    is_extension_inner, is_extension_subtag, is_language, is_language_subtag, is_private_inner,
    is_private_intro, is_private_intro_subtag, is_private_subtag, is_region, is_region_subtag,
    is_script, is_script_subtag, is_singleton, is_singleton_subtag, is_und, is_variant,
    is_variant_subtag, lower_seq, lower_string, spec_to_lower, title_seq, title_string,
    to_lower_char, und_seq, upper_seq, upper_string,
};
use crate::tag::{sentinel_view, wf_extension, wf_tag, Extension, ExtensionView, Tag, TagView};
use vstd::string::StrSliceExecFns;

verus! {

/// The structural parse failure: the input violates the tag grammar at some
/// subtag position. No partial result is carried.
#[derive(Debug, Clone, Copy, PartialEq, Eq, Structural)]
pub enum TagError {
    Malformed,
}

/// True when one of the collected extension blocks already uses the key.
pub open spec fn has_singleton(exts: Seq<ExtensionView>, k: char) -> bool {
    exists|i: int| 0 <= i < exts.len() && exts[i].singleton == k
}

// ---------------------------------------------------------------------------
// The grammar, one stage per position, each consuming from the front of the
// remaining subtag sequence.
// ---------------------------------------------------------------------------
pub open spec fn parse_language(subs: Seq<Seq<char>>) -> Option<TagView>
    decreases subs.len(), 6int,
{
    let t = sentinel_view();
    if subs.len() >= 1 && is_language_subtag(subs[0]) {
        let l = lower_seq(subs[0]);
        if l == und_seq() {
            parse_script(subs.skip(1), t)
        } else {
            parse_script(subs.skip(1), TagView { language: Some(l), ..t })
        }
    } else {
        parse_script(subs, t)
    }
}

pub open spec fn parse_script(subs: Seq<Seq<char>>, t: TagView) -> Option<TagView>
    decreases subs.len(), 5int,
{
    if subs.len() >= 1 && is_script_subtag(subs[0]) {
        parse_region(subs.skip(1), TagView { script: Some(title_seq(subs[0])), ..t })
    } else {
        parse_region(subs, t)
    }
}

pub open spec fn parse_region(subs: Seq<Seq<char>>, t: TagView) -> Option<TagView>
    decreases subs.len(), 4int,
{
    if subs.len() >= 1 && is_region_subtag(subs[0]) {
        parse_variants(subs.skip(1), TagView { region: Some(upper_seq(subs[0])), ..t })
    } else {
        parse_variants(subs, t)
    }
}

pub open spec fn parse_variants(subs: Seq<Seq<char>>, t: TagView) -> Option<TagView>
    decreases subs.len(), 3int,
{
    if subs.len() >= 1 && is_variant_subtag(subs[0]) {
        let v = lower_seq(subs[0]);
        if t.variants.contains(v) {
            None
        } else {
            parse_variants(subs.skip(1), TagView { variants: t.variants.push(v), ..t })
        }
    } else {
        parse_extensions(subs, t)
    }
}

pub open spec fn parse_extensions(subs: Seq<Seq<char>>, t: TagView) -> Option<TagView>
    decreases subs.len(), 2int,
{
    if subs.len() == 0 {
        Some(t)
    } else if is_private_intro(subs[0]) {
        parse_private(subs.skip(1), t, Seq::empty())
    } else if is_singleton_subtag(subs[0]) {
        let k = spec_to_lower(subs[0][0]);
        if has_singleton(t.extensions, k) {
            None
        } else {
            parse_ext_block(subs.skip(1), t, k, Seq::empty())
        }
    } else {
        None
    }
}

pub open spec fn parse_ext_block(
    subs: Seq<Seq<char>>,
    t: TagView,
    k: char,
    acc: Seq<Seq<char>>,
) -> Option<TagView>
    decreases subs.len(), 3int,
{
    if subs.len() >= 1 && is_extension_subtag(subs[0]) {
        parse_ext_block(subs.skip(1), t, k, acc.push(lower_seq(subs[0])))
    } else if acc.len() == 0 {
        // an extension block must carry at least one subtag
        None
    } else {
        parse_extensions(
            subs,
            TagView {
                extensions: t.extensions.push(ExtensionView { singleton: k, subtags: acc }),
                ..t
            },
        )
    }
}

pub open spec fn parse_private(subs: Seq<Seq<char>>, t: TagView, acc: Seq<Seq<char>>) -> Option<
    TagView,
>
    decreases subs.len(), 1int,
{
    if subs.len() == 0 {
        if acc.len() == 0 {
            // the private-use block must carry at least one subtag
            None
        } else {
            Some(TagView { private_use: Some(acc), ..t })
        }
    } else if is_private_subtag(subs[0]) {
        parse_private(subs.skip(1), t, acc.push(lower_seq(subs[0])))
    } else {
        None
    }
}

/// What parsing the whole string yields: its subtags consumed against the
/// grammar in strict order, or nothing when the string is malformed.
pub open spec fn spec_parse(s: Seq<char>) -> Option<TagView> {
    parse_language(split_dash(s))
}

// ---------------------------------------------------------------------------
// Every tag the parser yields is well formed
// ---------------------------------------------------------------------------
pub proof fn lemma_parse_private_wf(subs: Seq<Seq<char>>, t: TagView, acc: Seq<Seq<char>>)
    requires
        wf_tag(t),
        forall|i: int|
            0 <= i < acc.len() ==> is_private_subtag(#[trigger] acc[i]) && lower_seq(acc[i])
                == acc[i],
    ensures
        parse_private(subs, t, acc) is Some ==> wf_tag(parse_private(subs, t, acc).unwrap()),
    decreases subs.len(), 1int,
{
    if subs.len() == 0 {
    } else if is_private_subtag(subs[0]) {
        crate::subtag::lemma_norm_subtag(subs[0]);
        let acc2 = acc.push(lower_seq(subs[0]));
        assert forall|i: int|
            0 <= i < acc2.len() implies is_private_subtag(#[trigger] acc2[i]) && lower_seq(acc2[i])
            == acc2[i] by {
            if i < acc.len() {
                assert(acc2[i] == acc[i]);
            }
        }
        lemma_parse_private_wf(subs.skip(1), t, acc2);
    }
}

pub proof fn lemma_parse_ext_block_wf(subs: Seq<Seq<char>>, t: TagView, k: char, acc: Seq<Seq<char>>)
    requires
        wf_tag(t),
        crate::subtag::spec_is_alphanum(k),
        spec_to_lower(k) == k,
        k != 'x',
        !has_singleton(t.extensions, k),
        forall|i: int|
            0 <= i < acc.len() ==> is_extension_subtag(#[trigger] acc[i]) && lower_seq(acc[i])
                == acc[i],
    ensures
        parse_ext_block(subs, t, k, acc) is Some ==> wf_tag(
            parse_ext_block(subs, t, k, acc).unwrap(),
        ),
    decreases subs.len(), 3int,
{
    if subs.len() >= 1 && is_extension_subtag(subs[0]) {
        crate::subtag::lemma_norm_subtag(subs[0]);
        let acc2 = acc.push(lower_seq(subs[0]));
        assert forall|i: int|
            0 <= i < acc2.len() implies is_extension_subtag(#[trigger] acc2[i]) && lower_seq(
            acc2[i],
        ) == acc2[i] by {
            if i < acc.len() {
                assert(acc2[i] == acc[i]);
            }
        }
        lemma_parse_ext_block_wf(subs.skip(1), t, k, acc2);
    } else if acc.len() == 0 {
    } else {
        let e = ExtensionView { singleton: k, subtags: acc };
        let t2 = TagView { extensions: t.extensions.push(e), ..t };
        assert forall|i: int| 0 <= i < t2.extensions.len() implies wf_extension(
            #[trigger] t2.extensions[i],
        ) by {
            if i < t.extensions.len() {
                assert(t2.extensions[i] == t.extensions[i]);
            }
        }
        assert forall|i: int, j: int| 0 <= i < j < t2.extensions.len() implies (
        #[trigger] t2.extensions[i]).singleton != (#[trigger] t2.extensions[j]).singleton by {
            if j < t.extensions.len() {
            } else {
                assert(t2.extensions[i] == t.extensions[i]);
            }
        }
        assert(wf_tag(t2));
        lemma_parse_extensions_wf(subs, t2);
    }
}

pub proof fn lemma_parse_extensions_wf(subs: Seq<Seq<char>>, t: TagView)
    requires
        wf_tag(t),
    ensures
        parse_extensions(subs, t) is Some ==> wf_tag(parse_extensions(subs, t).unwrap()),
    decreases subs.len(), 2int,
{
    if subs.len() == 0 {
    } else if is_private_intro(subs[0]) {
        lemma_parse_private_wf(subs.skip(1), t, Seq::empty());
    } else if is_singleton_subtag(subs[0]) {
        let k = spec_to_lower(subs[0][0]);
        crate::subtag::lemma_char_case(subs[0][0]);
        if !has_singleton(t.extensions, k) {
            lemma_parse_ext_block_wf(subs.skip(1), t, k, Seq::empty());
        }
    }
}

pub proof fn lemma_parse_variants_wf(subs: Seq<Seq<char>>, t: TagView)
    requires
        wf_tag(t),
    ensures
        parse_variants(subs, t) is Some ==> wf_tag(parse_variants(subs, t).unwrap()),
    decreases subs.len(), 3int,
{
    if subs.len() >= 1 && is_variant_subtag(subs[0]) {
        let v = lower_seq(subs[0]);
        if !t.variants.contains(v) {
            crate::subtag::lemma_norm_subtag(subs[0]);
            let t2 = TagView { variants: t.variants.push(v), ..t };
            assert forall|i: int| 0 <= i < t2.variants.len() implies is_variant_subtag(
                #[trigger] t2.variants[i],
            ) && lower_seq(t2.variants[i]) == t2.variants[i] by {
                if i < t.variants.len() {
                    assert(t2.variants[i] == t.variants[i]);
                }
            }
            assert forall|i: int, j: int| 0 <= i < j < t2.variants.len() implies t2.variants[i]
                != t2.variants[j] by {
                if j < t.variants.len() {
                } else {
                    assert(t2.variants[i] == t.variants[i]);
                    assert(t.variants.contains(t.variants[i]));
                }
            }
            assert(wf_tag(t2));
            lemma_parse_variants_wf(subs.skip(1), t2);
        }
    } else {
        lemma_parse_extensions_wf(subs, t);
    }
}

pub proof fn lemma_parse_region_wf(subs: Seq<Seq<char>>, t: TagView)
    requires
        wf_tag(t),
    ensures
        parse_region(subs, t) is Some ==> wf_tag(parse_region(subs, t).unwrap()),
    decreases subs.len(), 4int,
{
    if subs.len() >= 1 && is_region_subtag(subs[0]) {
        crate::subtag::lemma_norm_subtag(subs[0]);
        crate::subtag::lemma_upper_seq(subs[0]);
        lemma_parse_variants_wf(
            subs.skip(1),
            TagView { region: Some(upper_seq(subs[0])), ..t },
        );
    } else {
        lemma_parse_variants_wf(subs, t);
    }
}

pub proof fn lemma_parse_script_wf(subs: Seq<Seq<char>>, t: TagView)
    requires
        wf_tag(t),
    ensures
        parse_script(subs, t) is Some ==> wf_tag(parse_script(subs, t).unwrap()),
    decreases subs.len(), 5int,
{
    if subs.len() >= 1 && is_script_subtag(subs[0]) {
        crate::subtag::lemma_norm_subtag(subs[0]);
        crate::subtag::lemma_title_seq(subs[0]);
        crate::subtag::lemma_title_seq(title_seq(subs[0]));
        lemma_parse_region_wf(
            subs.skip(1),
            TagView { script: Some(title_seq(subs[0])), ..t },
        );
    } else {
        lemma_parse_region_wf(subs, t);
    }
}

/// Any tag that the parser yields satisfies the tag invariant.
pub proof fn lemma_parse_wf(s: Seq<char>)
    ensures
        spec_parse(s) is Some ==> wf_tag(spec_parse(s).unwrap()),
{
    let subs = split_dash(s);
    let t = sentinel_view();
    assert(wf_tag(t));
    if subs.len() >= 1 && is_language_subtag(subs[0]) {
        let l = lower_seq(subs[0]);
        crate::subtag::lemma_norm_subtag(subs[0]);
        if l == und_seq() {
            lemma_parse_script_wf(subs.skip(1), t);
        } else {
            lemma_parse_script_wf(subs.skip(1), TagView { language: Some(l), ..t });
        }
    } else {
        lemma_parse_script_wf(subs, t);
    }
}

pub open spec fn opt_tag_view(r: Option<Tag>) -> Option<TagView> {
    match r {
        None => None,
        Some(t) => Some(t@),
    }
}

// ---------------------------------------------------------------------------
// Executable mirror, one function per stage
// ---------------------------------------------------------------------------
fn px_script(subs: &Vec<String>, i: usize, t: Tag) -> (r: Option<Tag>)
    requires
        i <= subs.len(),
    ensures
        opt_tag_view(r) == parse_script(subs.deep_view().skip(i as int), t@),
    decreases subs.len() - i, 5int,
{
    let ghost rem = subs.deep_view().skip(i as int);
    proof {
        if i < subs.len() {
            assert(rem[0] == subs.deep_view()[i as int]);
            assert(rem.skip(1) =~= subs.deep_view().skip(i as int + 1));
        }
    }
    if i < subs.len() && is_script(subs[i].as_str()) {
        let norm = title_string(subs[i].as_str());
        px_region(subs, i + 1, Tag { script: Some(norm), ..t })
    } else {
        px_region(subs, i, t)
    }
}

fn px_region(subs: &Vec<String>, i: usize, t: Tag) -> (r: Option<Tag>)
    requires
        i <= subs.len(),
    ensures
        opt_tag_view(r) == parse_region(subs.deep_view().skip(i as int), t@),
    decreases subs.len() - i, 4int,
{
    let ghost rem = subs.deep_view().skip(i as int);
    proof {
        if i < subs.len() {
            assert(rem[0] == subs.deep_view()[i as int]);
            assert(rem.skip(1) =~= subs.deep_view().skip(i as int + 1));
        }
    }
    if i < subs.len() && is_region(subs[i].as_str()) {
        let norm = upper_string(subs[i].as_str());
        px_variants(subs, i + 1, Tag { region: Some(norm), ..t })
    } else {
        px_variants(subs, i, t)
    }
}

/// True when the string already occurs among the collected subtags.
fn contains_str(vec: &Vec<String>, s: &String) -> (r: bool)
    ensures
        r == vec.deep_view().contains(s@),
{
    let n: usize = vec.len();
    let mut k: usize = 0;
    while k < n
        invariant
            n == vec.len(),
            k <= n,
            forall|m: int| 0 <= m < k ==> vec.deep_view()[m] != s@,
        decreases n - k,
    {
        if vec[k].eq(s) {
            proof {
                assert(vec.deep_view()[k as int] == s@);
            }
            return true;
        }
        k = k + 1;
    }
    proof {
        assert(!vec.deep_view().contains(s@));
    }
    false
}

fn px_variants(subs: &Vec<String>, i: usize, t: Tag) -> (r: Option<Tag>)
    requires
        i <= subs.len(),
    ensures
        opt_tag_view(r) == parse_variants(subs.deep_view().skip(i as int), t@),
    decreases subs.len() - i, 3int,
{
    let ghost rem = subs.deep_view().skip(i as int);
    proof {
        if i < subs.len() {
            assert(rem[0] == subs.deep_view()[i as int]);
            assert(rem.skip(1) =~= subs.deep_view().skip(i as int + 1));
        }
    }
    if i < subs.len() && is_variant(subs[i].as_str()) {
        let norm = lower_string(subs[i].as_str());
        if contains_str(&t.variants, &norm) {
            None
        } else {
            let mut t2 = t;
            let ghost before = t2.variants.deep_view();
            t2.variants.push(norm);
            proof {
                assert(t2.variants.deep_view() =~= before.push(lower_seq(rem[0])));
                assert(t2@ =~= TagView { variants: t@.variants.push(lower_seq(rem[0])), ..t@ });
            }
            px_variants(subs, i + 1, t2)
        }
    } else {
        px_extensions(subs, i, t)
    }
}

/// True when one of the collected extension blocks already uses the key.
fn has_singleton_key(exts: &Vec<Extension>, k: char) -> (r: bool)
    ensures
        r == has_singleton(exts@.map_values(|e: Extension| e@), k),
{
    let ghost views = exts@.map_values(|e: Extension| e@);
    let n: usize = exts.len();
    let mut m: usize = 0;
    while m < n
        invariant
            n == exts.len(),
            m <= n,
            views == exts@.map_values(|e: Extension| e@),
            forall|j: int| 0 <= j < m ==> views[j].singleton != k,
        decreases n - m,
    {
        if exts[m].singleton == k {
            proof {
                assert(views[m as int].singleton == k);
            }
            return true;
        }
        m = m + 1;
    }
    false
}

fn px_extensions(subs: &Vec<String>, i: usize, t: Tag) -> (r: Option<Tag>)
    requires
        i <= subs.len(),
    ensures
        opt_tag_view(r) == parse_extensions(subs.deep_view().skip(i as int), t@),
    decreases subs.len() - i, 2int,
{
    let ghost rem = subs.deep_view().skip(i as int);
    proof {
        if i < subs.len() {
            assert(rem[0] == subs.deep_view()[i as int]);
            assert(rem.skip(1) =~= subs.deep_view().skip(i as int + 1));
        }
    }
    if i == subs.len() {
        Some(t)
    } else if is_private_intro_subtag(subs[i].as_str()) {
        let fresh: Vec<String> = Vec::new();
        proof {
            assert(fresh.deep_view() =~= Seq::<Seq<char>>::empty());
        }
        px_private(subs, i + 1, t, fresh)
    } else if is_singleton(subs[i].as_str()) {
        let k = to_lower_char(subs[i].as_str().get_char(0));
        proof {
            assert(subs[i as int]@ == rem[0]);
        }
        if has_singleton_key(&t.extensions, k) {
            None
        } else {
            let fresh: Vec<String> = Vec::new();
            proof {
                assert(fresh.deep_view() =~= Seq::<Seq<char>>::empty());
            }
            px_ext_block(subs, i + 1, t, k, fresh)
        }
    } else {
        None
    }
}

fn px_ext_block(subs: &Vec<String>, i: usize, t: Tag, k: char, acc: Vec<String>) -> (r: Option<
    Tag,
>)
    requires
        i <= subs.len(),
    ensures
        opt_tag_view(r) == parse_ext_block(subs.deep_view().skip(i as int), t@, k, acc.deep_view()),
    decreases subs.len() - i, 3int,
{
    let ghost rem = subs.deep_view().skip(i as int);
    proof {
        if i < subs.len() {
            assert(rem[0] == subs.deep_view()[i as int]);
            assert(rem.skip(1) =~= subs.deep_view().skip(i as int + 1));
        }
    }
    if i < subs.len() && is_extension_inner(subs[i].as_str()) {
        let norm = lower_string(subs[i].as_str());
        let mut acc2 = acc;
        let ghost before = acc2.deep_view();
        acc2.push(norm);
        proof {
            assert(acc2.deep_view() =~= before.push(lower_seq(rem[0])));
        }
        px_ext_block(subs, i + 1, t, k, acc2)
    } else if acc.len() == 0 {
        None
    } else {
        let mut t2 = t;
        let ghost exts_before = t2.extensions@.map_values(|e: Extension| e@);
        t2.extensions.push(Extension { singleton: k, subtags: acc });
        proof {
            assert(t2.extensions@.map_values(|e: Extension| e@) =~= exts_before.push(
                ExtensionView { singleton: k, subtags: acc.deep_view() },
            ));
            assert(t2@ =~= TagView {
                extensions: t@.extensions.push(
                    ExtensionView { singleton: k, subtags: acc.deep_view() },
                ),
                ..t@
            });
        }
        px_extensions(subs, i, t2)
    }
}

fn px_private(subs: &Vec<String>, i: usize, t: Tag, acc: Vec<String>) -> (r: Option<Tag>)
    requires
        i <= subs.len(),
    ensures
        opt_tag_view(r) == parse_private(subs.deep_view().skip(i as int), t@, acc.deep_view()),
    decreases subs.len() - i, 1int,
{
    let ghost rem = subs.deep_view().skip(i as int);
    proof {
        if i < subs.len() {
            assert(rem[0] == subs.deep_view()[i as int]);
            assert(rem.skip(1) =~= subs.deep_view().skip(i as int + 1));
        }
    }
    if i == subs.len() {
        if acc.len() == 0 {
            None
        } else {
            let mut t2 = t;
            t2.private_use = Some(acc);
            proof {
                assert(t2@ =~= TagView { private_use: Some(acc.deep_view()), ..t@ });
            }
            Some(t2)
        }
    } else if is_private_inner(subs[i].as_str()) {
        let norm = lower_string(subs[i].as_str());
        let mut acc2 = acc;
        let ghost before = acc2.deep_view();
        acc2.push(norm);
        proof {
            assert(acc2.deep_view() =~= before.push(lower_seq(rem[0])));
        }
        px_private(subs, i + 1, t, acc2)
    } else {
        None
    }
}

/// Parses an arbitrary string into a structured, case-normalized tag, or
/// fails with the structural error exactly when the string violates the
/// grammar.
pub fn parse_tag(s: &str) -> (r: Result<Tag, TagError>)
    ensures
        match r {
            Ok(t) => spec_parse(s@) == Some(t@) && wf_tag(t@),
            Err(e) => spec_parse(s@) is None && e == TagError::Malformed,
        },
{
    proof {
        lemma_parse_wf(s@);
    }
    let subs = split_tag(s);
    let t = Tag {
        language: None,
        script: None,
        region: None,
        variants: Vec::new(),
        extensions: Vec::new(),
        private_use: None,
    };
    proof {
        assert(t@.variants =~= Seq::<Seq<char>>::empty());
        assert(t@.extensions =~= Seq::<ExtensionView>::empty());
        assert(t@ =~= sentinel_view());
        assert(subs.deep_view() == split_dash(s@));
        assert(subs.deep_view()[0] == split_dash(s@)[0]);
        assert(subs.deep_view().skip(0) =~= subs.deep_view());
    }
    let r = if is_language(subs[0].as_str()) {
        if is_und(subs[0].as_str()) {
            px_script(&subs, 1, t)
        } else {
            let l = lower_string(subs[0].as_str());
            px_script(&subs, 1, Tag { language: Some(l), ..t })
        }
    } else {
        px_script(&subs, 0, t)
    };
    match r {
        Some(tag) => Ok(tag),
        None => Err(TagError::Malformed),
    }
}

} // verus!
