//! The structural identity of a locale: language, script, region, variants,
//! extension blocks and the private-use block, all case-normalized, together
//! with the canonical serialization of the base identity.

use vstd::prelude::*;
use vstd::string::StringExecFns;
use crate::subtag::{
    is_extension_subtag, is_language_subtag, is_private_subtag, is_region_subtag,
    is_script_subtag, is_variant_subtag, lower_seq, push_char, spec_is_alphanum, spec_to_lower,
    title_seq, und_seq, upper_seq,
};

verus! {

/// One extension block: a singleton key and its subtags, in order.
#[derive(Debug, Clone)]
pub struct Extension {
    pub singleton: char,
    pub subtags: Vec<String>,
}

#[verifier::ext_equal]
pub ghost struct ExtensionView {
    pub singleton: char,
    pub subtags: Seq<Seq<char>>,
}

impl View for Extension {
    type V = ExtensionView;

    open spec fn view(&self) -> ExtensionView {
        ExtensionView { singleton: self.singleton, subtags: self.subtags.deep_view() }
    }
}

/// The structured identity of a locale.
#[derive(Debug, Clone)]
pub struct Tag {
    pub language: Option<String>,
    pub script: Option<String>,
    pub region: Option<String>,
    pub variants: Vec<String>,
    pub extensions: Vec<Extension>,
    pub private_use: Option<Vec<String>>,
}

#[verifier::ext_equal]
pub ghost struct TagView {
    pub language: Option<Seq<char>>,
    pub script: Option<Seq<char>>,
    pub region: Option<Seq<char>>,
    pub variants: Seq<Seq<char>>,
    pub extensions: Seq<ExtensionView>,
    pub private_use: Option<Seq<Seq<char>>>,
}

impl View for Tag {
    type V = TagView;

    open spec fn view(&self) -> TagView {
        TagView {
            language: self.language.deep_view(),
            script: self.script.deep_view(),
            region: self.region.deep_view(),
            variants: self.variants.deep_view(),
            extensions: self.extensions@.map_values(|e: Extension| e@),
            private_use: match self.private_use {
                Option::None => Option::None,
                Option::Some(p) => Option::Some(p.deep_view()),
            },
        }
    }
}

/// The sentinel "undetermined" identity: every field absent.
pub open spec fn sentinel_view() -> TagView {
    TagView {
        language: Option::None,
        script: Option::None,
        region: Option::None,
        variants: Seq::empty(),
        extensions: Seq::empty(),
        private_use: Option::None,
    }
}

pub open spec fn wf_extension(e: ExtensionView) -> bool {
    &&& spec_is_alphanum(e.singleton)
    &&& spec_to_lower(e.singleton) == e.singleton
    &&& e.singleton != 'x'
    &&& e.subtags.len() >= 1
    &&& forall|i: int|
        0 <= i < e.subtags.len() ==> is_extension_subtag(#[trigger] e.subtags[i]) && lower_seq(
            e.subtags[i],
        ) == e.subtags[i]
}

/// The invariant of a parsed tag: every stored subtag has the shape of its
/// position and is already in its canonical case, variants are distinct,
/// singletons are unique, and the reserved language code `und` is never
/// stored (absence stands for it).
pub open spec fn wf_tag(t: TagView) -> bool {
    &&& match t.language {
        Option::None => true,
        Option::Some(l) => is_language_subtag(l) && lower_seq(l) == l && l != und_seq(),
    }
    &&& match t.script {
        Option::None => true,
        Option::Some(s) => is_script_subtag(s) && title_seq(s) == s,
    }
    &&& match t.region {
        Option::None => true,
        Option::Some(r) => is_region_subtag(r) && upper_seq(r) == r,
    }
    &&& forall|i: int|
        0 <= i < t.variants.len() ==> is_variant_subtag(#[trigger] t.variants[i]) && lower_seq(
            t.variants[i],
        ) == t.variants[i]
    &&& forall|i: int, j: int| 0 <= i < j < t.variants.len() ==> t.variants[i] != t.variants[j]
    &&& forall|i: int| 0 <= i < t.extensions.len() ==> wf_extension(#[trigger] t.extensions[i])
    &&& forall|i: int, j: int|
        0 <= i < j < t.extensions.len() ==> (#[trigger] t.extensions[i]).singleton != (
        #[trigger] t.extensions[j]).singleton
    &&& match t.private_use {
        Option::None => true,
        Option::Some(p) => p.len() >= 1 && forall|i: int|
            0 <= i < p.len() ==> is_private_subtag(#[trigger] p[i]) && lower_seq(p[i]) == p[i],
    }
}

// ---------------------------------------------------------------------------
// Canonical serialization of the base identity
// ---------------------------------------------------------------------------
/// `-` followed by the subtag, or nothing when the field is absent.
pub open spec fn opt_part(o: Option<Seq<char>>) -> Seq<char> {
    match o {
        Option::None => Seq::empty(),
        Option::Some(s) => seq!['-'] + s,
    }
}

/// `-v1-v2-...` for the variants, in their stored order.
pub open spec fn variants_part(vs: Seq<Seq<char>>) -> Seq<char>
    decreases vs.len(),
{
    if vs.len() == 0 {
        Seq::empty()
    } else {
        seq!['-'] + vs[0] + variants_part(vs.skip(1))
    }
}

/// The canonical base identity: language, script, region and variants joined
/// with `-`; absent exactly when the language is absent. Extensions and the
/// private-use block are deliberately left out.
pub open spec fn spec_base_name(t: TagView) -> Option<Seq<char>> {
    match t.language {
        Option::None => Option::None,
        Option::Some(l) => Option::Some(
            l + opt_part(t.script) + opt_part(t.region) + variants_part(t.variants),
        ),
    }
}

pub proof fn lemma_variants_part_push(vs: Seq<Seq<char>>, v: Seq<char>)
    ensures
        variants_part(vs.push(v)) == variants_part(vs) + seq!['-'] + v,
    decreases vs.len(),
{
    let p = vs.push(v);
    if vs.len() == 0 {
        assert(p.len() == 1);
        assert(p[0] == v);
        assert(p.skip(1) =~= Seq::<Seq<char>>::empty());
        assert(variants_part(p.skip(1)) == Seq::<char>::empty());
        assert(variants_part(p) == seq!['-'] + p[0] + variants_part(p.skip(1)));
        assert(variants_part(p) =~= variants_part(vs) + seq!['-'] + v);
    } else {
        lemma_variants_part_push(vs.skip(1), v);
        assert(p.skip(1) =~= vs.skip(1).push(v));
        assert(p[0] == vs[0]);
        assert(variants_part(p) == seq!['-'] + p[0] + variants_part(p.skip(1)));
        assert(variants_part(vs) == seq!['-'] + vs[0] + variants_part(vs.skip(1)));
        assert(variants_part(p) =~= variants_part(vs) + seq!['-'] + v);
    }
}

fn clone_string_opt(o: &Option<String>) -> (r: Option<String>)
    ensures
        r.deep_view() == o.deep_view(),
{
    match o {
        Option::None => Option::None,
        Option::Some(s) => Option::Some(s.clone()),
    }
}

fn clone_string_vec(v: &Vec<String>) -> (r: Vec<String>)
    ensures
        r.deep_view() == v.deep_view(),
{
    let n: usize = v.len();
    let mut out: Vec<String> = Vec::new();
    let mut i: usize = 0;
    while i < n
        invariant
            n == v.len(),
            i <= n,
            out.deep_view() =~= v.deep_view().take(i as int),
        decreases n - i,
    {
        let ghost before = out.deep_view();
        out.push(v[i].clone());
        proof {
            assert(out.deep_view() =~= before.push(v.deep_view()[i as int]));
            assert(out.deep_view() =~= v.deep_view().take(i + 1));
        }
        i = i + 1;
    }
    proof {
        assert(v.deep_view().take(n as int) =~= v.deep_view());
    }
    out
}

fn eq_string_opt(a: &Option<String>, b: &Option<String>) -> (r: bool)
    ensures
        r == (a.deep_view() == b.deep_view()),
{
    match (a, b) {
        (Option::None, Option::None) => true,
        (Option::Some(x), Option::Some(y)) => x.eq(y),
        _ => false,
    }
}

fn eq_string_vec(a: &Vec<String>, b: &Vec<String>) -> (r: bool)
    ensures
        r == (a.deep_view() == b.deep_view()),
{
    let n: usize = a.len();
    if n != b.len() {
        proof {
            assert(a.deep_view().len() == a@.len());
            assert(b.deep_view().len() == b@.len());
        }
        return false;
    }
    let mut i: usize = 0;
    while i < n
        invariant
            n == a.len() == b.len(),
            i <= n,
            forall|k: int| 0 <= k < i ==> a.deep_view()[k] == b.deep_view()[k],
        decreases n - i,
    {
        if !a[i].eq(&b[i]) {
            proof {
                assert(a.deep_view()[i as int] != b.deep_view()[i as int]);
            }
            return false;
        }
        i = i + 1;
    }
    proof {
        assert(a.deep_view() =~= b.deep_view());
    }
    true
}

impl Extension {
    fn duplicate(&self) -> (r: Extension)
        ensures
            r@ == self@,
    {
        let r = Extension { singleton: self.singleton, subtags: clone_string_vec(&self.subtags) };
        proof {
            assert(r@ =~= self@);
        }
        r
    }

    fn matches(&self, other: &Extension) -> (r: bool)
        ensures
            r == (self@ == other@),
    {
        let r = self.singleton == other.singleton && eq_string_vec(&self.subtags, &other.subtags);
        proof {
            if r {
                assert(self@ =~= other@);
            }
        }
        r
    }
}

fn clone_extensions(v: &Vec<Extension>) -> (r: Vec<Extension>)
    ensures
        r@.map_values(|e: Extension| e@) == v@.map_values(|e: Extension| e@),
{
    let ghost views = v@.map_values(|e: Extension| e@);
    let n: usize = v.len();
    let mut out: Vec<Extension> = Vec::new();
    let mut i: usize = 0;
    while i < n
        invariant
            n == v.len(),
            i <= n,
            views == v@.map_values(|e: Extension| e@),
            out@.map_values(|e: Extension| e@) =~= views.take(i as int),
        decreases n - i,
    {
        let ghost before = out@.map_values(|e: Extension| e@);
        out.push(v[i].duplicate());
        proof {
            assert(out@.map_values(|e: Extension| e@) =~= before.push(views[i as int]));
            assert(out@.map_values(|e: Extension| e@) =~= views.take(i + 1));
        }
        i = i + 1;
    }
    proof {
        assert(views.take(n as int) =~= views);
    }
    out
}

fn eq_extensions(a: &Vec<Extension>, b: &Vec<Extension>) -> (r: bool)
    ensures
        r == (a@.map_values(|e: Extension| e@) == b@.map_values(|e: Extension| e@)),
{
    let ghost av = a@.map_values(|e: Extension| e@);
    let ghost bv = b@.map_values(|e: Extension| e@);
    let n: usize = a.len();
    if n != b.len() {
        proof {
            assert(av.len() != bv.len());
        }
        return false;
    }
    let mut i: usize = 0;
    while i < n
        invariant
            n == a.len() == b.len(),
            i <= n,
            av == a@.map_values(|e: Extension| e@),
            bv == b@.map_values(|e: Extension| e@),
            forall|k: int| 0 <= k < i ==> av[k] == bv[k],
        decreases n - i,
    {
        if !a[i].matches(&b[i]) {
            proof {
                assert(av[i as int] != bv[i as int]);
            }
            return false;
        }
        i = i + 1;
    }
    proof {
        assert(av =~= bv);
    }
    true
}

impl Tag {
    /// An owned copy with the same structural identity.
    pub fn duplicate(&self) -> (r: Tag)
        ensures
            r@ == self@,
    {
        let private_use: Option<Vec<String>> = match &self.private_use {
            Option::None => Option::None,
            Option::Some(p) => Option::Some(clone_string_vec(p)),
        };
        let r = Tag {
            language: clone_string_opt(&self.language),
            script: clone_string_opt(&self.script),
            region: clone_string_opt(&self.region),
            variants: clone_string_vec(&self.variants),
            extensions: clone_extensions(&self.extensions),
            private_use,
        };
        proof {
            assert(r@ =~= self@);
        }
        r
    }

    /// Structural equality of two tags, field for field.
    pub fn matches(&self, other: &Tag) -> (r: bool)
        ensures
            r == (self@ == other@),
    {
        let private_eq: bool = match (&self.private_use, &other.private_use) {
            (Option::None, Option::None) => true,
            (Option::Some(p), Option::Some(q)) => eq_string_vec(p, q),
            _ => false,
        };
        let r = private_eq && eq_string_opt(&self.language, &other.language) && eq_string_opt(
            &self.script,
            &other.script,
        ) && eq_string_opt(&self.region, &other.region) && eq_string_vec(
            &self.variants,
            &other.variants,
        ) && eq_extensions(&self.extensions, &other.extensions);
        proof {
            if r {
                assert(self@ =~= other@);
            }
        }
        r
    }
}

impl Tag {
    /// The canonical base identity string, or `None` when the language is
    /// absent.
    pub fn base_name(&self) -> (r: Option<String>)
        ensures
            r.deep_view() == spec_base_name(self@),
    {
        let lang: &String = match &self.language {
            Option::None => {
                return Option::None;
            },
            Option::Some(l) => l,
        };
        let mut out: String = lang.clone();
        match &self.script {
            Option::None => {},
            Option::Some(s) => {
                push_char(&mut out, '-');
                out.append(s.as_str());
            },
        }
        match &self.region {
            Option::None => {},
            Option::Some(rg) => {
                push_char(&mut out, '-');
                out.append(rg.as_str());
            },
        }
        proof {
            assert(out@ =~= self@.language.unwrap() + opt_part(self@.script) + opt_part(
                self@.region,
            ));
        }
        let ghost head = out@;
        let mut i: usize = 0;
        let n: usize = self.variants.len();
        while i < n
            invariant
                n == self.variants.len(),
                i <= n,
                out@ == head + variants_part(self.variants.deep_view().take(i as int)),
            decreases n - i,
        {
            let ghost before = self.variants.deep_view().take(i as int);
            push_char(&mut out, '-');
            out.append(self.variants[i].as_str());
            proof {
                lemma_variants_part_push(before, self.variants.deep_view()[i as int]);
                assert(self.variants.deep_view().take(i + 1) =~= before.push(
                    self.variants.deep_view()[i as int],
                ));
            }
            i = i + 1;
        }
        proof {
            assert(self.variants.deep_view().take(n as int) =~= self.variants.deep_view());
        }
        Option::Some(out)
    }
}

} // verus!
