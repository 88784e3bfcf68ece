//! The laws that tie the serializer back to the parser: serializing the base
//! identity of a well-formed tag and re-parsing it restores the tag exactly,
//! and doing so repeatedly always yields the same tag.

use vstd::prelude::*;
use crate::split::{lemma_split_concat, lemma_split_dash_free, split_dash};
use crate::subtag::{
    all_alphanum, is_region_subtag, is_script_subtag, is_variant_subtag, lemma_char_case,
    lower_seq, title_seq, upper_seq,
};
use crate::tag::{
    opt_part, sentinel_view, spec_base_name, variants_part, wf_tag, ExtensionView, TagView,
};
use crate::parse::{
    parse_extensions, parse_language, parse_region, parse_script, parse_variants, spec_parse,
};

verus! {

/// A subtag made of alphanumeric characters holds no separator.
proof fn lemma_alphanum_dash_free(s: Seq<char>)
    requires
        all_alphanum(s),
    ensures
        forall|k: int| 0 <= k < s.len() ==> s[k] != '-',
{
    assert forall|k: int| 0 <= k < s.len() implies s[k] != '-' by {
        lemma_char_case(s[k]);
    }
}

/// Concatenating variant lists concatenates their serialized parts.
proof fn lemma_variants_part_concat(xs: Seq<Seq<char>>, ys: Seq<Seq<char>>)
    ensures
        variants_part(xs + ys) == variants_part(xs) + variants_part(ys),
    decreases xs.len(),
{
    if xs.len() == 0 {
        assert(xs + ys =~= ys);
        assert(variants_part(xs + ys) =~= variants_part(xs) + variants_part(ys));
    } else {
        lemma_variants_part_concat(xs.skip(1), ys);
        assert((xs + ys).skip(1) =~= xs.skip(1) + ys);
        assert((xs + ys)[0] == xs[0]);
        assert(variants_part(xs + ys) == seq!['-'] + (xs + ys)[0] + variants_part((xs + ys).skip(1)));
        assert(variants_part(xs + ys) =~= variants_part(xs) + variants_part(ys));
    }
}

/// Splitting the dash-joined pieces gives the pieces back.
proof fn lemma_split_join(head: Seq<char>, rest: Seq<Seq<char>>)
    requires
        forall|k: int| 0 <= k < head.len() ==> head[k] != '-',
        forall|i: int| 0 <= i < rest.len() ==> all_alphanum(#[trigger] rest[i]),
    ensures
        split_dash(head + variants_part(rest)) == seq![head] + rest,
    decreases rest.len(),
{
    if rest.len() == 0 {
        assert(head + variants_part(rest) =~= head);
        lemma_split_dash_free(head);
        assert(split_dash(head + variants_part(rest)) =~= seq![head] + rest);
    } else {
        let tail = rest[0] + variants_part(rest.skip(1));
        assert(head + variants_part(rest) =~= head + seq!['-'] + tail);
        lemma_split_concat(head, tail);
        lemma_alphanum_dash_free(rest[0]);
        assert forall|i: int| 0 <= i < rest.skip(1).len() implies all_alphanum(
            #[trigger] rest.skip(1)[i],
        ) by {
            assert(rest.skip(1)[i] == rest[i + 1]);
        }
        lemma_split_join(rest[0], rest.skip(1));
        assert(split_dash(head + variants_part(rest)) =~= seq![head] + rest);
    }
}

/// The subtag list of the canonical base identity of a well-formed tag with a
/// language: the language, then the optional script and region, then the
/// variants.
proof fn lemma_base_name_splits(t: TagView)
    requires
        wf_tag(t),
        t.language is Some,
    ensures
        split_dash(spec_base_name(t).unwrap()) == seq![t.language.unwrap()] + opt_subtags(t.script)
            + opt_subtags(t.region) + t.variants,
{
    let l = t.language.unwrap();
    let rest = opt_subtags(t.script) + opt_subtags(t.region) + t.variants;
    assert(opt_part(t.script) =~= variants_part(opt_subtags(t.script))) by {
        match t.script {
            None => {},
            Some(s) => {
                assert(opt_subtags(t.script) =~= seq![s]);
                assert(seq![s].skip(1) =~= Seq::<Seq<char>>::empty());
                assert(variants_part(seq![s].skip(1)) == Seq::<char>::empty());
                assert(variants_part(seq![s]) == seq!['-'] + seq![s][0] + variants_part(
                    seq![s].skip(1),
                ));
                assert(variants_part(seq![s]) =~= seq!['-'] + s);
            },
        }
    }
    assert(opt_part(t.region) =~= variants_part(opt_subtags(t.region))) by {
        match t.region {
            None => {},
            Some(s) => {
                assert(opt_subtags(t.region) =~= seq![s]);
                assert(seq![s].skip(1) =~= Seq::<Seq<char>>::empty());
                assert(variants_part(seq![s].skip(1)) == Seq::<char>::empty());
                assert(variants_part(seq![s]) == seq!['-'] + seq![s][0] + variants_part(
                    seq![s].skip(1),
                ));
                assert(variants_part(seq![s]) =~= seq!['-'] + s);
            },
        }
    }
    lemma_variants_part_concat(opt_subtags(t.script) + opt_subtags(t.region), t.variants);
    lemma_variants_part_concat(opt_subtags(t.script), opt_subtags(t.region));
    assert((opt_subtags(t.script) + opt_subtags(t.region)) + t.variants =~= rest);
    assert(spec_base_name(t).unwrap() =~= l + variants_part(rest));
    assert forall|i: int| 0 <= i < rest.len() implies all_alphanum(#[trigger] rest[i]) by {
        lemma_opt_subtags_alphanum(t);
        if i < opt_subtags(t.script).len() {
        } else if i < opt_subtags(t.script).len() + opt_subtags(t.region).len() {
        } else {
            let v = t.variants[i - opt_subtags(t.script).len() - opt_subtags(t.region).len()];
            assert(rest[i] == v);
        }
    }
    lemma_alphanum_dash_free(l);
    lemma_split_join(l, rest);
}

/// The optional field as a zero- or one-element subtag list.
pub open spec fn opt_subtags(o: Option<Seq<char>>) -> Seq<Seq<char>> {
    match o {
        None => Seq::empty(),
        Some(s) => seq![s],
    }
}

proof fn lemma_opt_subtags_alphanum(t: TagView)
    requires
        wf_tag(t),
    ensures
        forall|i: int|
            0 <= i < opt_subtags(t.script).len() ==> all_alphanum(#[trigger] opt_subtags(t.script)[i]),
        forall|i: int|
            0 <= i < opt_subtags(t.region).len() ==> all_alphanum(#[trigger] opt_subtags(t.region)[i]),
{
    match t.script {
        None => {},
        Some(s) => {
            assert(opt_subtags(t.script)[0] == s);
            assert(all_alphanum(s));
        },
    }
    match t.region {
        None => {},
        Some(s) => {
            assert(opt_subtags(t.region)[0] == s);
            assert(all_alphanum(s));
        },
    }
}

/// Consuming a list of already-normalized, distinct variants collects exactly
/// that list and nothing else.
proof fn lemma_parse_variants_exact(vs: Seq<Seq<char>>, t: TagView)
    requires
        forall|i: int|
            0 <= i < vs.len() ==> is_variant_subtag(#[trigger] vs[i]) && lower_seq(vs[i]) == vs[i],
        forall|i: int, j: int| 0 <= i < j < vs.len() ==> vs[i] != vs[j],
        forall|i: int| 0 <= i < vs.len() ==> !t.variants.contains(#[trigger] vs[i]),
    ensures
        parse_variants(vs, t) == parse_extensions(
            Seq::<Seq<char>>::empty(),
            TagView { variants: t.variants + vs, ..t },
        ),
    decreases vs.len(),
{
    if vs.len() == 0 {
        assert(t.variants + vs =~= t.variants);
        assert(TagView { variants: t.variants + vs, ..t } =~= t);
    } else {
        let v = vs[0];
        assert(lower_seq(v) == v);
        assert(!t.variants.contains(v));
        let t2 = TagView { variants: t.variants.push(v), ..t };
        assert forall|i: int| 0 <= i < vs.skip(1).len() implies is_variant_subtag(
            #[trigger] vs.skip(1)[i],
        ) && lower_seq(vs.skip(1)[i]) == vs.skip(1)[i] by {
            assert(vs.skip(1)[i] == vs[i + 1]);
        }
        assert forall|i: int, j: int| 0 <= i < j < vs.skip(1).len() implies vs.skip(1)[i] != vs.skip(
            1,
        )[j] by {
            assert(vs.skip(1)[i] == vs[i + 1]);
            assert(vs.skip(1)[j] == vs[j + 1]);
        }
        assert forall|i: int| 0 <= i < vs.skip(1).len() implies !t2.variants.contains(
            #[trigger] vs.skip(1)[i],
        ) by {
            assert(vs.skip(1)[i] == vs[i + 1]);
            if t2.variants.contains(vs[i + 1]) {
                let w = choose|m: int| 0 <= m < t2.variants.len() && t2.variants[m] == vs[i + 1];
                if w < t.variants.len() {
                    assert(t.variants.contains(vs[i + 1]));
                } else {
                    assert(t2.variants[w] == v);
                }
            }
        }
        lemma_parse_variants_exact(vs.skip(1), t2);
        assert(t2.variants + vs.skip(1) =~= t.variants + vs);
        assert(TagView { variants: t2.variants + vs.skip(1), ..t2 } =~= TagView {
            variants: t.variants + vs,
            ..t
        });
    }
}

/// Round trip: a well-formed tag that has a language and carries no extension
/// and no private-use block is restored, field for field, by parsing its
/// canonical base identity.
pub proof fn lemma_base_round_trip(t: TagView)
    requires
        wf_tag(t),
        t.language is Some,
        t.extensions.len() == 0,
        t.private_use is None,
    ensures
        spec_parse(spec_base_name(t).unwrap()) == Some(t),
{
    let l = t.language.unwrap();
    lemma_base_name_splits(t);
    let subs = seq![l] + opt_subtags(t.script) + opt_subtags(t.region) + t.variants;
    assert(subs[0] == l);
    crate::subtag::lemma_lower_seq(l);
    let after_lang = subs.skip(1);
    assert(after_lang =~= opt_subtags(t.script) + opt_subtags(t.region) + t.variants);
    let t0 = TagView { language: Some(l), ..sentinel_view() };
    assert(parse_language(subs) == parse_script(after_lang, t0));
    // script position
    let after_script: Seq<Seq<char>> = match t.script {
        None => after_lang,
        Some(s) => after_lang.skip(1),
    };
    let t1 = TagView { script: t.script, ..t0 };
    assert(after_script =~= opt_subtags(t.region) + t.variants);
    assert(parse_script(after_lang, t0) == parse_region(after_script, t1)) by {
        match t.script {
            Some(s) => {
                assert(after_lang[0] == s);
                crate::subtag::lemma_title_seq(s);
                assert(TagView { script: Some(title_seq(s)), ..t0 } =~= t1);
            },
            None => {
                if after_lang.len() >= 1 {
                    // the next subtag is the region or a variant: never 4 letters
                    assert(after_lang[0] == (opt_subtags(t.region) + t.variants)[0]);
                    assert(!is_script_subtag(after_lang[0])) by {
                        match t.region {
                            Some(r) => {
                                assert(after_lang[0] == r);
                            },
                            None => {
                                assert(after_lang[0] == t.variants[0]);
                                assert(is_variant_subtag(t.variants[0]));
                                if t.variants[0].len() == 4 {
                                    lemma_char_case(t.variants[0][0]);
                                }
                            },
                        }
                    }
                }
                assert(t1 =~= t0);
            },
        }
    }
    // region position
    let after_region: Seq<Seq<char>> = match t.region {
        None => after_script,
        Some(s) => after_script.skip(1),
    };
    let t2 = TagView { region: t.region, ..t1 };
    assert(after_region =~= t.variants);
    assert(parse_region(after_script, t1) == parse_variants(after_region, t2)) by {
        match t.region {
            Some(r) => {
                assert(after_script[0] == r);
                crate::subtag::lemma_upper_seq(r);
                assert(TagView { region: Some(upper_seq(r)), ..t1 } =~= t2);
            },
            None => {
                if after_script.len() >= 1 {
                    assert(after_script[0] == t.variants[0]);
                    assert(is_variant_subtag(t.variants[0]));
                    assert(!is_region_subtag(t.variants[0]));
                }
                assert(t2 =~= t1);
            },
        }
    }
    // variants
    assert forall|i: int| 0 <= i < t.variants.len() implies !t2.variants.contains(
        #[trigger] t.variants[i],
    ) by {
        assert(t2.variants.len() == 0);
    }
    lemma_parse_variants_exact(t.variants, t2);
    let t3 = TagView { variants: t2.variants + t.variants, ..t2 };
    assert(parse_extensions(Seq::<Seq<char>>::empty(), t3) == Some(t3));
    assert(t3 =~= t);
}

/// Idempotence: parsing the canonical base identity of any well-formed tag
/// with a language yields its base-only restriction, whose own canonical base
/// identity is the same string; parsing that serialization once and twice
/// therefore yields the same tag both times.
pub proof fn lemma_canonical_idempotent(t: TagView)
    requires
        wf_tag(t),
        t.language is Some,
    ensures
        spec_parse(spec_base_name(t).unwrap()) == Some(base_only(t)),
        spec_base_name(base_only(t)) == spec_base_name(t),
        spec_parse(spec_base_name(base_only(t)).unwrap()) == Some(base_only(t)),
{
    let b = base_only(t);
    assert(wf_tag(b));
    lemma_base_round_trip(b);
    assert(spec_base_name(b) == spec_base_name(t));
}

/// The tag stripped to its base identity: extensions and the private-use
/// block dropped.
pub open spec fn base_only(t: TagView) -> TagView {
    TagView { extensions: Seq::empty(), private_use: None, ..t }
}

} // verus!
