//! The locale facade: owns exactly one validated tag, immutable once
//! constructed, and exposes the absence-aware accessors, the canonical base
//! identity and the locale-preference keywords.

use vstd::prelude::*;
use crate::keywords::spec_keyword;
use crate::parse::{parse_tag, spec_parse, TagError};
use crate::tag::{sentinel_view, spec_base_name, wf_tag, Tag, TagView};

verus! {

/// A validated locale: a well-formed tag behind accessors.
#[derive(Debug, Clone)]
pub struct Locale {
    tag: Tag,
}

impl View for Locale {
    type V = TagView;

    closed spec fn view(&self) -> TagView {
        self.tag@
    }
}

impl Locale {
    /// Parses the string into a locale; fails exactly when the tag grammar
    /// rejects the string.
    pub fn new(tag: &str) -> (r: Result<Locale, TagError>)
        ensures
            match r {
                Ok(l) => spec_parse(tag@) == Some(l@) && wf_tag(l@),
                Err(e) => spec_parse(tag@) is None && e == TagError::Malformed,
            },
    {
        match parse_tag(tag) {
            Ok(t) => Ok(Locale { tag: t }),
            Err(e) => Err(e),
        }
    }

    /// The sentinel "undetermined" locale: every field absent.
    pub fn undetermined() -> (r: Locale)
        ensures
            r@ == sentinel_view(),
            wf_tag(r@),
    {
        let t = Tag {
            language: None,
            script: None,
            region: None,
            variants: Vec::new(),
            extensions: Vec::new(),
            private_use: None,
        };
        proof {
            assert(t@.variants =~= Seq::<Seq<char>>::empty());
            assert(t@.extensions =~= Seq::<crate::tag::ExtensionView>::empty());
            assert(t@ =~= sentinel_view());
        }
        Locale { tag: t }
    }

    /// An owned copy with the same structural identity.
    pub fn duplicate(&self) -> (r: Locale)
        ensures
            r@ == self@,
    {
        Locale { tag: self.tag.duplicate() }
    }

    pub fn language(&self) -> (r: Option<&String>)
        ensures
            match r {
                Some(s) => self@.language == Some(s@),
                None => self@.language is None,
            },
    {
        self.tag.language.as_ref()
    }

    pub fn script(&self) -> (r: Option<&String>)
        ensures
            match r {
                Some(s) => self@.script == Some(s@),
                None => self@.script is None,
            },
    {
        self.tag.script.as_ref()
    }

    pub fn region(&self) -> (r: Option<&String>)
        ensures
            match r {
                Some(s) => self@.region == Some(s@),
                None => self@.region is None,
            },
    {
        self.tag.region.as_ref()
    }

    /// The canonical base identity: language, script, region and variants
    /// joined with `-`; absent when the language is absent.
    pub fn base_name(&self) -> (r: Option<String>)
        ensures
            r.deep_view() == spec_base_name(self@),
    {
        self.tag.base_name()
    }

    /// The value of an arbitrary keyword inside the `u` extension block.
    pub fn keyword(&self, key: &str) -> (r: Option<String>)
        ensures
            r.deep_view() == spec_keyword(self@, key@),
    {
        self.tag.keyword(key)
    }

    /// The `ca` (calendar) preference carried in the tag.
    pub fn calendar(&self) -> (r: Option<String>)
        ensures
            r.deep_view() == spec_keyword(self@, seq!['c', 'a']),
    {
        let r = self.tag.keyword("ca");
        proof {
            reveal_strlit("ca");
            assert("ca"@ =~= seq!['c', 'a']);
        }
        r
    }

    /// The `co` (collation) preference carried in the tag.
    pub fn collation(&self) -> (r: Option<String>)
        ensures
            r.deep_view() == spec_keyword(self@, seq!['c', 'o']),
    {
        let r = self.tag.keyword("co");
        proof {
            reveal_strlit("co");
            assert("co"@ =~= seq!['c', 'o']);
        }
        r
    }

    /// The `hc` (hour cycle) preference carried in the tag.
    pub fn hour_cycle(&self) -> (r: Option<String>)
        ensures
            r.deep_view() == spec_keyword(self@, seq!['h', 'c']),
    {
        let r = self.tag.keyword("hc");
        proof {
            reveal_strlit("hc");
            assert("hc"@ =~= seq!['h', 'c']);
        }
        r
    }

    /// The `kf` (case-first ordering) preference carried in the tag.
    pub fn case_first(&self) -> (r: Option<String>)
        ensures
            r.deep_view() == spec_keyword(self@, seq!['k', 'f']),
    {
        let r = self.tag.keyword("kf");
        proof {
            reveal_strlit("kf");
            assert("kf"@ =~= seq!['k', 'f']);
        }
        r
    }

    /// The `kn` (numeric collation) preference carried in the tag.
    pub fn numeric(&self) -> (r: Option<String>)
        ensures
            r.deep_view() == spec_keyword(self@, seq!['k', 'n']),
    {
        let r = self.tag.keyword("kn");
        proof {
            reveal_strlit("kn");
            assert("kn"@ =~= seq!['k', 'n']);
        }
        r
    }

    /// The `nu` (numbering system) preference carried in the tag.
    pub fn numbering_system(&self) -> (r: Option<String>)
        ensures
            r.deep_view() == spec_keyword(self@, seq!['n', 'u']),
    {
        let r = self.tag.keyword("nu");
        proof {
            reveal_strlit("nu");
            assert("nu"@ =~= seq!['n', 'u']);
        }
        r
    }
}

/// Two locales are equal exactly when their underlying tags are structurally
/// equal after canonicalization.
impl PartialEq for Locale {
    fn eq(&self, other: &Locale) -> (r: bool) {
        self.tag.matches(&other.tag)
    }
}

impl vstd::std_specs::cmp::PartialEqSpecImpl for Locale {
    open spec fn obeys_eq_spec() -> bool {
        true
    }

    open spec fn eq_spec(&self, other: &Locale) -> bool {
        self@ == other@
    }
}

} // verus!
