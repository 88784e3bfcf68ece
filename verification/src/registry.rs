//! The per-thread holder of the active locale: initialized once from the
//! platform's default-locale lookup with a silent fallback to the sentinel
//! locale, then read through snapshots or a live handle and replaced
//! atomically.

use vstd::prelude::*;
use crate::locale::Locale;
use crate::parse::spec_parse;
use crate::tag::{sentinel_view, wf_tag, TagView};

verus! {

/// The cell that owns the currently active locale of one thread of
/// execution. Callers read it through [`CurrentLocaleCell::get_snapshot`] or
/// a live handle, and substitute a new locale with
/// [`CurrentLocaleCell::replace`].
pub struct CurrentLocaleCell {
    current: Locale,
}

impl View for CurrentLocaleCell {
    type V = TagView;

    closed spec fn view(&self) -> TagView {
        self.current@
    }
}

/// What the cell holds right after initialization: the parsed platform
/// string when the lookup succeeded and the string is grammatical, and the
/// sentinel "undetermined" identity on any lookup or parse failure.
pub open spec fn spec_initial_locale(lookup: Option<Seq<char>>) -> TagView {
    match lookup {
        None => sentinel_view(),
        Some(s) => match spec_parse(s) {
            Some(t) => t,
            None => sentinel_view(),
        },
    }
}

/// What a snapshot of the cell shows: exactly what the cell holds.
pub open spec fn spec_snapshot(cell: TagView) -> TagView {
    cell
}

/// What the cell holds after a replacement: exactly the new locale.
pub open spec fn spec_replace(cell: TagView, next: TagView) -> TagView {
    next
}

impl CurrentLocaleCell {
    /// Initializes the cell from the platform collaborator's result: `None`
    /// stands for a failed lookup. Both a failed lookup and an unparsable
    /// string fall back to the sentinel locale; no failure is surfaced.
    pub fn from_lookup(lookup: Option<String>) -> (c: CurrentLocaleCell)
        ensures
            c@ == spec_initial_locale(lookup.deep_view()),
            wf_tag(c@),
    {
        match lookup {
            None => CurrentLocaleCell { current: Locale::undetermined() },
            Some(s) => match Locale::new(s.as_str()) {
                Ok(l) => CurrentLocaleCell { current: l },
                Err(_) => CurrentLocaleCell { current: Locale::undetermined() },
            },
        }
    }

    /// An owned copy of the current locale, decoupled from later updates.
    pub fn get_snapshot(&self) -> (l: Locale)
        ensures
            l@ == spec_snapshot(self@),
    {
        self.current.duplicate()
    }

    /// A shared live handle to the cell itself: later replacements are
    /// visible through it without a fresh lookup.
    pub fn get_live_handle(&self) -> (h: &CurrentLocaleCell)
        ensures
            h@ == self@,
    {
        self
    }

    /// Substitutes the stored locale; the change is visible to every
    /// outstanding live handle on this cell as soon as the call returns.
    pub fn replace(&mut self, next: Locale)
        ensures
            final(self)@ == spec_replace(old(self)@, next@),
    {
        self.current = next;
    }
}

/// Live-handle propagation: whatever the cell held before, a snapshot taken
/// through any handle after a replacement shows exactly the locale that was
/// substituted, without a fresh lookup.
pub proof fn lemma_replace_visible(cell: TagView, next: TagView)
    ensures
        spec_snapshot(spec_replace(cell, next)) == next,
{
}

/// Fallback: when the platform lookup fails, or hands back a string the
/// grammar rejects, the cell initializes to the sentinel locale, whose
/// language is absent.
pub proof fn lemma_fallback_sentinel(lookup: Option<Seq<char>>)
    requires
        lookup is None || spec_parse(lookup.unwrap()) is None,
    ensures
        spec_initial_locale(lookup) == sentinel_view(),
        spec_initial_locale(lookup).language is None,
{
}

} // verus!
