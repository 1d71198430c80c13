//! Per-language type dictionaries and the deterministic raw-type resolver.

use vstd::prelude::*;

use crate::text::contains_string;

verus! {

/// One entry of a language's type dictionary: a canonical target-language
/// type name and the raw database type names that map onto it.
#[derive(Debug, PartialEq)]
pub struct TypeEntry {
    pub name: String,
    pub raw_types: Vec<String>,
}

/// Mathematical model of a [`TypeEntry`].
pub struct TypeEntryView {
    pub name: Seq<char>,
    pub raw_types: Seq<Seq<char>>,
}

impl DeepView for TypeEntry {
    type V = TypeEntryView;

    open spec fn deep_view(&self) -> TypeEntryView {
        TypeEntryView { name: self.name@, raw_types: self.raw_types.deep_view() }
    }
}

/// A target language's type dictionary. Entries are an ordered sequence,
/// never an unordered map, because resolution is first-match-wins and must
/// be reproducible.
#[derive(Debug, PartialEq)]
pub struct Language {
    pub name: String,
    pub types: Vec<TypeEntry>,
}

/// Mathematical model of a [`Language`].
pub struct LanguageView {
    pub name: Seq<char>,
    pub types: Seq<TypeEntryView>,
}

impl DeepView for Language {
    type V = LanguageView;

    open spec fn deep_view(&self) -> LanguageView {
        LanguageView { name: self.name@, types: self.types.deep_view() }
    }
}

/// The canonical name of the first entry, in declared order, whose raw-type
/// set contains `raw`; `raw` itself when no entry matches.
pub open spec fn spec_resolve(entries: Seq<TypeEntryView>, raw: Seq<char>) -> Seq<char>
    decreases entries.len(),
{
    if entries.len() == 0 {
        raw
    } else if entries[0].raw_types.contains(raw) {
        entries[0].name
    } else {
        spec_resolve(entries.skip(1), raw)
    }
}

impl Language {
    /// Maps a raw database type name to this language's canonical type name.
    /// Entries are scanned in declared order, the first whose raw-type set
    /// contains `raw` wins, and an unmatched name passes through unchanged;
    /// resolution is pure and total.
    pub fn resolve(&self, raw: &String) -> (r: String)
        ensures
            r@ == spec_resolve(self.types.deep_view(), raw@),
    {
        let ghost entries = self.types.deep_view();
        proof {
            assert(entries.skip(0) =~= entries);
        }
        let mut i: usize = 0;
        while i < self.types.len()
            invariant
                i <= self.types.len(),
                entries == self.types.deep_view(),
                spec_resolve(entries, raw@) == spec_resolve(entries.skip(i as int), raw@),
            decreases self.types.len() - i,
        {
            proof {
                assert(entries.skip(i as int)[0] == entries[i as int]);
            }
            if contains_string(&self.types[i].raw_types, raw) {
                return self.types[i].name.clone();
            }
            proof {
                assert(entries.skip(i as int).skip(1) =~= entries.skip(i as int + 1));
            }
            i += 1;
        }
        proof {
            assert(entries.skip(i as int).len() == 0);
        }
        raw.clone()
    }
}

} // verus!
