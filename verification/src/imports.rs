//! What an import reports: counts of what was added and the warnings met;
//! and which importer a file goes to.
use vstd::prelude::*;
use crate::text::{chars_of, ends_with, ends_with_exec, lowercase, spec_lowercase};

verus! {

pub struct ImportResult {
    pub decks_imported: usize,
    pub notes_imported: usize,
    pub cards_imported: usize,
    pub media_imported: usize,
    pub warnings: Vec<String>,
}

pub open spec fn strings(v: Seq<String>) -> Seq<Seq<char>> {
    v.map_values(|s: String| s@)
}

impl ImportResult {
    /// Nothing imported yet, no warnings.
    pub fn new() -> (r: ImportResult)
        ensures
            r.decks_imported == 0,
            r.notes_imported == 0,
            r.cards_imported == 0,
            r.media_imported == 0,
            r.warnings@.len() == 0,
    {
        ImportResult { decks_imported: 0, notes_imported: 0, cards_imported: 0, media_imported: 0, warnings: Vec::new() }
    }

    /// A note with its one card was written.
    pub fn note_with_card_added(&mut self)
        requires
            old(self).notes_imported < usize::MAX,
            old(self).cards_imported < usize::MAX,
        ensures
            final(self).notes_imported == old(self).notes_imported + 1,
            final(self).cards_imported == old(self).cards_imported + 1,
            final(self).decks_imported == old(self).decks_imported,
            final(self).media_imported == old(self).media_imported,
            final(self).warnings@ == old(self).warnings@,
    {
        self.notes_imported = self.notes_imported + 1;
        self.cards_imported = self.cards_imported + 1;
    }

    /// A warning is added after the others.
    pub fn warn(&mut self, w: String)
        ensures
            strings(final(self).warnings@) == strings(old(self).warnings@).push(w@),
            final(self).decks_imported == old(self).decks_imported,
            final(self).notes_imported == old(self).notes_imported,
            final(self).cards_imported == old(self).cards_imported,
            final(self).media_imported == old(self).media_imported,
    {
        let ghost before = strings(self.warnings@);
        let ghost wv = w@;
        self.warnings.push(w);
        assert(strings(self.warnings@) =~= before.push(wv));
    }
}

/// The kinds of file that can be imported.
#[derive(PartialEq, Eq, Structural)]
pub enum ImportFormat {
    /// An Anki package (`.apkg`).
    AnkiPackage,
    /// An Anki collection (`.anki2`, `.anki21`).
    AnkiCollection,
    /// A Mochi export (`.mochi`).
    Mochi,
}

/// The importer a file goes to, by its extension in any case; any other
/// file is refused with the message shown to the user.
pub open spec fn spec_import_format(path: Seq<char>) -> Result<ImportFormat, Seq<char>> {
    let p = spec_lowercase(path);
    if ends_with(p, ".apkg"@) {
        Ok(ImportFormat::AnkiPackage)
    } else if ends_with(p, ".anki2"@) || ends_with(p, ".anki21"@) {
        Ok(ImportFormat::AnkiCollection)
    } else if ends_with(p, ".mochi"@) {
        Ok(ImportFormat::Mochi)
    } else {
        Err("Unsupported file format. Use .apkg, .anki2 (Anki collection), or .mochi."@)
    }
}

pub fn import_format(path: &str) -> (r: Result<ImportFormat, String>)
    ensures
        match (r, spec_import_format(path@)) {
            (Ok(f), Ok(g)) => f == g,
            (Err(e), Err(m)) => e@ == m,
            _ => false,
        },
{
    let low = lowercase(path);
    let p = chars_of(low.as_str());
    if ends_with_exec(&p, &chars_of(".apkg")) {
        Ok(ImportFormat::AnkiPackage)
    } else if ends_with_exec(&p, &chars_of(".anki2")) || ends_with_exec(&p, &chars_of(".anki21")) {
        Ok(ImportFormat::AnkiCollection)
    } else if ends_with_exec(&p, &chars_of(".mochi")) {
        Ok(ImportFormat::Mochi)
    } else {
        Err(crate::text::owned("Unsupported file format. Use .apkg, .anki2 (Anki collection), or .mochi."))
    }
}

} // verus!
