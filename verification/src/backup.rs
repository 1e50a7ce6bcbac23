//! Backups and exports: the summaries they report, what a full backup
//! archive must hold, and the gzip layer of exported files.
use vstd::prelude::*;
use std::io::{Read, Write};
use crate::text::{lower_char, owned, push_str, same_text, string_of, to_ascii_lower};

verus! {

pub const FORMAT_FULL_V1: &'static str = "samsmrti-full-v1";

pub const FORMAT_RECORD_NAME: &'static str = "format.json";

pub const DB_NAME: &'static str = "samsmrti.db";

pub const MEDIA_DIR: &'static str = "media";

pub struct FullBackupExportSummary {
    pub path: String,
    pub bytes_written: usize,
    pub media_files: usize,
}

pub struct FullBackupRestoreSummary {
    pub decks: usize,
    pub notes: usize,
    pub cards: usize,
    pub profiles: usize,
    pub media_files_restored: usize,
    pub previous_db_backup: Option<String>,
}

pub struct ExportResult {
    pub path: String,
    pub notes_exported: usize,
    pub cards_exported: usize,
}

pub struct FullExportResult {
    pub path: String,
    pub bytes_written: usize,
    pub decks: usize,
    pub notes: usize,
    pub cards: usize,
    pub entities: usize,
    pub triples: usize,
}

/// What an entry of a full backup archive is.
#[derive(PartialEq, Eq, Structural)]
pub enum BackupEntry {
    /// A directory entry: only created.
    Directory,
    /// `format.json`, which names the format.
    FormatRecord,
    /// The database file (at the top or under a folder).
    Database,
    /// Anything else, such as media.
    Other,
}

pub open spec fn spec_backup_entry(name: Seq<char>) -> BackupEntry {
    if crate::text::ends_with(name, "/"@) {
        BackupEntry::Directory
    } else if name == FORMAT_RECORD_NAME@ {
        BackupEntry::FormatRecord
    } else if name == DB_NAME@ || crate::text::ends_with(name, DB_NAME@) {
        BackupEntry::Database
    } else {
        BackupEntry::Other
    }
}

pub fn backup_entry(name: &str) -> (r: BackupEntry)
    ensures
        r == spec_backup_entry(name@),
{
    let v = crate::text::chars_of(name);
    let slash = crate::text::chars_of("/");
    let db = crate::text::chars_of(DB_NAME);
    if crate::text::ends_with_exec(&v, &slash) {
        BackupEntry::Directory
    } else if same_text(name, FORMAT_RECORD_NAME) {
        BackupEntry::FormatRecord
    } else if same_text(name, DB_NAME) || crate::text::ends_with_exec(&v, &db) {
        BackupEntry::Database
    } else {
        BackupEntry::Other
    }
}

/// Whether a read archive can be restored: it needs a format record of the full
/// backup format and a database.
pub open spec fn spec_check_backup(format: Option<Seq<char>>, has_database: bool) -> Result<(), Seq<char>> {
    match format {
        None => Err("Backup missing format.json"@),
        Some(f) => if f != FORMAT_FULL_V1@ {
            Err("Unsupported backup format: "@ + f)
        } else if !has_database {
            Err("Backup missing samsmrti.db"@)
        } else {
            Ok(())
        },
    }
}

pub fn check_backup(format: Option<&str>, has_database: bool) -> (r: Result<(), String>)
    ensures
        match (r, spec_check_backup(match format { Some(f) => Some(f@), None => None }, has_database)) {
            (Ok(()), Ok(())) => true,
            (Err(e), Err(m)) => e@ == m,
            _ => false,
        },
{
    match format {
        None => Err(owned("Backup missing format.json")),
        Some(f) => {
            if !same_text(f, FORMAT_FULL_V1) {
                let mut m: Vec<char> = Vec::new();
                push_str(&mut m, "Unsupported backup format: ");
                push_str(&mut m, f);
                Err(string_of(&m))
            } else if !has_database {
                Err(owned("Backup missing samsmrti.db"))
            } else {
                Ok(())
            }
        },
    }
}

// ---------------------------------------------------------------------------
// gzip
// ---------------------------------------------------------------------------

/// What `flate2`'s `GzDecoder` reads from `bytes`: the decompressed bytes,
/// or the message of the error met.
pub uninterp spec fn spec_gunzip(bytes: Seq<u8>) -> Result<Seq<u8>, Seq<char>>;

/// `flate2::read::GzDecoder::new(bytes)` read to the end. Claimed: the
/// outcome is a function of the bytes alone.
#[verifier::external_body]
fn gunzip(bytes: &[u8]) -> (r: Result<Vec<u8>, String>)
    ensures
        match r {
            Ok(v) => spec_gunzip(bytes@) == Ok::<Seq<u8>, Seq<char>>(v@),
            Err(e) => spec_gunzip(bytes@) == Err::<Seq<u8>, Seq<char>>(e@),
        },
{
    let mut decoder = flate2::read::GzDecoder::new(bytes);
    let mut out = Vec::new();
    match decoder.read_to_end(&mut out) {
        Ok(_) => Ok(out),
        Err(e) => Err(e.to_string()),
    }
}

/// `GzDecoder` gives back `bytes` from the stream `z`.
pub open spec fn reads_back(z: Seq<u8>, bytes: Seq<u8>) -> bool {
    spec_gunzip(z) == Ok::<Seq<u8>, Seq<char>>(bytes)
}

/// What `flate2`'s `GzEncoder` at the default level writes for `bytes`.
pub uninterp spec fn spec_gzip(bytes: Seq<u8>) -> Seq<u8>;

/// `flate2::write::GzEncoder::new(Vec::new(), Compression::default())`,
/// `write_all` of the bytes, then `finish`. Writing to a `Vec` does not
/// fail; the header carries no time and the "unknown" system byte, so the
/// output is claimed to be a function of the bytes alone. Also claimed:
/// the stream opens with the gzip magic bytes, and `GzDecoder` reads the
/// bytes back from it.
#[verifier::external_body]
fn gzip(bytes: &[u8]) -> (r: Vec<u8>)
    ensures
        r@ == spec_gzip(bytes@),
        gzip_magic(r@),
        reads_back(r@, bytes@),
{
    let mut encoder = flate2::write::GzEncoder::new(Vec::new(), flate2::Compression::default());
    encoder.write_all(bytes).unwrap();
    encoder.finish().unwrap()
}

/// The two bytes that open every gzip stream.
pub open spec fn gzip_magic(bytes: Seq<u8>) -> bool {
    bytes.len() >= 2 && bytes[0] == 0x1f && bytes[1] == 0x8b
}

/// `str::eq_ignore_ascii_case` with "gz".
pub open spec fn is_gz_extension(ext: Seq<char>) -> bool {
    ext.len() == 2 && lower_char(ext[0]) == 'g' && lower_char(ext[1]) == 'z'
}

/// The JSON bytes of a content file: decompressed when its extension is
/// `gz` (in any case) or its bytes open as gzip, else as they are.
pub open spec fn spec_content_bytes(ext: Option<Seq<char>>, bytes: Seq<u8>) -> Result<Seq<u8>, Seq<char>> {
    let is_gz = match ext {
        Some(e) => is_gz_extension(e),
        None => false,
    } || gzip_magic(bytes);
    if is_gz {
        spec_gunzip(bytes)
    } else {
        Ok(bytes)
    }
}

pub fn content_bytes(ext: Option<&str>, bytes: Vec<u8>) -> (r: Result<Vec<u8>, String>)
    ensures
        match (r, spec_content_bytes(match ext { Some(e) => Some(e@), None => None }, bytes@)) {
            (Ok(v), Ok(w)) => v@ == w,
            (Err(e), Err(m)) => e@ == m,
            _ => false,
        },
{
    let ext_gz = match ext {
        Some(e) => {
            let v = crate::text::chars_of(e);
            v.len() == 2 && to_ascii_lower(v[0]) == 'g' && to_ascii_lower(v[1]) == 'z'
        },
        None => false,
    };
    let magic = bytes.len() >= 2 && bytes[0] == 0x1f && bytes[1] == 0x8b;
    if ext_gz || magic {
        gunzip(bytes.as_slice())
    } else {
        Ok(bytes)
    }
}

/// The gzip file of an export and what the export reports: where it went,
/// its size, and how many rows of each kind it holds. The file reads back
/// as the JSON it was made from, whatever its name.
pub fn gzip_export(
    path: &str,
    json: &Vec<u8>,
    decks: usize,
    notes: usize,
    cards: usize,
    entities: usize,
    triples: usize,
) -> (r: (Vec<u8>, FullExportResult))
    ensures
        r.0@ == spec_gzip(json@),
        forall|ext: Option<Seq<char>>| #[trigger] spec_content_bytes(ext, r.0@) == Ok::<Seq<u8>, Seq<char>>(json@),
        r.1.path@ == path@,
        r.1.bytes_written == r.0@.len(),
        r.1.decks == decks,
        r.1.notes == notes,
        r.1.cards == cards,
        r.1.entities == entities,
        r.1.triples == triples,
{
    let compressed = gzip(json.as_slice());
    let n = compressed.len();
    (compressed, FullExportResult { path: owned(path), bytes_written: n, decks, notes, cards, entities, triples })
}

} // verus!
