//! Trusted boundary to the `zip` crate: reading an archive that is already
//! held in memory is pure computation on its bytes, so each call's result is
//! a named function of the bytes (and the entry name) alone.
use vstd::prelude::*;

verus! {

/// Names of the entries of an archive, in the order the archive's central
/// directory lists them; nothing when the bytes are not a readable archive.
pub uninterp spec fn zip_names_of(bytes: Seq<u8>) -> Option<Seq<Seq<char>>>;

/// Decompressed contents of the file entry with the given UTF-8 name bytes;
/// nothing when the archive is unreadable, the name is not UTF-8, the entry
/// is missing or not a file, or reading it fails.
pub uninterp spec fn zip_entry_of(bytes: Seq<u8>, name: Seq<u8>) -> Option<Seq<u8>>;

/// Relies on `zip::ZipArchive::new` and `file_names`: listing the entries of
/// an in-memory archive is a pure function of its bytes.
#[verifier::external_body]
pub(crate) fn zip_entry_names(bytes: &Vec<u8>) -> (r: Option<Vec<String>>)
    ensures
        match r {
            Some(names) => zip_names_of(bytes@) == Some(names.deep_view()),
            None => zip_names_of(bytes@) is None,
        },
{
    let z = zip::ZipArchive::new(std::io::Cursor::new(bytes.as_slice())).ok()?;
    let mut names: Vec<String> = Vec::new();
    for n in z.file_names() {
        names.push(n.to_owned());
    }
    Some(names)
}

/// Relies on `zip::ZipArchive::by_name` and `std::io::Read::read_to_end`:
/// decompressing one entry of an in-memory archive is a pure function of the
/// archive bytes and the entry name.
#[verifier::external_body]
pub(crate) fn zip_entry_data(bytes: &Vec<u8>, name: &Vec<u8>) -> (r: Option<Vec<u8>>)
    ensures
        match r {
            Some(d) => zip_entry_of(bytes@, name@) == Some(d@),
            None => zip_entry_of(bytes@, name@) is None,
        },
{
    let name_str = core::str::from_utf8(name.as_slice()).ok()?;
    let mut z = zip::ZipArchive::new(std::io::Cursor::new(bytes.as_slice())).ok()?;
    let mut f = z.by_name(name_str).ok()?;
    if !f.is_file() {
        return None;
    }
    let mut buf: Vec<u8> = Vec::new();
    std::io::Read::read_to_end(&mut f, &mut buf).ok()?;
    Some(buf)
}

} // verus!
