//! Reading downloaded zip archives (through the zip crate).

use vstd::prelude::*;

use crate::resource::{all_plain, entry_paths, is_plain_component, lies_under, root_to_strip};

verus! {

#[verifier::external_type_specification]
#[verifier::external_body]
#[verifier::reject_recursive_types(R)]
pub struct ExZipArchive<R>(zip::ZipArchive<R>);

#[verifier::external_type_specification]
#[verifier::external_body]
#[verifier::reject_recursive_types(T)]
pub struct ExCursor<T>(std::io::Cursor<T>);

#[verifier::external_type_specification]
#[verifier::external_body]
pub struct ExZipError(zip::result::ZipError);

/// An opened zip archive, together with the bytes it was opened from.
pub struct Archive<'a> {
    inner: zip::ZipArchive<std::io::Cursor<&'a [u8]>>,
    bytes: Ghost<Seq<u8>>,
}

/// What the zip crate reports of one entry of an archive.
pub struct ArchiveEntry {
    /// The components of the entry's path, when it stays inside the
    /// extraction directory (`ZipFile::enclosed_name`)
    pub path: Option<Vec<String>>,
    /// Whether the entry is a directory
    pub is_dir: bool,
}

impl<'a> Archive<'a> {
    /// The bytes this archive was opened from.
    pub closed spec fn bytes(&self) -> Seq<u8> {
        self.bytes@
    }
}

/// Whether the zip crate opens `bytes` as an archive (`ZipArchive::new`).
pub uninterp spec fn zip_opens(bytes: Seq<u8>) -> bool;

/// The number of entries the zip crate lists in the archive `bytes`
/// (`ZipArchive::len`).
pub uninterp spec fn zip_entry_count(bytes: Seq<u8>) -> nat;

/// Whether the zip crate can read entry `index` of the archive `bytes`
/// (`ZipArchive::by_index`).
pub uninterp spec fn zip_entry_readable(bytes: Seq<u8>, index: nat) -> bool;

/// Whether entry `index` of the archive `bytes` is a directory
/// (`ZipFile::is_dir`).
pub uninterp spec fn zip_entry_is_dir(bytes: Seq<u8>, index: nat) -> bool;

/// The uncompressed contents of entry `index` of the archive `bytes`, when
/// the zip crate can read them (`Read` on the entry's `ZipFile`).
pub uninterp spec fn zip_entry_data(bytes: Seq<u8>, index: nat) -> Option<Seq<u8>>;

/// Opens the archive in `bytes` (`ZipArchive::new` over a `Cursor`).
///
/// Trusted: the call succeeds exactly when `zip_opens(bytes@)`, the name of
/// the crate's verdict on the bytes.
#[verifier::external_body]
fn zip_open<'a>(bytes: &'a [u8]) -> (res: Result<zip::ZipArchive<std::io::Cursor<&'a [u8]>>, zip::result::ZipError>)
    ensures
        res is Ok <==> zip_opens(bytes@),
{
    zip::ZipArchive::new(std::io::Cursor::new(bytes))
}

/// The text of a zip error (its `Display`).
///
/// Trusted: nothing is stated of the text.
#[verifier::external_body]
fn zip_error_text(e: &zip::result::ZipError) -> String {
    format!("{}", e)
}

/// The number of entries (`ZipArchive::len`).
///
/// Trusted: the count is `zip_entry_count` of the archive's bytes.
#[verifier::external_body]
fn zip_len(a: &Archive) -> (res: usize)
    ensures
        res == zip_entry_count(a.bytes()),
{
    a.inner.len()
}

/// Entry `index`: its enclosed path as components, and whether it is a
/// directory (`ZipArchive::by_index`, `ZipFile::enclosed_name`,
/// `ZipFile::is_dir`).
///
/// Trusted: the call succeeds exactly when `zip_entry_readable`, and the
/// directory flag is `zip_entry_is_dir`.  Of the path only what holds on
/// every platform is stated: `enclosed_name` builds it from normal
/// components without a slash or backslash (rejecting names that leave the
/// directory), so each component is plain.  Which names it accepts follows
/// the path rules of the platform and is not stated.
#[verifier::external_body]
fn zip_entry<'a>(a: &mut Archive<'a>, index: usize) -> (res: Result<(Option<Vec<String>>, bool), zip::result::ZipError>)
    ensures
        final(a).bytes() == old(a).bytes(),
        res is Ok <==> zip_entry_readable(old(a).bytes(), index as nat),
        res matches Ok((_, is_dir)) ==> is_dir == zip_entry_is_dir(old(a).bytes(), index as nat),
        res matches Ok((Some(p), _)) ==> all_plain(p@.map_values(|s: String| s@)),
{
    let file = a.inner.by_index(index)?;
    let path = file.enclosed_name().map(
        |p| p.components().map(|c| c.as_os_str().to_string_lossy().to_string()).collect(),
    );
    Ok((path, file.is_dir()))
}

/// The uncompressed contents of entry `index` (`ZipArchive::by_index`, then
/// `Read::read_to_end` on the entry).
///
/// Trusted: the contents are `zip_entry_data` of the archive's bytes; the
/// call fails when that is `None`.
#[verifier::external_body]
fn zip_entry_contents<'a>(a: &mut Archive<'a>, index: usize) -> (res: Result<Vec<u8>, String>)
    ensures
        final(a).bytes() == old(a).bytes(),
        res is Ok <==> zip_entry_data(old(a).bytes(), index as nat) is Some,
        res matches Ok(data) ==> Some(data@) == zip_entry_data(old(a).bytes(), index as nat),
{
    let mut file = a.inner.by_index(index).map_err(|e| e.to_string())?;
    let mut data: Vec<u8> = Vec::new();
    std::io::Read::read_to_end(&mut file, &mut data).map_err(|e| e.to_string())?;
    Ok(data)
}

/// Opens the archive in `bytes`; an error, with the crate's explanation,
/// when it is not one.
pub fn open_archive<'a>(bytes: &'a [u8]) -> (res: Result<Archive<'a>, String>)
    ensures
        res is Ok <==> zip_opens(bytes@),
        res matches Ok(a) ==> a.bytes() == bytes@,
{
    match zip_open(bytes) {
        Ok(inner) => Ok(Archive { inner, bytes: Ghost(bytes@) }),
        Err(e) => Err(zip_error_text(&e)),
    }
}

/// The number of entries of the archive.
pub fn archive_len(a: &Archive) -> (res: usize)
    ensures
        res == zip_entry_count(a.bytes()),
{
    zip_len(a)
}

/// Entry `index` of the archive; an error, with the crate's explanation,
/// when it cannot be read.
pub fn archive_entry<'a>(a: &mut Archive<'a>, index: usize) -> (res: Result<ArchiveEntry, String>)
    ensures
        final(a).bytes() == old(a).bytes(),
        res is Ok <==> zip_entry_readable(old(a).bytes(), index as nat),
        res matches Ok(e) ==> e.is_dir == zip_entry_is_dir(old(a).bytes(), index as nat),
        res matches Ok(e) ==> (e.path matches Some(p) ==> all_plain(p@.map_values(|s: String| s@))),
{
    match zip_entry(a, index) {
        Ok((path, is_dir)) => Ok(ArchiveEntry { path, is_dir }),
        Err(e) => Err(zip_error_text(&e)),
    }
}

/// The uncompressed contents of entry `index` of the archive.
pub fn archive_entry_data<'a>(a: &mut Archive<'a>, index: usize) -> (res: Result<Vec<u8>, String>)
    ensures
        final(a).bytes() == old(a).bytes(),
        res is Ok <==> zip_entry_data(old(a).bytes(), index as nat) is Some,
        res matches Ok(data) ==> Some(data@) == zip_entry_data(old(a).bytes(), index as nat),
{
    zip_entry_contents(a, index)
}

/// The top-level directory left out of every path when extracting the
/// archive: none for plugins; otherwise the single top-level directory of
/// the entries' paths (`root_to_strip` of the paths the zip crate reports),
/// if there is one.  An error when an entry cannot be read (plugins
/// archives are not read here).  Which paths the crate reports is not
/// stated (see `zip_entry`), so neither is which directory is found; the
/// directory found is a plain path component.
pub fn archive_root<'a>(a: &mut Archive<'a>, is_plugins: bool) -> (res: Result<Option<String>, String>)
    ensures
        final(a).bytes() == old(a).bytes(),
        is_plugins ==> res == Ok::<Option<String>, String>(None),
        !is_plugins ==> (res is Ok <==> forall|i: nat|
            i < zip_entry_count(old(a).bytes()) ==> #[trigger] zip_entry_readable(old(a).bytes(), i)),
        res matches Ok(Some(r)) ==> is_plain_component(r@),
{
    if is_plugins {
        return Ok(None);
    }
    let ghost bytes = a.bytes();
    let n = archive_len(a);
    let mut paths: Vec<(Vec<String>, bool)> = Vec::new();
    for i in 0..n
        invariant
            a.bytes() == bytes,
            bytes == old(a).bytes(),
            !is_plugins,
            n == zip_entry_count(bytes),
            forall|j: nat| j < i ==> #[trigger] zip_entry_readable(bytes, j),
            forall|k: int| 0 <= k < paths.len() ==> all_plain(#[trigger] entry_paths(paths@)[k].0),
    {
        let entry = archive_entry(a, i)?;
        if let Some(p) = entry.path {
            let ghost before = paths@;
            paths.push((p, entry.is_dir));
            proof {
                assert forall|k: int| 0 <= k < paths.len() implies all_plain(
                    #[trigger] entry_paths(paths@)[k].0,
                ) by {
                    if k < before.len() {
                        assert(entry_paths(paths@)[k] == entry_paths(before)[k]);
                    }
                }
            }
        }
    }
    let root = root_to_strip(&paths, false);
    proof {
        if root is Some {
            let r = root->0;
            let ev = entry_paths(paths@);
            let i = choose|i: int| 0 <= i < ev.len() && (#[trigger] ev[i]).0.len() > 0;
            assert(lies_under(ev[i], r@));
            assert(all_plain(ev[i].0));
            assert(is_plain_component(ev[i].0[0]));
        }
    }
    Ok(root)
}

} // verus!
