//! Mods directories: the trash naming scheme, and the order of listings.
//!
//! A deleted mod is moved into the trash under the name
//! `<seconds since the epoch>__<original name>`; listing the trash reads the
//! time and the original name back from that name.

use std::collections::HashMap;

use vstd::prelude::*;

use crate::sorting::{SortKey, chars_le, is_stable_sort_of, key_le, sort_with_keys, stably_sorted};
use crate::text::{
    chars_of,
    decimal,
    decimal_exec,
    find_chars,
    first_occurrence,
    lemma_decimal_has_no_underscore,
    lemma_first_occurrence_is,
    lemma_parse_decimal,
    lowercase,
    occurs_at,
    parse_u64,
    parse_u64_spec,
    concat_strs,
    str_eq,
    string_from_chars,
    string_from_range,
    to_lowercase,
};

verus! {

/// A mod found in a mods directory, live or in the trash.
#[derive(Debug, Clone, PartialEq, Eq)]
pub struct ModEntry {
    pub name: String,
    pub is_dir: bool,
    pub size: u64,
    pub deleted: bool,
    pub deleted_at: Option<u64>,
}

// ---------------------------------------------------------------------------
// Specifications
// ---------------------------------------------------------------------------

/// The separator between the deletion time and the original name.
pub open spec fn trash_separator() -> Seq<char> {
    seq!['_', '_']
}

/// The name under which a mod called `name`, deleted at time `t`, is kept in
/// the trash.
pub open spec fn trash_entry_name_spec(t: u64, name: Seq<char>) -> Seq<char> {
    decimal(t as nat) + trash_separator() + name
}

/// What a trash entry's name says: the deletion time and the original name.
/// A name without the separator is its own original name, with no time; a
/// time that does not read as a number counts as zero.
pub open spec fn trash_name_parts(raw: Seq<char>) -> (Option<u64>, Seq<char>) {
    match first_occurrence(raw, trash_separator()) {
        Some(i) => (
            Some(
                match parse_u64_spec(raw.take(i)) {
                    Some(t) => t,
                    None => 0,
                },
            ),
            raw.skip(i + 2),
        ),
        None => (None, raw),
    }
}

/// The trash entry `raw` holds the mod called `name`.
pub open spec fn is_trashed_copy_spec(raw: Seq<char>, name: Seq<char>) -> bool {
    match first_occurrence(raw, trash_separator()) {
        Some(i) => raw.skip(i + 2) == name,
        None => false,
    }
}

/// The rank of an entry in listings: live folders, live files, deleted
/// folders, deleted files.
pub open spec fn mod_rank_spec(deleted: bool, is_dir: bool) -> u64 {
    if !deleted && is_dir {
        0
    } else if !deleted {
        1
    } else if is_dir {
        2
    } else {
        3
    }
}

/// The key by which listings are ordered: the rank, then the lower-case name.
pub open spec fn mod_key(e: ModEntry) -> (u64, Seq<char>) {
    (mod_rank_spec(e.deleted, e.is_dir), lowercase(e.name@))
}

// ---------------------------------------------------------------------------
// Laws
// ---------------------------------------------------------------------------

/// The separator first occurs right after the deletion time.
proof fn lemma_separator_after_time(t: u64, name: Seq<char>)
    ensures
        first_occurrence(trash_entry_name_spec(t, name), trash_separator()) == Some(
            decimal(t as nat).len() as int,
        ),
{
    let d = decimal(t as nat);
    let s = trash_entry_name_spec(t, name);
    let sep = trash_separator();
    let i = d.len() as int;
    lemma_decimal_has_no_underscore(t as nat);
    assert(s.subrange(i, i + 2) =~= sep);
    assert forall|j: int| 0 <= j < i implies !occurs_at(s, sep, j) by {
        assert(s[j] == d[j]);
        if occurs_at(s, sep, j) {
            assert(s.subrange(j, j + 2)[0] == s[j]);
        }
    }
    lemma_first_occurrence_is(s, sep, i);
}

/// Reading a trash entry's name gives back the deletion time and the
/// original name that it was written with, whatever the original name.
pub proof fn lemma_trash_name_roundtrip(t: u64, name: Seq<char>)
    ensures
        trash_name_parts(trash_entry_name_spec(t, name)) == (Some(t), name),
{
    let d = decimal(t as nat);
    let s = trash_entry_name_spec(t, name);
    lemma_separator_after_time(t, name);
    assert(s.take(d.len() as int) =~= d);
    assert(s.skip(d.len() as int + 2) =~= name);
    lemma_parse_decimal(t);
}

/// A mod moved to the trash is found again under its original name, and
/// under no other name.
pub proof fn lemma_trashed_copy_found(t: u64, name: Seq<char>, other: Seq<char>)
    ensures
        is_trashed_copy_spec(trash_entry_name_spec(t, name), name),
        other != name ==> !is_trashed_copy_spec(trash_entry_name_spec(t, name), other),
{
    let d = decimal(t as nat);
    let s = trash_entry_name_spec(t, name);
    lemma_separator_after_time(t, name);
    assert(s.skip(d.len() as int + 2) =~= name);
}

/// Restoring or purging by name finds exactly the trash entries that the
/// listing shows as deleted under that name.
pub proof fn lemma_trashed_copy_matches_listing(raw: Seq<char>, name: Seq<char>)
    ensures
        is_trashed_copy_spec(raw, name) <==> (trash_name_parts(raw).0 is Some && trash_name_parts(raw).1
            == name),
{
}

/// A listing in key order shows live folders, then live files, then deleted
/// folders, then deleted files, and within each of these groups the names
/// in lower-case order.
pub proof fn lemma_listing_order(entries: Seq<ModEntry>, res: Seq<ModEntry>)
    requires
        stably_sorted(entries, res, |e: ModEntry| mod_key(e)),
    ensures
        forall|i: int, j: int|
            0 <= i < j < res.len() ==> {
                &&& !(#[trigger] res[j]).deleted ==> !(#[trigger] res[i]).deleted
                &&& !res[j].deleted && res[j].is_dir ==> res[i].is_dir
                &&& res[j].deleted && res[j].is_dir ==> !res[i].deleted || res[i].is_dir
                &&& res[i].deleted == res[j].deleted && res[i].is_dir == res[j].is_dir ==> chars_le(
                    lowercase(res[i].name@),
                    lowercase(res[j].name@),
                )
            },
{
    let kf = |e: ModEntry| mod_key(e);
    let p = choose|p: Seq<int>| #[trigger] is_stable_sort_of(entries, res, kf, p);
    assert forall|i: int, j: int| 0 <= i < j < res.len() implies {
        &&& !(#[trigger] res[j]).deleted ==> !(#[trigger] res[i]).deleted
        &&& !res[j].deleted && res[j].is_dir ==> res[i].is_dir
        &&& res[j].deleted && res[j].is_dir ==> !res[i].deleted || res[i].is_dir
        &&& res[i].deleted == res[j].deleted && res[i].is_dir == res[j].is_dir ==> chars_le(
            lowercase(res[i].name@),
            lowercase(res[j].name@),
        )
    } by {
        assert(key_le(kf(res[i]), kf(res[j])));
    }
}

// ---------------------------------------------------------------------------
// Executable functions
// ---------------------------------------------------------------------------

/// The name of the trash directory beside the executable.
pub fn trash_dir_name() -> (res: String)
    ensures
        res@ == seq!['.', 't', 'r', 'a', 'n', 's'],
{
    let v: Vec<char> = vec!['.', 't', 'r', 'a', 'n', 's'];
    string_from_chars(v.as_slice())
}

/// The trash sub-directory for a mods directory: named after the
/// directory's last path component, or `default` when it has none.
pub fn trash_subdir_name(base_file_name: Option<String>) -> (res: String)
    ensures
        res@ == match base_file_name {
            Some(n) => n@,
            None => seq!['d', 'e', 'f', 'a', 'u', 'l', 't'],
        },
{
    match base_file_name {
        Some(n) => n,
        None => {
            let v: Vec<char> = vec!['d', 'e', 'f', 'a', 'u', 'l', 't'];
            string_from_chars(v.as_slice())
        },
    }
}

/// The name under which a mod called `name`, deleted at time `deleted_at`,
/// is kept in the trash (`<deleted_at>__<name>`).
pub fn trash_entry_name(deleted_at: u64, name: &str) -> (res: String)
    ensures
        res@ == trash_entry_name_spec(deleted_at, name@),
{
    let mut v = decimal_exec(deleted_at);
    v.push('_');
    v.push('_');
    let w = chars_of(name);
    let n = w.len();
    let ghost v0 = v@;
    for i in 0..n
        invariant
            n == w@.len(),
            w@ == name@,
            v@ == v0 + name@.take(i as int),
    {
        v.push(w[i]);
        assert(name@.take(i + 1) =~= name@.take(i as int).push(name@[i as int]));
    }
    assert(name@.take(n as int) =~= name@);
    assert(v0 =~= decimal(deleted_at as nat) + trash_separator());
    string_from_chars(v.as_slice())
}

/// Reads the deletion time and the original name from a trash entry's name.
pub fn parse_trash_name(raw: &str) -> (res: (Option<u64>, String))
    ensures
        (res.0, res.1@) == trash_name_parts(raw@),
{
    let v = chars_of(raw);
    let sep: Vec<char> = vec!['_', '_'];
    assert(sep@ =~= trash_separator());
    match find_chars(&v, &sep) {
        Some(i) => {
            proof {
                assert(occurs_at(v@, sep@, i as int));
            }
            let prefix = string_from_range(&v, 0, i);
            let t = match parse_u64(prefix.as_str()) {
                Some(t) => t,
                None => 0,
            };
            let name = string_from_range(&v, i + 2, v.len());
            assert(v@.subrange(0, i as int) =~= v@.take(i as int));
            assert(v@.subrange(i + 2, v@.len() as int) =~= v@.skip(i + 2));
            (Some(t), name)
        },
        None => (None, string_from_range(&v, 0, v.len())),
    }
}

/// Whether the trash entry `raw` holds the mod called `name`.
pub fn is_trashed_copy_of(raw: &str, name: &str) -> (res: bool)
    ensures
        res == is_trashed_copy_spec(raw@, name@),
{
    let v = chars_of(raw);
    let sep: Vec<char> = vec!['_', '_'];
    assert(sep@ =~= trash_separator());
    match find_chars(&v, &sep) {
        Some(i) => {
            proof {
                assert(occurs_at(v@, sep@, i as int));
                assert(sep@.len() == 2);
                assert(i + 2 <= v.len());
            }
            let original = string_from_range(&v, i + 2, v.len());
            assert(v@.subrange(i + 2, v@.len() as int) =~= v@.skip(i + 2));
            str_eq(original.as_str(), name)
        },
        None => false,
    }
}

/// The rank of an entry in listings: live folders, live files, deleted
/// folders, deleted files.
pub fn mod_rank(deleted: bool, is_dir: bool) -> (res: u64)
    ensures
        res == mod_rank_spec(deleted, is_dir),
{
    if !deleted && is_dir {
        0
    } else if !deleted {
        1
    } else if is_dir {
        2
    } else {
        3
    }
}

/// The listing entry of a live mod.
pub fn live_mod_entry(name: String, is_dir: bool, size: u64) -> (res: ModEntry)
    ensures
        res.name == name,
        res.is_dir == is_dir,
        res.size == size,
        !res.deleted,
        res.deleted_at is None,
{
    ModEntry { name, is_dir, size, deleted: false, deleted_at: None }
}

/// The listing entry of a trash entry named `raw_name`: shown under its
/// original name, with its deletion time.
pub fn trashed_mod_entry(raw_name: &str, is_dir: bool, size: u64) -> (res: ModEntry)
    ensures
        (res.deleted_at, res.name@) == trash_name_parts(raw_name@),
        res.is_dir == is_dir,
        res.size == size,
        res.deleted,
{
    let (deleted_at, name) = parse_trash_name(raw_name);
    ModEntry { name, is_dir, size, deleted: true, deleted_at }
}

/// Orders a listing: live folders, live files, deleted folders, deleted
/// files, each group by lower-case name; entries that compare equal keep
/// their order.
pub fn sort_mod_entries(entries: Vec<ModEntry>) -> (res: Vec<ModEntry>)
    ensures
        stably_sorted(entries@, res@, |e: ModEntry| mod_key(e)),
        forall|i: int, j: int|
            0 <= i < j < res@.len() ==> {
                &&& !(#[trigger] res@[j]).deleted ==> !(#[trigger] res@[i]).deleted
                &&& !res@[j].deleted && res@[j].is_dir ==> res@[i].is_dir
                &&& res@[j].deleted && res@[j].is_dir ==> !res@[i].deleted || res@[i].is_dir
                &&& res@[i].deleted == res@[j].deleted && res@[i].is_dir == res@[j].is_dir
                    ==> chars_le(lowercase(res@[i].name@), lowercase(res@[j].name@))
            },
{
    let n = entries.len();
    let mut keys: Vec<SortKey> = Vec::new();
    for i in 0..n
        invariant
            n == entries@.len(),
            keys@.len() == i,
            forall|k: int| 0 <= k < i ==> #[trigger] keys@[k]@ == mod_key(entries@[k]),
    {
        let e = &entries[i];
        let lower = to_lowercase(e.name.as_str());
        let key = SortKey { rank: mod_rank(e.deleted, e.is_dir), text: chars_of(lower.as_str()) };
        keys.push(key);
    }
    let ghost input = entries@;
    let res = sort_with_keys(entries, keys, Ghost(|e: ModEntry| mod_key(e)));
    proof {
        lemma_listing_order(input, res@);
    }
    res
}

#[verifier::external_type_specification]
#[verifier::external_body]
pub struct ExSystemTime(std::time::SystemTime);

#[verifier::external_type_specification]
#[verifier::external_body]
pub struct ExSystemTimeError(std::time::SystemTimeError);

/// The current time (`SystemTime::now`).
///
/// Trusted: nothing is stated of the value, which is the clock's reading.
#[verifier::external_body]
fn system_time_now() -> (res: std::time::SystemTime) {
    std::time::SystemTime::now()
}

/// The time elapsed since the Unix epoch (`SystemTime::duration_since`
/// with `UNIX_EPOCH`); an error when `t` is before it.
///
/// Trusted: nothing is stated, since a `SystemTime` is opaque here.
#[verifier::external_body]
fn since_unix_epoch(t: &std::time::SystemTime) -> (res: Result<
    std::time::Duration,
    std::time::SystemTimeError,
>) {
    t.duration_since(std::time::UNIX_EPOCH)
}

/// The whole seconds of a duration (`Duration::as_secs`).
///
/// Trusted: nothing is stated, since a `Duration` is opaque here.
#[verifier::external_body]
fn whole_seconds(d: &std::time::Duration) -> (res: u64) {
    d.as_secs()
}

/// The current time in whole seconds since the Unix epoch, or zero when the
/// clock is set before the epoch.
pub fn now_secs() -> (res: u64) {
    let now = system_time_now();
    match since_unix_epoch(&now) {
        Ok(d) => whole_seconds(&d),
        Err(_) => 0,
    }
}

// ---------------------------------------------------------------------------
// Mod descriptions
// ---------------------------------------------------------------------------

#[verifier::external_type_specification]
#[verifier::external_body]
pub struct ExJsonError(serde_json::Error);

/// The category-keyed mod descriptions that the JSON text `content` holds
/// (`{ "plugins": { "ModA": "desc..." }, ... }`), as `serde_json::from_str`
/// reads them into nested `HashMap`s; `None` when it rejects the text.
pub uninterp spec fn descriptions_of(content: Seq<char>) -> Option<
    Map<Seq<char>, Map<Seq<char>, Seq<char>>>,
>;

/// The JSON text `content` holds mod descriptions.
pub open spec fn descriptions_parse(content: Seq<char>) -> bool {
    descriptions_of(content) is Some
}

/// Reads mod descriptions from JSON text (`serde_json::from_str`).
///
/// Trusted: the call succeeds exactly when `descriptions_of(content@)` is
/// some map, and then the result's contents are that map.
#[verifier::external_body]
fn json_descriptions(content: &str) -> (res: Result<
    HashMap<String, HashMap<String, String>>,
    serde_json::Error,
>)
    ensures
        res is Ok <==> descriptions_parse(content@),
        res matches Ok(m) ==> descriptions_of(content@) == Some(m.deep_view()),
{
    serde_json::from_str(content)
}

/// The text of a JSON error (its `Display`).
///
/// Trusted: nothing is stated of the text.
#[verifier::external_body]
fn json_error_text(e: &serde_json::Error) -> String {
    format!("{}", e)
}

/// Reads the category-keyed mod descriptions from the JSON text `content`;
/// an error, starting `Invalid JSON: `, when the text does not hold them.
pub fn parse_descriptions(content: &str) -> (res: Result<HashMap<String, HashMap<String, String>>, String>)
    ensures
        res is Ok <==> descriptions_parse(content@),
        res matches Ok(m) ==> descriptions_of(content@) == Some(m.deep_view()),
        res matches Err(m) ==> exists|t: Seq<char>| m@ == "Invalid JSON: "@ + t,
{
    match json_descriptions(content) {
        Ok(m) => Ok(m),
        Err(e) => {
            let text = json_error_text(&e);
            let msg = concat_strs("Invalid JSON: ", text.as_str());
            assert(msg@ == "Invalid JSON: "@ + text@);
            Err(msg)
        },
    }
}

} // verus!
