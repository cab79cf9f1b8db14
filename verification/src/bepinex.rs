//! The BepInEx mod framework: which files make an installation, what
//! removing it deletes, which builds the download page offers, and which
//! version the framework's log reports.

use vstd::prelude::*;

use crate::sorting::{SortKey, is_stable_sort_of, key_le, lemma_stably_sorted_views, sort_with_keys, stably_sorted};
use crate::text::{
    before_first,
    before_first_exec,
    concat_strs,
    lemma_before_first,
    occurs_at,
    opt_text,
    parse_u64,
    parse_u64_spec,
    str_eq,
};

verus! {

// ---------------------------------------------------------------------------
// Types
// ---------------------------------------------------------------------------

/// The result of checking an installation.
#[derive(Debug, Clone, PartialEq, Eq)]
pub struct BepInExCheckResult {
    /// The required items that are missing (relative paths)
    pub missing: Vec<String>,
    /// Whether every required item exists
    pub ok: bool,
}

/// A build of the framework offered for download.
#[derive(Debug, Clone, PartialEq, Eq)]
pub struct BepInExArtifact {
    /// Display name (e.g. "BepInEx IL2CPP win-x64 6.0.0-be.783")
    pub name: String,
    /// Download URL
    pub url: String,
    /// Version (e.g. "6.0.0-be.783")
    pub version: String,
    /// Build number
    pub build_number: u64,
}

impl View for BepInExArtifact {
    type V = (Seq<char>, Seq<char>, Seq<char>, u64);

    open spec fn view(&self) -> (Seq<char>, Seq<char>, Seq<char>, u64) {
        (self.name@, self.url@, self.version@, self.build_number)
    }
}

/// What removing the framework does with one of its required items.
#[derive(Debug, Clone, Copy, PartialEq, Eq)]
pub enum RemovalAction {
    /// The item does not exist: nothing to do.
    Skip,
    /// The `BepInEx` directory: delete its contents except the user's
    /// `plugins` and `config` directories.
    ClearFrameworkDir,
    /// Delete the directory and everything in it.
    RemoveDir,
    /// Delete the file.
    RemoveFile,
}

// ---------------------------------------------------------------------------
// The regular expressions of the regex crate
// ---------------------------------------------------------------------------

#[verifier::external_type_specification]
#[verifier::external_body]
pub struct ExRegex(regex::Regex);

#[verifier::external_type_specification]
#[verifier::external_body]
pub struct ExRegexError(regex::Error);

/// A compiled regular expression together with the pattern it was compiled
/// from.
pub struct Pattern {
    re: regex::Regex,
    source: Ghost<Seq<char>>,
}

impl Pattern {
    /// The pattern this expression was compiled from.
    pub closed spec fn source(&self) -> Seq<char> {
        self.source@
    }
}

/// Whether the regex crate accepts `pattern` (the result of
/// `regex::Regex::new`, which depends on the pattern alone).
pub uninterp spec fn regex_accepts(pattern: Seq<char>) -> bool;

/// The text of capture group `group` in each successive non-overlapping
/// match of `pattern` in `haystack` (what `Regex::captures_iter` yields,
/// read through `Captures::get`), `None` where the group took no part.
pub uninterp spec fn regex_match_groups(pattern: Seq<char>, haystack: Seq<char>, group: nat) -> Seq<
    Option<Seq<char>>,
>;

/// The text of capture group `group` in the first match of `pattern` in
/// `haystack` (what `Regex::captures` gives, read through `Captures::get`);
/// `None` when there is no match or the group took no part in it.
pub uninterp spec fn regex_first_match_group(
    pattern: Seq<char>,
    haystack: Seq<char>,
    group: nat,
) -> Option<Seq<char>>;

/// The characters of each optional text.
pub open spec fn opt_texts(v: Seq<Option<String>>) -> Seq<Option<Seq<char>>> {
    v.map_values(|o: Option<String>| opt_text(o))
}

/// Compiles `pattern` (`regex::Regex::new`).
///
/// Trusted: the call succeeds exactly when `regex_accepts(pattern@)`, the
/// name of the crate's verdict on the pattern.
#[verifier::external_body]
fn regex_new(pattern: &str) -> (res: Result<regex::Regex, regex::Error>)
    ensures
        res is Ok <==> regex_accepts(pattern@),
{
    regex::Regex::new(pattern)
}

/// Capture group `group` of every match (`Regex::captures_iter`).
///
/// Trusted: the texts are `regex_match_groups` of the pattern the
/// expression was compiled from, the haystack and the group.
#[verifier::external_body]
fn match_groups(p: &Pattern, haystack: &str, group: usize) -> (res: Vec<Option<String>>)
    ensures
        opt_texts(res@) == regex_match_groups(p.source(), haystack@, group as nat),
{
    p.re.captures_iter(haystack).map(|c| c.get(group).map(|m| m.as_str().to_string())).collect()
}

/// Capture group `group` of the first match (`Regex::captures`).
///
/// Trusted: the text is `regex_first_match_group` of the pattern the
/// expression was compiled from, the haystack and the group.
#[verifier::external_body]
fn first_match_group(p: &Pattern, haystack: &str, group: usize) -> (res: Option<String>)
    ensures
        opt_text(res) == regex_first_match_group(p.source(), haystack@, group as nat),
{
    p.re.captures(haystack).and_then(|c| c.get(group)).map(|m| m.as_str().to_string())
}

/// Compiles `pattern`; an error when the regex crate rejects it.
pub fn compile_pattern(pattern: &str) -> (res: Result<Pattern, String>)
    ensures
        res is Ok <==> regex_accepts(pattern@),
        res matches Ok(p) ==> p.source() == pattern@,
        res matches Err(m) ==> m@ == "Invalid regular expression"@,
{
    match regex_new(pattern) {
        Ok(re) => Ok(Pattern { re, source: Ghost(pattern@) }),
        Err(_) => Err("Invalid regular expression".to_owned()),
    }
}

// ---------------------------------------------------------------------------
// Installation check and removal
// ---------------------------------------------------------------------------

/// The items, relative to the executable's directory, that make an
/// installation of the framework.
pub open spec fn required_items_spec() -> Seq<Seq<char>> {
    seq!["BepInEx"@, "dotnet"@, ".doorstop_version"@, "doorstop_config.ini"@, "winhttp.dll"@]
}

/// The items of `items` whose flag in `present` is off, in order.
pub open spec fn missing_items_spec(items: Seq<Seq<char>>, present: Seq<bool>) -> Seq<Seq<char>>
    decreases items.len(),
{
    if items.len() == 0 {
        Seq::empty()
    } else {
        let rest = missing_items_spec(items.drop_last(), present.take(items.len() - 1));
        if present[items.len() - 1] {
            rest
        } else {
            rest.push(items.last())
        }
    }
}

/// The items, relative to the executable's directory, that make an
/// installation of the framework.
pub fn bepinex_required_items() -> (res: Vec<String>)
    ensures
        res@.map_values(|s: String| s@) == required_items_spec(),
{
    let v: Vec<String> = vec![
        "BepInEx".to_owned(),
        "dotnet".to_owned(),
        ".doorstop_version".to_owned(),
        "doorstop_config.ini".to_owned(),
        "winhttp.dll".to_owned(),
    ];
    assert(v@.map_values(|s: String| s@) =~= required_items_spec());
    v
}

/// The check result for the required items `items`, of which those flagged
/// in `present` exist: the missing ones in order, and whether none is.
pub fn check_result(items: &Vec<String>, present: &Vec<bool>) -> (res: BepInExCheckResult)
    requires
        items.len() == present.len(),
    ensures
        res.missing@.map_values(|s: String| s@) == missing_items_spec(
            items@.map_values(|s: String| s@),
            present@,
        ),
        res.ok == (res.missing.len() == 0),
        res.ok <==> forall|i: int| 0 <= i < present.len() ==> present@[i],
{
    let n = items.len();
    let mut missing: Vec<String> = Vec::new();
    let ghost names = items@.map_values(|s: String| s@);
    for i in 0..n
        invariant
            n == items@.len(),
            n == present@.len(),
            names == items@.map_values(|s: String| s@),
            missing@.map_values(|s: String| s@) == missing_items_spec(
                names.take(i as int),
                present@.take(i as int),
            ),
            (missing.len() == 0) <==> forall|j: int| 0 <= j < i ==> present@[j],
    {
        let ghost before = missing@;
        assert(names.take(i + 1).drop_last() =~= names.take(i as int));
        assert(present@.take(i + 1).take(i as int) =~= present@.take(i as int));
        if !present[i] {
            missing.push(items[i].clone());
            assert(missing@.map_values(|s: String| s@) =~= before.map_values(|s: String| s@).push(
                items@[i as int]@,
            ));
        }
    }
    assert(names.take(n as int) =~= names);
    assert(present@.take(n as int) =~= present@);
    let ok = missing.len() == 0;
    BepInExCheckResult { missing, ok }
}

/// What removing the framework does with the required item `item`, given
/// whether it exists and whether it is a directory.
pub open spec fn removal_action_spec(item: Seq<char>, exists: bool, is_dir: bool) -> RemovalAction {
    if !exists {
        RemovalAction::Skip
    } else if item == "BepInEx"@ && is_dir {
        RemovalAction::ClearFrameworkDir
    } else if is_dir {
        RemovalAction::RemoveDir
    } else {
        RemovalAction::RemoveFile
    }
}

/// What removing the framework does with the required item `item`, given
/// whether it exists and whether it is a directory.
pub fn removal_action(item: &str, exists: bool, is_dir: bool) -> (res: RemovalAction)
    ensures
        res == removal_action_spec(item@, exists, is_dir),
        res == RemovalAction::Skip <==> !exists,
        res == RemovalAction::ClearFrameworkDir <==> exists && is_dir && item@ == "BepInEx"@,
        res == RemovalAction::RemoveDir <==> exists && is_dir && item@ != "BepInEx"@,
        res == RemovalAction::RemoveFile <==> exists && !is_dir,
{
    if !exists {
        RemovalAction::Skip
    } else if str_eq(item, "BepInEx") && is_dir {
        RemovalAction::ClearFrameworkDir
    } else if is_dir {
        RemovalAction::RemoveDir
    } else {
        RemovalAction::RemoveFile
    }
}

/// Whether an entry of the `BepInEx` directory is kept when the framework
/// is removed: the user's `plugins` and `config` directories.
pub open spec fn is_preserved_spec(name: Seq<char>) -> bool {
    name == "plugins"@ || name == "config"@
}

/// The entries of the `BepInEx` directory left after removal, in order.
pub open spec fn kept_after_clear(children: Seq<Seq<char>>) -> Seq<Seq<char>>
    decreases children.len(),
{
    if children.len() == 0 {
        Seq::empty()
    } else {
        let rest = kept_after_clear(children.drop_last());
        if is_preserved_spec(children.last()) {
            rest.push(children.last())
        } else {
            rest
        }
    }
}

/// Whether a required item exists after removal: only the framework
/// directory itself is kept (emptied of all but the user's directories).
pub open spec fn exists_after_removal(item: Seq<char>, exists: bool, is_dir: bool) -> bool {
    removal_action_spec(item, exists, is_dir) == RemovalAction::ClearFrameworkDir
}

/// Entries that are all kept are kept as they are.
proof fn lemma_kept_all(children: Seq<Seq<char>>)
    requires
        forall|i: int| 0 <= i < children.len() ==> is_preserved_spec(#[trigger] children[i]),
    ensures
        kept_after_clear(children) == children,
    decreases children.len(),
{
    if children.len() > 0 {
        let init = children.drop_last();
        assert forall|i: int| 0 <= i < init.len() implies is_preserved_spec(#[trigger] init[i]) by {
            assert(init[i] == children[i]);
        }
        lemma_kept_all(init);
        assert(is_preserved_spec(children[children.len() - 1]));
        assert(init.push(children.last()) =~= children);
    }
}

/// Every entry left after removal is one of the user's directories.
proof fn lemma_kept_are_preserved(children: Seq<Seq<char>>)
    ensures
        forall|i: int|
            0 <= i < kept_after_clear(children).len() ==> is_preserved_spec(
                #[trigger] kept_after_clear(children)[i],
            ),
    decreases children.len(),
{
    if children.len() > 0 {
        lemma_kept_are_preserved(children.drop_last());
        let rest = kept_after_clear(children.drop_last());
        let k = kept_after_clear(children);
        assert forall|i: int| 0 <= i < k.len() implies is_preserved_spec(#[trigger] k[i]) by {
            if i < rest.len() {
                assert(k[i] == rest[i]);
            }
        }
    }
}

/// Emptying the framework directory keeps exactly the entries named
/// `plugins` or `config`, in their order: every entry left has one of these
/// names, and every entry with one of these names is left.
pub proof fn lemma_clear_keeps_user_dirs(children: Seq<Seq<char>>)
    ensures
        forall|i: int|
            0 <= i < kept_after_clear(children).len() ==> #[trigger] kept_after_clear(children)[i]
                == "plugins"@ || kept_after_clear(children)[i] == "config"@,
        forall|k: int|
            0 <= k < children.len() && (#[trigger] children[k] == "plugins"@ || children[k]
                == "config"@) ==> kept_after_clear(children).contains(children[k]),
        kept_after_clear(children).len() <= children.len(),
    decreases children.len(),
{
    lemma_kept_are_preserved(children);
    if children.len() > 0 {
        let init = children.drop_last();
        lemma_clear_keeps_user_dirs(init);
        let rest = kept_after_clear(init);
        let k = kept_after_clear(children);
        assert forall|j: int|
            0 <= j < children.len() && (#[trigger] children[j] == "plugins"@ || children[j]
                == "config"@) implies k.contains(children[j]) by {
            if j < init.len() {
                assert(init[j] == children[j]);
                let w = choose|w: int| 0 <= w < rest.len() && rest[w] == init[j];
                assert(k[w] == rest[w]);
            } else {
                assert(k[k.len() - 1] == children[j]);
            }
        }
    }
}

/// Removing the framework a second time changes nothing: no item is
/// deleted, and emptying the framework directory again keeps every entry
/// that the first removal kept.
pub proof fn lemma_removal_is_idempotent(
    item: Seq<char>,
    exists: bool,
    is_dir: bool,
    children: Seq<Seq<char>>,
)
    ensures
        removal_action_spec(item, exists_after_removal(item, exists, is_dir), is_dir)
            == RemovalAction::Skip || removal_action_spec(
            item,
            exists_after_removal(item, exists, is_dir),
            is_dir,
        ) == RemovalAction::ClearFrameworkDir,
        exists_after_removal(item, exists_after_removal(item, exists, is_dir), is_dir)
            == exists_after_removal(item, exists, is_dir),
        kept_after_clear(kept_after_clear(children)) == kept_after_clear(children),
{
    lemma_kept_are_preserved(children);
    lemma_kept_all(kept_after_clear(children));
}

/// Right after removal, the check lists as missing every required item but
/// the framework directory when that directory existed, and all of them
/// otherwise.
pub proof fn lemma_check_after_removal(exists: Seq<bool>, is_dir: Seq<bool>)
    requires
        exists.len() == 5,
        is_dir.len() == 5,
    ensures
        missing_items_spec(
            required_items_spec(),
            Seq::new(
                5,
                |i: int| exists_after_removal(required_items_spec()[i], exists[i], is_dir[i]),
            ),
        ) == if exists[0] && is_dir[0] {
            required_items_spec().drop_first()
        } else {
            required_items_spec()
        },
{
    reveal_strlit("BepInEx");
    reveal_strlit("dotnet");
    reveal_strlit(".doorstop_version");
    reveal_strlit("doorstop_config.ini");
    reveal_strlit("winhttp.dll");
    let items = required_items_spec();
    let after = Seq::new(
        5,
        |i: int| exists_after_removal(required_items_spec()[i], exists[i], is_dir[i]),
    );
    assert("BepInEx"@.len() == 7);
    assert(items[1] == "dotnet"@ && "dotnet"@.len() == 6);
    assert(items[1] != "BepInEx"@);
    assert(items[2] == ".doorstop_version"@ && ".doorstop_version"@[0] == '.');
    assert("BepInEx"@[0] == 'B');
    assert(items[2] != "BepInEx"@);
    assert(items[3] != "BepInEx"@);
    assert(items[4] != "BepInEx"@);
    assert(!after[1] && !after[2] && !after[3] && !after[4]);
    assert(after[0] == (exists[0] && is_dir[0]));
    let m0 = missing_items_spec(items.take(0), after.take(0));
    assert(items.take(1).drop_last() =~= items.take(0));
    assert(after.take(1).take(0) =~= after.take(0));
    let m1 = missing_items_spec(items.take(1), after.take(1));
    assert(items.take(2).drop_last() =~= items.take(1));
    assert(after.take(2).take(1) =~= after.take(1));
    let m2 = missing_items_spec(items.take(2), after.take(2));
    assert(items.take(3).drop_last() =~= items.take(2));
    assert(after.take(3).take(2) =~= after.take(2));
    let m3 = missing_items_spec(items.take(3), after.take(3));
    assert(items.take(4).drop_last() =~= items.take(3));
    assert(after.take(4).take(3) =~= after.take(3));
    let m4 = missing_items_spec(items.take(4), after.take(4));
    assert(items.drop_last() =~= items.take(4));
    assert(after.take(4) =~= after.take(4));
    assert(m0 == Seq::<Seq<char>>::empty());
    if after[0] {
        assert(m1 =~= Seq::<Seq<char>>::empty());
        assert(m2 =~= seq![items[1]]);
        assert(m3 =~= seq![items[1], items[2]]);
        assert(m4 =~= seq![items[1], items[2], items[3]]);
        assert(missing_items_spec(items, after) =~= items.drop_first());
    } else {
        assert(m1 =~= seq![items[0]]);
        assert(m2 =~= seq![items[0], items[1]]);
        assert(m3 =~= seq![items[0], items[1], items[2]]);
        assert(m4 =~= seq![items[0], items[1], items[2], items[3]]);
        assert(missing_items_spec(items, after) =~= items);
    }
}

/// Whether an entry of the `BepInEx` directory is kept when the framework
/// is removed: the user's `plugins` and `config` directories.
pub fn is_preserved_framework_entry(name: &str) -> (res: bool)
    ensures
        res == is_preserved_spec(name@),
        res == (name@ == "plugins"@ || name@ == "config"@),
{
    str_eq(name, "plugins") || str_eq(name, "config")
}

// ---------------------------------------------------------------------------
// The builds offered on the download page
// ---------------------------------------------------------------------------

/// Links to IL2CPP win-x64 archives in the build page's HTML.
pub const IL2CPP_LINK_PATTERN: &'static str = "href=\"(/[^\"]*IL2CPP[^\"]*win-x64[^\"]*\\.zip)\"";

/// The version in an archive's file name.
pub const VERSION_PATTERN: &'static str = "(\\d+\\.\\d+\\.\\d+-be\\.\\d+[^\\\"]*)\\.zip";

/// The build number in a download path such as `/builds/783/download/`.
pub const BUILD_PATTERN: &'static str = "/builds/(\\d+)/download/";

/// The number of builds offered.
pub const MAX_OFFERED_BUILDS: usize = 5;

/// The links in order of first appearance, each once; matches without the
/// link group are passed over.
pub open spec fn unique_links_spec(captures: Seq<Option<Seq<char>>>) -> Seq<Seq<char>>
    decreases captures.len(),
{
    if captures.len() == 0 {
        Seq::empty()
    } else {
        let rest = unique_links_spec(captures.drop_last());
        match captures.last() {
            Some(link) => if rest.contains(link) {
                rest
            } else {
                rest.push(link)
            },
            None => rest,
        }
    }
}

/// `a` is captured before `b` is first captured.
pub open spec fn first_seen_before(captures: Seq<Option<Seq<char>>>, a: Seq<char>, b: Seq<char>) -> bool {
    exists|k: int|
        0 <= k < captures.len() && #[trigger] captures[k] == Some(a) && forall|m: int|
            0 <= m <= k ==> #[trigger] captures[m] != Some(b)
}

/// The links kept from the captures: no link is kept twice, every captured
/// link is kept, nothing but captured links is kept, and they are kept in
/// the order in which they are first captured.
pub proof fn lemma_unique_links(captures: Seq<Option<Seq<char>>>)
    ensures
        forall|i: int, j: int|
            0 <= i < j < unique_links_spec(captures).len() ==> #[trigger] unique_links_spec(captures)[i]
                != #[trigger] unique_links_spec(captures)[j],
        forall|k: int|
            0 <= k < captures.len() && (#[trigger] captures[k]) is Some ==> unique_links_spec(
                captures,
            ).contains(captures[k]->0),
        forall|i: int|
            0 <= i < unique_links_spec(captures).len() ==> exists|k: int|
                0 <= k < captures.len() && #[trigger] captures[k] == Some(
                    #[trigger] unique_links_spec(captures)[i],
                ),
        forall|i: int, j: int|
            0 <= i < j < unique_links_spec(captures).len() ==> #[trigger] first_seen_before(
                captures,
                unique_links_spec(captures)[i],
                unique_links_spec(captures)[j],
            ),
    decreases captures.len(),
{
    if captures.len() > 0 {
        let init = captures.drop_last();
        lemma_unique_links(init);
        let rest = unique_links_spec(init);
        let u = unique_links_spec(captures);
        let last = captures.len() - 1;
        assert forall|k: int| 0 <= k < captures.len() && (#[trigger] captures[k]) is Some implies u.contains(
            captures[k]->0,
        ) by {
            if k < init.len() {
                assert(init[k] == captures[k]);
                let w = choose|w: int| 0 <= w < rest.len() && rest[w] == init[k]->0;
                assert(u[w] == rest[w]);
            } else if !rest.contains(captures[k]->0) {
                assert(u[u.len() - 1] == captures[k]->0);
            }
        }
        assert forall|i: int| 0 <= i < u.len() implies exists|k: int|
            0 <= k < captures.len() && #[trigger] captures[k] == Some(#[trigger] u[i]) by {
            if i < rest.len() {
                assert(u[i] == rest[i]);
                let k = choose|k: int| 0 <= k < init.len() && #[trigger] init[k] == Some(rest[i]);
                assert(captures[k] == init[k]);
            } else {
                assert(captures[last] == Some(u[i]));
            }
        }
        assert forall|i: int, j: int| 0 <= i < j < u.len() implies #[trigger] first_seen_before(
            captures,
            u[i],
            u[j],
        ) by {
            assert(u[i] == rest[i]);
            if j < rest.len() {
                assert(u[j] == rest[j]);
                assert(first_seen_before(init, rest[i], rest[j]));
                let k = choose|k: int|
                    0 <= k < init.len() && #[trigger] init[k] == Some(rest[i]) && forall|m: int|
                        0 <= m <= k ==> #[trigger] init[m] != Some(rest[j]);
                assert(captures[k] == init[k]);
                assert forall|m: int| 0 <= m <= k implies #[trigger] captures[m] != Some(u[j]) by {
                    assert(captures[m] == init[m]);
                }
            } else {
                let l = u[j];
                assert(!rest.contains(l));
                let k = choose|k: int| 0 <= k < init.len() && #[trigger] init[k] == Some(rest[i]);
                assert(captures[k] == init[k]);
                assert forall|m: int| 0 <= m <= k implies #[trigger] captures[m] != Some(l) by {
                    assert(captures[m] == init[m]);
                    if init[m] == Some(l) {
                        assert(rest.contains(init[m]->0));
                    }
                }
            }
        }
    }
}

/// A version without build metadata: cut at the first `+` and then at the
/// first `%2B` (an encoded `+`).
pub open spec fn strip_build_metadata_spec(v: Seq<char>) -> Seq<char> {
    before_first(before_first(v, "+"@), "%2B"@)
}

/// A version without build metadata is a prefix of the version that holds
/// no `+` and no `%2B`; a version that holds neither is left as it is.
pub proof fn lemma_strip_build_metadata(v: Seq<char>)
    ensures
        strip_build_metadata_spec(v) == v.take(strip_build_metadata_spec(v).len() as int),
        forall|i: int|
            0 <= i < strip_build_metadata_spec(v).len() ==> #[trigger] strip_build_metadata_spec(v)[i]
                != '+',
        forall|j: int| !occurs_at(strip_build_metadata_spec(v), "%2B"@, j),
        (forall|i: int| 0 <= i < v.len() ==> #[trigger] v[i] != '+') && (forall|j: int|
            !occurs_at(v, "%2B"@, j)) ==> strip_build_metadata_spec(v) == v,
{
    reveal_strlit("+");
    reveal_strlit("%2B");
    let a = before_first(v, "+"@);
    let r = strip_build_metadata_spec(v);
    lemma_before_first(v, "+"@);
    lemma_before_first(a, "%2B"@);
    assert forall|i: int| 0 <= i < r.len() implies #[trigger] r[i] != '+' by {
        assert(r[i] == a[i]);
        if a[i] == '+' {
            assert(a.subrange(i, i + 1) =~= "+"@);
            assert(occurs_at(a, "+"@, i));
        }
    }
    assert(r =~= v.take(r.len() as int));
    if (forall|i: int| 0 <= i < v.len() ==> #[trigger] v[i] != '+') && (forall|j: int|
        !occurs_at(v, "%2B"@, j)) {
        assert forall|j: int| !occurs_at(v, "+"@, j) by {
            if occurs_at(v, "+"@, j) {
                assert(v.subrange(j, j + 1)[0] == v[j]);
            }
        }
    }
}

/// The artifact for the download path `path`, given the version and build
/// number texts found in it.
pub open spec fn artifact_spec(
    path: Seq<char>,
    version_capture: Option<Seq<char>>,
    build_capture: Option<Seq<char>>,
) -> (Seq<char>, Seq<char>, Seq<char>, u64) {
    let version = strip_build_metadata_spec(
        match version_capture {
            Some(v) => v,
            None => "unknown"@,
        },
    );
    let build = match build_capture {
        Some(b) => match parse_u64_spec(b) {
            Some(n) => n,
            None => 0,
        },
        None => 0,
    };
    ("BepInEx IL2CPP win-x64 "@ + version, "https://builds.bepinex.dev"@ + path, version, build)
}

/// Builds are offered newest (highest build number) first.
pub open spec fn newest_first_key(a: (Seq<char>, Seq<char>, Seq<char>, u64)) -> (u64, Seq<char>) {
    ((u64::MAX - a.3) as u64, Seq::empty())
}

/// `sorted` is `found` sorted newest first, builds of equal number keeping
/// their order.
pub open spec fn sorted_newest_first(
    found: Seq<(Seq<char>, Seq<char>, Seq<char>, u64)>,
    sorted: Seq<(Seq<char>, Seq<char>, Seq<char>, u64)>,
) -> bool {
    stably_sorted(found, sorted, |a: (Seq<char>, Seq<char>, Seq<char>, u64)| newest_first_key(a))
}

/// `offered` is what is offered of `found`: sorted newest first (builds of
/// equal number keeping their order), at most five.
pub open spec fn offered_builds_spec(
    found: Seq<(Seq<char>, Seq<char>, Seq<char>, u64)>,
    offered: Seq<(Seq<char>, Seq<char>, Seq<char>, u64)>,
) -> bool {
    exists|sorted: Seq<(Seq<char>, Seq<char>, Seq<char>, u64)>|
        #[trigger] sorted_newest_first(found, sorted) && offered == sorted.take(
            if sorted.len() < 5 {
                sorted.len() as int
            } else {
                5
            },
        )
}

/// What is offered holds at most five builds, newest first.
pub proof fn lemma_offered_builds_newest_first(
    found: Seq<(Seq<char>, Seq<char>, Seq<char>, u64)>,
    offered: Seq<(Seq<char>, Seq<char>, Seq<char>, u64)>,
)
    requires
        offered_builds_spec(found, offered),
    ensures
        offered.len() <= 5,
        offered.len() == if found.len() < 5 {
            found.len()
        } else {
            5
        },
        forall|i: int, j: int| 0 <= i < j < offered.len() ==> offered[i].3 >= offered[j].3,
{
    let sorted = choose|sorted: Seq<(Seq<char>, Seq<char>, Seq<char>, u64)>|
        #[trigger] sorted_newest_first(found, sorted) && offered == sorted.take(
            if sorted.len() < 5 {
                sorted.len() as int
            } else {
                5
            },
        );
    let kf = |a: (Seq<char>, Seq<char>, Seq<char>, u64)| newest_first_key(a);
    let p = choose|p: Seq<int>| #[trigger] is_stable_sort_of(found, sorted, kf, p);
    assert forall|i: int, j: int| 0 <= i < j < offered.len() implies offered[i].3 >= offered[j].3 by {
        assert(offered[i] == sorted[i]);
        assert(offered[j] == sorted[j]);
        assert(key_le(kf(sorted[i]), kf(sorted[j])));
    }
}

/// The builds on the download page `body`, before ordering: one per
/// distinct archive link, in order of appearance.
pub open spec fn page_builds_spec(body: Seq<char>) -> Seq<(Seq<char>, Seq<char>, Seq<char>, u64)> {
    unique_links_spec(regex_match_groups(IL2CPP_LINK_PATTERN@, body, 1)).map_values(
        |link: Seq<char>|
            artifact_spec(
                link,
                regex_first_match_group(VERSION_PATTERN@, link, 1),
                regex_first_match_group(BUILD_PATTERN@, link, 1),
            ),
    )
}

/// The links in order of first appearance, each once.
pub fn unique_links(captures: Vec<Option<String>>) -> (res: Vec<String>)
    ensures
        res@.map_values(|s: String| s@) == unique_links_spec(opt_texts(captures@)),
        forall|i: int, j: int| 0 <= i < j < res@.len() ==> (#[trigger] res@[i])@ != (#[trigger] res@[j])@,
        forall|k: int|
            0 <= k < captures@.len() && (#[trigger] captures@[k]) is Some ==> exists|i: int|
                0 <= i < res@.len() && (#[trigger] res@[i])@ == captures@[k]->0@,
        forall|i: int|
            0 <= i < res@.len() ==> exists|k: int|
                0 <= k < captures@.len() && #[trigger] captures@[k] is Some && captures@[k]->0@ == (
                #[trigger] res@[i])@,
        forall|i: int, j: int|
            0 <= i < j < res@.len() ==> first_seen_before(
                opt_texts(captures@),
                (#[trigger] res@[i])@,
                (#[trigger] res@[j])@,
            ),
{
    let n = captures.len();
    let ghost caps = opt_texts(captures@);
    let mut res: Vec<String> = Vec::new();
    for i in 0..n
        invariant
            n == captures@.len(),
            caps == opt_texts(captures@),
            res@.map_values(|s: String| s@) == unique_links_spec(caps.take(i as int)),
    {
        let ghost rv = res@.map_values(|s: String| s@);
        assert(caps.take(i + 1).drop_last() =~= caps.take(i as int));
        assert(caps.take(i + 1).last() == opt_text(captures@[i as int]));
        match &captures[i] {
            Some(link) => {
                let mut seen = false;
                let mut j: usize = 0;
                while j < res.len()
                    invariant
                        j <= res.len(),
                        rv == res@.map_values(|s: String| s@),
                        seen <==> exists|k: int| 0 <= k < j && rv[k] == link@,
                    decreases res.len() - j,
                {
                    assert(rv[j as int] == res@[j as int]@);
                    if str_eq(res[j].as_str(), link.as_str()) {
                        seen = true;
                    }
                    j = j + 1;
                }
                proof {
                    assert(seen <==> rv.contains(link@));
                }
                if !seen {
                    res.push(link.clone());
                    assert(res@.map_values(|s: String| s@) =~= rv.push(link@));
                }
            },
            None => {},
        }
    }
    assert(caps.take(n as int) =~= caps);
    proof {
        let rv = res@.map_values(|s: String| s@);
        lemma_unique_links(caps);
        assert forall|i: int, j: int| 0 <= i < j < res@.len() implies (#[trigger] res@[i])@ != (
        #[trigger] res@[j])@ by {
            assert(rv[i] == res@[i]@ && rv[j] == res@[j]@);
        }
        assert forall|k: int| 0 <= k < captures@.len() && (#[trigger] captures@[k]) is Some implies exists|
            i: int,
        | 0 <= i < res@.len() && (#[trigger] res@[i])@ == captures@[k]->0@ by {
            assert(caps[k] == Some(captures@[k]->0@));
            let w = choose|w: int| 0 <= w < rv.len() && rv[w] == caps[k]->0;
            assert(rv[w] == res@[w]@);
        }
        assert forall|i: int| 0 <= i < res@.len() implies exists|k: int|
            0 <= k < captures@.len() && #[trigger] captures@[k] is Some && captures@[k]->0@ == (
            #[trigger] res@[i])@ by {
            assert(rv[i] == res@[i]@);
            let k = choose|k: int| 0 <= k < caps.len() && #[trigger] caps[k] == Some(rv[i]);
            assert(caps[k] == opt_text(captures@[k]));
        }
        assert forall|i: int, j: int| 0 <= i < j < res@.len() implies first_seen_before(
            opt_texts(captures@),
            (#[trigger] res@[i])@,
            (#[trigger] res@[j])@,
        ) by {
            assert(rv[i] == res@[i]@ && rv[j] == res@[j]@);
            assert(first_seen_before(caps, rv[i], rv[j]));
        }
    }
    res
}

/// A version without build metadata: cut at the first `+` and then at the
/// first `%2B` (an encoded `+`).
pub fn strip_build_metadata(version: &str) -> (res: String)
    ensures
        res@ == strip_build_metadata_spec(version@),
{
    let a = before_first_exec(version, "+");
    before_first_exec(a.as_str(), "%2B")
}

/// The artifact for the download path `path`, given the version and build
/// number texts found in it: the version defaults to `unknown` and the
/// build number to zero.
pub fn artifact_for_link(
    path: &str,
    version_capture: Option<String>,
    build_capture: Option<String>,
) -> (res: BepInExArtifact)
    ensures
        res@ == artifact_spec(path@, opt_text(version_capture), opt_text(build_capture)),
{
    let raw_version = match version_capture {
        Some(v) => v,
        None => "unknown".to_owned(),
    };
    let version = strip_build_metadata(raw_version.as_str());
    let build_number = match build_capture {
        Some(b) => match parse_u64(b.as_str()) {
            Some(n) => n,
            None => 0,
        },
        None => 0,
    };
    let name = concat_strs("BepInEx IL2CPP win-x64 ", version.as_str());
    let url = concat_strs("https://builds.bepinex.dev", path);
    BepInExArtifact { name, url, version, build_number }
}

/// The builds offered of those found: newest first (builds of equal number
/// keep their order), at most five.
pub fn newest_builds(found: Vec<BepInExArtifact>) -> (res: Vec<BepInExArtifact>)
    ensures
        offered_builds_spec(found@.map_values(|a: BepInExArtifact| a@), res@.map_values(|a: BepInExArtifact| a@)),
{
    let n = found.len();
    let mut keys: Vec<SortKey> = Vec::new();
    for i in 0..n
        invariant
            n == found@.len(),
            keys@.len() == i,
            forall|k: int| 0 <= k < i ==> #[trigger] keys@[k]@ == newest_first_key(found@[k]@),
    {
        keys.push(SortKey { rank: u64::MAX - found[i].build_number, text: Vec::new() });
    }
    let ghost found0 = found@;
    let mut sorted = sort_with_keys(found, keys, Ghost(|a: BepInExArtifact| newest_first_key(a@)));
    let ghost sorted0 = sorted@;
    proof {
        lemma_stably_sorted_views(
            found0,
            sorted0,
            |a: BepInExArtifact| newest_first_key(a@),
            |a: (Seq<char>, Seq<char>, Seq<char>, u64)| newest_first_key(a),
        );
    }
    sorted.truncate(MAX_OFFERED_BUILDS);
    proof {
        let vs = sorted0.map_values(|a: BepInExArtifact| a@);
        let keep = if vs.len() < 5 {
            vs.len() as int
        } else {
            5
        };
        assert(sorted@.map_values(|a: BepInExArtifact| a@) =~= vs.take(keep));
        assert(sorted_newest_first(found0.map_values(|a: BepInExArtifact| a@), vs));
    }
    sorted
}

/// The builds offered on the download page `body`: one per distinct
/// IL2CPP win-x64 archive link, newest first, at most five; an error when
/// the regex crate rejects one of the patterns.
pub fn parse_bepinex_builds(body: &str) -> (res: Result<Vec<BepInExArtifact>, String>)
    ensures
        res is Ok <==> (regex_accepts(IL2CPP_LINK_PATTERN@) && regex_accepts(VERSION_PATTERN@)
            && regex_accepts(BUILD_PATTERN@)),
        res matches Err(m) ==> m@ == "Invalid regular expression"@,
        res matches Ok(v) ==> offered_builds_spec(
            page_builds_spec(body@),
            v@.map_values(|a: BepInExArtifact| a@),
        ),
{
    let link_re = compile_pattern(IL2CPP_LINK_PATTERN)?;
    let version_re = compile_pattern(VERSION_PATTERN)?;
    let build_re = compile_pattern(BUILD_PATTERN)?;
    let captures = match_groups(&link_re, body, 1);
    let links = unique_links(captures);
    let ghost link_views = links@.map_values(|s: String| s@);
    let n = links.len();
    let mut found: Vec<BepInExArtifact> = Vec::new();
    for i in 0..n
        invariant
            n == links@.len(),
            link_views == links@.map_values(|s: String| s@),
            version_re.source() == VERSION_PATTERN@,
            build_re.source() == BUILD_PATTERN@,
            found@.map_values(|a: BepInExArtifact| a@) == link_views.take(i as int).map_values(
                |link: Seq<char>|
                    artifact_spec(
                        link,
                        regex_first_match_group(VERSION_PATTERN@, link, 1),
                        regex_first_match_group(BUILD_PATTERN@, link, 1),
                    ),
            ),
    {
        let path = links[i].as_str();
        let version_capture = first_match_group(&version_re, path, 1);
        let build_capture = first_match_group(&build_re, path, 1);
        let a = artifact_for_link(path, version_capture, build_capture);
        let ghost before = found@;
        found.push(a);
        assert(link_views.take(i + 1) =~= link_views.take(i as int).push(link_views[i as int]));
        assert(found@.map_values(|a: BepInExArtifact| a@) =~= before.map_values(
            |a: BepInExArtifact| a@,
        ).push(a@));
    }
    assert(link_views.take(n as int) =~= link_views);
    Ok(newest_builds(found))
}

// ---------------------------------------------------------------------------
// The installed version
// ---------------------------------------------------------------------------

/// The version that the framework writes into its log.
pub const LOG_VERSION_PATTERN: &'static str = "BepInEx (\\d+\\.\\d+\\.\\d+[^\\s\\]]+)";

/// The version reported by the log text `content`, without build metadata
/// (cut at the first `+`).
pub open spec fn log_version_spec(content: Seq<char>) -> Option<Seq<char>> {
    match regex_first_match_group(LOG_VERSION_PATTERN@, content, 1) {
        Some(v) => Some(before_first(v, "+"@)),
        None => None,
    }
}

/// The log files that may report the installed version, in the order they
/// are read.
pub fn bepinex_log_candidates() -> (res: Vec<String>)
    ensures
        res@.map_values(|s: String| s@) == seq!["BepInEx/LogOutput.log"@, "BepInEx/LogOutput.txt"@],
{
    let v: Vec<String> = vec!["BepInEx/LogOutput.log".to_owned(), "BepInEx/LogOutput.txt".to_owned()];
    assert(v@.map_values(|s: String| s@) =~= seq!["BepInEx/LogOutput.log"@, "BepInEx/LogOutput.txt"@]);
    v
}

/// The version reported by the log text `content`, if any; an error when
/// the regex crate rejects the pattern.
pub fn version_in_log(content: &str) -> (res: Result<Option<String>, String>)
    ensures
        res is Ok <==> regex_accepts(LOG_VERSION_PATTERN@),
        res matches Err(m) ==> m@ == "Invalid regular expression"@,
        res matches Ok(v) ==> opt_text(v) == log_version_spec(content@),
{
    let re = compile_pattern(LOG_VERSION_PATTERN)?;
    match first_match_group(&re, content, 1) {
        Some(raw) => Ok(Some(before_first_exec(raw.as_str(), "+"))),
        None => Ok(None),
    }
}

} // verus!
