//! Resources offered by the remote static site: the manifest's shape, the
//! download address of a file, and where each entry of a downloaded archive
//! is extracted.

use std::collections::HashMap;

use vstd::prelude::*;

use crate::text::{chars_of, opt_text, concat_strs, ends_with_chars, has_suffix, lowercase, str_eq, string_from_range, to_lowercase};

verus! {

// ---------------------------------------------------------------------------
// The manifest
// ---------------------------------------------------------------------------

/// A single file of the remote manifest.
#[derive(Debug, Clone, PartialEq, Eq)]
pub struct ManifestFile {
    pub name: String,
    pub path: String,
    /// The kind of file (written `type` in the manifest)
    pub kind: String,
    pub ext: String,
    pub size: u64,
    pub last_modified: String,
    pub size_formatted: String,
}

/// A category of the remote manifest.
#[derive(Debug, Clone, PartialEq, Eq)]
pub struct ManifestCategory {
    pub name: String,
    pub count: u64,
    pub files: Vec<ManifestFile>,
}

/// The remote manifest.
#[derive(Debug, Clone, PartialEq, Eq)]
pub struct Manifest {
    pub generated_at: String,
    pub categories: HashMap<String, ManifestCategory>,
    pub total_count: u64,
}

/// Where an archive entry goes.
#[derive(Debug, Clone, PartialEq, Eq)]
pub enum ExtractTarget {
    /// A plugin's `.cfg` file: into `BepInEx/config/`, under this file name.
    ConfigDir(String),
    /// Into the extraction directory, at this relative path (its components).
    ExtractDir(Vec<String>),
}

// ---------------------------------------------------------------------------
// Specifications
// ---------------------------------------------------------------------------

/// The address of `file_name` in `category` on the static site.
pub open spec fn resource_url_spec(category: Seq<char>, file_name: Seq<char>) -> Seq<char> {
    "https://softsuccubus.github.io/ManakaStaticWeb/uploads/"@ + category + "/"@ + file_name
}

/// A downloaded file is an archive to extract when its name ends, in lower
/// case, in `.zip`.
pub open spec fn is_zip_name_spec(file_name: Seq<char>) -> bool {
    has_suffix(lowercase(file_name), ".zip"@)
}

/// `c` is the ASCII letter `lower` in either case.
pub open spec fn is_ascii_letter_any_case(c: char, lower: char) -> bool {
    c == lower || c as int == lower as int - 32
}

/// `name` ends in `.zip`, in any case of the letters.
pub open spec fn has_zip_ending(name: Seq<char>) -> bool {
    &&& name.len() >= 4
    &&& name[name.len() - 4] == '.'
    &&& is_ascii_letter_any_case(name[name.len() - 3], 'z')
    &&& is_ascii_letter_any_case(name[name.len() - 2], 'i')
    &&& is_ascii_letter_any_case(name[name.len() - 1], 'p')
}

/// The name of an archive without its `.zip` ending (in any case of the
/// letters); other names are kept whole.
pub open spec fn zip_stem_spec(file_name: Seq<char>) -> Seq<char> {
    if has_zip_ending(file_name) {
        file_name.take(file_name.len() - 4)
    } else {
        file_name
    }
}

/// A path component that names an entry inside its directory: not empty,
/// not `.` or `..`, and without a slash or backslash.
pub open spec fn is_plain_component(c: Seq<char>) -> bool {
    &&& c.len() > 0
    &&& c != seq!['.']
    &&& c != seq!['.', '.']
    &&& forall|i: int| 0 <= i < c.len() ==> c[i] != '/' && c[i] != '\\'
}

/// Every component of `path` is plain.
pub open spec fn all_plain(path: Seq<Seq<char>>) -> bool {
    forall|k: int| 0 <= k < path.len() ==> is_plain_component(#[trigger] path[k])
}

/// The path components of each entry, with whether the entry is a
/// directory.
pub open spec fn entry_paths(entries: Seq<(Vec<String>, bool)>) -> Seq<(Seq<Seq<char>>, bool)> {
    entries.map_values(|e: (Vec<String>, bool)| (e.0@.map_values(|s: String| s@), e.1))
}

/// An entry with a path lies under the directory `root`: its path starts
/// with `root`, and it is either inside it or the directory `root` itself.
pub open spec fn lies_under(entry: (Seq<Seq<char>>, bool), root: Seq<char>) -> bool {
    entry.0.len() > 0 ==> (entry.0[0] == root && (entry.0.len() > 1 || entry.1))
}

/// The archive has a single top-level directory, `root`: some entry has a
/// path, and every entry with a path lies under the directory `root`.
pub open spec fn has_single_root(entries: Seq<(Seq<Seq<char>>, bool)>, root: Seq<char>) -> bool {
    &&& exists|i: int| 0 <= i < entries.len() && (#[trigger] entries[i]).0.len() > 0
    &&& forall|i: int| 0 <= i < entries.len() ==> lies_under(#[trigger] entries[i], root)
}

/// The index of the last `.` in `name`, if any.
pub open spec fn is_last_dot(name: Seq<char>, i: int) -> bool {
    &&& 0 <= i < name.len()
    &&& name[i] == '.'
    &&& forall|j: int| i < j < name.len() ==> name[j] != '.'
}

/// The extension of a file name, as `Path::extension` reads it: the text
/// after the last `.`, when that dot is not the first character and the
/// name is not `..`.
pub open spec fn extension_spec(name: Seq<char>) -> Option<Seq<char>> {
    if name == ".."@ {
        None
    } else if exists|i: int| #[trigger] is_last_dot(name, i) && i > 0 {
        let i = choose|i: int| #[trigger] is_last_dot(name, i) && i > 0;
        Some(name.skip(i + 1))
    } else {
        None
    }
}

/// An entry's path inside the extraction directory: without the archive's
/// single top-level directory, when there is one.
pub open spec fn relative_components(
    components: Seq<Seq<char>>,
    root: Option<Seq<char>>,
) -> Seq<Seq<char>> {
    match root {
        Some(r) => if components.len() > 0 && components[0] == r {
            components.drop_first()
        } else {
            components
        },
        None => components,
    }
}

/// The file is a plugin's config file: its extension is `cfg` in lower case.
pub open spec fn is_cfg_file_spec(name: Seq<char>) -> bool {
    match extension_spec(name) {
        Some(e) => lowercase(e) == "cfg"@,
        None => false,
    }
}

/// Where the archive entry with path `components` goes: nowhere when
/// nothing is left of it; for plugins, `.cfg` files go to the config
/// directory under their file name; everything else keeps its relative path
/// in the extraction directory.
pub open spec fn extraction_target_spec(
    components: Seq<Seq<char>>,
    root: Option<Seq<char>>,
    is_plugins: bool,
) -> Option<(bool, Seq<Seq<char>>)> {
    let rel = relative_components(components, root);
    if rel.len() == 0 {
        None
    } else if is_plugins && is_cfg_file_spec(rel.last()) {
        Some((true, seq![rel.last()]))
    } else {
        Some((false, rel))
    }
}

/// The view of a target: whether it is the config directory, and the path.
pub open spec fn target_view(t: ExtractTarget) -> (bool, Seq<Seq<char>>) {
    match t {
        ExtractTarget::ConfigDir(name) => (true, seq![name@]),
        ExtractTarget::ExtractDir(path) => (false, path@.map_values(|s: String| s@)),
    }
}

// ---------------------------------------------------------------------------
// Lemmas
// ---------------------------------------------------------------------------

/// An entry whose path is made of plain components is extracted to a
/// non-empty path of plain components: extraction never leaves the
/// directory it writes into.
pub proof fn lemma_extraction_stays_inside(
    components: Seq<Seq<char>>,
    root: Option<Seq<char>>,
    is_plugins: bool,
)
    requires
        all_plain(components),
    ensures
        extraction_target_spec(components, root, is_plugins) matches Some((_, path)) ==> path.len() > 0
            && all_plain(path),
{
    let rel = relative_components(components, root);
    assert forall|k: int| 0 <= k < rel.len() implies is_plain_component(#[trigger] rel[k]) by {
        if rel.len() < components.len() {
            assert(rel[k] == components[k + 1]);
        } else {
            assert(rel[k] == components[k]);
        }
    }
    if rel.len() > 0 {
        assert(is_plain_component(rel[rel.len() - 1]));
        assert(all_plain(seq![rel.last()]));
    }
}

/// An entry of a plugin archive goes to the config directory exactly when
/// the extension of its file name, in lower case, is `cfg`, and then under
/// that file name; every other entry keeps its relative path.  Outside
/// plugin archives nothing goes to the config directory.
pub proof fn lemma_config_redirect(
    components: Seq<Seq<char>>,
    root: Option<Seq<char>>,
    is_plugins: bool,
)
    ensures
        extraction_target_spec(components, root, is_plugins) matches Some((to_config, path)) ==> {
            let rel = relative_components(components, root);
            &&& rel.len() > 0
            &&& to_config <==> is_plugins && (extension_spec(rel.last()) matches Some(e) && lowercase(e)
                == "cfg"@)
            &&& to_config ==> path == seq![rel.last()]
            &&& !to_config ==> path == rel
        },
        extraction_target_spec(components, root, is_plugins) is None <==> relative_components(
            components,
            root,
        ).len() == 0,
{
}

/// An archive named `name` followed by `.zip` or `.ZIP` is extracted into a
/// folder called `name`.
pub proof fn lemma_zip_stem_of_archive_name(name: Seq<char>)
    ensures
        zip_stem_spec(name + ".zip"@) == name,
        zip_stem_spec(name + ".ZIP"@) == name,
{
    reveal_strlit(".zip");
    reveal_strlit(".ZIP");
    let a = name + ".zip"@;
    let b = name + ".ZIP"@;
    assert(a[a.len() - 4] == '.' && a[a.len() - 3] == 'z' && a[a.len() - 2] == 'i' && a[a.len() - 1] == 'p');
    assert(b[b.len() - 4] == '.' && b[b.len() - 3] == 'Z' && b[b.len() - 2] == 'I' && b[b.len() - 1] == 'P');
    assert(a.take(a.len() - 4) =~= name);
    assert(b.take(b.len() - 4) =~= name);
}

proof fn lemma_last_dot_unique(name: Seq<char>, i: int, j: int)
    requires
        is_last_dot(name, i),
        is_last_dot(name, j),
    ensures
        i == j,
{
}

// ---------------------------------------------------------------------------
// Executable functions
// ---------------------------------------------------------------------------

/// The address of `file_name` in `category` on the static site.
pub fn resource_url(category: &str, file_name: &str) -> (res: String)
    ensures
        res@ == resource_url_spec(category@, file_name@),
{
    let a = concat_strs("https://softsuccubus.github.io/ManakaStaticWeb/uploads/", category);
    let b = concat_strs(a.as_str(), "/");
    concat_strs(b.as_str(), file_name)
}

/// Whether a downloaded file is an archive to extract: its name ends, in
/// lower case, in `.zip`.
pub fn is_zip_file_name(file_name: &str) -> (res: bool)
    ensures
        res == is_zip_name_spec(file_name@),
        res == has_suffix(lowercase(file_name@), ".zip"@),
{
    let lower = chars_of(to_lowercase(file_name).as_str());
    let zip = chars_of(".zip");
    ends_with_chars(&lower, &zip)
}

/// Whether a category holds plugins, which are extracted straight into the
/// target directory with their config files redirected.
pub fn is_plugins_category(category: &str) -> (res: bool)
    ensures
        res == (category@ == "plugins"@),
{
    str_eq(category, "plugins")
}

/// The name of an archive without its `.zip` ending (in any case of the
/// letters); other names are kept whole.
pub fn zip_stem(file_name: &str) -> (res: String)
    ensures
        res@ == zip_stem_spec(file_name@),
{
    let v = chars_of(file_name);
    let n = v.len();
    if n >= 4 && v[n - 4] == '.' && (v[n - 3] == 'z' || v[n - 3] == 'Z') && (v[n - 2] == 'i' || v[n
        - 2] == 'I') && (v[n - 1] == 'p' || v[n - 1] == 'P') {
        assert(v@.subrange(0, n - 4) =~= v@.take(n - 4));
        string_from_range(&v, 0, n - 4)
    } else {
        assert(v@.subrange(0, v@.len() as int) =~= v@);
        string_from_range(&v, 0, n)
    }
}

/// The archive's single top-level directory, if it has one: some entry has
/// a path, and every entry with a path starts with the same component and
/// is either inside that directory or that directory's own entry
/// (`entries` holds each entry's path components and whether it is a
/// directory).
pub fn single_root(entries: &Vec<(Vec<String>, bool)>) -> (res: Option<String>)
    ensures
        res matches Some(r) ==> has_single_root(entry_paths(entries@), r@),
        res is None ==> forall|r: Seq<char>| !#[trigger] has_single_root(entry_paths(entries@), r),
{
    let ghost ev = entry_paths(entries@);
    let n = entries.len();
    let mut root: Option<String> = None;
    let mut ok = true;
    for i in 0..n
        invariant
            n == entries@.len(),
            ev == entry_paths(entries@),
            root is None ==> forall|j: int| 0 <= j < i ==> (#[trigger] ev[j]).0.len() == 0,
            root matches Some(r) ==> exists|j: int| 0 <= j < i && (#[trigger] ev[j]).0.len() > 0 && ev[j].0[0] == r@,
            root matches Some(r) ==> (ok <==> forall|j: int| 0 <= j < i ==> lies_under(#[trigger] ev[j], r@)),
            root is None ==> ok,
    {
        let ghost e = ev[i as int];
        let comps = &entries[i].0;
        let is_dir = entries[i].1;
        assert(e.0 == comps@.map_values(|s: String| s@));
        assert(e.1 == is_dir);
        if comps.len() > 0 {
            assert(e.0[0] == comps@[0]@);
            let first = &comps[0];
            match &root {
                None => {
                    root = Some(first.clone());
                },
                Some(r) => {},
            }
            let r = match &root {
                Some(r) => r,
                None => first,
            };
            let same = str_eq(r.as_str(), first.as_str());
            if !same || (comps.len() == 1 && !is_dir) {
                ok = false;
            }
        }
    }
    if ok {
        proof {
            if root is None {
                assert forall|r: Seq<char>| !#[trigger] has_single_root(ev, r) by {
                    if has_single_root(ev, r) {
                        let j = choose|j: int| 0 <= j < ev.len() && (#[trigger] ev[j]).0.len() > 0;
                        assert(ev[j].0.len() == 0);
                    }
                }
            }
        }
        root
    } else {
        proof {
            assert forall|r: Seq<char>| !#[trigger] has_single_root(ev, r) by {
                if has_single_root(ev, r) {
                    let rr = root->0@;
                    let k = choose|k: int| 0 <= k < n && (#[trigger] ev[k]).0.len() > 0 && ev[k].0[0] == rr;
                    assert(lies_under(ev[k], r));
                    assert(rr == r);
                    assert forall|j: int| 0 <= j < n implies lies_under(#[trigger] ev[j], rr) by {
                        assert(lies_under(ev[j], r));
                    }
                }
            }
        }
        None
    }
}

/// The sub-directory of the target directory that an archive is extracted
/// into: none for plugins, which are extracted straight into the target
/// directory; otherwise one named after the archive.
pub fn extraction_subdir(file_name: &str, is_plugins: bool) -> (res: Option<String>)
    ensures
        is_plugins ==> res is None,
        !is_plugins ==> opt_text(res) == Some(zip_stem_spec(file_name@)),
{
    if is_plugins {
        None
    } else {
        Some(zip_stem(file_name))
    }
}

/// The top-level directory left out of every path when extracting: none
/// for plugins, which are extracted as they are; otherwise the archive's
/// single top-level directory, if it has one.
pub fn root_to_strip(entries: &Vec<(Vec<String>, bool)>, is_plugins: bool) -> (res: Option<String>)
    ensures
        is_plugins ==> res is None,
        !is_plugins ==> (res matches Some(r) ==> has_single_root(entry_paths(entries@), r@)),
        !is_plugins ==> (res is None ==> forall|r: Seq<char>|
            !#[trigger] has_single_root(entry_paths(entries@), r)),
{
    if is_plugins {
        None
    } else {
        single_root(entries)
    }
}

/// The extension of a file name, as `Path::extension` reads it: the text
/// after the last `.`, when that dot is not the first character and the
/// name is not `..`.
pub fn file_extension(name: &str) -> (res: Option<String>)
    ensures
        opt_text(res) == extension_spec(name@),
{
    let v = chars_of(name);
    if str_eq(name, "..") {
        return None;
    }
    let mut i = v.len();
    while i > 0
        invariant
            i <= v@.len(),
            v@ == name@,
            name@ != ".."@,
            forall|j: int| i <= j < v@.len() ==> v@[j] != '.',
        decreases i,
    {
        if v[i - 1] == '.' {
            let k = i - 1;
            proof {
                assert(is_last_dot(v@, k as int));
                if k > 0 {
                    assert(is_last_dot(v@, k as int) && k > 0);
                    let c = choose|c: int| #[trigger] is_last_dot(v@, c) && c > 0;
                    lemma_last_dot_unique(v@, c, k as int);
                } else {
                    assert forall|c: int| !(#[trigger] is_last_dot(v@, c) && c > 0) by {
                        if is_last_dot(v@, c) && c > 0 {
                            lemma_last_dot_unique(v@, c, 0);
                        }
                    }
                }
            }
            if k == 0 {
                return None;
            }
            assert(v@.subrange(k + 1, v@.len() as int) =~= v@.skip(k + 1));
            return Some(string_from_range(&v, k + 1, v.len()));
        }
        i = i - 1;
    }
    proof {
        assert forall|c: int| !(#[trigger] is_last_dot(v@, c) && c > 0) by {
            if is_last_dot(v@, c) {
                assert(v@[c] == '.');
            }
        }
    }
    None
}

/// Whether a file name is a plugin's config file: its extension is `cfg`
/// in lower case.
pub fn is_cfg_file(name: &str) -> (res: bool)
    ensures
        res == is_cfg_file_spec(name@),
        res == (extension_spec(name@) matches Some(e) && lowercase(e) == "cfg"@),
{
    match file_extension(name) {
        Some(e) => {
            let lower = to_lowercase(e.as_str());
            str_eq(lower.as_str(), "cfg")
        },
        None => false,
    }
}

/// Where the archive entry with path `components` goes, given the
/// archive's single top-level directory (which is left out, when there is
/// one) and whether the archive holds plugins; `None` when nothing is left
/// of the path.
pub fn extraction_target(components: Vec<String>, root: &Option<String>, is_plugins: bool) -> (res:
    Option<ExtractTarget>)
    ensures
        match res {
            Some(t) => extraction_target_spec(
                components@.map_values(|s: String| s@),
                opt_text(*root),
                is_plugins,
            ) == Some(target_view(t)),
            None => extraction_target_spec(
                components@.map_values(|s: String| s@),
                opt_text(*root),
                is_plugins,
            ) is None,
        },
        res matches Some(ExtractTarget::ConfigDir(name)) ==> is_plugins && (extension_spec(name@) matches Some(
            e,
        ) && lowercase(e) == "cfg"@),
        res matches Some(ExtractTarget::ExtractDir(path)) ==> path.len() > 0 && !(is_plugins && (
        extension_spec(path@.last()@) matches Some(e) && lowercase(e) == "cfg"@)),
{
    let ghost cv = components@.map_values(|s: String| s@);
    let mut rel = components;
    let strip = match root {
        Some(r) => rel.len() > 0 && str_eq(rel[0].as_str(), r.as_str()),
        None => false,
    };
    if strip {
        rel.remove(0);
    }
    let ghost rv = rel@.map_values(|s: String| s@);
    assert(rv =~= relative_components(cv, opt_text(*root)));
    if rel.len() == 0 {
        return None;
    }
    let last = rel.len() - 1;
    if is_plugins && is_cfg_file(rel[last].as_str()) {
        let name = rel[last].clone();
        assert(seq![name@] =~= seq![rv.last()]);
        Some(ExtractTarget::ConfigDir(name))
    } else {
        assert(rel@.last()@ == rv.last());
        Some(ExtractTarget::ExtractDir(rel))
    }
}

} // verus!
