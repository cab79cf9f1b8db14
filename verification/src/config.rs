//! Plugin configuration files: which files are listed, under which
//! relative path, and in which order.

use vstd::prelude::*;

use crate::sorting::{
    SortKey,
    chars_le,
    is_stable_sort_of,
    key_le,
    lemma_stably_sorted_views,
    sort_with_keys,
    stably_sorted,
};
use crate::text::{chars_of, concat_strs, ends_with_chars, has_suffix, lowercase, to_lowercase};

verus! {

/// A config file entry found by scanning.
#[derive(Debug, Clone, PartialEq, Eq)]
pub struct ConfigEntry {
    /// File name (e.g. "com.example.plugin.cfg")
    pub name: String,
    /// Path relative to the executable's directory
    /// (e.g. "BepInEx/config/com.example.plugin.cfg")
    pub rel_path: String,
    /// File size in bytes
    pub size: u64,
}

/// A file found in the plugin config directory.
#[derive(Debug, Clone, PartialEq, Eq)]
pub struct ConfigFileInfo {
    pub name: String,
    pub is_dir: bool,
    pub size: u64,
}

impl View for ConfigEntry {
    type V = (Seq<char>, Seq<char>, u64);

    open spec fn view(&self) -> (Seq<char>, Seq<char>, u64) {
        (self.name@, self.rel_path@, self.size)
    }
}

// ---------------------------------------------------------------------------
// Specifications
// ---------------------------------------------------------------------------

/// A file name that is listed: it ends, in lower case, in `.cfg` or `.json`.
pub open spec fn is_config_name_spec(name: Seq<char>) -> bool {
    has_suffix(lowercase(name), ".cfg"@) || has_suffix(lowercase(name), ".json"@)
}

/// The listing entry of the config file `name` of `size` bytes.
pub open spec fn config_entry_spec(name: Seq<char>, size: u64) -> (Seq<char>, Seq<char>, u64) {
    (name, "BepInEx/config/"@ + name, size)
}

/// The listing entry of the NPC behaviour mod's config file.
pub open spec fn npc_config_entry_spec(size: u64) -> (Seq<char>, Seq<char>, u64) {
    ("config.txt"@, "NPCBehaviorMod/config.txt"@, size)
}

/// The entries of the config files among `found`, in the order found:
/// files (not directories) with a config name.
pub open spec fn listed_configs(found: Seq<ConfigFileInfo>) -> Seq<(Seq<char>, Seq<char>, u64)>
    decreases found.len(),
{
    if found.len() == 0 {
        Seq::empty()
    } else {
        let rest = listed_configs(found.drop_last());
        let f = found.last();
        if is_config_name_spec(f.name@) && !f.is_dir {
            rest.push(config_entry_spec(f.name@, f.size))
        } else {
            rest
        }
    }
}

/// All entries before ordering: the config directory's files, then the NPC
/// behaviour mod's config file when it exists.
pub open spec fn unsorted_configs(found: Seq<ConfigFileInfo>, npc_size: Option<u64>) -> Seq<
    (Seq<char>, Seq<char>, u64),
> {
    match npc_size {
        Some(s) => listed_configs(found).push(npc_config_entry_spec(s)),
        None => listed_configs(found),
    }
}

/// Config entries are ordered by lower-case name.
pub open spec fn config_key(v: (Seq<char>, Seq<char>, u64)) -> (u64, Seq<char>) {
    (0, lowercase(v.0))
}

// ---------------------------------------------------------------------------
// Laws
// ---------------------------------------------------------------------------

/// A config listing in key order is in order of lower-case names.
pub proof fn lemma_config_listing_order(
    unsorted: Seq<(Seq<char>, Seq<char>, u64)>,
    listed: Seq<(Seq<char>, Seq<char>, u64)>,
)
    requires
        stably_sorted(unsorted, listed, |v: (Seq<char>, Seq<char>, u64)| config_key(v)),
    ensures
        forall|i: int, j: int|
            0 <= i < j < listed.len() ==> chars_le(
                lowercase((#[trigger] listed[i]).0),
                lowercase((#[trigger] listed[j]).0),
            ),
{
    let kf = |v: (Seq<char>, Seq<char>, u64)| config_key(v);
    let p = choose|p: Seq<int>| #[trigger] is_stable_sort_of(unsorted, listed, kf, p);
    assert forall|i: int, j: int| 0 <= i < j < listed.len() implies chars_le(
        lowercase((#[trigger] listed[i]).0),
        lowercase((#[trigger] listed[j]).0),
    ) by {
        assert(key_le(kf(listed[i]), kf(listed[j])));
    }
}

// ---------------------------------------------------------------------------
// Executable functions
// ---------------------------------------------------------------------------

/// Whether a file name is listed as a config file: it ends, in lower case,
/// in `.cfg` or `.json`.
pub fn is_config_file_name(name: &str) -> (res: bool)
    ensures
        res == is_config_name_spec(name@),
        res == (has_suffix(lowercase(name@), ".cfg"@) || has_suffix(lowercase(name@), ".json"@)),
{
    let lower = chars_of(to_lowercase(name).as_str());
    let cfg = chars_of(".cfg");
    let json = chars_of(".json");
    ends_with_chars(&lower, &cfg) || ends_with_chars(&lower, &json)
}

/// The listing entry of the config file `name` of `size` bytes, found in
/// `BepInEx/config/`.
pub fn config_entry(name: String, size: u64) -> (res: ConfigEntry)
    ensures
        res@ == config_entry_spec(name@, size),
{
    let rel_path = concat_strs("BepInEx/config/", name.as_str());
    ConfigEntry { name, rel_path, size }
}

/// The listing entry of `NPCBehaviorMod/config.txt` of `size` bytes.
pub fn npc_config_entry(size: u64) -> (res: ConfigEntry)
    ensures
        res@ == npc_config_entry_spec(size),
{
    let name = "config.txt".to_owned();
    let rel_path = "NPCBehaviorMod/config.txt".to_owned();
    ConfigEntry { name, rel_path, size }
}

/// The config listing: the config files among `found` and, when its size
/// is given, the NPC behaviour mod's config file, ordered by lower-case
/// name (entries that compare equal keep that order).
pub fn collect_config_entries(found: Vec<ConfigFileInfo>, npc_size: Option<u64>) -> (res: Vec<
    ConfigEntry,
>)
    ensures
        stably_sorted(
            unsorted_configs(found@, npc_size),
            res@.map_values(|e: ConfigEntry| e@),
            |v: (Seq<char>, Seq<char>, u64)| config_key(v),
        ),
        forall|i: int, j: int|
            0 <= i < j < res@.len() ==> chars_le(
                lowercase((#[trigger] res@[i]).name@),
                lowercase((#[trigger] res@[j]).name@),
            ),
{
    let n = found.len();
    let mut entries: Vec<ConfigEntry> = Vec::new();
    for i in 0..n
        invariant
            n == found@.len(),
            entries@.map_values(|e: ConfigEntry| e@) == listed_configs(found@.take(i as int)),
    {
        let f = &found[i];
        assert(found@.take(i + 1).drop_last() =~= found@.take(i as int));
        if is_config_file_name(f.name.as_str()) && !f.is_dir {
            let e = config_entry(f.name.clone(), f.size);
            let ghost before = entries@;
            entries.push(e);
            assert(entries@.map_values(|e: ConfigEntry| e@) =~= before.map_values(
                |e: ConfigEntry| e@,
            ).push(e@));
        }
    }
    assert(found@.take(n as int) =~= found@);
    match npc_size {
        Some(s) => {
            let e = npc_config_entry(s);
            let ghost before = entries@;
            entries.push(e);
            assert(entries@.map_values(|e: ConfigEntry| e@) =~= before.map_values(
                |e: ConfigEntry| e@,
            ).push(e@));
        },
        None => {},
    }
    let ghost unsorted = entries@;
    assert(unsorted.map_values(|e: ConfigEntry| e@) == unsorted_configs(found@, npc_size));
    let m = entries.len();
    let mut keys: Vec<SortKey> = Vec::new();
    for i in 0..m
        invariant
            m == entries@.len(),
            keys@.len() == i,
            forall|k: int| 0 <= k < i ==> #[trigger] keys@[k]@ == config_key(entries@[k]@),
    {
        let lower = to_lowercase(entries[i].name.as_str());
        keys.push(SortKey { rank: 0, text: chars_of(lower.as_str()) });
    }
    let res = sort_with_keys(entries, keys, Ghost(|e: ConfigEntry| config_key(e@)));
    proof {
        lemma_stably_sorted_views(
            unsorted,
            res@,
            |e: ConfigEntry| config_key(e@),
            |v: (Seq<char>, Seq<char>, u64)| config_key(v),
        );
        let listed = res@.map_values(|e: ConfigEntry| e@);
        lemma_config_listing_order(unsorted_configs(found@, npc_size), listed);
        assert forall|i: int, j: int| 0 <= i < j < res@.len() implies chars_le(
            lowercase((#[trigger] res@[i]).name@),
            lowercase((#[trigger] res@[j]).name@),
        ) by {
            assert(listed[i] == res@[i]@ && listed[j] == res@[j]@);
        }
    }
    res
}

} // verus!
