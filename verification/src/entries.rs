//! The mathematical model of a snapshot: a map from the name of an output to
//! its settings, and what is read off that map.

use crate::wallpaper_info::{alike, WallpaperInfoView};
use vstd::prelude::*;

verus! {

/// The settings of every output that a snapshot names.
pub type Entries = Map<Seq<char>, WallpaperInfoView>;

/// A name with the settings that go under it.
pub type Named = (Seq<char>, WallpaperInfoView);

/// The name under which the fallback settings are kept.
pub open spec fn default_name() -> Seq<char> {
    "default"@
}

/// No two items have the same name.
pub open spec fn names_distinct(items: Seq<Named>) -> bool {
    forall|i: int, j: int|
        0 <= i < j < items.len() ==> (#[trigger] items[i]).0 != (#[trigger] items[j]).0
}

/// Some item is called `name`.
pub open spec fn has_name(items: Seq<Named>, name: Seq<char>) -> bool {
    exists|i: int| 0 <= i < items.len() && (#[trigger] items[i]).0 == name
}

/// The settings of an item called `name`.
pub open spec fn settings_named(items: Seq<Named>, name: Seq<char>) -> WallpaperInfoView {
    items[choose|i: int| 0 <= i < items.len() && (#[trigger] items[i]).0 == name].1
}

/// The map that a run of items stands for.
pub open spec fn entries_of(items: Seq<Named>) -> Entries {
    Map::new(|name: Seq<char>| has_name(items, name), |name: Seq<char>| settings_named(items, name))
}

/// The settings of an output that the entries do not name: those under
/// `"default"`, or none at all where there is no such entry.
pub open spec fn fallback_of(entries: Entries) -> WallpaperInfoView {
    if entries.contains_key(default_name()) {
        entries[default_name()]
    } else {
        WallpaperInfoView::unset()
    }
}

/// The settings that hold for the output `name`: its own entry where there is
/// one, else the fallback.
pub open spec fn resolve(entries: Entries, name: Seq<char>) -> WallpaperInfoView {
    if entries.contains_key(name) {
        entries[name]
    } else {
        fallback_of(entries)
    }
}

/// Some entry has `path` as its path.
pub open spec fn names_path(entries: Entries, path: Seq<char>) -> bool {
    exists|name: Seq<char>|
        entries.contains_key(name) && (#[trigger] entries[name]).path == Some(path)
}

/// Two snapshots say the same: they name the same outputs, and say the same
/// of each.
pub open spec fn entries_alike(a: Entries, b: Entries) -> bool {
    &&& forall|name: Seq<char>| a.contains_key(name) <==> b.contains_key(name)
    &&& forall|name: Seq<char>| a.contains_key(name) ==> alike(#[trigger] a[name], b[name])
}

/// Every snapshot says the same as itself.
pub proof fn lemma_entries_alike_reflexive(entries: Entries)
    ensures
        entries_alike(entries, entries),
{
}

/// Among items with distinct names, each name leads to its own item.
pub proof fn lemma_entry_of_item(items: Seq<Named>, i: int)
    requires
        names_distinct(items),
        0 <= i < items.len(),
    ensures
        entries_of(items).contains_key(items[i].0),
        entries_of(items)[items[i].0] == items[i].1,
{
    let name = items[i].0;
    assert(has_name(items, name));
    let j = choose|j: int| 0 <= j < items.len() && (#[trigger] items[j]).0 == name;
    if i < j {
        assert(items[i].0 != items[j].0);
    } else if j < i {
        assert(items[j].0 != items[i].0);
    }
}

/// A name that no item has is not in the map.
pub proof fn lemma_no_entry(items: Seq<Named>, name: Seq<char>)
    requires
        forall|i: int| 0 <= i < items.len() ==> (#[trigger] items[i]).0 != name,
    ensures
        !entries_of(items).contains_key(name),
{
}

/// The paths that the map names are the paths of the items.
pub proof fn lemma_paths_of_items(items: Seq<Named>, path: Seq<char>)
    requires
        names_distinct(items),
    ensures
        names_path(entries_of(items), path) <==> exists|i: int|
            0 <= i < items.len() && (#[trigger] items[i]).1.path == Some(path),
{
    let entries = entries_of(items);
    if names_path(entries, path) {
        let name = choose|name: Seq<char>|
            entries.contains_key(name) && (#[trigger] entries[name]).path == Some(path);
        let i = choose|i: int| 0 <= i < items.len() && (#[trigger] items[i]).0 == name;
        lemma_entry_of_item(items, i);
        assert(items[i].1.path == Some(path));
    }
    if exists|i: int| 0 <= i < items.len() && (#[trigger] items[i]).1.path == Some(path) {
        let i = choose|i: int| 0 <= i < items.len() && (#[trigger] items[i]).1.path == Some(path);
        lemma_entry_of_item(items, i);
        assert(entries.contains_key(items[i].0) && entries[items[i].0].path == Some(path));
    }
}

} // verus!
