//! The configuration store: one validated snapshot of the settings of every
//! output, the path of the file that it was loaded from, and the flag by which
//! a watcher of that file asks for a reload.

use crate::entries::{
    default_name, entries_alike, entries_of, fallback_of, has_name, lemma_entries_alike_reflexive,
    lemma_entry_of_item, lemma_no_entry, lemma_paths_of_items, names_distinct, names_path, resolve,
    Entries, Named,
};
use crate::source::{
    distinct_names, find_fault, named, outcome, section_views, ConfigSource, ConfigSourceView,
    LoadError, LoadErrorView,
};
use crate::path_order::{
    found_once, insert_path, lemma_stands_once, paths_ascending, stands_at, stands_in, texts_of,
};
use crate::text::same_text;
use crate::wallpaper_info::{alike, well_paired, WallpaperInfo};
use std::sync::atomic::AtomicBool;
use std::sync::Arc;
use vstd::prelude::*;
use vstd::std_specs::cmp::PartialEqSpecImpl;

verus! {

/// `Arc::clone` of std: the new handle points to the value that the given one
/// points to.
#[verifier::external_body]
pub(crate) fn share<T>(handle: &Arc<T>) -> (copy: Arc<T>)
    ensures
        copy == *handle,
{
    Arc::clone(handle)
}

/// The settings of one named output, as the store keeps them.
#[derive(Debug)]
struct Output {
    name: String,
    info: Arc<WallpaperInfo>,
}

/// The outputs as names with their settings.
spec fn items_of(data: Seq<Output>) -> Seq<Named> {
    data.map_values(|o: Output| (o.name@, o.info@))
}

/// Some output among the first `n` has `path` as its path.
spec fn path_among(items: Seq<Named>, n: int, path: Seq<char>) -> bool {
    exists|k: int| 0 <= k < n && (#[trigger] items[k]).1.path == Some(path)
}

/// The settings of every output that the configuration file names, with the
/// fallback for the others.
#[derive(Debug)]
pub struct WallpapersConfig {
    data: Vec<Output>,
    default_config: Arc<WallpaperInfo>,
    path: String,
    reloaded: Option<Arc<AtomicBool>>,
}

impl WallpapersConfig {
    /// No name occurs twice, no entry has a duration without a path, and the
    /// fallback is the one that the entries give.
    #[verifier::type_invariant]
    spec fn well_formed(self) -> bool {
        &&& names_distinct(items_of(self.data@))
        &&& forall|i: int|
            0 <= i < self.data.len() ==> well_paired((#[trigger] items_of(self.data@)[i]).1)
        &&& self.default_config@ == fallback_of(entries_of(items_of(self.data@)))
    }

    /// The settings of every output that the snapshot names.
    pub closed spec fn entries(&self) -> Entries {
        entries_of(items_of(self.data@))
    }

    /// The path of the file that the snapshot was loaded from.
    pub closed spec fn source_path(&self) -> Seq<char> {
        self.path@
    }

    /// The flag that this store shares with the watcher of its file.
    pub closed spec fn reload_flag(&self) -> Option<Arc<AtomicBool>> {
        self.reloaded
    }

    /// `loaded` is what a load makes of `source`: a snapshot with the entries
    /// that [`outcome`] gives, or the error that it gives.
    pub open spec fn made_of(loaded: Result<Self, LoadError>, source: ConfigSourceView) -> bool {
        match loaded {
            Ok(config) => outcome(source) == Ok::<Entries, LoadErrorView>(config.entries()),
            Err(error) => outcome(source) == Err::<Entries, LoadErrorView>(error@),
        }
    }

    /// Makes a snapshot of what was found at `path`, or says why there is none.
    ///
    /// The snapshot holds every section of the source; it is made only where
    /// [`outcome`] finds nothing wrong, and otherwise the error is the one that
    /// `outcome` gives. A new store remembers `path` and shares no flag with
    /// anyone yet.
    pub fn new_from_path(path: &str, source: ConfigSource) -> (loaded: Result<Self, LoadError>)
        ensures
            Self::made_of(loaded, source@),
            loaded matches Ok(config) ==> config.source_path() == path@ && config.reload_flag()
                is None,
    {
        let sections = match source {
            ConfigSource::Missing => {
                return Err(LoadError::NotFound);
            },
            ConfigSource::Malformed => {
                return Err(LoadError::ParseError);
            },
            ConfigSource::Sections(sections) => sections,
        };
        let ghost views = section_views(sections@);
        let ghost items = named(views);
        if !distinct_names(&sections) {
            return Err(LoadError::ParseError);
        }
        match find_fault(&sections) {
            Some((i, reason)) => {
                return Err(LoadError::ValidationError { name: sections[i].name.clone(), reason });
            },
            None => {},
        }
        let mut data: Vec<Output> = Vec::new();
        let mut default_config: Option<Arc<WallpaperInfo>> = None;
        let ghost mut default_at: int = 0;
        for section in it: sections
            invariant
                it.seq() == sections@,
                views == section_views(sections@),
                items == named(views),
                items_of(data@) == items.take(it.index() as int),
                match default_config {
                    Some(info) => 0 <= default_at < it.index() && items[default_at]
                        == (default_name(), info@),
                    None => forall|k: int|
                        0 <= k < it.index() ==> (#[trigger] items[k]).0 != default_name(),
                },
        {
            let ghost at = it.index() as int;
            let ghost kept = items_of(data@);
            assert(kept.len() == at);
            assert(items[at] == (section.name@, section.info@));
            let info = Arc::new(section.info);
            if same_text(section.name.as_str(), "default") {
                default_config = Some(share(&info));
                proof {
                    default_at = it.index() as int;
                }
            }
            data.push(Output { name: section.name, info });
            assert forall|k: int| 0 <= k < at implies items_of(data@)[k] == items[k] by {
                assert(items_of(data@)[k] == kept[k]);
            }
            assert(items_of(data@) =~= items.take(at + 1));
        }
        assert(items_of(data@) =~= items);
        let default_config = match default_config {
            Some(info) => {
                proof {
                    lemma_entry_of_item(items, default_at);
                }
                info
            },
            None => {
                proof {
                    lemma_no_entry(items, default_name());
                }
                Arc::new(WallpaperInfo::default())
            },
        };
        Ok(WallpapersConfig { data, default_config, path: path.to_owned(), reloaded: None })
    }

    /// Where the output `name` stands among the entries.
    fn position(&self, name: &str) -> (found: Option<usize>)
        ensures
            match found {
                Some(i) => i < self.data.len() && self.entries().contains_key(name@)
                    && self.entries()[name@] == self.data[i as int].info@,
                None => !self.entries().contains_key(name@),
            },
    {
        proof {
            use_type_invariant(self);
        }
        let ghost items = items_of(self.data@);
        let mut i: usize = 0;
        while i < self.data.len()
            invariant
                i <= self.data.len(),
                items == items_of(self.data@),
                names_distinct(items),
                forall|k: int| 0 <= k < i ==> (#[trigger] items[k]).0 != name@,
            decreases self.data.len() - i,
        {
            if same_text(self.data[i].name.as_str(), name) {
                proof {
                    lemma_entry_of_item(items, i as int);
                }
                return Some(i);
            }
            i += 1;
        }
        proof {
            lemma_no_entry(items, name@);
        }
        None
    }

    /// The settings that hold for the output `name`: its own where the snapshot
    /// names it, else the fallback. The handle shares the settings with the
    /// snapshot.
    pub fn get_output_by_name(&self, name: &str) -> (info: Arc<WallpaperInfo>)
        ensures
            info@ == resolve(self.entries(), name@),
            well_paired(info@),
    {
        proof {
            use_type_invariant(self);
        }
        match self.position(name) {
            Some(i) => {
                assert(items_of(self.data@)[i as int].1 == self.data[i as int].info@);
                share(&self.data[i].info)
            },
            None => {
                proof {
                    let items = items_of(self.data@);
                    if has_name(items, default_name()) {
                        let k = choose|k: int|
                            0 <= k < items.len() && (#[trigger] items[k]).0 == default_name();
                        lemma_entry_of_item(items, k);
                    }
                }
                share(&self.default_config)
            },
        }
    }

    /// The paths that the entries name, in std's order of paths, each path
    /// once.
    ///
    /// Each result is the path of some entry, as the entry writes it. Every
    /// path that an entry names is the same path as exactly one result; where
    /// entries write one path in several ways, one of the ways stands for all.
    pub fn paths(&self) -> (paths: Vec<&str>)
        ensures
            paths_ascending(texts_of(paths@)),
            forall|k: int|
                0 <= k < paths.len() ==> names_path(
                    self.entries(),
                    #[trigger] texts_of(paths@)[k],
                ),
            forall|path: Seq<char>| #[trigger]
                names_path(self.entries(), path) ==> found_once(texts_of(paths@), path),
    {
        proof {
            use_type_invariant(self);
        }
        let ghost items = items_of(self.data@);
        let mut paths: Vec<&str> = Vec::new();
        let mut i: usize = 0;
        while i < self.data.len()
            invariant
                i <= self.data.len(),
                items == items_of(self.data@),
                paths_ascending(texts_of(paths@)),
                forall|k: int|
                    0 <= k < paths.len() ==> path_among(
                        items,
                        i as int,
                        #[trigger] texts_of(paths@)[k],
                    ),
                forall|path: Seq<char>| #[trigger]
                    path_among(items, i as int, path) ==> stands_in(texts_of(paths@), path),
            decreases self.data.len() - i,
        {
            let ghost before = texts_of(paths@);
            let ghost mut at: int = 0;
            let ghost mut grown = false;
            match &self.data[i].info.path {
                Some(found) => {
                    let placed = insert_path(&mut paths, found.as_str());
                    proof {
                        at = placed.0 as int;
                        grown = placed.1;
                        assert(items[i as int].1.path == Some(found@));
                    }
                },
                None => {
                    assert(items[i as int].1.path is None);
                },
            }
            proof {
                let after = texts_of(paths@);
                assert forall|k: int| 0 <= k < after.len() implies path_among(
                    items,
                    i + 1,
                    #[trigger] after[k],
                ) by {
                    if grown && k == at {
                        assert(items[i as int].1.path == Some(after[k]));
                    } else {
                        let m = if grown && k > at {
                            k - 1
                        } else {
                            k
                        };
                        assert(after[k] == before[m]);
                        assert(path_among(items, i as int, before[m]));
                        let w = choose|w: int|
                            0 <= w < i && (#[trigger] items[w]).1.path == Some(before[m]);
                        assert(0 <= w < i + 1);
                    }
                }
                assert forall|path: Seq<char>| #[trigger]
                    path_among(items, i + 1, path) implies stands_in(after, path) by {
                    let w = choose|w: int|
                        0 <= w < i + 1 && (#[trigger] items[w]).1.path == Some(path);
                    if w < i {
                        assert(path_among(items, i as int, path));
                        let k = choose|k: int| stands_at(before, path, k);
                        let m = if grown && k >= at {
                            k + 1
                        } else {
                            k
                        };
                        assert(after[m] == before[k]);
                        assert(stands_at(after, path, m));
                    } else {
                        assert(stands_at(after, path, at));
                    }
                }
            }
            i += 1;
        }
        proof {
            let found = texts_of(paths@);
            assert forall|k: int| 0 <= k < found.len() implies names_path(
                self.entries(),
                #[trigger] found[k],
            ) by {
                lemma_paths_of_items(items, found[k]);
                assert(path_among(items, self.data.len() as int, found[k]));
            }
            assert forall|path: Seq<char>| #[trigger]
                names_path(self.entries(), path) implies found_once(found, path) by {
                lemma_paths_of_items(items, path);
                assert(path_among(items, self.data.len() as int, path));
                lemma_stands_once(found, path);
            }
        }
        paths
    }

    /// Whether both snapshots say the same: the same outputs, and the same of
    /// each.
    fn same_entries(&self, other: &Self) -> (same: bool)
        ensures
            same == entries_alike(self.entries(), other.entries()),
    {
        proof {
            use_type_invariant(self);
            use_type_invariant(other);
        }
        let ghost mine = items_of(self.data@);
        let ghost theirs = items_of(other.data@);
        let mut i: usize = 0;
        while i < self.data.len()
            invariant
                i <= self.data.len(),
                mine == items_of(self.data@),
                names_distinct(mine),
                forall|k: int|
                    0 <= k < i ==> other.entries().contains_key((#[trigger] mine[k]).0) && alike(
                        mine[k].1,
                        other.entries()[mine[k].0],
                    ),
            decreases self.data.len() - i,
        {
            proof {
                lemma_entry_of_item(mine, i as int);
            }
            match other.position(self.data[i].name.as_str()) {
                Some(j) => {
                    if !self.data[i].info.same_as(&other.data[j].info) {
                        return false;
                    }
                },
                None => {
                    return false;
                },
            }
            i += 1;
        }
        let mut j: usize = 0;
        while j < other.data.len()
            invariant
                j <= other.data.len(),
                theirs == items_of(other.data@),
                names_distinct(theirs),
                forall|k: int| 0 <= k < j ==> self.entries().contains_key((#[trigger] theirs[k]).0),
            decreases other.data.len() - j,
        {
            proof {
                lemma_entry_of_item(theirs, j as int);
            }
            if self.position(other.data[j].name.as_str()).is_none() {
                return false;
            }
            j += 1;
        }
        proof {
            assert forall|name: Seq<char>| self.entries().contains_key(name) implies other.entries().contains_key(
                name,
            ) && alike(#[trigger] self.entries()[name], other.entries()[name]) by {
                let k = choose|k: int| 0 <= k < mine.len() && (#[trigger] mine[k]).0 == name;
                lemma_entry_of_item(mine, k);
            }
            assert forall|name: Seq<char>| other.entries().contains_key(name) implies self.entries().contains_key(
                name,
            ) by {
                let k = choose|k: int| 0 <= k < theirs.len() && (#[trigger] theirs[k]).0 == name;
                lemma_entry_of_item(theirs, k);
            }
        }
        true
    }

    /// Whether a reload that gave `loaded` puts a new snapshot in the place of
    /// this one: it does where the load went well and the fresh snapshot does
    /// not say the same as this one.
    pub open spec fn replaced_by(&self, loaded: Result<WallpapersConfig, LoadError>) -> bool {
        loaded matches Ok(fresh) && !entries_alike(fresh.entries(), self.entries())
    }

    /// Takes in what a reload gave, and says whether the snapshot changed.
    ///
    /// A load that failed, and one whose snapshot says the same as the one that
    /// the store has, leave the store as it is. Any other puts the fresh
    /// entries in the place of the old ones, so that after a load that went
    /// well the store says what was loaded. The path and the flag stay what
    /// they were.
    pub fn try_update(&mut self, loaded: Result<WallpapersConfig, LoadError>) -> (changed: bool)
        ensures
            changed == old(self).replaced_by(loaded),
            !changed ==> *final(self) == *old(self),
            changed ==> final(self).entries() == loaded->Ok_0.entries(),
            loaded matches Ok(fresh) ==> entries_alike(fresh.entries(), final(self).entries()),
            final(self).source_path() == old(self).source_path(),
            final(self).reload_flag() == old(self).reload_flag(),
    {
        match loaded {
            Ok(fresh) => {
                if fresh.same_entries(self) {
                    false
                } else {
                    proof {
                        use_type_invariant(&fresh);
                        lemma_entries_alike_reflexive(fresh.entries());
                    }
                    let reloaded = self.reloaded();
                    let path = self.path.clone();
                    let WallpapersConfig { data, default_config, .. } = fresh;
                    *self = WallpapersConfig { data, default_config, path, reloaded };
                    true
                }
            },
            Err(_) => false,
        }
    }

    /// Whether the watcher has asked for a reload since the flag was last
    /// lowered. A store that shares no flag has nothing pending.
    pub fn is_reload_pending(&self) -> (pending: bool)
        ensures
            self.reload_flag() is None ==> !pending,
    {
        let reading = match &self.reloaded {
            Some(flag) => Some(flag.load(std::sync::atomic::Ordering::Relaxed)),
            None => None,
        };
        crate::watch::reload_pending_after(reading)
    }

    /// The path of the file that the snapshot was loaded from.
    pub fn path(&self) -> (path: &str)
        ensures
            path@ == self.source_path(),
    {
        self.path.as_str()
    }

    /// A handle to the flag that the store shares with the watcher of its file.
    pub fn reloaded(&self) -> (flag: Option<Arc<AtomicBool>>)
        ensures
            flag == self.reload_flag(),
    {
        match &self.reloaded {
            Some(flag) => Some(share(flag)),
            None => None,
        }
    }

    /// Makes `flag` the flag by which a reload of this store is asked for.
    pub fn set_reloaded(&mut self, flag: Arc<AtomicBool>)
        ensures
            final(self).reload_flag() == Some(flag),
            final(self).entries() == old(self).entries(),
            final(self).source_path() == old(self).source_path(),
    {
        proof {
            use_type_invariant(&*self);
        }
        self.reloaded = Some(flag);
    }
}

impl PartialEq for WallpapersConfig {
    fn eq(&self, other: &Self) -> (same: bool) {
        self.same_entries(other)
    }
}

impl PartialEqSpecImpl for WallpapersConfig {
    open spec fn obeys_eq_spec() -> bool {
        true
    }

    open spec fn eq_spec(&self, other: &Self) -> bool {
        entries_alike(self.entries(), other.entries())
    }
}

} // verus!
