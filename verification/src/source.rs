//! What was found where a configuration is kept, and the rules that it has to
//! meet before it becomes a snapshot.
//!
//! The caller reads the file, takes its sections apart and looks up on disk the
//! path that each section names. The findings arrive here as a
//! [`ConfigSource`]; [`outcome`] says what a load makes of them.

use crate::entries::{entries_of, names_distinct, Entries, Named};
use crate::text::same_text;
use crate::wallpaper_info::{WallpaperInfo, WallpaperInfoView};
use vstd::prelude::*;
use vstd::std_specs::cmp::PartialEqSpecImpl;

verus! {

/// What the file system holds at a path.
#[derive(Clone, Copy, Debug, PartialEq, Eq, Structural)]
pub enum PathKind {
    Missing,
    File,
    Directory,
}

/// One named section of the configuration file, with what the file system
/// holds at its `path`. Where the section has no path, `on_disk` is not read.
#[derive(Clone, Debug)]
pub struct Section {
    pub name: String,
    pub info: WallpaperInfo,
    pub on_disk: PathKind,
}

/// The mathematical value of a [`Section`].
pub struct SectionView {
    pub name: Seq<char>,
    pub info: WallpaperInfoView,
    pub on_disk: PathKind,
}

impl View for Section {
    type V = SectionView;

    open spec fn view(&self) -> SectionView {
        SectionView { name: self.name@, info: self.info@, on_disk: self.on_disk }
    }
}

/// What reading the configuration file gave.
#[derive(Clone, Debug)]
pub enum ConfigSource {
    /// There is no file at the path.
    Missing,
    /// The file is there, but it is not a list of sections.
    Malformed,
    /// The sections of the file, in the order in which they are checked.
    Sections(Vec<Section>),
}

/// The mathematical value of a [`ConfigSource`].
pub enum ConfigSourceView {
    Missing,
    Malformed,
    Sections(Seq<SectionView>),
}

/// The values of a run of sections.
pub open spec fn section_views(sections: Seq<Section>) -> Seq<SectionView> {
    sections.map_values(|s: Section| s@)
}

impl View for ConfigSource {
    type V = ConfigSourceView;

    open spec fn view(&self) -> ConfigSourceView {
        match self {
            ConfigSource::Missing => ConfigSourceView::Missing,
            ConfigSource::Malformed => ConfigSourceView::Malformed,
            ConfigSource::Sections(sections) => ConfigSourceView::Sections(
                section_views(sections@),
            ),
        }
    }
}

/// Why a section is turned down.
#[derive(Clone, Copy, Debug, PartialEq, Eq, Structural)]
pub enum Fault {
    /// The section names a path at which there is nothing.
    PathMissing,
    /// The section sets a duration, and its path is no directory.
    DurationRequiresDirectory,
}

/// Why no snapshot was made.
#[derive(Clone, Debug)]
pub enum LoadError {
    /// The configuration file does not exist.
    NotFound,
    /// The file does not have the shape of a configuration.
    ParseError,
    /// The section `name` breaks a rule.
    ValidationError { name: String, reason: Fault },
}

/// The mathematical value of a [`LoadError`].
pub enum LoadErrorView {
    NotFound,
    ParseError,
    ValidationError { name: Seq<char>, reason: Fault },
}

impl View for LoadError {
    type V = LoadErrorView;

    open spec fn view(&self) -> LoadErrorView {
        match self {
            LoadError::NotFound => LoadErrorView::NotFound,
            LoadError::ParseError => LoadErrorView::ParseError,
            LoadError::ValidationError { name, reason } => LoadErrorView::ValidationError {
                name: name@,
                reason: *reason,
            },
        }
    }
}

impl PartialEq for LoadError {
    fn eq(&self, other: &Self) -> (same: bool) {
        match (self, other) {
            (LoadError::NotFound, LoadError::NotFound) => true,
            (LoadError::ParseError, LoadError::ParseError) => true,
            (
                LoadError::ValidationError { name: a, reason: r },
                LoadError::ValidationError { name: b, reason: s },
            ) => *a == *b && *r == *s,
            _ => false,
        }
    }
}

impl Eq for LoadError {

}

impl PartialEqSpecImpl for LoadError {
    open spec fn obeys_eq_spec() -> bool {
        true
    }

    open spec fn eq_spec(&self, other: &Self) -> bool {
        self@ == other@
    }
}

/// The rule that a section breaks, if it breaks one. A path that is named has
/// to exist; a duration asks for a path that is a directory. The missing path
/// is reported first.
pub open spec fn fault_of(section: SectionView) -> Option<Fault> {
    if section.info.path is Some && section.on_disk is Missing {
        Some(Fault::PathMissing)
    } else if section.info.duration is Some && !(section.info.path is Some
        && section.on_disk is Directory) {
        Some(Fault::DurationRequiresDirectory)
    } else {
        None
    }
}

/// The sections as names with their settings.
pub open spec fn named(sections: Seq<SectionView>) -> Seq<Named> {
    sections.map_values(|s: SectionView| (s.name, s.info))
}

/// Section `i` breaks a rule and none before it does.
pub open spec fn is_first_fault(sections: Seq<SectionView>, i: int) -> bool {
    &&& 0 <= i < sections.len()
    &&& fault_of(sections[i]) is Some
    &&& forall|j: int| 0 <= j < i ==> fault_of(#[trigger] sections[j]) is None
}

/// The first section that breaks a rule, if any does.
pub open spec fn first_fault(sections: Seq<SectionView>) -> Option<int> {
    if exists|i: int| is_first_fault(sections, i) {
        Some(choose|i: int| is_first_fault(sections, i))
    } else {
        None
    }
}

/// What a load makes of a source: the entries of the snapshot, or the reason
/// why there is none. A missing file and a malformed one are reported as such;
/// sections of which two share a name are malformed; of several sections that
/// break a rule the first is reported; and only where no section breaks one is
/// there a snapshot, which then holds them all. The section called `"default"`
/// is held to the rules like any other.
pub open spec fn outcome(source: ConfigSourceView) -> Result<Entries, LoadErrorView> {
    match source {
        ConfigSourceView::Missing => Err(LoadErrorView::NotFound),
        ConfigSourceView::Malformed => Err(LoadErrorView::ParseError),
        ConfigSourceView::Sections(sections) => if !names_distinct(named(sections)) {
            Err(LoadErrorView::ParseError)
        } else {
            match first_fault(sections) {
                Some(i) => Err(
                    LoadErrorView::ValidationError {
                        name: sections[i].name,
                        reason: fault_of(sections[i]).unwrap(),
                    },
                ),
                None => Ok(entries_of(named(sections))),
            }
        },
    }
}

/// Only one section can be the first to break a rule.
pub proof fn lemma_first_fault_unique(sections: Seq<SectionView>, i: int)
    requires
        is_first_fault(sections, i),
    ensures
        first_fault(sections) == Some(i),
{
    let j = choose|j: int| is_first_fault(sections, j);
    if i < j {
        assert(fault_of(sections[i]) is None);
    } else if j < i {
        assert(fault_of(sections[j]) is None);
    }
}

/// Where no section breaks a rule, none is the first to do so.
pub proof fn lemma_no_fault(sections: Seq<SectionView>)
    requires
        forall|i: int| 0 <= i < sections.len() ==> fault_of(#[trigger] sections[i]) is None,
    ensures
        first_fault(sections) is None,
{
}

impl Section {
    /// The rule that this section breaks, if it breaks one.
    pub fn fault(&self) -> (fault: Option<Fault>)
        ensures
            fault == fault_of(self@),
    {
        let directory = match self.on_disk {
            PathKind::Directory => true,
            _ => false,
        };
        let missing = match self.on_disk {
            PathKind::Missing => true,
            _ => false,
        };
        if self.info.path.is_some() && missing {
            Some(Fault::PathMissing)
        } else if self.info.duration.is_some() && !(self.info.path.is_some() && directory) {
            Some(Fault::DurationRequiresDirectory)
        } else {
            None
        }
    }
}

/// Whether no two of the sections share a name.
pub(crate) fn distinct_names(sections: &Vec<Section>) -> (distinct: bool)
    ensures
        distinct == names_distinct(named(section_views(sections@))),
{
    let ghost views = section_views(sections@);
    let ghost items = named(views);
    let mut j: usize = 0;
    while j < sections.len()
        invariant
            j <= sections.len(),
            views == section_views(sections@),
            items == named(views),
            forall|a: int, b: int|
                0 <= a < b < j ==> (#[trigger] items[a]).0 != (#[trigger] items[b]).0,
        decreases sections.len() - j,
    {
        let mut i: usize = 0;
        while i < j
            invariant
                i <= j < sections.len(),
                views == section_views(sections@),
                items == named(views),
                forall|a: int| 0 <= a < i ==> (#[trigger] items[a]).0 != items[j as int].0,
            decreases j - i,
        {
            if same_text(sections[i].name.as_str(), sections[j].name.as_str()) {
                assert(items[i as int].0 == items[j as int].0);
                return false;
            }
            i += 1;
        }
        j += 1;
    }
    true
}

/// The first section that breaks a rule, with the rule.
pub(crate) fn find_fault(sections: &Vec<Section>) -> (found: Option<(usize, Fault)>)
    ensures
        match found {
            Some((i, fault)) => first_fault(section_views(sections@)) == Some(i as int)
                && fault_of(section_views(sections@)[i as int]) == Some(fault),
            None => first_fault(section_views(sections@)) is None && forall|i: int|
                0 <= i < sections.len() ==> fault_of(#[trigger] section_views(sections@)[i])
                    is None,
        },
{
    let ghost views = section_views(sections@);
    let mut i: usize = 0;
    while i < sections.len()
        invariant
            i <= sections.len(),
            views == section_views(sections@),
            forall|j: int| 0 <= j < i ==> fault_of(#[trigger] views[j]) is None,
        decreases sections.len() - i,
    {
        match sections[i].fault() {
            Some(fault) => {
                proof {
                    assert(views[i as int] == sections[i as int]@);
                    assert(is_first_fault(views, i as int));
                    lemma_first_fault_unique(views, i as int);
                }
                return Some((i, fault));
            },
            None => {
                assert(views[i as int] == sections[i as int]@);
            },
        }
        i += 1;
    }
    proof {
        lemma_no_fault(views);
    }
    None
}

} // verus!
