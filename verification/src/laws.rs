//! What holds of loading and reloading, whatever the configuration.

use crate::entries::{lemma_entries_alike_reflexive, names_distinct, Entries};
use crate::source::{
    fault_of, first_fault, is_first_fault, lemma_first_fault_unique, named, outcome,
    ConfigSourceView, LoadErrorView, SectionView,
};
use crate::source::LoadError;
use crate::wallpaper_config::WallpapersConfig;
use vstd::prelude::*;
use vstd::std_specs::cmp::PartialEqSpec;

verus! {

/// Where some section breaks a rule, one section is the first to do so, and it
/// stands no later.
pub proof fn lemma_fault_has_first(sections: Seq<SectionView>, i: int)
    requires
        0 <= i < sections.len(),
        fault_of(sections[i]) is Some,
    ensures
        first_fault(sections) matches Some(k) && 0 <= k <= i && is_first_fault(sections, k),
    decreases i,
{
    if exists|j: int| 0 <= j < i && fault_of(#[trigger] sections[j]) is Some {
        let j = choose|j: int| 0 <= j < i && fault_of(#[trigger] sections[j]) is Some;
        lemma_fault_has_first(sections, j);
    } else {
        assert(is_first_fault(sections, i));
        lemma_first_fault_unique(sections, i);
    }
}

/// Validation is all or nothing: a configuration with a section that breaks a
/// rule gives no snapshot. Where its sections are well named, the load fails
/// with a validation error, and where no earlier section breaks a rule, the
/// error names this section and its fault.
pub proof fn lemma_faulty_section_is_rejected(sections: Seq<SectionView>, i: int)
    requires
        0 <= i < sections.len(),
        fault_of(sections[i]) is Some,
    ensures
        outcome(ConfigSourceView::Sections(sections)) is Err,
        names_distinct(named(sections)) ==> outcome(ConfigSourceView::Sections(sections))
            matches Err(LoadErrorView::ValidationError { .. }),
        names_distinct(named(sections)) && is_first_fault(sections, i) ==> outcome(
            ConfigSourceView::Sections(sections),
        ) == Err::<Entries, LoadErrorView>(
            LoadErrorView::ValidationError {
                name: sections[i].name,
                reason: fault_of(sections[i]).unwrap(),
            },
        ),
{
    lemma_fault_has_first(sections, i);
    if is_first_fault(sections, i) {
        lemma_first_fault_unique(sections, i);
    }
}

/// A configuration with a section whose path does not exist is never loaded:
/// the load fails, with a validation error where the sections are well named.
pub proof fn lemma_missing_path_is_rejected(sections: Seq<SectionView>, i: int)
    requires
        0 <= i < sections.len(),
        sections[i].info.path is Some,
        sections[i].on_disk is Missing,
    ensures
        outcome(ConfigSourceView::Sections(sections)) is Err,
        names_distinct(named(sections)) ==> outcome(ConfigSourceView::Sections(sections))
            matches Err(LoadErrorView::ValidationError { .. }),
{
    lemma_faulty_section_is_rejected(sections, i);
}

/// A configuration with a section that sets a duration on a path that is a
/// file is never loaded: the load fails, with a validation error where the
/// sections are well named.
pub proof fn lemma_duration_on_file_is_rejected(sections: Seq<SectionView>, i: int)
    requires
        0 <= i < sections.len(),
        sections[i].info.duration is Some,
        sections[i].info.path is Some,
        sections[i].on_disk is File,
    ensures
        outcome(ConfigSourceView::Sections(sections)) is Err,
        names_distinct(named(sections)) ==> outcome(ConfigSourceView::Sections(sections))
            matches Err(LoadErrorView::ValidationError { .. }),
{
    lemma_faulty_section_is_rejected(sections, i);
}

/// Equality looks at the entries alone: two snapshots made of the same source
/// are equal, whatever their paths and whatever flags they share.
pub proof fn lemma_same_source_equal_snapshots(
    a: WallpapersConfig,
    b: WallpapersConfig,
    source: ConfigSourceView,
)
    requires
        WallpapersConfig::made_of(Ok(a), source),
        WallpapersConfig::made_of(Ok(b), source),
    ensures
        a.eq_spec(&b),
        b.eq_spec(&a),
{
    lemma_entries_alike_reflexive(a.entries());
}

/// Reloading what the current snapshot was made of changes nothing: whatever
/// the reload gives for the same source, it does not replace the snapshot.
pub proof fn lemma_reload_of_same_source_is_no_change(
    store: WallpapersConfig,
    source: ConfigSourceView,
    reloaded: Result<WallpapersConfig, LoadError>,
)
    requires
        WallpapersConfig::made_of(Ok(store), source),
        WallpapersConfig::made_of(reloaded, source),
    ensures
        !store.replaced_by(reloaded),
{
    lemma_entries_alike_reflexive(store.entries());
}

/// A reload that fails never replaces the snapshot; one that finds the file
/// malformed always fails.
pub proof fn lemma_failed_reload_is_no_change(
    store: WallpapersConfig,
    source: ConfigSourceView,
    reloaded: Result<WallpapersConfig, LoadError>,
)
    requires
        WallpapersConfig::made_of(reloaded, source),
        outcome(source) is Err,
    ensures
        reloaded is Err,
        !store.replaced_by(reloaded),
{
}

/// A malformed file gives a parse error, and a missing one is not found.
pub proof fn lemma_unreadable_sources(reloaded: Result<WallpapersConfig, LoadError>)
    ensures
        WallpapersConfig::made_of(reloaded, ConfigSourceView::Malformed) ==> (reloaded matches Err(
            error,
        ) && error@ == LoadErrorView::ParseError),
        WallpapersConfig::made_of(reloaded, ConfigSourceView::Missing) ==> (reloaded matches Err(
            error,
        ) && error@ == LoadErrorView::NotFound),
{
}

} // verus!
