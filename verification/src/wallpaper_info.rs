//! The settings of one output.

use crate::path_order::{paths_equal, same_path};
use vstd::prelude::*;
use vstd::std_specs::cmp::PartialEqSpecImpl;

verus! {

/// What the configuration says of one output.
///
/// Only `path` and `duration` are read by the store; `extra` carries the
/// rendering options as text, which the store keeps and compares but never
/// looks into.
#[derive(Clone, Debug)]
pub struct WallpaperInfo {
    /// An image, or a directory of images.
    pub path: Option<String>,
    /// Seconds between two images of a directory.
    pub duration: Option<u64>,
    /// Rendering options, uninterpreted.
    pub extra: String,
}

/// The mathematical value of a [`WallpaperInfo`].
pub struct WallpaperInfoView {
    pub path: Option<Seq<char>>,
    pub duration: Option<u64>,
    pub extra: Seq<char>,
}

impl WallpaperInfoView {
    /// The settings of an output of which nothing is said.
    pub open spec fn unset() -> Self {
        WallpaperInfoView { path: None, duration: None, extra: Seq::empty() }
    }
}

/// A duration comes with a path: there is nothing to rotate through without
/// a directory.
pub open spec fn well_paired(info: WallpaperInfoView) -> bool {
    info.duration is Some ==> info.path is Some
}

/// Two settings say the same of their outputs: the same path, written this
/// way or that, the same duration and the same rendering options.
pub open spec fn alike(a: WallpaperInfoView, b: WallpaperInfoView) -> bool {
    &&& match (a.path, b.path) {
        (Some(p), Some(q)) => same_path(p, q),
        (None, None) => true,
        _ => false,
    }
    &&& a.duration == b.duration
    &&& a.extra == b.extra
}

impl View for WallpaperInfo {
    type V = WallpaperInfoView;

    open spec fn view(&self) -> WallpaperInfoView {
        WallpaperInfoView {
            path: match self.path {
                Some(p) => Some(p@),
                None => None,
            },
            duration: self.duration,
            extra: self.extra@,
        }
    }
}

impl Default for WallpaperInfo {
    fn default() -> (info: Self)
        ensures
            info@ == WallpaperInfoView::unset(),
    {
        WallpaperInfo { path: None, duration: None, extra: String::new() }
    }
}

impl WallpaperInfo {
    /// Whether both say the same of their output.
    pub fn same_as(&self, other: &Self) -> (same: bool)
        ensures
            same == alike(self@, other@),
    {
        let same_path = match (&self.path, &other.path) {
            (Some(a), Some(b)) => paths_equal(a.as_str(), b.as_str()),
            (None, None) => true,
            _ => false,
        };
        let same_duration = match (self.duration, other.duration) {
            (Some(a), Some(b)) => a == b,
            (None, None) => true,
            _ => false,
        };
        same_path && same_duration && self.extra == other.extra
    }
}

impl PartialEq for WallpaperInfo {
    fn eq(&self, other: &Self) -> (same: bool) {
        self.same_as(other)
    }
}

impl Eq for WallpaperInfo {

}

impl PartialEqSpecImpl for WallpaperInfo {
    open spec fn obeys_eq_spec() -> bool {
        true
    }

    open spec fn eq_spec(&self, other: &Self) -> bool {
        alike(self@, other@)
    }
}

} // verus!
