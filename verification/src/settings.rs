//! The settings that outlive a session: the last location and the recent
//! paths of each profile.

use vstd::prelude::*;

verus! {

/// A path that has been visited: how often, and when last.
#[derive(Debug)]
pub struct PathEntry {
    pub path: String,
    /// The number of visits.
    pub score: u64,
    /// The time of the last visit, in seconds since the Unix epoch.
    pub last_accessed: i64,
}

/// The mathematical value of a [`PathEntry`].
pub ghost struct PathEntryView {
    pub path: Seq<char>,
    pub score: u64,
    pub last_accessed: i64,
}

impl View for PathEntry {
    type V = PathEntryView;

    open spec fn view(&self) -> PathEntryView {
        PathEntryView { path: self.path@, score: self.score, last_accessed: self.last_accessed }
    }
}

impl DeepView for PathEntry {
    type V = PathEntryView;

    open spec fn deep_view(&self) -> PathEntryView {
        self@
    }
}

impl Clone for PathEntry {
    fn clone(&self) -> (r: Self)
        ensures
            r@ == self@,
    {
        PathEntry { path: self.path.clone(), score: self.score, last_accessed: self.last_accessed }
    }
}

/// The recent paths of one profile.
#[derive(Debug)]
pub struct ProfilePaths {
    pub profile: String,
    pub entries: Vec<PathEntry>,
}

/// The mathematical value of a [`ProfilePaths`].
pub ghost struct ProfilePathsView {
    pub profile: Seq<char>,
    pub entries: Seq<PathEntryView>,
}

impl View for ProfilePaths {
    type V = ProfilePathsView;

    open spec fn view(&self) -> ProfilePathsView {
        ProfilePathsView { profile: self.profile@, entries: self.entries.deep_view() }
    }
}

impl DeepView for ProfilePaths {
    type V = ProfilePathsView;

    open spec fn deep_view(&self) -> ProfilePathsView {
        self@
    }
}

/// The persistent settings.
#[derive(Debug)]
pub struct AppSettings {
    pub profile: String,
    pub bucket: String,
    pub prefix: String,
    /// The recent paths, one record per profile.
    pub frecent_paths: Vec<ProfilePaths>,
}

/// The mathematical value of an [`AppSettings`].
pub ghost struct AppSettingsView {
    pub profile: Seq<char>,
    pub bucket: Seq<char>,
    pub prefix: Seq<char>,
    pub frecent_paths: Seq<ProfilePathsView>,
}

impl View for AppSettings {
    type V = AppSettingsView;

    open spec fn view(&self) -> AppSettingsView {
        AppSettingsView {
            profile: self.profile@,
            bucket: self.bucket@,
            prefix: self.prefix@,
            frecent_paths: self.frecent_paths.deep_view(),
        }
    }
}

impl Default for AppSettings {
    fn default() -> (r: Self)
        ensures
            r@ == (AppSettingsView {
                profile: Seq::empty(),
                bucket: Seq::empty(),
                prefix: Seq::empty(),
                frecent_paths: Seq::empty(),
            }),
    {
        let r = AppSettings {
            profile: String::new(),
            bucket: String::new(),
            prefix: String::new(),
            frecent_paths: Vec::new(),
        };
        proof {
            assert(r.frecent_paths.deep_view() =~= Seq::<ProfilePathsView>::empty());
        }
        r
    }
}

} // verus!
