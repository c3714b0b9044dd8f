//! The closed set of catalogue datasets and the requests that select one.

use vstd::prelude::*;

verus! {

/// A catalogue dataset that identifiers can be harvested for.
#[derive(Clone, Copy, Debug, PartialEq, Eq, Structural, Hash)]
pub enum Dataset {
    Movies,
    TvShows,
    Seasons,
    Episodes,
    People,
    Networks,
    Companies,
}

/// One harvesting request: a full export of a dataset, or a sync of the
/// changes recorded over the given number of past days.
#[derive(Clone, Copy, Debug, PartialEq, Eq, Structural)]
pub enum Action {
    Export(Dataset),
    Sync(Dataset, u8),
}

impl Dataset {
    /// The file-name stem of the dataset's daily snapshot.
    pub open spec fn slug(self) -> Seq<char> {
        match self {
            Dataset::Movies => "movie_ids_"@,
            Dataset::TvShows => "tv_series_ids_"@,
            Dataset::Seasons => "seasons_ids_"@,
            Dataset::Episodes => "episodes_ids_"@,
            Dataset::People => "person_ids_"@,
            Dataset::Networks => "tv_network_ids_"@,
            Dataset::Companies => "production_company_ids_"@,
        }
    }

    /// The human-readable name of the dataset, as used in queue entry ids.
    pub open spec fn label(self) -> Seq<char> {
        match self {
            Dataset::Movies => "movies"@,
            Dataset::TvShows => "tv shows"@,
            Dataset::Seasons => "seasons"@,
            Dataset::Episodes => "episodes"@,
            Dataset::People => "people"@,
            Dataset::Networks => "networks"@,
            Dataset::Companies => "companies"@,
        }
    }

    /// Whether a second, adult-content snapshot is published for the dataset.
    pub open spec fn has_adult_snapshot(self) -> bool {
        self == Dataset::Movies || self == Dataset::TvShows || self == Dataset::People
    }

    /// The snapshot file-name stem. Only meant for building snapshot URLs.
    pub fn as_ref(&self) -> (stem: &'static str)
        ensures
            stem@ == self.slug(),
    {
        match self {
            Dataset::Movies => "movie_ids_",
            Dataset::TvShows => "tv_series_ids_",
            Dataset::Seasons => "seasons_ids_",
            Dataset::Episodes => "episodes_ids_",
            Dataset::People => "person_ids_",
            Dataset::Networks => "tv_network_ids_",
            Dataset::Companies => "production_company_ids_",
        }
    }

    /// The display name of the dataset.
    pub fn to_string(&self) -> (name: String)
        ensures
            name@ == self.label(),
    {
        let name: &'static str = match self {
            Dataset::Movies => "movies",
            Dataset::TvShows => "tv shows",
            Dataset::Seasons => "seasons",
            Dataset::Episodes => "episodes",
            Dataset::People => "people",
            Dataset::Networks => "networks",
            Dataset::Companies => "companies",
        };
        String::from_str(name)
    }

    /// Decides whether the adult-content snapshot exists for the dataset.
    pub fn adult_snapshot_exists(&self) -> (yes: bool)
        ensures
            yes == self.has_adult_snapshot(),
    {
        match self {
            Dataset::Movies | Dataset::TvShows | Dataset::People => true,
            _ => false,
        }
    }
}

impl Action {
    /// The dataset that the request is about.
    pub open spec fn target(self) -> Dataset {
        match self {
            Action::Export(dataset) => dataset,
            Action::Sync(dataset, _) => dataset,
        }
    }

    /// The dataset that the request is about.
    pub fn dataset(&self) -> (dataset: Dataset)
        ensures
            dataset == self.target(),
    {
        match self {
            Action::Export(dataset) => *dataset,
            Action::Sync(dataset, _) => *dataset,
        }
    }
}

} // verus!
