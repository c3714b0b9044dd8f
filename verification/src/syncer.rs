//! The change feed: which datasets have one, which pages to ask for, and
//! what is made of the pages once they have been fetched.

use std::collections::HashSet;
use vstd::prelude::*;
use vstd::std_specs::hash::*;
use vstd::std_specs::iter::IteratorSpec;
use crate::chunks::{chunked, chunks};
use crate::clock::{utc_text, Moment, DAY, QUERY_DATE};
use crate::dataset::Dataset;
use crate::error::{all_or_first_failure, first_failure, successes, Error};
use crate::exporter::joined;
use crate::text::{decimal, decimal_string};

verus! {

broadcast use vstd::std_specs::hash::group_hash_axioms;

/// The change feed of movies.
pub const MOVIE_CHANGES_URL: &'static str = "https://api.themoviedb.org/3/movie/changes";

/// The change feed of people.
pub const PEOPLE_CHANGES_URL: &'static str = "https://api.themoviedb.org/3/person/changes";

/// The change feed of TV shows.
pub const TVSHOW_CHANGES_URL: &'static str = "https://api.themoviedb.org/3/tv/changes";

/// The most pages that are asked for at once.
pub const PAGE_WAVE_CAPACITY: usize = 25;

impl Dataset {
    /// The address of the dataset's change feed, where it has one.
    pub open spec fn change_feed(self) -> Option<Seq<char>> {
        match self {
            Dataset::Movies => Some(MOVIE_CHANGES_URL@),
            Dataset::People => Some(PEOPLE_CHANGES_URL@),
            Dataset::TvShows => Some(TVSHOW_CHANGES_URL@),
            _ => None,
        }
    }
}

/// The address of the change feed of `dataset`. Only movies, people and TV
/// shows have one; a sync of any other dataset is refused.
pub fn url(dataset: &Dataset) -> (feed: Result<&'static str, Error>)
    ensures
        dataset.change_feed() matches Some(address) ==> (feed matches Ok(text) && text@
            == address),
        dataset.change_feed() is None ==> feed matches Err(Error::InvalidDataset),
{
    match dataset {
        Dataset::Movies => Ok(MOVIE_CHANGES_URL),
        Dataset::People => Ok(PEOPLE_CHANGES_URL),
        Dataset::TvShows => Ok(TVSHOW_CHANGES_URL),
        _ => Err(Error::InvalidDataset),
    }
}

/// The pages of a feed of `total_pages` pages that follow the first one.
pub open spec fn later_pages(total_pages: u16) -> Seq<u16> {
    Seq::new(
        if total_pages >= 2 {
            (total_pages - 1) as nat
        } else {
            0
        },
        |k: int| (k + 2) as u16,
    )
}

/// The views of a sequence of page groups, in order.
pub open spec fn page_groups(waves: Seq<Vec<u16>>) -> Seq<Seq<u16>> {
    Seq::new(waves.len(), |w: int| waves[w]@)
}

/// Plans the requests for the pages after the first: pages two to
/// `total_pages` in ascending order, twenty-five to a wave. The pages of
/// one wave are asked for concurrently, the waves one after the other.
pub fn page_waves(total_pages: u16) -> (waves: Vec<Vec<u16>>)
    ensures
        page_groups(waves@) == chunks(later_pages(total_pages), PAGE_WAVE_CAPACITY as nat),
        waves.len() == (later_pages(total_pages).len() + 24) / 25,
{
    let mut pages: Vec<u16> = Vec::new();
    let mut page: u16 = 1;
    while page < total_pages
        invariant
            1 <= page,
            page <= total_pages || page == 1,
            pages.len() == page - 1,
            forall|k: int| 0 <= k < pages.len() ==> (#[trigger] pages[k]) == k + 2,
        decreases total_pages - page,
    {
        page = page + 1;
        pages.push(page);
    }
    assert(pages@ =~= later_pages(total_pages));
    let waves: Vec<Vec<u16>> = chunked(pages, PAGE_WAVE_CAPACITY);
    waves
}

/// One parameter of a feed query, by name and value.
pub struct QueryParameter {
    pub name: String,
    pub value: String,
}

/// What a query parameter holds, as a mathematical value.
pub struct QueryParameterView {
    pub name: Seq<char>,
    pub value: Seq<char>,
}

impl View for QueryParameter {
    type V = QueryParameterView;

    open spec fn view(&self) -> QueryParameterView {
        QueryParameterView { name: self.name@, value: self.value@ }
    }
}

/// The views of a sequence of query parameters, in order.
pub open spec fn query_views(query: Seq<QueryParameter>) -> Seq<QueryParameterView> {
    Seq::new(query.len(), |k: int| query[k]@)
}

/// The query for one page of changes recorded from `start_date` to
/// `end_date`: the credential, the page, and the two dates, in this order.
pub open spec fn dated_query(
    page: u16,
    api_key: Seq<char>,
    start_date: Seq<char>,
    end_date: Seq<char>,
) -> Seq<QueryParameterView> {
    seq![
        QueryParameterView { name: "api_key"@, value: api_key },
        QueryParameterView { name: "page"@, value: decimal(page as nat) },
        QueryParameterView { name: "start_date"@, value: start_date },
        QueryParameterView { name: "end_date"@, value: end_date },
    ]
}

/// The query for one page of changes, asked at the instant `now` with a
/// lookback of `days_interval` days: the window opens that many days
/// before `now` and closes one day after it, so that changes recorded
/// under today's date are inside whatever the feed's own time zone.
pub open spec fn request_query(
    page: u16,
    api_key: Seq<char>,
    now: int,
    days_interval: u8,
) -> Seq<QueryParameterView> {
    dated_query(
        page,
        api_key,
        utc_text(now - days_interval * DAY, QUERY_DATE@),
        utc_text(now + DAY, QUERY_DATE@),
    )
}

/// Builds the query for one page of changes recorded from `start_date` to
/// `end_date`.
pub fn dated_request(page: u16, api_key: &str, start_date: String, end_date: String) -> (query:
    Vec<QueryParameter>)
    ensures
        query_views(query@) == dated_query(page, api_key@, start_date@, end_date@),
{
    let mut query: Vec<QueryParameter> = Vec::new();
    query.push(
        QueryParameter { name: String::from_str("api_key"), value: String::from_str(api_key) },
    );
    query.push(
        QueryParameter { name: String::from_str("page"), value: decimal_string(page as u32) },
    );
    query.push(QueryParameter { name: String::from_str("start_date"), value: start_date });
    query.push(QueryParameter { name: String::from_str("end_date"), value: end_date });
    assert(query_views(query@) =~= dated_query(page, api_key@, start_date@, end_date@));
    query
}

/// Builds the query for one page of changes asked at `now` with a lookback
/// of `days_interval` days.
pub fn request(page: u16, api_key: &str, now: &Moment, days_interval: u8) -> (query: Vec<
    QueryParameter,
>)
    ensures
        query_views(query@) == request_query(page, api_key@, now@, days_interval),
{
    let back: i64 = -(days_interval as i64) * DAY;
    let start_date: String = now.shifted_date(back, QUERY_DATE);
    let end_date: String = now.shifted_date(DAY, QUERY_DATE);
    dated_request(page, api_key, start_date, end_date)
}

/// Adds the identifiers of `pages` to `set`.
fn merge(set: &mut HashSet<u32>, pages: &Vec<Vec<u32>>)
    ensures
        final(set)@ == old(set)@.union(joined(pages@).to_set()),
{
    let ghost start: Set<u32> = set@;
    let ghost parts: Seq<Seq<u32>> = Seq::new(pages@.len(), |k: int| pages@[k]@);
    for at in 0..pages.len()
        invariant
            parts == Seq::new(pages@.len(), |k: int| pages@[k]@),
            set@ == start.union(parts.take(at as int).flatten().to_set()),
    {
        let found: &Vec<u32> = &pages[at];
        let ghost before: Set<u32> = set@;
        for k in 0..found.len()
            invariant
                set@ == before.union(found@.take(k as int).to_set()),
        {
            set.insert(found[k]);
            proof {
                assert(found@.take(k + 1) =~= found@.take(k as int).push(found[k as int]));
                found@.take(k as int).lemma_push_to_set_commute(found[k as int]);
            }
        }
        proof {
            assert(found@.take(found.len() as int) =~= found@);
            assert(parts.take(at + 1) =~= parts.take(at as int).push(found@));
            parts.take(at as int).lemma_flatten_push(found@);
            vstd::seq_lib::seq_to_set_distributes_over_add(
                parts.take(at as int).flatten(),
                found@,
            );
        }
    }
    proof {
        assert(parts.take(pages@.len() as int) =~= parts);
    }
}

/// The members of `set`, each once, in the order in which the set happens
/// to hold them.
fn members(set: &HashSet<u32>) -> (ids: Vec<u32>)
    ensures
        ids@.no_duplicates(),
        ids@.to_set() == set@,
{
    let mut ids: Vec<u32> = Vec::new();
    let ghost keys: Seq<u32> = set.iter().remaining().unref();
    for id in it: set.iter()
        invariant
            it.seq().unref() == keys,
            ids@ == keys.take(it.index() as int),
    {
        ids.push(*id);
    }
    proof {
        assert(keys.take(keys.len() as int) =~= keys);
    }
    ids
}

/// Merges the fetched pages of one sync, given first page first, into the
/// identifiers that changed: each identifier once, however many pages
/// report it, in no particular order. A sync of a dataset without a change
/// feed is refused; one page that failed fails the sync with that page's
/// error, and nothing of the other pages is handed out.
pub fn harvest_sync(dataset: Dataset, pages: Vec<Result<Vec<u32>, Error>>) -> (ids: Result<
    Vec<u32>,
    Error,
>)
    ensures
        dataset.change_feed() is None ==> ids matches Err(Error::InvalidDataset),
        dataset.change_feed() is Some ==> match first_failure(pages@) {
            Some(error) => ids == Err::<Vec<u32>, Error>(error),
            None => ids matches Ok(merged) && merged@.no_duplicates() && merged@.to_set() == joined(
                successes(pages@),
            ).to_set(),
        },
{
    match url(&dataset) {
        Err(error) => {
            return Err(error);
        },
        Ok(_) => {},
    }
    match all_or_first_failure(pages) {
        Ok(found) => {
            let mut set: HashSet<u32> = HashSet::new();
            merge(&mut set, &found);
            Ok(members(&set))
        },
        Err(error) => Err(error),
    }
}

/// How far a sync has come.
pub struct CollectorView {
    /// The identifiers of the pages fetched so far.
    pub ids: Set<u32>,
    /// The pages after the first, in the waves in which they are fetched.
    pub waves: Seq<Seq<u16>>,
    /// How many waves have been fetched without a failure.
    pub fetched: nat,
    /// The failure that ended the sync, if one did.
    pub failure: Option<Error>,
}

impl CollectorView {
    /// The pages to fetch next: none once a wave has failed or all are
    /// fetched.
    pub open spec fn pending(self) -> Option<Seq<u16>> {
        if self.failure is None && self.fetched < self.waves.len() {
            Some(self.waves[self.fetched as int])
        } else {
            None
        }
    }

    /// The state after the pending wave has ended with `pages`, one outcome
    /// for each page of the wave: where every page was fetched, their
    /// identifiers are merged and the next wave becomes pending; otherwise
    /// the sync has failed with the first failure of the wave. A report
    /// without a failure that does not hold one outcome for each page of
    /// the wave fails the sync as well: a page of which nothing is known
    /// has not been fetched. Without a pending wave the state stays.
    pub open spec fn record(self, pages: Seq<Result<Vec<u32>, Error>>) -> CollectorView {
        match self.pending() {
            None => self,
            Some(wave) => match first_failure(pages) {
                Some(error) => CollectorView { failure: Some(error), ..self },
                None => if pages.len() == wave.len() {
                    CollectorView {
                        ids: self.ids.union(joined(successes(pages)).to_set()),
                        fetched: self.fetched + 1,
                        ..self
                    }
                } else {
                    CollectorView { failure: Some(Error::ReportMismatch), ..self }
                },
            },
        }
    }

    /// Whether the sync has ended, in failure or with every wave fetched.
    pub open spec fn ended(self) -> bool {
        self.pending() is None
    }
}

/// A sync that has failed stays failed: no further wave becomes pending,
/// and whatever is recorded changes nothing.
pub proof fn lemma_failed_sync_stays_failed(
    state: CollectorView,
    pages: Seq<Result<Vec<u32>, Error>>,
)
    requires
        state.failure is Some,
    ensures
        state.pending() is None,
        state.record(pages) == state,
{
}

/// Merging is by identifier, not by page: a page that only repeats
/// identifiers that are already held changes nothing but the progress.
pub proof fn lemma_repeated_identifiers_collapse(
    state: CollectorView,
    pages: Seq<Result<Vec<u32>, Error>>,
)
    requires
        state.pending() matches Some(wave) && pages.len() == wave.len(),
        first_failure(pages) is None,
        joined(successes(pages)).to_set().subset_of(state.ids),
    ensures
        state.record(pages).ids == state.ids,
        state.record(pages).fetched == state.fetched + 1,
{
}

/// A sync that has not failed has merged every page that it was told of:
/// recording a wave in full, each page fetched, moves on to the next wave
/// with the identifiers of all those pages held.
pub proof fn lemma_recorded_pages_are_held(
    state: CollectorView,
    pages: Seq<Result<Vec<u32>, Error>>,
    page: int,
    id: u32,
)
    requires
        state.pending() matches Some(wave) && pages.len() == wave.len(),
        first_failure(pages) is None,
        0 <= page < pages.len(),
        pages[page]->Ok_0@.contains(id),
    ensures
        state.record(pages).failure is None,
        state.record(pages).ids.contains(id),
{
    let parts: Seq<Seq<u32>> = Seq::new(pages.len(), |k: int| successes(pages)[k]@);
    assert(parts[page].contains(id));
    lemma_flatten_holds(parts, page, id);
}

/// What one of the parts holds, the parts joined hold.
proof fn lemma_flatten_holds(parts: Seq<Seq<u32>>, part: int, id: u32)
    requires
        0 <= part < parts.len(),
        parts[part].contains(id),
    ensures
        parts.flatten().contains(id),
    decreases parts.len(),
{
    let head = parts.drop_last();
    assert(parts =~= head.push(parts.last()));
    head.lemma_flatten_push(parts.last());
    if part == parts.len() - 1 {
        let at = choose|at: int| 0 <= at < parts.last().len() && parts.last()[at] == id;
        assert(parts.flatten()[head.flatten().len() + at] == id);
    } else {
        lemma_flatten_holds(head, part, id);
        let at = choose|at: int| 0 <= at < head.flatten().len() && head.flatten()[at] == id;
        assert(parts.flatten()[at] == id);
    }
}

/// Walks a change feed wave by wave. The caller fetches the first page to
/// learn how many pages there are, then fetches the pending pages
/// concurrently, waits for all of them and records what came back; only
/// then are the next pages handed out, and none are after a failure.
pub struct Collector {
    set: HashSet<u32>,
    waves: Vec<Vec<u16>>,
    fetched: usize,
    failure: Option<Error>,
}

impl View for Collector {
    type V = CollectorView;

    closed spec fn view(&self) -> CollectorView {
        CollectorView {
            ids: self.set@,
            waves: page_groups(self.waves@),
            fetched: self.fetched as nat,
            failure: self.failure,
        }
    }
}

impl Collector {
    /// A collector that holds the identifiers of the first page and has all
    /// pages after it still to fetch.
    pub fn new(first_page: Vec<u32>, total_pages: u16) -> (collector: Collector)
        ensures
            collector@ == (CollectorView {
                ids: first_page@.to_set(),
                waves: chunks(later_pages(total_pages), PAGE_WAVE_CAPACITY as nat),
                fetched: 0,
                failure: None,
            }),
    {
        let mut set: HashSet<u32> = HashSet::new();
        let mut pages: Vec<Vec<u32>> = Vec::new();
        pages.push(first_page);
        merge(&mut set, &pages);
        proof {
            let parts: Seq<Seq<u32>> = Seq::new(1, |k: int| pages@[k]@);
            assert(parts =~= seq![first_page@]);
            seq![first_page@].lemma_flatten_one_element();
            assert(set@ =~= first_page@.to_set());
        }
        Collector { set, waves: page_waves(total_pages), fetched: 0, failure: None }
    }

    /// The pages to fetch next, if there are any.
    pub fn pending(&self) -> (wave: Option<&Vec<u16>>)
        ensures
            self@.pending() matches Some(pages) ==> (wave matches Some(found) && found@ == pages),
            self@.pending() is None ==> wave is None,
    {
        if self.failure.is_none() && self.fetched < self.waves.len() {
            Some(&self.waves[self.fetched])
        } else {
            None
        }
    }

    /// Takes note of what fetching the pending pages gave.
    pub fn record(&mut self, pages: Vec<Result<Vec<u32>, Error>>)
        ensures
            final(self)@ == old(self)@.record(pages@),
    {
        if self.failure.is_none() && self.fetched < self.waves.len() {
            let reported: usize = pages.len();
            match all_or_first_failure(pages) {
                Ok(found) => {
                    if reported == self.waves[self.fetched].len() {
                        merge(&mut self.set, &found);
                        self.fetched = self.fetched + 1;
                    } else {
                        self.failure = Some(Error::ReportMismatch);
                    }
                },
                Err(error) => {
                    self.failure = Some(error);
                },
            }
        }
    }

    /// The result of the sync, once no wave is pending: the failure, or
    /// the identifiers of all pages, each once and in no particular order.
    pub fn into_result(self) -> (result: Option<Result<Vec<u32>, Error>>)
        ensures
            self@.pending() is Some ==> result is None,
            self@.failure matches Some(error) ==> result == Some(Err::<Vec<u32>, Error>(error)),
            self@.pending() is None && self@.failure is None ==> (result matches Some(Ok(ids))
                && ids@.no_duplicates() && ids@.to_set() == self@.ids),
    {
        match self.failure {
            Some(error) => Some(Err(error)),
            None => if self.fetched < self.waves.len() {
                None
            } else {
                Some(Ok(members(&self.set)))
            },
        }
    }
}

} // verus!
