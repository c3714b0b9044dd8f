//! The bulk export: where a dataset's daily snapshot files are found, and
//! what is made of their contents once they have been fetched.

use vstd::prelude::*;
use crate::clock::{utc_hour, utc_text, Moment, DAY, SNAPSHOT_DATE};
use crate::dataset::Dataset;
use crate::dedup::{ordered, sorted_unique};
use crate::error::{all_or_first_failure, first_failure, successes, Error};
use crate::message::{batches, create_messages, message_views, Message};

verus! {

/// Where the publisher keeps the snapshot files.
pub const HARVESTER_URL: &'static str = "http://files.tmdb.org/p/exports/";

/// The hour of the UTC day from which the day's own snapshot is published.
pub const PUBLICATION_HOUR: u32 = 8;

/// The instant whose date names the newest published snapshot at the
/// instant `now`: `now` itself from the publication hour on, and the same
/// time on the day before until then.
pub open spec fn processing_instant(now: int) -> int {
    if utc_hour(now) < PUBLICATION_HOUR {
        now - DAY
    } else {
        now
    }
}

/// The date in the file name of the newest published snapshot at `now`.
pub open spec fn processing_date_text(now: int) -> Seq<char> {
    utc_text(processing_instant(now), SNAPSHOT_DATE@)
}

/// The address of a snapshot file: the `adult_` prefix marks the snapshot
/// of adult content, `date` is the publication date.
pub open spec fn snapshot_url_text(dataset: Dataset, adult: bool, date: Seq<char>) -> Seq<char> {
    HARVESTER_URL@ + (if adult {
        "adult_"@
    } else {
        ""@
    }) + dataset.slug() + date + ".json.gz"@
}

/// The addresses of all snapshot files of `dataset` published under `date`:
/// the standard one, then the adult one where the dataset has it.
pub open spec fn export_url_texts(dataset: Dataset, date: Seq<char>) -> Seq<Seq<char>> {
    if dataset.has_adult_snapshot() {
        seq![snapshot_url_text(dataset, false, date), snapshot_url_text(dataset, true, date)]
    } else {
        seq![snapshot_url_text(dataset, false, date)]
    }
}

/// The publication date of the newest snapshot at `now`: the date of `now`
/// from 08:00 UTC on, the date of the day before until then.
pub fn processing_date_at(now: &Moment) -> (date: String)
    ensures
        date@ == processing_date_text(now@),
        utc_hour(now@) < 8 ==> date@ == utc_text(now@ - 86_400, SNAPSHOT_DATE@),
        utc_hour(now@) >= 8 ==> date@ == utc_text(now@, SNAPSHOT_DATE@),
{
    if now.hour() < PUBLICATION_HOUR {
        now.shifted_date(-DAY, SNAPSHOT_DATE)
    } else {
        now.shifted_date(0, SNAPSHOT_DATE)
    }
}

/// The publication date of the newest snapshot by the system clock; none
/// where the clock shows an instant that `Moment` does not admit.
pub fn processing_date() -> (date: Option<String>)
    ensures
        date matches Some(text) ==> exists|now: int|
            Moment::holds(now) && text@ == #[trigger] processing_date_text(now),
{
    match Moment::now() {
        Some(now) => {
            let text: String = processing_date_at(&now);
            Some(text)
        },
        None => None,
    }
}

/// The address of the snapshot of `dataset` that was published under
/// `date`; with `adult`, of its snapshot of adult content.
pub fn dated_snapshot_url(dataset: Dataset, adult: bool, date: &str) -> (url: String)
    ensures
        url@ == snapshot_url_text(dataset, adult, date@),
{
    let mut url: String = String::from_str(HARVESTER_URL);
    url.append(if adult {
        "adult_"
    } else {
        ""
    });
    url.append(dataset.as_ref());
    url.append(date);
    url.append(".json.gz");
    url
}

/// The address of the snapshot of `dataset` that is the newest at `now`.
pub fn snapshot_url(dataset: Dataset, adult: bool, now: &Moment) -> (url: String)
    ensures
        url@ == snapshot_url_text(dataset, adult, processing_date_text(now@)),
{
    let date: String = processing_date_at(now);
    dated_snapshot_url(dataset, adult, date.as_str())
}

/// The address of the newest snapshot of `dataset` by the system clock;
/// none where the clock shows an instant that `Moment` does not admit.
pub fn harvester_url(dataset: Dataset, adult: bool) -> (url: Option<String>)
    ensures
        url matches Some(text) ==> exists|now: int|
            Moment::holds(now) && text@ == snapshot_url_text(
                dataset,
                adult,
                #[trigger] processing_date_text(now),
            ),
{
    match Moment::now() {
        Some(now) => {
            let text: String = snapshot_url(dataset, adult, &now);
            assert(Moment::holds(now@) && text@ == snapshot_url_text(
                dataset,
                adult,
                processing_date_text(now@),
            ));
            Some(text)
        },
        None => None,
    }
}

/// The address of the newest snapshot of `dataset` by the system clock;
/// none where the clock shows an instant that `Moment` does not admit.
pub fn exporter_url(dataset: Dataset, adult: bool) -> (url: Option<String>)
    ensures
        url matches Some(text) ==> exists|now: int|
            Moment::holds(now) && text@ == snapshot_url_text(
                dataset,
                adult,
                #[trigger] processing_date_text(now),
            ),
{
    harvester_url(dataset, adult)
}

/// The views of a sequence of strings, in order.
pub open spec fn texts(strings: Seq<String>) -> Seq<Seq<char>> {
    Seq::new(strings.len(), |k: int| strings[k]@)
}

/// The snapshot files to fetch for an export of `dataset` at `now`: two for
/// movies, TV shows and people, the standard file and then the adult one,
/// and the standard file alone for every other dataset.
pub fn export_urls(dataset: Dataset, now: &Moment) -> (urls: Vec<String>)
    ensures
        texts(urls@) == export_url_texts(dataset, processing_date_text(now@)),
        dataset.has_adult_snapshot() ==> urls.len() == 2,
        !dataset.has_adult_snapshot() ==> urls.len() == 1,
{
    let mut urls: Vec<String> = Vec::new();
    urls.push(snapshot_url(dataset, false, now));
    if dataset.adult_snapshot_exists() {
        urls.push(snapshot_url(dataset, true, now));
    }
    urls
}

/// The identifiers of a sequence of fetched files, file after file.
pub open spec fn joined(files: Seq<Vec<u32>>) -> Seq<u32> {
    Seq::new(files.len(), |k: int| files[k]@).flatten()
}

/// Collects the identifiers of one snapshot file from its decoded records,
/// given in file order. One record that could not be read or decoded fails
/// the file with that record's error: no partial list is handed out.
pub fn extract(records: Vec<Result<u32, Error>>) -> (ids: Result<Vec<u32>, Error>)
    ensures
        first_failure(records@) matches Some(error) ==> ids == Err::<Vec<u32>, Error>(error),
        first_failure(records@) is None ==> (ids matches Ok(found) && found@ == successes(
            records@,
        )),
{
    all_or_first_failure(records)
}

/// Joins the identifiers of `files`, file after file.
pub fn join(files: Vec<Vec<u32>>) -> (all: Vec<u32>)
    ensures
        all@ == joined(files@),
{
    let ghost given: Seq<Vec<u32>> = files@;
    let ghost parts: Seq<Seq<u32>> = Seq::new(given.len(), |k: int| given[k]@);
    let mut all: Vec<u32> = Vec::new();
    for file in it: files
        invariant
            it.seq() == given,
            parts == Seq::new(given.len(), |k: int| given[k]@),
            all@ == parts.take(it.index() as int).flatten(),
    {
        let ghost at: int = it.index() as int;
        let mut ids: Vec<u32> = file;
        proof {
            assert(parts.take(at + 1) =~= parts.take(at).push(ids@));
            parts.take(at).lemma_flatten_push(ids@);
        }
        all.append(&mut ids);
    }
    proof {
        assert(parts.take(given.len() as int) =~= parts);
    }
    all
}

/// Joins the identifiers of the fetched snapshot files of one export, given
/// in the order of their addresses. One file that failed fails the export
/// with that file's error. Nothing is ordered or removed here: an
/// identifier that stands in two files stands twice in the result.
pub fn harvest_export(fetched: Vec<Result<Vec<u32>, Error>>) -> (ids: Result<Vec<u32>, Error>)
    ensures
        first_failure(fetched@) matches Some(error) ==> ids == Err::<Vec<u32>, Error>(error),
        first_failure(fetched@) is None ==> (ids matches Ok(all) && all@ == joined(
            successes(fetched@),
        )),
{
    match all_or_first_failure(fetched) {
        Ok(files) => Ok(join(files)),
        Err(error) => Err(error),
    }
}

/// Turns the fetched snapshot files of one export into messages: the files'
/// identifiers are joined, ordered ascending with each identifier once,
/// and batched. One file that failed fails the export.
pub fn harvest(dataset: Dataset, fetched: Vec<Result<Vec<u32>, Error>>) -> (made: Result<
    Vec<Message>,
    Error,
>)
    ensures
        first_failure(fetched@) matches Some(error) ==> made == Err::<Vec<Message>, Error>(error),
        first_failure(fetched@) is None ==> (made matches Ok(messages) && message_views(messages@)
            == batches(dataset, ordered(joined(successes(fetched@))))),
{
    match harvest_export(fetched) {
        Ok(ids) => {
            let sorted: Vec<u32> = sorted_unique(&ids);
            Ok(create_messages(dataset, sorted))
        },
        Err(error) => Err(error),
    }
}

} // verus!
