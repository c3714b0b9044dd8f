use harvester::{
    dated_snapshot_url, export_urls, exporter_url, extract, harvest, harvest_export,
    harvester_url, processing_date, processing_date_at, snapshot_url, Dataset, Error, Message,
    Moment,
};

const BEFORE_EIGHT: i64 = 1_709_279_999; // 2024-03-01T07:59:59Z
const AT_EIGHT: i64 = 1_709_280_000; // 2024-03-01T08:00:00Z

fn at(secs: i64) -> Moment {
    Moment::from_unix(secs).unwrap()
}

#[test]
fn before_eight_the_date_is_yesterdays() {
    assert_eq!(processing_date_at(&at(BEFORE_EIGHT)), "02_29_2024");
    assert_eq!(processing_date_at(&at(1_709_251_200)), "02_29_2024");
}

#[test]
fn from_eight_on_the_date_is_todays() {
    assert_eq!(processing_date_at(&at(AT_EIGHT)), "03_01_2024");
    assert_eq!(processing_date_at(&at(1_709_251_200 + 86_399)), "03_01_2024");
}

#[test]
fn yesterday_can_lie_in_the_year_before() {
    assert_eq!(processing_date_at(&at(1_704_067_200)), "12_31_2023");
    assert_eq!(processing_date_at(&at(10_800)), "12_31_1969");
}

#[test]
fn the_last_moment_has_a_date() {
    assert_eq!(processing_date_at(&at(253_402_214_399)), "12_30_9999");
}

#[test]
fn moments_outside_the_range_are_refused() {
    assert!(Moment::from_unix(-1).is_none());
    assert!(Moment::from_unix(253_402_214_400).is_none());
    assert_eq!(at(0).unix(), 0);
    assert_eq!(at(253_402_214_399).unix(), 253_402_214_399);
}

#[test]
fn hour_counts_from_midnight_utc() {
    assert_eq!(at(0).hour(), 0);
    assert_eq!(at(BEFORE_EIGHT).hour(), 7);
    assert_eq!(at(AT_EIGHT).hour(), 8);
    assert_eq!(at(1_704_063_600).hour(), 23);
}

#[test]
fn the_clock_gives_a_moment_of_today() {
    let now = Moment::now().unwrap();
    assert!(now.unix() > 1_700_000_000);
    let date = processing_date().unwrap();
    assert_eq!(date.len(), 10);
    assert_eq!(&date[2..3], "_");
    assert_eq!(&date[5..6], "_");
}

#[test]
fn snapshot_address_is_built_from_its_parts() {
    assert_eq!(
        snapshot_url(Dataset::Movies, false, &at(AT_EIGHT)),
        "http://files.tmdb.org/p/exports/movie_ids_03_01_2024.json.gz"
    );
    assert_eq!(
        snapshot_url(Dataset::Movies, true, &at(BEFORE_EIGHT)),
        "http://files.tmdb.org/p/exports/adult_movie_ids_02_29_2024.json.gz"
    );
    assert_eq!(
        snapshot_url(Dataset::Companies, false, &at(AT_EIGHT)),
        "http://files.tmdb.org/p/exports/production_company_ids_03_01_2024.json.gz"
    );
}

#[test]
fn every_dataset_has_its_own_file_stem() {
    assert_eq!(Dataset::Movies.as_ref(), "movie_ids_");
    assert_eq!(Dataset::TvShows.as_ref(), "tv_series_ids_");
    assert_eq!(Dataset::Seasons.as_ref(), "seasons_ids_");
    assert_eq!(Dataset::Episodes.as_ref(), "episodes_ids_");
    assert_eq!(Dataset::People.as_ref(), "person_ids_");
    assert_eq!(Dataset::Networks.as_ref(), "tv_network_ids_");
    assert_eq!(Dataset::Companies.as_ref(), "production_company_ids_");
}

#[test]
fn every_dataset_has_its_own_label() {
    assert_eq!(Dataset::Movies.to_string(), "movies");
    assert_eq!(Dataset::TvShows.to_string(), "tv shows");
    assert_eq!(Dataset::Seasons.to_string(), "seasons");
    assert_eq!(Dataset::Episodes.to_string(), "episodes");
    assert_eq!(Dataset::People.to_string(), "people");
    assert_eq!(Dataset::Networks.to_string(), "networks");
    assert_eq!(Dataset::Companies.to_string(), "companies");
}

#[test]
fn addresses_by_the_clock_have_the_same_shape() {
    let url = harvester_url(Dataset::People, true).unwrap();
    assert!(url.starts_with("http://files.tmdb.org/p/exports/adult_person_ids_"));
    assert!(url.ends_with(".json.gz"));
    let url = exporter_url(Dataset::Seasons, false).unwrap();
    assert!(url.starts_with("http://files.tmdb.org/p/exports/seasons_ids_"));
    assert!(url.ends_with(".json.gz"));
}

#[test]
fn datasets_with_adult_content_have_two_files() {
    for dataset in [Dataset::Movies, Dataset::TvShows, Dataset::People] {
        let urls = export_urls(dataset, &at(AT_EIGHT));
        assert_eq!(urls.len(), 2);
        assert_eq!(urls[0], snapshot_url(dataset, false, &at(AT_EIGHT)));
        assert_eq!(urls[1], snapshot_url(dataset, true, &at(AT_EIGHT)));
        assert!(dataset.adult_snapshot_exists());
    }
}

#[test]
fn other_datasets_have_one_file() {
    for dataset in [Dataset::Seasons, Dataset::Episodes, Dataset::Networks, Dataset::Companies] {
        let urls = export_urls(dataset, &at(AT_EIGHT));
        assert_eq!(urls.len(), 1);
        assert_eq!(urls[0], snapshot_url(dataset, false, &at(AT_EIGHT)));
        assert!(!dataset.adult_snapshot_exists());
    }
}

#[test]
fn records_are_collected_in_file_order() {
    assert_eq!(extract(vec![Ok(5), Ok(3), Ok(3), Ok(1)]), Ok(vec![5, 3, 3, 1]));
    assert_eq!(extract(Vec::new()), Ok(Vec::new()));
}

#[test]
fn one_bad_record_fails_the_file() {
    let bad = Error::Decode(String::from("expected value at line 1 column 1"));
    let later = Error::Decode(String::from("later"));
    assert_eq!(extract(vec![Ok(5), Err(bad.clone()), Ok(3), Err(later)]), Err(bad));
}

#[test]
fn files_are_joined_without_ordering_or_removing() {
    assert_eq!(
        harvest_export(vec![Ok(vec![5, 3, 3, 1]), Ok(vec![2, 5])]),
        Ok(vec![5, 3, 3, 1, 2, 5])
    );
    assert_eq!(harvest_export(vec![Ok(vec![4])]), Ok(vec![4]));
    assert_eq!(harvest_export(Vec::new()), Ok(Vec::new()));
}

#[test]
fn one_failed_file_fails_the_export() {
    let failed = Error::Transport(String::from("connection refused"));
    assert_eq!(harvest_export(vec![Ok(vec![5, 3]), Err(failed.clone())]), Err(failed.clone()));
    assert_eq!(harvest(Dataset::Movies, vec![Err(failed.clone()), Ok(vec![2])]), Err(failed));
}

#[test]
fn harvest_orders_and_batches_what_was_fetched() {
    let made = harvest(Dataset::Movies, vec![Ok(vec![5, 3, 3, 1]), Ok(vec![2])]);
    assert_eq!(made, Ok(vec![Message { dataset: Dataset::Movies, ids: vec![1, 2, 3, 5] }]));
}

#[test]
fn harvest_batches_by_count_not_by_value() {
    let ids: Vec<u32> = (0..60).map(|k| k * 1000).rev().collect();
    let messages = harvest(Dataset::Networks, vec![Ok(ids)]).unwrap();
    assert_eq!(messages.len(), 2);
    assert_eq!(messages[0].ids, (0..50).map(|k| k * 1000).collect::<Vec<u32>>());
    assert_eq!(messages[1].ids, (50..60).map(|k| k * 1000).collect::<Vec<u32>>());
}

#[test]
fn snapshot_address_takes_the_date_as_it_is_given() {
    assert_eq!(
        dated_snapshot_url(Dataset::TvShows, true, "12_31_1999"),
        "http://files.tmdb.org/p/exports/adult_tv_series_ids_12_31_1999.json.gz"
    );
    assert_eq!(
        dated_snapshot_url(Dataset::Networks, false, ""),
        "http://files.tmdb.org/p/exports/tv_network_ids_.json.gz"
    );
}
