use harvester::{
    api_key, dated_request, harvest_sync, page_waves, queue_url, request, url, Config, Dataset,
    Error, Moment,
};

fn sorted(mut ids: Vec<u32>) -> Vec<u32> {
    ids.sort();
    ids
}

#[test]
fn three_datasets_have_a_change_feed() {
    assert_eq!(url(&Dataset::Movies), Ok("https://api.themoviedb.org/3/movie/changes"));
    assert_eq!(url(&Dataset::People), Ok("https://api.themoviedb.org/3/person/changes"));
    assert_eq!(url(&Dataset::TvShows), Ok("https://api.themoviedb.org/3/tv/changes"));
}

#[test]
fn the_other_datasets_cannot_be_synced() {
    for dataset in [Dataset::Seasons, Dataset::Episodes, Dataset::Networks, Dataset::Companies] {
        assert_eq!(url(&dataset), Err(Error::InvalidDataset));
        assert_eq!(harvest_sync(dataset, vec![Ok(vec![1])]), Err(Error::InvalidDataset));
    }
}

#[test]
fn a_feed_of_one_page_needs_no_further_request() {
    assert_eq!(page_waves(0), Vec::<Vec<u16>>::new());
    assert_eq!(page_waves(1), Vec::<Vec<u16>>::new());
}

#[test]
fn later_pages_start_at_two() {
    assert_eq!(page_waves(2), vec![vec![2]]);
    assert_eq!(page_waves(4), vec![vec![2, 3, 4]]);
}

#[test]
fn pages_go_twenty_five_to_a_wave() {
    assert_eq!(page_waves(26), vec![(2..=26).collect::<Vec<u16>>()]);
    assert_eq!(page_waves(27), vec![(2..=26).collect::<Vec<u16>>(), vec![27]]);
    let waves = page_waves(u16::MAX);
    assert_eq!(waves.len(), 2622);
    assert_eq!(waves[2621], (65_527..=65_535).collect::<Vec<u16>>());
    let all: Vec<u16> = waves.into_iter().flatten().collect();
    assert_eq!(all, (2..=u16::MAX).collect::<Vec<u16>>());
}

#[test]
fn identifier_on_two_pages_appears_once() {
    let merged = harvest_sync(Dataset::Movies, vec![Ok(vec![1, 2, 3]), Ok(vec![3, 4]), Ok(vec![1])]);
    assert_eq!(sorted(merged.unwrap()), vec![1, 2, 3, 4]);
}

#[test]
fn identifier_twice_on_one_page_appears_once() {
    let merged = harvest_sync(Dataset::People, vec![Ok(vec![7, 7, 7])]);
    assert_eq!(merged, Ok(vec![7]));
}

#[test]
fn no_pages_merge_to_nothing() {
    assert_eq!(harvest_sync(Dataset::TvShows, Vec::new()), Ok(Vec::new()));
    assert_eq!(harvest_sync(Dataset::TvShows, vec![Ok(Vec::new())]), Ok(Vec::new()));
}

#[test]
fn one_failed_page_fails_the_sync() {
    let failed = Error::Transport(String::from("status 500"));
    let later = Error::Decode(String::from("truncated"));
    let pages = vec![Ok(vec![1, 2]), Err(failed.clone()), Ok(vec![3]), Err(later)];
    assert_eq!(harvest_sync(Dataset::Movies, pages), Err(failed));
}

#[test]
fn query_window_opens_days_back_and_closes_tomorrow() {
    let now = Moment::from_unix(1_709_280_000).unwrap();
    let query = request(3, "secret", &now, 7);
    let pairs: Vec<(&str, &str)> =
        query.iter().map(|p| (p.name.as_str(), p.value.as_str())).collect();
    assert_eq!(
        pairs,
        vec![
            ("api_key", "secret"),
            ("page", "3"),
            ("start_date", "2024-02-23"),
            ("end_date", "2024-03-02"),
        ]
    );
}

#[test]
fn query_window_bounds() {
    let now = Moment::from_unix(1_709_280_000).unwrap();
    let query = request(u16::MAX, "", &now, 0);
    assert_eq!(query[0].value, "");
    assert_eq!(query[1].value, "65535");
    assert_eq!(query[2].value, "2024-03-01");
    let query = request(1, "k", &now, 255);
    assert_eq!(query[2].value, "2023-06-20");
    assert_eq!(query[3].value, "2024-03-02");
    let query = request(1, "k", &Moment::from_unix(0).unwrap(), 255);
    assert_eq!(query[2].value, "1969-04-21");
    assert_eq!(query[3].value, "1970-01-02");
}

#[test]
fn configuration_hands_out_what_it_was_given() {
    let config = Config::new(String::from("key"), String::from("https://queue.example/1"));
    assert_eq!(api_key(&config), "key");
    assert_eq!(queue_url(&config), "https://queue.example/1");
}

#[test]
fn query_takes_the_dates_as_they_are_given() {
    let query = dated_request(12, "secret", String::from("2024-02-23"), String::from("2024-03-02"));
    let pairs: Vec<(&str, &str)> =
        query.iter().map(|p| (p.name.as_str(), p.value.as_str())).collect();
    assert_eq!(
        pairs,
        vec![
            ("api_key", "secret"),
            ("page", "12"),
            ("start_date", "2024-02-23"),
            ("end_date", "2024-03-02"),
        ]
    );
}
