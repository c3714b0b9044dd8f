use harvester::{
    process_messages, queue, queue_outcome, wave_outcome, BatchFailure, Dataset, Error, Message,
    QueueEntry,
};

fn message(first: u32) -> Message {
    Message { dataset: Dataset::Movies, ids: vec![first, first + 1] }
}

fn failure(id: &str) -> BatchFailure {
    BatchFailure {
        id: String::from(id),
        code: String::from("InternalError"),
        message: None,
        sender_fault: false,
    }
}

#[test]
fn entry_id_names_dataset_first_and_last() {
    let entry =
        QueueEntry::try_from(Message { dataset: Dataset::Movies, ids: vec![7, 9, 11] }).unwrap();
    assert_eq!(entry.id, "movies-7-11");
}

#[test]
fn entry_of_a_single_identifier_names_it_twice() {
    let entry = QueueEntry::try_from(Message { dataset: Dataset::TvShows, ids: vec![7] }).unwrap();
    assert_eq!(entry.id, "tv shows-7-7");
}

#[test]
fn empty_message_makes_no_entry() {
    let made = QueueEntry::try_from(Message { dataset: Dataset::Movies, ids: Vec::new() });
    assert_eq!(made, Err(Error::EmptyMessage));
}

#[test]
fn entry_body_is_the_serialized_message() {
    let entry =
        QueueEntry::try_from(Message { dataset: Dataset::Movies, ids: vec![7, 9, 11] }).unwrap();
    assert_eq!(entry.body, "{\"dataset\":\"Movies\",\"ids\":[7,9,11]}");
}

#[test]
fn body_reads_back_as_json() {
    let all = [
        (Dataset::Movies, "Movies"),
        (Dataset::TvShows, "TvShows"),
        (Dataset::Seasons, "Seasons"),
        (Dataset::Episodes, "Episodes"),
        (Dataset::People, "People"),
        (Dataset::Networks, "Networks"),
        (Dataset::Companies, "Companies"),
    ];
    for (dataset, name) in all {
        let ids: Vec<u32> = vec![0, 10, 4_294_967_295];
        let body = Message { dataset, ids: ids.clone() }.body().unwrap();
        let value: serde_json::Value = serde_json::from_str(&body).unwrap();
        let mut expected = serde_json::Map::new();
        expected.insert(String::from("dataset"), serde_json::Value::from(name));
        expected.insert(String::from("ids"), serde_json::Value::from(ids));
        assert_eq!(value, serde_json::Value::Object(expected.clone()));
        assert_eq!(body, serde_json::to_string(&serde_json::Value::Object(expected)).unwrap());
    }
}

#[test]
fn body_of_one_identifier_has_no_comma() {
    let body = Message { dataset: Dataset::People, ids: vec![5] }.body().unwrap();
    assert_eq!(body, "{\"dataset\":\"People\",\"ids\":[5]}");
}

#[test]
fn no_messages_plan_no_wave() {
    assert_eq!(process_messages(Vec::new()), Ok(Vec::new()));
}

#[test]
fn ten_or_fewer_entries_make_one_call() {
    for count in 1..=10u32 {
        let waves = process_messages((0..count).map(message).collect()).unwrap();
        assert_eq!(waves.len(), 1);
        assert_eq!(waves[0].len(), 1);
        assert_eq!(waves[0][0].len() as u32, count);
    }
}

#[test]
fn twelve_entries_make_two_calls_of_ten_and_two() {
    let waves = process_messages((0..12).map(message).collect()).unwrap();
    assert_eq!(waves.len(), 1);
    assert_eq!(waves[0].len(), 2);
    assert_eq!(waves[0][0].len(), 10);
    assert_eq!(waves[0][1].len(), 2);
    assert_eq!(waves[0][0][0].id, "movies-0-1");
    assert_eq!(waves[0][1][1].id, "movies-11-12");
}

#[test]
fn five_hundred_and_one_calls_make_two_waves() {
    let waves = process_messages((0..5001).map(message).collect()).unwrap();
    assert_eq!(waves.len(), 2);
    assert_eq!(waves[0].len(), 500);
    assert_eq!(waves[1].len(), 1);
    assert_eq!(waves[1][0].len(), 1);
    assert_eq!(waves[1][0][0].id, "movies-5000-5001");
    for call in &waves[0] {
        assert_eq!(call.len(), 10);
    }
}

#[test]
fn one_empty_message_fails_the_whole_plan() {
    let mut messages: Vec<Message> = (0..25).map(message).collect();
    messages[17].ids.clear();
    assert_eq!(process_messages(messages), Err(Error::EmptyMessage));
}

#[test]
fn call_entries_follow_the_messages() {
    let call = queue(vec![message(3), message(8)]).unwrap();
    assert_eq!(call.len(), 2);
    assert_eq!(call[0].id, "movies-3-4");
    assert_eq!(call[1].id, "movies-8-9");
    assert_eq!(
        queue(vec![message(3), Message { dataset: Dataset::Movies, ids: Vec::new() }]),
        Err(Error::EmptyMessage)
    );
}

#[test]
fn call_without_failed_entries_succeeds() {
    assert_eq!(queue_outcome(Vec::new()), Ok(()));
}

#[test]
fn call_with_a_failed_entry_fails_with_the_entries() {
    let failed = vec![failure("movies-1-5")];
    assert_eq!(queue_outcome(failed.clone()), Err(Error::BatchResultErrorEntry(failed)));
}

#[test]
fn wave_of_successes_succeeds() {
    assert_eq!(wave_outcome(vec![Ok(()), Ok(()), Ok(())]), Ok(()));
    assert_eq!(wave_outcome(Vec::new()), Ok(()));
}

#[test]
fn one_failed_call_fails_the_wave() {
    let failed = Error::BatchResultErrorEntry(vec![failure("movies-1-5")]);
    let outcomes = vec![Ok(()), Err(failed.clone()), Ok(())];
    assert_eq!(wave_outcome(outcomes), Err(failed));
}

#[test]
fn wave_fails_with_its_first_failure() {
    let first = Error::Delivery(String::from("connection reset"));
    let second = Error::BatchResultErrorEntry(vec![failure("movies-1-5")]);
    assert_eq!(wave_outcome(vec![Ok(()), Err(first.clone()), Err(second)]), Err(first));
}

#[test]
fn failed_entries_convert_into_an_error() {
    let failed = vec![failure("a"), failure("b")];
    assert_eq!(Error::from(failed.clone()), Error::BatchResultErrorEntry(failed));
}

#[test]
fn errors_describe_themselves() {
    assert_eq!(Error::InvalidDataset.to_string(), "Invalid dataset for sync");
    assert_eq!(Error::EmptyMessage.to_string(), "cannot create a message from empty ids");
    assert_eq!(Error::Transport(String::from("timed out")).to_string(), "transport: timed out");
    assert_eq!(Error::Decode(String::from("bad gzip")).to_string(), "decode: bad gzip");
    assert_eq!(Error::Delivery(String::from("no route")).to_string(), "delivery: no route");
    assert_eq!(Error::Serialize.to_string(), "cannot serialize a message");
    assert_eq!(Error::ReportMismatch.to_string(), "the outcomes recorded do not match the wave");
    assert_eq!(
        Error::BatchResultErrorEntry(vec![failure("a")]).to_string(),
        "the queue reported failed entries"
    );
}

#[test]
fn body_of_no_identifiers_is_an_empty_array() {
    let body = Message { dataset: Dataset::Seasons, ids: Vec::new() }.body();
    assert_eq!(body, Ok(String::from("{\"dataset\":\"Seasons\",\"ids\":[]}")));
}

#[test]
fn the_first_message_without_an_entry_decides_the_error() {
    let mut messages: Vec<Message> = (0..30).map(message).collect();
    messages[29].ids.clear();
    messages[4].ids.clear();
    assert_eq!(process_messages(messages), Err(Error::EmptyMessage));
}

#[test]
fn entry_carries_the_body_that_it_is_given() {
    let message = Message { dataset: Dataset::Movies, ids: vec![7, 9, 11] };
    let entry = QueueEntry::with_body(&message, String::from("serialized")).unwrap();
    assert_eq!(entry.id, "movies-7-11");
    assert_eq!(entry.body, "serialized");
}

#[test]
fn empty_message_makes_no_entry_whatever_the_body() {
    let message = Message { dataset: Dataset::Movies, ids: Vec::new() };
    assert_eq!(QueueEntry::with_body(&message, String::from("{}")), Err(Error::EmptyMessage));
}
