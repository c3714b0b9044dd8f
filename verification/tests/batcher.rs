use harvester::{create_messages, Dataset, Message};

fn run(count: u32) -> Vec<Message> {
    create_messages(Dataset::Movies, (0..count).collect())
}

#[test]
fn no_identifiers_give_no_message() {
    assert_eq!(run(0), Vec::<Message>::new());
}

#[test]
fn one_identifier_gives_one_message() {
    assert_eq!(run(1), vec![Message { dataset: Dataset::Movies, ids: vec![0] }]);
}

#[test]
fn fifty_identifiers_fill_one_message() {
    let messages = run(50);
    assert_eq!(messages.len(), 1);
    assert_eq!(messages[0].ids, (0..50).collect::<Vec<u32>>());
}

#[test]
fn fifty_one_identifiers_spill_into_a_second_message() {
    let messages = run(51);
    assert_eq!(messages.len(), 2);
    assert_eq!(messages[0].ids.len(), 50);
    assert_eq!(messages[1].ids, vec![50]);
}

#[test]
fn message_count_is_the_ceiling_of_a_fiftieth() {
    for count in [0u32, 1, 49, 50, 51, 99, 100, 101, 120, 1234] {
        let messages = run(count);
        assert_eq!(messages.len() as u32, (count + 49) / 50);
        let mut joined: Vec<u32> = Vec::new();
        for message in &messages {
            assert!(1 <= message.ids.len() && message.ids.len() <= 50);
            assert_eq!(message.dataset, Dataset::Movies);
            joined.extend(message.ids.iter());
        }
        assert_eq!(joined, (0..count).collect::<Vec<u32>>());
    }
}

#[test]
fn batching_keeps_input_order_and_duplicates() {
    let messages = create_messages(Dataset::People, vec![9, 3, 9, 1]);
    assert_eq!(messages, vec![Message { dataset: Dataset::People, ids: vec![9, 3, 9, 1] }]);
}
