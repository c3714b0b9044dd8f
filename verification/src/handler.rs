//! What one request asks for, once the identifiers have been harvested.

use vstd::prelude::*;
use crate::dataset::Action;
use crate::dedup::{ordered, sorted_unique};
use crate::message::{batches, create_messages, message_views, Message, MessageView};

verus! {

/// The messages that answer `action` when `harvested` is what the harvest
/// gave. An export is ordered first, ascending and each identifier once; a
/// sync is batched in the order in which its identifiers came.
pub open spec fn answer(action: Action, harvested: Seq<u32>) -> Seq<MessageView> {
    match action {
        Action::Export(dataset) => batches(dataset, ordered(harvested)),
        Action::Sync(dataset, _) => batches(dataset, harvested),
    }
}

/// Turns the identifiers harvested for `action` into the messages to
/// deliver.
pub fn handler(action: Action, harvested: Vec<u32>) -> (messages: Vec<Message>)
    ensures
        message_views(messages@) == answer(action, harvested@),
{
    match action {
        Action::Export(dataset) => {
            let sorted: Vec<u32> = sorted_unique(&harvested);
            create_messages(dataset, sorted)
        },
        Action::Sync(dataset, _) => create_messages(dataset, harvested),
    }
}

} // verus!
