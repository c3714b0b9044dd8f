//! Messages, and the batcher that cuts an identifier sequence into them.

use vstd::prelude::*;
use crate::chunks::{chunk, chunk_count, chunked, chunks, lemma_chunk_len, lemma_chunks_flatten};
use crate::dataset::Dataset;

verus! {

/// The most identifiers that one message carries.
pub const MESSAGE_CAPACITY: usize = 50;

/// A group of identifiers of one dataset, delivered downstream as a unit.
#[derive(Clone, Debug, PartialEq, Eq)]
pub struct Message {
    pub dataset: Dataset,
    pub ids: Vec<u32>,
}

/// What a message holds, as a mathematical value.
pub struct MessageView {
    pub dataset: Dataset,
    pub ids: Seq<u32>,
}

impl View for Message {
    type V = MessageView;

    open spec fn view(&self) -> MessageView {
        MessageView { dataset: self.dataset, ids: self.ids@ }
    }
}

impl MessageView {
    /// What the batcher guarantees of each message: at least one
    /// identifier and no more than the capacity.
    pub open spec fn is_batch(self) -> bool {
        1 <= self.ids.len() <= MESSAGE_CAPACITY
    }
}

/// The views of a sequence of messages, in order.
pub open spec fn message_views(messages: Seq<Message>) -> Seq<MessageView> {
    Seq::new(messages.len(), |k: int| messages[k]@)
}

/// The identifier groups of a sequence of messages, in order.
pub open spec fn message_ids(messages: Seq<MessageView>) -> Seq<Seq<u32>> {
    Seq::new(messages.len(), |k: int| messages[k].ids)
}

/// The messages that batching `ids` for `dataset` gives: consecutive groups
/// of `MESSAGE_CAPACITY` identifiers in input order, the last one shorter
/// where the count is no multiple of the capacity.
pub open spec fn batches(dataset: Dataset, ids: Seq<u32>) -> Seq<MessageView> {
    Seq::new(
        chunk_count(ids.len(), MESSAGE_CAPACITY as nat),
        |k: int| MessageView { dataset, ids: chunk(ids, MESSAGE_CAPACITY as nat, k) },
    )
}

/// Batching `n` identifiers gives the ceiling of `n / 50` messages, each
/// with one to fifty identifiers of the requested dataset; read in order,
/// the messages' identifiers are the input. No identifiers give no message.
pub proof fn lemma_batches_cover(dataset: Dataset, ids: Seq<u32>)
    ensures
        batches(dataset, ids).len() == (ids.len() + 49) / 50,
        ids.len() == 0 ==> batches(dataset, ids).len() == 0,
        forall|k: int|
            0 <= k < batches(dataset, ids).len() ==> {
                &&& (#[trigger] batches(dataset, ids)[k]).is_batch()
                &&& batches(dataset, ids)[k].dataset == dataset
            },
        message_ids(batches(dataset, ids)).flatten() == ids,
{
    let size: nat = MESSAGE_CAPACITY as nat;
    assert forall|k: int| 0 <= k < batches(dataset, ids).len() implies (#[trigger] batches(
        dataset,
        ids,
    )[k]).is_batch() by {
        lemma_chunk_len(ids, size, k);
    }
    lemma_chunks_flatten(ids, size);
    assert(message_ids(batches(dataset, ids)) =~= chunks(ids, size));
}

/// Cuts `ids` into messages for `dataset`: groups of fifty in input order,
/// then one shorter group for what is left. An empty input gives no message.
pub fn create_messages(dataset: Dataset, ids: Vec<u32>) -> (messages: Vec<Message>)
    ensures
        message_views(messages@) == batches(dataset, ids@),
        messages.len() == (ids.len() + 49) / 50,
        forall|k: int| 0 <= k < messages.len() ==> (#[trigger] messages[k])@.is_batch(),
        message_ids(message_views(messages@)).flatten() == ids@,
{
    let ghost input: Seq<u32> = ids@;
    let groups: Vec<Vec<u32>> = chunked(ids, MESSAGE_CAPACITY);
    let ghost cut: Seq<Vec<u32>> = groups@;
    let mut messages: Vec<Message> = Vec::new();
    for group in it: groups
        invariant
            it.seq() == cut,
            messages.len() == it.index(),
            forall|k: int|
                0 <= k < messages.len() ==> (#[trigger] messages[k])@ == (MessageView {
                    dataset,
                    ids: cut[k]@,
                }),
    {
        messages.push(Message { dataset, ids: group });
    }
    proof {
        lemma_batches_cover(dataset, input);
    }
    messages
}

} // verus!
