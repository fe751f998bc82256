//! Sessions side by side.
//!
//! Every session has relays of its own, and a relay knows of nothing but what
//! it is given. This module lets the relays of any number of sessions work at
//! the same time, their inputs arriving in any order, and proves that a
//! session gets to see its own traffic only: what is written to its shell is
//! what its own client sent, and what is sent to its client is what its own
//! shell put out.

use vstd::prelude::*;
use crate::terminal::relay::{
    reader_chunk, writer_step, InboundView, MessageView, WriterStepView,
};
use crate::terminal::stream::{chunks_from, writes_from, PtyRead};

verus! {

/// A message that arrived on the client channel of session `id`.
pub struct Arrival {
    pub id: u64,
    pub message: MessageView,
}

/// A read from the pseudo-terminal of session `id`.
pub struct Output {
    pub id: u64,
    pub read: PtyRead,
}

/// Bytes handed out by a relay of session `id`.
pub struct Delivery {
    pub id: u64,
    pub bytes: Seq<u8>,
}

/// The messages of `traffic` that arrived for session `id`, in order.
pub open spec fn arrivals_for(id: u64, traffic: Seq<Arrival>) -> Seq<MessageView>
    decreases traffic.len(),
{
    if traffic.len() == 0 {
        Seq::empty()
    } else if traffic.first().id == id {
        seq![traffic.first().message] + arrivals_for(id, traffic.drop_first())
    } else {
        arrivals_for(id, traffic.drop_first())
    }
}

/// The reads of `traffic` that were made for session `id`, in order.
pub open spec fn outputs_for(id: u64, traffic: Seq<Output>) -> Seq<PtyRead>
    decreases traffic.len(),
{
    if traffic.len() == 0 {
        Seq::empty()
    } else if traffic.first().id == id {
        seq![traffic.first().read] + outputs_for(id, traffic.drop_first())
    } else {
        outputs_for(id, traffic.drop_first())
    }
}

/// The bytes of `deliveries` that were handed out for session `id`, in order.
pub open spec fn delivered_to(id: u64, deliveries: Seq<Delivery>) -> Seq<Seq<u8>>
    decreases deliveries.len(),
{
    if deliveries.len() == 0 {
        Seq::empty()
    } else if deliveries.first().id == id {
        seq![deliveries.first().bytes] + delivered_to(id, deliveries.drop_first())
    } else {
        delivered_to(id, deliveries.drop_first())
    }
}

/// The writes that the inbound writers of all sessions ask for, in order,
/// when `traffic` arrives. Each message goes to the writer of its session;
/// `ended` holds the sessions whose writer has ended before.
pub open spec fn writes_side_by_side(ended: Set<u64>, traffic: Seq<Arrival>) -> Seq<Delivery>
    decreases traffic.len(),
{
    if traffic.len() == 0 {
        Seq::empty()
    } else {
        let id = traffic.first().id;
        let rest = traffic.drop_first();
        match writer_step(ended.contains(id), InboundView::Message(traffic.first().message)) {
            WriterStepView::Write(bytes) => seq![Delivery { id, bytes }] + writes_side_by_side(
                ended,
                rest,
            ),
            WriterStepView::Skip => writes_side_by_side(ended, rest),
            WriterStepView::Stop => writes_side_by_side(ended.insert(id), rest),
        }
    }
}

/// The chunks that the reader relays of all sessions hand out, in order, when
/// the reads of `traffic` are made. Each read goes to the reader of its
/// session; `ended` holds the sessions whose reader has ended before.
pub open spec fn chunks_side_by_side(ended: Set<u64>, traffic: Seq<Output>) -> Seq<Delivery>
    decreases traffic.len(),
{
    if traffic.len() == 0 {
        Seq::empty()
    } else {
        let id = traffic.first().id;
        let read = traffic.first().read;
        let rest = traffic.drop_first();
        match reader_chunk(ended.contains(id), read.buf, read.outcome) {
            Some(bytes) => seq![Delivery { id, bytes }] + chunks_side_by_side(ended, rest),
            None => chunks_side_by_side(ended.insert(id), rest),
        }
    }
}

proof fn lemma_delivered_to_cons(id: u64, head: Delivery, tail: Seq<Delivery>)
    ensures
        delivered_to(id, seq![head] + tail) == if head.id == id {
            seq![head.bytes] + delivered_to(id, tail)
        } else {
            delivered_to(id, tail)
        },
{
    let all = seq![head] + tail;
    assert(all.first() == head);
    assert(all.drop_first() =~= tail);
}

/// No session sees the input of another. However the messages of many
/// clients are mixed in time, what is written to the shell of a session is
/// what its writer makes of the messages of its own client, in their order.
pub proof fn lemma_input_is_isolated(id: u64, ended: Set<u64>, traffic: Seq<Arrival>)
    ensures
        delivered_to(id, writes_side_by_side(ended, traffic)) == writes_from(
            ended.contains(id),
            arrivals_for(id, traffic),
        ),
    decreases traffic.len(),
{
    if traffic.len() > 0 {
        let first = traffic.first();
        let rest = traffic.drop_first();
        let own = arrivals_for(id, rest);
        match writer_step(ended.contains(first.id), InboundView::Message(first.message)) {
            WriterStepView::Write(bytes) => {
                lemma_input_is_isolated(id, ended, rest);
                lemma_delivered_to_cons(
                    id,
                    Delivery { id: first.id, bytes },
                    writes_side_by_side(ended, rest),
                );
            },
            WriterStepView::Skip => {
                lemma_input_is_isolated(id, ended, rest);
            },
            WriterStepView::Stop => {
                lemma_input_is_isolated(id, ended.insert(first.id), rest);
            },
        }
        if first.id == id {
            assert((seq![first.message] + own).first() == first.message);
            assert((seq![first.message] + own).drop_first() =~= own);
        }
    }
}

/// No session sees the output of another. However the reads from many
/// shells are mixed in time, the chunks handed out for a session are what its
/// reader makes of the reads from its own shell, in their order.
pub proof fn lemma_output_is_isolated(id: u64, ended: Set<u64>, traffic: Seq<Output>)
    ensures
        delivered_to(id, chunks_side_by_side(ended, traffic)) == chunks_from(
            ended.contains(id),
            outputs_for(id, traffic),
        ),
    decreases traffic.len(),
{
    if traffic.len() > 0 {
        let first = traffic.first();
        let rest = traffic.drop_first();
        let own = outputs_for(id, rest);
        match reader_chunk(ended.contains(first.id), first.read.buf, first.read.outcome) {
            Some(bytes) => {
                lemma_output_is_isolated(id, ended, rest);
                lemma_delivered_to_cons(
                    id,
                    Delivery { id: first.id, bytes },
                    chunks_side_by_side(ended, rest),
                );
            },
            None => {
                lemma_output_is_isolated(id, ended.insert(first.id), rest);
            },
        }
        if first.id == id {
            assert((seq![first.read] + own).first() == first.read);
            assert((seq![first.read] + own).drop_first() =~= own);
        }
    }
}

} // verus!
