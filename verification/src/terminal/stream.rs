//! What the relays do to whole streams.
//!
//! The relays of [`relay`](crate::terminal::relay) decide one message or one
//! chunk at a time. This module hands each of them a whole sequence of
//! inputs, one after another and every delivery taken to succeed, and proves
//! what comes out: bytes reach the other side in the order they came, with the
//! boundaries they came with, none lost, none doubled, and none after the
//! relay has ended.

use vstd::prelude::*;
use crate::terminal::relay::{
    chunk_read, forwarder_message, reader_chunk, writer_reaction, writer_step, InboundView,
    MessageView, ReadOutcome, WriterStepView,
};
use crate::terminal::session::{
    lemma_first_relay_to_end_closes, occurrences, reactions, state_after, SessionAction,
    SessionEvent, SessionState,
};

verus! {

/// One blocking read from the pseudo-terminal: what the buffer held after it
/// and how it came out.
pub struct PtyRead {
    pub buf: Seq<u8>,
    pub outcome: ReadOutcome,
}

impl PtyRead {
    /// The chunk the read yields, if any.
    pub open spec fn chunk(self) -> Option<Seq<u8>> {
        chunk_read(self.buf, self.outcome)
    }
}

/// The chunks a reader relay hands out, in order, when it is told of `reads`
/// one after another. `ended` says whether the relay has ended before the
/// first of them.
pub open spec fn chunks_from(ended: bool, reads: Seq<PtyRead>) -> Seq<Seq<u8>>
    decreases reads.len(),
{
    if reads.len() == 0 {
        Seq::empty()
    } else {
        match reader_chunk(ended, reads.first().buf, reads.first().outcome) {
            Some(chunk) => seq![chunk] + chunks_from(false, reads.drop_first()),
            None => chunks_from(true, reads.drop_first()),
        }
    }
}

/// The chunks a new reader relay enqueues, in order, when `reads` are the
/// reads it is told of.
pub open spec fn chunks_of(reads: Seq<PtyRead>) -> Seq<Seq<u8>> {
    chunks_from(false, reads)
}

/// The messages an outbound forwarder hands out, in order, when it is given
/// `chunks` one after another. `ended` says whether the relay has ended before
/// the first of them.
pub open spec fn messages_from(ended: bool, chunks: Seq<Seq<u8>>) -> Seq<MessageView>
    decreases chunks.len(),
{
    if chunks.len() == 0 {
        Seq::empty()
    } else {
        match forwarder_message(ended, Some(chunks.first())) {
            Some(message) => seq![message] + messages_from(false, chunks.drop_first()),
            None => messages_from(true, chunks.drop_first()),
        }
    }
}

/// The messages a new outbound forwarder sends, in order, when `chunks` are
/// what it takes from the internal channel.
pub open spec fn messages_of(chunks: Seq<Seq<u8>>) -> Seq<MessageView> {
    messages_from(false, chunks)
}

/// The writes an inbound writer asks for, in order, when it is given
/// `messages` one after another. `ended` says whether the relay has ended
/// before the first of them.
pub open spec fn writes_from(ended: bool, messages: Seq<MessageView>) -> Seq<Seq<u8>>
    decreases messages.len(),
{
    if messages.len() == 0 {
        Seq::empty()
    } else {
        match writer_step(ended, InboundView::Message(messages.first())) {
            WriterStepView::Write(bytes) => seq![bytes] + writes_from(
                false,
                messages.drop_first(),
            ),
            WriterStepView::Skip => writes_from(false, messages.drop_first()),
            WriterStepView::Stop => writes_from(true, messages.drop_first()),
        }
    }
}

/// The writes a new inbound writer makes, in order, when `messages` are what
/// it receives.
pub open spec fn writes_of(messages: Seq<MessageView>) -> Seq<Seq<u8>> {
    writes_from(false, messages)
}

/// The byte stream that `chunks` make up, one after another.
pub open spec fn bytes_of(chunks: Seq<Seq<u8>>) -> Seq<u8> {
    chunks.flatten()
}

/// The byte stream that the payloads of `messages` make up, one after another.
pub open spec fn payloads_of(messages: Seq<MessageView>) -> Seq<u8> {
    bytes_of(messages.map_values(|message: MessageView| message.payload()))
}

/// The byte stream that `reads` took from the pseudo-terminal, while none of
/// them failed or came back empty.
pub open spec fn bytes_read(reads: Seq<PtyRead>) -> Seq<u8> {
    bytes_of(
        reads.map_values(
            |read: PtyRead|
                match read.chunk() {
                    Some(chunk) => chunk,
                    None => Seq::empty(),
                },
        ),
    )
}

/// A reader relay that has ended stays silent: whatever it is told of after
/// its end, it hands out nothing.
pub proof fn lemma_ended_reader_is_silent(reads: Seq<PtyRead>)
    ensures
        chunks_from(true, reads) == Seq::<Seq<u8>>::empty(),
    decreases reads.len(),
{
    if reads.len() > 0 {
        lemma_ended_reader_is_silent(reads.drop_first());
    }
}

/// An outbound forwarder that has ended stays silent: whatever it is given
/// after its end, it hands out nothing.
pub proof fn lemma_ended_forwarder_is_silent(chunks: Seq<Seq<u8>>)
    ensures
        messages_from(true, chunks) == Seq::<MessageView>::empty(),
    decreases chunks.len(),
{
    if chunks.len() > 0 {
        lemma_ended_forwarder_is_silent(chunks.drop_first());
    }
}

/// An inbound writer that has ended stays silent: whatever it is given after
/// its end, it asks for no write.
pub proof fn lemma_ended_writer_is_silent(messages: Seq<MessageView>)
    ensures
        writes_from(true, messages) == Seq::<Seq<u8>>::empty(),
    decreases messages.len(),
{
    if messages.len() > 0 {
        lemma_ended_writer_is_silent(messages.drop_first());
    }
}

proof fn lemma_bytes_of_cons(head: Seq<u8>, tail: Seq<Seq<u8>>)
    ensures
        bytes_of(seq![head] + tail) == head + bytes_of(tail),
{
    let all = seq![head] + tail;
    assert(all.first() == head);
    assert(all.drop_first() =~= tail);
}

/// The reader relay keeps order and boundaries: the chunks it enqueues are
/// the chunks of the reads it made, one for one and in the same order, and it
/// enqueues nothing from the first read on that yields no chunk.
pub proof fn lemma_reader_keeps_chunks(reads: Seq<PtyRead>)
    ensures
        chunks_of(reads).len() <= reads.len(),
        forall|i: int|
            0 <= i < chunks_of(reads).len() ==> reads[i].chunk() == Some(
                #[trigger] chunks_of(reads)[i],
            ),
        chunks_of(reads).len() < reads.len() ==> reads[chunks_of(reads).len() as int].chunk()
            is None,
    decreases reads.len(),
{
    if reads.len() > 0 {
        let rest = reads.drop_first();
        lemma_reader_keeps_chunks(rest);
        match reads.first().chunk() {
            Some(chunk) => {
                assert forall|i: int| 0 <= i < chunks_of(reads).len() implies reads[i].chunk()
                    == Some(#[trigger] chunks_of(reads)[i]) by {
                    if i > 0 {
                        assert(chunks_of(reads)[i] == chunks_of(rest)[i - 1]);
                        assert(rest[i - 1] == reads[i]);
                    }
                }
                if chunks_of(reads).len() < reads.len() {
                    assert(rest[chunks_of(rest).len() as int] == reads[chunks_of(reads).len() as int]);
                }
            },
            None => {
                lemma_ended_reader_is_silent(rest);
            },
        }
    }
}

/// The outbound forwarder neither frames anew nor gathers: it sends one
/// binary message per chunk, with the chunk's bytes, in the chunks' order.
pub proof fn lemma_forwarder_sends_each_chunk(chunks: Seq<Seq<u8>>)
    ensures
        messages_of(chunks).len() == chunks.len(),
        forall|i: int|
            0 <= i < chunks.len() ==> #[trigger] messages_of(chunks)[i] == MessageView::Binary(
                chunks[i],
            ),
    decreases chunks.len(),
{
    if chunks.len() > 0 {
        let rest = chunks.drop_first();
        lemma_forwarder_sends_each_chunk(rest);
        assert forall|i: int| 0 <= i < chunks.len() implies #[trigger] messages_of(chunks)[i]
            == MessageView::Binary(chunks[i]) by {
            if i > 0 {
                assert(messages_of(chunks)[i] == messages_of(rest)[i - 1]);
                assert(rest[i - 1] == chunks[i]);
            }
        }
    }
}

/// A burst of client input is written in the order it was sent: when every
/// message is a text or binary message, the writer makes one write per
/// message, each with that message's payload, in the messages' order.
pub proof fn lemma_writer_keeps_order(messages: Seq<MessageView>)
    requires
        forall|i: int| 0 <= i < messages.len() ==> (#[trigger] messages[i]).is_data(),
    ensures
        writes_of(messages).len() == messages.len(),
        forall|i: int|
            0 <= i < messages.len() ==> #[trigger] writes_of(messages)[i] == messages[i].payload(),
    decreases messages.len(),
{
    if messages.len() > 0 {
        let rest = messages.drop_first();
        assert(messages[0].is_data());
        assert forall|i: int| 0 <= i < rest.len() implies (#[trigger] rest[i]).is_data() by {
            assert(rest[i] == messages[i + 1]);
        }
        lemma_writer_keeps_order(rest);
        assert forall|i: int| 0 <= i < messages.len() implies #[trigger] writes_of(messages)[i]
            == messages[i].payload() by {
            if i > 0 {
                assert(writes_of(messages)[i] == writes_of(rest)[i - 1]);
                assert(rest[i - 1] == messages[i]);
            }
        }
    }
}

/// Later messages change nothing about earlier writes: what the writer does
/// for `earlier` is how what it does for `earlier` and then `later` begins.
pub proof fn lemma_writes_only_grow(earlier: Seq<MessageView>, later: Seq<MessageView>)
    ensures
        writes_of(earlier).is_prefix_of(writes_of(earlier + later)),
    decreases earlier.len(),
{
    let all = earlier + later;
    if earlier.len() > 0 {
        let rest = earlier.drop_first();
        lemma_writes_only_grow(rest, later);
        assert(all.first() == earlier.first());
        assert(all.drop_first() =~= rest + later);
        let short = writes_of(rest);
        let long = writes_of(rest + later);
        match writer_reaction(InboundView::Message(earlier.first())) {
            WriterStepView::Write(bytes) => {
                assert((seq![bytes] + long).subrange(0, short.len() as int + 1) =~= seq![bytes] + short);
            },
            WriterStepView::Skip => {},
            WriterStepView::Stop => {
                lemma_ended_writer_is_silent(rest);
                lemma_ended_writer_is_silent(rest + later);
                assert(writes_of(all).subrange(0, 0) =~= writes_of(earlier));
            },
        }
    } else {
        assert(writes_of(all).subrange(0, 0) =~= writes_of(earlier));
    }
}

/// Nothing is written once the client has asked to close: messages that come
/// after a close message change nothing about what is written.
pub proof fn lemma_nothing_written_after_close(
    before: Seq<MessageView>,
    after: Seq<MessageView>,
)
    ensures
        writes_of(before + seq![MessageView::Close] + after) == writes_of(
            before + seq![MessageView::Close],
        ),
    decreases before.len(),
{
    let close = seq![MessageView::Close];
    let short = before + close;
    let long = before + close + after;
    if before.len() > 0 {
        let rest = before.drop_first();
        lemma_nothing_written_after_close(rest, after);
        assert(short.first() == before.first());
        assert(long.first() == before.first());
        assert(short.drop_first() =~= rest + close);
        assert(long.drop_first() =~= rest + close + after);
        if writer_reaction(InboundView::Message(before.first())) is Stop {
            lemma_ended_writer_is_silent(rest + close);
            lemma_ended_writer_is_silent(rest + close + after);
        }
    } else {
        assert(short.first() == MessageView::Close);
        assert(long.first() == MessageView::Close);
        lemma_ended_writer_is_silent(short.drop_first());
        lemma_ended_writer_is_silent(long.drop_first());
    }
}

/// No byte of client input is lost, doubled or moved: as long as no message
/// stops the writer, the stream written to the shell is the stream of the
/// messages' payloads.
pub proof fn lemma_writer_keeps_stream(messages: Seq<MessageView>)
    requires
        forall|i: int| 0 <= i < messages.len() ==> !((#[trigger] messages[i]) is Close),
    ensures
        bytes_of(writes_of(messages)) == payloads_of(messages),
    decreases messages.len(),
{
    let payload = |message: MessageView| message.payload();
    if messages.len() > 0 {
        let rest = messages.drop_first();
        assert(!(messages[0] is Close));
        assert forall|i: int| 0 <= i < rest.len() implies !((#[trigger] rest[i]) is Close) by {
            assert(rest[i] == messages[i + 1]);
        }
        lemma_writer_keeps_stream(rest);
        assert(messages.map_values(payload) =~= seq![messages.first().payload()]
            + rest.map_values(payload));
        lemma_bytes_of_cons(messages.first().payload(), rest.map_values(payload));
        match writer_reaction(InboundView::Message(messages.first())) {
            WriterStepView::Write(bytes) => {
                lemma_bytes_of_cons(bytes, writes_of(rest));
            },
            WriterStepView::Skip => {
                assert(Seq::<u8>::empty() + payloads_of(rest) =~= payloads_of(rest));
            },
            WriterStepView::Stop => {},
        }
    } else {
        assert(messages.map_values(payload) =~= Seq::<Seq<u8>>::empty());
    }
}

/// No byte of shell output is lost, doubled or moved: as long as every read
/// yields a chunk, the stream of the messages sent to the client is the
/// stream that was read. Where one read ends and the next begins may show in
/// the messages; the stream does not change.
pub proof fn lemma_output_keeps_stream(reads: Seq<PtyRead>)
    requires
        forall|i: int| 0 <= i < reads.len() ==> (#[trigger] reads[i]).chunk() is Some,
    ensures
        payloads_of(messages_of(chunks_of(reads))) == bytes_read(reads),
    decreases reads.len(),
{
    let payload = |message: MessageView| message.payload();
    let taken = |read: PtyRead|
        match read.chunk() {
            Some(chunk) => chunk,
            None => Seq::empty(),
        };
    if reads.len() > 0 {
        let rest = reads.drop_first();
        assert(reads[0].chunk() is Some);
        let chunk = reads.first().chunk()->0;
        assert forall|i: int| 0 <= i < rest.len() implies (#[trigger] rest[i]).chunk() is Some by {
            assert(rest[i] == reads[i + 1]);
        }
        lemma_output_keeps_stream(rest);
        let chunks = chunks_of(reads);
        assert(chunks.first() == chunk);
        assert(chunks.drop_first() =~= chunks_of(rest));
        let sent = messages_of(chunks);
        assert(sent.map_values(payload) =~= seq![chunk] + messages_of(chunks_of(rest)).map_values(
            payload,
        ));
        lemma_bytes_of_cons(chunk, messages_of(chunks_of(rest)).map_values(payload));
        assert(reads.map_values(taken) =~= seq![chunk] + rest.map_values(taken));
        lemma_bytes_of_cons(chunk, rest.map_values(taken));
    } else {
        assert(messages_of(chunks_of(reads)).map_values(payload) =~= Seq::<Seq<u8>>::empty());
        assert(reads.map_values(taken) =~= Seq::<Seq<u8>>::empty());
    }
}

/// Echo fidelity. While the shell runs a command that echoes its input, what
/// the client gets back is what it sent: the same bytes in the same order,
/// however the echo was cut into reads and thus into messages.
///
/// `messages` is what the client sends, none of it a close message; `reads`
/// is what is read from the pseudo-terminal, every read yielding a chunk. That
/// the shell echoes means that the stream read is the stream written.
pub proof fn lemma_echo_comes_back_unchanged(messages: Seq<MessageView>, reads: Seq<PtyRead>)
    requires
        forall|i: int| 0 <= i < messages.len() ==> !((#[trigger] messages[i]) is Close),
        forall|i: int| 0 <= i < reads.len() ==> (#[trigger] reads[i]).chunk() is Some,
        bytes_read(reads) == bytes_of(writes_of(messages)),
    ensures
        payloads_of(messages_of(chunks_of(reads))) == payloads_of(messages),
{
    lemma_writer_keeps_stream(messages);
    lemma_output_keeps_stream(reads);
}

/// Teardown when the client goes away. Once the client channel ends, fails
/// or carries a close message, the inbound writer stops and asks for no write
/// any more. Told that the writer has ended, a running session asks at once
/// for the shell to be killed, and it is closed once that has been reported
/// done, whatever else is reported meanwhile.
pub proof fn lemma_disconnect_ends_session(
    ended: bool,
    last: InboundView,
    later: Seq<MessageView>,
    more: Seq<SessionEvent>,
)
    requires
        last is Ended || last is Failed || last == InboundView::Message(MessageView::Close),
    ensures
        writer_step(ended, last) is Stop,
        writes_from(true, later) == Seq::<Seq<u8>>::empty(),
        ({
            let events = seq![SessionEvent::WriterEnded] + more;
            let actions = reactions(SessionState::Running, events);
            let state = state_after(SessionState::Running, events);
            &&& actions[0] == SessionAction::KillProcess
            &&& occurrences(actions, SessionAction::KillProcess) == 1
            &&& state == SessionState::Closing || state == SessionState::Closed
            &&& more.contains(SessionEvent::TeardownDone) ==> state == SessionState::Closed
        }),
{
    lemma_ended_writer_is_silent(later);
    lemma_first_relay_to_end_closes(SessionEvent::WriterEnded, more);
}

/// Teardown when the shell exits. Once a read comes back empty or fails, the
/// reader relay enqueues nothing more, so the internal channel closes behind
/// the chunks read before; the forwarder sends those and stops at the closed
/// channel. Told that the forwarder has ended, a running session asks at once
/// for the shell to be killed, and it is closed once that has been reported
/// done, whatever else is reported meanwhile. No client message takes part.
pub proof fn lemma_shell_exit_ends_session(reads: Seq<PtyRead>, exit: int, more: Seq<SessionEvent>)
    requires
        0 <= exit < reads.len(),
        reads[exit].chunk() is None,
        forall|i: int| 0 <= i < exit ==> (#[trigger] reads[i]).chunk() is Some,
    ensures
        chunks_of(reads) == chunks_of(reads.take(exit)),
        chunks_of(reads).len() == exit,
        messages_of(chunks_of(reads)).len() == exit,
        forall|ended: bool| forwarder_message(ended, None) is None,
        ({
            let events = seq![SessionEvent::ForwarderEnded] + more;
            let actions = reactions(SessionState::Running, events);
            let state = state_after(SessionState::Running, events);
            &&& actions[0] == SessionAction::KillProcess
            &&& occurrences(actions, SessionAction::KillProcess) == 1
            &&& state == SessionState::Closing || state == SessionState::Closed
            &&& more.contains(SessionEvent::TeardownDone) ==> state == SessionState::Closed
        }),
{
    lemma_reader_stops_at(reads, exit);
    lemma_forwarder_sends_each_chunk(chunks_of(reads));
    lemma_first_relay_to_end_closes(SessionEvent::ForwarderEnded, more);
}

proof fn lemma_reader_stops_at(reads: Seq<PtyRead>, exit: int)
    requires
        0 <= exit < reads.len(),
        reads[exit].chunk() is None,
        forall|i: int| 0 <= i < exit ==> (#[trigger] reads[i]).chunk() is Some,
    ensures
        chunks_of(reads) == chunks_of(reads.take(exit)),
        chunks_of(reads).len() == exit,
    decreases exit,
{
    let kept = reads.take(exit);
    if exit > 0 {
        let rest = reads.drop_first();
        assert(reads[0].chunk() is Some);
        assert(rest[exit - 1] == reads[exit]);
        assert forall|i: int| 0 <= i < exit - 1 implies (#[trigger] rest[i]).chunk() is Some by {
            assert(rest[i] == reads[i + 1]);
        }
        lemma_reader_stops_at(rest, exit - 1);
        assert(kept.first() == reads.first());
        assert(kept.drop_first() =~= rest.take(exit - 1));
    } else {
        assert(kept.len() == 0);
        lemma_ended_reader_is_silent(reads.drop_first());
    }
}

} // verus!
