//! The three relays of a session.
//!
//! * The reader relay turns each blocking read from the pseudo-terminal into a
//!   chunk for the internal channel.
//! * The outbound forwarder turns each chunk it takes from the internal
//!   channel into one binary message for the client.
//! * The inbound writer turns each client message into bytes to write to the
//!   pseudo-terminal.
//!
//! A relay decides; it does no reading, sending or writing itself. The caller
//! reports what it read or received, gets back what to deliver, and reports
//! whether the delivery worked. A relay that has ended hands out nothing more.

use vstd::prelude::*;
use vstd::slice::{slice_subrange, slice_to_vec};
use vstd::string::StrSliceExecFns;
use vstd::utf8::encode_utf8;

verus! {

/// Size of the buffer each blocking read from the pseudo-terminal fills.
pub const READ_BUFFER_SIZE: usize = 8192;

/// A message on the client channel, in either direction.
#[derive(Debug, PartialEq, Eq)]
pub enum ChannelMessage {
    Text(String),
    Binary(Vec<u8>),
    Ping(Vec<u8>),
    Pong(Vec<u8>),
    Close,
}

/// What a [`ChannelMessage`] holds.
pub enum MessageView {
    Text(Seq<char>),
    Binary(Seq<u8>),
    Ping(Seq<u8>),
    Pong(Seq<u8>),
    Close,
}

impl View for ChannelMessage {
    type V = MessageView;

    open spec fn view(&self) -> MessageView {
        match *self {
            ChannelMessage::Text(text) => MessageView::Text(text@),
            ChannelMessage::Binary(data) => MessageView::Binary(data@),
            ChannelMessage::Ping(data) => MessageView::Ping(data@),
            ChannelMessage::Pong(data) => MessageView::Pong(data@),
            ChannelMessage::Close => MessageView::Close,
        }
    }
}

impl MessageView {
    /// The bytes the message carries as terminal data: a text message carries
    /// its UTF-8 encoding, a binary message its bytes, any other message none.
    pub open spec fn payload(self) -> Seq<u8> {
        match self {
            MessageView::Text(text) => encode_utf8(text),
            MessageView::Binary(data) => data,
            _ => Seq::empty(),
        }
    }

    /// Whether the message is a text or binary message.
    pub open spec fn is_data(self) -> bool {
        self is Text || self is Binary
    }
}

/// How one blocking read from the pseudo-terminal came out.
#[derive(Clone, Copy, Debug, PartialEq, Eq, Structural)]
pub enum ReadOutcome {
    /// The read put this many bytes at the start of the buffer.
    Bytes(usize),
    /// The read failed.
    Failed,
}

/// What waiting for the next client message came to.
#[derive(Debug, PartialEq, Eq)]
pub enum Inbound {
    /// A message arrived.
    Message(ChannelMessage),
    /// The channel reported an error in place of a message.
    Failed,
    /// The channel has ended: no message will come any more.
    Ended,
}

/// What an [`Inbound`] holds.
pub enum InboundView {
    Message(MessageView),
    Failed,
    Ended,
}

impl View for Inbound {
    type V = InboundView;

    open spec fn view(&self) -> InboundView {
        match *self {
            Inbound::Message(message) => InboundView::Message(message@),
            Inbound::Failed => InboundView::Failed,
            Inbound::Ended => InboundView::Ended,
        }
    }
}

/// What the inbound writer does about one client message.
#[derive(Debug, PartialEq, Eq)]
pub enum WriterStep {
    /// Write exactly these bytes to the pseudo-terminal.
    Write(Vec<u8>),
    /// Do nothing and wait for the next message.
    Skip,
    /// The writer has ended.
    Stop,
}

/// What a [`WriterStep`] holds.
pub enum WriterStepView {
    Write(Seq<u8>),
    Skip,
    Stop,
}

impl View for WriterStep {
    type V = WriterStepView;

    open spec fn view(&self) -> WriterStepView {
        match *self {
            WriterStep::Write(bytes) => WriterStepView::Write(bytes@),
            WriterStep::Skip => WriterStepView::Skip,
            WriterStep::Stop => WriterStepView::Stop,
        }
    }
}

/// The chunk a read yields: the bytes the read put into `buf`, all of them and
/// no others. A read of no bytes, a failed read, and a read that claims more
/// bytes than `buf` holds yield none.
pub open spec fn chunk_read(buf: Seq<u8>, outcome: ReadOutcome) -> Option<Seq<u8>> {
    match outcome {
        ReadOutcome::Bytes(count) => if 0 < count <= buf.len() {
            Some(buf.subrange(0, count as int))
        } else {
            None
        },
        ReadOutcome::Failed => None,
    }
}

/// The message a chunk from the internal channel is forwarded as: one binary
/// message with the chunk's bytes. A closed channel yields none.
pub open spec fn forwarded(received: Option<Seq<u8>>) -> Option<MessageView> {
    match received {
        Some(chunk) => Some(MessageView::Binary(chunk)),
        None => None,
    }
}

/// What the inbound writer does about what it received: it writes the payload
/// of a text or binary message unchanged, stops at a close message, at an
/// error and at the end of the channel, and skips everything else.
pub open spec fn writer_reaction(received: InboundView) -> WriterStepView {
    match received {
        InboundView::Message(MessageView::Text(text)) => WriterStepView::Write(encode_utf8(text)),
        InboundView::Message(MessageView::Binary(data)) => WriterStepView::Write(data),
        InboundView::Message(MessageView::Close) => WriterStepView::Stop,
        InboundView::Message(_) => WriterStepView::Skip,
        InboundView::Failed => WriterStepView::Stop,
        InboundView::Ended => WriterStepView::Stop,
    }
}

/// What the reader relay hands out for one read: the chunk the read yields
/// while the relay is at work, nothing once it has ended.
pub open spec fn reader_chunk(ended: bool, buf: Seq<u8>, outcome: ReadOutcome) -> Option<Seq<u8>> {
    if ended {
        None
    } else {
        chunk_read(buf, outcome)
    }
}

/// What the outbound forwarder hands out for what it took from the internal
/// channel: the message the chunk is forwarded as while the relay is at work,
/// nothing once it has ended.
pub open spec fn forwarder_message(ended: bool, received: Option<Seq<u8>>) -> Option<MessageView> {
    if ended {
        None
    } else {
        forwarded(received)
    }
}

/// What the inbound writer answers to what it received: its reaction while
/// the relay is at work, `Stop` once it has ended.
pub open spec fn writer_step(ended: bool, received: InboundView) -> WriterStepView {
    if ended {
        WriterStepView::Stop
    } else {
        writer_reaction(received)
    }
}

/// The relay that reads from the pseudo-terminal.
#[derive(Debug)]
pub struct ReaderRelay {
    ended: bool,
}

impl ReaderRelay {
    /// Whether the relay has ended.
    pub closed spec fn spec_has_ended(&self) -> bool {
        self.ended
    }

    /// A relay that is about to make its first read.
    pub fn new() -> (relay: ReaderRelay)
        ensures
            !relay.spec_has_ended(),
    {
        ReaderRelay { ended: false }
    }

    #[verifier::when_used_as_spec(spec_has_ended)]
    pub fn has_ended(&self) -> (ended: bool)
        ensures
            ended == self.spec_has_ended(),
    {
        self.ended
    }

    /// Takes the outcome of one read into `buf` and hands out the chunk to
    /// enqueue on the internal channel, if there is one.
    ///
    /// The relay ends when there is none.
    pub fn on_read(&mut self, buf: &[u8], outcome: ReadOutcome) -> (chunk: Option<Vec<u8>>)
        ensures
            reader_chunk(old(self).has_ended(), buf@, outcome) == (match chunk {
                Some(bytes) => Some(bytes@),
                None => None,
            }),
            final(self).has_ended() == (chunk is None),
    {
        if !self.ended {
            if let ReadOutcome::Bytes(count) = outcome {
                if 0 < count && count <= buf.len() {
                    return Some(slice_to_vec(slice_subrange(buf, 0, count)));
                }
            }
        }
        self.ended = true;
        None
    }

    /// Takes in whether the last chunk could be enqueued. When it could not,
    /// nobody consumes the channel any more and the relay ends.
    pub fn on_enqueued(&mut self, delivered: bool)
        ensures
            final(self).has_ended() == (old(self).has_ended() || !delivered),
    {
        if !delivered {
            self.ended = true;
        }
    }
}

/// The relay that sends shell output to the client.
#[derive(Debug)]
pub struct OutboundForwarder {
    ended: bool,
}

impl OutboundForwarder {
    /// Whether the relay has ended.
    pub closed spec fn spec_has_ended(&self) -> bool {
        self.ended
    }

    /// A forwarder that is about to wait for its first chunk.
    pub fn new() -> (relay: OutboundForwarder)
        ensures
            !relay.spec_has_ended(),
    {
        OutboundForwarder { ended: false }
    }

    #[verifier::when_used_as_spec(spec_has_ended)]
    pub fn has_ended(&self) -> (ended: bool)
        ensures
            ended == self.spec_has_ended(),
    {
        self.ended
    }

    /// Takes what the internal channel gave, a chunk or `None` once it is
    /// closed, and hands out the message to send to the client.
    ///
    /// The relay ends when there is none.
    pub fn on_chunk(&mut self, received: Option<Vec<u8>>) -> (message: Option<ChannelMessage>)
        ensures
            forwarder_message(
                old(self).has_ended(),
                match received {
                    Some(chunk) => Some(chunk@),
                    None => None,
                },
            ) == (match message {
                Some(sent) => Some(sent@),
                None => None,
            }),
            final(self).has_ended() == (message is None),
    {
        if !self.ended {
            if let Some(chunk) = received {
                return Some(ChannelMessage::Binary(chunk));
            }
        }
        self.ended = true;
        None
    }

    /// Takes in whether the last message could be sent. When it could not,
    /// the client is gone and the relay ends.
    pub fn on_sent(&mut self, delivered: bool)
        ensures
            final(self).has_ended() == (old(self).has_ended() || !delivered),
    {
        if !delivered {
            self.ended = true;
        }
    }
}

/// The relay that writes client input to the shell.
#[derive(Debug)]
pub struct InboundWriter {
    ended: bool,
}

impl InboundWriter {
    /// Whether the relay has ended.
    pub closed spec fn spec_has_ended(&self) -> bool {
        self.ended
    }

    /// A writer that is about to wait for its first message.
    pub fn new() -> (relay: InboundWriter)
        ensures
            !relay.spec_has_ended(),
    {
        InboundWriter { ended: false }
    }

    #[verifier::when_used_as_spec(spec_has_ended)]
    pub fn has_ended(&self) -> (ended: bool)
        ensures
            ended == self.spec_has_ended(),
    {
        self.ended
    }

    /// Takes what the client channel gave and says what to do about it.
    ///
    /// The relay ends when the answer is `Stop`, and a relay that has ended
    /// answers `Stop` to everything: nothing is written after a close message.
    pub fn on_receive(&mut self, received: Inbound) -> (step: WriterStep)
        ensures
            step@ == writer_step(old(self).has_ended(), received@),
            final(self).has_ended() == (step@ is Stop),
    {
        if !self.ended {
            match received {
                Inbound::Message(ChannelMessage::Text(text)) => {
                    return WriterStep::Write(text.as_str().as_bytes_vec());
                },
                Inbound::Message(ChannelMessage::Binary(data)) => {
                    return WriterStep::Write(data);
                },
                Inbound::Message(ChannelMessage::Ping(_)) => {
                    return WriterStep::Skip;
                },
                Inbound::Message(ChannelMessage::Pong(_)) => {
                    return WriterStep::Skip;
                },
                _ => {},
            }
        }
        self.ended = true;
        WriterStep::Stop
    }

    /// Takes in whether the last write went through. When it did not, the
    /// pseudo-terminal is gone and the relay ends.
    pub fn on_written(&mut self, delivered: bool)
        ensures
            final(self).has_ended() == (old(self).has_ended() || !delivered),
    {
        if !delivered {
            self.ended = true;
        }
    }
}

} // verus!
