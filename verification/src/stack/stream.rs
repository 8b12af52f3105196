//! The stream layer: user messages are cut into DATA chunks on the way out,
//! and put together again, stream by stream, on the way in.

use crate::error::SctpError;
use vstd::prelude::*;
use vstd::slice::{slice_subrange, slice_to_vec};

verus! {

/// An application datum submitted to or delivered from an association.
#[derive(Clone, Debug)]
pub struct Message {
    pub stream_id: u16,
    pub ppid: u32,
    pub ordered: bool,
    pub buffer: Vec<u8>,
}

/// The mathematical content of a [`Message`].
pub ghost struct MessageView {
    pub stream_id: u16,
    pub ppid: u32,
    pub ordered: bool,
    pub buffer: Seq<u8>,
}

impl View for Message {
    type V = MessageView;

    open spec fn view(&self) -> MessageView {
        MessageView {
            stream_id: self.stream_id,
            ppid: self.ppid,
            ordered: self.ordered,
            buffer: self.buffer@,
        }
    }
}

/// A DATA chunk: one fragment of a user message.
#[derive(Clone, Debug)]
pub struct DataChunk {
    pub tsn: u32,
    pub stream_id: u16,
    pub ssn: u16,
    pub ppid: u32,
    /// The U flag: the message is delivered without regard to order.
    pub unordered: bool,
    /// The B flag: the first fragment of its message.
    pub beginning: bool,
    /// The E flag: the last fragment of its message.
    pub ending: bool,
    pub payload: Vec<u8>,
}

/// The mathematical content of a [`DataChunk`].
pub ghost struct DataChunkView {
    pub tsn: u32,
    pub stream_id: u16,
    pub ssn: u16,
    pub ppid: u32,
    pub unordered: bool,
    pub beginning: bool,
    pub ending: bool,
    pub payload: Seq<u8>,
}

impl View for DataChunk {
    type V = DataChunkView;

    open spec fn view(&self) -> DataChunkView {
        DataChunkView {
            tsn: self.tsn,
            stream_id: self.stream_id,
            ssn: self.ssn,
            ppid: self.ppid,
            unordered: self.unordered,
            beginning: self.beginning,
            ending: self.ending,
            payload: self.payload@,
        }
    }
}

/// The number of fragments that a message of `length` bytes is cut into,
/// where a fragment carries up to `max_payload` bytes: an empty message
/// still takes one.
pub open spec fn fragment_count(length: int, max_payload: int) -> int {
    if length == 0 {
        1
    } else {
        length / max_payload + if length % max_payload == 0 {
            0int
        } else {
            1int
        }
    }
}

/// The `i`-th fragment of `message`: the `i`-th slice of `max_payload`
/// bytes, under the TSN `i` places after `first_tsn` modulo 2^32; the first
/// fragment is marked as the beginning and the last as the ending.
pub open spec fn fragment_at(
    message: MessageView,
    ssn: u16,
    first_tsn: u32,
    max_payload: int,
    i: int,
) -> DataChunkView {
    let length = message.buffer.len() as int;
    let end = if (i + 1) * max_payload < length {
        (i + 1) * max_payload
    } else {
        length
    };
    DataChunkView {
        tsn: ((first_tsn + i) % 0x1_0000_0000) as u32,
        stream_id: message.stream_id,
        ssn,
        ppid: message.ppid,
        unordered: !message.ordered,
        beginning: i == 0,
        ending: i == fragment_count(length, max_payload) - 1,
        payload: message.buffer.subrange(i * max_payload, end),
    }
}

/// The fragments of `message`, in order.
pub open spec fn fragments(message: MessageView, ssn: u16, first_tsn: u32, max_payload: int) -> Seq<
    DataChunkView,
> {
    Seq::new(
        fragment_count(message.buffer.len() as int, max_payload) as nat,
        |i: int| fragment_at(message, ssn, first_tsn, max_payload, i),
    )
}

/// Cuts a user message into DATA chunks that carry contiguous slices of at
/// most `max_payload` bytes each, under consecutive TSNs from `first_tsn` and
/// all under the SSN `ssn`.
pub fn fragment_message(message: &Message, ssn: u16, first_tsn: u32, max_payload: usize) -> (r: Vec<
    DataChunk,
>)
    requires
        max_payload > 0,
    ensures
        r@.len() == fragment_count(message@.buffer.len() as int, max_payload as int),
        forall|i: int|
            0 <= i < r@.len() ==> (#[trigger] r@[i])@ == fragment_at(
                message@,
                ssn,
                first_tsn,
                max_payload as int,
                i,
            ) && r@[i].payload@.len() <= max_payload,
{
    let length: usize = message.buffer.len();
    let whole: usize = length / max_payload;
    let partial: bool = length % max_payload != 0;
    proof {
        assert(length == max_payload * whole + length % max_payload) by (nonlinear_arith)
            requires
                max_payload > 0,
                whole == length / max_payload,
        ;
        if partial {
            assert(max_payload >= 2);
            assert(max_payload * whole >= 2 * whole) by (nonlinear_arith)
                requires
                    max_payload >= 2,
                    whole >= 0,
            ;
        }
    }
    let count: usize = if length == 0 {
        1
    } else if partial {
        whole + 1
    } else {
        whole
    };
    assert(count == fragment_count(length as int, max_payload as int));
    proof {
        if length != 0 {
            assert((count - 1) * max_payload < length) by (nonlinear_arith)
                requires
                    length == max_payload * whole + length % max_payload,
                    max_payload > 0,
                    length != 0,
                    0 <= length % max_payload < max_payload,
                    count == whole + if length % max_payload == 0 {
                        0int
                    } else {
                        1int
                    },
            ;
        }
    }
    let mut out: Vec<DataChunk> = Vec::new();
    let mut i: usize = 0;
    let mut offset: usize = 0;
    let mut tsn: u32 = first_tsn;
    while i < count
        invariant
            max_payload > 0,
            length == message.buffer@.len(),
            count == fragment_count(length as int, max_payload as int),
            length != 0 ==> (count - 1) * max_payload < length,
            i <= count,
            out@.len() == i,
            i < count ==> offset == i * max_payload,
            i < count ==> offset <= length,
            tsn == (first_tsn + i) % 0x1_0000_0000,
            forall|j: int|
                0 <= j < i ==> (#[trigger] out@[j])@ == fragment_at(
                    message@,
                    ssn,
                    first_tsn,
                    max_payload as int,
                    j,
                ) && out@[j].payload@.len() <= max_payload,
        decreases count - i,
    {
        let end: usize = if length - offset > max_payload {
            offset + max_payload
        } else {
            length
        };
        assert((i + 1) * max_payload == i * max_payload + max_payload) by (nonlinear_arith);
        let chunk = DataChunk {
            tsn,
            stream_id: message.stream_id,
            ssn,
            ppid: message.ppid,
            unordered: !message.ordered,
            beginning: i == 0,
            ending: i == count - 1,
            payload: slice_to_vec(slice_subrange(message.buffer.as_slice(), offset, end)),
        };
        assert(chunk@ == fragment_at(message@, ssn, first_tsn, max_payload as int, i as int));
        out.push(chunk);
        if i + 1 < count {
            assert((i + 1) * max_payload <= (count - 1) * max_payload) by (nonlinear_arith)
                requires
                    i + 1 <= count - 1,
                    max_payload > 0,
            ;
            offset = end;
        }
        tsn = if tsn == 0xFFFF_FFFF {
            0
        } else {
            tsn + 1
        };
        i = i + 1;
    }
    out
}

/// A message under reassembly: the fragments received so far, in order.
#[derive(Clone, Debug)]
pub struct Partial {
    pub ssn: u16,
    pub ppid: u32,
    pub buffer: Vec<u8>,
    /// Whether the ending fragment has arrived.
    pub complete: bool,
}

/// The mathematical content of a [`Partial`].
pub ghost struct PartialView {
    pub ssn: u16,
    pub ppid: u32,
    pub buffer: Seq<u8>,
    pub complete: bool,
}

impl View for Partial {
    type V = PartialView;

    open spec fn view(&self) -> PartialView {
        PartialView {
            ssn: self.ssn,
            ppid: self.ppid,
            buffer: self.buffer@,
            complete: self.complete,
        }
    }
}

/// The receiving side of one stream: the SSN that is delivered next, the
/// ordered messages under reassembly, keyed by SSN, and the unordered message
/// under reassembly, if any.
#[derive(Debug)]
pub struct InboundStream {
    pub stream_id: u16,
    pub expected_ssn: u16,
    pub pending: Vec<Partial>,
    pub unordered: Option<Partial>,
}

/// The mathematical content of an [`InboundStream`].
pub ghost struct InboundStreamView {
    pub stream_id: u16,
    pub expected_ssn: u16,
    pub pending: Seq<PartialView>,
    pub unordered: Option<PartialView>,
}

impl View for InboundStream {
    type V = InboundStreamView;

    open spec fn view(&self) -> InboundStreamView {
        InboundStreamView {
            stream_id: self.stream_id,
            expected_ssn: self.expected_ssn,
            pending: Seq::new(self.pending@.len(), |i: int| self.pending@[i]@),
            unordered: match self.unordered {
                Some(p) => Some(p@),
                None => None,
            },
        }
    }
}

/// How far `to` lies ahead of `from` in the 16-bit circle of SSNs.
pub open spec fn ssn_distance(from: u16, to: u16) -> int {
    (to as int - from as int) % 0x1_0000
}

/// The SSN after `ssn`, modulo 2^16.
pub open spec fn ssn_successor(ssn: u16) -> u16 {
    if ssn == 0xFFFF {
        0
    } else {
        (ssn + 1) as u16
    }
}

/// The SSN `n` places after `ssn`, modulo 2^16.
pub open spec fn ssn_plus(ssn: u16, n: int) -> u16 {
    ((ssn as int + n) % 0x1_0000) as u16
}

/// The index of the first message under `ssn` in `pending`, or the length of
/// `pending` where there is none.
pub open spec fn first_match(pending: Seq<PartialView>, ssn: u16) -> int
    decreases pending.len(),
{
    if pending.len() == 0 {
        0
    } else if pending[0].ssn == ssn {
        0
    } else {
        1 + first_match(pending.drop_first(), ssn)
    }
}

/// What taking a DATA chunk gives: the stream afterwards, and the message
/// that the chunk completed, if it is to be delivered at once.
pub ghost struct Received {
    pub next: InboundStreamView,
    pub delivered: Option<MessageView>,
}

/// What delivering the next ordered message gives.
pub ghost struct Delivered {
    pub next: InboundStreamView,
    pub ssn: u16,
    pub message: MessageView,
}

impl InboundStreamView {
    /// Taking an unordered fragment.  A beginning starts a message, and there
    /// must be none under way; any other fragment goes on with the message
    /// under way, and there must be one.  The ending fragment completes the
    /// message, which is delivered at once.
    pub open spec fn receive_unordered(self, chunk: DataChunkView) -> Result<Received, SctpError> {
        if chunk.beginning {
            if self.unordered is Some {
                Err(SctpError::UnexpectedBeginningFragment)
            } else if chunk.ending {
                Ok(
                    Received {
                        next: self,
                        delivered: Some(
                            MessageView {
                                stream_id: self.stream_id,
                                ppid: chunk.ppid,
                                ordered: false,
                                buffer: chunk.payload,
                            },
                        ),
                    },
                )
            } else {
                Ok(
                    Received {
                        next: InboundStreamView {
                            unordered: Some(
                                PartialView {
                                    ssn: chunk.ssn,
                                    ppid: chunk.ppid,
                                    buffer: chunk.payload,
                                    complete: false,
                                },
                            ),
                            ..self
                        },
                        delivered: None,
                    },
                )
            }
        } else {
            match self.unordered {
                None => Err(SctpError::ExpectedBeginningFragment),
                Some(p) => if chunk.ending {
                    Ok(
                        Received {
                            next: InboundStreamView { unordered: None, ..self },
                            delivered: Some(
                                MessageView {
                                    stream_id: self.stream_id,
                                    ppid: p.ppid,
                                    ordered: false,
                                    buffer: p.buffer + chunk.payload,
                                },
                            ),
                        },
                    )
                } else {
                    Ok(
                        Received {
                            next: InboundStreamView {
                                unordered: Some(
                                    PartialView { buffer: p.buffer + chunk.payload, ..p },
                                ),
                                ..self
                            },
                            delivered: None,
                        },
                    )
                },
            }
        }
    }

    /// Taking an ordered fragment.  Its SSN must lie less than 2^15 ahead of
    /// the expected one.  A beginning starts the message of its SSN, which
    /// must not be under reassembly already; any other fragment goes on with
    /// the message of its SSN, which must have begun and not ended.  Nothing
    /// is delivered yet.
    pub open spec fn receive_ordered(self, chunk: DataChunkView) -> Result<Received, SctpError> {
        let i = first_match(self.pending, chunk.ssn);
        if ssn_distance(self.expected_ssn, chunk.ssn) >= 0x8000 {
            Err(SctpError::UnexpectedSSN)
        } else if chunk.beginning {
            if i < self.pending.len() {
                Err(SctpError::UnexpectedBeginningFragment)
            } else {
                Ok(
                    Received {
                        next: InboundStreamView {
                            pending: self.pending.push(
                                PartialView {
                                    ssn: chunk.ssn,
                                    ppid: chunk.ppid,
                                    buffer: chunk.payload,
                                    complete: chunk.ending,
                                },
                            ),
                            ..self
                        },
                        delivered: None,
                    },
                )
            }
        } else if i >= self.pending.len() || self.pending[i].complete {
            Err(SctpError::ExpectedBeginningFragment)
        } else {
            Ok(
                Received {
                    next: InboundStreamView {
                        pending: self.pending.update(
                            i,
                            PartialView {
                                buffer: self.pending[i].buffer + chunk.payload,
                                complete: chunk.ending,
                                ..self.pending[i]
                            },
                        ),
                        ..self
                    },
                    delivered: None,
                },
            )
        }
    }

    /// Taking a DATA chunk of this stream.
    pub open spec fn receive(self, chunk: DataChunkView) -> Result<Received, SctpError> {
        if chunk.unordered {
            self.receive_unordered(chunk)
        } else {
            self.receive_ordered(chunk)
        }
    }

    /// Delivering the next ordered message: the one under the expected SSN,
    /// once it is complete.  It leaves the reassembly buffer, and the
    /// expected SSN moves on by one.
    pub open spec fn deliver_next(self) -> Option<Delivered> {
        let i = first_match(self.pending, self.expected_ssn);
        if i < self.pending.len() && self.pending[i].complete {
            Some(
                Delivered {
                    next: InboundStreamView {
                        expected_ssn: ssn_successor(self.expected_ssn),
                        pending: self.pending.remove(i),
                        ..self
                    },
                    ssn: self.expected_ssn,
                    message: MessageView {
                        stream_id: self.stream_id,
                        ppid: self.pending[i].ppid,
                        ordered: true,
                        buffer: self.pending[i].buffer,
                    },
                },
            )
        } else {
            None
        }
    }
}

/// One thing that happens to an inbound stream.
pub ghost enum StreamOp {
    /// A DATA chunk arrives.
    Receive(DataChunkView),
    /// The next ordered message is asked for.
    Deliver,
}

/// The stream after a run of arrivals and deliveries; a chunk that is
/// refused leaves the stream as it is.
pub open spec fn stream_after(start: InboundStreamView, ops: Seq<StreamOp>) -> InboundStreamView
    decreases ops.len(),
{
    if ops.len() == 0 {
        start
    } else {
        let before = stream_after(start, ops.drop_last());
        match ops.last() {
            StreamOp::Receive(chunk) => match before.receive(chunk) {
                Ok(received) => received.next,
                Err(_) => before,
            },
            StreamOp::Deliver => match before.deliver_next() {
                Some(delivered) => delivered.next,
                None => before,
            },
        }
    }
}

/// The SSNs of the ordered messages delivered over a run, in the order of
/// their delivery.
pub open spec fn delivered_ssns(start: InboundStreamView, ops: Seq<StreamOp>) -> Seq<u16>
    decreases ops.len(),
{
    if ops.len() == 0 {
        Seq::empty()
    } else {
        let before = stream_after(start, ops.drop_last());
        let earlier = delivered_ssns(start, ops.drop_last());
        match ops.last() {
            StreamOp::Receive(_) => earlier,
            StreamOp::Deliver => match before.deliver_next() {
                Some(delivered) => earlier.push(delivered.ssn),
                None => earlier,
            },
        }
    }
}

/// Whatever arrives and whenever delivery is asked for, the ordered messages
/// of a stream are delivered under consecutive SSNs modulo 2^16, from the
/// one that was expected at the start, with no gap and none twice.
pub proof fn lemma_ordered_delivery(start: InboundStreamView, ops: Seq<StreamOp>)
    ensures
        stream_after(start, ops).expected_ssn == ssn_plus(
            start.expected_ssn,
            delivered_ssns(start, ops).len() as int,
        ),
        forall|k: int|
            0 <= k < delivered_ssns(start, ops).len() ==> #[trigger] delivered_ssns(start, ops)[k]
                == ssn_plus(start.expected_ssn, k),
    decreases ops.len(),
{
    if ops.len() > 0 {
        lemma_ordered_delivery(start, ops.drop_last());
    }
}

impl InboundStream {
    /// The receiving side of stream `stream_id`, with nothing received yet.
    pub fn new(stream_id: u16, expected_ssn: u16) -> (s: InboundStream)
        ensures
            s@ == (InboundStreamView {
                stream_id,
                expected_ssn,
                pending: Seq::empty(),
                unordered: None,
            }),
    {
        let s = InboundStream { stream_id, expected_ssn, pending: Vec::new(), unordered: None };
        assert(s@.pending =~= Seq::empty());
        s
    }

    fn position(&self, ssn: u16) -> (i: usize)
        ensures
            i == first_match(self@.pending, ssn),
            i <= self.pending@.len(),
    {
        let mut i: usize = 0;
        assert(self@.pending.skip(0) =~= self@.pending);
        while i < self.pending.len()
            invariant
                i <= self.pending@.len(),
                first_match(self@.pending, ssn) == i + first_match(
                    self@.pending.skip(i as int),
                    ssn,
                ),
            decreases self.pending@.len() - i,
        {
            proof {
                assert(self@.pending.skip(i as int).drop_first() =~= self@.pending.skip(i + 1));
                assert(self@.pending.skip(i as int)[0] == self@.pending[i as int]);
            }
            if self.pending[i].ssn == ssn {
                return i;
            }
            i = i + 1;
        }
        assert(self@.pending.skip(i as int).len() == 0);
        i
    }

    /// Takes a DATA chunk of this stream into the reassembly buffers.  An
    /// unordered message is returned as soon as it is complete.  A chunk that
    /// breaks the rules of reassembly is refused and changes nothing; such an
    /// error is fatal for the association.
    pub fn receive(&mut self, chunk: DataChunk) -> (r: Result<Option<Message>, SctpError>)
        ensures
            match old(self)@.receive(chunk@) {
                Ok(received) => r is Ok && final(self)@ == received.next && match received.delivered {
                    Some(m) => r.unwrap() is Some && r.unwrap().unwrap()@ == m,
                    None => r.unwrap() is None,
                },
                Err(e) => r == Err::<Option<Message>, SctpError>(e) && final(self)@ == old(self)@,
            },
    {
        let mut chunk = chunk;
        let ghost arrived = chunk@;
        if chunk.unordered {
            if chunk.beginning {
                if self.unordered.is_some() {
                    Err(SctpError::UnexpectedBeginningFragment)
                } else if chunk.ending {
                    Ok(
                        Some(
                            Message {
                                stream_id: self.stream_id,
                                ppid: chunk.ppid,
                                ordered: false,
                                buffer: chunk.payload,
                            },
                        ),
                    )
                } else {
                    self.unordered = Some(
                        Partial {
                            ssn: chunk.ssn,
                            ppid: chunk.ppid,
                            buffer: chunk.payload,
                            complete: false,
                        },
                    );
                    Ok(None)
                }
            } else {
                match self.unordered.take() {
                    None => Err(SctpError::ExpectedBeginningFragment),
                    Some(mut p) => {
                        p.buffer.append(&mut chunk.payload);
                        if chunk.ending {
                            Ok(
                                Some(
                                    Message {
                                        stream_id: self.stream_id,
                                        ppid: p.ppid,
                                        ordered: false,
                                        buffer: p.buffer,
                                    },
                                ),
                            )
                        } else {
                            self.unordered = Some(p);
                            Ok(None)
                        }
                    },
                }
            }
        } else {
            let distance: u32 = if chunk.ssn >= self.expected_ssn {
                (chunk.ssn - self.expected_ssn) as u32
            } else {
                0x1_0000u32 - (self.expected_ssn - chunk.ssn) as u32
            };
            assert(distance == ssn_distance(self.expected_ssn, chunk.ssn));
            if distance >= 0x8000 {
                return Err(SctpError::UnexpectedSSN);
            }
            let i = self.position(chunk.ssn);
            if chunk.beginning {
                if i < self.pending.len() {
                    Err(SctpError::UnexpectedBeginningFragment)
                } else {
                    self.pending.push(
                        Partial {
                            ssn: chunk.ssn,
                            ppid: chunk.ppid,
                            buffer: chunk.payload,
                            complete: chunk.ending,
                        },
                    );
                    assert(self@.pending =~= old(self)@.receive(arrived).unwrap().next.pending);
                    Ok(None)
                }
            } else if i >= self.pending.len() || self.pending[i].complete {
                Err(SctpError::ExpectedBeginningFragment)
            } else {
                let mut p = self.pending.remove(i);
                p.buffer.append(&mut chunk.payload);
                p.complete = chunk.ending;
                self.pending.insert(i, p);
                assert(self@.pending =~= old(self)@.receive(arrived).unwrap().next.pending);
                Ok(None)
            }
        }
    }

    /// Delivers the next ordered message, if it is complete: the messages of
    /// a stream come out by increasing SSN, and a gap holds back all that
    /// follow it.
    pub fn deliver_next(&mut self) -> (r: Option<Message>)
        ensures
            match old(self)@.deliver_next() {
                Some(delivered) => r is Some && r.unwrap()@ == delivered.message && final(self)@
                    == delivered.next,
                None => r is None && final(self)@ == old(self)@,
            },
    {
        let i = self.position(self.expected_ssn);
        if i < self.pending.len() && self.pending[i].complete {
            let p = self.pending.remove(i);
            self.expected_ssn = if self.expected_ssn == 0xFFFF {
                0
            } else {
                self.expected_ssn + 1
            };
            assert(self@.pending =~= old(self)@.pending.remove(i as int));
            Some(
                Message { stream_id: self.stream_id, ppid: p.ppid, ordered: true, buffer: p.buffer },
            )
        } else {
            None
        }
    }
}

} // verus!
