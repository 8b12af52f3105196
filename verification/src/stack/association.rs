//! The association state machine: the four-way handshake, orderly shutdown
//! and abort, as a function from state and event to next state and actions.
//! The engine performs the actions and hands back the events.

use crate::error::SctpError;
use vstd::prelude::*;

verus! {

/// The states of an association.
#[derive(Clone, Copy, Debug, PartialEq, Eq, Structural)]
pub enum AssociationState {
    Closed,
    CookieWait,
    CookieEchoed,
    Established,
    ShutdownPending,
    ShutdownSent,
    ShutdownReceived,
    ShutdownAckSent,
}

/// The timers that guard the handshake and the shutdown.
#[derive(Clone, Copy, Debug, PartialEq, Eq, Structural)]
pub enum Timer {
    T1Init,
    T1Cookie,
    T2Shutdown,
}

/// The control chunks that the state machine asks to be sent.
#[derive(Clone, Copy, Debug, PartialEq, Eq, Structural)]
pub enum ControlChunk {
    Init,
    CookieEcho,
    CookieAck,
    Shutdown,
    ShutdownAck,
    ShutdownComplete,
    Abort,
}

/// What happened: a command of the application, a chunk of the peer, or a
/// timer.
#[derive(Clone, Copy, Debug, PartialEq, Eq, Structural)]
pub enum Event {
    /// Active open, with a freshly generated initiate tag and initial TSN.
    Open { initiate_tag: u32, initial_tsn: u32 },
    /// A cookie echoed at a listener verified: the association is to be
    /// created established.
    Accept { local_tag: u32, peer_tag: u32, initial_tsn: u32 },
    /// An INIT-ACK with a state cookie arrived.
    InitAck { peer_tag: u32 },
    /// A COOKIE-ACK arrived.
    CookieAck,
    /// The application asks for an orderly shutdown; `outbound_empty` tells
    /// whether all outbound data has been acknowledged.
    Shutdown { outbound_empty: bool },
    /// The last outstanding outbound data was acknowledged.
    OutboundDrained,
    /// A SHUTDOWN arrived.
    ShutdownReceived { outbound_empty: bool },
    /// A SHUTDOWN-ACK arrived.
    ShutdownAckReceived,
    /// A SHUTDOWN-COMPLETE arrived.
    ShutdownCompleteReceived,
    /// The application aborts, or a fatal protocol error was found.
    Abort,
    /// An ABORT arrived.
    AbortReceived,
    /// A timer ran out.
    TimerExpired(Timer),
}

/// What the engine is to do.
#[derive(Clone, Copy, Debug, PartialEq, Eq, Structural)]
pub enum Action {
    /// Send a control chunk in a packet with this verification tag.
    Emit { chunk: ControlChunk, verification_tag: u32 },
    /// Start or restart a timer.
    Arm { timer: Timer, millis: u64 },
    /// Stop a timer.
    Cancel { timer: Timer },
    /// Tell the application that the association is established.
    Established,
    /// Discard all queues and complete pending handles: the association is
    /// gone.
    Closed,
}

/// The protocol parameters.  Times are in milliseconds.
#[derive(Clone, Copy, Debug, PartialEq, Eq, Structural)]
pub struct Configuration {
    pub rto_initial: u64,
    pub rto_min: u64,
    pub rto_max: u64,
    pub max_burst: u32,
    pub max_init_retransmits: u32,
    pub association_max_retransmits: u32,
    pub path_max_retransmits: u32,
    pub hb_interval: u64,
    pub valid_cookie_life: u64,
    pub sack_delay: u64,
    pub outbound_streams: u16,
    pub inbound_streams: u16,
    pub send_queue_high_water: usize,
}

impl Configuration {
    /// The default parameters, with the given high-water mark of the send
    /// queue in bytes.
    pub fn with_send_queue_high_water(bytes: usize) -> (c: Configuration)
        ensures
            c == (Configuration {
                rto_initial: 3000,
                rto_min: 1000,
                rto_max: 60000,
                max_burst: 4,
                max_init_retransmits: 8,
                association_max_retransmits: 10,
                path_max_retransmits: 5,
                hb_interval: 30000,
                valid_cookie_life: 60000,
                sack_delay: 200,
                outbound_streams: 10,
                inbound_streams: 10,
                send_queue_high_water: bytes,
            }),
    {
        Configuration {
            rto_initial: 3000,
            rto_min: 1000,
            rto_max: 60000,
            max_burst: 4,
            max_init_retransmits: 8,
            association_max_retransmits: 10,
            path_max_retransmits: 5,
            hb_interval: 30000,
            valid_cookie_life: 60000,
            sack_delay: 200,
            outbound_streams: 10,
            inbound_streams: 10,
            send_queue_high_water: bytes,
        }
    }
}

/// The control state of one association.
#[derive(Clone, Copy, Debug, PartialEq, Eq, Structural)]
pub struct Association {
    pub state: AssociationState,
    /// The tag that the peer puts into packets for us; zero while unknown.
    pub local_tag: u32,
    /// The tag that we put into packets for the peer; zero while unknown.
    pub peer_tag: u32,
    pub initial_tsn: u32,
    /// The current retransmission timeout in milliseconds.
    pub rto: u64,
    /// How often the chunk under the running timer was retransmitted.
    pub retransmits: u32,
    /// Set once the association was aborted, shut down or timed out.
    pub terminated: bool,
    pub config: Configuration,
}

/// A step's result: the association afterwards, and either the actions to
/// perform or the error for the caller.
pub ghost struct Step {
    pub next: Association,
    pub result: Result<Seq<Action>, SctpError>,
}

/// A timeout doubled, and capped.
pub open spec fn backed_off(rto: u64, rto_max: u64) -> u64 {
    if 2 * rto <= rto_max {
        (2 * rto) as u64
    } else {
        rto_max
    }
}

impl Association {
    /// In every state past COOKIE-WAIT both verification tags are known and
    /// non-zero; in COOKIE-WAIT the local one is, and the peer's is still
    /// zero, as the verification tag of an INIT has to be.  A terminated
    /// association is CLOSED.
    pub open spec fn well_formed(self) -> bool {
        &&& self.terminated ==> self.state == AssociationState::Closed
        &&& self.state != AssociationState::Closed ==> self.local_tag != 0
        &&& self.state == AssociationState::CookieWait ==> self.peer_tag == 0
        &&& (self.state != AssociationState::Closed && self.state
            != AssociationState::CookieWait) ==> self.peer_tag != 0
    }

    /// The association after it ended, for whatever reason.
    pub open spec fn ended(self) -> Association {
        Association { state: AssociationState::Closed, terminated: true, ..self }
    }

    /// Unchanged, with nothing to do.
    pub open spec fn ignore(self) -> Step {
        Step { next: self, result: Ok(Seq::empty()) }
    }

    /// Unchanged, with an error for the caller.
    pub open spec fn refuse(self, e: SctpError) -> Step {
        Step { next: self, result: Err(e) }
    }

    /// Into `state` with a fresh retransmission count, sending `chunk` under
    /// the timer `timer`.
    pub open spec fn send_guarded(
        self,
        state: AssociationState,
        chunk: ControlChunk,
        timer: Timer,
    ) -> Step {
        Step {
            next: Association { state, retransmits: 0, ..self },
            result: Ok(
                seq![
                    Action::Emit { chunk, verification_tag: self.peer_tag },
                    Action::Arm { timer, millis: self.rto },
                ],
            ),
        }
    }

    /// The timer of `chunk` ran out: send it again under a doubled timeout,
    /// unless it was already sent again `limit` times; then abort.
    pub open spec fn retransmit(self, chunk: ControlChunk, timer: Timer, limit: u32) -> Step {
        if self.retransmits < limit {
            let rto = backed_off(self.rto, self.config.rto_max);
            Step {
                next: Association { retransmits: (self.retransmits + 1) as u32, rto, ..self },
                result: Ok(
                    seq![
                        Action::Emit { chunk, verification_tag: self.peer_tag },
                        Action::Arm { timer, millis: rto },
                    ],
                ),
            }
        } else {
            self.abort()
        }
    }

    /// Abort: an ABORT chunk with the peer's tag, as far as it is known, and
    /// the end of the association.
    pub open spec fn abort(self) -> Step {
        Step {
            next: self.ended(),
            result: Ok(
                seq![
                    Action::Emit { chunk: ControlChunk::Abort, verification_tag: self.peer_tag },
                    Action::Closed,
                ],
            ),
        }
    }

    /// What an event does to an association.
    ///
    /// A terminated association refuses everything with `Closed`.  Commands
    /// of the application that make no sense in the current state are refused
    /// with `BadState`; chunks and timers that do not are ignored.
    pub open spec fn spec_step(self, event: Event) -> Step {
        if self.terminated {
            self.refuse(SctpError::Closed)
        } else {
            match event {
                Event::Open { initiate_tag, initial_tsn } => {
                    if self.state == AssociationState::Closed && initiate_tag != 0 {
                        Step {
                            next: Association {
                                state: AssociationState::CookieWait,
                                local_tag: initiate_tag,
                                peer_tag: 0,
                                initial_tsn,
                                rto: self.config.rto_initial,
                                retransmits: 0,
                                ..self
                            },
                            result: Ok(
                                seq![
                                    Action::Emit { chunk: ControlChunk::Init, verification_tag: 0 },
                                    Action::Arm {
                                        timer: Timer::T1Init,
                                        millis: self.config.rto_initial,
                                    },
                                ],
                            ),
                        }
                    } else {
                        self.refuse(SctpError::BadState)
                    }
                },
                Event::Accept { local_tag, peer_tag, initial_tsn } => {
                    if self.state == AssociationState::Closed && local_tag != 0 && peer_tag != 0 {
                        Step {
                            next: Association {
                                state: AssociationState::Established,
                                local_tag,
                                peer_tag,
                                initial_tsn,
                                rto: self.config.rto_initial,
                                retransmits: 0,
                                ..self
                            },
                            result: Ok(
                                seq![
                                    Action::Emit {
                                        chunk: ControlChunk::CookieAck,
                                        verification_tag: peer_tag,
                                    },
                                    Action::Established,
                                ],
                            ),
                        }
                    } else {
                        self.refuse(SctpError::BadState)
                    }
                },
                Event::InitAck { peer_tag } => {
                    if self.state == AssociationState::CookieWait && peer_tag != 0 {
                        Step {
                            next: Association {
                                state: AssociationState::CookieEchoed,
                                peer_tag,
                                retransmits: 0,
                                ..self
                            },
                            result: Ok(
                                seq![
                                    Action::Cancel { timer: Timer::T1Init },
                                    Action::Emit {
                                        chunk: ControlChunk::CookieEcho,
                                        verification_tag: peer_tag,
                                    },
                                    Action::Arm { timer: Timer::T1Cookie, millis: self.rto },
                                ],
                            ),
                        }
                    } else {
                        self.ignore()
                    }
                },
                Event::CookieAck => {
                    if self.state == AssociationState::CookieEchoed {
                        Step {
                            next: Association {
                                state: AssociationState::Established,
                                retransmits: 0,
                                ..self
                            },
                            result: Ok(
                                seq![
                                    Action::Cancel { timer: Timer::T1Cookie },
                                    Action::Established,
                                ],
                            ),
                        }
                    } else {
                        self.ignore()
                    }
                },
                Event::Shutdown { outbound_empty } => {
                    if self.state != AssociationState::Established {
                        self.refuse(SctpError::BadState)
                    } else if outbound_empty {
                        self.send_guarded(
                            AssociationState::ShutdownSent,
                            ControlChunk::Shutdown,
                            Timer::T2Shutdown,
                        )
                    } else {
                        Step {
                            next: Association { state: AssociationState::ShutdownPending, ..self },
                            result: Ok(Seq::empty()),
                        }
                    }
                },
                Event::OutboundDrained => {
                    if self.state == AssociationState::ShutdownPending {
                        self.send_guarded(
                            AssociationState::ShutdownSent,
                            ControlChunk::Shutdown,
                            Timer::T2Shutdown,
                        )
                    } else if self.state == AssociationState::ShutdownReceived {
                        self.send_guarded(
                            AssociationState::ShutdownAckSent,
                            ControlChunk::ShutdownAck,
                            Timer::T2Shutdown,
                        )
                    } else {
                        self.ignore()
                    }
                },
                Event::ShutdownReceived { outbound_empty } => {
                    if self.state == AssociationState::ShutdownSent || ((self.state
                        == AssociationState::Established || self.state
                        == AssociationState::ShutdownPending) && outbound_empty) {
                        self.send_guarded(
                            AssociationState::ShutdownAckSent,
                            ControlChunk::ShutdownAck,
                            Timer::T2Shutdown,
                        )
                    } else if self.state == AssociationState::Established || self.state
                        == AssociationState::ShutdownPending {
                        Step {
                            next: Association { state: AssociationState::ShutdownReceived, ..self },
                            result: Ok(Seq::empty()),
                        }
                    } else {
                        self.ignore()
                    }
                },
                Event::ShutdownAckReceived => {
                    if self.state == AssociationState::ShutdownSent || self.state
                        == AssociationState::ShutdownAckSent {
                        Step {
                            next: self.ended(),
                            result: Ok(
                                seq![
                                    Action::Cancel { timer: Timer::T2Shutdown },
                                    Action::Emit {
                                        chunk: ControlChunk::ShutdownComplete,
                                        verification_tag: self.peer_tag,
                                    },
                                    Action::Closed,
                                ],
                            ),
                        }
                    } else {
                        self.ignore()
                    }
                },
                Event::ShutdownCompleteReceived => {
                    if self.state == AssociationState::ShutdownAckSent {
                        Step {
                            next: self.ended(),
                            result: Ok(
                                seq![Action::Cancel { timer: Timer::T2Shutdown }, Action::Closed],
                            ),
                        }
                    } else {
                        self.ignore()
                    }
                },
                Event::Abort => self.abort(),
                Event::AbortReceived => Step {
                    next: self.ended(),
                    result: Ok(seq![Action::Closed]),
                },
                Event::TimerExpired(timer) => {
                    if timer == Timer::T1Init && self.state == AssociationState::CookieWait {
                        self.retransmit(
                            ControlChunk::Init,
                            timer,
                            self.config.max_init_retransmits,
                        )
                    } else if timer == Timer::T1Cookie && self.state
                        == AssociationState::CookieEchoed {
                        self.retransmit(
                            ControlChunk::CookieEcho,
                            timer,
                            self.config.max_init_retransmits,
                        )
                    } else if timer == Timer::T2Shutdown && self.state
                        == AssociationState::ShutdownSent {
                        self.retransmit(
                            ControlChunk::Shutdown,
                            timer,
                            self.config.association_max_retransmits,
                        )
                    } else if timer == Timer::T2Shutdown && self.state
                        == AssociationState::ShutdownAckSent {
                        self.retransmit(
                            ControlChunk::ShutdownAck,
                            timer,
                            self.config.association_max_retransmits,
                        )
                    } else {
                        self.ignore()
                    }
                },
            }
        }
    }

    /// Whether user messages may be taken for sending: only while
    /// ESTABLISHED.  A terminated association answers `Closed`, any other
    /// state `BadState`.
    pub open spec fn spec_check_send(self) -> Result<(), SctpError> {
        if self.terminated {
            Err(SctpError::Closed)
        } else if self.state == AssociationState::Established {
            Ok(())
        } else {
            Err(SctpError::BadState)
        }
    }

    /// Whether inbound DATA may be taken and delivered: from ESTABLISHED
    /// until our own SHUTDOWN is acknowledged.  A terminated association
    /// answers `Closed`, any other state `BadState`.
    pub open spec fn spec_check_receive(self) -> Result<(), SctpError> {
        if self.terminated {
            Err(SctpError::Closed)
        } else if self.state == AssociationState::Established || self.state
            == AssociationState::ShutdownPending || self.state == AssociationState::ShutdownSent {
            Ok(())
        } else {
            Err(SctpError::BadState)
        }
    }

    /// The association after a run of events, errors notwithstanding.
    pub open spec fn run(self, events: Seq<Event>) -> Association
        decreases events.len(),
    {
        if events.len() == 0 {
            self
        } else {
            self.run(events.drop_last()).spec_step(events.last()).next
        }
    }

    /// Every step keeps an association well formed.
    pub proof fn lemma_step_well_formed(self, event: Event)
        requires
            self.well_formed(),
        ensures
            self.spec_step(event).next.well_formed(),
    {
    }

    /// Whatever the events, an association that started closed is well
    /// formed; so one that has reached ESTABLISHED, or any state after it,
    /// knows both verification tags, and neither is zero.
    pub proof fn lemma_tags_known_once_established(config: Configuration, events: Seq<Event>)
        ensures
            Association::spec_new(config).run(events).well_formed(),
            Association::spec_new(config).run(events).state != AssociationState::Closed
                && Association::spec_new(config).run(events).state
                != AssociationState::CookieWait ==> Association::spec_new(config).run(
                events,
            ).local_tag != 0 && Association::spec_new(config).run(events).peer_tag != 0,
        decreases events.len(),
    {
        if events.len() > 0 {
            Self::lemma_tags_known_once_established(config, events.drop_last());
            Association::spec_new(config).run(events.drop_last()).lemma_step_well_formed(
                events.last(),
            );
        }
    }

    /// The association ends exactly where a step announces `Closed`.
    pub proof fn lemma_closed_is_the_end(self, event: Event)
        requires
            !self.terminated,
        ensures
            self.spec_step(event).next.terminated <==> (self.spec_step(event).result is Ok
                && self.spec_step(event).result.unwrap().contains(Action::Closed)),
    {
        let step = self.spec_step(event);
        if step.result is Ok {
            let actions = step.result.unwrap();
            if step.next.terminated {
                assert(actions[actions.len() - 1] == Action::Closed);
            } else {
                assert forall|i: int| 0 <= i < actions.len() implies actions[i]
                    != Action::Closed by {}
            }
        }
    }

    /// After abort, shutdown completion or a fatal timeout nothing happens
    /// any more: whatever the events, every further step is refused with
    /// `Closed`, asks for no chunk and no notification, and leaves the
    /// association as it is; and no user message is taken or delivered.
    pub proof fn lemma_nothing_after_the_end(self, events: Seq<Event>, event: Event)
        requires
            self.terminated,
        ensures
            self.run(events) == self,
            self.run(events).spec_step(event).result == Err::<Seq<Action>, SctpError>(
                SctpError::Closed,
            ),
            self.run(events).spec_check_send() == Err::<(), SctpError>(SctpError::Closed),
            self.run(events).spec_check_receive() == Err::<(), SctpError>(SctpError::Closed),
        decreases events.len(),
    {
        if events.len() > 0 {
            self.lemma_nothing_after_the_end(events.drop_last(), events.last());
        }
    }

    /// A closed association that was never opened.
    pub open spec fn spec_new(config: Configuration) -> Association {
        Association {
            state: AssociationState::Closed,
            local_tag: 0,
            peer_tag: 0,
            initial_tsn: 0,
            rto: config.rto_initial,
            retransmits: 0,
            terminated: false,
            config,
        }
    }

    /// A closed association, ready for an active open or for the accept of
    /// a verified cookie.
    pub fn new(config: Configuration) -> (a: Association)
        ensures
            a == Association::spec_new(config),
    {
        Association {
            state: AssociationState::Closed,
            local_tag: 0,
            peer_tag: 0,
            initial_tsn: 0,
            rto: config.rto_initial,
            retransmits: 0,
            terminated: false,
            config,
        }
    }

    fn do_send_guarded(&mut self, state: AssociationState, chunk: ControlChunk, timer: Timer) -> (r:
        Result<Vec<Action>, SctpError>)
        ensures
            *final(self) == old(self).send_guarded(state, chunk, timer).next,
            r is Ok,
            Ok::<Seq<Action>, SctpError>(r.unwrap()@) == old(self).send_guarded(
                state,
                chunk,
                timer,
            ).result,
    {
        self.state = state;
        self.retransmits = 0;
        Ok(
            vec![
                Action::Emit { chunk, verification_tag: self.peer_tag },
                Action::Arm { timer, millis: self.rto },
            ],
        )
    }

    fn do_abort(&mut self) -> (r: Result<Vec<Action>, SctpError>)
        ensures
            *final(self) == old(self).abort().next,
            r is Ok,
            Ok::<Seq<Action>, SctpError>(r.unwrap()@) == old(self).abort().result,
    {
        self.state = AssociationState::Closed;
        self.terminated = true;
        Ok(
            vec![
                Action::Emit { chunk: ControlChunk::Abort, verification_tag: self.peer_tag },
                Action::Closed,
            ],
        )
    }

    fn do_retransmit(&mut self, chunk: ControlChunk, timer: Timer, limit: u32) -> (r: Result<
        Vec<Action>,
        SctpError,
    >)
        ensures
            *final(self) == old(self).retransmit(chunk, timer, limit).next,
            r is Ok,
            Ok::<Seq<Action>, SctpError>(r.unwrap()@) == old(self).retransmit(
                chunk,
                timer,
                limit,
            ).result,
    {
        if self.retransmits < limit {
            let rto: u64 = if self.rto > self.config.rto_max / 2 {
                self.config.rto_max
            } else {
                2 * self.rto
            };
            self.retransmits = self.retransmits + 1;
            self.rto = rto;
            Ok(
                vec![
                    Action::Emit { chunk, verification_tag: self.peer_tag },
                    Action::Arm { timer, millis: rto },
                ],
            )
        } else {
            self.do_abort()
        }
    }

    /// Whether a user message may be taken for sending now.
    pub fn check_send(&self) -> (r: Result<(), SctpError>)
        ensures
            r == self.spec_check_send(),
    {
        if self.terminated {
            Err(SctpError::Closed)
        } else if self.state == AssociationState::Established {
            Ok(())
        } else {
            Err(SctpError::BadState)
        }
    }

    /// Whether inbound DATA may be taken and delivered now.
    pub fn check_receive(&self) -> (r: Result<(), SctpError>)
        ensures
            r == self.spec_check_receive(),
    {
        if self.terminated {
            Err(SctpError::Closed)
        } else if self.state == AssociationState::Established || self.state
            == AssociationState::ShutdownPending || self.state == AssociationState::ShutdownSent {
            Ok(())
        } else {
            Err(SctpError::BadState)
        }
    }

    /// Takes one event: moves to the next state and returns what the engine
    /// is to do, or the error for the caller.
    pub fn step(&mut self, event: Event) -> (r: Result<Vec<Action>, SctpError>)
        ensures
            *final(self) == old(self).spec_step(event).next,
            match old(self).spec_step(event).result {
                Ok(actions) => r is Ok && r.unwrap()@ == actions,
                Err(e) => r == Err::<Vec<Action>, SctpError>(e),
            },
            old(self).well_formed() ==> final(self).well_formed(),
    {
        if self.terminated {
            return Err(SctpError::Closed);
        }
        let state = self.state;
        match event {
            Event::Open { initiate_tag, initial_tsn } => {
                if state == AssociationState::Closed && initiate_tag != 0 {
                    self.state = AssociationState::CookieWait;
                    self.local_tag = initiate_tag;
                    self.peer_tag = 0;
                    self.initial_tsn = initial_tsn;
                    self.rto = self.config.rto_initial;
                    self.retransmits = 0;
                    Ok(
                        vec![
                            Action::Emit { chunk: ControlChunk::Init, verification_tag: 0 },
                            Action::Arm { timer: Timer::T1Init, millis: self.config.rto_initial },
                        ],
                    )
                } else {
                    Err(SctpError::BadState)
                }
            },
            Event::Accept { local_tag, peer_tag, initial_tsn } => {
                if state == AssociationState::Closed && local_tag != 0 && peer_tag != 0 {
                    self.state = AssociationState::Established;
                    self.local_tag = local_tag;
                    self.peer_tag = peer_tag;
                    self.initial_tsn = initial_tsn;
                    self.rto = self.config.rto_initial;
                    self.retransmits = 0;
                    Ok(
                        vec![
                            Action::Emit {
                                chunk: ControlChunk::CookieAck,
                                verification_tag: peer_tag,
                            },
                            Action::Established,
                        ],
                    )
                } else {
                    Err(SctpError::BadState)
                }
            },
            Event::InitAck { peer_tag } => {
                if state == AssociationState::CookieWait && peer_tag != 0 {
                    self.state = AssociationState::CookieEchoed;
                    self.peer_tag = peer_tag;
                    self.retransmits = 0;
                    Ok(
                        vec![
                            Action::Cancel { timer: Timer::T1Init },
                            Action::Emit {
                                chunk: ControlChunk::CookieEcho,
                                verification_tag: peer_tag,
                            },
                            Action::Arm { timer: Timer::T1Cookie, millis: self.rto },
                        ],
                    )
                } else {
                    Ok(Vec::new())
                }
            },
            Event::CookieAck => {
                if state == AssociationState::CookieEchoed {
                    self.state = AssociationState::Established;
                    self.retransmits = 0;
                    Ok(vec![Action::Cancel { timer: Timer::T1Cookie }, Action::Established])
                } else {
                    Ok(Vec::new())
                }
            },
            Event::Shutdown { outbound_empty } => {
                if state != AssociationState::Established {
                    Err(SctpError::BadState)
                } else if outbound_empty {
                    self.do_send_guarded(
                        AssociationState::ShutdownSent,
                        ControlChunk::Shutdown,
                        Timer::T2Shutdown,
                    )
                } else {
                    self.state = AssociationState::ShutdownPending;
                    Ok(Vec::new())
                }
            },
            Event::OutboundDrained => {
                if state == AssociationState::ShutdownPending {
                    self.do_send_guarded(
                        AssociationState::ShutdownSent,
                        ControlChunk::Shutdown,
                        Timer::T2Shutdown,
                    )
                } else if state == AssociationState::ShutdownReceived {
                    self.do_send_guarded(
                        AssociationState::ShutdownAckSent,
                        ControlChunk::ShutdownAck,
                        Timer::T2Shutdown,
                    )
                } else {
                    Ok(Vec::new())
                }
            },
            Event::ShutdownReceived { outbound_empty } => {
                let open = state == AssociationState::Established || state
                    == AssociationState::ShutdownPending;
                if state == AssociationState::ShutdownSent || (open && outbound_empty) {
                    self.do_send_guarded(
                        AssociationState::ShutdownAckSent,
                        ControlChunk::ShutdownAck,
                        Timer::T2Shutdown,
                    )
                } else if open {
                    self.state = AssociationState::ShutdownReceived;
                    Ok(Vec::new())
                } else {
                    Ok(Vec::new())
                }
            },
            Event::ShutdownAckReceived => {
                if state == AssociationState::ShutdownSent || state
                    == AssociationState::ShutdownAckSent {
                    self.state = AssociationState::Closed;
                    self.terminated = true;
                    Ok(
                        vec![
                            Action::Cancel { timer: Timer::T2Shutdown },
                            Action::Emit {
                                chunk: ControlChunk::ShutdownComplete,
                                verification_tag: self.peer_tag,
                            },
                            Action::Closed,
                        ],
                    )
                } else {
                    Ok(Vec::new())
                }
            },
            Event::ShutdownCompleteReceived => {
                if state == AssociationState::ShutdownAckSent {
                    self.state = AssociationState::Closed;
                    self.terminated = true;
                    Ok(vec![Action::Cancel { timer: Timer::T2Shutdown }, Action::Closed])
                } else {
                    Ok(Vec::new())
                }
            },
            Event::Abort => self.do_abort(),
            Event::AbortReceived => {
                self.state = AssociationState::Closed;
                self.terminated = true;
                Ok(vec![Action::Closed])
            },
            Event::TimerExpired(timer) => {
                if timer == Timer::T1Init && state == AssociationState::CookieWait {
                    self.do_retransmit(ControlChunk::Init, timer, self.config.max_init_retransmits)
                } else if timer == Timer::T1Cookie && state == AssociationState::CookieEchoed {
                    self.do_retransmit(
                        ControlChunk::CookieEcho,
                        timer,
                        self.config.max_init_retransmits,
                    )
                } else if timer == Timer::T2Shutdown && state == AssociationState::ShutdownSent {
                    self.do_retransmit(
                        ControlChunk::Shutdown,
                        timer,
                        self.config.association_max_retransmits,
                    )
                } else if timer == Timer::T2Shutdown && state == AssociationState::ShutdownAckSent {
                    self.do_retransmit(
                        ControlChunk::ShutdownAck,
                        timer,
                        self.config.association_max_retransmits,
                    )
                } else {
                    Ok(Vec::new())
                }
            },
        }
    }
}

} // verus!
