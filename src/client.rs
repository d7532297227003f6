//! The client engine: a two-state machine that sends one command at a time,
//! correlates the response that the ingress manager hands over, enforces the
//! blocking policy and paces commands with a cooldown.
//!
//! The engine does no I/O itself. Writing the command bytes, waiting for the
//! cooldown and driving the countdown timer are left to the caller:
//! `begin_send` hands out the bytes to write, `send` is told whether writing
//! succeeded, `check_response` is told whether the timer has expired, and
//! every timer restart the engine decides on is left in `take_timer_request`.
//!
//! What the queues yield is decided by the ingress manager's context, so each
//! operation that takes from a queue has a twin that takes the item as an
//! argument and whose contract fixes the whole outcome for every item.
use vstd::prelude::*;
use crate::codec::{Value, ValueModel};
use crate::command::{parse_result, urc_parsed_as, parse_urc, command_bytes, AtCommand, Urc, UrcSet};
use crate::error::{Error, CmdError, InternalError, NbError};
use crate::queues::{
    com_enqueue, res_dequeue, res_seen_empty, res_taken, urc_dequeue, urc_peek, urc_seen_empty,
    urc_taken, Command, ComProducer, ResConsumer, ResItem, UrcConsumer, RES_CAPACITY, URC_CAPACITY,
};

verus! {

/// Whether the AT client should block while waiting responses or return early.
#[derive(Debug, Copy, Clone, Hash, PartialEq, Eq, Structural)]
pub enum Mode {
    /// The function call will wait as long as necessary to complete the operation
    Blocking,
    /// The function call will not wait at all to complete the operation, and only do what it can.
    NonBlocking,
    /// The function call will wait only up the max timeout of each command to complete the operation.
    Timeout,
}

/// Whether a command is in flight.
#[derive(Debug, Copy, Clone, PartialEq, Eq, Structural)]
pub enum ClientState {
    Idle,
    AwaitingResponse,
}

/// The cooldown between commands when none is configured, in milliseconds.
pub const DEFAULT_COOLDOWN_MS: u32 = 20;

/// The engine's configuration, fixed for its lifetime.
#[derive(Debug, Copy, Clone, PartialEq, Eq, Structural)]
pub struct Config {
    pub mode: Mode,
    /// The least time between resolving one command and sending the next, in milliseconds.
    pub cmd_cooldown: u32,
}

impl Config {
    /// A configuration in `mode` with the default cooldown.
    pub fn new(mode: Mode) -> (r: Config)
        ensures
            r.mode == mode,
            r.cmd_cooldown == DEFAULT_COOLDOWN_MS,
    {
        Config { mode, cmd_cooldown: DEFAULT_COOLDOWN_MS }
    }

    /// The same configuration with another cooldown.
    pub fn cmd_cooldown(self, ms: u32) -> (r: Config)
        ensures
            r.mode == self.mode,
            r.cmd_cooldown == ms,
    {
        Config { mode: self.mode, cmd_cooldown: ms }
    }
}

/// The abstract state of a client.
pub struct ClientView {
    pub state: ClientState,
    pub config: Config,
    /// The timer restart the engine decided on and the caller has not carried out.
    pub timer: Option<u32>,
    /// Every signal the engine has offered the ingress manager, oldest first
    /// (a full signal queue drops one).
    pub signals: Seq<Command>,
    /// How many responses the engine has taken from the response queue.
    pub res_taken: nat,
    /// Whether the engine's latest poll found the response queue empty.
    pub res_seen_empty: bool,
    /// How many URCs the engine has taken from the URC queue.
    pub urc_taken: nat,
    /// Whether the engine's latest poll found the URC queue empty.
    pub urc_seen_empty: bool,
}

/// The state after one poll of the response queue yielded `item`.
pub open spec fn polled_res(pre: ClientView, item: Option<ResItem>) -> ClientView {
    match item {
        Some(_) => ClientView { res_taken: pre.res_taken + 1, res_seen_empty: false, ..pre },
        None => ClientView { res_seen_empty: true, ..pre },
    }
}

/// Whether `remove` is the decision on a URC `raw` that `consider_urc` makes:
/// one that does not parse is removed, one that parses is removed exactly
/// when `f` says so.
pub open spec fn urc_decision<F: FnOnce(Urc) -> bool>(urcs: UrcSet, raw: Seq<u8>, f: F, remove: bool) -> bool {
    &&& parse_urc(urcs.variants@, raw) is None ==> remove
    &&& parse_urc(urcs.variants@, raw) is Some ==> exists|u: Urc|
        urc_parsed_as(urcs.variants@, raw, u) && #[trigger] f.ensures((u,), remove)
}

/// The framing result of a response, as plain values.
pub open spec fn item_view(i: ResItem) -> Result<Seq<u8>, InternalError> {
    match i {
        Ok(b) => Ok(b@),
        Err(e) => Err(e),
    }
}

/// The view of a polled outcome.
pub open spec fn outcome_view(r: Result<Vec<Value>, NbError<Error<CmdError>>>) -> Result<
    Seq<ValueModel>,
    NbError<Error<CmdError>>,
> {
    match r {
        Ok(v) => Ok(crate::codec::values_view(v@)),
        Err(e) => Err(e),
    }
}

/// Lifts a parse result into a polled outcome.
pub open spec fn lift(p: Result<Seq<ValueModel>, Error<CmdError>>) -> Result<
    Seq<ValueModel>,
    NbError<Error<CmdError>>,
> {
    match p {
        Ok(v) => Ok(v),
        Err(e) => Err(NbError::Other(e)),
    }
}

/// The decision on a URC: remove one that does not parse, else ask `f`.
fn decide_urc<F: FnOnce(Urc) -> bool>(urcs: &UrcSet, raw: &[u8], f: F) -> (remove: bool)
    requires
        forall|u: Urc| f.requires((u,)),
    ensures
        urc_decision(*urcs, raw@, f, remove),
{
    match urcs.parse(raw) {
        Some(u) => f(u),
        None => true,
    }
}

/// The client engine. It holds the consuming halves of the response and URC
/// queues and the producing half of the signal queue; the ingress manager
/// holds the other halves in its own context.
pub struct Client<'a> {
    res_c: ResConsumer<'a>,
    urc_c: UrcConsumer<'a>,
    com_p: ComProducer<'a>,
    state: ClientState,
    config: Config,
    timer: Option<u32>,
    signals: Ghost<Seq<Command>>,
}

impl<'a> View for Client<'a> {
    type V = ClientView;

    closed spec fn view(&self) -> ClientView {
        ClientView {
            state: self.state,
            config: self.config,
            timer: self.timer,
            signals: self.signals@,
            res_taken: res_taken(self.res_c),
            res_seen_empty: res_seen_empty(self.res_c),
            urc_taken: urc_taken(self.urc_c),
            urc_seen_empty: urc_seen_empty(self.urc_c),
        }
    }
}

impl<'a> Client<'a> {
    /// A client in state `Idle` over the given queue halves.
    pub fn new(res_c: ResConsumer<'a>, urc_c: UrcConsumer<'a>, com_p: ComProducer<'a>, config: Config) -> (r: Self)
        ensures
            r@.state == ClientState::Idle,
            r@.config == config,
            r@.timer is None,
            r@.signals == Seq::<Command>::empty(),
            r@.res_taken == res_taken(res_c),
            r@.res_seen_empty == res_seen_empty(res_c),
            r@.urc_taken == urc_taken(urc_c),
            r@.urc_seen_empty == urc_seen_empty(urc_c),
    {
        Client {
            res_c,
            urc_c,
            com_p,
            state: ClientState::Idle,
            config,
            timer: None,
            signals: Ghost(Seq::empty()),
        }
    }

    /// The configured blocking mode.
    pub fn get_mode(&self) -> (r: Mode)
        ensures
            r == self@.config.mode,
    {
        self.config.mode
    }

    /// Whether a command is in flight.
    pub fn state(&self) -> (r: ClientState)
        ensures
            r == self@.state,
    {
        self.state
    }

    /// Takes the timer restart the engine decided on, if any: the caller
    /// restarts its countdown timer with that many milliseconds.
    pub fn take_timer_request(&mut self) -> (r: Option<u32>)
        ensures
            r == old(self)@.timer,
            final(self)@ == (ClientView { timer: None, ..old(self)@ }),
    {
        let r = self.timer;
        self.timer = None;
        r
    }

    /// Best-effort signal to the ingress manager: a full queue drops it.
    fn signal(&mut self, c: Command)
        ensures
            final(self)@ == (ClientView { signals: old(self)@.signals.push(c), ..old(self)@ }),
    {
        let _ = com_enqueue(&mut self.com_p, c);
        self.signals = Ghost(self.signals@.push(c));
    }

    /// First step of `send`. When idle: signals `ForceReceiveState` if the
    /// command asks for it and returns the command's bytes, which the caller
    /// writes and flushes once the cooldown timer has elapsed. With a command
    /// in flight: returns `None`, nothing is to be written.
    pub fn begin_send(&mut self, cmd: &AtCommand) -> (r: Option<Vec<u8>>)
        requires
            cmd.wf(),
        ensures
            old(self)@.state == ClientState::Idle ==> r is Some && r.unwrap()@ == command_bytes(*cmd)
                && final(self)@ == (ClientView {
                signals: if cmd.force_receive_state {
                    old(self)@.signals.push(Command::ForceReceiveState)
                } else {
                    old(self)@.signals
                },
                ..old(self)@
            }),
            old(self)@.state == ClientState::AwaitingResponse ==> r is None && final(self)@ == old(self)@,
    {
        match self.state {
            ClientState::Idle => {
                if cmd.force_receive_state {
                    self.signal(Command::ForceReceiveState);
                }
                Some(cmd.as_bytes())
            },
            ClientState::AwaitingResponse => None,
        }
    }

    /// The state a `send` checks the response from, once the command is out.
    pub open spec fn sent(pre: ClientView, cmd: &AtCommand) -> ClientView {
        ClientView {
            state: ClientState::AwaitingResponse,
            timer: if pre.config.mode == Mode::Timeout {
                Some(cmd.timeout_ms)
            } else {
                pre.timer
            },
            ..pre
        }
    }

    /// Second step of `send`; `written` tells whether the bytes of
    /// `begin_send` were all written and flushed (it is not read with a command
    /// already in flight). A failed write aborts with `Write` and leaves the
    /// engine idle. A command that expects no response resolves at once to the
    /// parse of an empty payload. Otherwise the response queue is checked
    /// once; in `Timeout` mode the command's deadline is requested of the
    /// timer first.
    pub fn send(&mut self, cmd: &AtCommand, written: bool) -> (r: Result<Vec<Value>, NbError<Error<CmdError>>>)
        ensures
            old(self)@.state == ClientState::Idle && !written ==> r == Err::<Vec<Value>, NbError<Error<CmdError>>>(
                NbError::Other(Error::Write),
            ) && final(self)@ == old(self)@,
            (old(self)@.state == ClientState::AwaitingResponse || written) && !cmd.expects_response_code
                ==> final(self)@ == (ClientView { state: ClientState::Idle, ..old(self)@ }) && outcome_view(r)
                == lift(parse_result(*cmd, Ok(Seq::empty()))),
            (old(self)@.state == ClientState::AwaitingResponse || written) && cmd.expects_response_code
                ==> exists|item: Option<ResItem>|
                Self::checked(
                    polled_res(Self::sent(old(self)@, cmd), item),
                    cmd,
                    item,
                    false,
                    final(self)@,
                    outcome_view(r),
                ),
    {
        if let ClientState::Idle = self.state {
            if !written {
                return Err(NbError::Other(Error::Write));
            }
            self.state = ClientState::AwaitingResponse;
        }
        if !cmd.expects_response_code {
            self.state = ClientState::Idle;
            let empty: Vec<u8> = Vec::new();
            return match cmd.parse(Ok(empty.as_slice())) {
                Ok(v) => Ok(v),
                Err(e) => Err(NbError::Other(e)),
            };
        }
        if let Mode::Timeout = self.config.mode {
            self.timer = Some(cmd.timeout_ms);
        }
        self.check_response(cmd, false)
    }

    /// What one check does, from state `pre` with `item` taken from the
    /// response queue (`None`: nothing was ready), to state `post` with
    /// outcome `out`. Every exit from a check that consumed a response, or
    /// timed out, requests the cooldown.
    pub open spec fn checked(
        pre: ClientView,
        cmd: &AtCommand,
        item: Option<ResItem>,
        timer_expired: bool,
        post: ClientView,
        out: Result<Seq<ValueModel>, NbError<Error<CmdError>>>,
    ) -> bool {
        match item {
            Some(i) => {
                let p = parse_result(*cmd, item_view(i));
                &&& post == (ClientView {
                    state: ClientState::Idle,
                    timer: Some(pre.config.cmd_cooldown),
                    ..pre
                })
                &&& out == if p is Ok && pre.state == ClientState::Idle {
                    Err(NbError::WouldBlock)
                } else {
                    lift(p)
                }
            },
            None => if pre.config.mode == Mode::Timeout && timer_expired {
                post == (ClientView {
                    state: ClientState::Idle,
                    timer: Some(pre.config.cmd_cooldown),
                    signals: pre.signals.push(Command::Reset),
                    ..pre
                }) && out == Err::<Seq<ValueModel>, NbError<Error<CmdError>>>(
                    NbError::Other(Error::Timeout),
                )
            } else {
                post == pre && out == Err::<Seq<ValueModel>, NbError<Error<CmdError>>>(
                    NbError::WouldBlock,
                )
            },
        }
    }

    /// Checks once for the response of `cmd`: polls the response queue once
    /// (taking at most one item) and goes on as `check_response_item`.
    pub fn check_response(&mut self, cmd: &AtCommand, timer_expired: bool) -> (r: Result<
        Vec<Value>,
        NbError<Error<CmdError>>,
    >)
        ensures
            exists|item: Option<ResItem>|
                Self::checked(polled_res(old(self)@, item), cmd, item, timer_expired, final(self)@, outcome_view(r)),
    {
        let item = res_dequeue(&mut self.res_c);
        let ghost taken = item;
        assert(self@ == polled_res(old(self)@, taken));
        let r = self.check_response_item(cmd, item, timer_expired);
        assert(Self::checked(polled_res(old(self)@, taken), cmd, taken, timer_expired, self@, outcome_view(r)));
        r
    }

    /// One check of the response of `cmd`, given what the response queue
    /// yielded. A response is decoded: a decode error, or a value while a
    /// command is in flight, resolves the command. A value with no command in
    /// flight is spurious: it is dropped and reported as would-block. Either
    /// way the engine is idle and requests the cooldown. With no response, in
    /// `Timeout` mode once `timer_expired`, the command times out, the
    /// cooldown is requested and the ingress manager is told to reset.
    /// Otherwise: would-block, nothing changes.
    pub fn check_response_item(&mut self, cmd: &AtCommand, item: Option<ResItem>, timer_expired: bool) -> (r: Result<
        Vec<Value>,
        NbError<Error<CmdError>>,
    >)
        ensures
            Self::checked(old(self)@, cmd, item, timer_expired, final(self)@, outcome_view(r)),
    {
        match item {
            Some(item) => {
                let p = match &item {
                    Ok(b) => cmd.parse(Ok(b.as_slice())),
                    Err(e) => cmd.parse(Err(e)),
                };
                let was_waiting = self.state == ClientState::AwaitingResponse;
                self.timer = Some(self.config.cmd_cooldown);
                self.state = ClientState::Idle;
                match p {
                    Ok(v) => {
                        if was_waiting {
                            Ok(v)
                        } else {
                            Err(NbError::WouldBlock)
                        }
                    },
                    Err(e) => Err(NbError::Other(e)),
                }
            },
            None => {
                if let Mode::Timeout = self.config.mode {
                    if timer_expired {
                        self.state = ClientState::Idle;
                        self.timer = Some(self.config.cmd_cooldown);
                        self.signal(Command::Reset);
                        return Err(NbError::Other(Error::Timeout));
                    }
                }
                Err(NbError::WouldBlock)
            },
        }
    }

    /// Looks at the oldest URC, if one is ready, and removes it exactly when
    /// `consider_urc` decides so; see there. With none ready, only the empty
    /// poll is recorded.
    pub fn peek_urc_with<F: FnOnce(Urc) -> bool>(&mut self, urcs: &UrcSet, f: F)
        requires
            forall|u: Urc| f.requires((u,)),
        ensures
            final(self)@ == (ClientView { urc_seen_empty: true, ..old(self)@ }) || exists|raw: Seq<u8>, remove: bool|
                urc_decision(*urcs, raw, f, remove) && final(self)@ == (ClientView {
                    timer: Some(old(self)@.config.cmd_cooldown),
                    urc_taken: if remove {
                        old(self)@.urc_taken + 1
                    } else {
                        old(self)@.urc_taken
                    },
                    urc_seen_empty: false,
                    ..old(self)@
                }),
    {
        match urc_peek(&mut self.urc_c) {
            Some(raw) => {
                self.timer = Some(self.config.cmd_cooldown);
                let remove = decide_urc(urcs, raw.as_slice(), f);
                if remove {
                    let _ = urc_dequeue(&mut self.urc_c);
                }
                assert(urc_decision(*urcs, raw@, f, remove));
            },
            None => {},
        }
    }

    /// Decides on a URC looked at in its queue: its arrival requests the
    /// cooldown. One that does not parse is to be removed (`true`). One that
    /// parses is handed to `f`, and is to be removed exactly when `f` returns
    /// true; otherwise it stays queued.
    pub fn consider_urc<F: FnOnce(Urc) -> bool>(&mut self, urcs: &UrcSet, raw: &[u8], f: F) -> (remove: bool)
        requires
            forall|u: Urc| f.requires((u,)),
        ensures
            final(self)@ == (ClientView { timer: Some(old(self)@.config.cmd_cooldown), ..old(self)@ }),
            urc_decision(*urcs, raw@, f, remove),
    {
        self.timer = Some(self.config.cmd_cooldown);
        decide_urc(urcs, raw, f)
    }

    /// A URC `raw` was taken from `pre` to `post`, with `r` its parse.
    pub open spec fn took_urc(pre: ClientView, urcs: UrcSet, raw: Seq<u8>, post: ClientView, r: Option<Urc>) -> bool {
        &&& post == (ClientView {
            timer: Some(pre.config.cmd_cooldown),
            urc_taken: pre.urc_taken + 1,
            urc_seen_empty: false,
            ..pre
        })
        &&& (r is Some <==> parse_urc(urcs.variants@, raw) is Some)
        &&& (r is Some ==> urc_parsed_as(urcs.variants@, raw, r.unwrap()))
    }

    /// Takes the oldest URC, if one is ready, and returns what it parses to.
    /// Its arrival requests the cooldown; it is removed whether it parses or not.
    pub fn check_urc(&mut self, urcs: &UrcSet) -> (r: Option<Urc>)
        ensures
            (final(self)@ == (ClientView { urc_seen_empty: true, ..old(self)@ }) && r is None) || (exists|raw: Seq<u8>|
                #[trigger] Self::took_urc(old(self)@, *urcs, raw, final(self)@, r)),
    {
        match urc_dequeue(&mut self.urc_c) {
            Some(raw) => {
                self.timer = Some(self.config.cmd_cooldown);
                let r = urcs.parse(raw.as_slice());
                assert(self@ == (ClientView {
                    timer: Some(old(self)@.config.cmd_cooldown),
                    urc_taken: old(self)@.urc_taken + 1,
                    urc_seen_empty: false,
                    ..old(self)@
                }));
                assert(Self::took_urc(old(self)@, *urcs, raw@, self@, r));
                r
            },
            None => {
                assert(self@ == (ClientView { urc_seen_empty: true, ..old(self)@ }));
                None
            },
        }
    }

    /// Tells the ingress manager to reset, drains the response and URC queues
    /// and returns to `Idle`, abandoning any command in flight. Each queue is
    /// polled until a poll finds it empty, but at most its capacity of times,
    /// so that the drain ends even while the producer keeps pushing.
    pub fn reset(&mut self)
        ensures
            final(self)@ == (ClientView {
                state: ClientState::Idle,
                signals: old(self)@.signals.push(Command::Reset),
                res_taken: final(self)@.res_taken,
                res_seen_empty: final(self)@.res_seen_empty,
                urc_taken: final(self)@.urc_taken,
                urc_seen_empty: final(self)@.urc_seen_empty,
                ..old(self)@
            }),
            old(self)@.res_taken <= final(self)@.res_taken <= old(self)@.res_taken + RES_CAPACITY,
            final(self)@.res_taken < old(self)@.res_taken + RES_CAPACITY ==> final(self)@.res_seen_empty,
            old(self)@.urc_taken <= final(self)@.urc_taken <= old(self)@.urc_taken + URC_CAPACITY,
            final(self)@.urc_taken < old(self)@.urc_taken + URC_CAPACITY ==> final(self)@.urc_seen_empty,
    {
        self.signal(Command::Reset);
        let mut i: usize = 0;
        let mut empty = false;
        while i < RES_CAPACITY && !empty
            invariant
                0 <= i <= RES_CAPACITY,
                self@ == (ClientView {
                    signals: old(self)@.signals.push(Command::Reset),
                    res_taken: old(self)@.res_taken + i as nat,
                    res_seen_empty: self@.res_seen_empty,
                    ..old(self)@
                }),
                empty ==> self@.res_seen_empty,
            decreases RES_CAPACITY - i + if empty { 0int } else { 1int },
        {
            if res_dequeue(&mut self.res_c).is_none() {
                empty = true;
            } else {
                i += 1;
            }
        }
        let ghost mid = self@;
        let mut i: usize = 0;
        let mut empty = false;
        while i < URC_CAPACITY && !empty
            invariant
                0 <= i <= URC_CAPACITY,
                self@ == (ClientView {
                    urc_taken: mid.urc_taken + i as nat,
                    urc_seen_empty: self@.urc_seen_empty,
                    ..mid
                }),
                empty ==> self@.urc_seen_empty,
            decreases URC_CAPACITY - i + if empty { 0int } else { 1int },
        {
            if urc_dequeue(&mut self.urc_c).is_none() {
                empty = true;
            } else {
                i += 1;
            }
        }
        self.state = ClientState::Idle;
    }
} // impl Client

} // verus!
