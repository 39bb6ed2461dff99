//! One CONNECT request, from its arrival to the end of its tunnel.
//!
//! A [`Session`] makes every decision of the handler and performs none of its
//! work. The program feeds it the outcome of each step as an [`Event`] and
//! carries out the [`Action`] it answers with: read the blacklist, reply to
//! the client, await the upgrade, dial, relay, log.

use crate::authority::{check_host_port, is_host_port, option_text, parse_target, target_authority};
use crate::blacklist::{blacklist_entries, check_address_block, is_blocked};
use vstd::prelude::*;

verus! {

/// How far a session has come.
#[derive(Clone, Copy, Debug, PartialEq, Eq, Structural)]
pub enum Stage {
    /// The request has arrived; its target is not yet looked at.
    Received,
    /// The target named an authority that is a host-port pair; the blacklist
    /// is being read.
    AuthorityParsed,
    /// The authority is not blocked and the client has its empty success
    /// reply; the connection is being upgraded to a raw stream.
    BlacklistChecked,
    /// The client's connection is a raw stream; the destination is being
    /// dialed.
    Upgraded,
    /// The destination is connected and bytes are being relayed. A session
    /// is here from the moment its dial succeeds: nothing lies between the
    /// dial and the relay.
    Relaying,
    /// Nothing more will happen.
    Closed,
}

/// Why a CONNECT request is refused.
#[derive(Clone, Copy, Debug, PartialEq, Eq, Structural)]
pub enum Rejection {
    /// The target names no authority, or does not parse, or names an
    /// authority that is no host-port pair.
    InvalidTarget,
    /// The authority is on the blacklist.
    Blocked,
}

/// The step at which an accepted session broke off.
#[derive(Clone, Copy, Debug, PartialEq, Eq, Structural)]
pub enum Failure {
    /// The connection could not be upgraded; the reply was already sent.
    Upgrade,
    /// The destination could not be connected to.
    Dial,
    /// Reading or writing failed in one direction; no counts are known.
    Relay,
}

/// The bytes that a finished tunnel carried in each direction.
#[derive(Clone, Copy, Debug, PartialEq, Eq, Structural)]
pub struct TransferCounters {
    pub client_to_server: u64,
    pub server_to_client: u64,
}

/// The outcome of a step that the program made for a session.
#[derive(Debug, PartialEq, Eq)]
pub enum Event {
    /// The authority found in the request target, if any.
    Authority(Option<String>),
    /// The content of the blacklist file, or `None` if it could not be read.
    BlacklistRead(Option<Vec<u8>>),
    /// Whether the client's connection was upgraded.
    UpgradeFinished(bool),
    /// Whether the destination accepted the connection.
    DialFinished(bool),
    /// The counts of a relay that ran to its end, or `None` if it failed.
    RelayFinished(Option<TransferCounters>),
}

/// What the program has to do next for a session.
#[derive(Debug, PartialEq, Eq)]
pub enum Action {
    /// Read the blacklist file and report its content.
    ReadBlacklist,
    /// Refuse the request; nothing runs in the background.
    Reject(Rejection),
    /// Send the empty success reply and, apart from it, await the upgrade.
    Accept,
    /// Open a TCP connection to this authority.
    Dial(String),
    /// Relay bytes between client and destination until both directions end.
    Relay,
    /// Log the byte counts of the finished tunnel for this client.
    Report { client_addr: String, counters: TransferCounters },
    /// Log the failure; the session is over.
    Abandon(Failure),
}

/// An HTTP reply: status code and plain-text body.
#[derive(Debug, PartialEq, Eq)]
pub struct Reply {
    pub status: u16,
    pub body: String,
}

/// An [`Event`] as specifications see it.
pub enum EventView {
    Authority(Option<Seq<char>>),
    BlacklistRead(Option<Seq<u8>>),
    UpgradeFinished(bool),
    DialFinished(bool),
    RelayFinished(Option<TransferCounters>),
}

/// An [`Action`] as specifications see it.
pub enum ActionView {
    ReadBlacklist,
    Reject(Rejection),
    Accept,
    Dial(Seq<char>),
    Relay,
    Report { client_addr: Seq<char>, counters: TransferCounters },
    Abandon(Failure),
}

/// A [`Reply`] as specifications see it.
pub struct ReplyView {
    pub status: u16,
    pub body: Seq<char>,
}

/// A [`Session`] as specifications see it.
pub struct SessionView {
    pub stage: Stage,
    pub authority: Seq<char>,
    pub client_addr: Seq<char>,
}

impl View for Event {
    type V = EventView;

    open spec fn view(&self) -> EventView {
        match *self {
            Event::Authority(authority) => EventView::Authority(option_text(authority)),
            Event::BlacklistRead(Some(bytes)) => EventView::BlacklistRead(Some(bytes@)),
            Event::BlacklistRead(None) => EventView::BlacklistRead(None),
            Event::UpgradeFinished(ok) => EventView::UpgradeFinished(ok),
            Event::DialFinished(ok) => EventView::DialFinished(ok),
            Event::RelayFinished(counters) => EventView::RelayFinished(counters),
        }
    }
}

impl View for Action {
    type V = ActionView;

    open spec fn view(&self) -> ActionView {
        match *self {
            Action::ReadBlacklist => ActionView::ReadBlacklist,
            Action::Reject(rejection) => ActionView::Reject(rejection),
            Action::Accept => ActionView::Accept,
            Action::Dial(authority) => ActionView::Dial(authority@),
            Action::Relay => ActionView::Relay,
            Action::Report { client_addr, counters } => ActionView::Report {
                client_addr: client_addr@,
                counters,
            },
            Action::Abandon(failure) => ActionView::Abandon(failure),
        }
    }
}

impl View for Reply {
    type V = ReplyView;

    open spec fn view(&self) -> ReplyView {
        ReplyView { status: self.status, body: self.body@ }
    }
}

/// A session that has just received its request from `client_addr`.
pub open spec fn fresh(client_addr: Seq<char>) -> SessionView {
    SessionView { stage: Stage::Received, authority: Seq::empty(), client_addr }
}

/// The session `s` at another stage.
pub open spec fn at_stage(s: SessionView, stage: Stage) -> SessionView {
    SessionView { stage, ..s }
}

/// The handler's decisions: what a session at `s` becomes on `event`, and
/// what it asks for. `None` where the event does not belong to the stage.
pub open spec fn next(s: SessionView, event: EventView) -> Option<(SessionView, ActionView)> {
    match (s.stage, event) {
        (Stage::Received, EventView::Authority(None)) => Some(
            (at_stage(s, Stage::Closed), ActionView::Reject(Rejection::InvalidTarget)),
        ),
        (Stage::Received, EventView::Authority(Some(authority))) => if is_host_port(authority) {
            Some(
                (
                    SessionView { stage: Stage::AuthorityParsed, authority, ..s },
                    ActionView::ReadBlacklist,
                ),
            )
        } else {
            Some((at_stage(s, Stage::Closed), ActionView::Reject(Rejection::InvalidTarget)))
        },
        (Stage::AuthorityParsed, EventView::BlacklistRead(file)) => if is_blocked(
            s.authority,
            blacklist_entries(file),
        ) {
            Some((at_stage(s, Stage::Closed), ActionView::Reject(Rejection::Blocked)))
        } else {
            Some((at_stage(s, Stage::BlacklistChecked), ActionView::Accept))
        },
        (Stage::BlacklistChecked, EventView::UpgradeFinished(true)) => Some(
            (at_stage(s, Stage::Upgraded), ActionView::Dial(s.authority)),
        ),
        (Stage::BlacklistChecked, EventView::UpgradeFinished(false)) => Some(
            (at_stage(s, Stage::Closed), ActionView::Abandon(Failure::Upgrade)),
        ),
        (Stage::Upgraded, EventView::DialFinished(true)) => Some(
            (at_stage(s, Stage::Relaying), ActionView::Relay),
        ),
        (Stage::Upgraded, EventView::DialFinished(false)) => Some(
            (at_stage(s, Stage::Closed), ActionView::Abandon(Failure::Dial)),
        ),
        (Stage::Relaying, EventView::RelayFinished(Some(counters))) => Some(
            (
                at_stage(s, Stage::Closed),
                ActionView::Report { client_addr: s.client_addr, counters },
            ),
        ),
        (Stage::Relaying, EventView::RelayFinished(None)) => Some(
            (at_stage(s, Stage::Closed), ActionView::Abandon(Failure::Relay)),
        ),
        _ => None,
    }
}

/// The session that `s` becomes on `event`: `s` itself where the event does
/// not belong to its stage.
pub open spec fn after(s: SessionView, event: EventView) -> SessionView {
    match next(s, event) {
        Some((session, _)) => session,
        None => s,
    }
}

/// The action that a session at `s` answers `event` with, if any.
pub open spec fn answer(s: SessionView, event: EventView) -> Option<ActionView> {
    match next(s, event) {
        Some((_, action)) => Some(action),
        None => None,
    }
}

/// The view of an optional action.
pub open spec fn option_action(action: Option<Action>) -> Option<ActionView> {
    match action {
        Some(a) => Some(a@),
        None => None,
    }
}

/// The status of the reply to a refused request.
pub const STATUS_BAD_REQUEST: u16 = 400;

/// The status of the reply that lets the client use the connection as a
/// raw stream.
pub const STATUS_OK: u16 = 200;

/// What a client is told whose target names no authority.
pub const INVALID_TARGET_BODY: &'static str = "CONNECT must be to a socket address";

/// What a client is told whose destination is blocked.
pub const BLOCKED_BODY: &'static str = "This site is blocked";

/// The reply that an action sends to the client, if it sends one: a refusal
/// with its reason, or the empty success reply.
pub open spec fn reply_of(action: ActionView) -> Option<ReplyView> {
    match action {
        ActionView::Reject(Rejection::InvalidTarget) => Some(
            ReplyView { status: STATUS_BAD_REQUEST, body: INVALID_TARGET_BODY@ },
        ),
        ActionView::Reject(Rejection::Blocked) => Some(
            ReplyView { status: STATUS_BAD_REQUEST, body: BLOCKED_BODY@ },
        ),
        ActionView::Accept => Some(ReplyView { status: STATUS_OK, body: Seq::empty() }),
        _ => None,
    }
}

/// The view of an optional reply.
pub open spec fn option_reply(reply: Option<Reply>) -> Option<ReplyView> {
    match reply {
        Some(r) => Some(r@),
        None => None,
    }
}

impl Action {
    /// The reply that this action sends to the client, if it sends one.
    pub fn reply(&self) -> (reply: Option<Reply>)
        ensures
            option_reply(reply) == reply_of(self@),
    {
        match self {
            Action::Reject(Rejection::InvalidTarget) => Some(
                Reply { status: STATUS_BAD_REQUEST, body: INVALID_TARGET_BODY.to_owned() },
            ),
            Action::Reject(Rejection::Blocked) => Some(
                Reply { status: STATUS_BAD_REQUEST, body: BLOCKED_BODY.to_owned() },
            ),
            Action::Accept => Some(Reply { status: STATUS_OK, body: String::new() }),
            _ => None,
        }
    }
}

/// One CONNECT request and, if it is accepted, its tunnel.
#[derive(Debug)]
pub struct Session {
    stage: Stage,
    authority: String,
    client_addr: String,
}

impl View for Session {
    type V = SessionView;

    closed spec fn view(&self) -> SessionView {
        SessionView {
            stage: self.stage,
            authority: self.authority@,
            client_addr: self.client_addr@,
        }
    }
}

impl Session {
    /// The session of a request that has just arrived from `client_addr`.
    pub fn new(client_addr: String) -> (session: Session)
        ensures
            session@ == fresh(client_addr@),
    {
        Session { stage: Stage::Received, authority: String::new(), client_addr }
    }

    /// How far the session has come.
    pub fn stage(&self) -> (stage: Stage)
        ensures
            stage == self@.stage,
    {
        self.stage
    }

    /// The destination, once the target has been parsed and found to be a
    /// host-port pair; empty otherwise.
    pub fn authority(&self) -> (authority: &str)
        ensures
            authority@ == self@.authority,
    {
        self.authority.as_str()
    }

    /// The name of the client that sent the request.
    pub fn client_addr(&self) -> (client_addr: &str)
        ensures
            client_addr@ == self@.client_addr,
    {
        self.client_addr.as_str()
    }

    /// Takes in the outcome of the step that the last action asked for.
    /// Returns the next action, or `None` if `event` does not belong to the
    /// session's stage: the session is then unchanged.
    pub fn step(&mut self, event: Event) -> (action: Option<Action>)
        ensures
            final(self)@ == after(old(self)@, event@),
            option_action(action) == answer(old(self)@, event@),
    {
        match (self.stage, event) {
            (Stage::Received, Event::Authority(None)) => {
                self.stage = Stage::Closed;
                Some(Action::Reject(Rejection::InvalidTarget))
            },
            (Stage::Received, Event::Authority(Some(authority))) => {
                if check_host_port(authority.as_str()) {
                    self.stage = Stage::AuthorityParsed;
                    self.authority = authority;
                    Some(Action::ReadBlacklist)
                } else {
                    self.stage = Stage::Closed;
                    Some(Action::Reject(Rejection::InvalidTarget))
                }
            },
            (Stage::AuthorityParsed, Event::BlacklistRead(file)) => {
                let blocked = match &file {
                    Some(bytes) => check_address_block(self.authority.as_str(), Some(bytes.as_slice())),
                    None => check_address_block(self.authority.as_str(), None),
                };
                if blocked {
                    self.stage = Stage::Closed;
                    Some(Action::Reject(Rejection::Blocked))
                } else {
                    self.stage = Stage::BlacklistChecked;
                    Some(Action::Accept)
                }
            },
            (Stage::BlacklistChecked, Event::UpgradeFinished(ok)) => {
                if ok {
                    self.stage = Stage::Upgraded;
                    Some(Action::Dial(self.authority.clone()))
                } else {
                    self.stage = Stage::Closed;
                    Some(Action::Abandon(Failure::Upgrade))
                }
            },
            (Stage::Upgraded, Event::DialFinished(ok)) => {
                if ok {
                    self.stage = Stage::Relaying;
                    Some(Action::Relay)
                } else {
                    self.stage = Stage::Closed;
                    Some(Action::Abandon(Failure::Dial))
                }
            },
            (Stage::Relaying, Event::RelayFinished(Some(counters))) => {
                self.stage = Stage::Closed;
                Some(Action::Report { client_addr: self.client_addr.clone(), counters })
            },
            (Stage::Relaying, Event::RelayFinished(None)) => {
                self.stage = Stage::Closed;
                Some(Action::Abandon(Failure::Relay))
            },
            _ => None,
        }
    }

    /// Takes in the target of the request line: parses it and steps on the
    /// authority found.
    pub fn receive(&mut self, target: &str) -> (action: Option<Action>)
        ensures
            final(self)@ == after(old(self)@, EventView::Authority(target_authority(target@))),
            option_action(action) == answer(
                old(self)@,
                EventView::Authority(target_authority(target@)),
            ),
    {
        let authority = parse_target(target);
        self.step(Event::Authority(authority))
    }
}

} // verus!
