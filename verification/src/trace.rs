//! Whole runs of a session, and what holds of every one of them.

use crate::authority::is_host_port;
use crate::blacklist::{
    blacklist_entries, is_blocked, lemma_unreadable_file_blocks_no_host_port,
    lemma_unreadable_file_blocks_only_sentinel, sentinel_entry,
};
use crate::session::{
    after, answer, at_stage, fresh, reply_of, ActionView, EventView, Rejection, ReplyView,
    SessionView, Stage, TransferCounters, BLOCKED_BODY, INVALID_TARGET_BODY,
};
use vstd::prelude::*;

verus! {

/// What a session at `s` has become after a run of events, and the actions
/// it has asked for on the way, in order. Events that do not belong to the
/// stage they meet leave no trace.
pub open spec fn run(s: SessionView, events: Seq<EventView>) -> (SessionView, Seq<ActionView>)
    decreases events.len(),
{
    if events.len() == 0 {
        (s, Seq::empty())
    } else {
        let (end, later) = run(after(s, events[0]), events.skip(1));
        match answer(s, events[0]) {
            Some(action) => (end, seq![action] + later),
            None => (end, later),
        }
    }
}

/// A run that starts with `event` is that step followed by the run of the
/// rest.
pub proof fn lemma_run_first(s: SessionView, event: EventView, rest: Seq<EventView>)
    ensures
        run(s, seq![event] + rest).0 == run(after(s, event), rest).0,
        run(s, seq![event] + rest).1 == match answer(s, event) {
            Some(action) => seq![action] + run(after(s, event), rest).1,
            None => run(after(s, event), rest).1,
        },
{
    let events = seq![event] + rest;
    assert(events.skip(1) == rest);
}

/// A closed session stays closed and asks for nothing, whatever comes in.
pub proof fn lemma_closed_is_final(s: SessionView, events: Seq<EventView>)
    requires
        s.stage == Stage::Closed,
    ensures
        run(s, events) == (s, Seq::<ActionView>::empty()),
    decreases events.len(),
{
    if events.len() > 0 {
        lemma_closed_is_final(s, events.skip(1));
    }
}

/// The place of a stage in the order in which a session passes its stages.
pub open spec fn stage_rank(stage: Stage) -> nat {
    match stage {
        Stage::Received => 0,
        Stage::AuthorityParsed => 1,
        Stage::BlacklistChecked => 2,
        Stage::Upgraded => 3,
        Stage::Relaying => 4,
        Stage::Closed => 5,
    }
}

/// Every event that a session answers moves it to a later stage; an event
/// that it does not answer leaves it as it is. The client is never changed,
/// and the authority only by the event that a session at `Received` answers.
pub proof fn lemma_step_advances(s: SessionView, event: EventView)
    ensures
        answer(s, event) is Some ==> stage_rank(after(s, event).stage) > stage_rank(s.stage),
        answer(s, event) is None ==> after(s, event) == s,
        after(s, event).client_addr == s.client_addr,
        s.stage != Stage::Received ==> after(s, event).authority == s.authority,
{
}

/// Sessions only move forward. Over any run the stage never falls back, the
/// client stays the one that sent the request, the authority stays once it is
/// parsed, and the session asks for no more actions than there are stages
/// left to pass: five at most in its whole life.
pub proof fn lemma_run_advances(s: SessionView, events: Seq<EventView>)
    ensures
        stage_rank(run(s, events).0.stage) >= stage_rank(s.stage),
        run(s, events).0.client_addr == s.client_addr,
        s.stage != Stage::Received ==> run(s, events).0.authority == s.authority,
        run(s, events).1.len() <= stage_rank(run(s, events).0.stage) - stage_rank(s.stage),
    decreases events.len(),
{
    if events.len() > 0 {
        lemma_step_advances(s, events[0]);
        lemma_run_advances(after(s, events[0]), events.skip(1));
    }
}

/// A request whose target names no authority is refused with status 400, and
/// that is all that ever happens: no blacklist read, no upgrade, no dial,
/// whatever events follow.
pub proof fn lemma_invalid_target_is_refused(client_addr: Seq<char>, rest: Seq<EventView>)
    ensures
        run(fresh(client_addr), seq![EventView::Authority(None)] + rest) == (
            at_stage(fresh(client_addr), Stage::Closed),
            seq![ActionView::Reject(Rejection::InvalidTarget)],
        ),
        reply_of(ActionView::Reject(Rejection::InvalidTarget)) == Some(
            ReplyView { status: 400, body: INVALID_TARGET_BODY@ },
        ),
{
    let s = fresh(client_addr);
    lemma_run_first(s, EventView::Authority(None), rest);
    lemma_closed_is_final(at_stage(s, Stage::Closed), rest);
}

/// A request whose target names an authority that is no host-port pair is
/// refused with status 400, and that is all that ever happens: no blacklist
/// read, no upgrade, no dial, whatever events follow.
pub proof fn lemma_malformed_target_is_refused(
    client_addr: Seq<char>,
    authority: Seq<char>,
    rest: Seq<EventView>,
)
    requires
        !is_host_port(authority),
    ensures
        run(fresh(client_addr), seq![EventView::Authority(Some(authority))] + rest) == (
            at_stage(fresh(client_addr), Stage::Closed),
            seq![ActionView::Reject(Rejection::InvalidTarget)],
        ),
        reply_of(ActionView::Reject(Rejection::InvalidTarget)) == Some(
            ReplyView { status: 400, body: INVALID_TARGET_BODY@ },
        ),
{
    let s = fresh(client_addr);
    lemma_run_first(s, EventView::Authority(Some(authority)), rest);
    lemma_closed_is_final(at_stage(s, Stage::Closed), rest);
}

/// A request for a blocked authority is refused with status 400 once the
/// blacklist has been read, and that is all that ever happens: the session
/// asks for no upgrade and no dial, whatever events follow.
pub proof fn lemma_blocked_target_is_never_dialed(
    client_addr: Seq<char>,
    authority: Seq<char>,
    file: Option<Seq<u8>>,
    rest: Seq<EventView>,
)
    requires
        is_host_port(authority),
        is_blocked(authority, blacklist_entries(file)),
    ensures
        run(
            fresh(client_addr),
            seq![EventView::Authority(Some(authority)), EventView::BlacklistRead(file)] + rest,
        ) == (
            SessionView { stage: Stage::Closed, authority, client_addr },
            seq![ActionView::ReadBlacklist, ActionView::Reject(Rejection::Blocked)],
        ),
        reply_of(ActionView::Reject(Rejection::Blocked)) == Some(
            ReplyView { status: 400, body: BLOCKED_BODY@ },
        ),
{
    let s0 = fresh(client_addr);
    let e0 = EventView::Authority(Some(authority));
    let e1 = EventView::BlacklistRead(file);
    let s1 = after(s0, e0);
    let s2 = after(s1, e1);
    assert(seq![e0, e1] + rest == seq![e0] + (seq![e1] + rest));
    lemma_run_first(s0, e0, seq![e1] + rest);
    lemma_run_first(s1, e1, rest);
    lemma_closed_is_final(s2, rest);
}

/// Fail-open at the handler: when the blacklist file cannot be read, every
/// authority but the sentinel is accepted.
pub proof fn lemma_unreadable_blacklist_accepts(s: SessionView)
    requires
        s.stage == Stage::AuthorityParsed,
        s.authority != sentinel_entry(),
    ensures
        answer(s, EventView::BlacklistRead(None)) == Some(ActionView::Accept),
        after(s, EventView::BlacklistRead(None)) == at_stage(s, Stage::BlacklistChecked),
{
    lemma_unreadable_file_blocks_only_sentinel(s.authority);
}

/// Fail-open for every request: when the blacklist file cannot be read, a
/// request for any host-port pair is accepted.
pub proof fn lemma_unreadable_blacklist_accepts_host_port(
    client_addr: Seq<char>,
    authority: Seq<char>,
)
    requires
        is_host_port(authority),
    ensures
        run(
            fresh(client_addr),
            seq![EventView::Authority(Some(authority)), EventView::BlacklistRead(None)],
        ) == (
            SessionView { stage: Stage::BlacklistChecked, authority, client_addr },
            seq![ActionView::ReadBlacklist, ActionView::Accept],
        ),
{
    let i = choose|i: int| 0 <= i < authority.len() && #[trigger] authority[i] == ':';
    lemma_unreadable_file_blocks_no_host_port(authority);
    lemma_reply_is_decided(client_addr, Some(authority), None);
}

/// Whether a request is let through: its target names an authority, the
/// authority is a host-port pair, and the blacklist does not block it.
pub open spec fn admitted(authority: Option<Seq<char>>, file: Option<Seq<u8>>) -> bool {
    match authority {
        Some(a) => is_host_port(a) && !is_blocked(a, blacklist_entries(file)),
        None => false,
    }
}

/// The reply is decided by the target and the blacklist alone. A request that
/// is let through gets status 200 with an empty body and is accepted; every
/// other request gets status 400 and is not: its session is closed and has
/// asked for no upgrade. The blacklist is read only for a host-port pair.
pub proof fn lemma_reply_is_decided(
    client_addr: Seq<char>,
    authority: Option<Seq<char>>,
    file: Option<Seq<u8>>,
)
    ensures
        ({
            let (end, actions) = run(
                fresh(client_addr),
                seq![EventView::Authority(authority), EventView::BlacklistRead(file)],
            );
            &&& actions.len() > 0
            &&& reply_of(actions.last()) matches Some(reply)
            &&& reply.status == (if admitted(authority, file) {
                200u16
            } else {
                400u16
            })
            &&& admitted(authority, file) ==> reply.body.len() == 0 && actions == seq![
                ActionView::ReadBlacklist,
                ActionView::Accept,
            ] && end == (SessionView {
                stage: Stage::BlacklistChecked,
                authority: authority->0,
                client_addr,
            })
            &&& !admitted(authority, file) ==> end.stage == Stage::Closed && !actions.contains(
                ActionView::Accept,
            )
            &&& actions.contains(ActionView::ReadBlacklist) <==> (authority matches Some(a)
                && is_host_port(a))
        }),
{
    let s0 = fresh(client_addr);
    let e0 = EventView::Authority(authority);
    let e1 = EventView::BlacklistRead(file);
    let s1 = after(s0, e0);
    let s2 = after(s1, e1);
    assert(seq![e0, e1] == seq![e0] + seq![e1]);
    assert(seq![e1] == seq![e1] + Seq::<EventView>::empty());
    lemma_run_first(s0, e0, seq![e1]);
    lemma_run_first(s1, e1, Seq::empty());
    let actions = run(s0, seq![e0, e1]).1;
    if authority matches Some(a) && is_host_port(a) {
        assert(actions[0] == ActionView::ReadBlacklist);
        assert(actions.len() == 2);
    } else {
        assert(actions == seq![ActionView::Reject(Rejection::InvalidTarget)]);
        assert(actions[0] != ActionView::ReadBlacklist);
    }
}

/// A request for an authority that is not blocked gets the empty success
/// reply; if then the upgrade and the dial succeed and the relay runs to its
/// end, the session dials that very authority, relays, and reports the
/// relay's own counts for the client that sent the request.
pub proof fn lemma_open_target_is_tunnelled(
    client_addr: Seq<char>,
    authority: Seq<char>,
    file: Option<Seq<u8>>,
    counters: TransferCounters,
)
    requires
        is_host_port(authority),
        !is_blocked(authority, blacklist_entries(file)),
    ensures
        run(
            fresh(client_addr),
            seq![
                EventView::Authority(Some(authority)),
                EventView::BlacklistRead(file),
                EventView::UpgradeFinished(true),
                EventView::DialFinished(true),
                EventView::RelayFinished(Some(counters)),
            ],
        ) == (
            SessionView { stage: Stage::Closed, authority, client_addr },
            seq![
                ActionView::ReadBlacklist,
                ActionView::Accept,
                ActionView::Dial(authority),
                ActionView::Relay,
                ActionView::Report { client_addr, counters },
            ],
        ),
        reply_of(ActionView::Accept) == Some(ReplyView { status: 200, body: Seq::empty() }),
{
    let s0 = fresh(client_addr);
    let e0 = EventView::Authority(Some(authority));
    let e1 = EventView::BlacklistRead(file);
    let e2 = EventView::UpgradeFinished(true);
    let e3 = EventView::DialFinished(true);
    let e4 = EventView::RelayFinished(Some(counters));
    let s1 = after(s0, e0);
    let s2 = after(s1, e1);
    let s3 = after(s2, e2);
    let s4 = after(s3, e3);
    let s5 = after(s4, e4);
    assert(seq![e0, e1, e2, e3, e4] == seq![e0] + seq![e1, e2, e3, e4]);
    assert(seq![e1, e2, e3, e4] == seq![e1] + seq![e2, e3, e4]);
    assert(seq![e2, e3, e4] == seq![e2] + seq![e3, e4]);
    assert(seq![e3, e4] == seq![e3] + seq![e4]);
    lemma_run_first(s0, e0, seq![e1, e2, e3, e4]);
    lemma_run_first(s1, e1, seq![e2, e3, e4]);
    lemma_run_first(s2, e2, seq![e3, e4]);
    lemma_run_first(s3, e3, seq![e4]);
    lemma_run_first(s4, e4, Seq::empty());
    lemma_closed_is_final(s5, Seq::empty());
}

/// `event` is a blacklist read that does not block `authority`.
pub open spec fn read_clears(authority: Seq<char>, event: EventView) -> bool {
    match event {
        EventView::BlacklistRead(file) => !is_blocked(authority, blacklist_entries(file)),
        _ => false,
    }
}

/// `authority` is a host-port pair; among `events` it is put forward as the
/// destination, and a later blacklist read does not block it.
pub open spec fn cleared(authority: Seq<char>, events: Seq<EventView>) -> bool {
    &&& is_host_port(authority)
    &&& exists|i: int, j: int|
        #![trigger events[i], events[j]]
        0 <= i < j < events.len() && events[i] == EventView::Authority(Some(authority))
            && read_clears(authority, events[j])
}

/// What a dial in the rest of a run tells of the session that the rest starts
/// from: which stage it is at, which authority it holds, and which events are
/// still to come.
pub open spec fn dial_ahead(s: SessionView, events: Seq<EventView>, authority: Seq<char>) -> bool {
    match s.stage {
        Stage::Received => cleared(authority, events),
        Stage::AuthorityParsed => authority == s.authority && exists|j: int|
            0 <= j < events.len() && read_clears(authority, #[trigger] events[j]),
        Stage::BlacklistChecked => authority == s.authority,
        _ => false,
    }
}

/// From whatever stage a run starts: if it asks for a dial, the session was
/// on its way to that dial.
pub proof fn lemma_dial_ahead(s: SessionView, events: Seq<EventView>, authority: Seq<char>)
    requires
        run(s, events).1.contains(ActionView::Dial(authority)),
    ensures
        dial_ahead(s, events, authority),
    decreases events.len(),
{
    let dial = ActionView::Dial(authority);
    let actions = run(s, events).1;
    let k = choose|k: int| 0 <= k < actions.len() && actions[k] == dial;
    assert(events.len() > 0);
    let e = events[0];
    let rest = events.skip(1);
    let s1 = after(s, e);
    let later = run(s1, rest).1;
    let in_later = match answer(s, e) {
        Some(a) => {
            assert(actions == seq![a] + later);
            if k > 0 {
                assert(later[k - 1] == dial);
            }
            k > 0
        },
        None => {
            assert(later[k] == dial);
            true
        },
    };
    if in_later {
        assert(later.contains(dial));
        lemma_dial_ahead(s1, rest, authority);
        if s1.stage == Stage::Received {
            let (i, j) = choose|i: int, j: int|
                #![trigger rest[i], rest[j]]
                0 <= i < j < rest.len() && rest[i] == EventView::Authority(Some(authority))
                    && read_clears(authority, rest[j]);
            assert(events[i + 1] == rest[i] && events[j + 1] == rest[j]);
        } else if s1.stage == Stage::AuthorityParsed {
            let j = choose|j: int| 0 <= j < rest.len() && read_clears(authority, #[trigger] rest[j]);
            assert(events[j + 1] == rest[j]);
            if s.stage == Stage::Received {
                assert(events[0] == EventView::Authority(Some(authority)));
            }
        } else if s1.stage == Stage::BlacklistChecked {
            if s.stage == Stage::AuthorityParsed {
                assert(read_clears(authority, events[0]));
            }
        }
    }
}

/// No dial without clearance. Whatever events a session is fed, in whatever
/// order: if it ever asks to dial an authority, then that authority is a
/// host-port pair, it was put forward as the session's destination, and a
/// later blacklist read did not block it.
pub proof fn lemma_dialed_authority_was_cleared(
    client_addr: Seq<char>,
    events: Seq<EventView>,
    authority: Seq<char>,
)
    requires
        run(fresh(client_addr), events).1.contains(ActionView::Dial(authority)),
    ensures
        cleared(authority, events),
{
    lemma_dial_ahead(fresh(client_addr), events, authority);
}

/// An event on its way to one of several sessions that run side by side.
pub struct Delivery {
    /// The place of the session among the sessions.
    pub session: int,
    pub event: EventView,
}

/// The events among `deliveries` that go to session `k`, in their order.
pub open spec fn events_for(deliveries: Seq<Delivery>, k: int) -> Seq<EventView>
    decreases deliveries.len(),
{
    if deliveries.len() == 0 {
        Seq::empty()
    } else {
        let rest = events_for(deliveries.skip(1), k);
        if deliveries[0].session == k {
            seq![deliveries[0].event] + rest
        } else {
            rest
        }
    }
}

/// What sessions that run side by side have become after `deliveries`, made
/// in this order, each one a step of the session it goes to, together with
/// the actions that each session has asked for. A delivery to no session is
/// lost.
pub open spec fn run_all(sessions: Seq<SessionView>, deliveries: Seq<Delivery>) -> (
    Seq<SessionView>,
    Seq<Seq<ActionView>>,
)
    decreases deliveries.len(),
{
    if deliveries.len() == 0 {
        (sessions, Seq::new(sessions.len(), |k: int| Seq::<ActionView>::empty()))
    } else {
        let k = deliveries[0].session;
        let event = deliveries[0].event;
        if 0 <= k < sessions.len() {
            let (end, later) = run_all(
                sessions.update(k, after(sessions[k], event)),
                deliveries.skip(1),
            );
            match answer(sessions[k], event) {
                Some(action) => (end, later.update(k, seq![action] + later[k])),
                None => (end, later),
            }
        } else {
            run_all(sessions, deliveries.skip(1))
        }
    }
}

/// Sessions share nothing. However many sessions run side by side and however
/// their events are interleaved, each session ends where it would have ended
/// alone on its own events, and asks for the actions it would have asked for
/// alone: no event of one session, and no failure of one, reaches another.
pub proof fn lemma_sessions_are_independent(
    sessions: Seq<SessionView>,
    deliveries: Seq<Delivery>,
    k: int,
)
    requires
        0 <= k < sessions.len(),
    ensures
        run_all(sessions, deliveries).0.len() == sessions.len(),
        run_all(sessions, deliveries).1.len() == sessions.len(),
        run_all(sessions, deliveries).0[k] == run(sessions[k], events_for(deliveries, k)).0,
        run_all(sessions, deliveries).1[k] == run(sessions[k], events_for(deliveries, k)).1,
    decreases deliveries.len(),
{
    if deliveries.len() > 0 {
        let to = deliveries[0].session;
        let event = deliveries[0].event;
        let rest = deliveries.skip(1);
        if 0 <= to < sessions.len() {
            let stepped = sessions.update(to, after(sessions[to], event));
            lemma_sessions_are_independent(stepped, rest, k);
            if to == k {
                lemma_run_first(sessions[k], event, events_for(rest, k));
            }
        } else {
            lemma_sessions_are_independent(sessions, rest, k);
        }
    }
}

/// Each of several sessions gets its own tunnel. If the events of session `k`
/// are those of a request for a host-port pair that is not blocked, whose
/// upgrade, dial and relay succeed, then session `k` dials its own authority
/// and reports its own counts for its own client, whatever the other sessions
/// ask for and however they end.
pub proof fn lemma_each_session_gets_its_own_tunnel(
    clients: Seq<Seq<char>>,
    deliveries: Seq<Delivery>,
    k: int,
    authority: Seq<char>,
    file: Option<Seq<u8>>,
    counters: TransferCounters,
)
    requires
        0 <= k < clients.len(),
        is_host_port(authority),
        !is_blocked(authority, blacklist_entries(file)),
        events_for(deliveries, k) == seq![
            EventView::Authority(Some(authority)),
            EventView::BlacklistRead(file),
            EventView::UpgradeFinished(true),
            EventView::DialFinished(true),
            EventView::RelayFinished(Some(counters)),
        ],
    ensures
        run_all(clients.map_values(|client: Seq<char>| fresh(client)), deliveries).0[k] == (
        SessionView { stage: Stage::Closed, authority, client_addr: clients[k] }),
        run_all(clients.map_values(|client: Seq<char>| fresh(client)), deliveries).1[k] == seq![
            ActionView::ReadBlacklist,
            ActionView::Accept,
            ActionView::Dial(authority),
            ActionView::Relay,
            ActionView::Report { client_addr: clients[k], counters },
        ],
{
    let sessions = clients.map_values(|client: Seq<char>| fresh(client));
    assert(sessions[k] == fresh(clients[k]));
    lemma_sessions_are_independent(sessions, deliveries, k);
    lemma_open_target_is_tunnelled(clients[k], authority, file, counters);
}

} // verus!
