use http_proxy::session::{Action, Event, Failure, Rejection, Reply, Session, Stage, TransferCounters};

fn session() -> Session {
    Session::new("203.0.113.7".to_string())
}

fn admitted(authority: &str) -> Session {
    let mut s = session();
    assert_eq!(s.step(Event::Authority(Some(authority.to_string()))), Some(Action::ReadBlacklist));
    assert_eq!(s.step(Event::BlacklistRead(Some(Vec::new()))), Some(Action::Accept));
    s
}

#[test]
fn new_session_has_received_its_request() {
    let s = session();
    assert_eq!(s.stage(), Stage::Received);
    assert_eq!(s.authority(), "");
    assert_eq!(s.client_addr(), "203.0.113.7");
}

#[test]
fn missing_authority_is_refused() {
    let mut s = session();
    let action = s.step(Event::Authority(None)).unwrap();
    assert_eq!(action, Action::Reject(Rejection::InvalidTarget));
    assert_eq!(
        action.reply(),
        Some(Reply { status: 400, body: "CONNECT must be to a socket address".to_string() })
    );
    assert_eq!(s.stage(), Stage::Closed);
}

#[test]
fn refused_session_asks_for_nothing_more() {
    let mut s = session();
    s.step(Event::Authority(None));
    assert_eq!(s.step(Event::BlacklistRead(None)), None);
    assert_eq!(s.step(Event::UpgradeFinished(true)), None);
    assert_eq!(s.step(Event::DialFinished(true)), None);
    assert_eq!(s.step(Event::RelayFinished(None)), None);
    assert_eq!(s.step(Event::Authority(Some("example.com:443".to_string()))), None);
    assert_eq!(s.stage(), Stage::Closed);
}

#[test]
fn authority_is_kept_and_blacklist_asked_for() {
    let mut s = session();
    assert_eq!(s.step(Event::Authority(Some("example.com:443".to_string()))), Some(Action::ReadBlacklist));
    assert_eq!(s.stage(), Stage::AuthorityParsed);
    assert_eq!(s.authority(), "example.com:443");
    assert_eq!(Action::ReadBlacklist.reply(), None);
}

#[test]
fn blocked_authority_is_refused_and_never_dialed() {
    let mut s = session();
    s.step(Event::Authority(Some("example.com:443".to_string())));
    let action = s.step(Event::BlacklistRead(Some(b"other.example:1\nexample.com:443\n".to_vec()))).unwrap();
    assert_eq!(action, Action::Reject(Rejection::Blocked));
    assert_eq!(action.reply(), Some(Reply { status: 400, body: "This site is blocked".to_string() }));
    assert_eq!(s.stage(), Stage::Closed);
    assert_eq!(s.step(Event::UpgradeFinished(true)), None);
    assert_eq!(s.step(Event::DialFinished(true)), None);
    assert_eq!(s.stage(), Stage::Closed);
}

#[test]
fn near_misses_of_an_entry_are_accepted() {
    for authority in ["example.com:8443", "www.example.com:443"] {
        let mut s = session();
        s.step(Event::Authority(Some(authority.to_string())));
        assert_eq!(s.step(Event::BlacklistRead(Some(b"example.com:443\n".to_vec()))), Some(Action::Accept));
        assert_eq!(s.stage(), Stage::BlacklistChecked);
    }
}

#[test]
fn accept_is_an_empty_success_reply() {
    assert_eq!(Action::Accept.reply(), Some(Reply { status: 200, body: String::new() }));
}

#[test]
fn unreadable_blacklist_accepts() {
    let mut s = session();
    s.step(Event::Authority(Some("example.com:443".to_string())));
    assert_eq!(s.step(Event::BlacklistRead(None)), Some(Action::Accept));
    assert_eq!(s.stage(), Stage::BlacklistChecked);
}

#[test]
fn sentinel_is_no_destination() {
    let mut s = session();
    assert_eq!(
        s.step(Event::Authority(Some("Error".to_string()))),
        Some(Action::Reject(Rejection::InvalidTarget))
    );
    assert_eq!(s.step(Event::BlacklistRead(None)), None);
    assert_eq!(s.stage(), Stage::Closed);
}

#[test]
fn authority_without_port_is_refused_at_once() {
    let mut s = Session::new("10.0.0.1".to_string());
    let action = s.step(Event::Authority(Some("example.com".to_string()))).unwrap();
    assert_eq!(action, Action::Reject(Rejection::InvalidTarget));
    assert_eq!(
        action.reply(),
        Some(Reply { status: 400, body: "CONNECT must be to a socket address".to_string() })
    );
    assert_eq!(s.stage(), Stage::Closed);
    assert_eq!(s.authority(), "");
    assert_eq!(s.step(Event::BlacklistRead(None)), None);
    assert_eq!(s.step(Event::UpgradeFinished(true)), None);
    assert_eq!(s.step(Event::DialFinished(true)), None);
    assert_eq!(s.stage(), Stage::Closed);
}

#[test]
fn authority_that_is_no_host_port_pair_is_refused() {
    for authority in [
        "", "example.com", "localhost", "example.com:", ":443", "example.com:abc", "example.com:44a",
        "example.com:+443", "example.com:-1", "example.com: 443", "example.com:65536",
        "example.com:0065536", "example.com:443:80", "::1:8080", "[::1]", "[::1]:", "[::1:8080",
    ] {
        let mut s = session();
        assert_eq!(
            s.step(Event::Authority(Some(authority.to_string()))),
            Some(Action::Reject(Rejection::InvalidTarget))
        );
        assert_eq!(s.stage(), Stage::Closed);
    }
}

fn status_for(authority: Option<&str>, file: Option<&[u8]>) -> u16 {
    let mut s = session();
    let mut action = s.step(Event::Authority(authority.map(|a| a.to_string()))).unwrap();
    if action == Action::ReadBlacklist {
        action = s.step(Event::BlacklistRead(file.map(|f| f.to_vec()))).unwrap();
    }
    let reply = action.reply().unwrap();
    assert_eq!(reply.status == 200, action == Action::Accept);
    assert_eq!(reply.status == 200, s.stage() == Stage::BlacklistChecked);
    assert_eq!(reply.status == 400, s.stage() == Stage::Closed);
    if reply.status == 200 {
        assert_eq!(reply.body, "");
    }
    reply.status
}

#[test]
fn status_is_400_for_missing_malformed_or_blocked_and_200_otherwise() {
    let file: &[u8] = b"blocked.example:443\nhost.example\n";
    assert_eq!(status_for(None, Some(file)), 400);
    assert_eq!(status_for(None, None), 400);
    assert_eq!(status_for(Some("host.example"), Some(file)), 400);
    assert_eq!(status_for(Some("other.example"), Some(file)), 400);
    assert_eq!(status_for(Some("other.example"), None), 400);
    assert_eq!(status_for(Some("other.example:http"), Some(b"")), 400);
    assert_eq!(status_for(Some("blocked.example:443"), Some(file)), 400);
    assert_eq!(status_for(Some("blocked.example:443"), None), 200);
    assert_eq!(status_for(Some("blocked.example:443"), Some(b"")), 200);
    assert_eq!(status_for(Some("blocked.example:80"), Some(file)), 200);
    assert_eq!(status_for(Some("other.example:443"), Some(file)), 200);
    assert_eq!(status_for(Some("[2001:db8::1]:443"), Some(file)), 200);
    assert_eq!(status_for(Some("192.0.2.1:1"), None), 200);
}

#[test]
fn accepted_session_runs_its_tunnel() {
    let mut s = admitted("example.com:443");
    assert_eq!(s.step(Event::UpgradeFinished(true)), Some(Action::Dial("example.com:443".to_string())));
    assert_eq!(s.stage(), Stage::Upgraded);
    assert_eq!(s.step(Event::DialFinished(true)), Some(Action::Relay));
    assert_eq!(s.stage(), Stage::Relaying);
    let counters = TransferCounters { client_to_server: 517, server_to_client: 4096 };
    assert_eq!(
        s.step(Event::RelayFinished(Some(counters))),
        Some(Action::Report { client_addr: "203.0.113.7".to_string(), counters })
    );
    assert_eq!(s.stage(), Stage::Closed);
    assert_eq!(s.step(Event::RelayFinished(Some(counters))), None);
}

#[test]
fn counts_are_passed_on_as_the_relay_gave_them() {
    for (up, down) in [(0u64, 0u64), (1, 0), (0, 1), (u64::MAX, u64::MAX)] {
        let mut s = admitted("example.com:443");
        s.step(Event::UpgradeFinished(true));
        s.step(Event::DialFinished(true));
        let counters = TransferCounters { client_to_server: up, server_to_client: down };
        match s.step(Event::RelayFinished(Some(counters))) {
            Some(Action::Report { client_addr, counters: given }) => {
                assert_eq!(client_addr, "203.0.113.7");
                assert_eq!(given.client_to_server, up);
                assert_eq!(given.server_to_client, down);
            }
            other => panic!("no report: {:?}", other),
        }
    }
}

#[test]
fn failed_upgrade_ends_the_session() {
    let mut s = admitted("example.com:443");
    assert_eq!(s.step(Event::UpgradeFinished(false)), Some(Action::Abandon(Failure::Upgrade)));
    assert_eq!(s.stage(), Stage::Closed);
    assert_eq!(s.step(Event::DialFinished(true)), None);
}

#[test]
fn failed_dial_ends_the_session() {
    let mut s = admitted("unreachable.example:9");
    assert_eq!(s.step(Event::UpgradeFinished(true)), Some(Action::Dial("unreachable.example:9".to_string())));
    assert_eq!(s.step(Event::DialFinished(false)), Some(Action::Abandon(Failure::Dial)));
    assert_eq!(s.stage(), Stage::Closed);
    assert_eq!(s.step(Event::RelayFinished(None)), None);
}

#[test]
fn failed_relay_ends_the_session_without_counts() {
    let mut s = admitted("example.com:443");
    s.step(Event::UpgradeFinished(true));
    s.step(Event::DialFinished(true));
    assert_eq!(s.step(Event::RelayFinished(None)), Some(Action::Abandon(Failure::Relay)));
    assert_eq!(s.stage(), Stage::Closed);
}

#[test]
fn events_out_of_turn_change_nothing() {
    let mut s = session();
    assert_eq!(s.step(Event::BlacklistRead(None)), None);
    assert_eq!(s.step(Event::UpgradeFinished(true)), None);
    assert_eq!(s.step(Event::DialFinished(true)), None);
    assert_eq!(s.step(Event::RelayFinished(None)), None);
    assert_eq!(s.stage(), Stage::Received);

    s.step(Event::Authority(Some("example.com:443".to_string())));
    assert_eq!(s.step(Event::Authority(Some("other.example:1".to_string()))), None);
    assert_eq!(s.step(Event::UpgradeFinished(true)), None);
    assert_eq!(s.stage(), Stage::AuthorityParsed);
    assert_eq!(s.authority(), "example.com:443");

    s.step(Event::BlacklistRead(Some(Vec::new())));
    assert_eq!(s.step(Event::DialFinished(true)), None);
    assert_eq!(s.step(Event::BlacklistRead(Some(b"example.com:443\n".to_vec()))), None);
    assert_eq!(s.stage(), Stage::BlacklistChecked);

    s.step(Event::UpgradeFinished(true));
    assert_eq!(s.step(Event::UpgradeFinished(false)), None);
    assert_eq!(s.step(Event::RelayFinished(None)), None);
    assert_eq!(s.stage(), Stage::Upgraded);

    s.step(Event::DialFinished(true));
    assert_eq!(s.step(Event::DialFinished(false)), None);
    assert_eq!(s.stage(), Stage::Relaying);
}

#[test]
fn actions_without_a_reply() {
    assert_eq!(Action::Dial("example.com:443".to_string()).reply(), None);
    assert_eq!(Action::Relay.reply(), None);
    assert_eq!(Action::Abandon(Failure::Dial).reply(), None);
    let counters = TransferCounters { client_to_server: 1, server_to_client: 2 };
    assert_eq!(Action::Report { client_addr: "c".to_string(), counters }.reply(), None);
}

#[test]
fn sessions_do_not_share_state() {
    let mut a = Session::new("198.51.100.1".to_string());
    let mut b = Session::new("198.51.100.2".to_string());
    a.step(Event::Authority(Some("a.example:1".to_string())));
    b.step(Event::Authority(Some("b.example:2".to_string())));
    a.step(Event::BlacklistRead(None));
    b.step(Event::BlacklistRead(None));
    a.step(Event::UpgradeFinished(true));
    assert_eq!(a.step(Event::DialFinished(false)), Some(Action::Abandon(Failure::Dial)));
    assert_eq!(b.step(Event::UpgradeFinished(true)), Some(Action::Dial("b.example:2".to_string())));
    assert_eq!(b.step(Event::DialFinished(true)), Some(Action::Relay));
    let counters = TransferCounters { client_to_server: 3, server_to_client: 5 };
    assert_eq!(
        b.step(Event::RelayFinished(Some(counters))),
        Some(Action::Report { client_addr: "198.51.100.2".to_string(), counters })
    );
}

#[test]
fn receive_takes_the_authority_of_a_host_port_target() {
    let mut s = session();
    assert_eq!(s.receive("example.com:443"), Some(Action::ReadBlacklist));
    assert_eq!(s.authority(), "example.com:443");
    assert_eq!(s.stage(), Stage::AuthorityParsed);
}

#[test]
fn receive_takes_the_authority_out_of_an_absolute_target() {
    let mut s = session();
    assert_eq!(s.receive("http://example.com:8080/some/path?q=1"), Some(Action::ReadBlacklist));
    assert_eq!(s.authority(), "example.com:8080");
}

#[test]
fn receive_keeps_the_authority_as_written() {
    for target in ["Example.COM:443", "[::1]:8080", "127.0.0.1:22", "user@example.com:443", "example.com:0"] {
        let mut s = session();
        assert_eq!(s.receive(target), Some(Action::ReadBlacklist));
        assert_eq!(s.authority(), target);
    }
}

#[test]
fn receive_refuses_targets_without_authority() {
    for target in ["/", "*", "/index.html", "/a?b=c"] {
        let mut s = session();
        assert_eq!(s.receive(target), Some(Action::Reject(Rejection::InvalidTarget)));
        assert_eq!(s.stage(), Stage::Closed);
    }
}

#[test]
fn receive_refuses_targets_that_do_not_parse() {
    for target in ["", "exa mple.com:443", "example.com:443/path", "http://", "a:b:c:d:e:f:g:h:i:j", "ex\u{e4}mple.com:443"] {
        let mut s = session();
        assert_eq!(s.receive(target), Some(Action::Reject(Rejection::InvalidTarget)));
        assert_eq!(s.stage(), Stage::Closed);
    }
}

#[test]
fn receive_refuses_authorities_that_are_no_host_port_pair() {
    for target in ["example.com", "localhost", "example.com:abc", "example.com:", "example.com:65536", "[::1]", "http://example.com/path", "user:secret@example.com:443"] {
        let mut s = session();
        assert_eq!(s.receive(target), Some(Action::Reject(Rejection::InvalidTarget)));
        assert_eq!(s.stage(), Stage::Closed);
        assert_eq!(s.authority(), "");
    }
}

#[test]
fn receive_out_of_turn_changes_nothing() {
    let mut s = session();
    s.receive("example.com:443");
    assert_eq!(s.receive("other.example:1"), None);
    assert_eq!(s.receive("/"), None);
    assert_eq!(s.authority(), "example.com:443");
    assert_eq!(s.stage(), Stage::AuthorityParsed);
}

#[test]
fn interleaved_sessions_each_run_their_own_tunnel() {
    let n: usize = 6;
    let failing: usize = 2;
    let mut sessions: Vec<Session> = (0..n).map(|k| Session::new(format!("198.51.100.{}", k))).collect();
    let mut actions: Vec<Vec<Action>> = (0..n).map(|_| Vec::new()).collect();
    for round in 0..5 {
        for step in 0..n {
            let k = if round % 2 == 0 { step } else { n - 1 - step };
            let event = match round {
                0 => Event::Authority(Some(format!("host{}.example:{}", k, 8000 + k))),
                1 => Event::BlacklistRead(None),
                2 => Event::UpgradeFinished(true),
                3 => Event::DialFinished(k != failing),
                _ => Event::RelayFinished(Some(TransferCounters {
                    client_to_server: 10 * k as u64,
                    server_to_client: 100 * k as u64,
                })),
            };
            if let Some(action) = sessions[k].step(event) {
                actions[k].push(action);
            }
        }
    }
    for k in 0..n {
        assert_eq!(sessions[k].stage(), Stage::Closed);
        let mut expected = vec![
            Action::ReadBlacklist,
            Action::Accept,
            Action::Dial(format!("host{}.example:{}", k, 8000 + k)),
        ];
        if k == failing {
            expected.push(Action::Abandon(Failure::Dial));
        } else {
            expected.push(Action::Relay);
            expected.push(Action::Report {
                client_addr: format!("198.51.100.{}", k),
                counters: TransferCounters { client_to_server: 10 * k as u64, server_to_client: 100 * k as u64 },
            });
        }
        assert_eq!(actions[k], expected);
    }
}

#[test]
fn port_with_leading_zeros_is_tunnelled() {
    let mut s = session();
    assert_eq!(s.step(Event::Authority(Some("h:000443".to_string()))), Some(Action::ReadBlacklist));
    let accept = s.step(Event::BlacklistRead(Some(b"other.example:443\n".to_vec()))).unwrap();
    assert_eq!(accept, Action::Accept);
    assert_eq!(accept.reply(), Some(Reply { status: 200, body: String::new() }));
    assert_eq!(s.step(Event::UpgradeFinished(true)), Some(Action::Dial("h:000443".to_string())));
    assert_eq!(s.step(Event::DialFinished(true)), Some(Action::Relay));
    assert_eq!(status_for(Some("h:000443"), None), 200);
    assert_eq!(status_for(Some("h:000443"), Some(b"h:443\n")), 200);
}

#[test]
fn listed_port_with_leading_zeros_is_blocked() {
    let mut s = session();
    s.step(Event::Authority(Some("h:000443".to_string())));
    let action = s.step(Event::BlacklistRead(Some(b"h:000443\n".to_vec()))).unwrap();
    assert_eq!(action, Action::Reject(Rejection::Blocked));
    assert_eq!(action.reply(), Some(Reply { status: 400, body: "This site is blocked".to_string() }));
    assert_eq!(s.step(Event::UpgradeFinished(true)), None);
    assert_eq!(status_for(Some("h:000443"), Some(b"h:000443\n")), 400);
}

#[test]
fn receive_takes_a_port_with_leading_zeros() {
    let mut s = session();
    assert_eq!(s.receive("example.com:000443"), Some(Action::ReadBlacklist));
    assert_eq!(s.authority(), "example.com:000443");
}
