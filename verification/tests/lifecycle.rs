use authd::client::{ClientAccessControl, ClientError, ConnectDecision, ReconnectPolicy, Response};
use authd::group::AuthdGroup;
use authd::passwd::AuthdPasswd;
use authd::server::{HandshakeOutcome, ServerListener};
use authd::types::{GroupRecord, PasswdRecord};

#[test]
fn idle_eviction_honors_the_extended_deadline() {
    let mut m = ClientAccessControl::new(30);

    // first lookup at t = 0: no handle yet, so connect and start the watcher
    assert!(m.begin_request(0));
    m.on_connect_success();
    assert_eq!(m.deadline, 30);

    // second lookup at t = 29 pushes the deadline to 59
    assert!(!m.begin_request(29));
    assert_eq!(m.deadline, 59);

    // the watcher slept toward t = 30; the deadline moved, so no eviction
    assert!(!m.watcher_wake(30));
    assert!(m.connected);

    // it sleeps toward t = 59; nothing pushed the deadline, so it evicts
    assert!(m.watcher_wake(59));
    assert!(!m.connected);
    assert!(!m.watcher_active);
}

#[test]
fn idle_eviction_fires_without_further_calls() {
    let mut m = ClientAccessControl::new(30);
    assert!(m.begin_request(0));
    m.on_connect_success();
    assert!(m.watcher_wake(30));
    assert!(!m.connected);
}

#[test]
fn fail_fast_gives_up_on_the_first_attempt() {
    let m = ClientAccessControl::new(30);
    let policy = ReconnectPolicy { fail_fast: true, retry_interval: 1 };
    assert_eq!(m.connect_failure_decision(&policy), ConnectDecision::GiveUp);
}

#[test]
fn retry_forever_policy_retries_from_the_start() {
    let m = ClientAccessControl::new(30);
    let policy = ReconnectPolicy { fail_fast: false, retry_interval: 1 };
    assert_eq!(m.connect_failure_decision(&policy), ConnectDecision::RetryAfter(1));
}

#[test]
fn reconnect_after_a_session_always_retries() {
    let mut m = ClientAccessControl::new(30);
    m.begin_request(0);
    m.on_connect_success();
    m.on_call_outcome(false);
    let policy = ReconnectPolicy { fail_fast: true, retry_interval: 1 };
    assert_eq!(m.connect_failure_decision(&policy), ConnectDecision::RetryAfter(1));
}

#[test]
fn transport_failure_discards_the_handle() {
    let mut m = ClientAccessControl::new(30);
    assert!(m.begin_request(0));
    m.on_connect_success();
    m.on_call_outcome(true);
    assert!(m.connected);
    m.on_call_outcome(false);
    assert!(!m.connected);
    assert!(!m.watcher_active);
    // the next request must reconnect
    assert!(m.begin_request(1));
}

#[test]
fn default_manager_uses_the_fixed_window() {
    let m = ClientAccessControl::default();
    assert!(!m.connected);
    assert!(!m.watcher_active);
    assert!(!m.ever_connected);
    assert_eq!(m.idle_window, 30);
}

#[test]
fn listener_survives_a_bad_handshake() {
    let mut l = ServerListener::new();
    assert!(!l.on_connection(HandshakeOutcome::Failed));
    assert!(l.accepting);
    assert_eq!(l.sessions_admitted, 0);
    // the next, valid connection is admitted and served
    assert!(l.on_connection(HandshakeOutcome::Established));
    assert!(l.accepting);
    assert_eq!(l.sessions_admitted, 1);
}

fn record(name: &str, gid: u32) -> GroupRecord {
    GroupRecord { name: name.to_string(), passwd: "x".to_string(), gid, members: Vec::new() }
}

fn passwd_record(name: &str, uid: u32) -> PasswdRecord {
    PasswdRecord {
        name: name.to_string(),
        passwd: "x".to_string(),
        uid,
        gid: uid,
        gecos: String::new(),
        dir: "/home/".to_string() + name,
        shell: "/bin/bash".to_string(),
    }
}

#[test]
fn absent_record_is_not_found_not_unavailable() {
    let r = AuthdGroup::get_entry_by_gid(Ok(None));
    assert!(matches!(r, Response::NotFound));
    let r = AuthdPasswd::get_entry_by_uid(Ok(None));
    assert!(matches!(r, Response::NotFound));
}

#[test]
fn arrived_record_is_a_success() {
    let r = AuthdGroup::get_entry_by_name(Ok(Some(record("staff", 50))));
    match r {
        Response::Success(g) => assert_eq!(g.gid, 50),
        _ => panic!("record did not surface as success"),
    }
    let r = AuthdPasswd::get_entry_by_name(Ok(Some(passwd_record("alice", 1000))));
    match r {
        Response::Success(p) => assert_eq!(p.uid, 1000),
        _ => panic!("record did not surface as success"),
    }
}

#[test]
fn every_client_error_surfaces_as_unavailable() {
    for e in [ClientError::Resolution, ClientError::Transport, ClientError::Protocol] {
        assert!(matches!(AuthdGroup::get_entry_by_gid(Err(e)), Response::Unavail));
        assert!(matches!(AuthdPasswd::get_entry_by_uid(Err(e)), Response::Unavail));
        assert!(matches!(AuthdGroup::get_all_entries(Err(e)), Response::Unavail));
        assert!(matches!(AuthdPasswd::get_all_entries(Err(e)), Response::Unavail));
    }
}

#[test]
fn list_outcomes_pass_through() {
    let r = AuthdGroup::get_all_entries(Ok(vec![record("staff", 50)]));
    match r {
        Response::Success(list) => {
            assert_eq!(list.len(), 1);
            assert_eq!(list[0].name, "staff");
        }
        _ => panic!("list did not surface as success"),
    }
    let r = AuthdPasswd::get_all_entries(Ok(Vec::new()));
    match r {
        Response::Success(list) => assert!(list.is_empty()),
        _ => panic!("list did not surface as success"),
    }
}
