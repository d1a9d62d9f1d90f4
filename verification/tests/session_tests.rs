use pop3::mailbox::Mailbox;
use pop3::proto::ListResponse;
use pop3::proto::Request;
use pop3::proto::Response;
use pop3::session::Action;
use pop3::session::LineStep;
use pop3::session::Session;
use pop3::session::SessionState;
use pop3::session::greeting;

fn fresh_session() -> Session {
    Session::new(
        vec!["TOP".to_string(), "UIDL".to_string(), "USER".to_string()],
        vec!["PLAIN".to_string()],
    )
}

fn stocked_box() -> Mailbox {
    let mut mb = Mailbox::new();
    assert!(mb.put(1, 120, "uid-one".to_string()));
    assert!(mb.put(2, 200, "uid-two".to_string()));
    mb
}

/// Drive a fresh session through USER/PASS into TRANSACTION over `mb`.
fn authenticated(mb: Mailbox) -> Session {
    let mut s = fresh_session();
    match s.on_request(Request::USER("mrose".to_string())) {
        Action::Reply(Response::USER(_)) => {},
        other => panic!("unexpected: {:?}", other),
    }
    match s.on_request(Request::PASS("secret".to_string())) {
        Action::CheckPass { username, secret } => {
            assert_eq!(username, "mrose");
            assert_eq!(secret, "secret");
        },
        other => panic!("unexpected: {:?}", other),
    }
    match s.on_auth_result(Some(mb)) {
        Response::PASS(_) => {},
        other => panic!("unexpected: {:?}", other),
    }
    assert_eq!(s.state(), SessionState::Transaction);
    s
}

fn reply_text(a: Action) -> String {
    match a {
        Action::Reply(r) => r.to_string(),
        other => panic!("expected a reply, got {:?}", other),
    }
}

#[test]
fn greeting_carries_the_nonce() {
    let g = greeting("<1896.697170952@dbc.mtview.ca.us>");
    assert_eq!(
        g.to_string(),
        "+OK POP3 server ready <1896.697170952@dbc.mtview.ca.us>\r\n"
    );
}

#[test]
fn pre_auth_commands_draw_negative_replies() {
    for req in [
        Request::STAT,
        Request::LIST(None),
        Request::UIDL(None),
        Request::RETR(1),
        Request::DELE(1),
        Request::TOP { id: 1, lines: 3 },
        Request::RSET,
        Request::NOOP,
    ] {
        let mut s = fresh_session();
        match s.on_request(req) {
            Action::Reply(Response::ERR(_)) => {},
            other => panic!("unexpected: {:?}", other),
        }
        assert_eq!(s.state(), SessionState::Authorization);
    }
}

#[test]
fn capa_is_answered_in_any_state() {
    let mut s = fresh_session();
    match s.on_request(Request::CAPA) {
        Action::Reply(Response::CAPA(caps)) => {
            assert_eq!(caps, vec!["TOP", "UIDL", "USER"]);
        },
        other => panic!("unexpected: {:?}", other),
    }
    let mut t = authenticated(stocked_box());
    match t.on_request(Request::CAPA) {
        Action::Reply(Response::CAPA(_)) => {},
        other => panic!("unexpected: {:?}", other),
    }
}

#[test]
fn pass_without_user_is_refused() {
    let mut s = fresh_session();
    match s.on_request(Request::PASS("secret".to_string())) {
        Action::Reply(Response::ERR(_)) => {},
        other => panic!("unexpected: {:?}", other),
    }
    assert_eq!(s.state(), SessionState::Authorization);
}

#[test]
fn failed_authentication_stays_in_authorization() {
    let mut s = fresh_session();
    s.on_request(Request::USER("mrose".to_string()));
    s.on_request(Request::PASS("wrong".to_string()));
    match s.on_auth_result(None) {
        Response::ERR(_) => {},
        other => panic!("unexpected: {:?}", other),
    }
    assert_eq!(s.state(), SessionState::Authorization);
    match s.on_request(Request::PASS("again".to_string())) {
        Action::Reply(Response::ERR(_)) => {},
        other => panic!("unexpected: {:?}", other),
    }
}

#[test]
fn apop_carries_username_and_digest() {
    let mut s = fresh_session();
    match s.on_request(Request::APOP {
        username: "mrose".to_string(),
        digest: "c4c9334bac560ecc979e58001b3e22fb".to_string(),
    }) {
        Action::CheckApop { username, digest } => {
            assert_eq!(username, "mrose");
            assert_eq!(digest, "c4c9334bac560ecc979e58001b3e22fb");
        },
        other => panic!("unexpected: {:?}", other),
    }
    match s.on_auth_result(Some(stocked_box())) {
        Response::PASS(_) => {},
        other => panic!("unexpected: {:?}", other),
    }
    assert_eq!(s.state(), SessionState::Transaction);
}

#[test]
fn auth_lists_mechanisms_and_screens_them() {
    let mut s = fresh_session();
    match s.on_request(Request::AUTH(None)) {
        Action::Reply(resp) => {
            assert_eq!(resp.to_string(), "+OK 1 auth methods\r\nPLAIN\r\n.\r\n");
        },
        other => panic!("unexpected: {:?}", other),
    }
    match s.on_request(Request::AUTH(Some("KERBEROS_V4".to_string()))) {
        Action::Reply(Response::ERR(_)) => {},
        other => panic!("unexpected: {:?}", other),
    }
    match s.on_request(Request::AUTH(Some("PLAIN".to_string()))) {
        Action::CheckAuth { mechanism } => assert_eq!(mechanism, "PLAIN"),
        other => panic!("unexpected: {:?}", other),
    }
}

#[test]
fn stat_reports_count_and_size() {
    let mut s = authenticated(stocked_box());
    assert_eq!(reply_text(s.on_request(Request::STAT)), "+OK 2 320\r\n");
}

#[test]
fn dele_then_stat_and_list_exclude_the_message() {
    let mut s = authenticated(stocked_box());
    match s.on_request(Request::DELE(1)) {
        Action::Reply(Response::DELE) => {},
        other => panic!("unexpected: {:?}", other),
    }
    assert_eq!(reply_text(s.on_request(Request::STAT)), "+OK 1 200\r\n");
    assert_eq!(
        reply_text(s.on_request(Request::LIST(None))),
        "+OK 1 messages\r\n2 200\r\n.\r\n"
    );
    match s.on_request(Request::LIST(Some(1))) {
        Action::Reply(Response::ERR(_)) => {},
        other => panic!("unexpected: {:?}", other),
    }
    match s.on_request(Request::DELE(1)) {
        Action::Reply(Response::ERR(m)) => assert_eq!(m, "message already deleted"),
        other => panic!("unexpected: {:?}", other),
    }
    match s.on_request(Request::DELE(9)) {
        Action::Reply(Response::ERR(m)) => assert_eq!(m, "no such message"),
        other => panic!("unexpected: {:?}", other),
    }
}

#[test]
fn rset_restores_the_listing() {
    let mut s = authenticated(stocked_box());
    s.on_request(Request::DELE(1));
    s.on_request(Request::DELE(2));
    assert_eq!(reply_text(s.on_request(Request::STAT)), "+OK 0 0\r\n");
    match s.on_request(Request::RSET) {
        Action::Reply(Response::RSET) => {},
        other => panic!("unexpected: {:?}", other),
    }
    assert_eq!(reply_text(s.on_request(Request::STAT)), "+OK 2 320\r\n");
    assert_eq!(
        reply_text(s.on_request(Request::LIST(None))),
        "+OK 2 messages\r\n1 120\r\n2 200\r\n.\r\n"
    );
}

#[test]
fn list_on_empty_mailbox() {
    let mut s = authenticated(Mailbox::new());
    assert_eq!(
        reply_text(s.on_request(Request::LIST(None))),
        "+OK 0 messages\r\n.\r\n"
    );
    assert_eq!(reply_text(s.on_request(Request::STAT)), "+OK 0 0\r\n");
}

#[test]
fn list_single_message() {
    let mut s = authenticated(stocked_box());
    match s.on_request(Request::LIST(Some(2))) {
        Action::Reply(Response::LIST(ListResponse::Single(m))) => {
            assert_eq!(m.id, 2);
            assert_eq!(m.size, 200);
        },
        other => panic!("unexpected: {:?}", other),
    }
}

#[test]
fn uidl_lists_unique_ids() {
    let mut s = authenticated(stocked_box());
    assert_eq!(
        reply_text(s.on_request(Request::UIDL(None))),
        "+OK 2 messages\r\n1 uid-one\r\n2 uid-two\r\n.\r\n"
    );
    assert_eq!(reply_text(s.on_request(Request::UIDL(Some(1)))), "+OK 1 uid-one\r\n");
}

#[test]
fn retr_fetches_and_wraps_the_body() {
    let mut s = authenticated(stocked_box());
    match s.on_request(Request::RETR(1)) {
        Action::FetchBody { id } => assert_eq!(id, 1),
        other => panic!("unexpected: {:?}", other),
    }
    let resp = s.on_body("hello\r\n.\r\nworld\r\n".to_string());
    assert_eq!(resp.to_string(), "+OK\r\nhello\r\n..\r\nworld\r\n.\r\n");
    match s.on_request(Request::RETR(9)) {
        Action::Reply(Response::ERR(_)) => {},
        other => panic!("unexpected: {:?}", other),
    }
}

#[test]
fn top_truncates_the_body() {
    let mut s = authenticated(stocked_box());
    match s.on_request(Request::TOP { id: 2, lines: 1 }) {
        Action::FetchBody { id } => assert_eq!(id, 2),
        other => panic!("unexpected: {:?}", other),
    }
    let resp = s.on_body("H: v\r\n\r\none\r\ntwo\r\n".to_string());
    assert_eq!(resp.to_string(), "+OK\r\nH: v\r\n\r\none\r\n.\r\n");
}

#[test]
fn noop_answers_positively() {
    let mut s = authenticated(stocked_box());
    assert_eq!(reply_text(s.on_request(Request::NOOP)), "+OK\r\n");
}

#[test]
fn quit_from_transaction_commits_deletions() {
    let mut s = authenticated(stocked_box());
    s.on_request(Request::DELE(1));
    match s.on_request(Request::QUIT) {
        Action::ReplyClose(Response::QUIT) => {},
        other => panic!("unexpected: {:?}", other),
    }
    assert_eq!(s.state(), SessionState::Update);
    let mb = s.into_mailbox().unwrap();
    assert_eq!(mb.len(), 1);
    assert_eq!(mb.stat(), (1, 200));
    assert!(mb.get(1).is_none());
}

#[test]
fn quit_from_authorization_commits_nothing() {
    let mut s = fresh_session();
    match s.on_request(Request::QUIT) {
        Action::ReplyClose(Response::QUIT) => {},
        other => panic!("unexpected: {:?}", other),
    }
    assert_eq!(s.state(), SessionState::Authorization);
    assert!(s.into_mailbox().is_none());
}

#[test]
fn user_commands_in_transaction_are_refused() {
    let mut s = authenticated(stocked_box());
    match s.on_request(Request::USER("other".to_string())) {
        Action::Reply(Response::ERR(_)) => {},
        other => panic!("unexpected: {:?}", other),
    }
    assert_eq!(s.state(), SessionState::Transaction);
}

#[test]
fn on_line_drives_a_whole_exchange() {
    let mut s = fresh_session();
    match s.on_line("USER mrose\r\n") {
        LineStep::Reply { text, close } => {
            assert_eq!(text, "+OK password required\r\n");
            assert!(!close);
        },
        other => panic!("unexpected: {:?}", other),
    }
    match s.on_line("PASS secret\r\n") {
        LineStep::CheckPass { username, secret } => {
            assert_eq!(username, "mrose");
            assert_eq!(secret, "secret");
        },
        other => panic!("unexpected: {:?}", other),
    }
    s.on_auth_result(Some(stocked_box()));
    match s.on_line("STAT\r\n") {
        LineStep::Reply { text, close } => {
            assert_eq!(text, "+OK 2 320\r\n");
            assert!(!close);
        },
        other => panic!("unexpected: {:?}", other),
    }
    match s.on_line("QUIT\r\n") {
        LineStep::Reply { text, close } => {
            assert_eq!(text, "+OK\r\n");
            assert!(close);
        },
        other => panic!("unexpected: {:?}", other),
    }
}

#[test]
fn on_line_answers_garbage_without_closing() {
    let mut s = fresh_session();
    match s.on_line("FETCH 1\r\n") {
        LineStep::Reply { text, close } => {
            assert_eq!(text, "-ERR unknown command\r\n");
            assert!(!close);
        },
        other => panic!("unexpected: {:?}", other),
    }
    match s.on_line("USER\r\n") {
        LineStep::Reply { text, close } => {
            assert_eq!(text, "-ERR wrong number of arguments\r\n");
            assert!(!close);
        },
        other => panic!("unexpected: {:?}", other),
    }
}

#[test]
fn on_line_closes_on_an_overlong_line() {
    let mut s = fresh_session();
    let mut line = String::from("USER ");
    line.push_str(&"a".repeat(600));
    line.push_str("\r\n");
    match s.on_line(&line) {
        LineStep::Reply { text, close } => {
            assert_eq!(text, "-ERR line too long\r\n");
            assert!(close);
        },
        other => panic!("unexpected: {:?}", other),
    }
}

#[test]
fn commands_after_update_are_refused() {
    let mut s = authenticated(stocked_box());
    s.on_request(Request::QUIT);
    assert_eq!(s.state(), SessionState::Update);
    match s.on_request(Request::STAT) {
        Action::Reply(Response::ERR(_)) => {},
        other => panic!("unexpected: {:?}", other),
    }
    assert_eq!(s.state(), SessionState::Update);
}

#[test]
fn uidl_and_top_on_missing_messages_are_refused() {
    let mut s = authenticated(stocked_box());
    match s.on_request(Request::UIDL(Some(9))) {
        Action::Reply(Response::ERR(m)) => assert_eq!(m, "no such message"),
        other => panic!("unexpected: {:?}", other),
    }
    match s.on_request(Request::TOP { id: 9, lines: 3 }) {
        Action::Reply(Response::ERR(m)) => assert_eq!(m, "no such message"),
        other => panic!("unexpected: {:?}", other),
    }
    s.on_request(Request::DELE(1));
    match s.on_request(Request::RETR(1)) {
        Action::Reply(Response::ERR(m)) => assert_eq!(m, "no such message"),
        other => panic!("unexpected: {:?}", other),
    }
}
