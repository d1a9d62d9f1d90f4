use pop3::proto::Command;
use pop3::proto::DecodeError;
use pop3::proto::ListResponse;
use pop3::proto::MessageMeta;
use pop3::proto::Request;
use pop3::proto::Response;
use pop3::proto::UidlEntry;
use pop3::proto::UidlResponse;
use pop3::proto::AuthResponse;

#[test]
fn command_from_str_known_keywords() {
    assert!(matches!(Command::from_str("USER"), Ok(Command::USER)));
    assert!(matches!(Command::from_str("PASS"), Ok(Command::PASS)));
    assert!(matches!(Command::from_str("STAT"), Ok(Command::STAT)));
    assert!(matches!(Command::from_str("UIDL"), Ok(Command::UIDL)));
    assert!(matches!(Command::from_str("LIST"), Ok(Command::LIST)));
    assert!(matches!(Command::from_str("RETR"), Ok(Command::RETR)));
    assert!(matches!(Command::from_str("DELE"), Ok(Command::DELE)));
    assert!(matches!(Command::from_str("NOOP"), Ok(Command::NOOP)));
    assert!(matches!(Command::from_str("RSET"), Ok(Command::RSET)));
    assert!(matches!(Command::from_str("QUIT"), Ok(Command::QUIT)));
    assert!(matches!(Command::from_str("APOP"), Ok(Command::APOP)));
    assert!(matches!(Command::from_str("TOP"), Ok(Command::TOP)));
    assert!(matches!(Command::from_str("AUTH"), Ok(Command::AUTH)));
    assert!(matches!(Command::from_str("CAPA"), Ok(Command::CAPA)));
}

#[test]
fn command_from_str_is_case_sensitive() {
    assert!(matches!(Command::from_str("user"), Err(DecodeError::UnknownCommand)));
    assert!(matches!(Command::from_str("Stat"), Err(DecodeError::UnknownCommand)));
    assert!(matches!(Command::from_str(""), Err(DecodeError::UnknownCommand)));
    assert!(matches!(Command::from_str("XYZZY"), Err(DecodeError::UnknownCommand)));
}

#[test]
fn command_keyword_round_trips() {
    let all = [
        Command::APOP,
        Command::AUTH,
        Command::CAPA,
        Command::DELE,
        Command::LIST,
        Command::NOOP,
        Command::PASS,
        Command::QUIT,
        Command::RETR,
        Command::RSET,
        Command::STAT,
        Command::TOP,
        Command::UIDL,
        Command::USER,
    ];
    for c in all {
        assert_eq!(Command::from_str(c.keyword()).unwrap(), c);
    }
}

#[test]
fn decode_simple_commands() {
    assert!(matches!(Request::from_str("STAT\r\n"), Ok(Request::STAT)));
    assert!(matches!(Request::from_str("NOOP\r\n"), Ok(Request::NOOP)));
    assert!(matches!(Request::from_str("RSET\r\n"), Ok(Request::RSET)));
    assert!(matches!(Request::from_str("QUIT\r\n"), Ok(Request::QUIT)));
    assert!(matches!(Request::from_str("CAPA\r\n"), Ok(Request::CAPA)));
}

#[test]
fn decode_commands_with_arguments() {
    match Request::from_str("USER mrose\r\n") {
        Ok(Request::USER(u)) => assert_eq!(u, "mrose"),
        other => panic!("unexpected: {:?}", other),
    }
    match Request::from_str("PASS secret\r\n") {
        Ok(Request::PASS(p)) => assert_eq!(p, "secret"),
        other => panic!("unexpected: {:?}", other),
    }
    assert!(matches!(Request::from_str("RETR 1\r\n"), Ok(Request::RETR(1))));
    assert!(matches!(Request::from_str("DELE 2\r\n"), Ok(Request::DELE(2))));
    assert!(matches!(Request::from_str("LIST\r\n"), Ok(Request::LIST(None))));
    assert!(matches!(Request::from_str("LIST 3\r\n"), Ok(Request::LIST(Some(3)))));
    assert!(matches!(Request::from_str("UIDL\r\n"), Ok(Request::UIDL(None))));
    assert!(matches!(Request::from_str("UIDL 4\r\n"), Ok(Request::UIDL(Some(4)))));
    assert!(matches!(
        Request::from_str("TOP 1 10\r\n"),
        Ok(Request::TOP { id: 1, lines: 10 })
    ));
    match Request::from_str("APOP mrose c4c9334bac560ecc979e58001b3e22fb\r\n") {
        Ok(Request::APOP { username, digest }) => {
            assert_eq!(username, "mrose");
            assert_eq!(digest, "c4c9334bac560ecc979e58001b3e22fb");
        },
        other => panic!("unexpected: {:?}", other),
    }
    assert!(matches!(Request::from_str("AUTH\r\n"), Ok(Request::AUTH(None))));
    match Request::from_str("AUTH KERBEROS_V4\r\n") {
        Ok(Request::AUTH(Some(m))) => assert_eq!(m, "KERBEROS_V4"),
        other => panic!("unexpected: {:?}", other),
    }
}

#[test]
fn decode_discards_extra_spaces() {
    assert!(matches!(Request::from_str("LIST   7\r\n"), Ok(Request::LIST(Some(7)))));
    assert!(matches!(Request::from_str("  STAT  \r\n"), Ok(Request::STAT)));
}

#[test]
fn decode_missing_crlf_is_malformed() {
    assert!(matches!(Request::from_str("STAT"), Err(DecodeError::MalformedLine)));
    assert!(matches!(Request::from_str("STAT\n"), Err(DecodeError::MalformedLine)));
    assert!(matches!(Request::from_str(""), Err(DecodeError::MalformedLine)));
}

#[test]
fn decode_unknown_command() {
    assert!(matches!(Request::from_str("FETCH 1\r\n"), Err(DecodeError::UnknownCommand)));
    assert!(matches!(Request::from_str("\r\n"), Err(DecodeError::UnknownCommand)));
    assert!(matches!(Request::from_str("stat\r\n"), Err(DecodeError::UnknownCommand)));
}

#[test]
fn decode_wrong_argument_count() {
    assert!(matches!(Request::from_str("USER\r\n"), Err(DecodeError::ArgumentCountMismatch)));
    assert!(matches!(
        Request::from_str("USER a b\r\n"),
        Err(DecodeError::ArgumentCountMismatch)
    ));
    assert!(matches!(Request::from_str("STAT 1\r\n"), Err(DecodeError::ArgumentCountMismatch)));
    assert!(matches!(Request::from_str("RETR\r\n"), Err(DecodeError::ArgumentCountMismatch)));
    assert!(matches!(Request::from_str("TOP 1\r\n"), Err(DecodeError::ArgumentCountMismatch)));
    assert!(matches!(
        Request::from_str("DELE 1 2\r\n"),
        Err(DecodeError::ArgumentCountMismatch)
    ));
}

#[test]
fn decode_bad_numeric_argument() {
    assert!(matches!(Request::from_str("RETR one\r\n"), Err(DecodeError::InvalidArgument)));
    assert!(matches!(Request::from_str("DELE -1\r\n"), Err(DecodeError::InvalidArgument)));
    assert!(matches!(Request::from_str("LIST 1x\r\n"), Err(DecodeError::InvalidArgument)));
    assert!(matches!(
        Request::from_str("DELE 99999999999999999999999999\r\n"),
        Err(DecodeError::InvalidArgument)
    ));
}

#[test]
fn decode_line_too_long() {
    let mut line = String::from("USER ");
    line.push_str(&"a".repeat(600));
    line.push_str("\r\n");
    assert!(matches!(Request::from_str(&line), Err(DecodeError::LineTooLong)));
}

#[test]
fn encode_request_lines() {
    assert_eq!(Request::STAT.to_string(), "STAT\r\n");
    assert_eq!(Request::NOOP.to_string(), "NOOP\r\n");
    assert_eq!(Request::QUIT.to_string(), "QUIT\r\n");
    assert_eq!(Request::RSET.to_string(), "RSET\r\n");
    assert_eq!(Request::CAPA.to_string(), "CAPA\r\n");
    assert_eq!(Request::USER("mrose".to_string()).to_string(), "USER mrose\r\n");
    assert_eq!(Request::PASS("secret".to_string()).to_string(), "PASS secret\r\n");
    assert_eq!(Request::DELE(1).to_string(), "DELE 1\r\n");
    assert_eq!(Request::RETR(120).to_string(), "RETR 120\r\n");
    assert_eq!(Request::LIST(None).to_string(), "LIST\r\n");
    assert_eq!(Request::LIST(Some(2)).to_string(), "LIST 2\r\n");
    assert_eq!(Request::UIDL(None).to_string(), "UIDL\r\n");
    assert_eq!(Request::UIDL(Some(30)).to_string(), "UIDL 30\r\n");
    assert_eq!(Request::AUTH(None).to_string(), "AUTH\r\n");
    assert_eq!(Request::AUTH(Some("PLAIN".to_string())).to_string(), "AUTH PLAIN\r\n");
    assert_eq!(
        Request::TOP { id: 1, lines: 10 }.to_string(),
        "TOP 1 10\r\n"
    );
    assert_eq!(
        Request::APOP {
            username: "mrose".to_string(),
            digest: "c4c9334bac560ecc979e58001b3e22fb".to_string()
        }
        .to_string(),
        "APOP mrose c4c9334bac560ecc979e58001b3e22fb\r\n"
    );
}

#[test]
fn encode_single_line_responses() {
    assert_eq!(Response::DELE.to_string(), "+OK\r\n");
    assert_eq!(Response::NOOP.to_string(), "+OK\r\n");
    assert_eq!(Response::QUIT.to_string(), "+OK\r\n");
    assert_eq!(Response::RSET.to_string(), "+OK\r\n");
    assert_eq!(Response::GREET("ready".to_string()).to_string(), "+OK ready\r\n");
    assert_eq!(Response::USER("ok".to_string()).to_string(), "+OK ok\r\n");
    assert_eq!(Response::PASS("welcome".to_string()).to_string(), "+OK welcome\r\n");
    assert_eq!(Response::STAT { count: 2, size: 320 }.to_string(), "+OK 2 320\r\n");
    assert_eq!(Response::ERR("no such message".to_string()).to_string(), "-ERR no such message\r\n");
}

#[test]
fn encode_list_responses() {
    assert_eq!(
        Response::LIST(ListResponse::Single(MessageMeta { id: 2, size: 200 })).to_string(),
        "+OK 2 200\r\n"
    );
    let all = Response::LIST(ListResponse::All {
        count: 2,
        messages: vec![
            MessageMeta { id: 1, size: 120 },
            MessageMeta { id: 2, size: 200 },
        ],
    });
    assert_eq!(all.to_string(), "+OK 2 messages\r\n1 120\r\n2 200\r\n.\r\n");
}

#[test]
fn encode_empty_list_response() {
    let empty = Response::LIST(ListResponse::All { count: 0, messages: vec![] });
    assert_eq!(empty.to_string(), "+OK 0 messages\r\n.\r\n");
}

#[test]
fn encode_uidl_responses() {
    assert_eq!(
        Response::UIDL(UidlResponse::Single(UidlEntry {
            id: 2,
            uid: "QhdPYR:00WBw1Ph7x7".to_string()
        }))
        .to_string(),
        "+OK 2 QhdPYR:00WBw1Ph7x7\r\n"
    );
    let all = Response::UIDL(UidlResponse::All {
        count: 2,
        entries: vec![
            UidlEntry { id: 1, uid: "whqtswO00WBw418f9t5JxYwZ".to_string() },
            UidlEntry { id: 2, uid: "QhdPYR:00WBw1Ph7x7".to_string() },
        ],
    });
    assert_eq!(
        all.to_string(),
        "+OK 2 messages\r\n1 whqtswO00WBw418f9t5JxYwZ\r\n2 QhdPYR:00WBw1Ph7x7\r\n.\r\n"
    );
}

#[test]
fn encode_capa_and_auth_responses() {
    let capa = Response::CAPA(vec!["TOP".to_string(), "UIDL".to_string()]);
    assert_eq!(capa.to_string(), "+OK Capability list follows\r\nTOP\r\nUIDL\r\n.\r\n");
    let auth = Response::AUTH(AuthResponse::All(vec!["PLAIN".to_string()]));
    assert_eq!(auth.to_string(), "+OK 1 auth methods\r\nPLAIN\r\n.\r\n");
}

#[test]
fn encode_retr_applies_byte_stuffing() {
    let body = "line one\r\n.\r\nline two\r\n";
    let resp = Response::RETR(body.to_string());
    assert_eq!(resp.to_string(), "+OK\r\nline one\r\n..\r\nline two\r\n.\r\n");
}

#[test]
fn encode_retr_stuffs_dot_prefixed_text_lines() {
    let body = ".hidden\r\nplain\r\n";
    let resp = Response::RETR(body.to_string());
    assert_eq!(resp.to_string(), "+OK\r\n..hidden\r\nplain\r\n.\r\n");
}

#[test]
fn parse_ok_responses() {
    match Response::from_str("+OK mrose is real\r\n", Command::USER) {
        Ok(Response::USER(m)) => assert_eq!(m, "mrose is real"),
        other => panic!("unexpected: {:?}", other),
    }
    match Response::from_str("+OK welcome\r\n", Command::PASS) {
        Ok(Response::PASS(m)) => assert_eq!(m, "welcome"),
        other => panic!("unexpected: {:?}", other),
    }
    assert!(matches!(
        Response::from_str("+OK 2 320\r\n", Command::STAT),
        Ok(Response::STAT { count: 2, size: 320 })
    ));
    assert!(matches!(Response::from_str("+OK\r\n", Command::DELE), Ok(Response::DELE)));
    assert!(matches!(Response::from_str("+OK\r\n", Command::NOOP), Ok(Response::NOOP)));
    assert!(matches!(Response::from_str("+OK done\r\n", Command::RSET), Ok(Response::RSET)));
    assert!(matches!(Response::from_str("+OK bye\r\n", Command::QUIT), Ok(Response::QUIT)));
}

#[test]
fn parse_err_response() {
    match Response::from_str("-ERR no such message\r\n", Command::DELE) {
        Ok(Response::ERR(m)) => assert_eq!(m, "no such message"),
        other => panic!("unexpected: {:?}", other),
    }
}

#[test]
fn parse_response_rejects_malformed_lines() {
    assert!(matches!(
        Response::from_str("+OK no terminator", Command::DELE),
        Err(DecodeError::MalformedLine)
    ));
    assert!(matches!(
        Response::from_str("howdy\r\n", Command::NOOP),
        Err(DecodeError::MalformedLine)
    ));
    assert!(matches!(
        Response::from_str("+OK a\r\nb\r\n", Command::NOOP),
        Err(DecodeError::MalformedLine)
    ));
    assert!(matches!(
        Response::from_str("+OK\r\n", Command::USER),
        Err(DecodeError::MalformedLine)
    ));
    assert!(matches!(
        Response::from_str("+OK 2 320 extra\r\n", Command::STAT),
        Err(DecodeError::ArgumentCountMismatch)
    ));
    assert!(matches!(
        Response::from_str("+OK two 320\r\n", Command::STAT),
        Err(DecodeError::InvalidArgument)
    ));
}
