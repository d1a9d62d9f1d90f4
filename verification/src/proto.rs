//! The POP3 wire codec: commands, decoded client requests, server responses,
//! and the exact text each one takes on the wire.
//!
//! Decoding takes one CRLF-terminated line and yields a [`Request`] or a
//! [`DecodeError`]; encoding renders a [`Request`] or [`Response`] as the
//! byte-for-byte line (or multi-line, dot-terminated block) that is sent.

use vstd::prelude::*;
use vstd::string::StrSliceExecFns;
use vstd::string::StringExecFns;

use crate::MAX_LINE;
use crate::text::all_digits;
use crate::text::dec_str;
use crate::text::is_digit;
use crate::text::lemma_num_of_dec_str;
use crate::text::lemma_tokens_pair;
use crate::text::lemma_tokens_single;
use crate::text::lemma_tokens_triple;
use crate::text::token_wf;
use crate::text::num_of;
use crate::text::parse_usize;
use crate::text::split_tokens;
use crate::text::str_eq;
use crate::text::stuff;
use crate::text::stuff_text;
use crate::text::tokens_of;
use crate::text::usize_to_string;

verus! {

/// The closed set of POP3 command keywords.
#[derive(Copy, Clone, Debug, PartialEq, Eq, Structural)]
pub enum Command {
    /// Digest authentication against the greeting nonce.
    APOP,
    /// List authentication mechanisms, or start a named one.
    AUTH,
    /// List the server's capabilities.
    CAPA,
    /// Mark one message deleted.
    DELE,
    /// Scan listing of one message or of every message.
    LIST,
    /// Positive reply and nothing else.
    NOOP,
    /// Password of a previously named user.
    PASS,
    /// End the session, committing deletions when it was authenticated.
    QUIT,
    /// Retrieve one whole message.
    RETR,
    /// Clear every deletion mark.
    RSET,
    /// Message count and total size of the maildrop.
    STAT,
    /// Headers and the first lines of one message.
    TOP,
    /// Unique-id listing of one message or of every message.
    UIDL,
    /// Name the user to authenticate.
    USER,
}

/// Why a client line was rejected by the decoder.
#[derive(Copy, Clone, Debug, PartialEq, Eq, Structural)]
pub enum DecodeError {
    /// The line is longer than [`MAX_LINE`] characters.
    LineTooLong,
    /// The line does not end in CRLF, or a reply line is shaped wrongly.
    MalformedLine,
    /// The first word is not a known command keyword.
    UnknownCommand,
    /// The command keyword is known but the argument count is wrong.
    ArgumentCountMismatch,
    /// An argument that must be a non-negative integer is not one.
    InvalidArgument,
}

/// The canonical keyword of each command.
pub open spec fn keyword_of(c: Command) -> Seq<char> {
    match c {
        Command::APOP => "APOP"@,
        Command::AUTH => "AUTH"@,
        Command::CAPA => "CAPA"@,
        Command::DELE => "DELE"@,
        Command::LIST => "LIST"@,
        Command::NOOP => "NOOP"@,
        Command::PASS => "PASS"@,
        Command::QUIT => "QUIT"@,
        Command::RETR => "RETR"@,
        Command::RSET => "RSET"@,
        Command::STAT => "STAT"@,
        Command::TOP => "TOP"@,
        Command::UIDL => "UIDL"@,
        Command::USER => "USER"@,
    }
}

/// The command whose keyword is exactly `t`, if any; case-sensitive.
pub open spec fn command_of(t: Seq<char>) -> Option<Command> {
    if t == "USER"@ {
        Some(Command::USER)
    } else if t == "PASS"@ {
        Some(Command::PASS)
    } else if t == "STAT"@ {
        Some(Command::STAT)
    } else if t == "UIDL"@ {
        Some(Command::UIDL)
    } else if t == "LIST"@ {
        Some(Command::LIST)
    } else if t == "RETR"@ {
        Some(Command::RETR)
    } else if t == "DELE"@ {
        Some(Command::DELE)
    } else if t == "NOOP"@ {
        Some(Command::NOOP)
    } else if t == "RSET"@ {
        Some(Command::RSET)
    } else if t == "QUIT"@ {
        Some(Command::QUIT)
    } else if t == "APOP"@ {
        Some(Command::APOP)
    } else if t == "TOP"@ {
        Some(Command::TOP)
    } else if t == "AUTH"@ {
        Some(Command::AUTH)
    } else if t == "CAPA"@ {
        Some(Command::CAPA)
    } else {
        None
    }
}

impl Command {
    /// Match a word against the keyword set, exactly as [`command_of`]
    /// describes.
    pub fn from_str(s: &str) -> (r: Result<Command, DecodeError>)
        ensures
            match r {
                Ok(c) => command_of(s@) == Some(c),
                Err(e) => command_of(s@) is None && e == DecodeError::UnknownCommand,
            },
    {
        if str_eq(s, "USER") {
            Ok(Command::USER)
        } else if str_eq(s, "PASS") {
            Ok(Command::PASS)
        } else if str_eq(s, "STAT") {
            Ok(Command::STAT)
        } else if str_eq(s, "UIDL") {
            Ok(Command::UIDL)
        } else if str_eq(s, "LIST") {
            Ok(Command::LIST)
        } else if str_eq(s, "RETR") {
            Ok(Command::RETR)
        } else if str_eq(s, "DELE") {
            Ok(Command::DELE)
        } else if str_eq(s, "NOOP") {
            Ok(Command::NOOP)
        } else if str_eq(s, "RSET") {
            Ok(Command::RSET)
        } else if str_eq(s, "QUIT") {
            Ok(Command::QUIT)
        } else if str_eq(s, "APOP") {
            Ok(Command::APOP)
        } else if str_eq(s, "TOP") {
            Ok(Command::TOP)
        } else if str_eq(s, "AUTH") {
            Ok(Command::AUTH)
        } else if str_eq(s, "CAPA") {
            Ok(Command::CAPA)
        } else {
            Err(DecodeError::UnknownCommand)
        }
    }

    /// The keyword as it is written on the wire.
    pub fn keyword(&self) -> (r: &'static str)
        ensures
            r@ == keyword_of(*self),
    {
        match self {
            Command::APOP => "APOP",
            Command::AUTH => "AUTH",
            Command::CAPA => "CAPA",
            Command::DELE => "DELE",
            Command::LIST => "LIST",
            Command::NOOP => "NOOP",
            Command::PASS => "PASS",
            Command::QUIT => "QUIT",
            Command::RETR => "RETR",
            Command::RSET => "RSET",
            Command::STAT => "STAT",
            Command::TOP => "TOP",
            Command::UIDL => "UIDL",
            Command::USER => "USER",
        }
    }
}

/// Every keyword is recognised back as its own command.
pub proof fn lemma_keyword_roundtrip(c: Command)
    ensures
        command_of(keyword_of(c)) == Some(c),
{
    reveal_strlit("APOP");
    reveal_strlit("AUTH");
    reveal_strlit("CAPA");
    reveal_strlit("DELE");
    reveal_strlit("LIST");
    reveal_strlit("NOOP");
    reveal_strlit("PASS");
    reveal_strlit("QUIT");
    reveal_strlit("RETR");
    reveal_strlit("RSET");
    reveal_strlit("STAT");
    reveal_strlit("TOP");
    reveal_strlit("UIDL");
    reveal_strlit("USER");
    assert("APOP"@[0] == 'A' && "APOP"@[1] == 'P');
    assert("AUTH"@[0] == 'A' && "AUTH"@[1] == 'U');
    assert("CAPA"@[0] == 'C');
    assert("DELE"@[0] == 'D');
    assert("LIST"@[0] == 'L');
    assert("NOOP"@[0] == 'N');
    assert("PASS"@[0] == 'P');
    assert("QUIT"@[0] == 'Q');
    assert("RETR"@[0] == 'R' && "RETR"@[1] == 'E');
    assert("RSET"@[0] == 'R' && "RSET"@[1] == 'S');
    assert("STAT"@[0] == 'S');
    assert("TOP"@[0] == 'T');
    assert("UIDL"@[0] == 'U' && "UIDL"@[1] == 'I');
    assert("USER"@[0] == 'U' && "USER"@[1] == 'S');
    match c {
        Command::APOP => assert(command_of(keyword_of(c)) == Some(c)),
        Command::AUTH => assert(command_of(keyword_of(c)) == Some(c)),
        Command::CAPA => assert(command_of(keyword_of(c)) == Some(c)),
        Command::DELE => assert(command_of(keyword_of(c)) == Some(c)),
        Command::LIST => assert(command_of(keyword_of(c)) == Some(c)),
        Command::NOOP => assert(command_of(keyword_of(c)) == Some(c)),
        Command::PASS => assert(command_of(keyword_of(c)) == Some(c)),
        Command::QUIT => assert(command_of(keyword_of(c)) == Some(c)),
        Command::RETR => assert(command_of(keyword_of(c)) == Some(c)),
        Command::RSET => assert(command_of(keyword_of(c)) == Some(c)),
        Command::STAT => assert(command_of(keyword_of(c)) == Some(c)),
        Command::TOP => assert(command_of(keyword_of(c)) == Some(c)),
        Command::UIDL => assert(command_of(keyword_of(c)) == Some(c)),
        Command::USER => assert(command_of(keyword_of(c)) == Some(c)),
    }
}

/// One decoded client line.
#[derive(Debug)]
pub enum Request {
    APOP { username: String, digest: String },
    AUTH(Option<String>),
    CAPA,
    DELE(usize),
    LIST(Option<usize>),
    NOOP,
    PASS(String),
    QUIT,
    RETR(usize),
    RSET,
    STAT,
    TOP { id: usize, lines: usize },
    UIDL(Option<usize>),
    USER(String),
}

/// The mathematical shape of a request: its arguments as sequences and
/// naturals.
pub enum RequestV {
    Apop { username: Seq<char>, digest: Seq<char> },
    Auth(Option<Seq<char>>),
    Capa,
    Dele(nat),
    List(Option<nat>),
    Noop,
    Pass(Seq<char>),
    Quit,
    Retr(nat),
    Rset,
    Stat,
    Top { id: nat, lines: nat },
    Uidl(Option<nat>),
    User(Seq<char>),
}

impl View for Request {
    type V = RequestV;

    open spec fn view(&self) -> RequestV {
        match self {
            Request::APOP { username, digest } => RequestV::Apop {
                username: username@,
                digest: digest@,
            },
            Request::AUTH(None) => RequestV::Auth(None),
            Request::AUTH(Some(m)) => RequestV::Auth(Some(m@)),
            Request::CAPA => RequestV::Capa,
            Request::DELE(id) => RequestV::Dele(*id as nat),
            Request::LIST(None) => RequestV::List(None),
            Request::LIST(Some(id)) => RequestV::List(Some(*id as nat)),
            Request::NOOP => RequestV::Noop,
            Request::PASS(p) => RequestV::Pass(p@),
            Request::QUIT => RequestV::Quit,
            Request::RETR(id) => RequestV::Retr(*id as nat),
            Request::RSET => RequestV::Rset,
            Request::STAT => RequestV::Stat,
            Request::TOP { id, lines } => RequestV::Top { id: *id as nat, lines: *lines as nat },
            Request::UIDL(None) => RequestV::Uidl(None),
            Request::UIDL(Some(id)) => RequestV::Uidl(Some(*id as nat)),
            Request::USER(u) => RequestV::User(u@),
        }
    }
}

/// Does `s` end in CRLF?
pub open spec fn has_crlf_end(s: Seq<char>) -> bool {
    s.len() >= 2 && s[s.len() - 2] == '\r' && s[s.len() - 1] == '\n'
}

/// The command each request was decoded from.
pub open spec fn command_of_request(r: RequestV) -> Command {
    match r {
        RequestV::Apop { .. } => Command::APOP,
        RequestV::Auth(_) => Command::AUTH,
        RequestV::Capa => Command::CAPA,
        RequestV::Dele(_) => Command::DELE,
        RequestV::List(_) => Command::LIST,
        RequestV::Noop => Command::NOOP,
        RequestV::Pass(_) => Command::PASS,
        RequestV::Quit => Command::QUIT,
        RequestV::Retr(_) => Command::RETR,
        RequestV::Rset => Command::RSET,
        RequestV::Stat => Command::STAT,
        RequestV::Top { .. } => Command::TOP,
        RequestV::Uidl(_) => Command::UIDL,
        RequestV::User(_) => Command::USER,
    }
}

/// Arguments of one command, taken from the words of the line (the keyword
/// is `toks[0]`).
pub open spec fn args_spec(cmd: Command, toks: Seq<Seq<char>>) -> Result<RequestV, DecodeError> {
    match cmd {
        Command::USER => if toks.len() == 2 {
            Ok(RequestV::User(toks[1]))
        } else {
            Err(DecodeError::ArgumentCountMismatch)
        },
        Command::PASS => if toks.len() == 2 {
            Ok(RequestV::Pass(toks[1]))
        } else {
            Err(DecodeError::ArgumentCountMismatch)
        },
        Command::STAT => if toks.len() == 1 {
            Ok(RequestV::Stat)
        } else {
            Err(DecodeError::ArgumentCountMismatch)
        },
        Command::UIDL => if toks.len() == 1 {
            Ok(RequestV::Uidl(None))
        } else if toks.len() == 2 {
            match num_of(toks[1]) {
                Some(n) => Ok(RequestV::Uidl(Some(n))),
                None => Err(DecodeError::InvalidArgument),
            }
        } else {
            Err(DecodeError::ArgumentCountMismatch)
        },
        Command::LIST => if toks.len() == 1 {
            Ok(RequestV::List(None))
        } else if toks.len() == 2 {
            match num_of(toks[1]) {
                Some(n) => Ok(RequestV::List(Some(n))),
                None => Err(DecodeError::InvalidArgument),
            }
        } else {
            Err(DecodeError::ArgumentCountMismatch)
        },
        Command::RETR => if toks.len() == 2 {
            match num_of(toks[1]) {
                Some(n) => Ok(RequestV::Retr(n)),
                None => Err(DecodeError::InvalidArgument),
            }
        } else {
            Err(DecodeError::ArgumentCountMismatch)
        },
        Command::DELE => if toks.len() == 2 {
            match num_of(toks[1]) {
                Some(n) => Ok(RequestV::Dele(n)),
                None => Err(DecodeError::InvalidArgument),
            }
        } else {
            Err(DecodeError::ArgumentCountMismatch)
        },
        Command::NOOP => if toks.len() == 1 {
            Ok(RequestV::Noop)
        } else {
            Err(DecodeError::ArgumentCountMismatch)
        },
        Command::RSET => if toks.len() == 1 {
            Ok(RequestV::Rset)
        } else {
            Err(DecodeError::ArgumentCountMismatch)
        },
        Command::QUIT => if toks.len() == 1 {
            Ok(RequestV::Quit)
        } else {
            Err(DecodeError::ArgumentCountMismatch)
        },
        Command::TOP => if toks.len() == 3 {
            match (num_of(toks[1]), num_of(toks[2])) {
                (Some(id), Some(lines)) => Ok(RequestV::Top { id, lines }),
                _ => Err(DecodeError::InvalidArgument),
            }
        } else {
            Err(DecodeError::ArgumentCountMismatch)
        },
        Command::APOP => if toks.len() == 3 {
            Ok(RequestV::Apop { username: toks[1], digest: toks[2] })
        } else {
            Err(DecodeError::ArgumentCountMismatch)
        },
        Command::AUTH => if toks.len() == 1 {
            Ok(RequestV::Auth(None))
        } else if toks.len() == 2 {
            Ok(RequestV::Auth(Some(toks[1])))
        } else {
            Err(DecodeError::ArgumentCountMismatch)
        },
        Command::CAPA => if toks.len() == 1 {
            Ok(RequestV::Capa)
        } else {
            Err(DecodeError::ArgumentCountMismatch)
        },
    }
}

/// What one client line decodes to: the whole decode, from raw characters to
/// a request or the exact error.
pub open spec fn decode_spec(line: Seq<char>) -> Result<RequestV, DecodeError> {
    if line.len() > MAX_LINE {
        Err(DecodeError::LineTooLong)
    } else if !has_crlf_end(line) {
        Err(DecodeError::MalformedLine)
    } else {
        let toks = tokens_of(line.take(line.len() - 2));
        if toks.len() == 0 {
            Err(DecodeError::UnknownCommand)
        } else {
            match command_of(toks[0]) {
                None => Err(DecodeError::UnknownCommand),
                Some(cmd) => args_spec(cmd, toks),
            }
        }
    }
}

/// `r` is exactly what [`decode_spec`] says of `s`.
pub open spec fn decodes_to(s: Seq<char>, r: Result<Request, DecodeError>) -> bool {
    match r {
        Ok(req) => decode_spec(s) == Ok::<RequestV, DecodeError>(req@),
        Err(e) => decode_spec(s) == Err::<RequestV, DecodeError>(e),
    }
}

impl Request {
    /// Decode one client line (with its trailing CRLF), exactly as
    /// [`decode_spec`] describes.
    pub fn from_str(v: &str) -> (r: Result<Request, DecodeError>)
        ensures
            decodes_to(v@, r),
    {
        let n = v.unicode_len();
        if n > MAX_LINE {
            return Err(DecodeError::LineTooLong);
        }
        if n < 2 || v.get_char(n - 2) != '\r' || v.get_char(n - 1) != '\n' {
            return Err(DecodeError::MalformedLine);
        }
        let body = v.substring_char(0, n - 2);
        proof {
            assert(body@ =~= v@.take(n - 2));
        }
        let toks = split_tokens(body);
        let ghost toks_s = tokens_of(v@.take(n - 2));
        if toks.len() == 0 {
            return Err(DecodeError::UnknownCommand);
        }
        proof {
            assert(toks@[0]@ == toks_s[0]);
        }
        let cmd = match Command::from_str(toks[0].as_str()) {
            Ok(c) => c,
            Err(e) => {
                return Err(e);
            },
        };
        match cmd {
            Command::USER => {
                if toks.len() != 2 {
                    return Err(DecodeError::ArgumentCountMismatch);
                }
                proof {
                    assert(toks@[1]@ == toks_s[1]);
                }
                Ok(Request::USER(toks[1].clone()))
            },
            Command::PASS => {
                if toks.len() != 2 {
                    return Err(DecodeError::ArgumentCountMismatch);
                }
                proof {
                    assert(toks@[1]@ == toks_s[1]);
                }
                Ok(Request::PASS(toks[1].clone()))
            },
            Command::STAT => {
                if toks.len() != 1 {
                    return Err(DecodeError::ArgumentCountMismatch);
                }
                Ok(Request::STAT)
            },
            Command::UIDL => {
                if toks.len() == 1 {
                    Ok(Request::UIDL(None))
                } else if toks.len() == 2 {
                    proof {
                        assert(toks@[1]@ == toks_s[1]);
                    }
                    match parse_usize(toks[1].as_str()) {
                        Some(id) => Ok(Request::UIDL(Some(id))),
                        None => Err(DecodeError::InvalidArgument),
                    }
                } else {
                    Err(DecodeError::ArgumentCountMismatch)
                }
            },
            Command::LIST => {
                if toks.len() == 1 {
                    Ok(Request::LIST(None))
                } else if toks.len() == 2 {
                    proof {
                        assert(toks@[1]@ == toks_s[1]);
                    }
                    match parse_usize(toks[1].as_str()) {
                        Some(id) => Ok(Request::LIST(Some(id))),
                        None => Err(DecodeError::InvalidArgument),
                    }
                } else {
                    Err(DecodeError::ArgumentCountMismatch)
                }
            },
            Command::RETR => {
                if toks.len() != 2 {
                    return Err(DecodeError::ArgumentCountMismatch);
                }
                proof {
                    assert(toks@[1]@ == toks_s[1]);
                }
                match parse_usize(toks[1].as_str()) {
                    Some(id) => Ok(Request::RETR(id)),
                    None => Err(DecodeError::InvalidArgument),
                }
            },
            Command::DELE => {
                if toks.len() != 2 {
                    return Err(DecodeError::ArgumentCountMismatch);
                }
                proof {
                    assert(toks@[1]@ == toks_s[1]);
                }
                match parse_usize(toks[1].as_str()) {
                    Some(id) => Ok(Request::DELE(id)),
                    None => Err(DecodeError::InvalidArgument),
                }
            },
            Command::NOOP => {
                if toks.len() != 1 {
                    return Err(DecodeError::ArgumentCountMismatch);
                }
                Ok(Request::NOOP)
            },
            Command::RSET => {
                if toks.len() != 1 {
                    return Err(DecodeError::ArgumentCountMismatch);
                }
                Ok(Request::RSET)
            },
            Command::QUIT => {
                if toks.len() != 1 {
                    return Err(DecodeError::ArgumentCountMismatch);
                }
                Ok(Request::QUIT)
            },
            Command::TOP => {
                if toks.len() != 3 {
                    return Err(DecodeError::ArgumentCountMismatch);
                }
                proof {
                    assert(toks@[1]@ == toks_s[1]);
                    assert(toks@[2]@ == toks_s[2]);
                }
                let id = match parse_usize(toks[1].as_str()) {
                    Some(id) => id,
                    None => {
                        return Err(DecodeError::InvalidArgument);
                    },
                };
                match parse_usize(toks[2].as_str()) {
                    Some(lines) => Ok(Request::TOP { id, lines }),
                    None => Err(DecodeError::InvalidArgument),
                }
            },
            Command::APOP => {
                if toks.len() != 3 {
                    return Err(DecodeError::ArgumentCountMismatch);
                }
                proof {
                    assert(toks@[1]@ == toks_s[1]);
                    assert(toks@[2]@ == toks_s[2]);
                }
                Ok(Request::APOP { username: toks[1].clone(), digest: toks[2].clone() })
            },
            Command::AUTH => {
                if toks.len() == 1 {
                    Ok(Request::AUTH(None))
                } else if toks.len() == 2 {
                    proof {
                        assert(toks@[1]@ == toks_s[1]);
                    }
                    Ok(Request::AUTH(Some(toks[1].clone())))
                } else {
                    Err(DecodeError::ArgumentCountMismatch)
                }
            },
            Command::CAPA => {
                if toks.len() != 1 {
                    return Err(DecodeError::ArgumentCountMismatch);
                }
                Ok(Request::CAPA)
            },
        }
    }
}

/// The wire text of a request line.
pub open spec fn encode_request(r: RequestV) -> Seq<char> {
    match r {
        RequestV::Apop { username, digest } => "APOP "@ + username + " "@ + digest + "\r\n"@,
        RequestV::Auth(None) => "AUTH\r\n"@,
        RequestV::Auth(Some(m)) => "AUTH "@ + m + "\r\n"@,
        RequestV::Capa => "CAPA\r\n"@,
        RequestV::Dele(id) => "DELE "@ + dec_str(id) + "\r\n"@,
        RequestV::List(None) => "LIST\r\n"@,
        RequestV::List(Some(id)) => "LIST "@ + dec_str(id) + "\r\n"@,
        RequestV::Noop => "NOOP\r\n"@,
        RequestV::Pass(p) => "PASS "@ + p + "\r\n"@,
        RequestV::Quit => "QUIT\r\n"@,
        RequestV::Retr(id) => "RETR "@ + dec_str(id) + "\r\n"@,
        RequestV::Rset => "RSET\r\n"@,
        RequestV::Stat => "STAT\r\n"@,
        RequestV::Top { id, lines } => "TOP "@ + dec_str(id) + " "@ + dec_str(lines) + "\r\n"@,
        RequestV::Uidl(None) => "UIDL\r\n"@,
        RequestV::Uidl(Some(id)) => "UIDL "@ + dec_str(id) + "\r\n"@,
        RequestV::User(u) => "USER "@ + u + "\r\n"@,
    }
}

impl Request {
    /// Render the request as its wire line, exactly as [`encode_request`]
    /// describes.
    pub fn to_string(&self) -> (r: String)
        ensures
            r@ == encode_request(self@),
    {
        let mut out = String::new();
        match self {
            Request::APOP { username, digest } => {
                out.append("APOP ");
                out.append(username.as_str());
                out.append(" ");
                out.append(digest.as_str());
                out.append("\r\n");
            },
            Request::AUTH(None) => {
                out.append("AUTH\r\n");
            },
            Request::AUTH(Some(m)) => {
                out.append("AUTH ");
                out.append(m.as_str());
                out.append("\r\n");
            },
            Request::CAPA => {
                out.append("CAPA\r\n");
            },
            Request::DELE(id) => {
                out.append("DELE ");
                let ns = usize_to_string(*id);
                out.append(ns.as_str());
                out.append("\r\n");
            },
            Request::LIST(None) => {
                out.append("LIST\r\n");
            },
            Request::LIST(Some(id)) => {
                out.append("LIST ");
                let ns = usize_to_string(*id);
                out.append(ns.as_str());
                out.append("\r\n");
            },
            Request::NOOP => {
                out.append("NOOP\r\n");
            },
            Request::PASS(p) => {
                out.append("PASS ");
                out.append(p.as_str());
                out.append("\r\n");
            },
            Request::QUIT => {
                out.append("QUIT\r\n");
            },
            Request::RETR(id) => {
                out.append("RETR ");
                let ns = usize_to_string(*id);
                out.append(ns.as_str());
                out.append("\r\n");
            },
            Request::RSET => {
                out.append("RSET\r\n");
            },
            Request::STAT => {
                out.append("STAT\r\n");
            },
            Request::TOP { id, lines } => {
                out.append("TOP ");
                let ns = usize_to_string(*id);
                out.append(ns.as_str());
                out.append(" ");
                let ls = usize_to_string(*lines);
                out.append(ls.as_str());
                out.append("\r\n");
            },
            Request::UIDL(None) => {
                out.append("UIDL\r\n");
            },
            Request::UIDL(Some(id)) => {
                out.append("UIDL ");
                let ns = usize_to_string(*id);
                out.append(ns.as_str());
                out.append("\r\n");
            },
            Request::USER(u) => {
                out.append("USER ");
                out.append(u.as_str());
                out.append("\r\n");
            },
        }
        proof {
            assert(out@ =~= encode_request(self@));
        }
        out
    }
}


/// Every character of a three-character word is checked.
proof fn lemma_token_wf3(t: Seq<char>)
    requires
        t.len() == 3,
        t[0] != ' ',
        t[1] != ' ',
        t[2] != ' ',
    ensures
        token_wf(t),
{
    assert forall|i: int| 0 <= i < t.len() implies t[i] != ' ' by {
        if i == 0 {
        } else if i == 1 {
        } else {
            assert(i == 2);
        }
    }
}

/// Every character of a four-character word is checked.
proof fn lemma_token_wf4(t: Seq<char>)
    requires
        t.len() == 4,
        t[0] != ' ',
        t[1] != ' ',
        t[2] != ' ',
        t[3] != ' ',
    ensures
        token_wf(t),
{
    assert forall|i: int| 0 <= i < t.len() implies t[i] != ' ' by {
        if i == 0 {
        } else if i == 1 {
        } else if i == 2 {
        } else {
            assert(i == 3);
        }
    }
}

/// Every keyword is a word: non-empty and free of spaces.
proof fn lemma_keyword_token_wf(c: Command)
    ensures
        token_wf(keyword_of(c)),
{
    reveal_strlit("APOP");
    reveal_strlit("AUTH");
    reveal_strlit("CAPA");
    reveal_strlit("DELE");
    reveal_strlit("LIST");
    reveal_strlit("NOOP");
    reveal_strlit("PASS");
    reveal_strlit("QUIT");
    reveal_strlit("RETR");
    reveal_strlit("RSET");
    reveal_strlit("STAT");
    reveal_strlit("TOP");
    reveal_strlit("UIDL");
    reveal_strlit("USER");
    match c {
        Command::APOP => lemma_token_wf4("APOP"@),
        Command::AUTH => lemma_token_wf4("AUTH"@),
        Command::CAPA => lemma_token_wf4("CAPA"@),
        Command::DELE => lemma_token_wf4("DELE"@),
        Command::LIST => lemma_token_wf4("LIST"@),
        Command::NOOP => lemma_token_wf4("NOOP"@),
        Command::PASS => lemma_token_wf4("PASS"@),
        Command::QUIT => lemma_token_wf4("QUIT"@),
        Command::RETR => lemma_token_wf4("RETR"@),
        Command::RSET => lemma_token_wf4("RSET"@),
        Command::STAT => lemma_token_wf4("STAT"@),
        Command::TOP => lemma_token_wf3("TOP"@),
        Command::UIDL => lemma_token_wf4("UIDL"@),
        Command::USER => lemma_token_wf4("USER"@),
    }
}

/// A request whose arguments can ride the wire: string arguments are
/// words (non-empty and free of spaces), numbers fit the machine.
pub open spec fn request_wire_wf(r: RequestV) -> bool {
    match r {
        RequestV::Apop { username, digest } => token_wf(username) && token_wf(digest),
        RequestV::Auth(None) => true,
        RequestV::Auth(Some(m)) => token_wf(m),
        RequestV::Capa => true,
        RequestV::Dele(n) => n <= usize::MAX,
        RequestV::List(None) => true,
        RequestV::List(Some(n)) => n <= usize::MAX,
        RequestV::Noop => true,
        RequestV::Pass(p) => token_wf(p),
        RequestV::Quit => true,
        RequestV::Retr(n) => n <= usize::MAX,
        RequestV::Rset => true,
        RequestV::Stat => true,
        RequestV::Top { id, lines } => id <= usize::MAX && lines <= usize::MAX,
        RequestV::Uidl(None) => true,
        RequestV::Uidl(Some(n)) => n <= usize::MAX,
        RequestV::User(u) => token_wf(u),
    }
}

/// Encoding and decoding are inverse: the line a wire-worthy request
/// renders to, if it fits the length bound, decodes back to exactly that
/// request.
pub proof fn lemma_request_roundtrip(r: RequestV)
    requires
        request_wire_wf(r),
        encode_request(r).len() <= MAX_LINE,
    ensures
        decode_spec(encode_request(r)) == Ok::<RequestV, DecodeError>(r),
{
    let line = encode_request(r);
    match r {
        RequestV::Apop { username, digest } => {
            reveal_strlit("APOP ");
            reveal_strlit("APOP");
            reveal_strlit(" ");
            reveal_strlit("\r\n");
            let body = "APOP"@ + seq![' '] + username + seq![' '] + digest;
            assert("APOP "@ =~= "APOP"@ + seq![' ']);
            assert(" "@ =~= seq![' ']);
            assert(line =~= body + "\r\n"@);
            assert(line[line.len() - 2] == '\r' && line[line.len() - 1] == '\n');
            assert(line.take(line.len() - 2) =~= body);
            lemma_keyword_token_wf(Command::APOP);
            lemma_tokens_triple("APOP"@, username, digest);
            lemma_keyword_roundtrip(Command::APOP);
            assert(decode_spec(line) == Ok::<RequestV, DecodeError>(r));
        },
        RequestV::Auth(None) => {
            reveal_strlit("AUTH\r\n");
            reveal_strlit("AUTH");
            reveal_strlit("\r\n");
            assert(line =~= "AUTH"@ + "\r\n"@);
            assert(line[line.len() - 2] == '\r' && line[line.len() - 1] == '\n');
            assert(line.take(line.len() - 2) =~= "AUTH"@);
            lemma_keyword_token_wf(Command::AUTH);
            lemma_tokens_single("AUTH"@);
            lemma_keyword_roundtrip(Command::AUTH);
            assert(decode_spec(line) == Ok::<RequestV, DecodeError>(r));
        },
        RequestV::Auth(Some(m)) => {
            reveal_strlit("AUTH ");
            reveal_strlit("AUTH");
            reveal_strlit("\r\n");
            let body = "AUTH"@ + seq![' '] + m;
            assert("AUTH "@ =~= "AUTH"@ + seq![' ']);
            assert(line =~= body + "\r\n"@);
            assert(line[line.len() - 2] == '\r' && line[line.len() - 1] == '\n');
            assert(line.take(line.len() - 2) =~= body);
            lemma_keyword_token_wf(Command::AUTH);
            lemma_tokens_pair("AUTH"@, m);
            lemma_keyword_roundtrip(Command::AUTH);
            assert(decode_spec(line) == Ok::<RequestV, DecodeError>(r));
        },
        RequestV::Capa => {
            reveal_strlit("CAPA\r\n");
            reveal_strlit("CAPA");
            reveal_strlit("\r\n");
            assert(line =~= "CAPA"@ + "\r\n"@);
            assert(line[line.len() - 2] == '\r' && line[line.len() - 1] == '\n');
            assert(line.take(line.len() - 2) =~= "CAPA"@);
            lemma_keyword_token_wf(Command::CAPA);
            lemma_tokens_single("CAPA"@);
            lemma_keyword_roundtrip(Command::CAPA);
            assert(decode_spec(line) == Ok::<RequestV, DecodeError>(r));
        },
        RequestV::Dele(n) => {
            reveal_strlit("DELE ");
            reveal_strlit("DELE");
            reveal_strlit("\r\n");
            let body = "DELE"@ + seq![' '] + dec_str(n);
            assert("DELE "@ =~= "DELE"@ + seq![' ']);
            assert(line =~= body + "\r\n"@);
            assert(line[line.len() - 2] == '\r' && line[line.len() - 1] == '\n');
            assert(line.take(line.len() - 2) =~= body);
            lemma_keyword_token_wf(Command::DELE);
            lemma_num_of_dec_str(n);
            lemma_tokens_pair("DELE"@, dec_str(n));
            lemma_keyword_roundtrip(Command::DELE);
            assert(decode_spec(line) == Ok::<RequestV, DecodeError>(r));
        },
        RequestV::List(None) => {
            reveal_strlit("LIST\r\n");
            reveal_strlit("LIST");
            reveal_strlit("\r\n");
            assert(line =~= "LIST"@ + "\r\n"@);
            assert(line[line.len() - 2] == '\r' && line[line.len() - 1] == '\n');
            assert(line.take(line.len() - 2) =~= "LIST"@);
            lemma_keyword_token_wf(Command::LIST);
            lemma_tokens_single("LIST"@);
            lemma_keyword_roundtrip(Command::LIST);
            assert(decode_spec(line) == Ok::<RequestV, DecodeError>(r));
        },
        RequestV::List(Some(n)) => {
            reveal_strlit("LIST ");
            reveal_strlit("LIST");
            reveal_strlit("\r\n");
            let body = "LIST"@ + seq![' '] + dec_str(n);
            assert("LIST "@ =~= "LIST"@ + seq![' ']);
            assert(line =~= body + "\r\n"@);
            assert(line[line.len() - 2] == '\r' && line[line.len() - 1] == '\n');
            assert(line.take(line.len() - 2) =~= body);
            lemma_keyword_token_wf(Command::LIST);
            lemma_num_of_dec_str(n);
            lemma_tokens_pair("LIST"@, dec_str(n));
            lemma_keyword_roundtrip(Command::LIST);
            assert(decode_spec(line) == Ok::<RequestV, DecodeError>(r));
        },
        RequestV::Noop => {
            reveal_strlit("NOOP\r\n");
            reveal_strlit("NOOP");
            reveal_strlit("\r\n");
            assert(line =~= "NOOP"@ + "\r\n"@);
            assert(line[line.len() - 2] == '\r' && line[line.len() - 1] == '\n');
            assert(line.take(line.len() - 2) =~= "NOOP"@);
            lemma_keyword_token_wf(Command::NOOP);
            lemma_tokens_single("NOOP"@);
            lemma_keyword_roundtrip(Command::NOOP);
            assert(decode_spec(line) == Ok::<RequestV, DecodeError>(r));
        },
        RequestV::Pass(p) => {
            reveal_strlit("PASS ");
            reveal_strlit("PASS");
            reveal_strlit("\r\n");
            let body = "PASS"@ + seq![' '] + p;
            assert("PASS "@ =~= "PASS"@ + seq![' ']);
            assert(line =~= body + "\r\n"@);
            assert(line[line.len() - 2] == '\r' && line[line.len() - 1] == '\n');
            assert(line.take(line.len() - 2) =~= body);
            lemma_keyword_token_wf(Command::PASS);
            lemma_tokens_pair("PASS"@, p);
            lemma_keyword_roundtrip(Command::PASS);
            assert(decode_spec(line) == Ok::<RequestV, DecodeError>(r));
        },
        RequestV::Quit => {
            reveal_strlit("QUIT\r\n");
            reveal_strlit("QUIT");
            reveal_strlit("\r\n");
            assert(line =~= "QUIT"@ + "\r\n"@);
            assert(line[line.len() - 2] == '\r' && line[line.len() - 1] == '\n');
            assert(line.take(line.len() - 2) =~= "QUIT"@);
            lemma_keyword_token_wf(Command::QUIT);
            lemma_tokens_single("QUIT"@);
            lemma_keyword_roundtrip(Command::QUIT);
            assert(decode_spec(line) == Ok::<RequestV, DecodeError>(r));
        },
        RequestV::Retr(n) => {
            reveal_strlit("RETR ");
            reveal_strlit("RETR");
            reveal_strlit("\r\n");
            let body = "RETR"@ + seq![' '] + dec_str(n);
            assert("RETR "@ =~= "RETR"@ + seq![' ']);
            assert(line =~= body + "\r\n"@);
            assert(line[line.len() - 2] == '\r' && line[line.len() - 1] == '\n');
            assert(line.take(line.len() - 2) =~= body);
            lemma_keyword_token_wf(Command::RETR);
            lemma_num_of_dec_str(n);
            lemma_tokens_pair("RETR"@, dec_str(n));
            lemma_keyword_roundtrip(Command::RETR);
            assert(decode_spec(line) == Ok::<RequestV, DecodeError>(r));
        },
        RequestV::Rset => {
            reveal_strlit("RSET\r\n");
            reveal_strlit("RSET");
            reveal_strlit("\r\n");
            assert(line =~= "RSET"@ + "\r\n"@);
            assert(line[line.len() - 2] == '\r' && line[line.len() - 1] == '\n');
            assert(line.take(line.len() - 2) =~= "RSET"@);
            lemma_keyword_token_wf(Command::RSET);
            lemma_tokens_single("RSET"@);
            lemma_keyword_roundtrip(Command::RSET);
            assert(decode_spec(line) == Ok::<RequestV, DecodeError>(r));
        },
        RequestV::Stat => {
            reveal_strlit("STAT\r\n");
            reveal_strlit("STAT");
            reveal_strlit("\r\n");
            assert(line =~= "STAT"@ + "\r\n"@);
            assert(line[line.len() - 2] == '\r' && line[line.len() - 1] == '\n');
            assert(line.take(line.len() - 2) =~= "STAT"@);
            lemma_keyword_token_wf(Command::STAT);
            lemma_tokens_single("STAT"@);
            lemma_keyword_roundtrip(Command::STAT);
            assert(decode_spec(line) == Ok::<RequestV, DecodeError>(r));
        },
        RequestV::Top { id, lines } => {
            reveal_strlit("TOP ");
            reveal_strlit("TOP");
            reveal_strlit(" ");
            reveal_strlit("\r\n");
            let body = "TOP"@ + seq![' '] + dec_str(id) + seq![' '] + dec_str(lines);
            assert("TOP "@ =~= "TOP"@ + seq![' ']);
            assert(" "@ =~= seq![' ']);
            assert(line =~= body + "\r\n"@);
            assert(line[line.len() - 2] == '\r' && line[line.len() - 1] == '\n');
            assert(line.take(line.len() - 2) =~= body);
            lemma_keyword_token_wf(Command::TOP);
            lemma_num_of_dec_str(id);
            lemma_num_of_dec_str(lines);
            lemma_tokens_triple("TOP"@, dec_str(id), dec_str(lines));
            lemma_keyword_roundtrip(Command::TOP);
            assert(decode_spec(line) == Ok::<RequestV, DecodeError>(r));
        },
        RequestV::Uidl(None) => {
            reveal_strlit("UIDL\r\n");
            reveal_strlit("UIDL");
            reveal_strlit("\r\n");
            assert(line =~= "UIDL"@ + "\r\n"@);
            assert(line[line.len() - 2] == '\r' && line[line.len() - 1] == '\n');
            assert(line.take(line.len() - 2) =~= "UIDL"@);
            lemma_keyword_token_wf(Command::UIDL);
            lemma_tokens_single("UIDL"@);
            lemma_keyword_roundtrip(Command::UIDL);
            assert(decode_spec(line) == Ok::<RequestV, DecodeError>(r));
        },
        RequestV::Uidl(Some(n)) => {
            reveal_strlit("UIDL ");
            reveal_strlit("UIDL");
            reveal_strlit("\r\n");
            let body = "UIDL"@ + seq![' '] + dec_str(n);
            assert("UIDL "@ =~= "UIDL"@ + seq![' ']);
            assert(line =~= body + "\r\n"@);
            assert(line[line.len() - 2] == '\r' && line[line.len() - 1] == '\n');
            assert(line.take(line.len() - 2) =~= body);
            lemma_keyword_token_wf(Command::UIDL);
            lemma_num_of_dec_str(n);
            lemma_tokens_pair("UIDL"@, dec_str(n));
            lemma_keyword_roundtrip(Command::UIDL);
            assert(decode_spec(line) == Ok::<RequestV, DecodeError>(r));
        },
        RequestV::User(u) => {
            reveal_strlit("USER ");
            reveal_strlit("USER");
            reveal_strlit("\r\n");
            let body = "USER"@ + seq![' '] + u;
            assert("USER "@ =~= "USER"@ + seq![' ']);
            assert(line =~= body + "\r\n"@);
            assert(line[line.len() - 2] == '\r' && line[line.len() - 1] == '\n');
            assert(line.take(line.len() - 2) =~= body);
            lemma_keyword_token_wf(Command::USER);
            lemma_tokens_pair("USER"@, u);
            lemma_keyword_roundtrip(Command::USER);
            assert(decode_spec(line) == Ok::<RequestV, DecodeError>(r));
        },
    }
}

/// One line of a scan listing: a message's number and its size in octets.
#[derive(Copy, Clone, Debug, PartialEq, Eq, Structural)]
pub struct MessageMeta {
    pub id: usize,
    pub size: usize,
}

/// The mathematical shape of a scan listing line.
pub struct MetaV {
    pub id: nat,
    pub size: nat,
}

impl View for MessageMeta {
    type V = MetaV;

    open spec fn view(&self) -> MetaV {
        MetaV { id: self.id as nat, size: self.size as nat }
    }
}

impl DeepView for MessageMeta {
    type V = MetaV;

    open spec fn deep_view(&self) -> MetaV {
        self.view()
    }
}

/// One line of a unique-id listing: a message's number and its unique-id.
#[derive(Debug)]
pub struct UidlEntry {
    pub id: usize,
    pub uid: String,
}

/// The mathematical shape of a unique-id listing line.
pub struct UidlEntryV {
    pub id: nat,
    pub uid: Seq<char>,
}

impl View for UidlEntry {
    type V = UidlEntryV;

    open spec fn view(&self) -> UidlEntryV {
        UidlEntryV { id: self.id as nat, uid: self.uid@ }
    }
}

impl DeepView for UidlEntry {
    type V = UidlEntryV;

    open spec fn deep_view(&self) -> UidlEntryV {
        self.view()
    }
}

/// A LIST reply: one scan listing, or the whole maildrop's.
#[derive(Debug)]
pub enum ListResponse {
    Single(MessageMeta),
    All { count: usize, messages: Vec<MessageMeta> },
}

/// A UIDL reply: one unique-id listing, or the whole maildrop's.
#[derive(Debug)]
pub enum UidlResponse {
    Single(UidlEntry),
    All { count: usize, entries: Vec<UidlEntry> },
}

/// An AUTH reply: the mechanism names the server offers.
#[derive(Debug)]
pub enum AuthResponse {
    All(Vec<String>),
}

/// One server reply, one variant per command it answers, plus the greeting
/// and the negative reply.
#[derive(Debug)]
pub enum Response {
    AUTH(AuthResponse),
    CAPA(Vec<String>),
    DELE,
    GREET(String),
    LIST(ListResponse),
    NOOP,
    PASS(String),
    QUIT,
    RETR(String),
    STAT { count: usize, size: usize },
    RSET,
    USER(String),
    UIDL(UidlResponse),
    TOP(String),
    ERR(String),
}

/// The mathematical shape of a LIST reply.
pub enum ListV {
    Single(MetaV),
    All { count: nat, messages: Seq<MetaV> },
}

/// The mathematical shape of a UIDL reply.
pub enum UidlV {
    Single(UidlEntryV),
    All { count: nat, entries: Seq<UidlEntryV> },
}

/// The mathematical shape of a server reply.
pub enum ResponseV {
    Auth(Seq<Seq<char>>),
    Capa(Seq<Seq<char>>),
    Dele,
    Greet(Seq<char>),
    List(ListV),
    Noop,
    Pass(Seq<char>),
    Quit,
    Retr(Seq<char>),
    Stat { count: nat, size: nat },
    Rset,
    User(Seq<char>),
    Uidl(UidlV),
    Top(Seq<char>),
    Fail(Seq<char>),
}

impl View for Response {
    type V = ResponseV;

    open spec fn view(&self) -> ResponseV {
        match self {
            Response::AUTH(AuthResponse::All(ms)) => ResponseV::Auth(ms.deep_view()),
            Response::CAPA(cs) => ResponseV::Capa(cs.deep_view()),
            Response::DELE => ResponseV::Dele,
            Response::GREET(m) => ResponseV::Greet(m@),
            Response::LIST(ListResponse::Single(m)) => ResponseV::List(ListV::Single(m@)),
            Response::LIST(ListResponse::All { count, messages }) => ResponseV::List(
                ListV::All { count: *count as nat, messages: messages.deep_view() },
            ),
            Response::NOOP => ResponseV::Noop,
            Response::PASS(m) => ResponseV::Pass(m@),
            Response::QUIT => ResponseV::Quit,
            Response::RETR(b) => ResponseV::Retr(b@),
            Response::STAT { count, size } => ResponseV::Stat {
                count: *count as nat,
                size: *size as nat,
            },
            Response::RSET => ResponseV::Rset,
            Response::USER(m) => ResponseV::User(m@),
            Response::UIDL(UidlResponse::Single(e)) => ResponseV::Uidl(UidlV::Single(e@)),
            Response::UIDL(UidlResponse::All { count, entries }) => ResponseV::Uidl(
                UidlV::All { count: *count as nat, entries: entries.deep_view() },
            ),
            Response::TOP(b) => ResponseV::Top(b@),
            Response::ERR(m) => ResponseV::Fail(m@),
        }
    }
}

impl Command {
    /// The command a request was decoded from.
    pub fn of_request(req: &Request) -> (r: Command)
        ensures
            r == command_of_request(req@),
    {
        match req {
            Request::APOP { .. } => Command::APOP,
            Request::AUTH(_) => Command::AUTH,
            Request::CAPA => Command::CAPA,
            Request::DELE(_) => Command::DELE,
            Request::LIST(_) => Command::LIST,
            Request::NOOP => Command::NOOP,
            Request::PASS(_) => Command::PASS,
            Request::QUIT => Command::QUIT,
            Request::RETR(_) => Command::RETR,
            Request::RSET => Command::RSET,
            Request::STAT => Command::STAT,
            Request::TOP { .. } => Command::TOP,
            Request::UIDL(_) => Command::UIDL,
            Request::USER(_) => Command::USER,
        }
    }

    /// The command a reply answers; the greeting and the negative reply
    /// answer none.
    pub open spec fn spec_of_response(resp: ResponseV) -> Option<Command> {
        match resp {
            ResponseV::Auth(_) => Some(Command::AUTH),
            ResponseV::Capa(_) => Some(Command::CAPA),
            ResponseV::Dele => Some(Command::DELE),
            ResponseV::Greet(_) => None,
            ResponseV::List(_) => Some(Command::LIST),
            ResponseV::Noop => Some(Command::NOOP),
            ResponseV::Pass(_) => Some(Command::PASS),
            ResponseV::Quit => Some(Command::QUIT),
            ResponseV::Retr(_) => Some(Command::RETR),
            ResponseV::Stat { .. } => Some(Command::STAT),
            ResponseV::Rset => Some(Command::RSET),
            ResponseV::User(_) => Some(Command::USER),
            ResponseV::Uidl(_) => Some(Command::UIDL),
            ResponseV::Top(_) => Some(Command::TOP),
            ResponseV::Fail(_) => None,
        }
    }

    /// The command a reply answers, if any.
    pub fn of_response(resp: &Response) -> (r: Option<Command>)
        ensures
            r == Command::spec_of_response(resp@),
    {
        match resp {
            Response::AUTH(_) => Some(Command::AUTH),
            Response::CAPA(_) => Some(Command::CAPA),
            Response::DELE => Some(Command::DELE),
            Response::GREET(_) => None,
            Response::LIST(_) => Some(Command::LIST),
            Response::NOOP => Some(Command::NOOP),
            Response::PASS(_) => Some(Command::PASS),
            Response::QUIT => Some(Command::QUIT),
            Response::RETR(_) => Some(Command::RETR),
            Response::STAT { .. } => Some(Command::STAT),
            Response::RSET => Some(Command::RSET),
            Response::USER(_) => Some(Command::USER),
            Response::UIDL(_) => Some(Command::UIDL),
            Response::TOP(_) => Some(Command::TOP),
            Response::ERR(_) => None,
        }
    }
}

/// Plain lines of a multi-line reply: each element followed by CRLF.
pub open spec fn joined_lines(ls: Seq<Seq<char>>) -> Seq<char>
    decreases ls.len(),
{
    if ls.len() == 0 {
        Seq::empty()
    } else {
        joined_lines(ls.drop_last()) + ls.last() + "\r\n"@
    }
}

/// Scan listing lines: `<id> <size>` per message.
pub open spec fn scan_lines(ms: Seq<MetaV>) -> Seq<char>
    decreases ms.len(),
{
    if ms.len() == 0 {
        Seq::empty()
    } else {
        scan_lines(ms.drop_last()) + dec_str(ms.last().id) + " "@ + dec_str(ms.last().size)
            + "\r\n"@
    }
}

/// Unique-id listing lines: `<id> <unique-id>` per message.
pub open spec fn uidl_lines(es: Seq<UidlEntryV>) -> Seq<char>
    decreases es.len(),
{
    if es.len() == 0 {
        Seq::empty()
    } else {
        uidl_lines(es.drop_last()) + dec_str(es.last().id) + " "@ + es.last().uid + "\r\n"@
    }
}

/// The wire text of a reply: a status line, and for the multi-line replies
/// the data lines (byte-stuffed where they carry message text) closed by a
/// lone dot line.
pub open spec fn encode_response(r: ResponseV) -> Seq<char> {
    match r {
        ResponseV::Auth(ms) => "+OK "@ + dec_str(ms.len()) + " auth methods\r\n"@ + joined_lines(
            ms,
        ) + ".\r\n"@,
        ResponseV::Capa(cs) => "+OK Capability list follows\r\n"@ + joined_lines(cs) + ".\r\n"@,
        ResponseV::Dele => "+OK\r\n"@,
        ResponseV::Greet(m) => "+OK "@ + m + "\r\n"@,
        ResponseV::List(ListV::Single(m)) => "+OK "@ + dec_str(m.id) + " "@ + dec_str(m.size)
            + "\r\n"@,
        ResponseV::List(ListV::All { count, messages }) => "+OK "@ + dec_str(count)
            + " messages\r\n"@ + scan_lines(messages) + ".\r\n"@,
        ResponseV::Noop => "+OK\r\n"@,
        ResponseV::Pass(m) => "+OK "@ + m + "\r\n"@,
        ResponseV::Quit => "+OK\r\n"@,
        ResponseV::Retr(b) => "+OK\r\n"@ + stuff_text(b) + ".\r\n"@,
        ResponseV::Stat { count, size } => "+OK "@ + dec_str(count) + " "@ + dec_str(size)
            + "\r\n"@,
        ResponseV::Rset => "+OK\r\n"@,
        ResponseV::User(m) => "+OK "@ + m + "\r\n"@,
        ResponseV::Uidl(UidlV::Single(e)) => "+OK "@ + dec_str(e.id) + " "@ + e.uid + "\r\n"@,
        ResponseV::Uidl(UidlV::All { count, entries }) => "+OK "@ + dec_str(count)
            + " messages\r\n"@ + uidl_lines(entries) + ".\r\n"@,
        ResponseV::Top(b) => "+OK\r\n"@ + stuff_text(b) + ".\r\n"@,
        ResponseV::Fail(m) => "-ERR "@ + m + "\r\n"@,
    }
}

/// Append each element and a CRLF.
fn append_joined(out: &mut String, ls: &Vec<String>)
    ensures
        final(out)@ == old(out)@ + joined_lines(ls.deep_view()),
{
    let ghost base = out@;
    let mut i: usize = 0;
    while i < ls.len()
        invariant
            0 <= i <= ls@.len(),
            out@ == base + joined_lines(ls.deep_view().take(i as int)),
        decreases ls@.len() - i,
    {
        out.append(ls[i].as_str());
        out.append("\r\n");
        proof {
            assert(ls.deep_view().take(i + 1).drop_last() =~= ls.deep_view().take(i as int));
            assert(ls.deep_view().take(i + 1).last() == ls@[i as int]@);
            assert(out@ =~= base + joined_lines(ls.deep_view().take(i + 1)));
        }
        i = i + 1;
    }
    proof {
        assert(ls.deep_view().take(ls@.len() as int) =~= ls.deep_view());
    }
}

/// Append a scan listing line per message.
fn append_scan(out: &mut String, ms: &Vec<MessageMeta>)
    ensures
        final(out)@ == old(out)@ + scan_lines(ms.deep_view()),
{
    let ghost base = out@;
    let mut i: usize = 0;
    while i < ms.len()
        invariant
            0 <= i <= ms@.len(),
            out@ == base + scan_lines(ms.deep_view().take(i as int)),
        decreases ms@.len() - i,
    {
        let ns = usize_to_string(ms[i].id);
        out.append(ns.as_str());
        out.append(" ");
        let ss = usize_to_string(ms[i].size);
        out.append(ss.as_str());
        out.append("\r\n");
        proof {
            assert(ms.deep_view().take(i + 1).drop_last() =~= ms.deep_view().take(i as int));
            assert(ms.deep_view().take(i + 1).last() == ms@[i as int]@);
            assert(out@ =~= base + scan_lines(ms.deep_view().take(i + 1)));
        }
        i = i + 1;
    }
    proof {
        assert(ms.deep_view().take(ms@.len() as int) =~= ms.deep_view());
    }
}

/// Append a unique-id listing line per message.
fn append_uidl(out: &mut String, es: &Vec<UidlEntry>)
    ensures
        final(out)@ == old(out)@ + uidl_lines(es.deep_view()),
{
    let ghost base = out@;
    let mut i: usize = 0;
    while i < es.len()
        invariant
            0 <= i <= es@.len(),
            out@ == base + uidl_lines(es.deep_view().take(i as int)),
        decreases es@.len() - i,
    {
        let ns = usize_to_string(es[i].id);
        out.append(ns.as_str());
        out.append(" ");
        out.append(es[i].uid.as_str());
        out.append("\r\n");
        proof {
            assert(es.deep_view().take(i + 1).drop_last() =~= es.deep_view().take(i as int));
            assert(es.deep_view().take(i + 1).last() == es@[i as int]@);
            assert(out@ =~= base + uidl_lines(es.deep_view().take(i + 1)));
        }
        i = i + 1;
    }
    proof {
        assert(es.deep_view().take(es@.len() as int) =~= es.deep_view());
    }
}

impl Response {
    /// Render the reply as its wire text, exactly as [`encode_response`]
    /// describes.
    pub fn to_string(&self) -> (r: String)
        ensures
            r@ == encode_response(self@),
    {
        let mut out = String::new();
        match self {
            Response::AUTH(AuthResponse::All(ms)) => {
                out.append("+OK ");
                let ns = usize_to_string(ms.len());
                out.append(ns.as_str());
                out.append(" auth methods\r\n");
                append_joined(&mut out, ms);
                out.append(".\r\n");
            },
            Response::CAPA(cs) => {
                out.append("+OK Capability list follows\r\n");
                append_joined(&mut out, cs);
                out.append(".\r\n");
            },
            Response::DELE => {
                out.append("+OK\r\n");
            },
            Response::GREET(m) => {
                out.append("+OK ");
                out.append(m.as_str());
                out.append("\r\n");
            },
            Response::LIST(ListResponse::Single(m)) => {
                out.append("+OK ");
                let ns = usize_to_string(m.id);
                out.append(ns.as_str());
                out.append(" ");
                let ss = usize_to_string(m.size);
                out.append(ss.as_str());
                out.append("\r\n");
            },
            Response::LIST(ListResponse::All { count, messages }) => {
                out.append("+OK ");
                let ns = usize_to_string(*count);
                out.append(ns.as_str());
                out.append(" messages\r\n");
                append_scan(&mut out, messages);
                out.append(".\r\n");
            },
            Response::NOOP => {
                out.append("+OK\r\n");
            },
            Response::PASS(m) => {
                out.append("+OK ");
                out.append(m.as_str());
                out.append("\r\n");
            },
            Response::QUIT => {
                out.append("+OK\r\n");
            },
            Response::RETR(b) => {
                out.append("+OK\r\n");
                let stuffed = stuff(b.as_str());
                out.append(stuffed.as_str());
                out.append(".\r\n");
            },
            Response::STAT { count, size } => {
                out.append("+OK ");
                let ns = usize_to_string(*count);
                out.append(ns.as_str());
                out.append(" ");
                let ss = usize_to_string(*size);
                out.append(ss.as_str());
                out.append("\r\n");
            },
            Response::RSET => {
                out.append("+OK\r\n");
            },
            Response::USER(m) => {
                out.append("+OK ");
                out.append(m.as_str());
                out.append("\r\n");
            },
            Response::UIDL(UidlResponse::Single(e)) => {
                out.append("+OK ");
                let ns = usize_to_string(e.id);
                out.append(ns.as_str());
                out.append(" ");
                out.append(e.uid.as_str());
                out.append("\r\n");
            },
            Response::UIDL(UidlResponse::All { count, entries }) => {
                out.append("+OK ");
                let ns = usize_to_string(*count);
                out.append(ns.as_str());
                out.append(" messages\r\n");
                append_uidl(&mut out, entries);
                out.append(".\r\n");
            },
            Response::TOP(b) => {
                out.append("+OK\r\n");
                let stuffed = stuff(b.as_str());
                out.append(stuffed.as_str());
                out.append(".\r\n");
            },
            Response::ERR(m) => {
                out.append("-ERR ");
                out.append(m.as_str());
                out.append("\r\n");
            },
        }
        proof {
            assert(out@ =~= encode_response(self@));
        }
        out
    }
}

/// No carriage return or line feed inside a reply body.
pub open spec fn clean_body(s: Seq<char>) -> bool {
    forall|i: int| 0 <= i < s.len() ==> s[i] != '\r' && s[i] != '\n'
}

/// Does `s` begin with `p`?
pub open spec fn starts_with(s: Seq<char>, p: Seq<char>) -> bool {
    s.len() >= p.len() && s.take(p.len() as int) == p
}

fn str_starts_with(s: &str, p: &str) -> (r: bool)
    ensures
        r == starts_with(s@, p@),
{
    let np = p.unicode_len();
    let ns = s.unicode_len();
    if ns < np {
        return false;
    }
    let mut i: usize = 0;
    while i < np
        invariant
            np == p@.len() <= ns == s@.len(),
            0 <= i <= np,
            forall|j: int| 0 <= j < i ==> s@[j] == p@[j],
        decreases np - i,
    {
        if s.get_char(i) != p.get_char(i) {
            proof {
                assert(s@.take(np as int)[i as int] != p@[i as int]);
            }
            return false;
        }
        i = i + 1;
    }
    proof {
        assert(s@.take(np as int) =~= p@);
    }
    true
}

fn check_clean(s: &str) -> (r: bool)
    ensures
        r == clean_body(s@),
{
    let n = s.unicode_len();
    let mut i: usize = 0;
    while i < n
        invariant
            0 <= i <= n == s@.len(),
            forall|j: int| 0 <= j < i ==> s@[j] != '\r' && s@[j] != '\n',
        decreases n - i,
    {
        let c = s.get_char(i);
        if c == '\r' || c == '\n' {
            return false;
        }
        i = i + 1;
    }
    true
}

/// What one single-line server reply decodes to, for the commands whose
/// replies are single lines. A negative reply is recognised for any of them.
pub open spec fn decode_response_spec(line: Seq<char>, cmd: Command) -> Result<
    ResponseV,
    DecodeError,
> {
    if !has_crlf_end(line) || !clean_body(line.take(line.len() - 2)) {
        Err(DecodeError::MalformedLine)
    } else {
        let body = line.take(line.len() - 2);
        if starts_with(body, "-ERR "@) {
            Ok(ResponseV::Fail(body.skip(5)))
        } else if starts_with(body, "+OK"@) {
            match cmd {
                Command::USER => if starts_with(body, "+OK "@) {
                    Ok(ResponseV::User(body.skip(4)))
                } else {
                    Err(DecodeError::MalformedLine)
                },
                Command::PASS => if starts_with(body, "+OK "@) {
                    Ok(ResponseV::Pass(body.skip(4)))
                } else {
                    Err(DecodeError::MalformedLine)
                },
                Command::STAT => if starts_with(body, "+OK "@) {
                    let toks = tokens_of(body.skip(4));
                    if toks.len() == 2 {
                        match (num_of(toks[0]), num_of(toks[1])) {
                            (Some(count), Some(size)) => Ok(ResponseV::Stat { count, size }),
                            _ => Err(DecodeError::InvalidArgument),
                        }
                    } else {
                        Err(DecodeError::ArgumentCountMismatch)
                    }
                } else {
                    Err(DecodeError::MalformedLine)
                },
                Command::DELE => Ok(ResponseV::Dele),
                Command::NOOP => Ok(ResponseV::Noop),
                Command::RSET => Ok(ResponseV::Rset),
                Command::QUIT => Ok(ResponseV::Quit),
                _ => Err(DecodeError::MalformedLine),
            }
        } else {
            Err(DecodeError::MalformedLine)
        }
    }
}

/// `r` is exactly what [`decode_response_spec`] says of `s` for `cmd`.
pub open spec fn response_decodes_to(
    s: Seq<char>,
    cmd: Command,
    r: Result<Response, DecodeError>,
) -> bool {
    match r {
        Ok(resp) => decode_response_spec(s, cmd) == Ok::<ResponseV, DecodeError>(resp@),
        Err(e) => decode_response_spec(s, cmd) == Err::<ResponseV, DecodeError>(e),
    }
}


/// Free of carriage returns and line feeds, checked character by
/// character for a short literal.
proof fn lemma_clean_ok()
    ensures
        clean_body("+OK"@),
{
    reveal_strlit("+OK");
    assert forall|i: int| 0 <= i < "+OK"@.len() implies "+OK"@[i] != '\r' && "+OK"@[i]
        != '\n' by {
        if i == 0 {
        } else if i == 1 {
        } else {
            assert(i == 2);
        }
    }
}

proof fn lemma_clean_ok_sp()
    ensures
        clean_body("+OK "@),
{
    reveal_strlit("+OK ");
    assert forall|i: int| 0 <= i < "+OK "@.len() implies "+OK "@[i] != '\r' && "+OK "@[i]
        != '\n' by {
        if i == 0 {
        } else if i == 1 {
        } else if i == 2 {
        } else {
            assert(i == 3);
        }
    }
}

proof fn lemma_clean_err_sp()
    ensures
        clean_body("-ERR "@),
{
    reveal_strlit("-ERR ");
    assert forall|i: int| 0 <= i < "-ERR "@.len() implies "-ERR "@[i] != '\r' && "-ERR "@[i]
        != '\n' by {
        if i == 0 {
        } else if i == 1 {
        } else if i == 2 {
        } else if i == 3 {
        } else {
            assert(i == 4);
        }
    }
}

/// Cleanliness joins over concatenation.
proof fn lemma_clean_concat(a: Seq<char>, b: Seq<char>)
    requires
        clean_body(a),
        clean_body(b),
    ensures
        clean_body(a + b),
{
    assert forall|i: int| 0 <= i < (a + b).len() implies (a + b)[i] != '\r' && (a + b)[i]
        != '\n' by {
        if i < a.len() {
            assert((a + b)[i] == a[i]);
        } else {
            assert((a + b)[i] == b[i - a.len()]);
        }
    }
}

/// Digit runs are clean.
proof fn lemma_clean_digits(s: Seq<char>)
    requires
        all_digits(s),
    ensures
        clean_body(s),
{
    assert forall|i: int| 0 <= i < s.len() implies s[i] != '\r' && s[i] != '\n' by {
        assert(is_digit(s[i]));
    }
}

/// A single-line reply is fit for the wire under `cmd`: its variant
/// answers that command (or is the negative reply), its text is free of
/// line breaks, and its numbers fit the machine.
pub open spec fn response_line_wf(v: ResponseV, cmd: Command) -> bool {
    match v {
        ResponseV::User(m) => cmd == Command::USER && clean_body(m),
        ResponseV::Pass(m) => cmd == Command::PASS && clean_body(m),
        ResponseV::Stat { count, size } => cmd == Command::STAT && count <= usize::MAX && size
            <= usize::MAX,
        ResponseV::Dele => cmd == Command::DELE,
        ResponseV::Noop => cmd == Command::NOOP,
        ResponseV::Rset => cmd == Command::RSET,
        ResponseV::Quit => cmd == Command::QUIT,
        ResponseV::Fail(m) => clean_body(m),
        _ => false,
    }
}

/// The encoded line ends in CRLF and its body is everything before.
proof fn lemma_line_shape(body: Seq<char>, line: Seq<char>)
    requires
        clean_body(body),
        line == body + "\r\n"@,
    ensures
        has_crlf_end(line),
        line.take(line.len() - 2) == body,
        clean_body(line.take(line.len() - 2)),
    decreases body.len(),
{
    reveal_strlit("\r\n");
    assert(line[line.len() - 2] == '\r' && line[line.len() - 1] == '\n');
    assert(line.take(line.len() - 2) =~= body);
}

/// The body does not read as a negative reply when it opens with `+`.
proof fn lemma_not_err_prefix(body: Seq<char>)
    requires
        body.len() >= 1,
        body[0] == '+',
    ensures
        !starts_with(body, "-ERR "@),
{
    reveal_strlit("-ERR ");
    if body.len() >= 5 {
        assert(body.take(5)[0] == '+');
    }
}

/// Encoding and decoding are inverse for the single-line replies: the
/// line a wire-worthy reply renders to decodes back, under its own
/// command, to exactly that reply.
#[verifier::rlimit(80)]
pub proof fn lemma_response_roundtrip(v: ResponseV, cmd: Command)
    requires
        response_line_wf(v, cmd),
    ensures
        decode_response_spec(encode_response(v), cmd) == Ok::<ResponseV, DecodeError>(v),
{
    let line = encode_response(v);
    reveal_strlit("+OK");
    reveal_strlit("+OK ");
    reveal_strlit("+OK\r\n");
    reveal_strlit("-ERR ");
    reveal_strlit(" ");
    reveal_strlit("\r\n");
    match v {
        ResponseV::User(m) => {
            let body = "+OK "@ + m;
            assert(line =~= body + "\r\n"@);
            lemma_clean_ok_sp();
            lemma_clean_concat("+OK "@, m);
            lemma_line_shape(body, line);
            assert(body[0] == '+');
            lemma_not_err_prefix(body);
            assert(body.take(3) =~= "+OK"@);
            assert(body.take(4) =~= "+OK "@);
            assert(body.skip(4) =~= m);
        },
        ResponseV::Pass(m) => {
            let body = "+OK "@ + m;
            assert(line =~= body + "\r\n"@);
            lemma_clean_ok_sp();
            lemma_clean_concat("+OK "@, m);
            lemma_line_shape(body, line);
            assert(body[0] == '+');
            lemma_not_err_prefix(body);
            assert(body.take(3) =~= "+OK"@);
            assert(body.take(4) =~= "+OK "@);
            assert(body.skip(4) =~= m);
        },
        ResponseV::Stat { count, size } => {
            let d1 = dec_str(count);
            let d2 = dec_str(size);
            let rest = d1 + seq![' '] + d2;
            let body = "+OK "@ + rest;
            assert(" "@ =~= seq![' ']);
            assert(line =~= body + "\r\n"@);
            lemma_num_of_dec_str(count);
            lemma_num_of_dec_str(size);
            crate::text::lemma_dec_str_digits(count);
            crate::text::lemma_dec_str_digits(size);
            lemma_clean_ok_sp();
            lemma_clean_digits(d1);
            lemma_clean_digits(d2);
            assert(clean_body(seq![' ']));
            lemma_clean_concat(d1, seq![' ']);
            lemma_clean_concat(d1 + seq![' '], d2);
            lemma_clean_concat("+OK "@, rest);
            lemma_line_shape(body, line);
            assert(body[0] == '+');
            lemma_not_err_prefix(body);
            assert(body.take(3) =~= "+OK"@);
            assert(body.take(4) =~= "+OK "@);
            assert(body.skip(4) =~= rest);
            lemma_tokens_pair(d1, d2);
        },
        ResponseV::Dele => {
            let body = "+OK"@;
            assert(line =~= body + "\r\n"@);
            lemma_clean_ok();
            lemma_line_shape(body, line);
            assert(body[0] == '+');
            lemma_not_err_prefix(body);
            assert(body.take(3) =~= "+OK"@);
        },
        ResponseV::Noop => {
            let body = "+OK"@;
            assert(line =~= body + "\r\n"@);
            lemma_clean_ok();
            lemma_line_shape(body, line);
            assert(body[0] == '+');
            lemma_not_err_prefix(body);
            assert(body.take(3) =~= "+OK"@);
        },
        ResponseV::Rset => {
            let body = "+OK"@;
            assert(line =~= body + "\r\n"@);
            lemma_clean_ok();
            lemma_line_shape(body, line);
            assert(body[0] == '+');
            lemma_not_err_prefix(body);
            assert(body.take(3) =~= "+OK"@);
        },
        ResponseV::Quit => {
            let body = "+OK"@;
            assert(line =~= body + "\r\n"@);
            lemma_clean_ok();
            lemma_line_shape(body, line);
            assert(body[0] == '+');
            lemma_not_err_prefix(body);
            assert(body.take(3) =~= "+OK"@);
        },
        ResponseV::Fail(m) => {
            let body = "-ERR "@ + m;
            assert(line =~= body + "\r\n"@);
            lemma_clean_err_sp();
            lemma_clean_concat("-ERR "@, m);
            lemma_line_shape(body, line);
            assert(body.take(5) =~= "-ERR "@);
            assert(body.skip(5) =~= m);
        },
        _ => {
            assert(false);
        },
    }
}

impl Response {
    /// Decode one single-line server reply to `cmd`, exactly as
    /// [`decode_response_spec`] describes. The commands answered with
    /// multi-line replies are outside this decoder's reach.
    pub fn from_str(v: &str, cmd: Command) -> (r: Result<Response, DecodeError>)
        requires
            cmd == Command::USER || cmd == Command::PASS || cmd == Command::STAT || cmd
                == Command::DELE || cmd == Command::NOOP || cmd == Command::RSET || cmd
                == Command::QUIT,
        ensures
            response_decodes_to(v@, cmd, r),
    {
        let n = v.unicode_len();
        if n < 2 || v.get_char(n - 2) != '\r' || v.get_char(n - 1) != '\n' {
            return Err(DecodeError::MalformedLine);
        }
        let body = v.substring_char(0, n - 2);
        proof {
            assert(body@ =~= v@.take(n - 2));
        }
        if !check_clean(body) {
            return Err(DecodeError::MalformedLine);
        }
        let bl = body.unicode_len();
        if str_starts_with(body, "-ERR ") {
            proof {
                reveal_strlit("-ERR ");
            }
            let msg = body.substring_char(5, bl);
            proof {
                assert(msg@ =~= body@.skip(5));
            }
            return Ok(Response::ERR(msg.to_owned()));
        }
        if !str_starts_with(body, "+OK") {
            return Err(DecodeError::MalformedLine);
        }
        match cmd {
            Command::USER => {
                if str_starts_with(body, "+OK ") {
                    proof {
                        reveal_strlit("+OK ");
                    }
                    let msg = body.substring_char(4, bl);
                    proof {
                        assert(msg@ =~= body@.skip(4));
                    }
                    Ok(Response::USER(msg.to_owned()))
                } else {
                    Err(DecodeError::MalformedLine)
                }
            },
            Command::PASS => {
                if str_starts_with(body, "+OK ") {
                    proof {
                        reveal_strlit("+OK ");
                    }
                    let msg = body.substring_char(4, bl);
                    proof {
                        assert(msg@ =~= body@.skip(4));
                    }
                    Ok(Response::PASS(msg.to_owned()))
                } else {
                    Err(DecodeError::MalformedLine)
                }
            },
            Command::STAT => {
                if str_starts_with(body, "+OK ") {
                    proof {
                        reveal_strlit("+OK ");
                    }
                    let rest = body.substring_char(4, bl);
                    proof {
                        assert(rest@ =~= body@.skip(4));
                    }
                    let toks = split_tokens(rest);
                    let ghost toks_s = tokens_of(body@.skip(4));
                    if toks.len() != 2 {
                        return Err(DecodeError::ArgumentCountMismatch);
                    }
                    proof {
                        assert(toks@[0]@ == toks_s[0]);
                        assert(toks@[1]@ == toks_s[1]);
                    }
                    let count = match parse_usize(toks[0].as_str()) {
                        Some(c) => c,
                        None => {
                            return Err(DecodeError::InvalidArgument);
                        },
                    };
                    match parse_usize(toks[1].as_str()) {
                        Some(size) => Ok(Response::STAT { count, size }),
                        None => Err(DecodeError::InvalidArgument),
                    }
                } else {
                    Err(DecodeError::MalformedLine)
                }
            },
            Command::DELE => Ok(Response::DELE),
            Command::NOOP => Ok(Response::NOOP),
            Command::RSET => Ok(Response::RSET),
            _ => Ok(Response::QUIT),
        }
    }
}

} // verus!
