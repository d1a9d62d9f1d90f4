//! The per-connection session state machine.
//!
//! A session starts in AUTHORIZATION, reaches TRANSACTION on successful
//! authentication, and ends in UPDATE only through QUIT from TRANSACTION,
//! which commits the pending deletions. Every decoded request is answered
//! by exactly one action; a command that is illegal in the current state
//! draws a negative reply and changes nothing.
//!
//! What the machine cannot decide itself, it hands to the caller as an
//! action: verifying credentials and fetching message bodies belong to
//! outside collaborators. The caller performs the work and hands the
//! outcome back through [`Session::on_auth_result`] or [`Session::on_body`].

use vstd::prelude::*;
use vstd::pervasive::unreached;
use vstd::string::StringExecFns;

use crate::mailbox::EntryV;
use crate::mailbox::Mailbox;
use crate::mailbox::MailboxError;
use crate::mailbox::clear_spec;
use crate::mailbox::drop_id;
use crate::mailbox::lemma_clear_mark;
use crate::mailbox::lemma_clear_no_marks;
use crate::mailbox::lemma_live_has_id;
use crate::mailbox::lemma_live_wf;
use crate::mailbox::lemma_mark_effect;
use crate::mailbox::lemma_mark_wf;
use crate::mailbox::entries_wf;
use crate::mailbox::has_id;
use crate::mailbox::has_live;
use crate::mailbox::idx_of;
use crate::mailbox::lemma_idx_of;
use crate::mailbox::live_count;
use crate::mailbox::live_of;
use crate::mailbox::live_size;
use crate::mailbox::mark_spec;
use crate::mailbox::metas_of;
use crate::mailbox::no_marks;
use crate::mailbox::uidls_of;
use crate::proto::DecodeError;
use crate::proto::ListResponse;
use crate::proto::ListV;
use crate::proto::MessageMeta;
use crate::proto::MetaV;
use crate::proto::Request;
use crate::proto::RequestV;
use crate::proto::Response;
use crate::proto::ResponseV;
use crate::proto::UidlEntry;
use crate::proto::UidlEntryV;
use crate::proto::UidlResponse;
use crate::proto::UidlV;
use crate::proto::decode_spec;
use crate::proto::encode_response;
use crate::text::str_eq;
use crate::text::top_of;
use crate::text::top_text;

verus! {

/// The protocol state of one connection.
#[derive(Copy, Clone, Debug, PartialEq, Eq, Structural)]
pub enum SessionState {
    /// Initial: the peer has not authenticated.
    Authorization,
    /// Authenticated: a mailbox is bound and may be queried and marked.
    Transaction,
    /// Terminal: QUIT was taken from TRANSACTION and deletions committed.
    Update,
}

/// Work the session has asked its caller for and not yet been answered on.
#[derive(Copy, Clone, Debug, PartialEq, Eq, Structural)]
pub enum Pending {
    /// Credentials are with the verifier; `on_auth_result` is owed.
    Auth,
    /// A whole message body is being fetched; `on_body` is owed.
    Retr { id: usize },
    /// A message body is being fetched for TOP; `on_body` is owed.
    Top { id: usize, lines: usize },
}

/// The mathematical shape of [`Pending`].
pub enum PendingV {
    Auth,
    Retr { id: nat },
    Top { id: nat, lines: nat },
}

/// What the session asks of its caller in answer to one request.
#[derive(Debug)]
pub enum Action {
    /// Send this reply and keep the connection open.
    Reply(Response),
    /// Send this reply, then close the connection.
    ReplyClose(Response),
    /// Verify this username and password, then call `on_auth_result`.
    CheckPass { username: String, secret: String },
    /// Verify this digest against the greeting nonce, then call
    /// `on_auth_result`.
    CheckApop { username: String, digest: String },
    /// Run this authentication mechanism, then call `on_auth_result`.
    CheckAuth { mechanism: String },
    /// Read this message's body, then call `on_body`.
    FetchBody { id: usize },
}

/// The mathematical shape of [`Action`].
pub enum ActionV {
    Reply(ResponseV),
    ReplyClose(ResponseV),
    CheckPass { username: Seq<char>, secret: Seq<char> },
    CheckApop { username: Seq<char>, digest: Seq<char> },
    CheckAuth { mechanism: Seq<char> },
    FetchBody { id: nat },
}

impl View for Action {
    type V = ActionV;

    open spec fn view(&self) -> ActionV {
        match self {
            Action::Reply(r) => ActionV::Reply(r@),
            Action::ReplyClose(r) => ActionV::ReplyClose(r@),
            Action::CheckPass { username, secret } => ActionV::CheckPass {
                username: username@,
                secret: secret@,
            },
            Action::CheckApop { username, digest } => ActionV::CheckApop {
                username: username@,
                digest: digest@,
            },
            Action::CheckAuth { mechanism } => ActionV::CheckAuth { mechanism: mechanism@ },
            Action::FetchBody { id } => ActionV::FetchBody { id: *id as nat },
        }
    }
}

/// The mathematical shape of a session.
#[verifier::ext_equal]
pub struct SessionV {
    pub state: SessionState,
    pub user: Option<Seq<char>>,
    pub pending: Option<PendingV>,
    pub mailbox: Option<Seq<EntryV>>,
    pub caps: Seq<Seq<char>>,
    pub mechs: Seq<Seq<char>>,
}

/// A well-formed session: a mailbox is bound exactly outside
/// AUTHORIZATION and is itself well-formed, and pending work fits the
/// state it was asked in.
pub open spec fn session_wf(s: SessionV) -> bool {
    &&& match s.state {
        SessionState::Authorization => s.mailbox is None,
        _ => s.mailbox is Some && entries_wf(s.mailbox->0),
    }
    &&& match s.pending {
        None => true,
        Some(PendingV::Auth) => s.state is Authorization,
        Some(PendingV::Retr { .. }) => s.state is Transaction,
        Some(PendingV::Top { .. }) => s.state is Transaction,
    }
}

// The replies whose wording the machine fixes.
pub open spec fn msg_wrong_state() -> Seq<char> {
    "command not permitted in this state"@
}

pub open spec fn msg_need_user() -> Seq<char> {
    "send USER first"@
}

pub open spec fn msg_no_such_message() -> Seq<char> {
    "no such message"@
}

pub open spec fn msg_already_deleted() -> Seq<char> {
    "message already deleted"@
}

pub open spec fn msg_bad_mechanism() -> Seq<char> {
    "unsupported authentication mechanism"@
}

pub open spec fn msg_user_ok() -> Seq<char> {
    "password required"@
}

pub open spec fn msg_auth_ok() -> Seq<char> {
    "maildrop locked and ready"@
}

pub open spec fn msg_auth_fail() -> Seq<char> {
    "authentication failed"@
}

pub open spec fn greeting_prefix() -> Seq<char> {
    "POP3 server ready "@
}

/// A negative reply that leaves the session as it is.
pub open spec fn wrong_state_spec(s: SessionV) -> (SessionV, ActionV) {
    (s, ActionV::Reply(ResponseV::Fail(msg_wrong_state())))
}

/// The whole transition table: what one request does to a session and
/// what the session answers or asks for. The session itself is only
/// changed by USER (remembering the name), PASS/APOP/AUTH (pending
/// verification), DELE (one mark), RSET (all marks lifted), QUIT from
/// TRANSACTION (deletions committed, state UPDATE), and RETR/TOP (pending
/// fetch).
pub open spec fn step_spec(s: SessionV, r: RequestV) -> (SessionV, ActionV) {
    match r {
        RequestV::Capa => (s, ActionV::Reply(ResponseV::Capa(s.caps))),
        RequestV::User(name) => match s.state {
            SessionState::Authorization => (
                SessionV { user: Some(name), ..s },
                ActionV::Reply(ResponseV::User(msg_user_ok())),
            ),
            _ => wrong_state_spec(s),
        },
        RequestV::Pass(p) => match s.state {
            SessionState::Authorization => match s.user {
                Some(u) => (
                    SessionV { pending: Some(PendingV::Auth), ..s },
                    ActionV::CheckPass { username: u, secret: p },
                ),
                None => (s, ActionV::Reply(ResponseV::Fail(msg_need_user()))),
            },
            _ => wrong_state_spec(s),
        },
        RequestV::Apop { username, digest } => match s.state {
            SessionState::Authorization => (
                SessionV { user: Some(username), pending: Some(PendingV::Auth), ..s },
                ActionV::CheckApop { username, digest },
            ),
            _ => wrong_state_spec(s),
        },
        RequestV::Auth(None) => match s.state {
            SessionState::Authorization => (s, ActionV::Reply(ResponseV::Auth(s.mechs))),
            _ => wrong_state_spec(s),
        },
        RequestV::Auth(Some(m)) => match s.state {
            SessionState::Authorization => if s.mechs.contains(m) {
                (
                    SessionV { pending: Some(PendingV::Auth), ..s },
                    ActionV::CheckAuth { mechanism: m },
                )
            } else {
                (s, ActionV::Reply(ResponseV::Fail(msg_bad_mechanism())))
            },
            _ => wrong_state_spec(s),
        },
        RequestV::Quit => match s.state {
            SessionState::Authorization => (s, ActionV::ReplyClose(ResponseV::Quit)),
            SessionState::Transaction => (
                SessionV {
                    state: SessionState::Update,
                    mailbox: Some(live_of(s.mailbox->0)),
                    ..s
                },
                ActionV::ReplyClose(ResponseV::Quit),
            ),
            SessionState::Update => wrong_state_spec(s),
        },
        RequestV::Stat => match s.state {
            SessionState::Transaction => (
                s,
                ActionV::Reply(
                    ResponseV::Stat {
                        count: live_count(s.mailbox->0),
                        size: live_size(s.mailbox->0),
                    },
                ),
            ),
            _ => wrong_state_spec(s),
        },
        RequestV::List(None) => match s.state {
            SessionState::Transaction => (
                s,
                ActionV::Reply(
                    ResponseV::List(
                        ListV::All {
                            count: live_count(s.mailbox->0),
                            messages: metas_of(live_of(s.mailbox->0)),
                        },
                    ),
                ),
            ),
            _ => wrong_state_spec(s),
        },
        RequestV::List(Some(id)) => match s.state {
            SessionState::Transaction => if has_live(s.mailbox->0, id) {
                (
                    s,
                    ActionV::Reply(
                        ResponseV::List(
                            ListV::Single(
                                MetaV {
                                    id,
                                    size: s.mailbox->0[idx_of(s.mailbox->0, id)].size,
                                },
                            ),
                        ),
                    ),
                )
            } else {
                (s, ActionV::Reply(ResponseV::Fail(msg_no_such_message())))
            },
            _ => wrong_state_spec(s),
        },
        RequestV::Uidl(None) => match s.state {
            SessionState::Transaction => (
                s,
                ActionV::Reply(
                    ResponseV::Uidl(
                        UidlV::All {
                            count: live_count(s.mailbox->0),
                            entries: uidls_of(live_of(s.mailbox->0)),
                        },
                    ),
                ),
            ),
            _ => wrong_state_spec(s),
        },
        RequestV::Uidl(Some(id)) => match s.state {
            SessionState::Transaction => if has_live(s.mailbox->0, id) {
                (
                    s,
                    ActionV::Reply(
                        ResponseV::Uidl(
                            UidlV::Single(
                                UidlEntryV {
                                    id,
                                    uid: s.mailbox->0[idx_of(s.mailbox->0, id)].uid,
                                },
                            ),
                        ),
                    ),
                )
            } else {
                (s, ActionV::Reply(ResponseV::Fail(msg_no_such_message())))
            },
            _ => wrong_state_spec(s),
        },
        RequestV::Retr(id) => match s.state {
            SessionState::Transaction => if has_live(s.mailbox->0, id) {
                (
                    SessionV { pending: Some(PendingV::Retr { id }), ..s },
                    ActionV::FetchBody { id },
                )
            } else {
                (s, ActionV::Reply(ResponseV::Fail(msg_no_such_message())))
            },
            _ => wrong_state_spec(s),
        },
        RequestV::Top { id, lines } => match s.state {
            SessionState::Transaction => if has_live(s.mailbox->0, id) {
                (
                    SessionV { pending: Some(PendingV::Top { id, lines }), ..s },
                    ActionV::FetchBody { id },
                )
            } else {
                (s, ActionV::Reply(ResponseV::Fail(msg_no_such_message())))
            },
            _ => wrong_state_spec(s),
        },
        RequestV::Dele(id) => match s.state {
            SessionState::Transaction => if has_live(s.mailbox->0, id) {
                (
                    SessionV { mailbox: Some(mark_spec(s.mailbox->0, id)), ..s },
                    ActionV::Reply(ResponseV::Dele),
                )
            } else if has_id(s.mailbox->0, id) {
                (s, ActionV::Reply(ResponseV::Fail(msg_already_deleted())))
            } else {
                (s, ActionV::Reply(ResponseV::Fail(msg_no_such_message())))
            },
            _ => wrong_state_spec(s),
        },
        RequestV::Rset => match s.state {
            SessionState::Transaction => (
                SessionV { mailbox: Some(clear_spec(s.mailbox->0)), ..s },
                ActionV::Reply(ResponseV::Rset),
            ),
            _ => wrong_state_spec(s),
        },
        RequestV::Noop => match s.state {
            SessionState::Transaction => (s, ActionV::Reply(ResponseV::Noop)),
            _ => wrong_state_spec(s),
        },
    }
}

/// What an authentication outcome does: success binds the fresh mailbox
/// and enters TRANSACTION; failure stays in AUTHORIZATION and forgets the
/// username.
pub open spec fn auth_result_spec(s: SessionV, mb: Option<Seq<EntryV>>) -> (SessionV, ResponseV) {
    match mb {
        Some(m) => (
            SessionV {
                state: SessionState::Transaction,
                pending: None,
                mailbox: Some(m),
                ..s
            },
            ResponseV::Pass(msg_auth_ok()),
        ),
        None => (
            SessionV { pending: None, user: None, ..s },
            ResponseV::Fail(msg_auth_fail()),
        ),
    }
}

/// What a fetched body becomes: the whole message for RETR, the headers
/// and first lines for TOP.
pub open spec fn body_spec(s: SessionV, body: Seq<char>) -> (SessionV, ResponseV) {
    match s.pending {
        Some(PendingV::Retr { .. }) => (SessionV { pending: None, ..s }, ResponseV::Retr(body)),
        Some(PendingV::Top { lines, .. }) => (
            SessionV { pending: None, ..s },
            ResponseV::Top(top_text(body, lines)),
        ),
        _ => (s, ResponseV::Fail(msg_wrong_state())),
    }
}

fn clone_strings(v: &Vec<String>) -> (r: Vec<String>)
    ensures
        r@ == v@,
{
    let mut r: Vec<String> = Vec::new();
    let mut i: usize = 0;
    while i < v.len()
        invariant
            0 <= i <= v@.len(),
            r@ == v@.take(i as int),
        decreases v@.len() - i,
    {
        r.push(v[i].clone());
        proof {
            assert(r@ =~= v@.take(i + 1));
        }
        i = i + 1;
    }
    proof {
        assert(v@.take(v@.len() as int) =~= v@);
    }
    r
}

fn vec_contains_str(v: &Vec<String>, m: &str) -> (r: bool)
    ensures
        r == v.deep_view().contains(m@),
{
    let mut i: usize = 0;
    while i < v.len()
        invariant
            0 <= i <= v@.len(),
            forall|j: int| 0 <= j < i ==> v.deep_view()[j] != m@,
        decreases v@.len() - i,
    {
        if str_eq(v[i].as_str(), m) {
            proof {
                assert(v.deep_view()[i as int] == m@);
            }
            return true;
        }
        i = i + 1;
    }
    proof {
        if v.deep_view().contains(m@) {
            let k = choose|k: int| 0 <= k < v.deep_view().len() && v.deep_view()[k] == m@;
            assert(v.deep_view()[k] != m@);
        }
    }
    false
}

fn wrong_state_reply() -> (a: Action)
    ensures
        a@ == ActionV::Reply(ResponseV::Fail(msg_wrong_state())),
{
    Action::Reply(Response::ERR(String::from_str("command not permitted in this state")))
}

/// The greeting sent on accept, carrying the session's fresh APOP nonce.
pub fn greeting(nonce: &str) -> (r: Response)
    ensures
        r@ == ResponseV::Greet(greeting_prefix() + nonce@),
{
    let mut m = String::from_str("POP3 server ready ");
    m.append(nonce);
    Response::GREET(m)
}

/// One connection's session: protocol state, the pending username, the
/// bound mailbox, and the capability and mechanism lists announced by
/// CAPA and AUTH.
#[derive(Debug)]
pub struct Session {
    state: SessionState,
    username: Option<String>,
    pending: Option<Pending>,
    mailbox: Option<Mailbox>,
    caps: Vec<String>,
    mechs: Vec<String>,
}

impl View for Session {
    type V = SessionV;

    closed spec fn view(&self) -> SessionV {
        SessionV {
            state: self.state,
            user: match self.username {
                Some(ref u) => Some(u@),
                None => None,
            },
            pending: match self.pending {
                None => None,
                Some(Pending::Auth) => Some(PendingV::Auth),
                Some(Pending::Retr { id }) => Some(PendingV::Retr { id: id as nat }),
                Some(Pending::Top { id, lines }) => Some(
                    PendingV::Top { id: id as nat, lines: lines as nat },
                ),
            },
            mailbox: match self.mailbox {
                Some(ref m) => Some(m@),
                None => None,
            },
            caps: self.caps.deep_view(),
            mechs: self.mechs.deep_view(),
        }
    }
}

impl Session {
    /// A fresh, unauthenticated session announcing the given capability
    /// and authentication-mechanism lists.
    pub fn new(caps: Vec<String>, mechs: Vec<String>) -> (r: Session)
        ensures
            r@ == (SessionV {
                state: SessionState::Authorization,
                user: None,
                pending: None,
                mailbox: None,
                caps: caps.deep_view(),
                mechs: mechs.deep_view(),
            }),
            session_wf(r@),
    {
        Session {
            state: SessionState::Authorization,
            username: None,
            pending: None,
            mailbox: None,
            caps,
            mechs,
        }
    }

    /// The current protocol state.
    pub fn state(&self) -> (r: SessionState)
        ensures
            r == self@.state,
    {
        self.state
    }

    /// Give the bound mailbox back, for the caller to persist; after QUIT
    /// from TRANSACTION it holds exactly the committed entries.
    pub fn into_mailbox(self) -> (r: Option<Mailbox>)
        ensures
            match r {
                Some(mb) => self@.mailbox == Some(mb@),
                None => self@.mailbox is None,
            },
    {
        self.mailbox
    }

    /// Feed one decoded request through the machine, exactly as
    /// [`step_spec`] describes.
    pub fn on_request(&mut self, req: Request) -> (a: Action)
        requires
            session_wf(old(self)@),
            old(self)@.pending is None,
        ensures
            session_wf(final(self)@),
            final(self)@ == step_spec(old(self)@, req@).0,
            a@ == step_spec(old(self)@, req@).1,
    {
        let ghost s0 = self@;
        match req {
            Request::CAPA => {
                let caps = clone_strings(&self.caps);
                Action::Reply(Response::CAPA(caps))
            },
            Request::USER(name) => match self.state {
                SessionState::Authorization => {
                    self.username = Some(name);
                    Action::Reply(Response::USER(String::from_str("password required")))
                },
                _ => wrong_state_reply(),
            },
            Request::PASS(p) => match self.state {
                SessionState::Authorization => match &self.username {
                    Some(u) => {
                        let uu = u.clone();
                        self.pending = Some(Pending::Auth);
                        Action::CheckPass { username: uu, secret: p }
                    },
                    None => Action::Reply(Response::ERR(String::from_str("send USER first"))),
                },
                _ => wrong_state_reply(),
            },
            Request::APOP { username, digest } => match self.state {
                SessionState::Authorization => {
                    self.username = Some(username.clone());
                    self.pending = Some(Pending::Auth);
                    Action::CheckApop { username, digest }
                },
                _ => wrong_state_reply(),
            },
            Request::AUTH(None) => match self.state {
                SessionState::Authorization => {
                    let mechs = clone_strings(&self.mechs);
                    Action::Reply(Response::AUTH(crate::proto::AuthResponse::All(mechs)))
                },
                _ => wrong_state_reply(),
            },
            Request::AUTH(Some(m)) => match self.state {
                SessionState::Authorization => {
                    if vec_contains_str(&self.mechs, m.as_str()) {
                        self.pending = Some(Pending::Auth);
                        Action::CheckAuth { mechanism: m }
                    } else {
                        Action::Reply(
                            Response::ERR(
                                String::from_str("unsupported authentication mechanism"),
                            ),
                        )
                    }
                },
                _ => wrong_state_reply(),
            },
            Request::QUIT => match self.state {
                SessionState::Authorization => Action::ReplyClose(Response::QUIT),
                SessionState::Transaction => {
                    match &mut self.mailbox {
                        Some(mb) => {
                            mb.commit();
                        },
                        None => {
                            proof {
                                assert(false);
                            }
                        },
                    }
                    self.state = SessionState::Update;
                    Action::ReplyClose(Response::QUIT)
                },
                SessionState::Update => wrong_state_reply(),
            },
            Request::STAT => match self.state {
                SessionState::Transaction => {
                    let (count, size) = match &self.mailbox {
                        Some(mb) => mb.stat(),
                        None => unreached(),
                    };
                    Action::Reply(Response::STAT { count, size })
                },
                _ => wrong_state_reply(),
            },
            Request::LIST(None) => match self.state {
                SessionState::Transaction => {
                    let (count, messages) = match &self.mailbox {
                        Some(mb) => (mb.stat().0, mb.list()),
                        None => unreached(),
                    };
                    Action::Reply(Response::LIST(ListResponse::All { count, messages }))
                },
                _ => wrong_state_reply(),
            },
            Request::LIST(Some(id)) => match self.state {
                SessionState::Transaction => {
                    let found = match &self.mailbox {
                        Some(mb) => mb.scan_one(id),
                        None => unreached(),
                    };
                    proof {
                        lemma_idx_of(s0.mailbox->0, id as nat);
                    }
                    match found {
                        Some(m) => Action::Reply(Response::LIST(ListResponse::Single(m))),
                        None => Action::Reply(
                            Response::ERR(String::from_str("no such message")),
                        ),
                    }
                },
                _ => wrong_state_reply(),
            },
            Request::UIDL(None) => match self.state {
                SessionState::Transaction => {
                    let (count, entries) = match &self.mailbox {
                        Some(mb) => (mb.stat().0, mb.uidl_list()),
                        None => unreached(),
                    };
                    Action::Reply(Response::UIDL(UidlResponse::All { count, entries }))
                },
                _ => wrong_state_reply(),
            },
            Request::UIDL(Some(id)) => match self.state {
                SessionState::Transaction => {
                    let found = match &self.mailbox {
                        Some(mb) => mb.uid_one(id),
                        None => unreached(),
                    };
                    proof {
                        lemma_idx_of(s0.mailbox->0, id as nat);
                    }
                    match found {
                        Some(uid) => Action::Reply(
                            Response::UIDL(UidlResponse::Single(UidlEntry { id, uid })),
                        ),
                        None => Action::Reply(
                            Response::ERR(String::from_str("no such message")),
                        ),
                    }
                },
                _ => wrong_state_reply(),
            },
            Request::RETR(id) => match self.state {
                SessionState::Transaction => {
                    let found = match &self.mailbox {
                        Some(mb) => mb.scan_one(id),
                        None => unreached(),
                    };
                    match found {
                        Some(_) => {
                            self.pending = Some(Pending::Retr { id });
                            Action::FetchBody { id }
                        },
                        None => Action::Reply(
                            Response::ERR(String::from_str("no such message")),
                        ),
                    }
                },
                _ => wrong_state_reply(),
            },
            Request::TOP { id, lines } => match self.state {
                SessionState::Transaction => {
                    let found = match &self.mailbox {
                        Some(mb) => mb.scan_one(id),
                        None => unreached(),
                    };
                    match found {
                        Some(_) => {
                            self.pending = Some(Pending::Top { id, lines });
                            Action::FetchBody { id }
                        },
                        None => Action::Reply(
                            Response::ERR(String::from_str("no such message")),
                        ),
                    }
                },
                _ => wrong_state_reply(),
            },
            Request::DELE(id) => match self.state {
                SessionState::Transaction => {
                    let res = match &mut self.mailbox {
                        Some(mb) => mb.mark_deleted(id),
                        None => unreached(),
                    };
                    match res {
                        Ok(()) => Action::Reply(Response::DELE),
                        Err(MailboxError::AlreadyDeleted) => Action::Reply(
                            Response::ERR(String::from_str("message already deleted")),
                        ),
                        Err(MailboxError::NotFound) => Action::Reply(
                            Response::ERR(String::from_str("no such message")),
                        ),
                    }
                },
                _ => wrong_state_reply(),
            },
            Request::RSET => match self.state {
                SessionState::Transaction => {
                    match &mut self.mailbox {
                        Some(mb) => {
                            mb.clear_marks();
                        },
                        None => {
                            proof {
                                assert(false);
                            }
                        },
                    }
                    Action::Reply(Response::RSET)
                },
                _ => wrong_state_reply(),
            },
            Request::NOOP => match self.state {
                SessionState::Transaction => Action::Reply(Response::NOOP),
                _ => wrong_state_reply(),
            },
        }
    }

    /// Take the verifier's answer, exactly as [`auth_result_spec`]
    /// describes: `Some` carries the freshly loaded, unmarked mailbox.
    pub fn on_auth_result(&mut self, mailbox: Option<Mailbox>) -> (r: Response)
        requires
            session_wf(old(self)@),
            old(self)@.pending == Some(PendingV::Auth),
            match mailbox {
                Some(ref mb) => mb.wf() && no_marks(mb@),
                None => true,
            },
        ensures
            session_wf(final(self)@),
            final(self)@ == auth_result_spec(
                old(self)@,
                match mailbox {
                    Some(ref mb) => Some(mb@),
                    None => None,
                },
            ).0,
            r@ == auth_result_spec(
                old(self)@,
                match mailbox {
                    Some(ref mb) => Some(mb@),
                    None => None,
                },
            ).1,
    {
        self.pending = None;
        match mailbox {
            Some(mb) => {
                self.mailbox = Some(mb);
                self.state = SessionState::Transaction;
                Response::PASS(String::from_str("maildrop locked and ready"))
            },
            None => {
                self.username = None;
                Response::ERR(String::from_str("authentication failed"))
            },
        }
    }

    /// Take a fetched message body, exactly as [`body_spec`] describes.
    pub fn on_body(&mut self, body: String) -> (r: Response)
        requires
            session_wf(old(self)@),
            old(self)@.pending matches Some(PendingV::Retr { .. }) || old(
                self,
            )@.pending matches Some(PendingV::Top { .. }),
        ensures
            session_wf(final(self)@),
            final(self)@ == body_spec(old(self)@, body@).0,
            r@ == body_spec(old(self)@, body@).1,
    {
        match self.pending {
            Some(Pending::Retr { .. }) => {
                self.pending = None;
                Response::RETR(body)
            },
            Some(Pending::Top { lines, .. }) => {
                self.pending = None;
                Response::TOP(top_of(body.as_str(), lines))
            },
            _ => unreached(),
        }
    }
}

// ---------------------------------------------------------------------------
// Laws of the machine
// ---------------------------------------------------------------------------

/// Before successful authentication, every command besides USER, PASS,
/// APOP, AUTH, CAPA and QUIT draws a negative reply and leaves the
/// session exactly as it was.
pub proof fn lemma_pre_auth_rejected(s: SessionV, r: RequestV)
    requires
        s.state is Authorization,
        !(r matches RequestV::User(_)),
        !(r matches RequestV::Pass(_)),
        !(r matches RequestV::Apop { .. }),
        !(r matches RequestV::Auth(_)),
        !(r matches RequestV::Capa),
        !(r matches RequestV::Quit),
    ensures
        step_spec(s, r).0 == s,
        step_spec(s, r).1 == ActionV::Reply(ResponseV::Fail(msg_wrong_state())),
{
}

/// DELE then STAT and LIST: the marked message is out of the count, out
/// of the total size, and out of the listing; and DELE of the same
/// number again draws the already-deleted error, changing nothing more.
pub proof fn lemma_dele_then_stat_list(s: SessionV, id: nat)
    requires
        session_wf(s),
        s.state is Transaction,
        has_live(s.mailbox->0, id),
    ensures
        ({
            let mb = s.mailbox->0;
            let p = idx_of(mb, id);
            let s1 = step_spec(s, RequestV::Dele(id)).0;
            &&& step_spec(s, RequestV::Dele(id)).1 == ActionV::Reply(ResponseV::Dele)
            &&& s1.mailbox == Some(mark_spec(mb, id))
            &&& step_spec(s1, RequestV::Stat).1 == ActionV::Reply(
                ResponseV::Stat {
                    count: (live_count(mb) - 1) as nat,
                    size: (live_size(mb) - mb[p].size) as nat,
                },
            )
            &&& step_spec(s1, RequestV::List(None)).1 == ActionV::Reply(
                ResponseV::List(
                    ListV::All {
                        count: (live_count(mb) - 1) as nat,
                        messages: metas_of(drop_id(live_of(mb), id)),
                    },
                ),
            )
            &&& step_spec(s1, RequestV::Dele(id)).0 == s1
            &&& step_spec(s1, RequestV::Dele(id)).1 == ActionV::Reply(
                ResponseV::Fail(msg_already_deleted()),
            )
        }),
{
    let mb = s.mailbox->0;
    lemma_idx_of(mb, id);
    lemma_mark_effect(mb, id);
}

/// The session a sequence of DELE commands leaves behind.
pub open spec fn run_deles(s: SessionV, ids: Seq<nat>) -> SessionV
    decreases ids.len(),
{
    if ids.len() == 0 {
        s
    } else {
        run_deles(step_spec(s, RequestV::Dele(ids[0])).0, ids.skip(1))
    }
}

/// DELE commands touch nothing but the marks: the state stays
/// TRANSACTION, and lifting the marks afterwards gives the store that
/// lifting them before would have given.
proof fn lemma_run_deles(s: SessionV, ids: Seq<nat>)
    requires
        session_wf(s),
        s.state is Transaction,
    ensures
        ({
            let s1 = run_deles(s, ids);
            &&& session_wf(s1)
            &&& s1.state == s.state
            &&& s1.user == s.user
            &&& s1.pending == s.pending
            &&& s1.caps == s.caps
            &&& s1.mechs == s.mechs
            &&& s1.mailbox is Some
            &&& clear_spec(s1.mailbox->0) == clear_spec(s.mailbox->0)
        }),
    decreases ids.len(),
{
    if ids.len() > 0 {
        let id = ids[0];
        let s1 = step_spec(s, RequestV::Dele(id)).0;
        lemma_mark_wf(s.mailbox->0, id);
        lemma_clear_mark(s.mailbox->0, id);
        assert(session_wf(s1));
        lemma_run_deles(s1, ids.skip(1));
    }
}

/// RSET after any run of DELE commands hands back exactly the session
/// before them: every mark is lifted, and with it STAT and LIST read as
/// they did at the start.
pub proof fn lemma_rset_restores(s: SessionV, ids: Seq<nat>)
    requires
        session_wf(s),
        s.state is Transaction,
        no_marks(s.mailbox->0),
    ensures
        step_spec(run_deles(s, ids), RequestV::Rset).0 == s,
        step_spec(run_deles(s, ids), RequestV::Rset).1 == ActionV::Reply(ResponseV::Rset),
{
    lemma_run_deles(s, ids);
    let s1 = run_deles(s, ids);
    let s2 = step_spec(s1, RequestV::Rset).0;
    lemma_clear_no_marks(s.mailbox->0);
    assert(clear_spec(s1.mailbox->0) == s.mailbox->0);
    assert(s2.mailbox == s.mailbox);
    assert(s2 =~= s);
}

/// QUIT from TRANSACTION commits: the marked messages are gone from the
/// store for good, what stays is unmarked, and a number is present
/// afterwards exactly when it was live before. QUIT from AUTHORIZATION
/// commits nothing: the session is left exactly as it was.
pub proof fn lemma_quit_commits(s: SessionV)
    requires
        session_wf(s),
    ensures
        s.state is Transaction ==> ({
            let s1 = step_spec(s, RequestV::Quit).0;
            &&& step_spec(s, RequestV::Quit).1 == ActionV::ReplyClose(ResponseV::Quit)
            &&& s1.state is Update
            &&& s1.mailbox == Some(live_of(s.mailbox->0))
            &&& no_marks(s1.mailbox->0)
            &&& forall|id: nat|
                has_id(#[trigger] s1.mailbox->0, id) <==> has_live(s.mailbox->0, id)
        }),
        s.state is Authorization ==> step_spec(s, RequestV::Quit).0 == s && step_spec(
            s,
            RequestV::Quit,
        ).1 == ActionV::ReplyClose(ResponseV::Quit),
{
    if s.state is Transaction {
        let mb = s.mailbox->0;
        lemma_live_wf(mb);
        assert forall|id: nat|
            has_id(#[trigger] step_spec(s, RequestV::Quit).0.mailbox->0, id) <==> has_live(
                mb,
                id,
            ) by {
            lemma_live_has_id(mb, id);
        }
    }
}

// ---------------------------------------------------------------------------
// The connection handler's line loop, less the I/O
// ---------------------------------------------------------------------------

/// The wording of each decode failure's negative reply.
pub open spec fn decode_err_text(e: DecodeError) -> Seq<char> {
    match e {
        DecodeError::LineTooLong => "line too long"@,
        DecodeError::MalformedLine => "malformed line"@,
        DecodeError::UnknownCommand => "unknown command"@,
        DecodeError::ArgumentCountMismatch => "wrong number of arguments"@,
        DecodeError::InvalidArgument => "invalid argument"@,
    }
}

/// What the handler does with one received line: write bytes (and perhaps
/// close), or carry out one piece of outside work first.
#[derive(Debug)]
pub enum LineStep {
    /// Write this reply; close the connection afterwards when `close`.
    Reply { text: String, close: bool },
    /// Verify this username and password, then call `on_auth_result`.
    CheckPass { username: String, secret: String },
    /// Verify this digest against the greeting nonce, then call
    /// `on_auth_result`.
    CheckApop { username: String, digest: String },
    /// Run this authentication mechanism, then call `on_auth_result`.
    CheckAuth { mechanism: String },
    /// Read this message's body, then call `on_body`.
    FetchBody { id: usize },
}

/// The mathematical shape of [`LineStep`].
pub enum LineStepV {
    Reply { text: Seq<char>, close: bool },
    CheckPass { username: Seq<char>, secret: Seq<char> },
    CheckApop { username: Seq<char>, digest: Seq<char> },
    CheckAuth { mechanism: Seq<char> },
    FetchBody { id: nat },
}

impl View for LineStep {
    type V = LineStepV;

    open spec fn view(&self) -> LineStepV {
        match self {
            LineStep::Reply { text, close } => LineStepV::Reply { text: text@, close: *close },
            LineStep::CheckPass { username, secret } => LineStepV::CheckPass {
                username: username@,
                secret: secret@,
            },
            LineStep::CheckApop { username, digest } => LineStepV::CheckApop {
                username: username@,
                digest: digest@,
            },
            LineStep::CheckAuth { mechanism } => LineStepV::CheckAuth { mechanism: mechanism@ },
            LineStep::FetchBody { id } => LineStepV::FetchBody { id: *id as nat },
        }
    }
}

/// One round of the handler loop: decode the line, take the step, render
/// the reply. A line that will not decode draws a negative reply and the
/// session stands still; only an overlong line closes the connection,
/// since reading on from a peer that floods the line buffer is unsafe.
pub open spec fn line_spec(s: SessionV, line: Seq<char>) -> (SessionV, LineStepV) {
    match decode_spec(line) {
        Err(e) => (
            s,
            LineStepV::Reply {
                text: encode_response(ResponseV::Fail(decode_err_text(e))),
                close: e == DecodeError::LineTooLong,
            },
        ),
        Ok(r) => {
            let sa = step_spec(s, r);
            match sa.1 {
                ActionV::Reply(resp) => (
                    sa.0,
                    LineStepV::Reply { text: encode_response(resp), close: false },
                ),
                ActionV::ReplyClose(resp) => (
                    sa.0,
                    LineStepV::Reply { text: encode_response(resp), close: true },
                ),
                ActionV::CheckPass { username, secret } => (
                    sa.0,
                    LineStepV::CheckPass { username, secret },
                ),
                ActionV::CheckApop { username, digest } => (
                    sa.0,
                    LineStepV::CheckApop { username, digest },
                ),
                ActionV::CheckAuth { mechanism } => (sa.0, LineStepV::CheckAuth { mechanism }),
                ActionV::FetchBody { id } => (sa.0, LineStepV::FetchBody { id }),
            }
        },
    }
}

impl Session {
    /// Feed one received line through decode, the state machine and the
    /// encoder, exactly as [`line_spec`] describes.
    pub fn on_line(&mut self, line: &str) -> (r: LineStep)
        requires
            session_wf(old(self)@),
            old(self)@.pending is None,
        ensures
            session_wf(final(self)@),
            final(self)@ == line_spec(old(self)@, line@).0,
            r@ == line_spec(old(self)@, line@).1,
    {
        match Request::from_str(line) {
            Err(e) => {
                let msg = match e {
                    DecodeError::LineTooLong => "line too long",
                    DecodeError::MalformedLine => "malformed line",
                    DecodeError::UnknownCommand => "unknown command",
                    DecodeError::ArgumentCountMismatch => "wrong number of arguments",
                    DecodeError::InvalidArgument => "invalid argument",
                };
                let resp = Response::ERR(String::from_str(msg));
                let text = resp.to_string();
                let close = match e {
                    DecodeError::LineTooLong => true,
                    _ => false,
                };
                LineStep::Reply { text, close }
            },
            Ok(req) => {
                let a = self.on_request(req);
                match a {
                    Action::Reply(resp) => LineStep::Reply { text: resp.to_string(), close: false },
                    Action::ReplyClose(resp) => LineStep::Reply {
                        text: resp.to_string(),
                        close: true,
                    },
                    Action::CheckPass { username, secret } => LineStep::CheckPass {
                        username,
                        secret,
                    },
                    Action::CheckApop { username, digest } => LineStep::CheckApop {
                        username,
                        digest,
                    },
                    Action::CheckAuth { mechanism } => LineStep::CheckAuth { mechanism },
                    Action::FetchBody { id } => LineStep::FetchBody { id },
                }
            },
        }
    }
}

} // verus!
