//! The gateway's decisions: one WebSocket connection per session id, the
//! connection loop as a state machine ([`step`]), how each incoming frame
//! is routed inside and outside a turn, the slash commands, the usage
//! counters behind the turn summary, and the REST mapping of session-API
//! results.
//!
//! The socket, the agent host and the HTTP framework are the caller's: it
//! hands each event to these functions and performs the action returned.

use vstd::prelude::*;
use crate::sessions::SessionApiError;
use crate::session_id::{is_valid_session_id, valid_session_id};
use crate::text::{chars_of, str_eq, string_of, strip_prefix, trim, trimmed, is_unicode_ws, is_whitespace};
use crate::tool::{env_lookup, env_get, env_set, env_without};
use crate::config_file::pairs_view;

verus! {

/// The session a connection uses: the client's `user_id` when it is a
/// valid session id, else a fresh server-generated id (untrusted input is
/// never used as a path component).
pub fn ws_session_id(user_id: Option<&str>, fresh: String) -> (r: String)
    ensures
        match user_id {
            Some(u) => if valid_session_id(u@) {
                r@ == u@
            } else {
                r@ == fresh@
            },
            None => r@ == fresh@,
        },
{
    match user_id {
        Some(u) => if is_valid_session_id(u) {
            u.to_owned()
        } else {
            fresh
        },
        None => fresh,
    }
}

/// The refusal of a second connection to a live session (HTTP 409).
pub fn already_connected_message(session_id: &str) -> (r: String)
    ensures
        r@ == "session already connected: "@ + session_id@,
{
    let mut m = "session already connected: ".to_owned();
    m.append(session_id);
    m
}

/// The live connections: at most one per session id.
#[derive(Debug)]
pub struct Connections {
    ids: Vec<String>,
}

impl Connections {
    #[verifier::type_invariant]
    spec fn distinct(self) -> bool {
        forall|i: int, j: int| 0 <= i < j < self.ids@.len() ==> self.ids@[i]@ != self.ids@[j]@
    }

    /// The connected session ids.
    pub closed spec fn live(self) -> Set<Seq<char>> {
        Set::new(|s: Seq<char>| exists|i: int| 0 <= i < self.ids@.len() && self.ids@[i]@ == s)
    }

    /// No connection.
    pub fn new() -> (r: Self)
        ensures
            r.live() == Set::<Seq<char>>::empty(),
    {
        let r = Connections { ids: Vec::new() };
        assert(r.live() =~= Set::<Seq<char>>::empty());
        r
    }

    fn index_of(&self, id: &str) -> (r: Option<usize>)
        ensures
            match r {
                Some(i) => i < self.ids@.len() && self.ids@[i as int]@ == id@,
                None => forall|i: int| 0 <= i < self.ids@.len() ==> self.ids@[i]@ != id@,
            },
    {
        let mut i: usize = 0;
        while i < self.ids.len()
            invariant
                0 <= i <= self.ids.len(),
                forall|j: int| 0 <= j < i ==> self.ids@[j]@ != id@,
            decreases self.ids.len() - i,
        {
            if str_eq(self.ids[i].as_str(), id) {
                return Some(i);
            }
            i = i + 1;
        }
        None
    }

    /// Whether `id` has a live connection.
    pub fn contains(&self, id: &str) -> (r: bool)
        ensures
            r == self.live().contains(id@),
    {
        let r = self.index_of(id);
        proof {
            if r is None {
                assert(!self.live().contains(id@));
            } else {
                assert(self.ids@[r->0 as int]@ == id@);
            }
        }
        r.is_some()
    }

    /// Claim `id` for a new connection, atomically: refused (`false`,
    /// nothing changed) when the id is already live.
    pub fn claim(&mut self, id: &str) -> (r: bool)
        ensures
            claimed(*old(self), id@, r, *final(self)),
    {
        proof {
            use_type_invariant(&*self);
        }
        if self.contains(id) {
            assert(old(self).live().insert(id@) =~= old(self).live());
            return false;
        }
        let ghost before = self.ids@;
        let mut ids: Vec<String> = Vec::new();
        std::mem::swap(&mut ids, &mut self.ids);
        ids.push(id.to_owned());
        assert forall|i: int, j: int| 0 <= i < j < ids@.len() implies ids@[i]@ != ids@[j]@ by {
            if j == ids@.len() - 1 {
                assert(ids@[i] == before[i]);
                assert(!(exists|k: int| 0 <= k < before.len() && before[k]@ == id@));
            } else {
                assert(ids@[i] == before[i] && ids@[j] == before[j]);
            }
        }
        self.ids = ids;
        assert(self.live() =~= old(self).live().insert(id@)) by {
            assert forall|s: Seq<char>| self.live().contains(s) <==> old(self).live().insert(id@).contains(s) by {
                if self.live().contains(s) {
                    let k = choose|k: int| 0 <= k < self.ids@.len() && self.ids@[k]@ == s;
                    if k < before.len() {
                        assert(self.ids@[k] == before[k]);
                    }
                }
                if old(self).live().contains(s) {
                    let k = choose|k: int| 0 <= k < before.len() && before[k]@ == s;
                    assert(self.ids@[k] == before[k]);
                }
                if s == id@ {
                    assert(self.ids@[before.len() as int]@ == id@);
                }
            }
        }
        true
    }

    /// Release `id` when its connection ends.
    pub fn release(&mut self, id: &str)
        ensures
            released(*old(self), id@, *final(self)),
    {
        proof {
            use_type_invariant(&*self);
        }
        match self.index_of(id) {
            None => {
                assert(old(self).live().remove(id@) =~= old(self).live());
            },
            Some(i) => {
                let ghost before = self.ids@;
                let mut ids: Vec<String> = Vec::new();
                std::mem::swap(&mut ids, &mut self.ids);
                ids.remove(i);
                assert forall|a: int, b: int| 0 <= a < b < ids@.len() implies ids@[a]@ != ids@[b]@ by {
                    let a0 = if a < i { a } else { a + 1 };
                    let b0 = if b < i { b } else { b + 1 };
                    assert(ids@[a] == before[a0] && ids@[b] == before[b0]);
                }
                self.ids = ids;
                assert(self.live() =~= old(self).live().remove(id@)) by {
                    assert forall|s: Seq<char>| self.live().contains(s) <==> old(self).live().remove(id@).contains(s) by {
                        if self.live().contains(s) {
                            let k = choose|k: int| 0 <= k < self.ids@.len() && self.ids@[k]@ == s;
                            let k0 = if k < i { k } else { k + 1 };
                            assert(self.ids@[k] == before[k0]);
                            assert(k0 != i);
                        }
                        if old(self).live().remove(id@).contains(s) {
                            let k = choose|k: int| 0 <= k < before.len() && before[k]@ == s;
                            assert(k != i);
                            if k < i {
                                assert(self.ids@[k] == before[k]);
                            } else {
                                assert(self.ids@[k - 1] == before[k]);
                            }
                        }
                    }
                }
            },
        }
    }
}

/// Whether a claim of `id` on `before` answered `r` and left `after`:
/// granted exactly when `id` was not live, and `id` is live afterwards.
pub open spec fn claimed(before: Connections, id: Seq<char>, r: bool, after: Connections) -> bool {
    &&& r == !before.live().contains(id)
    &&& after.live() == before.live().insert(id)
}

/// Whether releasing `id` on `before` left `after`: `id` is no longer live,
/// every other id is untouched.
pub open spec fn released(before: Connections, id: Seq<char>, after: Connections) -> bool {
    after.live() == before.live().remove(id)
}

/// One live connection per session: after a granted claim of `id`, a
/// second claim of it is refused and changes nothing; once the connection
/// is released, a claim of it is granted again.
pub proof fn lemma_one_connection_per_session(
    c0: Connections,
    c1: Connections,
    c2: Connections,
    c3: Connections,
    c4: Connections,
    id: Seq<char>,
    first: bool,
    second: bool,
    again: bool,
)
    requires
        claimed(c0, id, first, c1),
        claimed(c1, id, second, c2),
        released(c2, id, c3),
        claimed(c3, id, again, c4),
    ensures
        !second,
        c2.live() == c1.live(),
        !c3.live().contains(id),
        again,
        c4.live().contains(id),
{
    assert(c1.live().insert(id) =~= c1.live());
}

// ---------------------------------------------------------------------------
// Frames
// ---------------------------------------------------------------------------

/// What to do with a text frame outside a turn.
#[derive(Debug)]
pub enum IdleAction {
    /// Nothing (blank message, or a bare `/`).
    Ignore,
    /// Run a turn on this text.
    RunTurn(String),
    /// `/clear`: append a clear to the session's log and reset the counters.
    Clear,
    /// Answer a slash command with content, then a `done`.
    Reply(String),
    /// Answer a slash command with an error, then a `done`.
    ReplyError(String),
    /// Cancel: set the abort signal and release any waiting approval.
    Cancel,
    /// Hand an approval response to the registry.
    ApprovalResponse,
    /// A message type this gateway does not know (logged).
    Unknown,
}

/// The first whitespace-separated word of `s[i..]`, if any: `(start, end)`.
pub open spec fn first_word_from(s: Seq<char>, i: int) -> Option<(int, int)>
    decreases s.len() - i,
{
    if i < 0 || i >= s.len() {
        None
    } else if is_unicode_ws(s[i]) {
        first_word_from(s, i + 1)
    } else {
        Some((i, word_end(s, i)))
    }
}

/// The end of the word starting at `i`.
pub open spec fn word_end(s: Seq<char>, i: int) -> int
    decreases s.len() - i,
{
    if i < 0 || i >= s.len() || is_unicode_ws(s[i]) {
        i
    } else {
        word_end(s, i + 1)
    }
}

/// The first whitespace-separated word of `s` (empty when there is none).
pub open spec fn first_word(s: Seq<char>) -> Seq<char> {
    match first_word_from(s, 0) {
        Some((a, b)) => s.subrange(a, b),
        None => Seq::empty(),
    }
}

/// The routing of a message's text outside a turn: blank is ignored;
/// `/clear` clears; `/help` lists the commands; another `/word` is an
/// unknown command; a `/` with no word is ignored; anything else runs a
/// turn.
pub open spec fn message_action(text: Seq<char>) -> IdleAction {
    if trimmed(text).len() == 0 {
        IdleAction::Ignore
    } else if text.len() > 0 && text[0] == '/' {
        let cmd = text.skip(1);
        match first_word_from(cmd, 0) {
            None => IdleAction::Ignore,
            Some((a, b)) => {
                let w = cmd.subrange(a, b);
                if w == "clear"@ {
                    IdleAction::Clear
                } else if w == "help"@ {
                    IdleAction::Reply(arbitrary())
                } else {
                    IdleAction::ReplyError(arbitrary())
                }
            },
        }
    } else {
        IdleAction::RunTurn(arbitrary())
    }
}

/// The slash commands the gateway answers, with their descriptions and
/// aliases.
#[derive(Debug, Clone)]
pub struct CommandSpec {
    pub name: String,
    pub description: String,
    pub aliases: Vec<String>,
}

/// The commands listed to the frontend: every one has a handler in
/// [`route_idle`].
pub fn commands() -> (r: Vec<CommandSpec>)
    ensures
        r@.len() == 2,
        r@[0].name@ == "clear"@,
        r@[0].description@ == "Clear the conversation history"@,
        r@[0].aliases@.len() == 0,
        r@[1].name@ == "help"@,
        r@[1].description@ == "Show available commands"@,
        r@[1].aliases@.len() == 1,
        r@[1].aliases@[0]@ == "?"@,
{
    let mut v: Vec<CommandSpec> = Vec::new();
    v.push(
        CommandSpec {
            name: "clear".to_owned(),
            description: "Clear the conversation history".to_owned(),
            aliases: Vec::new(),
        },
    );
    let mut aliases: Vec<String> = Vec::new();
    aliases.push("?".to_owned());
    v.push(CommandSpec { name: "help".to_owned(), description: "Show available commands".to_owned(), aliases });
    v
}

proof fn lemma_msg_types_distinct()
    ensures
        "message"@ != "cancel"@,
        "message"@ != "approval_response"@,
        "cancel"@ != "approval_response"@,
{
    reveal_strlit("message");
    reveal_strlit("cancel");
    reveal_strlit("approval_response");
    assert("message"@.len() != "cancel"@.len());
    assert("message"@.len() != "approval_response"@.len());
    assert("cancel"@.len() != "approval_response"@.len());
}

/// Route a text frame outside a turn, by its `type` and `content`.
pub fn route_idle(msg_type: &str, content: Option<&str>) -> (r: IdleAction)
    ensures
        msg_type@ == "message"@ ==> match content {
            None => r is Ignore,
            Some(t) => match message_action(t@) {
                IdleAction::Ignore => r is Ignore,
                IdleAction::Clear => r is Clear,
                IdleAction::Reply(_) => (r matches IdleAction::Reply(m) && m@ == "commands: /clear  /help"@),
                IdleAction::ReplyError(_) => (r matches IdleAction::ReplyError(m) && m@
                    == "unknown command /"@ + first_word(t@.skip(1))),
                IdleAction::RunTurn(_) => (r matches IdleAction::RunTurn(x) && x@ == t@),
                _ => false,
            },
        },
        msg_type@ == "cancel"@ ==> r is Cancel,
        msg_type@ == "approval_response"@ ==> r is ApprovalResponse,
        msg_type@ != "message"@ && msg_type@ != "cancel"@ && msg_type@ != "approval_response"@ ==> r is Unknown,
{
    proof {
        lemma_msg_types_distinct();
    }
    if str_eq(msg_type, "message") {
        let t = match content {
            Some(t) => t,
            None => {
                return IdleAction::Ignore;
            },
        };
        if trim(t).as_str().is_empty() {
            return IdleAction::Ignore;
        }
        match strip_prefix(t, "/") {
            Some(cmd) => {
                proof {
                    reveal_strlit("/");
                    assert(t@.subrange(0, 1)[0] == t@[0]);
                    assert(t@.len() > 0 && t@[0] == '/');
                    assert(cmd@ == t@.skip(1));
                }
                let cs = chars_of(cmd.as_str());
                let mut a: usize = 0;
                while a < cs.len() && is_whitespace(cs[a])
                    invariant
                        cs@ == cmd@,
                        0 <= a <= cs.len(),
                        first_word_from(cmd@, a as int) == first_word_from(cmd@, 0),
                    decreases cs.len() - a,
                {
                    a = a + 1;
                }
                if a == cs.len() {
                    assert(first_word_from(cmd@, a as int) is None);
                    return IdleAction::Ignore;
                }
                let mut b = a;
                while b < cs.len() && !is_whitespace(cs[b])
                    invariant
                        cs@ == cmd@,
                        a <= b <= cs.len(),
                        word_end(cmd@, b as int) == word_end(cmd@, a as int),
                    decreases cs.len() - b,
                {
                    b = b + 1;
                }
                let w = string_of(&cs, a, b);
                assert(word_end(cmd@, b as int) == b as int);
                assert(first_word_from(cmd@, a as int) == Some((a as int, b as int)));
                assert(w@ == first_word(cmd@));
                if str_eq(w.as_str(), "clear") {
                    IdleAction::Clear
                } else if str_eq(w.as_str(), "help") {
                    IdleAction::Reply("commands: /clear  /help".to_owned())
                } else {
                    let mut m = "unknown command /".to_owned();
                    m.append(w.as_str());
                    IdleAction::ReplyError(m)
                }
            },
            None => {
                proof {
                    reveal_strlit("/");
                    if t@.len() > 0 && t@[0] == '/' {
                        assert(t@.subrange(0, 1) =~= "/"@);
                    }
                }
                IdleAction::RunTurn(t.to_owned())
            },
        }
    } else if str_eq(msg_type, "cancel") {
        IdleAction::Cancel
    } else if str_eq(msg_type, "approval_response") {
        IdleAction::ApprovalResponse
    } else {
        IdleAction::Unknown
    }
}

/// What to do with a text frame during a turn.
#[derive(Debug)]
pub enum TurnAction {
    /// Cancel the turn: set the abort signal and release waiting approvals.
    Cancel,
    /// Hand an approval response to the registry.
    ApprovalResponse,
    /// Steer: queue the text for the running loop and show it as queued.
    Steer(String),
    /// Nothing (a blank message).
    Ignore,
    /// A message type this gateway does not know (logged).
    Unknown,
}

/// Route a text frame during a turn: a message is steered into the running
/// loop rather than refused.
pub fn route_in_turn(msg_type: &str, content: Option<&str>) -> (r: TurnAction)
    ensures
        msg_type@ == "cancel"@ ==> r is Cancel,
        msg_type@ == "approval_response"@ ==> r is ApprovalResponse,
        msg_type@ == "message"@ ==> match content {
            Some(t) => if trimmed(t@).len() > 0 {
                r matches TurnAction::Steer(x) && x@ == t@
            } else {
                r is Ignore
            },
            None => r is Ignore,
        },
        msg_type@ != "message"@ && msg_type@ != "cancel"@ && msg_type@ != "approval_response"@ ==> r is Unknown,
{
    proof {
        lemma_msg_types_distinct();
    }
    if str_eq(msg_type, "cancel") {
        TurnAction::Cancel
    } else if str_eq(msg_type, "approval_response") {
        TurnAction::ApprovalResponse
    } else if str_eq(msg_type, "message") {
        match content {
            Some(t) => if trim(t).as_str().is_empty() {
                TurnAction::Ignore
            } else {
                TurnAction::Steer(t.to_owned())
            },
            None => TurnAction::Ignore,
        }
    } else {
        TurnAction::Unknown
    }
}

// ---------------------------------------------------------------------------
// The connection loop
// ---------------------------------------------------------------------------

/// Where a connection is: waiting for a message, running a turn, or gone.
#[derive(Debug, Clone, Copy, PartialEq, Eq, Structural)]
pub enum Phase {
    Idle,
    InTurn,
    Closed,
}

/// A connection's loop state: its phase, and whether a turn start time is
/// recorded (the `done` after a turn then carries the usage summary; a
/// slash-command reply clears it).
#[derive(Debug, Clone, Copy, PartialEq, Eq, Structural)]
pub struct Conn {
    pub phase: Phase,
    pub timed: bool,
}

/// A frame read from the socket.
#[derive(Debug)]
pub enum Frame {
    /// A text frame: its `type` and `content` when it parsed as a message,
    /// `None` for the type when it did not.
    Text { msg_type: Option<String>, content: Option<String> },
    /// A ping, with its payload.
    Ping(Vec<u8>),
    /// A pong or a binary frame (ignored).
    Other,
    /// A close frame, or the end of the stream.
    Closed,
    /// A socket error.
    Failed,
}

/// What the loop learns next: a frame, or the end of work it started.
#[derive(Debug)]
pub enum WsEvent {
    Frame(Frame),
    /// `/clear` finished: its error text when it failed.
    ClearFinished(Option<String>),
    /// The turn finished: the agent's error text when it failed.
    TurnFinished(Option<String>),
}

/// An event queued on the connection's ordered outgoing channel.
#[derive(Debug)]
pub enum Wire {
    Content(String),
    Error(String),
    /// A message accepted into the running turn's steer queue.
    Queued(String),
    /// The turn boundary (see [`done_event`]).
    Done,
}

/// What the loop does, in order.
#[derive(Debug)]
pub enum WsAction {
    /// Answer a ping.
    Pong(Vec<u8>),
    /// Record the turn's start time and run a turn on this text.
    StartTurn(String),
    /// Push this text on the running turn's steer queue.
    Steer(String),
    /// Set the abort signal and release any waiting approval.
    Cancel,
    /// Hand the frame, as an approval response, to the approval registry
    /// (a malformed one is logged).
    Approval,
    /// Append a clear to the session's log.
    ClearSession,
    /// Set every usage counter back to zero.
    ResetUsage,
    /// Drop the approvals still pending at the turn boundary.
    ClearPending,
    /// Queue an event on the ordered outgoing channel.
    Send(Wire),
    /// Log a frame this gateway does not act on.
    Warn,
    /// Leave the loop: unregister the session and release its resources.
    End,
}

/// The state after a slash-command reply: idle, with no turn start time.
pub open spec fn replied() -> Conn {
    Conn { phase: Phase::Idle, timed: false }
}

/// Whether `a` is a send of content `t`.
pub open spec fn sends_content(a: WsAction, t: Seq<char>) -> bool {
    a matches WsAction::Send(Wire::Content(m)) && m@ == t
}

/// Whether `a` is a send of error `t`.
pub open spec fn sends_error(a: WsAction, t: Seq<char>) -> bool {
    a matches WsAction::Send(Wire::Error(m)) && m@ == t
}

/// Whether `a` is a send of the turn boundary.
pub open spec fn sends_done(a: WsAction) -> bool {
    a matches WsAction::Send(Wire::Done)
}

/// A step that changes nothing and does nothing.
pub open spec fn quiet(c: Conn, r: (Conn, Seq<WsAction>)) -> bool {
    r.0 == c && r.1.len() == 0
}

/// A step that keeps the state and performs the one action `p` describes.
pub open spec fn only(c: Conn, r: (Conn, Seq<WsAction>), p: spec_fn(WsAction) -> bool) -> bool {
    r.0 == c && r.1.len() == 1 && p(r.1[0])
}

/// A text frame of type `mt` outside a turn: a message is routed as
/// [`message_action`] says (a turn starts, `/clear` clears, `/help` and an
/// unknown command are answered and closed with a `done`); a cancel
/// cancels; an approval response goes to the registry; anything else is
/// logged.
pub open spec fn idle_text_step(c: Conn, mt: Seq<char>, content: Option<String>, r: (Conn, Seq<WsAction>)) -> bool {
    if mt == "message"@ {
        match content {
            None => quiet(c, r),
            Some(t) => match message_action(t@) {
                IdleAction::Ignore => quiet(c, r),
                IdleAction::Clear => only(c, r, |a: WsAction| a is ClearSession),
                IdleAction::Reply(_) => r.0 == replied() && r.1.len() == 2 && sends_content(
                    r.1[0],
                    "commands: /clear  /help"@,
                ) && sends_done(r.1[1]),
                IdleAction::ReplyError(_) => r.0 == replied() && r.1.len() == 2 && sends_error(
                    r.1[0],
                    "unknown command /"@ + first_word(t@.skip(1)),
                ) && sends_done(r.1[1]),
                IdleAction::RunTurn(_) => r.0 == (Conn { phase: Phase::InTurn, timed: true }) && r.1.len()
                    == 1 && (r.1[0] matches WsAction::StartTurn(x) && x@ == t@),
                _ => false,
            },
        }
    } else if mt == "cancel"@ {
        only(c, r, |a: WsAction| a is Cancel)
    } else if mt == "approval_response"@ {
        only(c, r, |a: WsAction| a is Approval)
    } else {
        only(c, r, |a: WsAction| a is Warn)
    }
}

/// A text frame of type `mt` during a turn: a cancel cancels; an approval
/// response goes to the registry; a message that is not blank is steered
/// into the loop and shown as queued; anything else is logged.
pub open spec fn turn_text_step(c: Conn, mt: Seq<char>, content: Option<String>, r: (Conn, Seq<WsAction>)) -> bool {
    if mt == "cancel"@ {
        only(c, r, |a: WsAction| a is Cancel)
    } else if mt == "approval_response"@ {
        only(c, r, |a: WsAction| a is Approval)
    } else if mt == "message"@ {
        match content {
            Some(t) => if trimmed(t@).len() > 0 {
                r.0 == c && r.1.len() == 2 && (r.1[0] matches WsAction::Steer(x) && x@ == t@) && (
                r.1[1] matches WsAction::Send(Wire::Queued(y)) && y@ == t@)
            } else {
                quiet(c, r)
            },
            None => quiet(c, r),
        }
    } else {
        only(c, r, |a: WsAction| a is Warn)
    }
}

/// One step of a connection's loop. A closed connection does nothing. A
/// ping is answered and other non-text frames ignored. A close or a socket
/// error ends the loop; during a turn it first cancels the turn and drops
/// its pending approvals, and no `done` follows. Text frames go by
/// [`idle_text_step`] and [`turn_text_step`]; an unparseable one is logged.
/// The end of `/clear` resets the counters and answers `(session cleared)`,
/// or answers `clear failed: {e}`, then a `done`. The end of a turn drops
/// the pending approvals and sends the `done`, then the agent's error if
/// there was one.
pub fn step(c: Conn, ev: WsEvent) -> (r: (Conn, Vec<WsAction>))
    ensures
        c.phase is Closed ==> quiet(c, (r.0, r.1@)),
        c.phase !is Closed ==> match ev {
            WsEvent::Frame(Frame::Ping(d)) => only(c, (r.0, r.1@), |a: WsAction| a matches WsAction::Pong(x) && x@ == d@),
            WsEvent::Frame(Frame::Other) => quiet(c, (r.0, r.1@)),
            WsEvent::Frame(Frame::Closed) | WsEvent::Frame(Frame::Failed) => r.0 == (Conn { phase: Phase::Closed, timed: c.timed }) && if c.phase is InTurn {
                r.1@.len() == 3 && r.1@[0] is Cancel && r.1@[1] is ClearPending && r.1@[2] is End
            } else {
                r.1@.len() == 1 && r.1@[0] is End
            },
            WsEvent::Frame(Frame::Text { msg_type: None, .. }) => only(c, (r.0, r.1@), |a: WsAction| a is Warn),
            WsEvent::Frame(Frame::Text { msg_type: Some(mt), content }) => if c.phase is Idle {
                idle_text_step(c, mt@, content, (r.0, r.1@))
            } else {
                turn_text_step(c, mt@, content, (r.0, r.1@))
            },
            WsEvent::ClearFinished(e) => if c.phase is Idle {
                r.0 == replied() && match e {
                    None => r.1@.len() == 3 && r.1@[0] is ResetUsage && sends_content(r.1@[1], "(session cleared)"@)
                        && sends_done(r.1@[2]),
                    Some(m) => r.1@.len() == 2 && sends_error(r.1@[0], "clear failed: "@ + m@)
                        && sends_done(r.1@[1]),
                }
            } else {
                quiet(c, (r.0, r.1@))
            },
            WsEvent::TurnFinished(e) => if c.phase is InTurn {
                r.0 == (Conn { phase: Phase::Idle, timed: c.timed }) && r.1@[0] is ClearPending
                    && sends_done(r.1@[1]) && match e {
                    None => r.1@.len() == 2,
                    Some(m) => r.1@.len() == 3 && sends_error(r.1@[2], m@),
                }
            } else {
                quiet(c, (r.0, r.1@))
            },
        },
{
    let mut out: Vec<WsAction> = Vec::new();
    if c.phase == Phase::Closed {
        return (c, out);
    }
    proof {
        lemma_msg_types_distinct();
    }
    match ev {
        WsEvent::Frame(Frame::Ping(d)) => {
            out.push(WsAction::Pong(d));
            (c, out)
        },
        WsEvent::Frame(Frame::Other) => (c, out),
        WsEvent::Frame(Frame::Closed) | WsEvent::Frame(Frame::Failed) => {
            if c.phase == Phase::InTurn {
                out.push(WsAction::Cancel);
                out.push(WsAction::ClearPending);
            }
            out.push(WsAction::End);
            (Conn { phase: Phase::Closed, timed: c.timed }, out)
        },
        WsEvent::Frame(Frame::Text { msg_type: None, .. }) => {
            out.push(WsAction::Warn);
            (c, out)
        },
        WsEvent::Frame(Frame::Text { msg_type: Some(mt), content }) => {
            let text: Option<&str> = match &content {
                Some(t) => Some(t.as_str()),
                None => None,
            };
            if c.phase == Phase::Idle {
                match route_idle(mt.as_str(), text) {
                    IdleAction::Ignore => (c, out),
                    IdleAction::RunTurn(t) => {
                        out.push(WsAction::StartTurn(t));
                        (Conn { phase: Phase::InTurn, timed: true }, out)
                    },
                    IdleAction::Clear => {
                        out.push(WsAction::ClearSession);
                        (c, out)
                    },
                    IdleAction::Reply(m) => {
                        out.push(WsAction::Send(Wire::Content(m)));
                        out.push(WsAction::Send(Wire::Done));
                        (Conn { phase: Phase::Idle, timed: false }, out)
                    },
                    IdleAction::ReplyError(m) => {
                        out.push(WsAction::Send(Wire::Error(m)));
                        out.push(WsAction::Send(Wire::Done));
                        (Conn { phase: Phase::Idle, timed: false }, out)
                    },
                    IdleAction::Cancel => {
                        out.push(WsAction::Cancel);
                        (c, out)
                    },
                    IdleAction::ApprovalResponse => {
                        out.push(WsAction::Approval);
                        (c, out)
                    },
                    IdleAction::Unknown => {
                        out.push(WsAction::Warn);
                        (c, out)
                    },
                }
            } else {
                match route_in_turn(mt.as_str(), text) {
                    TurnAction::Cancel => out.push(WsAction::Cancel),
                    TurnAction::ApprovalResponse => out.push(WsAction::Approval),
                    TurnAction::Steer(t) => {
                        let q = t.clone();
                        out.push(WsAction::Steer(t));
                        out.push(WsAction::Send(Wire::Queued(q)));
                    },
                    TurnAction::Ignore => {},
                    TurnAction::Unknown => out.push(WsAction::Warn),
                }
                (c, out)
            }
        },
        WsEvent::ClearFinished(e) => {
            if c.phase != Phase::Idle {
                return (c, out);
            }
            match e {
                None => {
                    out.push(WsAction::ResetUsage);
                    out.push(WsAction::Send(Wire::Content("(session cleared)".to_owned())));
                },
                Some(m) => {
                    let mut t = "clear failed: ".to_owned();
                    t.append(m.as_str());
                    out.push(WsAction::Send(Wire::Error(t)));
                },
            }
            out.push(WsAction::Send(Wire::Done));
            (Conn { phase: Phase::Idle, timed: false }, out)
        },
        WsEvent::TurnFinished(e) => {
            if c.phase != Phase::InTurn {
                return (c, out);
            }
            out.push(WsAction::ClearPending);
            out.push(WsAction::Send(Wire::Done));
            if let Some(m) = e {
                out.push(WsAction::Send(Wire::Error(m)));
            }
            (Conn { phase: Phase::Idle, timed: c.timed }, out)
        },
    }
}

// ---------------------------------------------------------------------------
// Usage counters and the turn summary
// ---------------------------------------------------------------------------

/// A connection's token counters, for the context view and the summary
/// after each turn.
#[derive(Debug, Clone, Copy, PartialEq, Eq, Structural)]
pub struct Usage {
    pub usage_in: u64,
    pub usage_out: u64,
    pub cache_read: u64,
    pub cache_write: u64,
    pub last_input_tokens: u64,
}

impl Usage {
    /// All zero.
    pub fn new() -> (r: Self)
        ensures
            r == (Usage { usage_in: 0, usage_out: 0, cache_read: 0, cache_write: 0, last_input_tokens: 0 }),
    {
        Usage { usage_in: 0, usage_out: 0, cache_read: 0, cache_write: 0, last_input_tokens: 0 }
    }

    /// Add a provider response's usage (unreported cache counts add 0); the
    /// last input size is the response's.
    pub fn add_response(&mut self, input: u64, output: u64, cache_read: Option<u64>, cache_write: Option<u64>)
        requires
            old(self).usage_in + input <= u64::MAX,
            old(self).usage_out + output <= u64::MAX,
            old(self).cache_read + match cache_read {
                Some(c) => c,
                None => 0,
            } <= u64::MAX,
            old(self).cache_write + match cache_write {
                Some(c) => c,
                None => 0,
            } <= u64::MAX,
        ensures
            final(self).usage_in == old(self).usage_in + input,
            final(self).usage_out == old(self).usage_out + output,
            final(self).cache_read == old(self).cache_read + match cache_read {
                Some(c) => c,
                None => 0,
            },
            final(self).cache_write == old(self).cache_write + match cache_write {
                Some(c) => c,
                None => 0,
            },
            final(self).last_input_tokens == input,
    {
        self.usage_in = self.usage_in + input;
        self.usage_out = self.usage_out + output;
        self.cache_read = self.cache_read + match cache_read {
            Some(c) => c,
            None => 0,
        };
        self.cache_write = self.cache_write + match cache_write {
            Some(c) => c,
            None => 0,
        };
        self.last_input_tokens = input;
    }

    /// Add a sub-agent's usage to the session totals; the last input size
    /// (the main loop's context budget) is untouched.
    pub fn add_subagent(&mut self, input: u64, output: u64, cache_read: u64, cache_write: u64)
        requires
            old(self).usage_in + input <= u64::MAX,
            old(self).usage_out + output <= u64::MAX,
            old(self).cache_read + cache_read <= u64::MAX,
            old(self).cache_write + cache_write <= u64::MAX,
        ensures
            final(self).usage_in == old(self).usage_in + input,
            final(self).usage_out == old(self).usage_out + output,
            final(self).cache_read == old(self).cache_read + cache_read,
            final(self).cache_write == old(self).cache_write + cache_write,
            final(self).last_input_tokens == old(self).last_input_tokens,
    {
        self.usage_in = self.usage_in + input;
        self.usage_out = self.usage_out + output;
        self.cache_read = self.cache_read + cache_read;
        self.cache_write = self.cache_write + cache_write;
    }

    /// `/clear` succeeded: every counter back to zero.
    pub fn reset(&mut self)
        ensures
            *final(self) == (Usage { usage_in: 0, usage_out: 0, cache_read: 0, cache_write: 0, last_input_tokens: 0 }),
    {
        *self = Usage::new();
    }
}

/// The `done` that closes a turn: with the usage summary when the turn's
/// elapsed time is known and positive, plain otherwise (slash-command
/// replies are not turns).
#[derive(Debug, Clone, Copy, PartialEq, Eq, Structural)]
pub enum Done {
    Plain,
    Summary { usage_in: u64, usage_out: u64, cache_read: u64, cache_write: u64, elapsed_ms: u64 },
}

/// The `done` for a turn boundary (see [`Done`]).
pub fn done_event(u: &Usage, elapsed_ms: Option<u64>) -> (r: Done)
    ensures
        match elapsed_ms {
            Some(e) => if e > 0 {
                r == Done::Summary {
                    usage_in: u.usage_in,
                    usage_out: u.usage_out,
                    cache_read: u.cache_read,
                    cache_write: u.cache_write,
                    elapsed_ms: e,
                }
            } else {
                r == Done::Plain
            },
            None => r == Done::Plain,
        },
{
    let e = match elapsed_ms {
        Some(e) => e,
        None => 0,
    };
    if e > 0 {
        Done::Summary {
            usage_in: u.usage_in,
            usage_out: u.usage_out,
            cache_read: u.cache_read,
            cache_write: u.cache_write,
            elapsed_ms: e,
        }
    } else {
        Done::Plain
    }
}

/// The tool names of the running turn, by tool call id: recorded when a
/// tool starts, forgotten at the turn boundary.
#[derive(Debug)]
pub struct ToolNames {
    pub calls: Vec<(String, String)>,
}

impl ToolNames {
    /// No tool call yet.
    pub fn new() -> (r: Self)
        ensures
            r.calls@.len() == 0,
    {
        ToolNames { calls: Vec::new() }
    }

    /// Record that call `id` runs tool `name`.
    pub fn started(&mut self, id: &str, name: &str)
        ensures
            pairs_view(final(self).calls@) == env_without(pairs_view(old(self).calls@), id@).push((id@, name@)),
    {
        env_set(&mut self.calls, id, name);
    }

    /// The tool of call `id`, if recorded this turn.
    pub fn name_of(&self, id: &str) -> (r: Option<String>)
        ensures
            match env_lookup(pairs_view(self.calls@), id@) {
                Some(n) => r matches Some(x) && x@ == n,
                None => r is None,
            },
    {
        env_get(&self.calls, id)
    }

    /// The turn ended.
    pub fn clear(&mut self)
        ensures
            final(self).calls@.len() == 0,
    {
        self.calls = Vec::new();
    }
}

// ---------------------------------------------------------------------------
// REST mapping
// ---------------------------------------------------------------------------

/// The HTTP status of a session-API failure.
pub fn status_of(e: &SessionApiError) -> (r: u16)
    ensures
        r == match e {
            SessionApiError::BadRequest(_) => 400u16,
            SessionApiError::NotFound(_) => 404u16,
            SessionApiError::Internal(_) => 500u16,
        },
{
    match e {
        SessionApiError::BadRequest(_) => 400,
        SessionApiError::NotFound(_) => 404,
        SessionApiError::Internal(_) => 500,
    }
}

/// The not-found message for a session key.
pub fn unknown_session_message(key: &str) -> (r: String)
    ensures
        r@ == "unknown session: "@ + key@,
{
    let mut m = "unknown session: ".to_owned();
    m.append(key);
    m
}

/// The number of search hits asked for: the `limit` parameter, else 20,
/// clamped to `1..=100`.
pub fn search_limit(limit: Option<usize>) -> (r: usize)
    ensures
        r == ({
            let l = match limit {
                Some(l) => l,
                None => 20,
            };
            if l < 1 {
                1
            } else if l > 100 {
                100
            } else {
                l
            }
        }),
{
    let l = match limit {
        Some(l) => l,
        None => 20,
    };
    if l < 1 {
        1
    } else if l > 100 {
        100
    } else {
        l
    }
}

/// A delete's outcome as the REST route reports it.
#[derive(Debug, Clone, Copy, PartialEq, Eq, Structural)]
pub enum DeleteOutcome {
    /// Refused (409): a live connection holds the session.
    Conflict,
    /// Deleted (200).
    Deleted,
    /// Nothing to delete (404).
    NotFound,
}

/// Decide a delete: a live session is never deleted under its running
/// connection; otherwise the store's answer (whether data existed) decides.
pub fn delete_outcome(connected: bool, removed: Option<bool>) -> (r: Option<DeleteOutcome>)
    ensures
        connected ==> r == Some(DeleteOutcome::Conflict),
        !connected ==> r == match removed {
            Some(true) => Some(DeleteOutcome::Deleted),
            Some(false) => Some(DeleteOutcome::NotFound),
            None => None::<DeleteOutcome>,
        },
{
    if connected {
        return Some(DeleteOutcome::Conflict);
    }
    match removed {
        Some(true) => Some(DeleteOutcome::Deleted),
        Some(false) => Some(DeleteOutcome::NotFound),
        None => None,
    }
}

/// Whether the gateway listens only on the loopback interface (anything
/// else exposes command execution to the network and is warned about).
pub fn is_loopback_host(host: &str) -> (r: bool)
    ensures
        r == (host@ == "127.0.0.1"@ || host@ == "localhost"@ || host@ == "::1"@),
{
    str_eq(host, "127.0.0.1") || str_eq(host, "localhost") || str_eq(host, "::1")
}

/// The cross-origin callers allowed by default: the frontend's dev server.
pub fn default_cors_origins() -> (r: Vec<String>)
    ensures
        r@.len() == 2,
        r@[0]@ == "http://localhost:1420"@,
        r@[1]@ == "http://127.0.0.1:1420"@,
{
    let mut v: Vec<String> = Vec::new();
    v.push("http://localhost:1420".to_owned());
    v.push("http://127.0.0.1:1420".to_owned());
    v
}

/// The extra origins of `CONGA_GATEWAY_CORS_ORIGINS` from the part of its
/// comma-separated list starting at `i`: each entry trimmed, blank ones
/// skipped.
pub open spec fn cors_entries_from(s: Seq<char>, i: int) -> Seq<Seq<char>>
    decreases s.len() - i,
{
    if i < 0 || i > s.len() {
        seq![]
    } else {
        let e = crate::auth::find_char(s, ',', i, s.len() as int);
        let t = trimmed(s.subrange(i, e));
        let head = if t.len() > 0 {
            seq![t]
        } else {
            seq![]
        };
        proof {
            crate::auth::lemma_find_char_bounds(s, ',', i, s.len() as int);
        }
        if e >= s.len() {
            head
        } else {
            head + cors_entries_from(s, e + 1)
        }
    }
}

/// The extra origins listed in `CONGA_GATEWAY_CORS_ORIGINS` (see
/// [`cors_entries_from`]); each is then parsed as a header value by the
/// caller, which skips (and warns about) those that do not parse.
pub fn cors_entries(s: &str) -> (r: Vec<String>)
    ensures
        r@.map_values(|x: String| x@) == cors_entries_from(s@, 0),
{
    let cs = chars_of(s);
    let n = cs.len();
    let mut out: Vec<String> = Vec::new();
    let mut start: usize = 0;
    assert(out@.map_values(|x: String| x@) =~= Seq::<Seq<char>>::empty());
    loop
        invariant
            cs@ == s@,
            n == cs.len(),
            0 <= start <= n,
            out@.map_values(|x: String| x@) + cors_entries_from(s@, start as int) == cors_entries_from(s@, 0),
        decreases n - start,
    {
        let mut e = start;
        while e < n && cs[e] != ','
            invariant
                cs@ == s@,
                n == cs.len(),
                start <= e <= n,
                crate::auth::find_char(s@, ',', e as int, n as int) == crate::auth::find_char(s@, ',', start as int, n as int),
            decreases n - e,
        {
            e = e + 1;
        }
        let (lo, hi) = crate::text::trim_bounds(&cs, start, e);
        let ghost before = out@.map_values(|x: String| x@);
        proof {
            crate::text::lemma_trimmed_sub(s@, start as int, e as int);
        }
        if lo < hi {
            let t = string_of(&cs, lo, hi);
            out.push(t);
            assert(out@.map_values(|x: String| x@) =~= before.push(t@));
        }
        if e >= n {
            assert(out@.map_values(|x: String| x@) =~= cors_entries_from(s@, 0));
            return out;
        }
        assert(out@.map_values(|x: String| x@) + cors_entries_from(s@, e + 1) =~= before + cors_entries_from(s@, start as int));
        start = e + 1;
    }
}

} // verus!
