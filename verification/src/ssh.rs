//! The decisions around the SSH connection to the target machine: where the
//! keys are, what goes into `known_hosts`, how a connection attempt proceeds
//! and what a remote command's exit status is.
use crate::text::{chars_of, occurs_at, occurs_at_exec, owned, push_text};
use vstd::prelude::*;

verus! {

/// The private key files looked for under the home directory `home`.
pub open spec fn key_paths_of(home: Seq<char>) -> Seq<Seq<char>> {
    seq![home + "/.ssh/id_rsa"@, home + "/.ssh/id_ed25519"@]
}

/// Possible private SSH key paths under the home directory `home`, in the
/// order they are tried.
pub fn get_key_paths(home: &str) -> (r: Vec<String>)
    ensures
        r@.len() == 2,
        forall|i: int| 0 <= i < 2 ==> #[trigger] r@[i]@ == key_paths_of(home@)[i],
        r@[0]@ == home@ + "/.ssh/id_rsa"@,
        r@[1]@ == home@ + "/.ssh/id_ed25519"@,
{
    let mut rsa = owned(home);
    push_text(&mut rsa, "/.ssh/id_rsa");
    let mut ed = owned(home);
    push_text(&mut ed, "/.ssh/id_ed25519");
    let mut r: Vec<String> = Vec::new();
    r.push(rsa);
    r.push(ed);
    r
}

/// The public key files that belong to the private keys of [`get_key_paths`],
/// in the order they are tried.
pub fn public_key_paths(home: &str) -> (r: Vec<String>)
    ensures
        r@.len() == 2,
        forall|i: int| 0 <= i < 2 ==> #[trigger] r@[i]@ == key_paths_of(home@)[i] + ".pub"@,
        r@[0]@ == home@ + "/.ssh/id_rsa"@ + ".pub"@,
        r@[1]@ == home@ + "/.ssh/id_ed25519"@ + ".pub"@,
{
    let paths = get_key_paths(home);
    let mut r: Vec<String> = Vec::new();
    let mut i: usize = 0;
    while i < paths.len()
        invariant
            paths@.len() == 2,
            forall|k: int| 0 <= k < 2 ==> #[trigger] paths@[k]@ == key_paths_of(home@)[k],
            i <= 2,
            r@.len() == i,
            forall|k: int| 0 <= k < i ==> #[trigger] r@[k]@ == key_paths_of(home@)[k] + ".pub"@,
        decreases 2 - i,
    {
        let mut p = paths[i].clone();
        push_text(&mut p, ".pub");
        r.push(p);
        i = i + 1;
    }
    r
}

/// The `known_hosts` line of a host key: address, key type and key in base64,
/// separated by single spaces.
pub open spec fn fingerprint_of(ip: Seq<char>, key_type: Seq<char>, key_base64: Seq<char>) -> Seq<
    char,
> {
    ip + " "@ + key_type + " "@ + key_base64
}

/// The `known_hosts` line for the host key of `ip`.
pub fn known_hosts_fingerprint(ip: &str, key_type: &str, key_base64: &str) -> (r: String)
    ensures
        r@ == fingerprint_of(ip@, key_type@, key_base64@),
{
    let mut r = owned(ip);
    push_text(&mut r, " ");
    push_text(&mut r, key_type);
    push_text(&mut r, " ");
    push_text(&mut r, key_base64);
    r
}

/// `p` is a whole line of `s` starting at index `i`: it occurs there, right
/// after the start of `s` or a newline, and right before a newline or the end.
pub open spec fn line_at(s: Seq<char>, p: Seq<char>, i: int) -> bool {
    &&& occurs_at(s, p, i)
    &&& (i == 0 || s[i - 1] == '\n')
    &&& (i + p.len() == s.len() || s[i + p.len()] == '\n')
}

/// Some line of `s` is exactly `p`.
pub open spec fn has_line(s: Seq<char>, p: Seq<char>) -> bool {
    exists|i: int| line_at(s, p, i)
}

/// Whether `p` is a whole line of `v` starting at `i`.
fn line_at_exec(v: &Vec<char>, p: &Vec<char>, i: usize) -> (b: bool)
    ensures
        b == line_at(v@, p@, i as int),
{
    let vl = v.len();
    if !occurs_at_exec(v, p, i) {
        return false;
    }
    let starts_line = i == 0 || v[i - 1] == '\n';
    let end = i + p.len();
    let ends_line = end == vl || v[end] == '\n';
    starts_line && ends_line
}

/// What to append to a `known_hosts` file with `contents` so that one of its
/// lines is `fingerprint`: nothing when one already is, else the fingerprint
/// followed by a newline.
pub fn known_hosts_addition(contents: &str, fingerprint: &str) -> (r: Option<String>)
    ensures
        r is None <==> has_line(contents@, fingerprint@),
        r matches Some(line) ==> line@ == fingerprint@ + "\n"@,
{
    let v = chars_of(contents);
    let w = chars_of(fingerprint);
    let n = v.len();
    let mut i: usize = 0;
    while i < n
        invariant
            n == v@.len(),
            v@ == contents@,
            w@ == fingerprint@,
            i <= n,
            forall|j: int| 0 <= j < i ==> !line_at(contents@, fingerprint@, j),
        decreases n - i,
    {
        if line_at_exec(&v, &w, i) {
            return None;
        }
        i = i + 1;
    }
    if line_at_exec(&v, &w, n) {
        None
    } else {
        assert forall|j: int| !line_at(contents@, fingerprint@, j) by {
            if 0 <= j && j < n {
            }
        }
        let mut line = owned(fingerprint);
        push_text(&mut line, "\n");
        Some(line)
    }
}

/// Adding a host key to a `known_hosts` file that is empty or ends with a
/// newline is idempotent: once the addition is appended, the fingerprint is a
/// line of the file, so a second attempt adds nothing.
pub proof fn lemma_known_hosts_idempotent(contents: Seq<char>, fingerprint: Seq<char>)
    requires
        contents.len() == 0 || contents.last() == '\n',
    ensures
        has_line(contents + (fingerprint + "\n"@), fingerprint),
{
    reveal_strlit("\n");
    let s = contents + (fingerprint + "\n"@);
    let i = contents.len() as int;
    assert(s.subrange(i, i + fingerprint.len()) =~= fingerprint);
    assert(s[i + fingerprint.len()] == '\n');
    assert(line_at(s, fingerprint, i));
}

/// Where a connection attempt to the target machine stands.
#[derive(Debug, Clone, Copy, PartialEq, Eq, Structural)]
pub enum SessionPhase {
    Connecting,
    Authenticating,
    OpeningChannel,
    Established,
}

/// What the last step of a connection attempt gave.
#[derive(Debug, Clone, Copy, PartialEq, Eq, Structural)]
pub enum SessionEvent {
    ConnectFailed,
    Connected,
    Authenticated(bool),
    ChannelOpened,
    ChannelFailed,
}

/// What to do next.
#[derive(Debug, Clone, Copy, PartialEq, Eq, Structural)]
pub enum SessionAction {
    Connect,
    Authenticate,
    OpenChannel,
    UseChannel,
}

/// The events that can follow the action taken in `phase`.
pub open spec fn event_expected(phase: SessionPhase, event: SessionEvent) -> bool {
    match phase {
        SessionPhase::Connecting => event is ConnectFailed || event is Connected,
        SessionPhase::Authenticating => event is Authenticated,
        SessionPhase::OpeningChannel => event is ChannelOpened || event is ChannelFailed,
        SessionPhase::Established => false,
    }
}

/// The next phase and action: a failed connection is retried, a rejected
/// key or a failed channel starts over with a new connection, and the channel
/// is used once it is open.
pub open spec fn session_next(phase: SessionPhase, event: SessionEvent) -> (
    SessionPhase,
    SessionAction,
) {
    match event {
        SessionEvent::ConnectFailed => (SessionPhase::Connecting, SessionAction::Connect),
        SessionEvent::Connected => (SessionPhase::Authenticating, SessionAction::Authenticate),
        SessionEvent::Authenticated(true) => (
            SessionPhase::OpeningChannel,
            SessionAction::OpenChannel,
        ),
        SessionEvent::Authenticated(false) => (SessionPhase::Connecting, SessionAction::Connect),
        SessionEvent::ChannelOpened => (SessionPhase::Established, SessionAction::UseChannel),
        SessionEvent::ChannelFailed => (SessionPhase::Connecting, SessionAction::Connect),
    }
}

/// The first phase and action of a connection attempt.
pub fn session_start() -> (r: (SessionPhase, SessionAction))
    ensures
        r == (SessionPhase::Connecting, SessionAction::Connect),
{
    (SessionPhase::Connecting, SessionAction::Connect)
}

/// One step of the connection attempt.
pub fn session_step(phase: SessionPhase, event: SessionEvent) -> (r: (SessionPhase, SessionAction))
    requires
        event_expected(phase, event),
    ensures
        r == session_next(phase, event),
        event is Connected ==> r == (SessionPhase::Authenticating, SessionAction::Authenticate),
        event == SessionEvent::Authenticated(true) ==> r == (
            SessionPhase::OpeningChannel,
            SessionAction::OpenChannel,
        ),
        event is ChannelOpened ==> r == (SessionPhase::Established, SessionAction::UseChannel),
        event is ConnectFailed || event == SessionEvent::Authenticated(false) || event is ChannelFailed
            ==> r == (SessionPhase::Connecting, SessionAction::Connect),
{
    match event {
        SessionEvent::ConnectFailed => (SessionPhase::Connecting, SessionAction::Connect),
        SessionEvent::Connected => (SessionPhase::Authenticating, SessionAction::Authenticate),
        SessionEvent::Authenticated(accepted) => {
            if accepted {
                (SessionPhase::OpeningChannel, SessionAction::OpenChannel)
            } else {
                (SessionPhase::Connecting, SessionAction::Connect)
            }
        },
        SessionEvent::ChannelOpened => (SessionPhase::Established, SessionAction::UseChannel),
        SessionEvent::ChannelFailed => (SessionPhase::Connecting, SessionAction::Connect),
    }
}

/// Every step leads to an expected next event except once established, and
/// a connection is established only right after a channel opened on an
/// authenticated connection; anything else that fails starts over.
pub proof fn lemma_session_progress(phase: SessionPhase, event: SessionEvent)
    requires
        event_expected(phase, event),
    ensures
        session_next(phase, event).0 is Established ==> phase is OpeningChannel
            && event is ChannelOpened,
        session_next(phase, event).1 is UseChannel <==> session_next(phase, event).0 is Established,
        session_next(phase, event).1 is Connect <==> session_next(phase, event).0 is Connecting,
        session_next(phase, event).1 is Authenticate <==> session_next(phase, event).0 is Authenticating,
        session_next(phase, event).1 is OpenChannel <==> session_next(phase, event).0 is OpeningChannel,
        event is Connected ==> session_next(phase, event) == (
            SessionPhase::Authenticating,
            SessionAction::Authenticate,
        ),
        event == SessionEvent::Authenticated(true) ==> session_next(phase, event) == (
            SessionPhase::OpeningChannel,
            SessionAction::OpenChannel,
        ),
        event is ConnectFailed || event == SessionEvent::Authenticated(false) || event is ChannelFailed
            ==> session_next(phase, event) == (SessionPhase::Connecting, SessionAction::Connect),
        !(session_next(phase, event).0 is Established) ==> exists|e: SessionEvent|
            event_expected(session_next(phase, event).0, e),
        session_next(phase, event).1 is Connect ==> event_expected(
            session_next(phase, event).0,
            SessionEvent::Connected,
        ) && event_expected(session_next(phase, event).0, SessionEvent::ConnectFailed),
        session_next(phase, event).1 is Authenticate ==> event_expected(
            session_next(phase, event).0,
            SessionEvent::Authenticated(true),
        ) && event_expected(session_next(phase, event).0, SessionEvent::Authenticated(false)),
        session_next(phase, event).1 is OpenChannel ==> event_expected(
            session_next(phase, event).0,
            SessionEvent::ChannelOpened,
        ) && event_expected(session_next(phase, event).0, SessionEvent::ChannelFailed),
{
    let next = session_next(phase, event).0;
    match next {
        SessionPhase::Connecting => {
            assert(event_expected(next, SessionEvent::Connected));
        },
        SessionPhase::Authenticating => {
            assert(event_expected(next, SessionEvent::Authenticated(true)));
        },
        SessionPhase::OpeningChannel => {
            assert(event_expected(next, SessionEvent::ChannelOpened));
        },
        SessionPhase::Established => {},
    }
}

/// An event on the channel of a remote command.
#[derive(Debug)]
pub enum ChannelEvent {
    /// Output of the command, to be shown.
    Data(Vec<u8>),
    /// The exit status of the command.
    ExitStatus(u32),
    /// Anything else.
    Other,
}

/// The exit status known after `event`, given the one known before.
pub open spec fn status_after(code: Option<u32>, event: ChannelEvent) -> Option<u32> {
    match event {
        ChannelEvent::ExitStatus(s) => Some(s),
        _ => code,
    }
}

/// The exit status known after a run of events.
pub open spec fn status_after_all(code: Option<u32>, events: Seq<ChannelEvent>) -> Option<u32>
    decreases events.len(),
{
    if events.len() == 0 {
        code
    } else {
        status_after(status_after_all(code, events.drop_last()), events.last())
    }
}

/// The last exit status among `events`, if any.
pub open spec fn last_exit_status(events: Seq<ChannelEvent>) -> Option<u32>
    decreases events.len(),
{
    if events.len() == 0 {
        None
    } else {
        match events.last() {
            ChannelEvent::ExitStatus(s) => Some(s),
            _ => last_exit_status(events.drop_last()),
        }
    }
}

/// Handles one event of a remote command: output is handed back to be shown,
/// an exit status is remembered, and the channel is read to its end, so the
/// status that counts is the last one received.
pub fn call_step(code: Option<u32>, event: ChannelEvent) -> (r: (Option<u32>, Option<Vec<u8>>))
    ensures
        r.0 == status_after(code, event),
        event matches ChannelEvent::ExitStatus(s) ==> r.0 == Some(s),
        !(event is ExitStatus) ==> r.0 == code,
        event matches ChannelEvent::Data(d) ==> r.1 == Some(d),
        !(event is Data) ==> r.1 is None,
{
    match event {
        ChannelEvent::Data(d) => (code, Some(d)),
        ChannelEvent::ExitStatus(s) => (Some(s), None),
        ChannelEvent::Other => (code, None),
    }
}

/// Reading a command's channel to its end yields the last exit status it
/// sent, and none when it sent none.
pub proof fn lemma_call_reports_last_status(events: Seq<ChannelEvent>)
    ensures
        status_after_all(None, events) == last_exit_status(events),
    decreases events.len(),
{
    if events.len() > 0 {
        lemma_call_reports_last_status(events.drop_last());
    }
}

} // verus!
