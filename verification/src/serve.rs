//! The serving side: which sessions are let through to `git upload-pack` /
//! `git receive-pack` on this repository, and when serving ends.
use crate::proto::{secrets_match, Header, Service, Status, SECRET_LEN};
use crate::text;
use crate::ticket::Identity;
use vstd::prelude::*;

verus! {

/// What to serve, and how.
pub struct ServeOpts {
    pub git_dir: String,
    pub identity: Identity,
    pub writable: bool,
    /// Exit after the first successful session.
    pub once: bool,
}

/// What a session needs to know.
pub struct SessionCfg {
    pub git_dir: String,
    pub secret: [u8; SECRET_LEN],
    pub writable: bool,
}

impl Clone for SessionCfg {
    fn clone(&self) -> (r: Self)
        ensures
            r == *self,
    {
        SessionCfg { git_dir: self.git_dir.clone(), secret: self.secret, writable: self.writable }
    }
}

impl ServeOpts {
    /// Serving for one fetch, as offer mode does.
    pub fn offer(git_dir: String, identity: Identity) -> (r: ServeOpts)
        ensures
            r.git_dir == git_dir,
            r.identity == identity,
            !r.writable,
            r.once,
    {
        ServeOpts { git_dir, identity, writable: false, once: true }
    }

    /// What the sessions need to know.
    pub fn session_cfg(&self) -> (r: SessionCfg)
        ensures
            r.git_dir == self.git_dir,
            r.secret == self.identity.secret,
            r.writable == self.writable,
    {
        SessionCfg {
            git_dir: self.git_dir.clone(),
            secret: self.identity.secret,
            writable: self.writable,
        }
    }
}

/// What happens while serving.
#[derive(Debug, Clone, Copy, PartialEq, Eq, Structural)]
pub enum ServeEvent {
    /// Ctrl-C, while listening or during a session that is waited for.
    Interrupted,
    /// The endpoint accepts no more connections.
    Closed,
    /// A peer connects.
    Incoming,
    /// A session succeeded.
    SessionDone,
    /// A session failed.
    SessionFailed,
}

/// Why serving ended without the session that it was for.
#[derive(Debug, Clone, Copy, PartialEq, Eq, Structural)]
pub enum ServeError {
    Interrupted,
    EndpointClosed,
}

impl ServeError {
    /// The error in words.
    pub open spec fn words(self) -> Seq<char> {
        match self {
            ServeError::Interrupted => "interrupted"@,
            ServeError::EndpointClosed => "endpoint closed before a session succeeded"@,
        }
    }

    /// The error in words.
    pub fn message(self) -> (r: &'static str)
        ensures
            r@ == self.words(),
    {
        match self {
            ServeError::Interrupted => "interrupted",
            ServeError::EndpointClosed => "endpoint closed before a session succeeded",
        }
    }
}

/// What follows.
#[derive(Debug, Clone, Copy, PartialEq, Eq, Structural)]
pub enum ServeAction {
    /// Wait for the next event.
    Listen,
    /// Run the session, and wait for its end before listening again.
    Attend,
    /// Run the session on its own, and listen on.
    Spawn,
    /// Close the endpoint and report success.
    Stop,
    /// Close the endpoint and report the error.
    Abort(ServeError),
}

/// What follows an event.
pub open spec fn serve_action(once: bool, event: ServeEvent) -> ServeAction {
    match event {
        ServeEvent::Interrupted => if once {
            ServeAction::Abort(ServeError::Interrupted)
        } else {
            ServeAction::Stop
        },
        ServeEvent::Closed => if once {
            ServeAction::Abort(ServeError::EndpointClosed)
        } else {
            ServeAction::Stop
        },
        ServeEvent::Incoming => if once {
            ServeAction::Attend
        } else {
            ServeAction::Spawn
        },
        ServeEvent::SessionDone => if once {
            ServeAction::Stop
        } else {
            ServeAction::Listen
        },
        ServeEvent::SessionFailed => ServeAction::Listen,
    }
}

/// The event is a peer that connects or a session that fails.
pub open spec fn is_attempt(event: ServeEvent) -> bool {
    event == ServeEvent::Incoming || event == ServeEvent::SessionFailed
}

/// How serving ends when these events happen in turn; `None` while it goes on.
pub open spec fn serve_end(once: bool, events: Seq<ServeEvent>) -> Option<ServeAction>
    decreases events.len(),
{
    if events.len() == 0 {
        None
    } else {
        match serve_action(once, events[0]) {
            ServeAction::Stop => Some(ServeAction::Stop),
            ServeAction::Abort(e) => Some(ServeAction::Abort(e)),
            _ => serve_end(once, events.drop_first()),
        }
    }
}

/// Accept and handle sessions until Ctrl-C (or, with `once`, until one succeeds):
/// what follows an event. A failed attempt (wrong secret, aborted fetch) does not
/// consume the offer, and with `once` nothing but a session that succeeds is a success.
pub fn serve(once: bool, event: ServeEvent) -> (r: ServeAction)
    ensures
        r == serve_action(once, event),
{
    match event {
        ServeEvent::Interrupted => if once {
            ServeAction::Abort(ServeError::Interrupted)
        } else {
            ServeAction::Stop
        },
        ServeEvent::Closed => if once {
            ServeAction::Abort(ServeError::EndpointClosed)
        } else {
            ServeAction::Stop
        },
        ServeEvent::Incoming => if once {
            ServeAction::Attend
        } else {
            ServeAction::Spawn
        },
        ServeEvent::SessionDone => if once {
            ServeAction::Stop
        } else {
            ServeAction::Listen
        },
        ServeEvent::SessionFailed => ServeAction::Listen,
    }
}

/// Why a session is refused.
#[derive(Debug, Clone, Copy, PartialEq, Eq, Structural)]
pub enum Refusal {
    WrongSecret,
    ReadOnly,
}

impl Refusal {
    /// The status that the client is sent.
    pub open spec fn answer(self) -> Status {
        match self {
            Refusal::WrongSecret => Status::BadAuth,
            Refusal::ReadOnly => Status::Denied,
        }
    }

    /// The refusal in words.
    pub open spec fn words(self, remote: Seq<char>) -> Seq<char> {
        match self {
            Refusal::WrongSecret => "rejected "@ + remote + ": wrong secret"@,
            Refusal::ReadOnly => "rejected push from "@ + remote
                + ": serving read-only (use --writable)"@,
        }
    }

    /// The status that the client is sent.
    pub fn status(self) -> (r: Status)
        ensures
            r == self.answer(),
    {
        match self {
            Refusal::WrongSecret => Status::BadAuth,
            Refusal::ReadOnly => Status::Denied,
        }
    }

    /// The refusal in words, for the peer with the short id `remote`.
    pub fn message(self, remote: &str) -> (r: String)
        ensures
            r@ == self.words(remote@),
    {
        match self {
            Refusal::WrongSecret => {
                let s = text::join("rejected ", remote);
                text::join(s.as_str(), ": wrong secret")
            },
            Refusal::ReadOnly => {
                let s = text::join("rejected push from ", remote);
                text::join(s.as_str(), ": serving read-only (use --writable)")
            },
        }
    }
}

/// The git process that serves a session: `git`, the two arguments, and the value of
/// GIT_PROTOCOL in its environment.
pub struct Launch {
    pub subcommand: &'static str,
    pub git_dir: String,
    pub git_protocol: Option<String>,
}

/// Whether a request with this service and secret is let through, and why not.
pub open spec fn admission(
    service: Service,
    presented: Seq<u8>,
    secret: Seq<u8>,
    writable: bool,
) -> Option<Refusal> {
    if presented != secret {
        Some(Refusal::WrongSecret)
    } else if service == Service::ReceivePack && !writable {
        Some(Refusal::ReadOnly)
    } else {
        None
    }
}

/// The status that a client is sent: its request is accepted, or refused for a reason.
pub open spec fn status_of(refusal: Option<Refusal>) -> Status {
    match refusal {
        None => Status::Accepted,
        Some(refusal) => refusal.answer(),
    }
}

/// The refusal in the outcome of a request, where it was refused.
pub open spec fn refusal_in(outcome: Result<Launch, Refusal>) -> Option<Refusal> {
    match outcome {
        Ok(_) => None,
        Err(refusal) => Some(refusal),
    }
}

/// The status that a client is sent on the outcome of its request; where it was let
/// through, before any output of git.
pub fn status_for(outcome: &Result<Launch, Refusal>) -> (r: Status)
    ensures
        r == status_of(refusal_in(*outcome)),
        r == (match outcome {
            Ok(_) => Status::Accepted,
            Err(refusal) => refusal.answer(),
        }),
{
    match outcome {
        Ok(_) => Status::Accepted,
        Err(refusal) => refusal.status(),
    }
}

/// The answer to a client's header: the git process to spawn, or the refusal.
pub fn handle_incoming(header: Header, cfg: &SessionCfg) -> (r: Result<Launch, Refusal>)
    ensures
        refusal_in(r) == admission(header.service, header.secret@, cfg.secret@, cfg.writable),
        match admission(header.service, header.secret@, cfg.secret@, cfg.writable) {
            Some(refusal) => r == Err::<Launch, Refusal>(refusal),
            None => {
                &&& r matches Ok(l)
                &&& l.subcommand@ == header.service.subcommand()
                &&& l.git_dir == cfg.git_dir
                &&& l.git_protocol == header.git_protocol
            },
        },
{
    if !secrets_match(&header.secret, &cfg.secret) {
        return Err(Refusal::WrongSecret);
    }
    if header.service == Service::ReceivePack && !cfg.writable {
        return Err(Refusal::ReadOnly);
    }
    Ok(
        Launch {
            subcommand: header.service.git_subcommand(),
            git_dir: cfg.git_dir.clone(),
            git_protocol: header.git_protocol,
        },
    )
}

/// What a session does, in a word.
pub open spec fn verb_of(service: Service) -> Seq<char> {
    match service {
        Service::UploadPack => "fetch"@,
        Service::ReceivePack => "push"@,
    }
}

/// What a session does, in a word.
pub fn verb(service: Service) -> (r: &'static str)
    ensures
        r@ == verb_of(service),
{
    match service {
        Service::UploadPack => "fetch",
        Service::ReceivePack => "push",
    }
}

/// The notice that a session has begun.
pub fn begin_notice(service: Service, remote: &str) -> (r: String)
    ensures
        r@ == verb_of(service) + " session from "@ + remote@ + " ..."@,
{
    let mut s = text::join(verb(service), " session from ");
    s.append(remote);
    s.append(" ...");
    s
}

/// The notice that a session has ended well.
pub fn done_notice(service: Service, remote: &str) -> (r: String)
    ensures
        r@ == verb_of(service) + " session from "@ + remote@ + " done"@,
{
    let mut s = text::join(verb(service), " session from ");
    s.append(remote);
    s.append(" done");
    s
}

/// How a session went: the exit status of the git process decides, not the way in
/// which the bridge ended. `status` is the exit status in words.
pub fn session_result(service: Service, success: bool, status: &str) -> (r: Result<(), String>)
    ensures
        success <==> r is Ok,
        r matches Err(e) ==> e@ == "git "@ + service.subcommand() + " exited with "@ + status@,
{
    if success {
        Ok(())
    } else {
        let mut s = text::join("git ", service.git_subcommand());
        s.append(" exited with ");
        s.append(status);
        Err(s)
    }
}

/// What a session is to serving: a success where its request was not refused and its git
/// process exited well, and else a failure.
pub open spec fn event_of(refusal: Option<Refusal>, exited_well: bool) -> ServeEvent {
    if refusal is None && exited_well {
        ServeEvent::SessionDone
    } else {
        ServeEvent::SessionFailed
    }
}

/// What a session is to serving, from the outcome of its request and from whether its git
/// process exited well.
pub fn session_event(outcome: &Result<Launch, Refusal>, exited_well: bool) -> (r: ServeEvent)
    ensures
        r == event_of(refusal_in(*outcome), exited_well),
{
    match outcome {
        Ok(_) => if exited_well {
            ServeEvent::SessionDone
        } else {
            ServeEvent::SessionFailed
        },
        Err(_) => ServeEvent::SessionFailed,
    }
}

/// The first ten characters of an endpoint's id.
pub fn short_id(id: &str) -> (r: String)
    ensures
        r@ == (if id@.len() >= 10 {
            id@.take(10)
        } else {
            id@
        }),
{
    text::first_chars(id, 10)
}

/// A session is let through exactly where the client presents the served secret and
/// either fetches or finds the repository writable.
pub proof fn law_admission(service: Service, presented: Seq<u8>, secret: Seq<u8>, writable: bool)
    ensures
        admission(service, presented, secret, writable) is None <==> presented == secret && (service
            == Service::UploadPack || writable),
        admission(service, presented, secret, writable) == Some(Refusal::WrongSecret) <==> presented
            != secret,
        admission(service, presented, secret, writable) == Some(Refusal::ReadOnly) <==> presented
            == secret && service == Service::ReceivePack && !writable,
{
}

/// A refusal is answered with its own status and names the whole of the peer's short id.
pub proof fn law_refusals(remote: Seq<char>)
    ensures
        Refusal::WrongSecret.answer() == Status::BadAuth,
        Refusal::ReadOnly.answer() == Status::Denied,
        Refusal::WrongSecret.words(remote) == "rejected "@ + remote + ": wrong secret"@,
        Refusal::ReadOnly.words(remote) == "rejected push from "@ + remote
            + ": serving read-only (use --writable)"@,
{
}

/// The answer to a header, on the server itself: the secret decides first, byte for byte,
/// and then whether a push may go on; git gets the repository and the GIT_PROTOCOL value as
/// they are.
pub proof fn law_handle_incoming(header: Header, cfg: &SessionCfg, r: Result<Launch, Refusal>)
    requires
        call_ensures(handle_incoming, (header, cfg), r),
    ensures
        header.secret@ != cfg.secret@ ==> r == Err::<Launch, Refusal>(Refusal::WrongSecret),
        header.secret@ == cfg.secret@ && header.service == Service::ReceivePack && !cfg.writable
            ==> r == Err::<Launch, Refusal>(Refusal::ReadOnly),
        header.secret@ == cfg.secret@ && (header.service == Service::UploadPack || cfg.writable)
            ==> (r matches Ok(l) && l.git_dir == cfg.git_dir && l.git_protocol
            == header.git_protocol && l.subcommand@ == (if header.service == Service::UploadPack {
            "upload-pack"@
        } else {
            "receive-pack"@
        })),
{
}

/// Sessions that come and fail do not use up an offer: serving goes on as if they had
/// not been.
pub proof fn law_failed_sessions_do_not_count(
    once: bool,
    attempts: Seq<ServeEvent>,
    events: Seq<ServeEvent>,
)
    requires
        forall|i: int| 0 <= i < attempts.len() ==> is_attempt(#[trigger] attempts[i]),
    ensures
        serve_end(once, attempts + events) == serve_end(once, events),
    decreases attempts.len(),
{
    if attempts.len() == 0 {
        assert(attempts + events =~= events);
    } else {
        let all = attempts + events;
        assert(all[0] == attempts[0]);
        assert(all.drop_first() =~= attempts.drop_first() + events);
        law_failed_sessions_do_not_count(once, attempts.drop_first(), events);
    }
}

/// With `once`, serving ends well with the first session that succeeds, if neither an
/// interruption nor the end of the endpoint comes before it; without, no session ends
/// it.
pub proof fn law_first_success_ends_once(before: Seq<ServeEvent>, after: Seq<ServeEvent>)
    requires
        forall|i: int| 0 <= i < before.len() ==> is_attempt(#[trigger] before[i]),
    ensures
        serve_end(true, before + (seq![ServeEvent::SessionDone] + after)) == Some(
            ServeAction::Stop,
        ),
        serve_end(false, before + (seq![ServeEvent::SessionDone] + after)) == serve_end(
            false,
            after,
        ),
{
    let rest = seq![ServeEvent::SessionDone] + after;
    law_failed_sessions_do_not_count(true, before, rest);
    law_failed_sessions_do_not_count(false, before, rest);
    assert(rest.drop_first() =~= after);
}

/// With `once`, serving reports success only where a session succeeded: the events hold a
/// success, with nothing but attempts before it, and serving ended with it.
pub proof fn law_once_reports_a_session(events: Seq<ServeEvent>)
    requires
        serve_end(true, events) == Some(ServeAction::Stop),
    ensures
        exists|i: int|
            {
                &&& 0 <= i < events.len()
                &&& #[trigger] events[i] == ServeEvent::SessionDone
                &&& forall|j: int| 0 <= j < i ==> is_attempt(#[trigger] events[j])
                &&& serve_end(true, events.take(i)) is None
                &&& serve_end(true, events.take(i + 1)) == Some(ServeAction::Stop)
            },
    decreases events.len(),
{
    let rest = events.drop_first();
    if events[0] == ServeEvent::SessionDone {
        assert(events.take(1)[0] == events[0]);
    } else {
        law_once_reports_a_session(rest);
        let k = choose|k: int|
            {
                &&& 0 <= k < rest.len()
                &&& #[trigger] rest[k] == ServeEvent::SessionDone
                &&& forall|j: int| 0 <= j < k ==> is_attempt(#[trigger] rest[j])
                &&& serve_end(true, rest.take(k)) is None
                &&& serve_end(true, rest.take(k + 1)) == Some(ServeAction::Stop)
            };
        let i = k + 1;
        assert(events[i] == rest[k]);
        assert forall|j: int| 0 <= j < i implies is_attempt(#[trigger] events[j]) by {
            if j > 0 {
                assert(events[j] == rest[j - 1]);
            }
        }
        assert(events.take(i).drop_first() =~= rest.take(k));
        assert(events.take(i + 1).drop_first() =~= rest.take(k + 1));
    }
}

/// An interruption ends serving: with an error where a session was still awaited.
pub proof fn law_interruption_ends_serving(
    once: bool,
    before: Seq<ServeEvent>,
    after: Seq<ServeEvent>,
)
    requires
        forall|i: int| 0 <= i < before.len() ==> is_attempt(#[trigger] before[i]),
    ensures
        serve_end(once, before + (seq![ServeEvent::Interrupted] + after)) == Some(
            if once {
                ServeAction::Abort(ServeError::Interrupted)
            } else {
                ServeAction::Stop
            },
        ),
{
    law_failed_sessions_do_not_count(once, before, seq![ServeEvent::Interrupted] + after);
}

} // verus!
