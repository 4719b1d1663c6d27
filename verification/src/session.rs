//! Sessions from end to end: what becomes of a client's request at the server, what the
//! client learns of it, and which session ends an offer.
use crate::helper::{forwarded, verdict, HelperError};
use crate::proto::{
    encode_header, law_empty_git_protocol_is_absent, law_header_round_trip,
    law_status_round_trip, parse_header, parse_status, status_byte, HeaderError, HeaderView,
    Service, Status, SECRET_LEN,
};
use crate::serve::{
    admission, event_of, is_attempt, law_failed_sessions_do_not_count, law_first_success_ends_once,
    serve_end, status_of, Refusal, ServeAction, ServeEvent,
};
use vstd::prelude::*;

verus! {

/// The header that a client sends.
pub open spec fn request(service: Service, secret: Seq<u8>, env: Option<Seq<char>>) -> HeaderView {
    HeaderView { service, secret, git_protocol: forwarded(env) }
}

/// The bytes with which the server answers the bytes `s` of a stream: none where they
/// hold no header.
pub open spec fn answer(s: Seq<u8>, served: Seq<u8>, writable: bool) -> Seq<u8> {
    match parse_header(s).0 {
        Ok(h) => seq![status_byte(status_of(admission(h.service, h.secret, served, writable)))],
        Err(_) => Seq::empty(),
    }
}

/// What the client makes of the server's answer, where it can be read.
pub open spec fn learned(answer: Seq<u8>) -> Option<Result<(), HelperError>> {
    match parse_status(answer) {
        Ok(status) => Some(verdict(status)),
        Err(_) => None,
    }
}

/// `part` occurs in `s`.
pub open spec fn mentions(s: Seq<char>, part: Seq<char>) -> bool {
    exists|i: int|
        0 <= i <= s.len() - part.len() && #[trigger] s.subrange(i, i + part.len()) == part
}

/// The server reads every request as it was meant, whatever the environment of the
/// client holds: the service, the secret, and the GIT_PROTOCOL value where it is valid
/// and not empty. It takes the bytes of the request and no more.
pub proof fn law_request_is_understood(
    service: Service,
    secret: Seq<u8>,
    env: Option<Seq<char>>,
    rest: Seq<u8>,
)
    requires
        secret.len() == SECRET_LEN,
    ensures
        ({
            let bytes = encode_header(request(service, secret, env));
            parse_header(bytes + rest) == (
                Ok::<HeaderView, HeaderError>(
                    HeaderView {
                        service,
                        secret,
                        git_protocol: match forwarded(env) {
                            Some(s) => if s.len() > 0 {
                                Some(s)
                            } else {
                                None
                            },
                            None => None,
                        },
                    },
                ),
                bytes.len() as int,
            )
        }),
{
    let h = request(service, secret, env);
    if forwarded(env) matches Some(s) && s.len() == 0 {
        let plain = HeaderView { git_protocol: None, ..h };
        assert(forwarded(env).unwrap() =~= Seq::<char>::empty());
        law_empty_git_protocol_is_absent(h);
        law_header_round_trip(plain, rest);
    } else {
        law_header_round_trip(h, rest);
    }
}

/// Whoever presents the served secret can fetch, and push where the repository is
/// served writable.
pub proof fn law_secret_grants_access(
    service: Service,
    secret: Seq<u8>,
    env: Option<Seq<char>>,
    writable: bool,
    rest: Seq<u8>,
)
    requires
        secret.len() == SECRET_LEN,
        service == Service::UploadPack || writable,
    ensures
        learned(answer(encode_header(request(service, secret, env)) + rest, secret, writable))
            == Some(Ok::<(), HelperError>(())),
{
    law_request_is_understood(service, secret, env, rest);
    law_status_round_trip(Status::Accepted, Seq::empty());
}

/// Whoever presents another secret is refused and told so, for either service and
/// whether or not the repository is served writable.
pub proof fn law_wrong_secret_is_rejected(
    service: Service,
    presented: Seq<u8>,
    served: Seq<u8>,
    env: Option<Seq<char>>,
    writable: bool,
    rest: Seq<u8>,
)
    requires
        presented.len() == SECRET_LEN,
        presented != served,
    ensures
        learned(answer(encode_header(request(service, presented, env)) + rest, served, writable))
            == Some(Err::<(), HelperError>(HelperError::SecretRejected)),
{
    law_request_is_understood(service, presented, env, rest);
    law_status_round_trip(Refusal::WrongSecret.answer(), Seq::empty());
}

/// A push to a repository that is served read-only is refused, and the client's words
/// name the option that would have let it through.
pub proof fn law_read_only_push_is_denied(secret: Seq<u8>, env: Option<Seq<char>>, rest: Seq<u8>)
    requires
        secret.len() == SECRET_LEN,
    ensures
        learned(
            answer(
                encode_header(request(Service::ReceivePack, secret, env)) + rest,
                secret,
                false,
            ),
        ) == Some(Err::<(), HelperError>(HelperError::PushDenied)),
        mentions(HelperError::PushDenied.words(), "--writable"@),
{
    law_request_is_understood(Service::ReceivePack, secret, env, rest);
    law_status_round_trip(Refusal::ReadOnly.answer(), Seq::empty());
    reveal_strlit("--writable");
    reveal_strlit("remote does not accept pushes; run `git-remote-iroh serve --writable` there");
    let w = HelperError::PushDenied.words();
    assert(w.subrange(58, 58 + "--writable"@.len() as int) =~= "--writable"@);
}

/// A session in a series: the bytes of the client's stream, and whether the git process
/// exited well, where one was spawned.
pub struct Visit {
    pub stream: Seq<u8>,
    pub exited_well: bool,
}

/// What a session is to serving.
pub open spec fn visit_event(v: Visit, secret: Seq<u8>, writable: bool) -> ServeEvent {
    match parse_header(v.stream).0 {
        Ok(h) => event_of(admission(h.service, h.secret, secret, writable), v.exited_well),
        Err(_) => ServeEvent::SessionFailed,
    }
}

/// The session succeeds: its header can be read and is let through, and its git process
/// exits well.
pub open spec fn succeeds(v: Visit, secret: Seq<u8>, writable: bool) -> bool {
    &&& parse_header(v.stream).0 matches Ok(h)
    &&& admission(h.service, h.secret, secret, writable) is None
    &&& v.exited_well
}

/// What happens while serving where these sessions come in turn.
pub open spec fn visit_events(visits: Seq<Visit>, secret: Seq<u8>, writable: bool) -> Seq<
    ServeEvent,
>
    decreases visits.len(),
{
    if visits.len() == 0 {
        Seq::empty()
    } else {
        visit_events(visits.drop_last(), secret, writable) + seq![
            ServeEvent::Incoming,
            visit_event(visits.last(), secret, writable),
        ]
    }
}

/// Sessions that do not succeed are attempts to serving, and do not end it.
proof fn lemma_visits_fail(visits: Seq<Visit>, secret: Seq<u8>, writable: bool)
    requires
        forall|i: int| 0 <= i < visits.len() ==> !succeeds(#[trigger] visits[i], secret, writable),
    ensures
        forall|i: int|
            0 <= i < visit_events(visits, secret, writable).len() ==> is_attempt(
                #[trigger] visit_events(visits, secret, writable)[i],
            ),
        serve_end(true, visit_events(visits, secret, writable)) is None,
    decreases visits.len(),
{
    let events = visit_events(visits, secret, writable);
    if visits.len() > 0 {
        lemma_visits_fail(visits.drop_last(), secret, writable);
        assert(!succeeds(visits[visits.len() - 1], secret, writable));
    }
    assert(events + Seq::<ServeEvent>::empty() =~= events);
    law_failed_sessions_do_not_count(true, events, Seq::empty());
}

/// The events of a series of sessions begin with those of its first sessions.
proof fn lemma_first_visits(visits: Seq<Visit>, n: int, secret: Seq<u8>, writable: bool) -> (after:
    Seq<ServeEvent>)
    requires
        0 <= n <= visits.len(),
    ensures
        visit_events(visits, secret, writable) == visit_events(visits.take(n), secret, writable)
            + after,
    decreases visits.len() - n,
{
    let events = visit_events(visits, secret, writable);
    if n == visits.len() {
        assert(visits.take(n) =~= visits);
        assert(events =~= events + Seq::<ServeEvent>::empty());
        Seq::empty()
    } else {
        let rest = lemma_first_visits(visits, n + 1, secret, writable);
        let next = visit_event(visits[n], secret, writable);
        assert(visits.take(n + 1).drop_last() =~= visits.take(n));
        let after = seq![ServeEvent::Incoming, next] + rest;
        assert(events =~= visit_events(visits.take(n), secret, writable) + after);
        after
    }
}

/// An offer serves read-only and once. It goes on while no session succeeds.
pub proof fn law_offer_waits_for_a_session(visits: Seq<Visit>, secret: Seq<u8>)
    requires
        forall|i: int| 0 <= i < visits.len() ==> !succeeds(#[trigger] visits[i], secret, false),
    ensures
        serve_end(true, visit_events(visits, secret, false)) is None,
{
    lemma_visits_fail(visits, secret, false);
}

/// An offer serves read-only and once. It reports success exactly at the first session that
/// succeeds, and that is an upload-pack session of a peer with the secret. Whether the peer
/// fetched or only listed the refs, git does not tell.
pub proof fn law_offer_ends_with_an_upload_pack_session(
    visits: Seq<Visit>,
    secret: Seq<u8>,
    first: int,
)
    requires
        0 <= first < visits.len(),
        succeeds(visits[first], secret, false),
        forall|i: int| 0 <= i < first ==> !succeeds(#[trigger] visits[i], secret, false),
    ensures
        serve_end(true, visit_events(visits.take(first), secret, false)) is None,
        serve_end(true, visit_events(visits.take(first + 1), secret, false)) == Some(
            ServeAction::Stop,
        ),
        serve_end(true, visit_events(visits, secret, false)) == Some(ServeAction::Stop),
        parse_header(visits[first].stream).0 matches Ok(h) && h.service == Service::UploadPack
            && h.secret == secret,
{
    let before = visits.take(first);
    let till = visits.take(first + 1);
    let failed = visit_events(before, secret, false);
    assert forall|i: int| 0 <= i < before.len() implies !succeeds(
        #[trigger] before[i],
        secret,
        false,
    ) by {
        assert(before[i] == visits[i]);
    }
    lemma_visits_fail(before, secret, false);
    assert(till.drop_last() =~= before);
    let after = lemma_first_visits(visits, first + 1, secret, false);
    let attempts = failed.push(ServeEvent::Incoming);
    let done = seq![ServeEvent::SessionDone];
    law_first_success_ends_once(attempts, Seq::empty());
    law_first_success_ends_once(attempts, after);
    assert(visit_events(till, secret, false) =~= attempts + (done + Seq::empty()));
    assert(visit_events(visits, secret, false) =~= attempts + (done + after));
}

} // verus!
