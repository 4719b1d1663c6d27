use git_remote_iroh::bridge::{cancels_other, copy_end, forward_bidi, CopyEnd, CopyEvent};
use git_remote_iroh::helper::{check_status, connect_header};
use git_remote_iroh::proto::{Header, Service, Status, SECRET_LEN};
use git_remote_iroh::serve::{
    begin_notice, done_notice, handle_incoming, serve, session_event, session_result, short_id,
    status_for, verb, Refusal, ServeAction, ServeError, ServeEvent, ServeOpts, SessionCfg,
};
use git_remote_iroh::ticket::{Identity, RemoteUrl};
use iroh::SecretKey;

fn identity() -> Identity {
    Identity { key: SecretKey::from_bytes(&[1; 32]), secret: [2; SECRET_LEN] }
}

fn cfg(writable: bool) -> SessionCfg {
    ServeOpts { git_dir: "/repo/.git".to_string(), identity: identity(), writable, once: false }
        .session_cfg()
}

/// What a client learns that asks for `service` with the secret of `url`.
fn session(url: &RemoteUrl, service: Service, cfg: &SessionCfg) -> Result<(), String> {
    let mut request = Vec::new();
    connect_header(url, service, Some("version=2".to_string())).write(&mut request);
    let header = Header::read(&mut request.as_slice()).unwrap();
    let status = status_for(&handle_incoming(header, cfg));
    let mut answer = Vec::new();
    status.write(&mut answer);
    check_status(Status::read(&mut answer.as_slice()).unwrap()).map_err(|e| e.message())
}

#[test]
fn secret_grants_access() {
    let url = identity().short_url();
    assert_eq!(session(&url, Service::UploadPack, &cfg(false)), Ok(()));
    assert_eq!(session(&url, Service::UploadPack, &cfg(true)), Ok(()));
    assert_eq!(session(&url, Service::ReceivePack, &cfg(true)), Ok(()));
}

#[test]
fn read_only_push_is_denied() {
    let e = session(&identity().short_url(), Service::ReceivePack, &cfg(false)).unwrap_err();
    assert_eq!(e, "remote does not accept pushes; run `git-remote-iroh serve --writable` there");
    assert!(e.contains("--writable"));
}

#[test]
fn wrong_secret_is_rejected() {
    let mut url = identity().short_url();
    url.secret[0] ^= 1;
    for service in [Service::UploadPack, Service::ReceivePack] {
        for writable in [false, true] {
            let e = session(&url, service, &cfg(writable)).unwrap_err();
            assert_eq!(e, "remote rejected the secret in this URL");
        }
    }
}

fn header(service: Service) -> Header {
    Header { service, secret: [2; SECRET_LEN], git_protocol: Some("version=2".to_string()) }
}

#[test]
fn launch_of_an_accepted_session() {
    let launch = handle_incoming(header(Service::ReceivePack), &cfg(true)).ok().unwrap();
    assert_eq!(launch.subcommand, "receive-pack");
    assert_eq!(launch.git_dir, "/repo/.git");
    assert_eq!(launch.git_protocol.as_deref(), Some("version=2"));
}

#[test]
fn refusals_in_words() {
    let r = handle_incoming(header(Service::ReceivePack), &cfg(false)).err().unwrap();
    assert_eq!(r, Refusal::ReadOnly);
    assert_eq!(r.status(), Status::Denied);
    assert_eq!(r.message("abc"), "rejected push from abc: serving read-only (use --writable)");
    let mut h = header(Service::ReceivePack);
    h.secret[15] = 0;
    let r = handle_incoming(h, &cfg(false)).err().unwrap();
    assert_eq!(r, Refusal::WrongSecret);
    assert_eq!(r.status(), Status::BadAuth);
    assert_eq!(r.message("abc"), "rejected abc: wrong secret");
}

#[test]
fn notices() {
    assert_eq!(verb(Service::UploadPack), "fetch");
    assert_eq!(begin_notice(Service::UploadPack, "abc"), "fetch session from abc ...");
    assert_eq!(done_notice(Service::ReceivePack, "abc"), "push session from abc done");
}

#[test]
fn exit_status_decides() {
    assert_eq!(session_result(Service::UploadPack, true, "exit status: 0"), Ok(()));
    assert_eq!(
        session_result(Service::UploadPack, false, "exit status: 128"),
        Err("git upload-pack exited with exit status: 128".to_string())
    );
}

#[test]
fn short_ids() {
    assert_eq!(short_id("0123456789abcdef"), "0123456789");
    assert_eq!(short_id("0123456789"), "0123456789");
    assert_eq!(short_id("012"), "012");
    assert_eq!(short_id("ééééééééééé"), "éééééééééé");
}

#[test]
fn offer_is_read_only_and_once() {
    let opts = ServeOpts::offer("/repo/.git".to_string(), identity());
    assert!(!opts.writable);
    assert!(opts.once);
    assert_eq!(opts.git_dir, "/repo/.git");
    let cfg = opts.session_cfg().clone();
    assert!(!cfg.writable);
    assert_eq!(cfg.secret, [2; SECRET_LEN]);
}

#[test]
fn serving_once() {
    assert_eq!(serve(true, ServeEvent::Incoming), ServeAction::Attend);
    assert_eq!(serve(true, ServeEvent::SessionFailed), ServeAction::Listen);
    assert_eq!(serve(true, ServeEvent::SessionDone), ServeAction::Stop);
    assert_eq!(
        serve(true, ServeEvent::Interrupted),
        ServeAction::Abort(ServeError::Interrupted)
    );
    assert_eq!(
        serve(true, ServeEvent::Closed),
        ServeAction::Abort(ServeError::EndpointClosed)
    );
    assert_eq!(ServeError::Interrupted.message(), "interrupted");
    assert_eq!(
        ServeError::EndpointClosed.message(),
        "endpoint closed before a session succeeded"
    );
}

/// How serving ends with these events in turn, if it does, and after how many of them.
fn run(once: bool, events: &[ServeEvent]) -> Option<(Result<(), ServeError>, usize)> {
    for (i, event) in events.iter().enumerate() {
        match serve(once, *event) {
            ServeAction::Stop => return Some((Ok(()), i + 1)),
            ServeAction::Abort(e) => return Some((Err(e), i + 1)),
            ServeAction::Listen | ServeAction::Attend | ServeAction::Spawn => {}
        }
    }
    None
}

#[test]
fn once_reports_a_session() {
    let (closed, interrupted) = (ServeEvent::Closed, ServeEvent::Interrupted);
    let (incoming, failed) = (ServeEvent::Incoming, ServeEvent::SessionFailed);
    let all = [incoming, failed, incoming, ServeEvent::SessionDone, closed];
    assert_eq!(run(true, &all), Some((Ok(()), 4)));
    assert_eq!(run(true, &all[..3]), None);
    assert_eq!(run(true, &[closed]), Some((Err(ServeError::EndpointClosed), 1)));
    assert_eq!(
        run(true, &[incoming, failed, interrupted]),
        Some((Err(ServeError::Interrupted), 3))
    );
    assert_eq!(run(false, &all), Some((Ok(()), 5)));
}

#[test]
fn event_of_each_session() {
    let admitted = handle_incoming(header(Service::UploadPack), &cfg(false));
    let refused = handle_incoming(header(Service::ReceivePack), &cfg(false));
    assert_eq!(session_event(&admitted, true), ServeEvent::SessionDone);
    assert_eq!(session_event(&admitted, false), ServeEvent::SessionFailed);
    assert_eq!(session_event(&refused, true), ServeEvent::SessionFailed);
    assert_eq!(session_event(&refused, false), ServeEvent::SessionFailed);
}

#[test]
fn offer_ends_with_an_upload_pack_session() {
    let opts = ServeOpts::offer("/repo/.git".to_string(), identity());
    let mut stranger = header(Service::UploadPack);
    stranger.secret[0] ^= 1;
    let visits = [
        (stranger, true),
        (header(Service::ReceivePack), true),
        (header(Service::UploadPack), false),
        (header(Service::UploadPack), true),
        (header(Service::UploadPack), true),
    ];
    let mut events = Vec::new();
    for (header, exited_well) in visits {
        events.push(ServeEvent::Incoming);
        events.push(session_event(&handle_incoming(header, &opts.session_cfg()), exited_well));
    }
    assert_eq!(run(opts.once, &events), Some((Ok(()), 8)));
    assert_eq!(run(opts.once, &events[..6]), None);
}

#[test]
fn status_for_each_outcome() {
    assert_eq!(
        status_for(&handle_incoming(header(Service::UploadPack), &cfg(false))),
        Status::Accepted
    );
    assert_eq!(status_for(&Err(Refusal::WrongSecret)), Status::BadAuth);
    assert_eq!(status_for(&Err(Refusal::ReadOnly)), Status::Denied);
}

#[test]
fn serving_until_interrupted() {
    assert_eq!(serve(false, ServeEvent::Incoming), ServeAction::Spawn);
    assert_eq!(serve(false, ServeEvent::SessionFailed), ServeAction::Listen);
    assert_eq!(serve(false, ServeEvent::SessionDone), ServeAction::Listen);
    assert_eq!(serve(false, ServeEvent::Interrupted), ServeAction::Stop);
    assert_eq!(serve(false, ServeEvent::Closed), ServeAction::Stop);
}

#[test]
fn bridge_results() {
    assert_eq!(forward_bidi::<&str>(Ok(1), Ok(2)), Ok(()));
    assert_eq!(forward_bidi(Err("remote"), Err("local")), Err("remote"));
    assert_eq!(forward_bidi(Ok(1), Err("local")), Err("local"));
    assert_eq!(forward_bidi(Err("remote"), Ok(1)), Err("remote"));
}

#[test]
fn bridge_directions() {
    assert!(cancels_other(&Err::<u64, &str>("broken")));
    assert!(!cancels_other(&Ok::<u64, &str>(0)));
    assert!(matches!(copy_end::<&str>(CopyEvent::Finished(3)), CopyEnd::Close(3)));
    assert!(matches!(copy_end(CopyEvent::Failed("broken")), CopyEnd::Fail("broken")));
    assert!(matches!(copy_end::<&str>(CopyEvent::Cancelled), CopyEnd::Abort));
}
