use git_remote_iroh::cli::{
    bounce_hint, git_stdout, has_working_tree, is_helper_call, push_will_bounce, serve_notice,
};
use git_remote_iroh::helper::{
    connect_header, connect_mode, offer_mode, offer_notice, read_command, run, CommandProgress,
    CommandReader, ConnectStep, HelperError, Mode, OfferAction, OfferState, CONNECTED,
};
use git_remote_iroh::proto::{Service, SECRET_LEN};
use git_remote_iroh::ticket::{git_dir, GitDirError, RemoteUrl, UrlError};
use iroh::{EndpointAddr, SecretKey};

fn some_url() -> RemoteUrl {
    let addr = EndpointAddr::new(SecretKey::from_bytes(&[1; 32]).public());
    RemoteUrl::of_endpoint(addr, [3; SECRET_LEN])
}

#[test]
fn url_selects_the_mode() {
    assert!(matches!(run("iroh://"), Ok(Mode::Offer)));
    let Ok(Mode::Connect(u)) = run(&some_url().to_string()) else {
        panic!("not connect mode");
    };
    assert_eq!(u.ticket, some_url().ticket);
    assert_eq!(u.secret, [3; SECRET_LEN]);
    assert!(matches!(run("ssh://"), Err(UrlError::NotIroh(_))));
}

#[test]
fn commands_are_read_line_by_line() {
    let mut r: &[u8] = b"capabilities\n\nconnect git-upload-pack\nraw\nbytes";
    assert_eq!(read_command(&mut r).unwrap().as_deref(), Some("capabilities"));
    assert_eq!(read_command(&mut r).unwrap().as_deref(), Some(""));
    assert_eq!(read_command(&mut r).unwrap().as_deref(), Some("connect git-upload-pack"));
    assert_eq!(r, b"raw\nbytes");
}

#[test]
fn last_line_needs_no_newline() {
    let mut r: &[u8] = b"push a";
    assert_eq!(read_command(&mut r).unwrap().as_deref(), Some("push a"));
    assert_eq!(read_command(&mut r).unwrap(), None);
    assert_eq!(read_command(&mut r).unwrap(), None);
}

#[test]
fn line_that_is_not_utf8() {
    let mut r: &[u8] = b"ab\xff\nnext";
    let e = read_command(&mut r).unwrap_err();
    assert_eq!(e.to_string(), "invalid utf-8 sequence of 1 bytes from index 2");
    assert_eq!(r, b"next");
}

#[test]
fn command_byte_by_byte() {
    let mut reader = CommandReader::new();
    for b in b"ab" {
        reader = match reader.step(Some(*b)) {
            CommandProgress::More(next) => next,
            CommandProgress::Done(_) => panic!("too early"),
        };
    }
    assert_eq!(reader.line, b"ab");
    assert!(matches!(
        reader.step(Some(b'\n')),
        CommandProgress::Done(Ok(Some(s))) if s == "ab"
    ));
    assert!(matches!(CommandReader::new().step(None), CommandProgress::Done(Ok(None))));
}

#[test]
fn connect_mode_commands() {
    assert!(matches!(connect_mode(None), Ok(ConnectStep::Finish)));
    assert!(matches!(connect_mode(Some("")), Ok(ConnectStep::Ignore)));
    assert!(matches!(
        connect_mode(Some("capabilities")),
        Ok(ConnectStep::Reply("connect\n\n"))
    ));
    assert!(matches!(
        connect_mode(Some("connect git-upload-pack")),
        Ok(ConnectStep::Connect(Service::UploadPack))
    ));
    assert!(matches!(
        connect_mode(Some("connect git-receive-pack")),
        Ok(ConnectStep::Connect(Service::ReceivePack))
    ));
    assert_eq!(CONNECTED, "\n");
}

#[test]
fn connect_leads_to_the_service() {
    for (service, name) in
        [(Service::UploadPack, "upload-pack"), (Service::ReceivePack, "receive-pack")]
    {
        let last = format!("connect git-{name}");
        let mut connected = None;
        for cmd in ["capabilities", "", "capabilities", last.as_str()] {
            match connect_mode(Some(cmd)).unwrap() {
                ConnectStep::Connect(s) => connected = Some(s),
                ConnectStep::Reply(_) | ConnectStep::Ignore => assert!(connected.is_none()),
                ConnectStep::Finish => panic!("finished early"),
            }
        }
        assert_eq!(connected, Some(service));
    }
}

#[test]
fn connect_mode_errors() {
    let e = connect_mode(Some("fetch x")).err().unwrap();
    assert!(matches!(&e, HelperError::UnsupportedCommand(c) if c == "fetch x"));
    assert_eq!(e.message(), "unsupported helper command: fetch x");
    let e = connect_mode(Some("connect git-upload-archive")).err().unwrap();
    assert!(matches!(&e, HelperError::UnsupportedService(s) if s == "git-upload-archive"));
    assert_eq!(e.message(), "unsupported service: git-upload-archive");
}

#[test]
fn only_valid_git_protocol_is_forwarded() {
    let header = |gp: Option<&str>| {
        connect_header(&some_url(), Service::UploadPack, gp.map(|s| s.to_string()))
    };
    let h = header(Some("version=2"));
    assert_eq!(h.service, Service::UploadPack);
    assert_eq!(h.secret, [3; SECRET_LEN]);
    assert_eq!(h.git_protocol.as_deref(), Some("version=2"));
    assert_eq!(header(Some("a\tb")).git_protocol, None);
    assert_eq!(header(None).git_protocol, None);
}

/// Runs offer mode over the commands; returns what it writes, with `<offer>` where it
/// serves the repository.
fn offer(lines: &[&str]) -> Result<String, HelperError> {
    let mut out = String::new();
    let mut state = OfferState::Idle;
    let mut lines = lines.iter();
    loop {
        let (next, action) = offer_mode(state, lines.next().copied())?;
        state = next;
        match action {
            OfferAction::Continue => {}
            OfferAction::Reply(t) => out.push_str(t),
            OfferAction::Offer { report } => {
                out.push_str("<offer>");
                out.push_str(&report);
            }
            OfferAction::Finish => return Ok(out),
        }
    }
}

#[test]
fn offer_mode_dialogue() {
    assert_eq!(
        offer(&["capabilities", "list for-push", "push refs/heads/main:refs/heads/main", "", ""])
            .unwrap(),
        "push\n\n\n<offer>ok refs/heads/main\n\n"
    );
}

#[test]
fn offer_mode_batch() {
    assert_eq!(
        offer(&["push +a:b", "push c", "push d:e:f", "", "push g:h"]).unwrap(),
        "<offer>ok b\nok c\nok f\n\n<offer>ok h\n\n"
    );
    assert_eq!(offer(&[]).unwrap(), "");
    assert_eq!(offer(&["push x:"]).unwrap(), "<offer>ok \n\n");
}

#[test]
fn offer_mode_errors() {
    let e = offer(&["list"]).unwrap_err();
    assert_eq!(e.message(), "unsupported helper command: list");
    let e = offer(&["push a:b", "capabilities"]).unwrap_err();
    assert!(matches!(&e, HelperError::UnexpectedInBatch(c) if c == "capabilities"));
    assert_eq!(e.message(), "unexpected command in push batch: capabilities");
}

#[test]
fn notices_for_the_user() {
    assert_eq!(
        offer_notice("U"),
        "\nOffering this repository for one fetch over iroh.\nOn the other machine, run one \
         of:\n\n    git clone U\n    git pull U <branch>\n\nWaiting for the peer (Ctrl-C to abort) \
         ...\n"
    );
    assert_eq!(
        serve_notice("U"),
        "\nServing this repository over iroh. On another machine:\n\n    git clone U\n    git \
         remote add <name> U\n\nWaiting for peers (Ctrl-C to stop) ...\n"
    );
    assert_eq!(bounce_hint().lines().count(), 3);
    assert!(bounce_hint().ends_with("git config receive.denyCurrentBranch updateInstead\n"));
}

#[test]
fn helper_calls() {
    let call = |args: &[&str]| {
        is_helper_call(&args.iter().map(|s| s.to_string()).collect::<Vec<String>>())
    };
    assert!(call(&["git-remote-iroh", "origin", "iroh://x"]));
    assert!(!call(&["git-remote-iroh", "serve", "--once"]));
    assert!(!call(&["git-remote-iroh", "iroh://x"]));
    assert!(!call(&["git-remote-iroh", "a", "iroh://x", "b"]));
}

#[test]
fn output_of_git() {
    assert_eq!(git_dir(true, b"/repo/.git\n".to_vec()).unwrap(), "/repo/.git");
    assert_eq!(git_dir(true, b"/srv/r \n".to_vec()).unwrap(), "/srv/r ");
    assert_eq!(git_dir(true, b" /srv/r\n\n".to_vec()).unwrap(), " /srv/r\n");
    assert_eq!(git_dir(true, b"/srv/r".to_vec()).unwrap(), "/srv/r");
    assert_eq!(git_dir(true, Vec::new()).unwrap(), "");
    let e = git_dir(false, b"/repo/.git\n".to_vec()).unwrap_err();
    assert!(matches!(e, GitDirError::NotARepository));
    assert_eq!(e.message(), "not inside a git repository");
    let e = git_dir(true, b"\xff".to_vec()).unwrap_err();
    assert_eq!(e.message(), "invalid utf-8 sequence of 1 bytes from index 0");
    assert_eq!(git_stdout(true, b" false \r\n".to_vec()).as_deref(), Some("false"));
    assert_eq!(git_stdout(false, b"false\n".to_vec()), None);
    assert_eq!(git_stdout(true, b"\xff".to_vec()), None);
}

#[test]
fn bouncing_pushes() {
    assert!(has_working_tree(Some("false")));
    assert!(!has_working_tree(Some("true")));
    assert!(!has_working_tree(None));
    assert!(push_will_bounce(None));
    assert!(push_will_bounce(Some("refuse")));
    for deny in ["updateInstead", "ignore", "warn"] {
        assert!(!push_will_bounce(Some(deny)));
    }
}
