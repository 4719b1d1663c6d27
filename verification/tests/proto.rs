use git_remote_iroh::proto::{
    secrets_match, valid_git_protocol, Header, HeaderError, HeaderProgress, HeaderStage, Service,
    Status, StatusError, ALPN, MAGIC, SECRET_LEN,
};

fn header(service: Service, git_protocol: Option<&str>) -> Header {
    Header {
        service,
        secret: [7u8; SECRET_LEN],
        git_protocol: git_protocol.map(|s| s.to_string()),
    }
}

fn bytes_of(h: &Header) -> Vec<u8> {
    let mut buf = Vec::new();
    h.write(&mut buf);
    buf
}

/// A header with the given GIT_PROTOCOL bytes and length byte.
fn raw(service: u8, len: u8, git_protocol: &[u8]) -> Vec<u8> {
    let mut v = b"GRI0".to_vec();
    v.push(service);
    v.extend_from_slice(&[7u8; SECRET_LEN]);
    v.push(len);
    v.extend_from_slice(git_protocol);
    v
}

#[test]
fn header_roundtrip() {
    let header = Header {
        service: Service::ReceivePack,
        secret: [7u8; SECRET_LEN],
        git_protocol: Some("version=2".to_string()),
    };
    let mut buf = Vec::new();
    header.write(&mut buf);
    let parsed = Header::read(&mut buf.as_slice()).unwrap();
    assert_eq!(parsed.service, Service::ReceivePack);
    assert_eq!(parsed.secret, [7u8; SECRET_LEN]);
    assert_eq!(parsed.git_protocol.as_deref(), Some("version=2"));
}

#[test]
fn secret_compare() {
    assert!(secrets_match(&[1; SECRET_LEN], &[1; SECRET_LEN]));
    let mut other = [1u8; SECRET_LEN];
    other[SECRET_LEN - 1] = 2;
    assert!(!secrets_match(&[1; SECRET_LEN], &other));
}

#[test]
fn constants_on_the_wire() {
    assert_eq!(&ALPN, b"git-remote-iroh/0");
    assert_eq!(&MAGIC, b"GRI0");
}

#[test]
fn header_bytes() {
    assert_eq!(
        bytes_of(&header(Service::UploadPack, Some("version=2"))),
        raw(1, 9, b"version=2")
    );
    assert_eq!(bytes_of(&header(Service::ReceivePack, None)), raw(2, 0, b""));
}

#[test]
fn header_is_appended() {
    let mut buf = b"before".to_vec();
    header(Service::UploadPack, None).write(&mut buf);
    assert!(buf.starts_with(b"beforeGRI0\x01"));
}

#[test]
fn header_without_git_protocol() {
    for gp in [None, Some("")] {
        let buf = bytes_of(&header(Service::UploadPack, gp));
        let parsed = Header::read(&mut buf.as_slice()).unwrap();
        assert_eq!(parsed.service, Service::UploadPack);
        assert_eq!(parsed.git_protocol, None);
    }
}

#[test]
fn header_leaves_what_follows() {
    let mut buf = bytes_of(&header(Service::UploadPack, Some("version=2")));
    buf.extend_from_slice(b"0000raw git traffic");
    let mut r = buf.as_slice();
    Header::read(&mut r).unwrap();
    assert_eq!(r, b"0000raw git traffic");
}

#[test]
fn header_rejects_bad_magic() {
    let mut r: &[u8] = b"GRI1\x01";
    let e = Header::read(&mut r).unwrap_err();
    assert!(matches!(e, HeaderError::BadMagic));
    assert_eq!(e.message(), "bad magic; peer is not a git-remote-iroh client");
    assert_eq!(r, b"\x01");
}

#[test]
fn header_rejects_unknown_service() {
    let e = Header::read(&mut raw(3, 0, b"").as_slice()).unwrap_err();
    assert!(matches!(e, HeaderError::UnknownService(3)));
    assert_eq!(e.message(), "unknown service 3");
    assert_eq!(HeaderError::UnknownService(255).message(), "unknown service 255");
    assert_eq!(HeaderError::UnknownService(10).message(), "unknown service 10");
    assert_eq!(HeaderError::UnknownService(0).message(), "unknown service 0");
}

#[test]
fn header_rejects_long_git_protocol() {
    let e = Header::read(&mut raw(1, 65, &[b'a'; 65]).as_slice()).unwrap_err();
    assert!(matches!(e, HeaderError::GitProtocolTooLong));
    assert_eq!(e.message(), "GIT_PROTOCOL value too long");
    assert!(Header::read(&mut raw(1, 64, &[b'a'; 64]).as_slice()).is_ok());
}

#[test]
fn header_rejects_what_is_not_utf8() {
    let e = Header::read(&mut raw(1, 2, b"a\xff").as_slice()).unwrap_err();
    assert!(matches!(e, HeaderError::NotUtf8(_)));
    assert_eq!(e.message(), "invalid utf-8 sequence of 1 bytes from index 1");
}

#[test]
fn header_rejects_unprintable_git_protocol() {
    for gp in ["a\nb", "\u{7f}", "é"] {
        let e = Header::read(&mut raw(1, gp.len() as u8, gp.as_bytes()).as_slice()).unwrap_err();
        assert!(matches!(e, HeaderError::InvalidGitProtocol));
        assert_eq!(e.message(), "invalid GIT_PROTOCOL value");
    }
}

#[test]
fn header_rejects_early_end() {
    let whole = raw(1, 9, b"version=2");
    for n in 0..whole.len() {
        let mut r = &whole[..n];
        let e = Header::read(&mut r).unwrap_err();
        if n == 4 || n == 21 {
            assert!(matches!(e, HeaderError::UnexpectedEof));
            assert_eq!(e.message(), "unexpected end of file");
        } else {
            assert!(matches!(e, HeaderError::EarlyEof));
            assert_eq!(e.message(), "early eof");
        }
        assert!(r.is_empty());
    }
    assert_eq!(HeaderStage::Magic.at_end().message(), "early eof");
    assert_eq!(HeaderStage::Service.at_end().message(), "unexpected end of file");
}

#[test]
fn header_length_byte_wraps() {
    let long = "a".repeat(256 + 5);
    let buf = bytes_of(&header(Service::UploadPack, Some(&long)));
    assert_eq!(buf.len(), 22 + 261);
    assert_eq!(buf[21], 5);
}

#[test]
fn header_field_by_field() {
    let whole = raw(2, 9, b"version=2");
    let mut at = 0;
    let mut stage = HeaderStage::Magic;
    let mut needs = Vec::new();
    let done = loop {
        let n = stage.need();
        needs.push(n);
        match stage.step(whole[at..at + n].to_vec()).unwrap() {
            HeaderProgress::More(next) => stage = next,
            HeaderProgress::Done(h) => break h,
        }
        at += n;
    };
    assert_eq!(needs, [4, 1, 16, 1, 9]);
    assert_eq!(done.git_protocol.as_deref(), Some("version=2"));
}

#[test]
fn git_protocol_values() {
    assert!(valid_git_protocol(""));
    assert!(valid_git_protocol("version=2"));
    assert!(valid_git_protocol(" ~"));
    assert!(valid_git_protocol(&"x".repeat(64)));
    assert!(!valid_git_protocol(&"x".repeat(65)));
    assert!(!valid_git_protocol("tab\t"));
    assert!(!valid_git_protocol("\u{7f}"));
    assert!(!valid_git_protocol("ü"));
}

#[test]
fn service_names_and_bytes() {
    assert_eq!(Service::from_helper_name("git-upload-pack"), Some(Service::UploadPack));
    assert_eq!(Service::from_helper_name("git-receive-pack"), Some(Service::ReceivePack));
    assert_eq!(Service::from_helper_name("git-upload-archive"), None);
    assert_eq!(Service::from_helper_name("upload-pack"), None);
    for (s, name, b) in
        [(Service::UploadPack, "upload-pack", 1), (Service::ReceivePack, "receive-pack", 2)]
    {
        assert_eq!(s.git_subcommand(), name);
        assert_eq!(s.to_byte(), b);
        assert_eq!(Service::from_byte(b).unwrap(), s);
        assert_eq!(Service::from_helper_name(&format!("git-{name}")), Some(s));
    }
    assert!(matches!(Service::from_byte(0), Err(HeaderError::UnknownService(0))));
}

#[test]
fn status_roundtrip() {
    for (s, b) in [(Status::Accepted, 0u8), (Status::BadAuth, 1), (Status::Denied, 2)] {
        let mut buf = Vec::new();
        s.write(&mut buf);
        assert_eq!(buf, [b]);
        buf.push(9);
        let mut r = buf.as_slice();
        assert_eq!(Status::read(&mut r), Ok(s));
        assert_eq!(r, [9]);
    }
}

#[test]
fn status_errors() {
    assert_eq!(Status::read(&mut [].as_slice()), Err(StatusError::UnexpectedEof));
    assert_eq!(Status::read(&mut [3u8].as_slice()), Err(StatusError::Unknown(3)));
    assert_eq!(StatusError::Unknown(42).message(), "unknown status 42");
    assert_eq!(StatusError::UnexpectedEof.message(), "unexpected end of file");
}
