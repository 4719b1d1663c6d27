use git_remote_iroh::hex::{HexError, HexFault};
use git_remote_iroh::proto::SECRET_LEN;
use git_remote_iroh::ticket::{
    secret_from_text, Identity, IdentityError, KeyError, LoadOutcome, LoadState, RemoteUrl,
    SecretError, UrlError, URL_SCHEME,
};
use iroh::{EndpointAddr, SecretKey};
use iroh_tickets::endpoint::EndpointTicket;
use iroh_tickets::Ticket;

const HEX_42: &str = "2a2a2a2a2a2a2a2a2a2a2a2a2a2a2a2a";

fn some_ticket() -> EndpointTicket {
    EndpointTicket::new(EndpointAddr::new(SecretKey::from_bytes(&[1; 32]).public()))
}

#[test]
fn url_roundtrip() {
    let key = SecretKey::generate();
    let ticket = EndpointTicket::new(EndpointAddr::new(key.public()));
    let url = RemoteUrl {
        ticket,
        secret: [42u8; SECRET_LEN],
    };
    let s = url.to_string();
    assert!(s.starts_with(URL_SCHEME));
    let parsed = RemoteUrl::parse(&s).unwrap().expect("not offer mode");
    assert_eq!(parsed.secret, url.secret);
    assert_eq!(parsed.ticket.endpoint_addr(), url.ticket.endpoint_addr());
}

#[test]
fn bare_url_is_offer_mode() {
    assert!(RemoteUrl::parse("iroh://").unwrap().is_none());
    assert!(RemoteUrl::parse("iroh:///").unwrap().is_none());
}

#[test]
fn many_slashes_are_offer_mode() {
    assert!(RemoteUrl::parse("iroh://////").unwrap().is_none());
}

#[test]
fn url_text_is_exact() {
    let url = RemoteUrl { ticket: some_ticket(), secret: [42; SECRET_LEN] };
    let text = format!("iroh://{}/{}", some_ticket(), HEX_42);
    assert!(text.starts_with("iroh://endpoint"));
    assert_eq!(url.to_string(), text);
    assert_eq!(url.try_to_string(), Some(text));
}

#[test]
fn url_with_slashes_around_its_parts() {
    let url = format!("iroh:////{}//{}///", some_ticket(), HEX_42.to_uppercase());
    let parsed = RemoteUrl::parse(&url).unwrap().unwrap();
    assert_eq!(parsed.ticket, some_ticket());
    assert_eq!(parsed.secret, [42; SECRET_LEN]);
}

#[test]
fn url_with_addresses_roundtrips() {
    let addr = EndpointAddr::new(SecretKey::from_bytes(&[3; 32]).public())
        .with_ip_addr("127.0.0.1:1234".parse().unwrap())
        .with_ip_addr("[::1]:5678".parse().unwrap())
        .with_relay_url("https://relay.example.com./".parse().unwrap());
    let url = RemoteUrl::of_endpoint(addr.clone(), [9; SECRET_LEN]);
    let parsed = RemoteUrl::parse(&url.to_string()).unwrap().unwrap();
    assert_eq!(parsed.ticket.endpoint_addr(), &addr);
    assert_eq!(parsed.endpoint_addr(), addr);
    assert_eq!(parsed.secret, [9; SECRET_LEN]);
    // The kind, and five bits of the byte form to a character.
    let bytes = url.ticket.encode_bytes().len();
    assert_eq!(url.ticket.to_string().len(), 8 + (8 * bytes + 4) / 5);
}

#[test]
fn scoped_address_is_parsed_without_its_scope() {
    let addr = EndpointAddr::new(SecretKey::from_bytes(&[3; 32]).public())
        .with_ip_addr("[::1%3]:7".parse().unwrap());
    let url = RemoteUrl::of_endpoint(addr.clone(), [9; SECRET_LEN]);
    let parsed = RemoteUrl::parse(&url.to_string()).unwrap().unwrap();
    assert_eq!(parsed.secret, [9; SECRET_LEN]);
    assert_ne!(parsed.ticket.endpoint_addr(), &addr);
    let plain = EndpointAddr::new(addr.id).with_ip_addr("[::1]:7".parse().unwrap());
    assert_eq!(parsed.endpoint_addr(), plain);
    let again = RemoteUrl::parse(&parsed.to_string()).unwrap().unwrap();
    assert_eq!(again.ticket, parsed.ticket);
}

#[test]
fn relay_url_that_is_not_read_back() {
    let relay = "file://h//C:/x".parse().unwrap();
    let addr = EndpointAddr::new(SecretKey::from_bytes(&[3; 32]).public()).with_relay_url(relay);
    let url = RemoteUrl::of_endpoint(addr.clone(), [9; SECRET_LEN]);
    let parsed = RemoteUrl::parse(&url.to_string()).unwrap().unwrap();
    assert_eq!(parsed.secret, [9; SECRET_LEN]);
    assert_eq!(parsed.endpoint_addr().id, addr.id);
    assert_ne!(parsed.endpoint_addr(), addr);
}

#[test]
fn clone_of_a_url() {
    let url = RemoteUrl { ticket: some_ticket(), secret: [42; SECRET_LEN] };
    let copy = url.clone();
    assert_eq!(copy.ticket, url.ticket);
    assert_eq!(copy.secret, url.secret);
}

#[test]
fn url_of_another_scheme() {
    let e = RemoteUrl::parse("https://example.com").unwrap_err();
    assert!(matches!(&e, UrlError::NotIroh(u) if u == "https://example.com"));
    assert_eq!(e.message(), "not an iroh:// url: https://example.com");
}

#[test]
fn url_without_secret() {
    let e = RemoteUrl::parse(&format!("iroh://{}/", some_ticket())).unwrap_err();
    assert!(matches!(e, UrlError::NoSecret));
    assert_eq!(e.message(), "bad iroh:// url; expected iroh://<ticket>/<secret>");
}

#[test]
fn url_with_bad_ticket() {
    let e = RemoteUrl::parse(&format!("iroh://blob/{HEX_42}")).unwrap_err();
    assert!(matches!(e, UrlError::Ticket(_)));
    assert_eq!(e.message(), "invalid ticket in url: wrong prefix, expected endpoint");
}

#[test]
fn url_with_bad_secret() {
    let e = RemoteUrl::parse(&format!("iroh://{}/2x2a", some_ticket())).unwrap_err();
    assert!(matches!(e, UrlError::Secret(HexError { position: 1, kind: HexFault::Symbol })));
    assert_eq!(e.message(), "invalid secret in url: invalid symbol at 1");
    let e = RemoteUrl::parse(&format!("iroh://{}/2a2", some_ticket())).unwrap_err();
    assert_eq!(e.message(), "invalid secret in url: invalid length at 2");
}

#[test]
fn url_with_short_secret() {
    let e = RemoteUrl::parse(&format!("iroh://{}/2a2a", some_ticket())).unwrap_err();
    assert!(matches!(e, UrlError::SecretLength));
    assert_eq!(e.message(), "secret in url has the wrong length");
}

#[test]
fn url_from_parts() {
    let u = RemoteUrl::from_parts(Ok(some_ticket()), HEX_42).unwrap();
    assert_eq!(u.secret, [42; SECRET_LEN]);
    assert!(matches!(
        RemoteUrl::from_parts(Ok(some_ticket()), "zz"),
        Err(UrlError::Secret(HexError { position: 0, kind: HexFault::Symbol }))
    ));
    let bad = "blob".parse::<EndpointTicket>();
    assert!(matches!(RemoteUrl::from_parts(bad, HEX_42), Err(UrlError::Ticket(_))));
}

#[test]
fn secret_texts() {
    assert_eq!(
        secret_from_text("000102030405060708090a0B0c0D0e0F"),
        Ok([0, 1, 2, 3, 4, 5, 6, 7, 8, 9, 10, 11, 12, 13, 14, 15])
    );
    assert_eq!(secret_from_text(""), Err(SecretError::Length));
    assert_eq!(
        secret_from_text("12345g"),
        Err(SecretError::Hex(HexError { position: 5, kind: HexFault::Symbol }))
    );
    assert_eq!(
        secret_from_text("gg1"),
        Err(SecretError::Hex(HexError { position: 2, kind: HexFault::Length }))
    );
}

#[test]
fn hex_error_words() {
    for (kind, words) in [
        (HexFault::Length, "invalid length at 120"),
        (HexFault::Symbol, "invalid symbol at 120"),
        (HexFault::Trailing, "non-zero trailing bits at 120"),
        (HexFault::Padding, "invalid padding length at 120"),
    ] {
        assert_eq!(HexError { position: 120, kind }.message(), words);
    }
}

/// Loads an identity from the two files, and writes the files that it creates.
fn load(files: &mut [Option<String>; 2]) -> Result<Identity, IdentityError> {
    let mut state = LoadState::Key;
    loop {
        let i = if state.file_name() == "key" { 0 } else { 1 };
        let step = Identity::load_or_create(state, files[i].as_deref())?;
        if let Some(text) = step.store {
            assert!(files[i].is_none());
            files[i] = Some(text);
        }
        match step.outcome {
            LoadOutcome::Next(next) => state = next,
            LoadOutcome::Loaded(id) => return Ok(id),
        }
    }
}

#[test]
fn identity_is_created_and_loaded_again() {
    let mut files = [None, None];
    let first = load(&mut files).unwrap();
    assert_eq!(files[0].as_ref().unwrap().len(), 64);
    assert_eq!(files[1].as_ref().unwrap().len(), 32);
    for f in files.iter_mut().flatten() {
        f.insert(0, '\t');
        f.push_str(" \u{a0}\n");
    }
    let second = load(&mut files).unwrap();
    assert_eq!(second.key.to_bytes(), first.key.to_bytes());
    assert_eq!(second.secret, first.secret);
    assert_eq!(second.short_url().to_string(), first.short_url().to_string());
}

#[test]
fn stored_texts_are_exact() {
    let step = Identity::create_key(SecretKey::from_bytes(&[0xab; 32]));
    assert_eq!(step.store, Some("ab".repeat(32)));
    let step = Identity::create_token(SecretKey::from_bytes(&[1; 32]), [0x0f; SECRET_LEN]);
    assert_eq!(step.store, Some("0f".repeat(16)));
    assert!(matches!(step.outcome, LoadOutcome::Loaded(id) if id.secret == [0x0f; SECRET_LEN]));
}

#[test]
fn key_in_base32_is_loaded() {
    // 32 bytes of zero are 52 characters of base32.
    let mut files = [Some("a".repeat(52)), Some("0F".repeat(16))];
    let id = load(&mut files).unwrap();
    assert_eq!(id.key.to_bytes(), [0; 32]);
    assert_eq!(id.secret, [0x0f; SECRET_LEN]);
}

#[test]
fn key_in_base32_of_either_case() {
    let bytes: [u8; 32] = core::array::from_fn(|i| (7 * i + 129) as u8);
    let text = data_encoding::BASE32_NOPAD.encode(&bytes);
    assert_eq!(text.len(), 52);
    for text in [text.clone(), text.to_lowercase()] {
        let id = load(&mut [Some(text), Some("0f".repeat(16))]).unwrap();
        assert_eq!(id.key.to_bytes(), bytes);
    }
    // A trailing bit that is not zero.
    let e = load(&mut [Some(format!("{}b", "a".repeat(51))), None]).err().unwrap();
    assert_eq!(e, IdentityError::Key(KeyError::Base32));
    let id = load(&mut [Some(format!("{}q", "a".repeat(51))), None]).unwrap();
    assert_eq!(id.key.to_bytes()[31], 1);
}

#[test]
fn files_keep_their_contents() {
    let key = format!(" {}\n", "05".repeat(32));
    let token = format!("{}\n", "06".repeat(16));
    for before in [
        [None, None],
        [Some(key.clone()), None],
        [None, Some(token.clone())],
        [Some(key.clone()), Some(token.clone())],
    ] {
        let mut files = before.clone();
        let first = load(&mut files).unwrap();
        for i in 0..2 {
            assert!(before[i].is_none() || before[i] == files[i]);
        }
        let kept = files.clone();
        let second = load(&mut files).unwrap();
        assert_eq!(files, kept);
        assert_eq!(second.key.to_bytes(), first.key.to_bytes());
        assert_eq!(second.secret, first.secret);
        assert_eq!(second.short_url_text(), first.short_url_text());
    }
}

#[test]
fn corrupt_key_files() {
    for (text, error, words) in [
        ("AB".repeat(32), KeyError::Hex, "corrupt p/key: failed to decode hex string"),
        ("1".repeat(52), KeyError::Base32, "corrupt p/key: failed to decode base32 string"),
        (String::new(), KeyError::Length, "corrupt p/key: invalid length"),
    ] {
        let e = load(&mut [Some(text), None]).err().unwrap();
        assert_eq!(e, IdentityError::Key(error));
        assert_eq!(e.message("p/key"), words);
    }
    assert_eq!(KeyError::Data.message(), "data is not a valid public key");
}

#[test]
fn corrupt_token_files() {
    let key = "ab".repeat(32);
    let e = load(&mut [Some(key.clone()), Some("0g".to_string())]).err().unwrap();
    assert_eq!(e.message("p/token"), "corrupt p/token: invalid symbol at 1");
    let e = load(&mut [Some(key), Some("0f0f".to_string())]).err().unwrap();
    assert_eq!(e, IdentityError::Token(SecretError::Length));
    assert_eq!(e.message("p/token"), "corrupt p/token");
}

#[test]
fn ephemeral_identities_differ() {
    let a = Identity::ephemeral();
    let b = Identity::ephemeral();
    assert_ne!(a.key.to_bytes(), b.key.to_bytes());
    assert_ne!(a.secret, b.secret);
}

#[test]
fn bare_ticket_is_small() {
    assert_eq!(some_ticket().encode_bytes().len(), 34);
}

#[test]
fn short_url_is_stable() {
    let created = Identity { key: SecretKey::from_bytes(&[5; 32]), secret: [6; SECRET_LEN] };
    let loaded = load(&mut [Some("05".repeat(32)), Some("06".repeat(16))]).unwrap();
    assert_eq!(loaded.short_url().to_string(), created.short_url().to_string());
}

#[test]
fn short_url_names_the_public_key() {
    let key = SecretKey::from_bytes(&[5; 32]);
    let public = key.public();
    let id = Identity { key, secret: [6; SECRET_LEN] };
    let url = id.short_url();
    assert_eq!(url.ticket.endpoint_addr(), &EndpointAddr::new(public));
    assert_eq!(id.short_url_text(), url.to_string());
    let parsed = RemoteUrl::parse(&id.short_url_text()).unwrap().unwrap();
    assert_eq!(parsed.endpoint_addr(), EndpointAddr::new(public));
    assert_eq!(parsed.ticket, url.ticket);
    assert_eq!(parsed.secret, [6; SECRET_LEN]);
}
