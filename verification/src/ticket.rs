//! `iroh://` URL parsing/formatting, per-repository identity, and the git dir that
//! holds it.
use crate::hex;
use crate::hex::{hex_bytes, hex_error, hex_text, is_hex, HexError};
use crate::proto::{secret_array, SECRET_LEN};
use crate::text;
use crate::text::{has_prefix, split_first, trim_char, trim_space, utf8_error, without_newline};
use iroh::{EndpointAddr, KeyParsingError, PublicKey, SecretKey};
use iroh_tickets::endpoint::EndpointTicket;
use iroh_tickets::{ParseError, Ticket};
use std::str::FromStr;
use std::string::FromUtf8Error;
use vstd::arithmetic::power::pow;
use vstd::prelude::*;
use vstd::utf8::*;

verus! {

/// What an `iroh://` URL begins with.
pub const URL_SCHEME: &'static str = "iroh://";

/// `iroh_tickets::endpoint::EndpointTicket`: where to dial an endpoint. Tickets count as
/// the same here where their `==` holds.
#[verifier::external_type_specification]
#[verifier::external_body]
pub struct ExEndpointTicket(EndpointTicket);

/// `iroh_tickets::ParseError`: why a text is no ticket.
#[verifier::external_type_specification]
#[verifier::external_body]
pub struct ExParseError(ParseError);

/// `iroh::EndpointAddr`: the public key and the addresses of an endpoint.
#[verifier::external_type_specification]
#[verifier::external_body]
pub struct ExEndpointAddr(EndpointAddr);

/// `iroh::PublicKey`: the public key of an endpoint.
#[verifier::external_type_specification]
#[verifier::external_body]
pub struct ExPublicKey(PublicKey);

/// `iroh::SecretKey`: the secret key of an endpoint.
#[verifier::external_type_specification]
#[verifier::external_body]
pub struct ExSecretKey(SecretKey);

/// The byte form of a ticket.
pub uninterp spec fn ticket_bytes(t: EndpointTicket) -> Seq<u8>;

/// The text form of a ticket.
pub uninterp spec fn ticket_text(t: EndpointTicket) -> Seq<char>;

/// The ticket that a text is read as, or the words of the error that it gives.
pub uninterp spec fn ticket_of_text(s: Seq<char>) -> Result<EndpointTicket, Seq<char>>;

/// How the error of a ticket that cannot be read displays itself.
pub uninterp spec fn ticket_error_words(e: ParseError) -> Seq<char>;

/// The address that a ticket holds.
pub uninterp spec fn ticket_addr(t: EndpointTicket) -> EndpointAddr;

/// The public key in an endpoint's address.
pub uninterp spec fn addr_id(addr: EndpointAddr) -> PublicKey;

/// The network addresses in an endpoint's address, each in the byte form that a ticket
/// gives it. The form of an IPv6 address holds its IP and its port, and neither its
/// scope nor its flow label.
pub uninterp spec fn addr_forms(addr: EndpointAddr) -> Set<Seq<u8>>;

/// The texts of the relay URLs in an endpoint's address.
pub uninterp spec fn addr_relays(addr: EndpointAddr) -> Set<Seq<char>>;

/// The ticket is what its own text is read as.
pub open spec fn reads_back(t: EndpointTicket) -> bool {
    ticket_of_text(ticket_text(t)) == Ok::<EndpointTicket, Seq<char>>(t)
}

/// The ticket is small enough for its text form to be computed.
pub open spec fn printable(t: EndpointTicket) -> bool {
    ticket_bytes(t).len() <= usize::MAX / 512
}

/// `Ticket::encode_bytes` on an `EndpointTicket`: its byte form.
#[verifier::external_body]
fn ticket_to_bytes(t: &EndpointTicket) -> (r: Vec<u8>)
    ensures
        r@ == ticket_bytes(*t),
{
    t.encode_bytes()
}

/// `ToString` on an `EndpointTicket`: its text form, the kind `endpoint` and behind it
/// the byte form in lowercase base32, five bits to a character. A ticket that `FromStr`
/// reads from it is for the same public key. It need not be the same ticket: the byte form
/// keeps neither the scope nor the flow label of an IPv6 address, and the text of a relay
/// URL may be parsed as another URL or as none. Where there is no relay URL, `FromStr`
/// accepts the text, and gives the same network addresses in their byte forms. The base32
/// encoder panics beyond the length required here.
#[verifier::external_body]
fn ticket_to_text(t: &EndpointTicket) -> (r: String)
    requires
        printable(*t),
    ensures
        r@ == ticket_text(*t),
        has_prefix(r@, "endpoint"@),
        r@.len() == 8 + (8 * ticket_bytes(*t).len() + 4) / 5,
        forall|i: int|
            0 <= i < r@.len() ==> ('a' <= #[trigger] r@[i] <= 'z' || '2' <= r@[i] <= '7'),
        match ticket_of_text(r@) {
            Ok(u) => addr_id(ticket_addr(u)) == addr_id(ticket_addr(*t)),
            Err(_) => true,
        },
        addr_relays(ticket_addr(*t)) == Set::<Seq<char>>::empty() ==> (match ticket_of_text(r@) {
            Ok(u) => addr_forms(ticket_addr(u)) == addr_forms(ticket_addr(*t)),
            Err(_) => false,
        }),
{
    t.to_string()
}

/// `FromStr` for an `EndpointTicket`: the ticket that the text is read as, or an error
/// whose words the text determines. The base32 decoder panics beyond the length required
/// here. Of the error, its words alone are stated: it may also carry a source location.
#[verifier::external_body]
fn ticket_from_text(s: &str) -> (r: Result<EndpointTicket, ParseError>)
    requires
        encode_utf8(s@).len() <= usize::MAX / 8,
    ensures
        match r {
            Ok(t) => ticket_of_text(s@) == Ok::<EndpointTicket, Seq<char>>(t),
            Err(e) => ticket_of_text(s@) == Err::<EndpointTicket, Seq<char>>(
                ticket_error_words(e),
            ),
        },
{
    EndpointTicket::from_str(s)
}

/// `ToString` on a `ParseError`: the text that the error displays.
#[verifier::external_body]
fn ticket_error_text(e: &ParseError) -> (r: String)
    ensures
        r@ == ticket_error_words(*e),
{
    e.to_string()
}

/// `Clone` for an `EndpointTicket`: the same ticket again.
pub assume_specification[ <EndpointTicket as Clone>::clone ](t: &EndpointTicket) -> (r:
    EndpointTicket)
    ensures
        r == *t,
;

/// An endpoint's address that holds its public key alone.
pub uninterp spec fn bare_addr(id: PublicKey) -> EndpointAddr;

/// The ticket for an endpoint's address.
pub uninterp spec fn ticket_of_addr(addr: EndpointAddr) -> EndpointTicket;

/// `EndpointAddr::new`: the address that holds the public key alone.
pub assume_specification[ EndpointAddr::new ](id: PublicKey) -> (r: EndpointAddr)
    ensures
        r == bare_addr(id),
        addr_id(r) == id,
        addr_forms(r) == Set::<Seq<u8>>::empty(),
        addr_relays(r) == Set::<Seq<char>>::empty(),
;

/// `Clone` for an `EndpointAddr`: the same address again.
pub assume_specification[ <EndpointAddr as Clone>::clone ](a: &EndpointAddr) -> (r: EndpointAddr)
    ensures
        r == *a,
;

/// `EndpointTicket::new`: the ticket for an address. One that holds a public key alone
/// has a byte form of 34 bytes, and its text form loses nothing, so that it is read back
/// as that ticket.
pub assume_specification[ EndpointTicket::new ](addr: EndpointAddr) -> (r: EndpointTicket)
    ensures
        r == ticket_of_addr(addr),
        ticket_addr(r) == addr,
        forall|id: PublicKey|
            addr == #[trigger] bare_addr(id) ==> reads_back(r) && ticket_bytes(r).len() == 34,
;

/// `EndpointTicket::endpoint_addr`: the address that the ticket holds.
pub assume_specification[ EndpointTicket::endpoint_addr ](t: &EndpointTicket) -> (r: &EndpointAddr)
    ensures
        *r == ticket_addr(*t),
;

/// Why a text is no secret.
#[derive(Debug, Clone, Copy, PartialEq, Eq, Structural)]
pub enum SecretError {
    Hex(HexError),
    Length,
}

/// The secret that a text stands for: the bytes that it gives in hexadecimal, where
/// it does and they are as many as a secret has.
pub open spec fn secret_of_text(s: Seq<char>) -> Result<Seq<u8>, SecretError> {
    let b = encode_utf8(s);
    if !is_hex(b) {
        Err(SecretError::Hex(hex_error(b)))
    } else if hex_bytes(b).len() != SECRET_LEN {
        Err(SecretError::Length)
    } else {
        Ok(hex_bytes(b))
    }
}

/// Reads a secret from its hexadecimal text.
pub fn secret_from_text(s: &str) -> (r: Result<[u8; SECRET_LEN], SecretError>)
    requires
        encode_utf8(s@).len() <= usize::MAX / 8,
    ensures
        match r {
            Ok(secret) => secret_of_text(s@) == Ok::<Seq<u8>, SecretError>(secret@),
            Err(e) => secret_of_text(s@) == Err::<Seq<u8>, SecretError>(e),
        },
        match r {
            Ok(secret) => is_hex(encode_utf8(s@)) && hex_bytes(encode_utf8(s@)) == secret@,
            Err(SecretError::Hex(e)) => !is_hex(encode_utf8(s@)) && e == hex_error(encode_utf8(s@)),
            Err(SecretError::Length) => is_hex(encode_utf8(s@)) && encode_utf8(s@).len() != 32,
        },
{
    match hex::decode(s.as_bytes()) {
        Ok(bytes) => if bytes.len() == SECRET_LEN {
            Ok(secret_array(bytes.as_slice()))
        } else {
            Err(SecretError::Length)
        },
        Err(e) => Err(SecretError::Hex(e)),
    }
}

/// Why a text is no `iroh://` URL.
#[derive(Debug)]
pub enum UrlError {
    NotIroh(String),
    NoSecret,
    Ticket(ParseError),
    Secret(HexError),
    SecretLength,
}

impl UrlError {
    /// The error in words.
    pub open spec fn words(self) -> Seq<char> {
        match self {
            UrlError::NotIroh(url) => "not an iroh:// url: "@ + url@,
            UrlError::NoSecret => "bad iroh:// url; expected iroh://<ticket>/<secret>"@,
            UrlError::Ticket(e) => "invalid ticket in url: "@ + ticket_error_words(e),
            UrlError::Secret(e) => "invalid secret in url: "@ + e.words(),
            UrlError::SecretLength => "secret in url has the wrong length"@,
        }
    }

    /// The error in words.
    pub fn message(&self) -> (r: String)
        ensures
            r@ == self.words(),
    {
        match self {
            UrlError::NotIroh(url) => text::join("not an iroh:// url: ", url.as_str()),
            UrlError::NoSecret => {
                "bad iroh:// url; expected iroh://<ticket>/<secret>".to_owned()
            },
            UrlError::Ticket(e) => {
                text::join("invalid ticket in url: ", ticket_error_text(e).as_str())
            },
            UrlError::Secret(e) => text::join("invalid secret in url: ", e.message().as_str()),
            UrlError::SecretLength => "secret in url has the wrong length".to_owned(),
        }
    }
}

/// The parts of a URL, before they are read.
pub enum UrlShape {
    NotIroh,
    Offer,
    NoSecret,
    Remote { ticket: Seq<char>, secret: Seq<char> },
}

/// The parts of `url`: behind the scheme, and without the slashes around it, it is
/// empty in offer mode, and else a ticket and a secret with a slash between them.
/// Slashes around the secret do not count.
pub open spec fn url_shape(url: Seq<char>) -> UrlShape {
    if !has_prefix(url, URL_SCHEME@) {
        UrlShape::NotIroh
    } else {
        let rest = trim_char(url.skip(URL_SCHEME@.len() as int), '/');
        if rest.len() == 0 {
            UrlShape::Offer
        } else {
            match split_first(rest, '/') {
                None => UrlShape::NoSecret,
                Some((ticket, secret)) => UrlShape::Remote {
                    ticket,
                    secret: trim_char(secret, '/'),
                },
            }
        }
    }
}

/// What a URL means, or why it means nothing.
pub enum UrlMeaning {
    Offer,
    Remote { ticket: EndpointTicket, secret: Seq<u8> },
    /// With the URL.
    NotIroh(Seq<char>),
    NoSecret,
    /// With the words of the error that the ticket gives.
    BadTicket(Seq<char>),
    BadSecret(SecretError),
}

/// What `url` means.
pub open spec fn parse_url(url: Seq<char>) -> UrlMeaning {
    match url_shape(url) {
        UrlShape::NotIroh => UrlMeaning::NotIroh(url),
        UrlShape::Offer => UrlMeaning::Offer,
        UrlShape::NoSecret => UrlMeaning::NoSecret,
        UrlShape::Remote { ticket, secret } => match ticket_of_text(ticket) {
            Err(words) => UrlMeaning::BadTicket(words),
            Ok(t) => match secret_of_text(secret) {
                Ok(s) => UrlMeaning::Remote { ticket: t, secret: s },
                Err(e) => UrlMeaning::BadSecret(e),
            },
        },
    }
}

/// The meaning that an error reports.
pub open spec fn complaint(e: UrlError) -> UrlMeaning {
    match e {
        UrlError::NotIroh(url) => UrlMeaning::NotIroh(url@),
        UrlError::NoSecret => UrlMeaning::NoSecret,
        UrlError::Ticket(e) => UrlMeaning::BadTicket(ticket_error_words(e)),
        UrlError::Secret(e) => UrlMeaning::BadSecret(SecretError::Hex(e)),
        UrlError::SecretLength => UrlMeaning::BadSecret(SecretError::Length),
    }
}

/// The meaning that a result of parsing reports.
pub open spec fn reported(r: Result<Option<RemoteUrl>, UrlError>) -> UrlMeaning {
    match r {
        Ok(None) => UrlMeaning::Offer,
        Ok(Some(u)) => UrlMeaning::Remote { ticket: u.ticket, secret: u.secret@ },
        Err(e) => complaint(e),
    }
}

/// The text of the URL with a ticket and a secret.
pub open spec fn url_text(ticket: Seq<char>, secret: Seq<u8>) -> Seq<char> {
    URL_SCHEME@ + ticket + "/"@ + hex_text(secret)
}

/// A URL in the making: the texts of the ticket and of the secret.
pub enum UrlParts<'a> {
    Offer,
    Remote { ticket: &'a str, secret: &'a str },
}

/// Takes a URL apart.
pub fn split_url<'a>(url: &'a str) -> (r: Result<UrlParts<'a>, UrlError>)
    ensures
        match url_shape(url@) {
            UrlShape::NotIroh => r matches Err(UrlError::NotIroh(u)) && u@ == url@,
            UrlShape::Offer => r matches Ok(UrlParts::Offer),
            UrlShape::NoSecret => r matches Err(UrlError::NoSecret),
            UrlShape::Remote { ticket, secret } => {
                &&& r matches Ok(UrlParts::Remote { ticket: t, secret: s })
                &&& t@ == ticket
                &&& s@ == secret
            },
        },
{
    match text::strip_prefix(url, URL_SCHEME) {
        None => Err(UrlError::NotIroh(url.to_owned())),
        Some(rest) => {
            let rest = text::trim_matches(rest, '/');
            if rest.is_empty() {
                return Ok(UrlParts::Offer);
            }
            match text::split_once(rest, '/') {
                None => Err(UrlError::NoSecret),
                Some((ticket, secret)) => Ok(
                    UrlParts::Remote { ticket, secret: text::trim_matches(secret, '/') },
                ),
            }
        },
    }
}

/// A parsed `iroh://` remote URL: where to dial, plus the bearer secret.
#[derive(Debug)]
pub struct RemoteUrl {
    pub ticket: EndpointTicket,
    pub secret: [u8; SECRET_LEN],
}

impl Clone for RemoteUrl {
    fn clone(&self) -> (r: Self)
        ensures
            r == *self,
    {
        RemoteUrl { ticket: self.ticket.clone(), secret: self.secret }
    }
}

/// The texts of a URL's parts have no more bytes than the URL.
proof fn lemma_parts_are_shorter(url: Seq<char>)
    ensures
        url_shape(url) matches UrlShape::Remote { ticket, secret } ==> {
            &&& encode_utf8(ticket).len() <= encode_utf8(url).len()
            &&& encode_utf8(secret).len() <= encode_utf8(url).len()
        },
{
    if has_prefix(url, URL_SCHEME@) {
        let n = URL_SCHEME@.len() as int;
        let rest = trim_char(url.skip(n), '/');
        assert(url.subrange(n, url.len() as int) =~= url.skip(n));
        text::lemma_part_is_shorter(url, n, url.len() as int);
        text::lemma_trim_is_shorter(url.skip(n), text::equals('/'));
        text::lemma_split_first_parts(rest, '/');
        if let Some((_, secret)) = split_first(rest, '/') {
            text::lemma_trim_is_shorter(secret, text::equals('/'));
        }
    }
}

/// The URL with a ticket's text and a secret comes apart into these two.
proof fn lemma_url_text_shape(ticket: Seq<char>, secret: Seq<u8>)
    requires
        ticket.len() > 0,
        !ticket.contains('/'),
        secret.len() == SECRET_LEN,
    ensures
        url_shape(url_text(ticket, secret)) == (UrlShape::Remote {
            ticket,
            secret: hex_text(secret),
        }),
        secret_of_text(hex_text(secret)) == Ok::<Seq<u8>, SecretError>(secret),
{
    let h = hex_text(secret);
    let url = url_text(ticket, secret);
    let rest = ticket + seq!['/'] + h;
    hex::law_hex_round_trip(secret);
    reveal_strlit("iroh://");
    reveal_strlit("/");
    assert("/"@ =~= seq!['/']);
    assert(url.take(URL_SCHEME@.len() as int) =~= URL_SCHEME@);
    assert(url.skip(URL_SCHEME@.len() as int) =~= rest);
    assert(ticket.contains(ticket[0]));
    assert(rest[0] == ticket[0]);
    assert(rest.last() == h[h.len() - 1]);
    text::lemma_trim_nothing(rest, text::equals('/'));
    text::lemma_split_first(ticket, '/', h);
    text::lemma_trim_nothing(h, text::equals('/'));
}

/// A URL of ASCII characters has as many bytes as characters.
proof fn lemma_url_text_is_short(ticket: Seq<char>, secret: Seq<u8>)
    requires
        is_ascii_chars(ticket),
        secret.len() == SECRET_LEN,
    ensures
        encode_utf8(url_text(ticket, secret)).len() == ticket.len() + 40,
{
    hex::law_hex_round_trip(secret);
    reveal_strlit("iroh://");
    reveal_strlit("/");
    assert(is_ascii_chars(url_text(ticket, secret)));
    is_ascii_chars_encode_utf8(url_text(ticket, secret));
}

impl RemoteUrl {
    /// The URL survives as the text `s`: that is short enough to be parsed, and means the
    /// same secret with the ticket that the ticket's own text is read as, where it can be
    /// read. That is a ticket for the same public key, and the very same ticket where the
    /// ticket is read back. Where the ticket holds no relay URL, it can be read, and the
    /// network addresses are the same in their byte forms.
    pub open spec fn survives_as(self, s: Seq<char>) -> bool {
        let addr = ticket_addr(self.ticket);
        &&& encode_utf8(s).len() <= usize::MAX / 8
        &&& parse_url(s) == (match ticket_of_text(ticket_text(self.ticket)) {
            Ok(t) => UrlMeaning::Remote { ticket: t, secret: self.secret@ },
            Err(words) => UrlMeaning::BadTicket(words),
        })
        &&& parse_url(s) matches UrlMeaning::Remote { ticket, .. } ==> addr_id(ticket_addr(ticket))
            == addr_id(addr)
        &&& reads_back(self.ticket) ==> parse_url(s) == (UrlMeaning::Remote {
            ticket: self.ticket,
            secret: self.secret@,
        })
        &&& addr_relays(addr) == Set::<Seq<char>>::empty() ==> {
            &&& parse_url(s) matches UrlMeaning::Remote { ticket, .. }
            &&& addr_forms(ticket_addr(ticket)) == addr_forms(addr)
        }
    }

    /// Parse an `iroh://` URL. A bare `iroh://` (no ticket) selects offer mode
    /// and parses to `None`.
    pub fn parse(url: &str) -> (r: Result<Option<RemoteUrl>, UrlError>)
        requires
            encode_utf8(url@).len() <= usize::MAX / 8,
        ensures
            reported(r) == parse_url(url@),
            r matches Ok(Some(u)) ==> parse_url(url@) == (UrlMeaning::Remote {
                ticket: u.ticket,
                secret: u.secret@,
            }),
            r matches Ok(None) ==> parse_url(url@) == UrlMeaning::Offer,
            r matches Err(UrlError::NotIroh(u)) ==> u@ == url@,
    {
        proof {
            lemma_parts_are_shorter(url@);
        }
        match split_url(url) {
            Err(e) => Err(e),
            Ok(UrlParts::Offer) => Ok(None),
            Ok(UrlParts::Remote { ticket, secret }) => {
                match RemoteUrl::from_parts(ticket_from_text(ticket), secret) {
                    Ok(u) => Ok(Some(u)),
                    Err(e) => Err(e),
                }
            },
        }
    }

    /// The URL with the ticket that was read and the text of the secret.
    pub fn from_parts(ticket: Result<EndpointTicket, ParseError>, secret: &str) -> (r: Result<
        RemoteUrl,
        UrlError,
    >)
        requires
            encode_utf8(secret@).len() <= usize::MAX / 8,
        ensures
            match ticket {
                Err(e) => r == Err::<RemoteUrl, UrlError>(UrlError::Ticket(e)),
                Ok(t) => match secret_of_text(secret@) {
                    Ok(s) => r matches Ok(u) && u.ticket == t && u.secret@ == s,
                    Err(SecretError::Hex(e)) => r == Err::<RemoteUrl, UrlError>(
                        UrlError::Secret(e),
                    ),
                    Err(SecretError::Length) => r == Err::<RemoteUrl, UrlError>(
                        UrlError::SecretLength,
                    ),
                },
            },
    {
        match ticket {
            Err(e) => Err(UrlError::Ticket(e)),
            Ok(ticket) => match secret_from_text(secret) {
                Ok(secret) => Ok(RemoteUrl { ticket, secret }),
                Err(SecretError::Hex(e)) => Err(UrlError::Secret(e)),
                Err(SecretError::Length) => Err(UrlError::SecretLength),
            },
        }
    }

    /// The URL as text. It is short enough to be parsed, and what it parses to has the same
    /// secret and a ticket for the same public key: the ticket that the ticket's own text is
    /// read as, and so the very same, where that is read back.
    pub fn to_string(&self) -> (r: String)
        requires
            printable(self.ticket),
        ensures
            r@ == url_text(ticket_text(self.ticket), self.secret@),
            r@ == "iroh://"@ + ticket_text(self.ticket) + "/"@ + hex_text(self.secret@),
            self.survives_as(r@),
    {
        let ticket = ticket_to_text(&self.ticket);
        let secret = hex::encode(&self.secret);
        proof {
            reveal_strlit("endpoint");
            assert(ticket@.len() > 0);
            assert forall|i: int| 0 <= i < ticket@.len() implies #[trigger] ticket@[i] != '/' by {}
            lemma_url_text_shape(ticket@, self.secret@);
            lemma_url_text_is_short(ticket@, self.secret@);
        }
        let mut s = URL_SCHEME.to_owned();
        s.append(ticket.as_str());
        s.append("/");
        s.append(secret.as_str());
        s
    }

    /// The URL as text, or `None` where the ticket is too large for a text form.
    pub fn try_to_string(&self) -> (r: Option<String>)
        ensures
            match r {
                Some(s) => {
                    &&& printable(self.ticket)
                    &&& s@ == url_text(ticket_text(self.ticket), self.secret@)
                    &&& s@ == "iroh://"@ + ticket_text(self.ticket) + "/"@ + hex_text(self.secret@)
                    &&& self.survives_as(s@)
                },
                None => !printable(self.ticket),
            },
            r is Some <==> ticket_bytes(self.ticket).len() <= usize::MAX / 512,
    {
        let bytes = ticket_to_bytes(&self.ticket);
        if bytes.len() <= usize::MAX / 512 {
            Some(self.to_string())
        } else {
            None
        }
    }

    /// The address to dial.
    pub fn endpoint_addr(&self) -> (r: EndpointAddr)
        ensures
            r == ticket_addr(self.ticket),
    {
        self.ticket.endpoint_addr().clone()
    }

    /// The URL of a serving endpoint.
    pub fn of_endpoint(addr: EndpointAddr, secret: [u8; SECRET_LEN]) -> (r: RemoteUrl)
        ensures
            r.ticket == ticket_of_addr(addr),
            ticket_addr(r.ticket) == addr,
            r.secret == secret,
    {
        RemoteUrl { ticket: EndpointTicket::new(addr), secret }
    }
}

/// Slashes, as many.
pub open spec fn slashes(n: nat) -> Seq<char> {
    Seq::new(n, |i: int| '/')
}

/// Behind the scheme a URL holds the ticket and the secret, each whole, with slashes between
/// them, and any number of slashes before and behind. It means the ticket that the first is
/// read as and the secret that the second is read as, or else says which of them is wrong,
/// the ticket before the secret.
pub proof fn law_url_holds_ticket_and_secret(
    lead: nat,
    ticket: Seq<char>,
    between: nat,
    secret: Seq<char>,
    trail: nat,
)
    requires
        ticket.len() > 0,
        !ticket.contains('/'),
        secret.len() > 0,
        secret[0] != '/',
        secret.last() != '/',
    ensures
        ({
            let url = "iroh://"@ + slashes(lead) + ticket + slashes(between + 1) + secret + slashes(
                trail,
            );
            &&& url_shape(url) == (UrlShape::Remote { ticket, secret })
            &&& match (ticket_of_text(ticket), secret_of_text(secret)) {
                (Ok(t), Ok(s)) => parse_url(url) == (UrlMeaning::Remote { ticket: t, secret: s }),
                (Ok(_), Err(e)) => parse_url(url) == UrlMeaning::BadSecret(e),
                (Err(words), _) => parse_url(url) == UrlMeaning::BadTicket(words),
            }
        }),
{
    let url = "iroh://"@ + slashes(lead) + ticket + slashes(between + 1) + secret + slashes(trail);
    let after = slashes(between) + secret;
    let middle = ticket + seq!['/'] + after;
    assert(slashes(between + 1) =~= seq!['/'] + slashes(between));
    assert(url.take(URL_SCHEME@.len() as int) =~= URL_SCHEME@);
    assert(url.skip(URL_SCHEME@.len() as int) =~= slashes(lead) + middle + slashes(trail));
    assert(ticket.contains(ticket[0]));
    assert(middle[0] == ticket[0]);
    assert(middle.last() == secret.last());
    text::law_trim_char(lead, middle, trail, '/');
    assert(slashes(lead) =~= Seq::new(lead, |i: int| '/'));
    text::lemma_split_first(ticket, '/', after);
    text::law_trim_char(between, secret, 0, '/');
    assert(Seq::new(between, |i: int| '/') + secret + Seq::new(0nat, |i: int| '/') =~= after);
}

/// A URL with a ticket alone lacks the secret, and a text that does not begin with the scheme
/// is no such URL.
pub proof fn law_url_lacks_a_part(lead: nat, ticket: Seq<char>, trail: nat, other: Seq<char>)
    requires
        ticket.len() > 0,
        !ticket.contains('/'),
        forall|rest: Seq<char>| other != #[trigger] ("iroh://"@ + rest),
    ensures
        parse_url("iroh://"@ + slashes(lead) + ticket + slashes(trail)) == UrlMeaning::NoSecret,
        parse_url(other) == UrlMeaning::NotIroh(other),
{
    let url = "iroh://"@ + slashes(lead) + ticket + slashes(trail);
    assert(url.take(URL_SCHEME@.len() as int) =~= URL_SCHEME@);
    assert(url.skip(URL_SCHEME@.len() as int) =~= slashes(lead) + ticket + slashes(trail));
    assert(ticket.contains(ticket[0]));
    assert(ticket.contains(ticket.last()));
    text::law_trim_char(lead, ticket, trail, '/');
    text::lemma_split_first_none(ticket, '/');
    text::law_prefix(other, URL_SCHEME@);
}

/// What a result of parsing reports is what it holds.
pub proof fn law_reported(u: RemoteUrl, e: UrlError)
    ensures
        reported(Ok(Some(u))) == (UrlMeaning::Remote { ticket: u.ticket, secret: u.secret@ }),
        reported(Ok(None)) == UrlMeaning::Offer,
        reported(Err(e)) == complaint(e),
        match e {
            UrlError::NotIroh(url) => complaint(e) == UrlMeaning::NotIroh(url@),
            UrlError::NoSecret => complaint(e) == UrlMeaning::NoSecret,
            UrlError::Ticket(t) => complaint(e) == UrlMeaning::BadTicket(ticket_error_words(t)),
            UrlError::Secret(h) => complaint(e) == UrlMeaning::BadSecret(SecretError::Hex(h)),
            UrlError::SecretLength => complaint(e) == UrlMeaning::BadSecret(SecretError::Length),
        },
{
}

/// The text of a URL is the scheme, the ticket, a slash and the secret in hexadecimal, two
/// digits for each of its bytes.
pub proof fn law_url_text(ticket: Seq<char>, secret: Seq<u8>)
    ensures
        url_text(ticket, secret) == "iroh://"@ + ticket + "/"@ + hex_text(secret),
        url_text(ticket, secret).len() == 8 + ticket.len() + 2 * secret.len(),
{
    reveal_strlit("iroh://");
    reveal_strlit("/");
}

/// A secret is read from the 32 hexadecimal digits of its sixteen bytes, and from nothing
/// else; a text of other length is of the wrong length where it is hexadecimal.
pub proof fn law_secret_text(s: Seq<char>, secret: Seq<u8>)
    requires
        secret.len() == 16,
    ensures
        secret_of_text(hex_text(secret)) == Ok::<Seq<u8>, SecretError>(secret),
        secret_of_text(s) is Ok <==> is_hex(encode_utf8(s)) && encode_utf8(s).len() == 32,
        secret_of_text(s) matches Ok(b) ==> b.len() == 16 && b == hex_bytes(encode_utf8(s)),
        secret_of_text(s) == Err::<Seq<u8>, SecretError>(SecretError::Length) <==> is_hex(
            encode_utf8(s),
        ) && encode_utf8(s).len() != 32,
        !is_hex(encode_utf8(s)) ==> secret_of_text(s) == Err::<Seq<u8>, SecretError>(
            SecretError::Hex(hex_error(encode_utf8(s))),
        ),
{
    hex::law_hex_round_trip(secret);
}

/// A ticket has a text form exactly where its byte form is within the encoder's limit.
pub proof fn law_printable(t: EndpointTicket)
    ensures
        printable(t) <==> ticket_bytes(t).len() <= usize::MAX / 512,
        reads_back(t) <==> ticket_of_text(ticket_text(t)) == Ok::<EndpointTicket, Seq<char>>(t),
{
}

/// The words on a URL that is not understood hold the whole of what is wrong.
pub proof fn law_url_error_words(url: String, t: ParseError, h: HexError)
    ensures
        UrlError::NotIroh(url).words() == "not an iroh:// url: "@ + url@,
        UrlError::Ticket(t).words() == "invalid ticket in url: "@ + ticket_error_words(t),
        UrlError::Secret(h).words() == "invalid secret in url: "@ + h.words(),
{
}

/// The scheme with any number of slashes behind it selects offer mode.
pub proof fn law_bare_url_is_offer_mode(slashes: Seq<char>)
    requires
        forall|i: int| 0 <= i < slashes.len() ==> slashes[i] == '/',
    ensures
        parse_url(URL_SCHEME@ + slashes) == UrlMeaning::Offer,
{
    let url = URL_SCHEME@ + slashes;
    assert(url.take(URL_SCHEME@.len() as int) =~= URL_SCHEME@);
    assert(url.skip(URL_SCHEME@.len() as int) =~= slashes);
    lemma_trim_all(slashes, '/');
}

proof fn lemma_trim_all(s: Seq<char>, c: char)
    requires
        forall|i: int| 0 <= i < s.len() ==> s[i] == c,
    ensures
        trim_char(s, c).len() == 0,
    decreases s.len(),
{
    if s.len() > 0 {
        lemma_trim_all(s.drop_first(), c);
    }
}

/// The bytes of a secret key.
pub uninterp spec fn key_bytes(k: SecretKey) -> Seq<u8>;

/// The public key that belongs to the secret key with these bytes.
pub uninterp spec fn public_key(bytes: Seq<u8>) -> PublicKey;

/// The value of an ASCII base32 digit: letters of either case, and behind them `2` to `7`.
pub open spec fn base32_value(b: u8) -> Option<int> {
    if 'a' as u8 <= b <= 'z' as u8 {
        Some(b - 'a' as u8)
    } else if 'A' as u8 <= b <= 'Z' as u8 {
        Some(b - 'A' as u8)
    } else if '2' as u8 <= b <= '7' as u8 {
        Some(b - '2' as u8 + 26)
    } else {
        None
    }
}

/// The number that the base32 digits in `b` stand for, the highest first.
pub open spec fn base32_number(b: Seq<u8>) -> int
    decreases b.len(),
{
    if b.len() == 0 {
        0
    } else {
        32 * base32_number(b.drop_last()) + base32_value(b.last())->0
    }
}

/// `b` is 32 bytes in base32: 52 digits, of whose 260 bits the last four are zero.
pub open spec fn is_base32_key(b: Seq<u8>) -> bool {
    &&& b.len() == 52
    &&& forall|i: int| 0 <= i < b.len() ==> base32_value(#[trigger] b[i]) is Some
    &&& base32_number(b) % 16 == 0
}

/// The 32 bytes that `b` gives in base32.
pub open spec fn base32_bytes(b: Seq<u8>) -> Seq<u8> {
    Seq::new(32, |i: int| (base32_number(b) / (16 * pow(256, (31 - i) as nat)) % 256) as u8)
}

/// Why a text is no secret key.
#[derive(Debug, Clone, Copy, PartialEq, Eq, Structural)]
pub enum KeyError {
    Hex,
    Base32,
    Length,
    Data,
}

impl KeyError {
    /// The error in words.
    pub open spec fn words(self) -> Seq<char> {
        match self {
            KeyError::Hex => "failed to decode hex string"@,
            KeyError::Base32 => "failed to decode base32 string"@,
            KeyError::Length => "invalid length"@,
            KeyError::Data => "data is not a valid public key"@,
        }
    }

    /// The error in words.
    pub fn message(&self) -> (r: &'static str)
        ensures
            r@ == self.words(),
    {
        match self {
            KeyError::Hex => "failed to decode hex string",
            KeyError::Base32 => "failed to decode base32 string",
            KeyError::Length => "invalid length",
            KeyError::Data => "data is not a valid public key",
        }
    }
}

/// `b` is hexadecimal, without uppercase digits.
pub open spec fn is_lower_hex(b: Seq<u8>) -> bool {
    &&& is_hex(b)
    &&& forall|i: int| 0 <= i < b.len() ==> !('A' as u8 <= #[trigger] b[i] <= 'F' as u8)
}

/// The bytes of the secret key that a text stands for: 64 digits of lowercase
/// hexadecimal, or 52 characters of base32.
pub open spec fn key_of_text(s: Seq<char>) -> Result<Seq<u8>, KeyError> {
    let b = encode_utf8(s);
    if b.len() == 64 {
        if is_lower_hex(b) {
            Ok(hex_bytes(b))
        } else {
            Err(KeyError::Hex)
        }
    } else if b.len() == 52 {
        if is_base32_key(b) {
            Ok(base32_bytes(b))
        } else {
            Err(KeyError::Base32)
        }
    } else {
        Err(KeyError::Length)
    }
}

/// `FromStr` for a `SecretKey`: the key in lowercase hexadecimal or in base32 of either
/// case, told apart by their lengths. The base32 decoder refuses trailing bits that are
/// not zero, and panics beyond the length required here.
#[verifier::external_body]
fn key_from_text(s: &str) -> (r: Result<SecretKey, KeyError>)
    requires
        encode_utf8(s@).len() <= usize::MAX / 8,
    ensures
        match r {
            Ok(k) => key_of_text(s@) == Ok::<Seq<u8>, KeyError>(key_bytes(k)),
            Err(e) => key_of_text(s@) == Err::<Seq<u8>, KeyError>(e),
        },
{
    match SecretKey::from_str(s) {
        Ok(k) => Ok(k),
        Err(KeyParsingError::FailedToDecodeHex { .. }) => Err(KeyError::Hex),
        Err(KeyParsingError::FailedToDecodeBase32 { .. }) => Err(KeyError::Base32),
        Err(KeyParsingError::InvalidLength { .. }) => Err(KeyError::Length),
        Err(_) => Err(KeyError::Data),
    }
}

/// `SecretKey::to_bytes`: the bytes of the key.
pub assume_specification[ SecretKey::to_bytes ](k: &SecretKey) -> (r: [u8; 32])
    ensures
        r@ == key_bytes(*k),
;

/// `SecretKey::public`: the public key, which the bytes of the secret key determine.
pub assume_specification[ SecretKey::public ](k: &SecretKey) -> (r: PublicKey)
    ensures
        r == public_key(key_bytes(*k)),
;

/// `SecretKey::generate`: a random key. Which one is left to chance; it has 32 bytes,
/// as every key.
pub assume_specification[ SecretKey::generate ]() -> (r: SecretKey)
    ensures
        key_bytes(r).len() == 32,
;

/// `rand::random`: random bytes for a secret. Which ones is left to chance.
#[verifier::external_body]
fn random_secret() -> (r: [u8; SECRET_LEN]) {
    rand::random()
}

/// The secret is one that `random_secret` gave.
pub closed spec fn drawn(secret: [u8; SECRET_LEN]) -> bool {
    call_ensures(random_secret, (), secret)
}

/// A secret counts as drawn only where a call of `random_secret` returned it.
proof fn lemma_drawn(secret: [u8; SECRET_LEN])
    ensures
        drawn(secret) <==> call_ensures(random_secret, (), secret),
{
}

/// The ticket that holds nothing but the public key for the secret key with these bytes.
pub open spec fn short_ticket(key: Seq<u8>) -> EndpointTicket {
    ticket_of_addr(bare_addr(public_key(key)))
}

/// The serving side's stable identity: the iroh endpoint key that peers dial,
/// and the bearer secret that authorizes them.
pub struct Identity {
    pub key: SecretKey,
    pub secret: [u8; SECRET_LEN],
}

/// How far the loading of an identity has come: the file that is looked at next.
pub enum LoadState {
    Key,
    Token { key: SecretKey },
}

/// Where one file has led.
pub enum LoadOutcome {
    Next(LoadState),
    Loaded(Identity),
}

/// What to do about the file that was looked at: write `store` to it, where it did
/// not exist, and go on with `outcome`.
pub struct LoadStep {
    pub store: Option<String>,
    pub outcome: LoadOutcome,
}

/// Why a file of the identity is corrupt.
#[derive(Debug, Clone, Copy, PartialEq, Eq, Structural)]
pub enum IdentityError {
    Key(KeyError),
    Token(SecretError),
}

impl IdentityError {
    /// The error in words, for the file at `path`.
    pub open spec fn words(self, path: Seq<char>) -> Seq<char> {
        match self {
            IdentityError::Key(e) => "corrupt "@ + path + ": "@ + e.words(),
            IdentityError::Token(SecretError::Hex(e)) => "corrupt "@ + path + ": "@ + e.words(),
            IdentityError::Token(SecretError::Length) => "corrupt "@ + path,
        }
    }

    /// The error in words, for the file at `path`.
    pub fn message(&self, path: &str) -> (r: String)
        ensures
            r@ == self.words(path@),
    {
        let mut s = text::join("corrupt ", path);
        match self {
            IdentityError::Key(e) => {
                s.append(": ");
                s.append(e.message());
            },
            IdentityError::Token(SecretError::Hex(e)) => {
                s.append(": ");
                s.append(e.message().as_str());
            },
            IdentityError::Token(SecretError::Length) => {},
        }
        s
    }
}

impl LoadState {
    /// The name of the file that is looked at next.
    pub fn file_name(&self) -> (r: &'static str)
        ensures
            r@ == (match self {
                LoadState::Key => "key"@,
                LoadState::Token { .. } => "token"@,
            }),
    {
        match self {
            LoadState::Key => "key",
            LoadState::Token { .. } => "token",
        }
    }
}

/// The key file leads to the key with these bytes: it holds that key, or it does not exist
/// and the key is a new one.
pub open spec fn gives_key(file: Option<Seq<char>>, key: Seq<u8>) -> bool {
    match file {
        Some(c) => key_of_text(trim_space(c)) == Ok::<Seq<u8>, KeyError>(key),
        None => key.len() == 32,
    }
}

/// The token file leads to the secret: it holds it, or it does not exist and the secret is
/// a new one.
pub open spec fn gives_secret(file: Option<Seq<char>>, secret: Seq<u8>) -> bool {
    match file {
        Some(c) => secret_of_text(trim_space(c)) == Ok::<Seq<u8>, SecretError>(secret),
        None => secret.len() == SECRET_LEN,
    }
}

/// What a file holds once it has led to the bytes: what it held, or where it did not exist
/// the bytes in hexadecimal.
pub open spec fn left_in(file: Option<Seq<char>>, bytes: Seq<u8>) -> Seq<char> {
    match file {
        Some(c) => c,
        None => hex_text(bytes),
    }
}

impl LoadStep {
    /// The step leaves an existing file alone, and writes the bytes in hexadecimal to one
    /// that does not exist.
    pub open spec fn keeps_or_stores(self, file: Option<Seq<char>>, bytes: Seq<u8>) -> bool {
        match file {
            Some(_) => self.store is None,
            None => self.store matches Some(s) && s@ == left_in(file, bytes),
        }
    }
}

impl Identity {
    /// A throwaway identity: a random key and a random secret.
    pub fn ephemeral() -> (r: Identity)
        ensures
            key_bytes(r.key).len() == 32,
            call_ensures(SecretKey::generate, (), r.key),
            drawn(r.secret),
    {
        Identity { key: SecretKey::generate(), secret: random_secret() }
    }

    /// One step of loading the identity stored in the files `key` and `token`, or of
    /// creating it on first use. `contents` is what the file that `state` names
    /// holds, or `None` where it does not exist. Reusing the identity keeps the
    /// repository's URL stable across serve sessions.
    pub fn load_or_create(state: LoadState, contents: Option<&str>) -> (r: Result<
        LoadStep,
        IdentityError,
    >)
        requires
            contents matches Some(c) ==> encode_utf8(trim_space(c@)).len() <= usize::MAX / 8,
        ensures
            match (state, r) {
                (LoadState::Key, Ok(step)) => {
                    &&& step.outcome matches LoadOutcome::Next(LoadState::Token { key })
                    &&& gives_key(text::view_of(contents), key_bytes(key))
                    &&& step.keeps_or_stores(text::view_of(contents), key_bytes(key))
                    &&& match contents {
                        Some(c) => {
                            &&& step.store is None
                            &&& key_of_text(trim_space(c@)) == Ok::<Seq<u8>, KeyError>(
                                key_bytes(key),
                            )
                        },
                        None => {
                            &&& call_ensures(SecretKey::generate, (), key)
                            &&& step.store is Some && step.store->0@ == hex_text(key_bytes(key))
                        },
                    }
                },
                (LoadState::Token { key }, Ok(step)) => {
                    &&& step.outcome matches LoadOutcome::Loaded(id)
                    &&& id.key == key
                    &&& gives_secret(text::view_of(contents), id.secret@)
                    &&& step.keeps_or_stores(text::view_of(contents), id.secret@)
                    &&& match contents {
                        Some(c) => {
                            &&& step.store is None
                            &&& secret_of_text(trim_space(c@)) == Ok::<Seq<u8>, SecretError>(
                                id.secret@,
                            )
                        },
                        None => {
                            &&& drawn(id.secret)
                            &&& step.store is Some && step.store->0@ == hex_text(id.secret@)
                        },
                    }
                },
                (LoadState::Key, Err(e)) => {
                    &&& contents matches Some(c)
                    &&& key_of_text(trim_space(c@)) matches Err(k)
                    &&& e == IdentityError::Key(k)
                },
                (LoadState::Token { .. }, Err(e)) => {
                    &&& contents matches Some(c)
                    &&& secret_of_text(trim_space(c@)) matches Err(k)
                    &&& e == IdentityError::Token(k)
                },
            },
    {
        match (state, contents) {
            (LoadState::Key, Some(c)) => {
                match key_from_text(text::trim(c)) {
                    Ok(key) => Ok(
                        LoadStep {
                            store: None,
                            outcome: LoadOutcome::Next(LoadState::Token { key }),
                        },
                    ),
                    Err(e) => Err(IdentityError::Key(e)),
                }
            },
            (LoadState::Key, None) => Ok(Identity::create_key(SecretKey::generate())),
            (LoadState::Token { key }, Some(c)) => {
                match secret_from_text(text::trim(c)) {
                    Ok(secret) => Ok(
                        LoadStep {
                            store: None,
                            outcome: LoadOutcome::Loaded(Identity { key, secret }),
                        },
                    ),
                    Err(e) => Err(IdentityError::Token(e)),
                }
            },
            (LoadState::Token { key }, None) => {
                Ok(Identity::create_token(key, random_secret()))
            },
        }
    }

    /// The step that stores a new key.
    pub fn create_key(key: SecretKey) -> (r: LoadStep)
        ensures
            key_bytes(key).len() == 32,
            r.store matches Some(s) && s@ == hex_text(key_bytes(key)),
            r.outcome == LoadOutcome::Next(LoadState::Token { key }),
    {
        let bytes = key.to_bytes();
        let hex = hex::encode(&bytes);
        LoadStep { store: Some(hex), outcome: LoadOutcome::Next(LoadState::Token { key }) }
    }

    /// The step that stores a new secret.
    pub fn create_token(key: SecretKey, secret: [u8; SECRET_LEN]) -> (r: LoadStep)
        ensures
            r.store matches Some(s) && s@ == hex_text(secret@),
            r.outcome == LoadOutcome::Loaded(Identity { key, secret }),
    {
        let hex = hex::encode(&secret);
        LoadStep { store: Some(hex), outcome: LoadOutcome::Loaded(Identity { key, secret }) }
    }

    /// The stable short URL of the identity, which peers can dial through discovery.
    pub fn short_url(&self) -> (r: RemoteUrl)
        ensures
            r.ticket == short_ticket(key_bytes(self.key)),
            ticket_addr(r.ticket) == bare_addr(public_key(key_bytes(self.key))),
            r.secret == self.secret,
            reads_back(r.ticket),
            printable(r.ticket),
    {
        let addr = EndpointAddr::new(self.key.public());
        RemoteUrl { ticket: EndpointTicket::new(addr), secret: self.secret }
    }

    /// The short URL as text, which parses to the identity's ticket and secret.
    pub fn short_url_text(&self) -> (r: String)
        ensures
            r@ == short_url_of(key_bytes(self.key), self.secret@),
            encode_utf8(r@).len() <= usize::MAX / 8,
            parse_url(r@) == (UrlMeaning::Remote {
                ticket: short_ticket(key_bytes(self.key)),
                secret: self.secret@,
            }),
    {
        self.short_url().to_string()
    }
}

/// The text of the short URL of the identity with this key and this secret.
pub open spec fn short_url_of(key: Seq<u8>, secret: Seq<u8>) -> Seq<char> {
    url_text(ticket_text(short_ticket(key)), secret)
}

/// Once an identity has been loaded or created, its files lead to that identity and to no
/// other, whichever of them existed before. What they hold between white space is short.
pub proof fn law_identity_is_stable(
    key_file: Option<Seq<char>>,
    token_file: Option<Seq<char>>,
    key: Seq<u8>,
    secret: Seq<u8>,
)
    requires
        gives_key(key_file, key),
        gives_secret(token_file, secret),
    ensures
        gives_key(Some(left_in(key_file, key)), key),
        gives_secret(Some(left_in(token_file, secret)), secret),
        forall|k: Seq<u8>| #[trigger]
            gives_key(Some(left_in(key_file, key)), k) ==> k == key,
        forall|s: Seq<u8>| #[trigger]
            gives_secret(Some(left_in(token_file, secret)), s) ==> s == secret,
        encode_utf8(trim_space(left_in(key_file, key))).len() <= 64,
        encode_utf8(trim_space(left_in(token_file, secret))).len() == 32,
{
    if key_file is None {
        hex::law_hex_round_trip(key);
        lemma_stored_key(key);
    }
    if token_file is None {
        hex::law_hex_round_trip(secret);
        lemma_hex_has_no_space(secret);
    }
}

/// Where a file of the identity does not exist, the key and the secret are new: the key is
/// one that `SecretKey::generate` returned, the secret is drawn, and each is stored in full,
/// so that it is read back whatever white space is put around it.
pub proof fn law_new_identity_is_drawn(
    key: SecretKey,
    before: Seq<char>,
    after: Seq<char>,
    r: Result<LoadStep, IdentityError>,
)
    requires
        forall|i: int| 0 <= i < before.len() ==> text::white_space(#[trigger] before[i]),
        forall|i: int| 0 <= i < after.len() ==> text::white_space(#[trigger] after[i]),
    ensures
        call_ensures(Identity::load_or_create, (LoadState::Key, None), r) ==> {
            &&& r matches Ok(step)
            &&& step.outcome matches LoadOutcome::Next(LoadState::Token { key: k })
            &&& call_ensures(SecretKey::generate, (), k)
            &&& step.store matches Some(s)
            &&& key_of_text(trim_space(before + s@ + after)) == Ok::<Seq<u8>, KeyError>(
                key_bytes(k),
            )
        },
        call_ensures(Identity::load_or_create, (LoadState::Token { key }, None), r) ==> {
            &&& r matches Ok(step)
            &&& step.outcome matches LoadOutcome::Loaded(id)
            &&& id.key == key && drawn(id.secret)
            &&& step.store matches Some(s)
            &&& secret_of_text(trim_space(before + s@ + after)) == Ok::<Seq<u8>, SecretError>(
                id.secret@,
            )
        },
{
    if let Ok(step) = r {
        if let Some(s) = step.store {
            if let LoadOutcome::Next(LoadState::Token { key: k }) = step.outcome {
                if s@ == hex_text(key_bytes(k)) && key_bytes(k).len() == 32 {
                    hex::law_hex_round_trip(key_bytes(k));
                    lemma_hex_has_no_space(key_bytes(k));
                    text::law_trim_space(before, s@, after);
                    lemma_stored_key(key_bytes(k));
                }
            }
            if let LoadOutcome::Loaded(id) = step.outcome {
                if s@ == hex_text(id.secret@) {
                    hex::law_hex_round_trip(id.secret@);
                    lemma_hex_has_no_space(id.secret@);
                    text::law_trim_space(before, s@, after);
                }
            }
        }
    }
}

/// A file that holds a key or a secret leads to that one and is left alone: the identity is
/// what stands in the files, and the key is handed on unchanged.
pub proof fn law_stored_identity_is_used(
    key: SecretKey,
    contents: &str,
    r: Result<LoadStep, IdentityError>,
)
    ensures
        call_ensures(Identity::load_or_create, (LoadState::Key, Some(contents)), r) ==> (
        match key_of_text(trim_space(contents@)) {
            Ok(k) => {
                &&& r matches Ok(step)
                &&& step.store is None
                &&& step.outcome matches LoadOutcome::Next(LoadState::Token { key: x })
                &&& key_bytes(x) == k
            },
            Err(e) => r == Err::<LoadStep, IdentityError>(IdentityError::Key(e)),
        }),
        call_ensures(Identity::load_or_create, (LoadState::Token { key }, Some(contents)), r) ==> (
        match secret_of_text(trim_space(contents@)) {
            Ok(s) => {
                &&& r matches Ok(step)
                &&& step.store is None
                &&& step.outcome matches LoadOutcome::Loaded(id)
                &&& id.key == key && id.secret@ == s
            },
            Err(e) => r == Err::<LoadStep, IdentityError>(IdentityError::Token(e)),
        }),
{
}

/// The words on a corrupt file hold the whole of its path.
pub proof fn law_identity_error_words(path: Seq<char>, k: KeyError, h: HexError)
    ensures
        IdentityError::Key(k).words(path) == "corrupt "@ + path + ": "@ + k.words(),
        IdentityError::Token(SecretError::Hex(h)).words(path) == "corrupt "@ + path + ": "@
            + h.words(),
        IdentityError::Token(SecretError::Length).words(path) == "corrupt "@ + path,
{
}

/// The words on output of git that is no text are those of the error.
pub proof fn law_git_dir_error_words(e: FromUtf8Error)
    ensures
        GitDirError::NotUtf8(e).words() == text::utf8_error_words(e),
{
}

/// The short URL holds nothing but the public key for the secret key, and the secret.
pub proof fn law_short_url(key: Seq<u8>, secret: Seq<u8>)
    ensures
        short_ticket(key) == ticket_of_addr(bare_addr(public_key(key))),
        short_url_of(key, secret) == "iroh://"@ + ticket_text(
            ticket_of_addr(bare_addr(public_key(key))),
        ) + "/"@ + hex_text(secret),
{
}

/// The git dir is the whole of the path that git printed: whatever the path holds and
/// however long it is, only the newline behind it is taken off.
pub proof fn law_git_dir_is_the_path(
    path: Seq<char>,
    stdout: Vec<u8>,
    r: Result<String, GitDirError>,
)
    requires
        stdout@ == encode_utf8(path.push('\n')),
        call_ensures(git_dir, (true, stdout), r),
    ensures
        r matches Ok(dir) && dir@ == path,
{
    encode_utf8_valid_utf8(path.push('\n'));
    encode_utf8_decode_utf8(path.push('\n'));
    text::law_without_newline(path);
}

/// The short URL of a repository stays the same once its identity has been loaded or
/// created: every identity that its files then lead to has the same text.
pub proof fn law_short_url_is_stable(
    key_file: Option<Seq<char>>,
    token_file: Option<Seq<char>>,
    key: Seq<u8>,
    secret: Seq<u8>,
    later_key: Seq<u8>,
    later_secret: Seq<u8>,
)
    requires
        gives_key(key_file, key),
        gives_secret(token_file, secret),
        gives_key(Some(left_in(key_file, key)), later_key),
        gives_secret(Some(left_in(token_file, secret)), later_secret),
    ensures
        short_url_of(later_key, later_secret) == short_url_of(key, secret),
{
    law_identity_is_stable(key_file, token_file, key, secret);
}

/// A key in lowercase hexadecimal is read back.
proof fn lemma_stored_key(key: Seq<u8>)
    requires
        key.len() == 32,
    ensures
        key_of_text(trim_space(hex_text(key))) == Ok::<Seq<u8>, KeyError>(key),
{
    hex::law_hex_round_trip(key);
    lemma_hex_has_no_space(key);
    let b = encode_utf8(hex_text(key));
    assert(is_ascii_chars(hex_text(key)));
    is_ascii_chars_encode_utf8(hex_text(key));
    assert forall|i: int| 0 <= i < b.len() implies !('A' as u8 <= #[trigger] b[i] <= 'F' as u8) by {
        assert(hex_text(key)[i] as u8 == b[i]);
    }
}

/// A text in hexadecimal has no white space around it.
proof fn lemma_hex_has_no_space(bytes: Seq<u8>)
    ensures
        trim_space(hex_text(bytes)) == hex_text(bytes),
{
    hex::law_hex_round_trip(bytes);
    text::lemma_trim_nothing(hex_text(bytes), |x: char| text::white_space(x));
}

/// Why there is no git dir.
#[derive(Debug)]
pub enum GitDirError {
    NotARepository,
    NotUtf8(FromUtf8Error),
}

impl GitDirError {
    /// The error in words.
    pub open spec fn words(self) -> Seq<char> {
        match self {
            GitDirError::NotARepository => "not inside a git repository"@,
            GitDirError::NotUtf8(e) => text::utf8_error_words(e),
        }
    }

    /// The error in words.
    pub fn message(&self) -> (r: String)
        ensures
            r@ == self.words(),
    {
        match self {
            GitDirError::NotARepository => "not inside a git repository".to_owned(),
            GitDirError::NotUtf8(e) => text::utf8_error_text(e),
        }
    }
}

/// Absolute path of the current repository's git dir, from whether
/// `git rev-parse --absolute-git-dir` succeeded and what it printed. The newline at the end
/// is git's; white space before it belongs to the path.
pub fn git_dir(success: bool, stdout: Vec<u8>) -> (r: Result<String, GitDirError>)
    ensures
        if !success {
            r == Err::<String, GitDirError>(GitDirError::NotARepository)
        } else if valid_utf8(stdout@) {
            &&& r matches Ok(dir)
            &&& dir@ == without_newline(decode_utf8(stdout@))
            &&& decode_utf8(stdout@) == dir@ || decode_utf8(stdout@) == dir@.push('\n')
        } else {
            r == Err::<String, GitDirError>(GitDirError::NotUtf8(utf8_error(stdout@)))
        },
{
    if !success {
        return Err(GitDirError::NotARepository);
    }
    match text::from_utf8(stdout) {
        Ok(s) => Ok(text::strip_newline(s.as_str()).to_owned()),
        Err(e) => Err(GitDirError::NotUtf8(e)),
    }
}

} // verus!
