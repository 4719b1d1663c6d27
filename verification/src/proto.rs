//! Wire protocol between the helper (client) and `serve` (server), spoken on
//! a single iroh bidirectional stream before handing the bytes over to git.
//!
//! Client -> server:
//!   magic (4) | service (1) | secret (16) | gp_len (1) | git_protocol (gp_len)
//! Server -> client:
//!   status (1)
//! Everything after that is raw `git upload-pack` / `git receive-pack` traffic.
use crate::text;
use std::string::FromUtf8Error;
use vstd::prelude::*;
use vstd::slice::slice_subrange;
use vstd::utf8::*;

verus! {

/// ALPN for the git-remote-iroh protocol: `git-remote-iroh/0`.
pub const ALPN: [u8; 17] = [
    0x67, 0x69, 0x74, 0x2d, 0x72, 0x65, 0x6d, 0x6f, 0x74, 0x65, 0x2d, 0x69, 0x72, 0x6f, 0x68, 0x2f,
    0x30,
];

/// Magic bytes opening every stream, `GRI0`; doubles as the protocol version gate.
pub const MAGIC: [u8; 4] = [0x47, 0x52, 0x49, 0x30];

/// Length in bytes of the bearer secret.
pub const SECRET_LEN: usize = 16;

/// Longest GIT_PROTOCOL value we are willing to forward into the environment.
pub const MAX_GIT_PROTOCOL_LEN: usize = 64;

/// The git service that a client asks for.
#[derive(Debug, Clone, Copy, PartialEq, Eq, Structural)]
pub enum Service {
    UploadPack,
    ReceivePack,
}

/// The byte that stands for a service on the wire.
pub open spec fn service_byte(s: Service) -> u8 {
    match s {
        Service::UploadPack => 1,
        Service::ReceivePack => 2,
    }
}

/// The service that a byte on the wire stands for.
pub open spec fn service_of_byte(b: u8) -> Option<Service> {
    if b == 1 {
        Some(Service::UploadPack)
    } else if b == 2 {
        Some(Service::ReceivePack)
    } else {
        None
    }
}

/// The service that git names in a `connect` command.
pub open spec fn service_of_name(name: Seq<char>) -> Option<Service> {
    if name == "git-upload-pack"@ {
        Some(Service::UploadPack)
    } else if name == "git-receive-pack"@ {
        Some(Service::ReceivePack)
    } else {
        None
    }
}

impl Service {
    /// The git subcommand that provides the service.
    pub open spec fn subcommand(self) -> Seq<char> {
        match self {
            Service::UploadPack => "upload-pack"@,
            Service::ReceivePack => "receive-pack"@,
        }
    }

    /// Parse the service name git passes to the helper's `connect` command.
    pub fn from_helper_name(name: &str) -> (r: Option<Service>)
        ensures
            r == service_of_name(name@),
    {
        if text::same(name, "git-upload-pack") {
            Some(Service::UploadPack)
        } else if text::same(name, "git-receive-pack") {
            Some(Service::ReceivePack)
        } else {
            None
        }
    }

    /// The git subcommand that provides the service.
    pub fn git_subcommand(self) -> (r: &'static str)
        ensures
            r@ == self.subcommand(),
    {
        match self {
            Service::UploadPack => "upload-pack",
            Service::ReceivePack => "receive-pack",
        }
    }

    /// The byte that stands for the service on the wire.
    pub fn to_byte(self) -> (r: u8)
        ensures
            r == service_byte(self),
    {
        match self {
            Service::UploadPack => 1,
            Service::ReceivePack => 2,
        }
    }

    /// The service that `b` stands for on the wire.
    pub fn from_byte(b: u8) -> (r: Result<Service, HeaderError>)
        ensures
            r == match service_of_byte(b) {
                Some(s) => Ok(s),
                None => Err(HeaderError::UnknownService(b)),
            },
    {
        match b {
            1 => Ok(Service::UploadPack),
            2 => Ok(Service::ReceivePack),
            _ => Err(HeaderError::UnknownService(b)),
        }
    }
}

/// Why a client header was not accepted.
#[derive(Debug)]
pub enum HeaderError {
    /// The stream ended inside the magic, the secret or the GIT_PROTOCOL value.
    EarlyEof,
    /// The stream ended before the service or before the length.
    UnexpectedEof,
    BadMagic,
    UnknownService(u8),
    GitProtocolTooLong,
    NotUtf8(FromUtf8Error),
    InvalidGitProtocol,
}

impl HeaderError {
    /// The error in words.
    pub open spec fn words(self) -> Seq<char> {
        match self {
            HeaderError::EarlyEof => "early eof"@,
            HeaderError::UnexpectedEof => "unexpected end of file"@,
            HeaderError::BadMagic => "bad magic; peer is not a git-remote-iroh client"@,
            HeaderError::UnknownService(b) => "unknown service "@ + text::decimal(b as nat),
            HeaderError::GitProtocolTooLong => "GIT_PROTOCOL value too long"@,
            HeaderError::NotUtf8(e) => text::utf8_error_words(e),
            HeaderError::InvalidGitProtocol => "invalid GIT_PROTOCOL value"@,
        }
    }

    /// The error in words.
    pub fn message(&self) -> (r: String)
        ensures
            r@ == self.words(),
    {
        match self {
            HeaderError::EarlyEof => "early eof".to_owned(),
            HeaderError::UnexpectedEof => "unexpected end of file".to_owned(),
            HeaderError::BadMagic => "bad magic; peer is not a git-remote-iroh client".to_owned(),
            HeaderError::UnknownService(b) => {
                text::join("unknown service ", text::decimal_usize(*b as usize).as_str())
            },
            HeaderError::GitProtocolTooLong => "GIT_PROTOCOL value too long".to_owned(),
            HeaderError::NotUtf8(e) => text::utf8_error_text(e),
            HeaderError::InvalidGitProtocol => "invalid GIT_PROTOCOL value".to_owned(),
        }
    }
}

/// `s` consists of printable ASCII characters.
pub open spec fn printable_ascii(s: Seq<char>) -> bool {
    forall|i: int| 0 <= i < s.len() ==> ' ' <= #[trigger] s[i] <= '~'
}

/// A GIT_PROTOCOL value we accept into the environment: short printable ASCII.
pub open spec fn printable_and_short(s: Seq<char>) -> bool {
    s.len() <= MAX_GIT_PROTOCOL_LEN && printable_ascii(s)
}

/// What a client header says.
pub struct HeaderView {
    pub service: Service,
    pub secret: Seq<u8>,
    pub git_protocol: Option<Seq<char>>,
}

/// The first message on a stream, from the client to the server.
#[derive(Debug)]
pub struct Header {
    pub service: Service,
    pub secret: [u8; SECRET_LEN],
    /// Value of GIT_PROTOCOL on the client, forwarded to the spawned service
    /// so protocol v2 works end to end.
    pub git_protocol: Option<String>,
}

impl View for Header {
    type V = HeaderView;

    open spec fn view(&self) -> HeaderView {
        HeaderView {
            service: self.service,
            secret: self.secret@,
            git_protocol: match self.git_protocol {
                Some(s) => Some(s@),
                None => None,
            },
        }
    }
}

/// The bytes of the GIT_PROTOCOL value in a header; an absent value has none.
pub open spec fn git_protocol_bytes(gp: Option<Seq<char>>) -> Seq<u8> {
    match gp {
        Some(s) => encode_utf8(s),
        None => Seq::empty(),
    }
}

/// The bytes of a header on the wire. The length of the GIT_PROTOCOL value is
/// written in one byte, which keeps its remainder modulo 256.
pub open spec fn encode_header(h: HeaderView) -> Seq<u8> {
    let gp = git_protocol_bytes(h.git_protocol);
    MAGIC@ + seq![service_byte(h.service)] + h.secret + seq![(gp.len() % 256) as u8] + gp
}

/// What reading a header from the front of `s` gives, and how many bytes of `s`
/// it takes.
pub open spec fn parse_header(s: Seq<u8>) -> (Result<HeaderView, HeaderError>, int) {
    let all = s.len() as int;
    if s.len() < 4 {
        (Err(HeaderError::EarlyEof), all)
    } else if s.take(4) != MAGIC@ {
        (Err(HeaderError::BadMagic), 4)
    } else if s.len() < 5 {
        (Err(HeaderError::UnexpectedEof), all)
    } else {
        match service_of_byte(s[4]) {
            None => (Err(HeaderError::UnknownService(s[4])), 5),
            Some(service) => {
                let secret = s.subrange(5, 21);
                let end = 22 + s[21];
                let gp = s.subrange(22, end);
                if s.len() < 21 {
                    (Err(HeaderError::EarlyEof), all)
                } else if s.len() < 22 {
                    (Err(HeaderError::UnexpectedEof), all)
                } else if s[21] > MAX_GIT_PROTOCOL_LEN {
                    (Err(HeaderError::GitProtocolTooLong), 22)
                } else if s[21] == 0 {
                    (Ok(HeaderView { service, secret, git_protocol: None }), 22)
                } else if s.len() < end {
                    (Err(HeaderError::EarlyEof), all)
                } else if !valid_utf8(gp) {
                    (Err(HeaderError::NotUtf8(text::utf8_error(gp))), end)
                } else if !printable_and_short(decode_utf8(gp)) {
                    (Err(HeaderError::InvalidGitProtocol), end)
                } else {
                    (
                        Ok(HeaderView { service, secret, git_protocol: Some(decode_utf8(gp)) }),
                        end,
                    )
                }
            },
        }
    }
}

/// How far the reading of a header has come: the field that is read next, and
/// what the fields before it said.
pub enum HeaderStage {
    Magic,
    Service,
    Secret { service: Service },
    Length { service: Service, secret: [u8; SECRET_LEN] },
    GitProtocol { service: Service, secret: [u8; SECRET_LEN], len: u8 },
}

/// What one field led to.
pub enum HeaderProgress {
    More(HeaderStage),
    Done(Header),
}

impl HeaderStage {
    /// The number of bytes of the field that is read next.
    pub open spec fn field_len(self) -> nat {
        match self {
            HeaderStage::Magic => 4,
            HeaderStage::Service => 1,
            HeaderStage::Secret { .. } => 16,
            HeaderStage::Length { .. } => 1,
            HeaderStage::GitProtocol { len, .. } => len as nat,
        }
    }

    /// The stage belongs to a header that begins with the first `pos` bytes of `s`.
    pub open spec fn reached(self, s: Seq<u8>, pos: int) -> bool {
        let magic = s.len() >= 4 && s.take(4) == MAGIC@;
        match self {
            HeaderStage::Magic => pos == 0,
            HeaderStage::Service => pos == 4 && magic,
            HeaderStage::Secret { service } => {
                &&& pos == 5 && magic && s.len() >= 5
                &&& service_of_byte(s[4]) == Some(service)
            },
            HeaderStage::Length { service, secret } => {
                &&& pos == 21 && magic && s.len() >= 21
                &&& service_of_byte(s[4]) == Some(service)
                &&& secret@ == s.subrange(5, 21)
            },
            HeaderStage::GitProtocol { service, secret, len } => {
                &&& pos == 22 && magic && s.len() >= 22
                &&& service_of_byte(s[4]) == Some(service)
                &&& secret@ == s.subrange(5, 21)
                &&& s[21] == len
                &&& 0 < len <= MAX_GIT_PROTOCOL_LEN
            },
        }
    }

    /// The number of bytes to read before the next call of `step`.
    pub fn need(&self) -> (r: usize)
        ensures
            r == self.field_len(),
            self matches HeaderStage::GitProtocol { len, .. } ==> r == len,
    {
        match self {
            HeaderStage::Magic => 4,
            HeaderStage::Service => 1,
            HeaderStage::Secret { .. } => SECRET_LEN,
            HeaderStage::Length { .. } => 1,
            HeaderStage::GitProtocol { len, .. } => *len as usize,
        }
    }

    /// The error where the stream ends before the field is complete.
    pub open spec fn cut_short(self) -> HeaderError {
        match self {
            HeaderStage::Service => HeaderError::UnexpectedEof,
            HeaderStage::Length { .. } => HeaderError::UnexpectedEof,
            _ => HeaderError::EarlyEof,
        }
    }

    /// The error where the stream ends before the field is complete.
    pub fn at_end(&self) -> (r: HeaderError)
        ensures
            r == self.cut_short(),
    {
        match self {
            HeaderStage::Service => HeaderError::UnexpectedEof,
            HeaderStage::Length { .. } => HeaderError::UnexpectedEof,
            _ => HeaderError::EarlyEof,
        }
    }

    /// Takes the bytes of one field.
    pub fn step(self, bytes: Vec<u8>) -> (r: Result<HeaderProgress, HeaderError>)
        requires
            bytes@.len() == self.field_len(),
        ensures
            match self {
                HeaderStage::Magic => if bytes@ == MAGIC@ {
                    r == Ok::<HeaderProgress, HeaderError>(
                        HeaderProgress::More(HeaderStage::Service),
                    )
                } else {
                    r == Err::<HeaderProgress, HeaderError>(HeaderError::BadMagic)
                },
                HeaderStage::Service => match service_of_byte(bytes@[0]) {
                    Some(service) => r == Ok::<HeaderProgress, HeaderError>(
                        HeaderProgress::More(HeaderStage::Secret { service }),
                    ),
                    None => r == Err::<HeaderProgress, HeaderError>(
                        HeaderError::UnknownService(bytes@[0]),
                    ),
                },
                HeaderStage::Secret { service } => {
                    &&& r matches Ok(
                        HeaderProgress::More(HeaderStage::Length { service: s, secret }),
                    )
                    &&& s == service
                    &&& secret@ == bytes@
                },
                HeaderStage::Length { service, secret } => if bytes@[0] > MAX_GIT_PROTOCOL_LEN {
                    r == Err::<HeaderProgress, HeaderError>(HeaderError::GitProtocolTooLong)
                } else if bytes@[0] == 0 {
                    &&& r matches Ok(HeaderProgress::Done(h))
                    &&& h.service == service && h.secret@ == secret@ && h.git_protocol is None
                    &&& h@ == (HeaderView { service, secret: secret@, git_protocol: None })
                } else {
                    r == Ok::<HeaderProgress, HeaderError>(
                        HeaderProgress::More(
                            HeaderStage::GitProtocol { service, secret, len: bytes@[0] },
                        ),
                    )
                },
                HeaderStage::GitProtocol { service, secret, .. } => if !valid_utf8(bytes@) {
                    r == Err::<HeaderProgress, HeaderError>(
                        HeaderError::NotUtf8(text::utf8_error(bytes@)),
                    )
                } else if !printable_and_short(decode_utf8(bytes@)) {
                    r == Err::<HeaderProgress, HeaderError>(HeaderError::InvalidGitProtocol)
                } else {
                    &&& r matches Ok(HeaderProgress::Done(h))
                    &&& h.service == service && h.secret@ == secret@
                    &&& h.git_protocol is Some && encode_utf8(h.git_protocol->0@) == bytes@
                    &&& h@ == (HeaderView {
                        service,
                        secret: secret@,
                        git_protocol: Some(decode_utf8(bytes@)),
                    })
                },
            },
    {
        let ghost given = bytes@;
        match self {
            HeaderStage::Magic => {
                let magic = MAGIC;
                if bytes[0] == magic[0] && bytes[1] == magic[1] && bytes[2] == magic[2] && bytes[3]
                    == magic[3] {
                    assert(bytes@ =~= MAGIC@);
                    Ok(HeaderProgress::More(HeaderStage::Service))
                } else {
                    Err(HeaderError::BadMagic)
                }
            },
            HeaderStage::Service => match Service::from_byte(bytes[0]) {
                Ok(service) => Ok(HeaderProgress::More(HeaderStage::Secret { service })),
                Err(e) => Err(e),
            },
            HeaderStage::Secret { service } => {
                let secret = secret_array(bytes.as_slice());
                Ok(HeaderProgress::More(HeaderStage::Length { service, secret }))
            },
            HeaderStage::Length { service, secret } => {
                let len = bytes[0];
                if len as usize > MAX_GIT_PROTOCOL_LEN {
                    Err(HeaderError::GitProtocolTooLong)
                } else if len == 0 {
                    Ok(HeaderProgress::Done(Header { service, secret, git_protocol: None }))
                } else {
                    Ok(HeaderProgress::More(HeaderStage::GitProtocol { service, secret, len }))
                }
            },
            HeaderStage::GitProtocol { service, secret, .. } => match text::from_utf8(bytes) {
                Ok(s) => if valid_git_protocol(s.as_str()) {
                    proof {
                        decode_utf8_encode_utf8(given);
                    }
                    Ok(HeaderProgress::Done(Header { service, secret, git_protocol: Some(s) }))
                } else {
                    Err(HeaderError::InvalidGitProtocol)
                },
                Err(e) => Err(HeaderError::NotUtf8(e)),
            },
        }
    }
}

/// The secret that `bytes` hold.
pub(crate) fn secret_array(bytes: &[u8]) -> (r: [u8; SECRET_LEN])
    requires
        bytes@.len() == SECRET_LEN,
    ensures
        r@ == bytes@,
{
    let mut a: [u8; SECRET_LEN] = [0u8; 16];
    let mut i: usize = 0;
    while i < SECRET_LEN
        invariant
            i <= SECRET_LEN,
            bytes@.len() == SECRET_LEN,
            forall|j: int| 0 <= j < i ==> a@[j] == bytes@[j],
        decreases SECRET_LEN - i,
    {
        a[i] = bytes[i];
        i += 1;
    }
    assert(a@ =~= bytes@);
    a
}

/// Appends `bytes` to `w`.
fn append(w: &mut Vec<u8>, bytes: &[u8])
    ensures
        final(w)@ == old(w)@ + bytes@,
{
    let mut i: usize = 0;
    assert(bytes@.take(0) =~= Seq::<u8>::empty());
    while i < bytes.len()
        invariant
            i <= bytes@.len(),
            w@ == old(w)@ + bytes@.take(i as int),
        decreases bytes@.len() - i,
    {
        w.push(bytes[i]);
        assert(bytes@.take(i + 1) =~= bytes@.take(i as int).push(bytes@[i as int]));
        i += 1;
    }
    assert(bytes@.take(i as int) =~= bytes@);
}

/// The first `n` bytes of `r`, which then continues behind them.
fn read_exact(r: &mut &[u8], n: usize) -> (b: Option<Vec<u8>>)
    ensures
        match b {
            Some(v) => n <= old(r)@.len() && v@ == old(r)@.take(n as int) && final(r)@ == old(
                r,
            )@.skip(n as int),
            None => old(r)@.len() < n && final(r)@ == Seq::<u8>::empty(),
        },
{
    let s: &[u8] = *r;
    if s.len() < n {
        *r = slice_subrange(s, s.len(), s.len());
        assert(r@ =~= Seq::<u8>::empty());
        None
    } else {
        let mut v: Vec<u8> = Vec::new();
        let head = slice_subrange(s, 0, n);
        append(&mut v, head);
        *r = slice_subrange(s, n, s.len());
        assert(v@ =~= s@.take(n as int));
        assert(r@ =~= s@.skip(n as int));
        Some(v)
    }
}

impl Header {
    /// Appends the header, in its form on the wire, to `w`.
    pub fn write(&self, w: &mut Vec<u8>)
        ensures
            final(w)@ == old(w)@ + encode_header(self@),
            ({
                let sent = final(w)@.skip(old(w)@.len() as int);
                &&& final(w)@ == old(w)@ + sent
                &&& sent.len() >= 22
                &&& sent.take(4) == seq![0x47u8, 0x52, 0x49, 0x30]
                &&& sent[4] == (if self.service == Service::UploadPack {
                    1u8
                } else {
                    2u8
                })
                &&& sent.subrange(5, 21) == self.secret@
                &&& sent[21] == sent.skip(22).len() % 256
                &&& sent.skip(22) == (match self.git_protocol {
                    Some(s) => encode_utf8(s@),
                    None => Seq::empty(),
                })
            }),
    {
        let gp: &str = match &self.git_protocol {
            Some(s) => s.as_str(),
            None => "",
        };
        proof {
            reveal_strlit("");
            assert(encode_utf8(gp@) =~= git_protocol_bytes(self@.git_protocol));
        }
        let magic = MAGIC;
        append(w, &magic);
        w.push(self.service.to_byte());
        append(w, &self.secret);
        let gp_bytes = gp.as_bytes();
        let len: usize = gp_bytes.len();
        assert(len as u8 == len % 256) by (bit_vector);
        w.push(#[verifier::truncate] (len as u8));
        append(w, gp_bytes);
        assert(w@ =~= old(w)@ + encode_header(self@));
        proof {
            let sent = w@.skip(old(w)@.len() as int);
            assert(sent =~= encode_header(self@));
            law_header_layout(self@);
        }
    }

    /// Reads a header from the front of `r` and leaves in `r` what follows it.
    pub fn read(r: &mut &[u8]) -> (res: Result<Header, HeaderError>)
        ensures
            match res {
                Ok(h) => parse_header(old(r)@).0 == Ok::<HeaderView, HeaderError>(h@),
                Err(e) => parse_header(old(r)@).0 == Err::<HeaderView, HeaderError>(e),
            },
            final(r)@ == old(r)@.skip(parse_header(old(r)@).1),
            res matches Ok(h) ==> {
                let s = old(r)@;
                &&& s.len() >= 22 + s[21]
                &&& s.take(4) == seq![0x47u8, 0x52, 0x49, 0x30]
                &&& s[4] == (if h.service == Service::UploadPack {
                    1u8
                } else {
                    2u8
                })
                &&& s.subrange(5, 21) == h.secret@
                &&& s.subrange(22, 22 + s[21]) == (match h.git_protocol {
                    Some(p) => encode_utf8(p@),
                    None => Seq::empty(),
                })
                &&& final(r)@ == s.skip(22 + s[21])
            },
    {
        let ghost s = r@;
        let ghost mut pos: int = 0;
        let mut stage = HeaderStage::Magic;
        assert(s.skip(0) =~= s);
        loop
            invariant
                s == old(r)@,
                0 <= pos <= s.len(),
                stage.reached(s, pos),
                r@ == s.skip(pos),
            decreases 22 - pos,
        {
            let ghost field = s.subrange(pos, pos + stage.field_len());
            let ghost before = stage;
            match read_exact(r, stage.need()) {
                None => {
                    assert(s.skip(s.len() as int) =~= Seq::<u8>::empty());
                    return Err(stage.at_end());
                },
                Some(bytes) => {
                    assert(bytes@ =~= field);
                    assert(r@ =~= s.skip(pos + before.field_len()));
                    assert(s.take(4) =~= s.subrange(0, 4));
                    match stage.step(bytes) {
                        Ok(HeaderProgress::More(next)) => {
                            proof {
                                pos = pos + before.field_len();
                            }
                            stage = next;
                        },
                        Ok(HeaderProgress::Done(h)) => {
                            proof {
                                law_accepted_header_layout(s);
                            }
                            return Ok(h);
                        },
                        Err(e) => {
                            return Err(e);
                        },
                    }
                },
            }
        }
    }
}

/// `b` consists of the bytes of printable ASCII characters.
spec fn printable_bytes(b: Seq<u8>) -> bool {
    forall|i: int| 0 <= i < b.len() ==> 0x20 <= #[trigger] b[i] < 0x7f
}

/// A character with a small code is an ASCII character.
proof fn lemma_ascii_char(c: char)
    requires
        (c as u32) < 0x7f,
    ensures
        '\0' <= c <= '\u{7f}',
{
}

/// A text whose UTF-8 bytes are all ASCII consists of ASCII characters.
proof fn lemma_ascii_bytes(s: Seq<char>)
    requires
        forall|i: int| 0 <= i < encode_utf8(s).len() ==> #[trigger] encode_utf8(s)[i] < 0x7f,
    ensures
        is_ascii_chars(s),
    decreases s.len(),
{
    if s.len() > 0 {
        let b = encode_utf8(s);
        let rest = s.drop_first();
        let n = encode_scalar(s[0] as u32).len() as int;
        let first = b[0];
        encode_utf8_first_scalar(s);
        assert(b =~= encode_scalar(s[0] as u32) + encode_utf8(rest));
        assert forall|i: int| 0 <= i < encode_utf8(rest).len() implies #[trigger] encode_utf8(
            rest,
        )[i] < 0x7f by {
            assert(encode_utf8(rest)[i] == b[i + n]);
        }
        lemma_ascii_bytes(rest);
        assert(first < 0x7f);
        assert(is_leading_byte_width_1(first));
        assert(first <= 0x7f ==> (first & 0x7f) == first) by (bit_vector);
        assert(s[0] as u32 == first);
        lemma_ascii_char(s[0]);
        assert forall|i: int| 0 <= i < s.len() implies '\0' <= #[trigger] s[i] <= '\u{7f}' by {
            if i > 0 {
                assert(rest[i - 1] == s[i]);
            }
        }
    }
}

/// A text is printable ASCII exactly where its UTF-8 bytes are, and then has as many
/// bytes as characters.
proof fn lemma_printable_bytes(s: Seq<char>)
    ensures
        printable_bytes(encode_utf8(s)) <==> printable_ascii(s),
        printable_ascii(s) ==> encode_utf8(s).len() == s.len(),
{
    let b = encode_utf8(s);
    if printable_bytes(b) {
        lemma_ascii_bytes(s);
    }
    if printable_bytes(b) || printable_ascii(s) {
        assert(is_ascii_chars(s));
        is_ascii_chars_encode_utf8(s);
        assert forall|i: int| 0 <= i < s.len() implies #[trigger] b[i] == s[i] as u8 by {}
        assert forall|i: int| 0 <= i < s.len() implies #[trigger] s[i] as u32 == b[i] by {}
    }
}

/// A GIT_PROTOCOL value we accept into the environment: short printable ASCII.
pub fn valid_git_protocol(s: &str) -> (r: bool)
    ensures
        r == printable_and_short(s@),
        r <==> {
            let b = encode_utf8(s@);
            b.len() <= 64 && forall|i: int| 0 <= i < b.len() ==> 0x20 <= #[trigger] b[i] < 0x7f
        },
{
    let b = s.as_bytes();
    proof {
        lemma_printable_bytes(s@);
    }
    if b.len() > MAX_GIT_PROTOCOL_LEN {
        return false;
    }
    let mut i: usize = 0;
    while i < b.len()
        invariant
            i <= b@.len(),
            b@ == encode_utf8(s@),
            printable_bytes(b@) <==> printable_ascii(s@),
            forall|j: int| 0 <= j < i ==> 0x20 <= #[trigger] b@[j] < 0x7f,
        decreases b@.len() - i,
    {
        if b[i] < 0x20 || b[i] >= 0x7f {
            return false;
        }
        i += 1;
    }
    true
}

/// The server's answer to a header.
#[derive(Debug, Clone, Copy, PartialEq, Eq, Structural)]
pub enum Status {
    Accepted,
    BadAuth,
    Denied,
}

/// Why no status could be read.
#[derive(Debug, Clone, Copy, PartialEq, Eq, Structural)]
pub enum StatusError {
    /// The stream ended before the status.
    UnexpectedEof,
    Unknown(u8),
}

impl StatusError {
    /// The error in words.
    pub open spec fn words(self) -> Seq<char> {
        match self {
            StatusError::UnexpectedEof => "unexpected end of file"@,
            StatusError::Unknown(b) => "unknown status "@ + text::decimal(b as nat),
        }
    }

    /// The error in words.
    pub fn message(&self) -> (r: String)
        ensures
            r@ == self.words(),
    {
        match self {
            StatusError::UnexpectedEof => "unexpected end of file".to_owned(),
            StatusError::Unknown(b) => {
                text::join("unknown status ", text::decimal_usize(*b as usize).as_str())
            },
        }
    }
}

/// The byte that stands for a status on the wire.
pub open spec fn status_byte(s: Status) -> u8 {
    match s {
        Status::Accepted => 0,
        Status::BadAuth => 1,
        Status::Denied => 2,
    }
}

/// What reading a status from the front of `s` gives.
pub open spec fn parse_status(s: Seq<u8>) -> Result<Status, StatusError> {
    if s.len() == 0 {
        Err(StatusError::UnexpectedEof)
    } else if s[0] == 0 {
        Ok(Status::Accepted)
    } else if s[0] == 1 {
        Ok(Status::BadAuth)
    } else if s[0] == 2 {
        Ok(Status::Denied)
    } else {
        Err(StatusError::Unknown(s[0]))
    }
}

impl Status {
    /// Appends the status, in its form on the wire, to `w`.
    pub fn write(self, w: &mut Vec<u8>)
        ensures
            final(w)@ == old(w)@ + seq![status_byte(self)],
    {
        let b: u8 = match self {
            Status::Accepted => 0,
            Status::BadAuth => 1,
            Status::Denied => 2,
        };
        w.push(b);
        assert(w@ =~= old(w)@ + seq![status_byte(self)]);
    }

    /// Reads a status from the front of `r` and leaves in `r` what follows it.
    pub fn read(r: &mut &[u8]) -> (res: Result<Status, StatusError>)
        ensures
            res == parse_status(old(r)@),
            final(r)@ == (if old(r)@.len() == 0 {
                old(r)@
            } else {
                old(r)@.skip(1)
            }),
    {
        match read_exact(r, 1) {
            None => {
                assert(r@ =~= old(r)@);
                Err(StatusError::UnexpectedEof)
            },
            Some(v) => match v[0] {
                0 => Ok(Status::Accepted),
                1 => Ok(Status::BadAuth),
                2 => Ok(Status::Denied),
                b => Err(StatusError::Unknown(b)),
            },
        }
    }
}

/// Constant-time comparison of two secrets.
pub fn secrets_match(a: &[u8; SECRET_LEN], b: &[u8; SECRET_LEN]) -> (r: bool)
    ensures
        r == (a@ == b@),
{
    let mut acc: u8 = 0;
    let mut i: usize = 0;
    while i < SECRET_LEN
        invariant
            i <= SECRET_LEN,
            acc == 0 <==> forall|j: int| 0 <= j < i ==> a@[j] == b@[j],
        decreases SECRET_LEN - i,
    {
        let x: u8 = a[i];
        let y: u8 = b[i];
        assert((acc | (x ^ y)) == 0 <==> acc == 0 && x == y) by (bit_vector);
        acc = acc | (x ^ y);
        i += 1;
    }
    proof {
        if acc == 0 {
            assert(a@ =~= b@);
        }
    }
    acc == 0
}

/// The layout of a header: the bytes of `GRI0`, one byte for the service, the sixteen bytes
/// of the secret in their order, one byte for the length, and then the UTF-8 bytes of the
/// GIT_PROTOCOL value, of which an absent one has none.
pub proof fn law_header_layout(h: HeaderView)
    requires
        h.secret.len() == 16,
    ensures
        encode_header(h).len() >= 22,
        encode_header(h).take(4) == seq![0x47u8, 0x52, 0x49, 0x30],
        h.service == Service::UploadPack ==> encode_header(h)[4] == 1,
        h.service == Service::ReceivePack ==> encode_header(h)[4] == 2,
        encode_header(h).subrange(5, 21) == h.secret,
        encode_header(h)[21] == encode_header(h).skip(22).len() % 256,
        encode_header(h).skip(22) == (match h.git_protocol {
            Some(s) => encode_utf8(s),
            None => Seq::empty(),
        }),
{
    let b = encode_header(h);
    assert(b.take(4) =~= seq![0x47u8, 0x52, 0x49, 0x30]);
    assert(b.subrange(5, 21) =~= h.secret);
    assert(b.skip(22) =~= git_protocol_bytes(h.git_protocol));
}

/// What a header says is what its fields hold.
pub proof fn law_header_view(h: Header)
    ensures
        h@.service == h.service,
        h@.secret == h.secret@,
        h.git_protocol is None <==> h@.git_protocol is None,
        h.git_protocol matches Some(s) ==> h@.git_protocol == Some(s@),
{
}

/// The fields of an accepted header stand where the layout puts them: what was read is what
/// the bytes hold there, and the length byte says how far the header goes.
pub proof fn law_accepted_header_layout(s: Seq<u8>)
    ensures
        parse_header(s) matches (Ok(h), used) ==> {
            &&& used == 22 + s[21] && used <= s.len()
            &&& s.take(4) == seq![0x47u8, 0x52, 0x49, 0x30]
            &&& s[4] == (if h.service == Service::UploadPack {
                1u8
            } else {
                2u8
            })
            &&& s.subrange(5, 21) == h.secret
            &&& s.subrange(22, used) == (match h.git_protocol {
                Some(p) => encode_utf8(p),
                None => Seq::empty(),
            })
        },
{
    if let (Ok(h), used) = parse_header(s) {
        assert(MAGIC@ =~= seq![0x47u8, 0x52, 0x49, 0x30]);
        if s[21] != 0 {
            decode_utf8_encode_utf8(s.subrange(22, used));
        } else {
            assert(s.subrange(22, 22) =~= Seq::<u8>::empty());
        }
    }
}

/// What is wrong with a header is told by the first field that is wrong: another magic,
/// another service than the two, a length over 64, bytes that are not UTF-8, or a text that
/// is not printable ASCII. Where the stream ends before that, it is short: at the service
/// and at the length by a byte that is missing, and else inside a field.
pub proof fn law_header_faults(s: Seq<u8>)
    ensures
        ({
            let magic = s.len() >= 4 && s.take(4) == seq![0x47u8, 0x52, 0x49, 0x30];
            let service = magic && s.len() >= 5 && (s[4] == 1 || s[4] == 2);
            let short = service && s.len() >= 22 && s[21] <= 64;
            let gp = s.subrange(22, 22 + s[21]);
            &&& s.len() < 4 || (service && 5 <= s.len() < 21) || (short && s.len() < 22 + s[21])
                ==> parse_header(s) == (
                Err::<HeaderView, HeaderError>(HeaderError::EarlyEof),
                s.len() as int,
            )
            &&& (magic && s.len() == 4) || (service && s.len() == 21) ==> parse_header(s) == (
                Err::<HeaderView, HeaderError>(HeaderError::UnexpectedEof),
                s.len() as int,
            )
            &&& s.len() >= 4 && !magic ==> parse_header(s) == (
                Err::<HeaderView, HeaderError>(HeaderError::BadMagic),
                4int,
            )
            &&& magic && s.len() >= 5 && !service ==> parse_header(s) == (
                Err::<HeaderView, HeaderError>(HeaderError::UnknownService(s[4])),
                5int,
            )
            &&& service && s.len() >= 22 && !short ==> parse_header(s) == (
                Err::<HeaderView, HeaderError>(HeaderError::GitProtocolTooLong),
                22int,
            )
            &&& short && s.len() >= 22 + s[21] ==> {
                let printable = forall|i: int|
                    0 <= i < gp.len() ==> 0x20 <= #[trigger] gp[i] < 0x7f;
                &&& parse_header(s).1 == 22 + s[21]
                &&& !valid_utf8(gp) ==> parse_header(s).0 == Err::<HeaderView, HeaderError>(
                    HeaderError::NotUtf8(text::utf8_error(gp)),
                )
                &&& valid_utf8(gp) && !printable ==> parse_header(s).0 == Err::<
                    HeaderView,
                    HeaderError,
                >(HeaderError::InvalidGitProtocol)
                &&& valid_utf8(gp) && printable ==> parse_header(s).0 is Ok
            }
        }),
{
    assert(MAGIC@ =~= seq![0x47u8, 0x52, 0x49, 0x30]);
    if s.len() >= 22 && s.len() >= 22 + s[21] {
        let gp = s.subrange(22, 22 + s[21]);
        if valid_utf8(gp) {
            decode_utf8_encode_utf8(gp);
            lemma_printable_bytes(decode_utf8(gp));
        }
        if s[21] == 0 {
            assert(gp =~= Seq::<u8>::empty());
        }
    }
}

/// A stream that ends inside a header so far in order is short: at the service and at the
/// length by a byte that is missing, and else inside a field. All of it has been taken.
pub proof fn law_header_cut_short(h: HeaderView, n: int)
    requires
        h.secret.len() == SECRET_LEN,
        h.git_protocol matches Some(s) ==> s.len() > 0 && printable_and_short(s),
        0 <= n < encode_header(h).len(),
    ensures
        parse_header(encode_header(h).take(n)) == (
            Err::<HeaderView, HeaderError>(
                if n == 4 || n == 21 {
                    HeaderError::UnexpectedEof
                } else {
                    HeaderError::EarlyEof
                },
            ),
            n,
        ),
{
    let b = encode_header(h);
    let s = b.take(n);
    law_header_layout(h);
    if let Some(p) = h.git_protocol {
        lemma_printable_bytes(p);
    }
    if n >= 4 {
        assert(s.take(4) =~= b.take(4));
        assert(s.take(4) =~= MAGIC@);
    }
    if n >= 22 {
        assert(s[21] == b[21]);
        assert(b.len() == 22 + b.skip(22).len());
    }
}

/// The fields of a written header, handed to the reader one by one, lead it from field to
/// field and to the header that was written.
pub proof fn law_header_field_by_field(h: Header, secret: [u8; SECRET_LEN], field: Vec<u8>, r:
    Result<HeaderProgress, HeaderError>)
    requires
        h.git_protocol matches Some(s) ==> s@.len() > 0 && printable_and_short(s@),
        secret@ == h.secret@,
    ensures
        ({
            let b = encode_header(h@);
            let service = h.service;
            let len = b[21];
            &&& field@ == b.subrange(0, 4) && call_ensures(
                HeaderStage::step,
                (HeaderStage::Magic, field),
                r,
            ) ==> r == Ok::<HeaderProgress, HeaderError>(HeaderProgress::More(HeaderStage::Service))
            &&& field@ == b.subrange(4, 5) && call_ensures(
                HeaderStage::step,
                (HeaderStage::Service, field),
                r,
            ) ==> r == Ok::<HeaderProgress, HeaderError>(
                HeaderProgress::More(HeaderStage::Secret { service }),
            )
            &&& field@ == b.subrange(5, 21) && call_ensures(
                HeaderStage::step,
                (HeaderStage::Secret { service }, field),
                r,
            ) ==> (r matches Ok(HeaderProgress::More(HeaderStage::Length { service: s, secret: k }))
                && s == service && k@ == h.secret@)
            &&& field@ == b.subrange(21, 22) && call_ensures(
                HeaderStage::step,
                (HeaderStage::Length { service, secret }, field),
                r,
            ) ==> if h.git_protocol is None {
                r matches Ok(HeaderProgress::Done(g)) && same_header(g, h)
            } else {
                r == Ok::<HeaderProgress, HeaderError>(
                    HeaderProgress::More(HeaderStage::GitProtocol { service, secret, len }),
                )
            }
            &&& h.git_protocol is Some && field@ == b.skip(22) && call_ensures(
                HeaderStage::step,
                (HeaderStage::GitProtocol { service, secret, len }, field),
                r,
            ) ==> (r matches Ok(HeaderProgress::Done(g)) && same_header(g, h))
        }),
{
    let b = encode_header(h@);
    law_header_layout(h@);
    assert(b.subrange(0, 4) =~= b.take(4));
    assert(MAGIC@ =~= b.take(4));
    if let Some(p) = h.git_protocol {
        lemma_printable_bytes(p@);
        encode_utf8_decode_utf8(p@);
        encode_utf8_valid_utf8(p@);
    }
}

/// The two headers hold the same fields.
pub open spec fn same_header(g: Header, h: Header) -> bool {
    &&& g.service == h.service
    &&& g.secret@ == h.secret@
    &&& match (g.git_protocol, h.git_protocol) {
        (Some(x), Some(y)) => x@ == y@,
        (None, None) => true,
        _ => false,
    }
}

/// A GIT_PROTOCOL value is valid exactly where its UTF-8 bytes are at most 64, and each is
/// that of a printable ASCII character.
pub proof fn law_git_protocol_bytes(s: Seq<char>)
    ensures
        printable_and_short(s) <==> {
            let b = encode_utf8(s);
            b.len() <= 64 && forall|i: int| 0 <= i < b.len() ==> 0x20 <= #[trigger] b[i] < 0x7f
        },
{
    lemma_printable_bytes(s);
    if printable_bytes(encode_utf8(s)) {
        assert(encode_utf8(s).len() == s.len());
    }
}

/// The services have one byte and one name each, and no other byte or name stands for one.
pub proof fn law_services(b: u8, name: Seq<char>)
    ensures
        service_of_byte(b) == Some(Service::UploadPack) <==> b == 1,
        service_of_byte(b) == Some(Service::ReceivePack) <==> b == 2,
        service_of_name(name) == Some(Service::UploadPack) <==> name == "git-upload-pack"@,
        service_of_name(name) == Some(Service::ReceivePack) <==> name == "git-receive-pack"@,
{
    reveal_strlit("git-upload-pack");
    reveal_strlit("git-receive-pack");
    assert("git-receive-pack"@[4] != "git-upload-pack"@[4]);
}

/// A byte that stands for no status is reported as it is.
pub proof fn law_unknown_status(b: u8, rest: Seq<u8>)
    requires
        b > 2,
    ensures
        parse_status(seq![b] + rest) == Err::<Status, StatusError>(StatusError::Unknown(b)),
{
}

/// The words on an unknown service or status end with its byte in decimal, and those on
/// bytes that are no text are those of the error.
pub proof fn law_unknown_byte_words(b: u8, e: FromUtf8Error)
    ensures
        HeaderError::NotUtf8(e).words() == text::utf8_error_words(e),
        HeaderError::UnknownService(b).words() == "unknown service "@ + text::decimal(b as nat),
        StatusError::Unknown(b).words() == "unknown status "@ + text::decimal(b as nat),
{
}

/// A header with an absent or a valid, non-empty GIT_PROTOCOL value is read back
/// as it was written, whatever follows it on the stream, and reading takes its
/// bytes and no more.
pub proof fn law_header_round_trip(h: HeaderView, rest: Seq<u8>)
    requires
        h.secret.len() == SECRET_LEN,
        h.git_protocol matches Some(s) ==> s.len() > 0 && printable_and_short(s),
    ensures
        parse_header(encode_header(h) + rest) == (
            Ok::<HeaderView, HeaderError>(h),
            encode_header(h).len() as int,
        ),
{
    let gp = git_protocol_bytes(h.git_protocol);
    let s = encode_header(h) + rest;
    assert(s.take(4) =~= MAGIC@);
    assert(s.subrange(5, 21) =~= h.secret);
    match h.git_protocol {
        Some(p) => {
            lemma_printable_bytes(p);
            encode_utf8_decode_utf8(p);
            encode_utf8_valid_utf8(p);
            assert(s.subrange(22, 22 + gp.len() as int) =~= gp);
        },
        None => {},
    }
}

/// An empty GIT_PROTOCOL value is written like an absent one.
pub proof fn law_empty_git_protocol_is_absent(h: HeaderView)
    requires
        h.git_protocol == Some(Seq::<char>::empty()),
    ensures
        encode_header(h) == encode_header(HeaderView { git_protocol: None, ..h }),
{
}

/// Every header that is accepted has a secret of the right length and either no
/// GIT_PROTOCOL value or a valid, non-empty one, and the bytes that reading took
/// are exactly those that writing it gives.
pub proof fn law_accepted_header_is_canonical(s: Seq<u8>)
    ensures
        parse_header(s) matches (Ok(h), used) ==> {
            &&& h.secret.len() == SECRET_LEN
            &&& (h.git_protocol matches Some(p) ==> p.len() > 0 && printable_and_short(p))
            &&& 0 <= used <= s.len()
            &&& encode_header(h) == s.take(used)
        },
{
    if let (Ok(h), used) = parse_header(s) {
        let gp = s.subrange(22, used);
        assert(s.take(4) =~= MAGIC@);
        assert forall|i: int| 0 <= i < 4 implies s[i] == #[trigger] MAGIC@[i] by {
            assert(s.take(4)[i] == s[i]);
        }
        if s[21] != 0 {
            decode_utf8_encode_utf8(gp);
            if decode_utf8(gp).len() == 0 {
                assert(decode_utf8(gp) =~= Seq::<char>::empty());
            }
        }
        assert(encode_header(h) =~= s.take(used));
    }
}

/// What follows a complete header has no part in how it is read.
pub proof fn law_header_reads_no_further(s: Seq<u8>, rest: Seq<u8>)
    requires
        parse_header(s).0 is Ok,
    ensures
        parse_header(s + rest) == parse_header(s),
{
    law_accepted_header_is_canonical(s);
    let h = parse_header(s).0->Ok_0;
    let used = parse_header(s).1;
    assert(s + rest =~= s.take(used) + (s.skip(used) + rest));
    law_header_round_trip(h, s.skip(used) + rest);
}

/// A status is read back as it was written, whatever follows it on the stream.
pub proof fn law_status_round_trip(status: Status, rest: Seq<u8>)
    ensures
        parse_status(seq![status_byte(status)] + rest) == Ok::<Status, StatusError>(status),
{
}

/// A service is known again by its byte on the wire and by the name that git has
/// for it, which is its subcommand behind `git-`.
pub proof fn law_service_round_trip(service: Service)
    ensures
        service_of_byte(service_byte(service)) == Some(service),
        service_of_name("git-"@ + service.subcommand()) == Some(service),
{
    reveal_strlit("git-");
    reveal_strlit("upload-pack");
    reveal_strlit("receive-pack");
    reveal_strlit("git-upload-pack");
    reveal_strlit("git-receive-pack");
    assert("git-"@ + "upload-pack"@ =~= "git-upload-pack"@);
    assert("git-"@ + "receive-pack"@ =~= "git-receive-pack"@);
    assert("git-receive-pack"@[4] != "git-upload-pack"@[4]);
}

} // verus!
