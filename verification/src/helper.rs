//! The git remote helper protocol (spoken with git over stdin/stdout).
//!
//! Two modes:
//! - connect mode (`iroh://<ticket>/<secret>`): advertise the `connect`
//!   capability and bridge git's native packfile protocol to the remote
//!   `serve` over an iroh stream. Fetch and push both go through here.
//! - offer mode (bare `iroh://`): advertise `push`, and implement it by
//!   serving this repository for a single fetch, printing the URL for the
//!   other side. "Pushing" completes when the peer has pulled.
use crate::proto::{
    law_service_round_trip, law_services, printable_and_short, service_of_name,
    valid_git_protocol, Header, HeaderView, Service, Status,
};
use crate::text;
use crate::text::{after_last, has_prefix, law_after_last, law_prefix, utf8_error};
use crate::ticket::{complaint, parse_url, RemoteUrl, UrlError, UrlMeaning};
use std::string::FromUtf8Error;
use vstd::prelude::*;
use vstd::slice::slice_subrange;
use vstd::utf8::*;

verus! {

/// What the helper cannot go on with.
#[derive(Debug)]
pub enum HelperError {
    UnsupportedCommand(String),
    UnsupportedService(String),
    UnexpectedInBatch(String),
    SecretRejected,
    PushDenied,
}

impl HelperError {
    /// The error in words.
    pub open spec fn words(self) -> Seq<char> {
        match self {
            HelperError::UnsupportedCommand(c) => "unsupported helper command: "@ + c@,
            HelperError::UnsupportedService(s) => "unsupported service: "@ + s@,
            HelperError::UnexpectedInBatch(c) => "unexpected command in push batch: "@ + c@,
            HelperError::SecretRejected => "remote rejected the secret in this URL"@,
            HelperError::PushDenied => {
                "remote does not accept pushes; run `git-remote-iroh serve --writable` there"@
            },
        }
    }

    /// The error in words.
    pub fn message(&self) -> (r: String)
        ensures
            r@ == self.words(),
    {
        match self {
            HelperError::UnsupportedCommand(c) => {
                text::join("unsupported helper command: ", c.as_str())
            },
            HelperError::UnsupportedService(s) => text::join("unsupported service: ", s.as_str()),
            HelperError::UnexpectedInBatch(c) => {
                text::join("unexpected command in push batch: ", c.as_str())
            },
            HelperError::SecretRejected => "remote rejected the secret in this URL".to_owned(),
            HelperError::PushDenied => {
                let words: &str =
                    "remote does not accept pushes; run `git-remote-iroh serve --writable` there";
                words.to_owned()
            },
        }
    }
}

/// What a URL asks the helper to do.
pub enum Mode {
    Connect(RemoteUrl),
    Offer,
}

/// The mode that `url` selects.
pub fn run(url: &str) -> (r: Result<Mode, UrlError>)
    requires
        encode_utf8(url@).len() <= usize::MAX / 8,
    ensures
        match r {
            Ok(Mode::Connect(u)) => parse_url(url@) == (UrlMeaning::Remote {
                ticket: u.ticket,
                secret: u.secret@,
            }),
            Ok(Mode::Offer) => parse_url(url@) == UrlMeaning::Offer,
            Err(e) => parse_url(url@) == complaint(e),
        },
{
    match RemoteUrl::parse(url) {
        Ok(Some(u)) => Ok(Mode::Connect(u)),
        Ok(None) => Ok(Mode::Offer),
        Err(e) => Err(e),
    }
}

/// The position of the first newline in `s`.
pub open spec fn first_newline(s: Seq<u8>) -> Option<int>
    decreases s.len(),
{
    if s.len() == 0 {
        None
    } else if s[0] == 0x0a {
        Some(0)
    } else {
        match first_newline(s.drop_first()) {
            Some(i) => Some(i + 1),
            None => None,
        }
    }
}

/// The first line of `s` without its newline, and how many bytes of `s` it takes with
/// it. What is left at the end of the stream without a newline is a line too; where
/// nothing is left, there is none.
pub open spec fn first_line(s: Seq<u8>) -> (Option<Seq<u8>>, int) {
    match first_newline(s) {
        Some(i) => (Some(s.take(i)), i + 1),
        None => if s.len() == 0 {
            (None, 0)
        } else {
            (Some(s), s.len() as int)
        },
    }
}

/// The command that a line is read as.
pub open spec fn is_command(r: Result<Option<String>, FromUtf8Error>, line: Seq<u8>) -> bool {
    if valid_utf8(line) {
        r matches Ok(Some(c)) && c@ == decode_utf8(line)
    } else {
        r == Err::<Option<String>, FromUtf8Error>(utf8_error(line))
    }
}

/// A command line in the making: the bytes that have come so far.
pub struct CommandReader {
    pub line: Vec<u8>,
}

/// What one more byte led to.
pub enum CommandProgress {
    More(CommandReader),
    Done(Result<Option<String>, FromUtf8Error>),
}

impl CommandReader {
    /// A line of which nothing has come.
    pub fn new() -> (r: CommandReader)
        ensures
            r.line@ == Seq::<u8>::empty(),
    {
        CommandReader { line: Vec::new() }
    }

    /// Takes the next byte of the stream, or `None` at its end. One byte is taken at a
    /// time on purpose: after a `connect` command the stream switches to raw git
    /// protocol traffic, so nothing may be taken past the newline.
    pub fn step(self, byte: Option<u8>) -> (r: CommandProgress)
        ensures
            match byte {
                None => {
                    &&& r matches CommandProgress::Done(c)
                    &&& if self.line@.len() == 0 {
                        c == Ok::<Option<String>, FromUtf8Error>(None)
                    } else {
                        is_command(c, self.line@)
                    }
                },
                Some(b) => if b == 0x0a {
                    r matches CommandProgress::Done(c) && is_command(c, self.line@)
                } else {
                    r matches CommandProgress::More(next) && next.line@ == self.line@.push(b)
                },
            },
    {
        match byte {
            None => if self.line.len() == 0 {
                CommandProgress::Done(Ok(None))
            } else {
                CommandProgress::Done(command(self.line))
            },
            Some(b) => if b == 0x0a {
                CommandProgress::Done(command(self.line))
            } else {
                let mut line = self.line;
                line.push(b);
                CommandProgress::More(CommandReader { line })
            },
        }
    }
}

fn command(line: Vec<u8>) -> (r: Result<Option<String>, FromUtf8Error>)
    ensures
        is_command(r, line@),
{
    match text::from_utf8(line) {
        Ok(s) => Ok(Some(s)),
        Err(e) => Err(e),
    }
}

/// The first newline behind a text without one.
proof fn lemma_first_newline(line: Seq<u8>, rest: Seq<u8>)
    requires
        !line.contains(0x0a),
    ensures
        first_newline(line + rest) == match first_newline(rest) {
            Some(i) => Some(line.len() + i),
            None => None,
        },
    decreases line.len(),
{
    if line.len() == 0 {
        assert(line + rest =~= rest);
    } else {
        let tail = line.drop_first();
        assert(line[0] != 0x0a);
        if tail.contains(0x0a) {
            let i = choose|i: int| 0 <= i < tail.len() && tail[i] == 0x0a;
            assert(line[i + 1] == 0x0a);
        }
        lemma_first_newline(tail, rest);
        assert((line + rest).drop_first() =~= tail + rest);
    }
}

/// Read one helper command line from the front of `stdin`, and leave in it what
/// follows the line.
pub fn read_command(stdin: &mut &[u8]) -> (r: Result<Option<String>, FromUtf8Error>)
    ensures
        match first_line(old(stdin)@).0 {
            Some(line) => is_command(r, line),
            None => r == Ok::<Option<String>, FromUtf8Error>(None),
        },
        final(stdin)@ == old(stdin)@.skip(first_line(old(stdin)@).1),
{
    let ghost s = stdin@;
    let mut reader = CommandReader::new();
    assert(s.skip(0) =~= s);
    assert(s.take(0) =~= Seq::<u8>::empty());
    loop
        invariant
            s == old(stdin)@,
            reader.line@.len() <= s.len(),
            reader.line@ == s.take(reader.line@.len() as int),
            stdin@ == s.skip(reader.line@.len() as int),
            !reader.line@.contains(0x0a),
        decreases stdin@.len(),
    {
        let ghost line = reader.line@;
        let ghost n = line.len() as int;
        proof {
            assert(s =~= line + s.skip(n));
            lemma_first_newline(line, s.skip(n));
        }
        let all: &[u8] = *stdin;
        let byte: Option<u8> = if all.len() == 0 {
            None
        } else {
            let b: u8 = all[0];
            *stdin = slice_subrange(all, 1, all.len());
            assert(stdin@ =~= s.skip(n + 1));
            Some(b)
        };
        proof {
            if n == s.len() {
                assert(s.skip(n) =~= Seq::<u8>::empty());
                assert(line =~= s);
            } else {
                assert(s.skip(n)[0] == s[n]);
            }
        }
        match reader.step(byte) {
            CommandProgress::Done(r) => {
                return r;
            },
            CommandProgress::More(next) => {
                proof {
                    assert(next.line@ =~= s.take(n + 1));
                    if next.line@.contains(0x0a) {
                        let i = choose|i: int|
                            0 <= i < next.line@.len() && next.line@[i] == 0x0a;
                        assert(i < n);
                        assert(line[i] == 0x0a);
                    }
                }
                reader = next;
            },
        }
    }
}

/// What a command asks for in connect mode.
pub enum ConnectStep {
    /// No more commands come.
    Finish,
    /// Go on with the next command.
    Ignore,
    /// Write the text to git, and go on with the next command.
    Reply(&'static str),
    /// Connect git to the service at the remote.
    Connect(Service),
}

/// What follows a command in connect mode.
pub enum ConnectMeaning {
    Finish,
    Ignore,
    Reply(Seq<char>),
    Connect(Service),
    UnsupportedCommand,
    /// With the name of the service.
    UnsupportedService(Seq<char>),
}

/// What follows a command, or the end of the commands, in connect mode.
pub open spec fn connect_meaning(cmd: Option<Seq<char>>) -> ConnectMeaning {
    match cmd {
        None => ConnectMeaning::Finish,
        Some(c) => if c == "capabilities"@ {
            ConnectMeaning::Reply("connect\n\n"@)
        } else if c.len() == 0 {
            ConnectMeaning::Ignore
        } else if !has_prefix(c, "connect "@) {
            ConnectMeaning::UnsupportedCommand
        } else {
            let name = c.skip("connect "@.len() as int);
            match service_of_name(name) {
                Some(service) => ConnectMeaning::Connect(service),
                None => ConnectMeaning::UnsupportedService(name),
            }
        },
    }
}

/// The next step in connect mode, for a command or for the end of the commands.
pub fn connect_mode(cmd: Option<&str>) -> (r: Result<ConnectStep, HelperError>)
    ensures
        match connect_meaning(text::view_of(cmd)) {
            ConnectMeaning::Finish => r matches Ok(ConnectStep::Finish),
            ConnectMeaning::Ignore => r matches Ok(ConnectStep::Ignore),
            ConnectMeaning::Reply(t) => r matches Ok(ConnectStep::Reply(u)) && u@ == t,
            ConnectMeaning::Connect(service) => {
                r matches Ok(ConnectStep::Connect(s)) && s == service
            },
            ConnectMeaning::UnsupportedCommand => {
                r matches Err(HelperError::UnsupportedCommand(u)) && cmd matches Some(c) && u@ == c@
            },
            ConnectMeaning::UnsupportedService(name) => {
                r matches Err(HelperError::UnsupportedService(u)) && u@ == name
            },
        },
{
    match cmd {
        None => Ok(ConnectStep::Finish),
        Some(c) => {
            if text::same(c, "capabilities") {
                return Ok(ConnectStep::Reply("connect\n\n"));
            }
            if c.is_empty() {
                return Ok(ConnectStep::Ignore);
            }
            match text::strip_prefix(c, "connect ") {
                None => Err(HelperError::UnsupportedCommand(c.to_owned())),
                Some(name) => match Service::from_helper_name(name) {
                    Some(service) => Ok(ConnectStep::Connect(service)),
                    None => Err(HelperError::UnsupportedService(name.to_owned())),
                },
            }
        },
    }
}

/// The GIT_PROTOCOL value that goes into a header: the one of the environment, where
/// it is valid.
pub open spec fn forwarded(git_protocol: Option<Seq<char>>) -> Option<Seq<char>> {
    match git_protocol {
        Some(s) => if printable_and_short(s) {
            Some(s)
        } else {
            None
        },
        None => None,
    }
}

/// The view of an optional text.
pub open spec fn text_of(s: Option<String>) -> Option<Seq<char>> {
    match s {
        Some(s) => Some(s@),
        None => None,
    }
}

/// The header for a session of `service` at `url`, with the value of GIT_PROTOCOL in
/// the environment.
pub fn connect_header(url: &RemoteUrl, service: Service, git_protocol: Option<String>) -> (r:
    Header)
    ensures
        r@ == (HeaderView {
            service,
            secret: url.secret@,
            git_protocol: forwarded(text_of(git_protocol)),
        }),
        r.service == service,
        r.secret == url.secret,
        r.git_protocol == (match git_protocol {
            Some(s) => if printable_and_short(s@) {
                Some(s)
            } else {
                None
            },
            None => None,
        }),
{
    let git_protocol = match git_protocol {
        Some(s) => if valid_git_protocol(s.as_str()) {
            Some(s)
        } else {
            None
        },
        None => None,
    };
    Header { service, secret: url.secret, git_protocol }
}

/// The text that tells git that the connection is established; from there on
/// stdin/stdout carry the native git protocol.
pub const CONNECTED: &'static str = "\n";

/// Whether the server's answer lets the session go on.
pub open spec fn verdict(status: Status) -> Result<(), HelperError> {
    match status {
        Status::Accepted => Ok(()),
        Status::BadAuth => Err(HelperError::SecretRejected),
        Status::Denied => Err(HelperError::PushDenied),
    }
}

/// Whether the server's answer lets the session go on.
pub fn check_status(status: Status) -> (r: Result<(), HelperError>)
    ensures
        r == verdict(status),
{
    match status {
        Status::Accepted => Ok(()),
        Status::BadAuth => Err(HelperError::SecretRejected),
        Status::Denied => Err(HelperError::PushDenied),
    }
}

/// Where offer mode stands: between commands, or in a batch of refs to push.
pub enum OfferState {
    Idle,
    Batch { specs: Vec<String> },
}

/// What is to be done in offer mode.
pub enum OfferAction {
    /// Go on with the next command.
    Continue,
    /// Write the text to git, and go on with the next command.
    Reply(&'static str),
    /// Serve the repository until one peer completes a fetch; then write the report to
    /// git, and go on with the next command.
    Offer { report: String },
    /// No more commands come.
    Finish,
}

/// The texts of strings.
pub open spec fn texts(v: Seq<String>) -> Seq<Seq<char>> {
    Seq::new(v.len(), |i: int| v[i]@)
}

/// `OfferState`, with the refspecs of the batch as texts.
pub enum OfferStateView {
    Idle,
    Batch(Seq<Seq<char>>),
}

impl View for OfferState {
    type V = OfferStateView;

    open spec fn view(&self) -> OfferStateView {
        match self {
            OfferState::Idle => OfferStateView::Idle,
            OfferState::Batch { specs } => OfferStateView::Batch(texts(specs@)),
        }
    }
}

/// What follows a command in offer mode.
pub enum OfferMeaning {
    Continue(OfferStateView),
    Reply(Seq<char>),
    Offer(Seq<char>),
    Finish,
    Unsupported,
    Unexpected,
}

/// The lines that acknowledge the refspecs: `ok` and the destination of each.
pub open spec fn ok_lines(specs: Seq<Seq<char>>) -> Seq<char>
    decreases specs.len(),
{
    if specs.len() == 0 {
        Seq::empty()
    } else {
        ok_lines(specs.drop_last()) + "ok "@ + after_last(specs.last(), ':') + "\n"@
    }
}

/// The report on a batch: a line for each refspec, and a blank line.
pub open spec fn push_report(specs: Seq<Seq<char>>) -> Seq<char> {
    ok_lines(specs) + "\n"@
}

/// What follows a command, or the end of the commands, in offer mode. A batch is
/// terminated by a blank line, or by the end of the commands.
pub open spec fn offer_meaning(state: OfferStateView, line: Option<Seq<char>>) -> OfferMeaning {
    match state {
        OfferStateView::Idle => match line {
            None => OfferMeaning::Finish,
            Some(c) => if c == "capabilities"@ {
                OfferMeaning::Reply("push\n\n"@)
            } else if c == "list for-push"@ {
                OfferMeaning::Reply("\n"@)
            } else if c.len() == 0 {
                OfferMeaning::Continue(OfferStateView::Idle)
            } else if has_prefix(c, "push "@) {
                OfferMeaning::Continue(
                    OfferStateView::Batch(seq![c.skip("push "@.len() as int)]),
                )
            } else {
                OfferMeaning::Unsupported
            },
        },
        OfferStateView::Batch(specs) => match line {
            None => OfferMeaning::Offer(push_report(specs)),
            Some(c) => if c.len() == 0 {
                OfferMeaning::Offer(push_report(specs))
            } else if has_prefix(c, "push "@) {
                OfferMeaning::Continue(
                    OfferStateView::Batch(specs.push(c.skip("push "@.len() as int))),
                )
            } else {
                OfferMeaning::Unexpected
            },
        },
    }
}

/// The report on a batch.
fn batch_report(specs: &Vec<String>) -> (r: String)
    ensures
        r@ == push_report(texts(specs@)),
{
    let mut out = String::new();
    let mut i: usize = 0;
    assert(texts(specs@).take(0) =~= Seq::<Seq<char>>::empty());
    while i < specs.len()
        invariant
            i <= specs@.len(),
            out@ == ok_lines(texts(specs@).take(i as int)),
        decreases specs@.len() - i,
    {
        let ghost done = texts(specs@).take(i + 1);
        assert(done.drop_last() =~= texts(specs@).take(i as int));
        out.append("ok ");
        out.append(text::rest_after_last(specs[i].as_str(), ':'));
        out.append("\n");
        i += 1;
    }
    assert(texts(specs@).take(i as int) =~= texts(specs@));
    out.append("\n");
    out
}

/// The next step in offer mode: what is to be done about a command, or about the end
/// of the commands, and where offer mode then stands.
pub fn offer_mode(state: OfferState, line: Option<&str>) -> (r: Result<
    (OfferState, OfferAction),
    HelperError,
>)
    ensures
        match offer_meaning(state@, text::view_of(line)) {
            OfferMeaning::Continue(next) => {
                r matches Ok((s, OfferAction::Continue)) && s@ == next
            },
            OfferMeaning::Reply(t) => {
                r matches Ok((OfferState::Idle, OfferAction::Reply(u))) && u@ == t
            },
            OfferMeaning::Offer(t) => {
                r matches Ok((OfferState::Idle, OfferAction::Offer { report })) && report@ == t
            },
            OfferMeaning::Finish => r matches Ok((OfferState::Idle, OfferAction::Finish)),
            OfferMeaning::Unsupported => r matches Err(HelperError::UnsupportedCommand(c)) && line
                matches Some(l) && c@ == l@,
            OfferMeaning::Unexpected => r matches Err(HelperError::UnexpectedInBatch(c)) && line
                matches Some(l) && c@ == l@,
        },
{
    match state {
        OfferState::Idle => match line {
            None => Ok((OfferState::Idle, OfferAction::Finish)),
            Some(c) => {
                if text::same(c, "capabilities") {
                    return Ok((OfferState::Idle, OfferAction::Reply("push\n\n")));
                }
                // We are not a real remote; nothing exists "there" yet.
                if text::same(c, "list for-push") {
                    return Ok((OfferState::Idle, OfferAction::Reply("\n")));
                }
                if c.is_empty() {
                    return Ok((OfferState::Idle, OfferAction::Continue));
                }
                match text::strip_prefix(c, "push ") {
                    Some(spec) => {
                        let mut specs: Vec<String> = Vec::new();
                        specs.push(spec.to_owned());
                        assert(texts(specs@) =~= seq![spec@]);
                        Ok((OfferState::Batch { specs }, OfferAction::Continue))
                    },
                    None => Err(HelperError::UnsupportedCommand(c.to_owned())),
                }
            },
        },
        OfferState::Batch { specs } => match line {
            None => {
                let report = batch_report(&specs);
                Ok((OfferState::Idle, OfferAction::Offer { report }))
            },
            Some(c) => {
                if c.is_empty() {
                    let report = batch_report(&specs);
                    return Ok((OfferState::Idle, OfferAction::Offer { report }));
                }
                match text::strip_prefix(c, "push ") {
                    Some(spec) => {
                        let ghost before = texts(specs@);
                        let mut specs = specs;
                        specs.push(spec.to_owned());
                        assert(texts(specs@) =~= before.push(spec@));
                        Ok((OfferState::Batch { specs }, OfferAction::Continue))
                    },
                    None => Err(HelperError::UnexpectedInBatch(c.to_owned())),
                }
            },
        },
    }
}

/// What offer mode tells the user while it waits for the peer.
pub fn offer_notice(url: &str) -> (r: String)
    ensures
        r@ == "\nOffering this repository for one fetch over iroh.\n"@
            + "On the other machine, run one of:\n\n"@ + "    git clone "@ + url@ + "\n"@
            + "    git pull "@ + url@ + " <branch>\n\n"@
            + "Waiting for the peer (Ctrl-C to abort) ...\n"@,
{
    let mut s = "\nOffering this repository for one fetch over iroh.\n".to_owned();
    s.append("On the other machine, run one of:\n\n");
    s.append("    git clone ");
    s.append(url);
    s.append("\n");
    s.append("    git pull ");
    s.append(url);
    s.append(" <branch>\n\n");
    s.append("Waiting for the peer (Ctrl-C to abort) ...\n");
    s
}

/// A line is read up to its newline, and no byte behind that is taken.
pub proof fn law_command_ends_at_newline(line: Seq<u8>, rest: Seq<u8>)
    requires
        !line.contains(0x0a),
    ensures
        first_line(line + seq![0x0au8] + rest) == (Some(line), line.len() as int + 1),
{
    let s = line + seq![0x0au8] + rest;
    let tail = seq![0x0au8] + rest;
    assert(s =~= line + tail);
    lemma_first_newline(line, tail);
    assert(s.take(line.len() as int) =~= line);
}

/// A text without a newline has no newline among its UTF-8 bytes.
proof fn lemma_no_newline(c: Seq<char>)
    requires
        !c.contains('\n'),
    ensures
        !encode_utf8(c).contains(0x0a),
    decreases c.len(),
{
    if c.len() > 0 {
        let rest = c.drop_first();
        assert(c[0] != '\n');
        lemma_char_is_no_newline(c[0]);
        if rest.contains('\n') {
            let i = choose|i: int| 0 <= i < rest.len() && rest[i] == '\n';
            assert(c[i + 1] == '\n');
        }
        lemma_no_newline(rest);
        let head = encode_scalar(c[0] as u32);
        if encode_utf8(c).contains(0x0a) {
            let i = choose|i: int| 0 <= i < encode_utf8(c).len() && encode_utf8(c)[i] == 0x0a;
            if i < head.len() {
                assert(head[i] == 0x0a);
            } else {
                assert(encode_utf8(rest)[i - head.len()] == 0x0a);
            }
        }
    }
}

proof fn lemma_char_is_no_newline(c: char)
    requires
        c != '\n',
    ensures
        !encode_scalar(c as u32).contains(0x0a),
{
    let x = c as u32;
    assert(x != 0x0a);
    assert(x <= 0x7f ==> (x & 0x7f) as u8 == x) by (bit_vector);
    assert((0xC0u8 | ((x >> 6) & 0x1F) as u8) != 0x0a) by (bit_vector);
    assert((0xE0u8 | ((x >> 12) & 0x0F) as u8) != 0x0a) by (bit_vector);
    assert((0xF0u8 | ((x >> 18) & 0x7) as u8) != 0x0a) by (bit_vector);
    assert((0x80u8 | (x & 0x3F) as u8) != 0x0a) by (bit_vector);
    assert((0x80u8 | ((x >> 6) & 0x3F) as u8) != 0x0a) by (bit_vector);
    assert((0x80u8 | ((x >> 12) & 0x3F) as u8) != 0x0a) by (bit_vector);
}

/// A command is the whole text of its line: where a text without a newline comes in front
/// of a newline, that text is the command, however long it is, and the stream goes on
/// behind the newline. At the end of the stream it needs no newline.
pub proof fn law_command_is_its_line(
    c: Seq<char>,
    rest: Seq<u8>,
    r: Result<Option<String>, FromUtf8Error>,
)
    requires
        !c.contains('\n'),
    ensures
        ({
            let s = encode_utf8(c) + seq![0x0au8] + rest;
            &&& first_line(s).0 == Some(encode_utf8(c))
            &&& s.skip(first_line(s).1) == rest
        }),
        c.len() > 0 ==> first_line(encode_utf8(c)) == (
            Some(encode_utf8(c)),
            encode_utf8(c).len() as int,
        ),
        first_line(Seq::empty()) == (None::<Seq<u8>>, 0int),
        is_command(r, encode_utf8(c)) <==> (r matches Ok(Some(s)) && s@ == c),
{
    let line = encode_utf8(c);
    let s = line + seq![0x0au8] + rest;
    lemma_no_newline(c);
    law_command_ends_at_newline(line, rest);
    assert(s.skip(line.len() as int + 1) =~= rest);
    encode_utf8_valid_utf8(c);
    encode_utf8_decode_utf8(c);
    lemma_first_newline(line, Seq::empty());
    assert(line + Seq::<u8>::empty() =~= line);
    if c.len() > 0 {
        encode_utf8_first_scalar(c);
    }
}

/// A line that is not UTF-8 is no command: it gives the error that its bytes give.
pub proof fn law_line_that_is_no_text(line: Seq<u8>, r: Result<Option<String>, FromUtf8Error>)
    requires
        !valid_utf8(line),
        is_command(r, line),
    ensures
        r == Err::<Option<String>, FromUtf8Error>(utf8_error(line)),
{
}

/// What connect mode does about a command: it names its capability, passes over a blank
/// line, connects to the service behind `connect`, and refuses any other service and any
/// other command by its whole name.
pub proof fn law_connect_mode(cmd: &str, name: Seq<char>, r: Result<ConnectStep, HelperError>)
    requires
        call_ensures(connect_mode, (Some(cmd),), r),
    ensures
        cmd@ == "capabilities"@ ==> (r matches Ok(ConnectStep::Reply(t)) && t@ == "connect\n\n"@),
        cmd@.len() == 0 ==> r matches Ok(ConnectStep::Ignore),
        cmd@ == "connect "@ + name ==> if name == "git-upload-pack"@ {
            r matches Ok(ConnectStep::Connect(s)) && s == Service::UploadPack
        } else if name == "git-receive-pack"@ {
            r matches Ok(ConnectStep::Connect(s)) && s == Service::ReceivePack
        } else {
            r matches Err(HelperError::UnsupportedService(u)) && u@ == name
        },
        cmd@ != "capabilities"@ && cmd@.len() > 0 && !(exists|n: Seq<char>|
            cmd@ == #[trigger] ("connect "@ + n)) ==> (r matches Err(
            HelperError::UnsupportedCommand(u),
        ) && u@ == cmd@),
{
    reveal_strlit("connect ");
    reveal_strlit("capabilities");
    law_prefix(cmd@, "connect "@);
    law_services(0, name);
    if cmd@ == "connect "@ + name {
        assert(cmd@[1] == 'o');
        assert(cmd@.skip("connect "@.len() as int) =~= name);
    }
}

/// The strings of a sequence are seen as their texts, each in its place.
pub proof fn law_texts(v: Seq<String>)
    ensures
        texts(v).len() == v.len(),
        forall|i: int| 0 <= i < v.len() ==> texts(v)[i] == (#[trigger] v[i])@,
{
}

/// The report has one line for each refspec, in the order of the batch, and a blank line at
/// its end: a refspec more is a line `ok` more, with its destination, which is all that
/// stands behind the last colon, or the whole of a refspec without one.
pub proof fn law_report_acknowledges(specs: Seq<Seq<char>>, src: Seq<char>, dst: Seq<char>)
    requires
        !dst.contains(':'),
    ensures
        push_report(Seq::empty()) == "\n"@,
        push_report(specs).len() > 0 && push_report(specs).last() == '\n',
        push_report(specs.push(src + ":"@ + dst)) == push_report(specs).drop_last() + "ok "@ + dst
            + "\n"@ + "\n"@,
        push_report(specs.push(dst)) == push_report(specs).drop_last() + "ok "@ + dst + "\n"@
            + "\n"@,
{
    reveal_strlit("\n");
    reveal_strlit(":");
    assert(":"@ =~= seq![':']);
    law_after_last(src, ':', dst);
    assert(specs.push(src + ":"@ + dst).drop_last() =~= specs);
    assert(specs.push(dst).drop_last() =~= specs);
    assert(push_report(specs).drop_last() =~= ok_lines(specs));
    assert(push_report(Seq::empty()) =~= "\n"@);
}

/// What offer mode does about a line in a batch: it adds the refspec behind `push` to the
/// batch, offers with the report on the batch at a blank line and at the end of the
/// commands, and refuses any other line as it is.
pub proof fn law_offer_in_a_batch(
    specs: Vec<String>,
    line: &str,
    spec: Seq<char>,
    r: Result<(OfferState, OfferAction), HelperError>,
)
    ensures
        call_ensures(offer_mode, (OfferState::Batch { specs }, Some(line)), r) ==> {
            &&& line@ == "push "@ + spec ==> (r matches Ok(
                (OfferState::Batch { specs: next }, OfferAction::Continue),
            ) && texts(next@) == texts(specs@).push(spec))
            &&& line@.len() == 0 ==> (r matches Ok(
                (OfferState::Idle, OfferAction::Offer { report }),
            ) && report@ == push_report(texts(specs@)))
            &&& line@.len() > 0 && !(exists|x: Seq<char>| line@ == #[trigger] ("push "@ + x)) ==> (
            r matches Err(HelperError::UnexpectedInBatch(u)) && u@ == line@)
        },
        call_ensures(offer_mode, (OfferState::Batch { specs }, None), r) ==> (r matches Ok(
            (OfferState::Idle, OfferAction::Offer { report }),
        ) && report@ == push_report(texts(specs@))),
{
    reveal_strlit("push ");
    law_prefix(line@, "push "@);
    if line@ == "push "@ + spec {
        assert(line@.skip("push "@.len() as int) =~= spec);
    }
}

/// What offer mode does about a line between batches: it names its capability, lists no
/// refs, passes over a blank line, begins a batch with the refspec behind `push`, ends with
/// the commands, and refuses any other line as it is.
pub proof fn law_offer_between_batches(
    line: &str,
    spec: Seq<char>,
    r: Result<(OfferState, OfferAction), HelperError>,
)
    ensures
        call_ensures(offer_mode, (OfferState::Idle, None), r) ==> r matches Ok(
            (OfferState::Idle, OfferAction::Finish),
        ),
        call_ensures(offer_mode, (OfferState::Idle, Some(line)), r) ==> {
            &&& line@ == "capabilities"@ ==> (r matches Ok(
                (OfferState::Idle, OfferAction::Reply(t)),
            ) && t@ == "push\n\n"@)
            &&& line@ == "list for-push"@ ==> (r matches Ok(
                (OfferState::Idle, OfferAction::Reply(t)),
            ) && t@ == "\n"@)
            &&& line@.len() == 0 ==> (r matches Ok((OfferState::Idle, OfferAction::Continue)))
            &&& line@ == "push "@ + spec ==> (r matches Ok(
                (OfferState::Batch { specs }, OfferAction::Continue),
            ) && texts(specs@) == seq![spec])
            &&& line@ != "capabilities"@ && line@ != "list for-push"@ && line@.len() > 0 && !(
            exists|x: Seq<char>| line@ == #[trigger] ("push "@ + x)) ==> (r matches Err(
                HelperError::UnsupportedCommand(u),
            ) && u@ == line@)
        },
{
    reveal_strlit("push ");
    reveal_strlit("capabilities");
    reveal_strlit("list for-push");
    law_prefix(line@, "push "@);
    if line@ == "push "@ + spec {
        assert(line@[0] == 'p');
        assert(line@.skip("push "@.len() as int) =~= spec);
    }
}

/// The words of an error that names a command or a service hold the whole of the name.
pub proof fn law_helper_error_words(name: String)
    ensures
        HelperError::UnsupportedCommand(name).words() == "unsupported helper command: "@ + name@,
        HelperError::UnsupportedService(name).words() == "unsupported service: "@ + name@,
        HelperError::UnexpectedInBatch(name).words() == "unexpected command in push batch: "@
            + name@,
{
}

/// What connect mode comes to with a series of commands: the first step that ends it,
/// or `Ignore` where it goes on.
pub open spec fn connect_run(cmds: Seq<Seq<char>>) -> ConnectMeaning
    decreases cmds.len(),
{
    if cmds.len() == 0 {
        ConnectMeaning::Ignore
    } else {
        match connect_meaning(Some(cmds[0])) {
            ConnectMeaning::Ignore => connect_run(cmds.drop_first()),
            ConnectMeaning::Reply(_) => connect_run(cmds.drop_first()),
            other => other,
        }
    }
}

/// However often git asks for the capabilities or sends a blank line, a `connect` command
/// with the name of a service leads to that service.
pub proof fn law_connect_leads_to_the_service(before: Seq<Seq<char>>, service: Service)
    requires
        forall|i: int|
            0 <= i < before.len() ==> #[trigger] before[i] == "capabilities"@ || before[i].len()
                == 0,
    ensures
        connect_run(before.push("connect git-"@ + service.subcommand()))
            == ConnectMeaning::Connect(service),
    decreases before.len(),
{
    let last = "connect git-"@ + service.subcommand();
    let all = before.push(last);
    if before.len() == 0 {
        reveal_strlit("connect git-");
        reveal_strlit("connect ");
        reveal_strlit("git-");
        reveal_strlit("capabilities");
        assert(last[1] == 'o');
        assert(last.take("connect "@.len() as int) =~= "connect "@);
        assert(last.skip("connect "@.len() as int) =~= "git-"@ + service.subcommand());
        law_service_round_trip(service);
    } else {
        assert(all[0] == before[0]);
        assert(all.drop_first() =~= before.drop_first().push(last));
        law_connect_leads_to_the_service(before.drop_first(), service);
    }
}

/// What offer mode does about a series of lines: the first thing but to go on.
pub open spec fn offer_run(state: OfferStateView, lines: Seq<Seq<char>>) -> OfferMeaning
    decreases lines.len(),
{
    if lines.len() == 0 {
        OfferMeaning::Continue(state)
    } else {
        match offer_meaning(state, Some(lines[0])) {
            OfferMeaning::Continue(next) => offer_run(next, lines.drop_first()),
            other => other,
        }
    }
}

/// The commands that push the refspecs.
pub open spec fn push_lines(specs: Seq<Seq<char>>) -> Seq<Seq<char>> {
    Seq::new(specs.len(), |i: int| "push "@ + specs[i])
}

/// A batch of pushes and a blank line lead to one offer, whose report acknowledges each
/// refspec of the batch in its turn.
pub proof fn law_batch_is_acknowledged(specs: Seq<Seq<char>>)
    requires
        specs.len() > 0,
    ensures
        offer_run(OfferStateView::Idle, push_lines(specs) + seq![Seq::empty()])
            == OfferMeaning::Offer(push_report(specs)),
{
    let first = "push "@ + specs[0];
    let lines = push_lines(specs) + seq![Seq::empty()];
    reveal_strlit("push ");
    reveal_strlit("capabilities");
    reveal_strlit("list for-push");
    assert(lines[0] == first);
    assert(first[0] == 'p');
    assert(first.take("push "@.len() as int) =~= "push "@);
    assert(first.skip("push "@.len() as int) =~= specs[0]);
    let rest = specs.drop_first();
    assert(lines.drop_first() =~= push_lines(rest) + seq![Seq::empty()]);
    lemma_batch(seq![specs[0]], rest);
    assert(seq![specs[0]] + rest =~= specs);
}

proof fn lemma_batch(before: Seq<Seq<char>>, specs: Seq<Seq<char>>)
    ensures
        offer_run(OfferStateView::Batch(before), push_lines(specs) + seq![Seq::empty()])
            == OfferMeaning::Offer(push_report(before + specs)),
    decreases specs.len(),
{
    let lines = push_lines(specs) + seq![Seq::<char>::empty()];
    if specs.len() == 0 {
        assert(lines[0] =~= Seq::<char>::empty());
        assert(before + specs =~= before);
    } else {
        let first = "push "@ + specs[0];
        let rest = specs.drop_first();
        reveal_strlit("push ");
        assert(lines[0] == first);
        assert(first.take("push "@.len() as int) =~= "push "@);
        assert(first.skip("push "@.len() as int) =~= specs[0]);
        assert(lines.drop_first() =~= push_lines(rest) + seq![Seq::empty()]);
        lemma_batch(before.push(specs[0]), rest);
        assert(before.push(specs[0]) + rest =~= before + specs);
    }
}

} // verus!
