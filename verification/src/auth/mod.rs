//! Remote Framebuffer authentication.

use vstd::prelude::*;
use vstd::string::StringExecFns;

use crate::text::{byte_list, decimal, push_byte_list, push_decimal};

use self::credentials::received;
use self::passthrough::{authenticate_passthrough, Passthrough, VERSION_LENGTH};
use self::replit::{authenticate_replit, Replit, VERSION};
use self::token::{clock_instant, Pubkeys, TokenError, TokenErrorView, UnixTime};

pub mod api;
pub mod course;
pub mod credentials;
pub mod minted;
pub mod passthrough;
pub mod replit;
pub mod token;
pub mod validity;
pub mod vnc;
pub mod wire;

verus! {

/// What came of waiting for a message of the client.
#[derive(Debug)]
pub enum ClientEvent {
    /// A message with data.
    Binary(Vec<u8>),
    /// A message of any other kind, described for people.
    Other(String),
    /// The connection failed, for that reason.
    Failed(String),
    /// The connection was over.
    Ended,
}

/// The mathematical counterpart of [`ClientEvent`].
pub enum ClientEventView {
    Binary(Seq<u8>),
    Other(Seq<char>),
    Failed(Seq<char>),
    Ended,
}

impl View for ClientEvent {
    type V = ClientEventView;

    open spec fn view(&self) -> ClientEventView {
        match self {
            ClientEvent::Binary(payload) => ClientEventView::Binary(payload@),
            ClientEvent::Other(description) => ClientEventView::Other(description@),
            ClientEvent::Failed(reason) => ClientEventView::Failed(reason@),
            ClientEvent::Ended => ClientEventView::Ended,
        }
    }
}

/// What is wrong with a message of the client.
#[derive(Debug)]
pub enum FrameError {
    /// The connection failed, for that reason.
    Failed(String),
    /// The message does not hold data. It is described for people.
    Unexpected(String),
    /// There is none.
    Missing,
    /// It holds this data in place of the data that it should.
    Mismatch(Vec<u8>),
}

/// The mathematical counterpart of [`FrameError`].
pub enum FrameErrorView {
    Failed(Seq<char>),
    Unexpected(Seq<char>),
    Missing,
    Mismatch(Seq<u8>),
}

impl View for FrameError {
    type V = FrameErrorView;

    open spec fn view(&self) -> FrameErrorView {
        match self {
            FrameError::Failed(reason) => FrameErrorView::Failed(reason@),
            FrameError::Unexpected(description) => FrameErrorView::Unexpected(description@),
            FrameError::Missing => FrameErrorView::Missing,
            FrameError::Mismatch(payload) => FrameErrorView::Mismatch(payload@),
        }
    }
}

impl FrameErrorView {
    /// The text of an error, where `bad` is the text for a failed connection and `missing` the one
    /// for no message at all.
    pub open spec fn text(self, bad: Seq<char>, missing: Seq<char>) -> Seq<char> {
        match self {
            FrameErrorView::Failed(_) => bad,
            FrameErrorView::Unexpected(description) => "unexpected message "@ + description,
            FrameErrorView::Missing => missing,
            FrameErrorView::Mismatch(payload) => "mismatched payload "@ + byte_list(payload),
        }
    }

    /// The text of an error together with the reason for it.
    pub open spec fn chain(self, bad: Seq<char>, missing: Seq<char>) -> Seq<char> {
        match self {
            FrameErrorView::Failed(reason) => bad + ": "@ + reason,
            _ => self.text(bad, missing),
        }
    }
}

impl FrameError {
    /// The text of the error, where `bad` is the text for a failed connection and `missing` the one
    /// for no message at all.
    pub fn text(&self, bad: &str, missing: &str) -> (text: String)
        ensures
            text@ == self@.text(bad@, missing@),
    {
        match self {
            FrameError::Failed(_) => bad.to_owned(),
            FrameError::Unexpected(description) => {
                let mut text = "unexpected message ".to_owned();
                text.append(description.as_str());
                text
            },
            FrameError::Missing => missing.to_owned(),
            FrameError::Mismatch(payload) => with_byte_list("mismatched payload ", payload),
        }
    }

    /// The text of the error together with the reason for it.
    pub fn chain(&self, bad: &str, missing: &str) -> (text: String)
        ensures
            text@ == self@.chain(bad@, missing@),
    {
        match self {
            FrameError::Failed(reason) => {
                let mut text = bad.to_owned();
                text.append(": ");
                text.append(reason.as_str());
                text
            },
            _ => self.text(bad, missing),
        }
    }
}

/// Data to send.
#[derive(Debug)]
pub enum Output {
    /// To the client, as one message.
    ToClient(Vec<u8>),
    /// To the server.
    ToServer(Vec<u8>),
}

/// The mathematical counterpart of [`Output`].
pub enum OutputView {
    ToClient(Seq<u8>),
    ToServer(Seq<u8>),
}

impl View for Output {
    type V = OutputView;

    open spec fn view(&self) -> OutputView {
        match self {
            Output::ToClient(data) => OutputView::ToClient(data@),
            Output::ToServer(data) => OutputView::ToServer(data@),
        }
    }
}

/// The views of outputs.
pub open spec fn output_views(outputs: Seq<Output>) -> Seq<OutputView> {
    Seq::new(outputs.len(), |i: int| outputs[i]@)
}

/// A step of the handshake with the client in which all that matters is that it answers as
/// expected.
#[derive(Clone, Copy, Debug, PartialEq, Eq, Structural)]
pub enum Handshake {
    ProtocolVersion,
    SecurityType,
    VencryptVersion,
    VencryptSubtype,
}

/// Why an authentication failed.
#[derive(Debug)]
pub enum AuthError {
    /// The server did not start with a protocol version.
    ServerVersion(Vec<u8>),
    /// The client did not answer with a protocol version.
    ClientVersion(FrameError),
    /// The client did not choose a security type.
    ClientSecurity(FrameError),
    /// The client did not choose exactly one security type.
    SecurityTypeLength(usize),
    /// The client chose a security type that cannot be followed.
    UnsupportedSecurityType(u8),
    /// The client did not respond to the challenge.
    ClientResponse(FrameError),
    /// The client did not answer as expected.
    Handshake(Handshake, FrameError),
    /// The client did not send a username and a password.
    CredentialsFrame(FrameError),
    /// The username or the password is not a text, for that reason.
    CredentialsText(String),
    /// The token was not accepted.
    Token(TokenError),
    /// The server speaks another version of the protocol.
    ServerHandshake(Vec<u8>),
    /// The server did not send a list of security types.
    SecurityTypes(Vec<u8>),
    /// The server did not send a challenge.
    Nonce(Vec<u8>),
    /// There is neither a token nor a password to go by.
    NoPassword,
    /// The server does not offer any security type that is supported.
    NoSupportedType(Vec<u8>),
    /// The server did not let the client in.
    Refused(Vec<u8>),
}

/// The mathematical counterpart of [`AuthError`].
pub enum AuthErrorView {
    ServerVersion(Seq<u8>),
    ClientVersion(FrameErrorView),
    ClientSecurity(FrameErrorView),
    SecurityTypeLength(int),
    UnsupportedSecurityType(u8),
    ClientResponse(FrameErrorView),
    Handshake(Handshake, FrameErrorView),
    CredentialsFrame(FrameErrorView),
    CredentialsText(Seq<char>),
    Token(TokenErrorView),
    ServerHandshake(Seq<u8>),
    SecurityTypes(Seq<u8>),
    Nonce(Seq<u8>),
    NoPassword,
    NoSupportedType(Seq<u8>),
    Refused(Seq<u8>),
}

impl View for AuthError {
    type V = AuthErrorView;

    open spec fn view(&self) -> AuthErrorView {
        match self {
            AuthError::ServerVersion(data) => AuthErrorView::ServerVersion(data@),
            AuthError::ClientVersion(e) => AuthErrorView::ClientVersion(e@),
            AuthError::ClientSecurity(e) => AuthErrorView::ClientSecurity(e@),
            AuthError::SecurityTypeLength(n) => AuthErrorView::SecurityTypeLength(*n as int),
            AuthError::UnsupportedSecurityType(t) => AuthErrorView::UnsupportedSecurityType(*t),
            AuthError::ClientResponse(e) => AuthErrorView::ClientResponse(e@),
            AuthError::Handshake(step, e) => AuthErrorView::Handshake(*step, e@),
            AuthError::CredentialsFrame(e) => AuthErrorView::CredentialsFrame(e@),
            AuthError::CredentialsText(reason) => AuthErrorView::CredentialsText(reason@),
            AuthError::Token(e) => AuthErrorView::Token(e@),
            AuthError::ServerHandshake(data) => AuthErrorView::ServerHandshake(data@),
            AuthError::SecurityTypes(data) => AuthErrorView::SecurityTypes(data@),
            AuthError::Nonce(data) => AuthErrorView::Nonce(data@),
            AuthError::NoPassword => AuthErrorView::NoPassword,
            AuthError::NoSupportedType(types) => AuthErrorView::NoSupportedType(types@),
            AuthError::Refused(data) => AuthErrorView::Refused(data@),
        }
    }
}

/// What an authentication waits for next, or what came of it.
#[derive(Debug)]
pub enum Next {
    /// One read from the server of at most that many bytes.
    ReadServer(usize),
    /// A message of the client.
    ReadClient,
    /// It has succeeded.
    Done,
    /// It has failed.
    Failed(AuthError),
}

/// The mathematical counterpart of [`Next`].
pub enum NextView {
    ReadServer(int),
    ReadClient,
    Done,
    Failed(AuthErrorView),
}

impl View for Next {
    type V = NextView;

    open spec fn view(&self) -> NextView {
        match self {
            Next::ReadServer(max) => NextView::ReadServer(*max as int),
            Next::ReadClient => NextView::ReadClient,
            Next::Done => NextView::Done,
            Next::Failed(e) => NextView::Failed(e@),
        }
    }
}

/// A step of an authentication: what to send, in this order, and what to do after that.
#[derive(Debug)]
pub struct Step {
    pub outputs: Vec<Output>,
    pub next: Next,
}

/// The mathematical counterpart of [`Step`].
pub struct StepView {
    pub outputs: Seq<OutputView>,
    pub next: NextView,
}

impl View for Step {
    type V = StepView;

    open spec fn view(&self) -> StepView {
        StepView { outputs: output_views(self.outputs@), next: self.next@ }
    }
}

/// Sends nothing.
pub(crate) fn silent(next: Next) -> (step: Step)
    ensures
        step@ == (StepView { outputs: Seq::empty(), next: next@ }),
{
    let step = Step { outputs: Vec::new(), next };
    assert(step@.outputs =~= Seq::<OutputView>::empty());
    step
}

/// Sends one thing.
pub(crate) fn sending(output: Output, next: Next) -> (step: Step)
    ensures
        step@ == (StepView { outputs: seq![output@], next: next@ }),
{
    let mut outputs: Vec<Output> = Vec::new();
    outputs.push(output);
    let step = Step { outputs, next };
    assert(step@.outputs =~= seq![output@]);
    step
}

/// The size of the buffer that the server is read into.
pub const READ_BUFFER: usize = 1024;

impl AuthErrorView {
    /// The text of an error.
    pub open spec fn text(self) -> Seq<char> {
        match self {
            AuthErrorView::ServerVersion(data) => "unexpected server handshake: "@ + byte_list(
                data,
            ),
            AuthErrorView::ClientVersion(e) => e.text(
                "bad client ProtocolVersion handshake"@,
                "missing client ProtocolVersion handshake"@,
            ),
            AuthErrorView::ClientSecurity(e) => e.text(
                "bad client security handshake"@,
                "missing client security handshake"@,
            ),
            AuthErrorView::SecurityTypeLength(n) => "unexpected security-type length. got "@
                + decimal(n as nat) + ", expected 1"@,
            AuthErrorView::UnsupportedSecurityType(t) => "unsupported security type "@ + decimal(
                t as nat,
            ),
            AuthErrorView::ClientResponse(e) => e.text(
                "bad client VNCAuth security handshake"@,
                "missing client VNCAuth security handshake"@,
            ),
            AuthErrorView::Handshake(step, _) => match step {
                Handshake::ProtocolVersion => "client ProtocolVersion handshake"@,
                Handshake::SecurityType => "client security type"@,
                Handshake::VencryptVersion => "client VeNCrypt version"@,
                Handshake::VencryptSubtype => "client VeNCrypt subtype"@,
            },
            AuthErrorView::CredentialsFrame(e) => e.text(
                "bad WebSocket message"@,
                "missing client message"@,
            ),
            AuthErrorView::CredentialsText(reason) => reason,
            AuthErrorView::Token(_) => "token validation"@,
            AuthErrorView::ServerHandshake(_) => "server ProtocolVersion handshake"@,
            AuthErrorView::SecurityTypes(data) => "invalid SecurityType payload "@ + byte_list(
                data,
            ),
            AuthErrorView::Nonce(data) => "invalid VncAuth nonce: "@ + byte_list(data),
            AuthErrorView::NoPassword =>
                "server does not have a password set up, cannot use basic password authentication."@,
            AuthErrorView::NoSupportedType(types) => "no supported SecurityTypes found: "@
                + byte_list(types),
            AuthErrorView::Refused(data) => "authentication failure: "@ + byte_list(data),
        }
    }
}

impl AuthErrorView {
    /// The text of an error together with the reasons for it, where `shown` is how the operating
    /// system writes down the time that the error of a token is about.
    pub open spec fn chain(self, shown: Seq<char>) -> Seq<char> {
        match self {
            AuthErrorView::ClientVersion(e) => e.chain(
                "bad client ProtocolVersion handshake"@,
                "missing client ProtocolVersion handshake"@,
            ),
            AuthErrorView::ClientSecurity(e) => e.chain(
                "bad client security handshake"@,
                "missing client security handshake"@,
            ),
            AuthErrorView::ClientResponse(e) => e.chain(
                "bad client VNCAuth security handshake"@,
                "missing client VNCAuth security handshake"@,
            ),
            AuthErrorView::CredentialsFrame(e) => e.chain(
                "bad WebSocket message"@,
                "missing client message"@,
            ),
            AuthErrorView::Handshake(_, e) => self.text() + ": "@ + e.chain(
                "bad client ProtocolVersion handshake"@,
                "missing client message"@,
            ),
            AuthErrorView::ServerHandshake(data) => self.text() + ": "@ + ("mismatched payload "@
                + byte_list(data)),
            AuthErrorView::Token(e) => self.text() + ": "@ + e.text(shown),
            _ => self.text(),
        }
    }
}

impl AuthError {
    /// The text of the error together with the reasons for it. See [`AuthError::chain_with`].
    pub fn chain(&self) -> (text: String)
        ensures
            exists|shown: Seq<char>| text@ == #[trigger] self@.chain(shown),
    {
        match self {
            AuthError::Token(e) => {
                let reason = e.to_string();
                let text = self.because(reason);
                proof {
                    let shown = choose|shown: Seq<char>| reason@ == #[trigger] e@.text(shown);
                    assert(text@ == self@.chain(shown));
                }
                text
            },
            _ => self.chain_with(""),
        }
    }

    /// The text of the error together with the reasons for it, where `shown` is how the operating
    /// system writes down the time that the error of a token is about.
    pub fn chain_with(&self, shown: &str) -> (text: String)
        ensures
            text@ == self@.chain(shown@),
    {
        match self {
            AuthError::ClientVersion(e) => e.chain(
                "bad client ProtocolVersion handshake",
                "missing client ProtocolVersion handshake",
            ),
            AuthError::ClientSecurity(e) => e.chain(
                "bad client security handshake",
                "missing client security handshake",
            ),
            AuthError::ClientResponse(e) => e.chain(
                "bad client VNCAuth security handshake",
                "missing client VNCAuth security handshake",
            ),
            AuthError::CredentialsFrame(e) => e.chain(
                "bad WebSocket message",
                "missing client message",
            ),
            AuthError::Handshake(_, e) => {
                let reason = e.chain(
                    "bad client ProtocolVersion handshake",
                    "missing client message",
                );
                self.because(reason)
            },
            AuthError::ServerHandshake(data) => self.because(
                with_byte_list("mismatched payload ", data),
            ),
            AuthError::Token(e) => self.because(e.to_string_with(shown)),
            _ => self.to_string(),
        }
    }

    fn because(&self, reason: String) -> (text: String)
        ensures
            text@ == self@.text() + ": "@ + reason@,
    {
        let mut text = self.to_string();
        text.append(": ");
        text.append(reason.as_str());
        text
    }
}

fn with_byte_list(start: &str, data: &Vec<u8>) -> (text: String)
    ensures
        text@ == start@ + byte_list(data@),
{
    let mut text = start.to_owned();
    push_byte_list(&mut text, data.as_slice());
    text
}

impl AuthError {
    /// The text of the error.
    pub fn to_string(&self) -> (text: String)
        ensures
            text@ == self@.text(),
    {
        match self {
            AuthError::ServerVersion(data) => with_byte_list(
                "unexpected server handshake: ",
                data,
            ),
            AuthError::ClientVersion(e) => e.text(
                "bad client ProtocolVersion handshake",
                "missing client ProtocolVersion handshake",
            ),
            AuthError::ClientSecurity(e) => e.text(
                "bad client security handshake",
                "missing client security handshake",
            ),
            AuthError::SecurityTypeLength(n) => {
                let mut text = "unexpected security-type length. got ".to_owned();
                push_decimal(&mut text, *n as u64);
                text.append(", expected 1");
                text
            },
            AuthError::UnsupportedSecurityType(t) => {
                let mut text = "unsupported security type ".to_owned();
                push_decimal(&mut text, *t as u64);
                text
            },
            AuthError::ClientResponse(e) => e.text(
                "bad client VNCAuth security handshake",
                "missing client VNCAuth security handshake",
            ),
            AuthError::Handshake(step, _) => match step {
                Handshake::ProtocolVersion => "client ProtocolVersion handshake".to_owned(),
                Handshake::SecurityType => "client security type".to_owned(),
                Handshake::VencryptVersion => "client VeNCrypt version".to_owned(),
                Handshake::VencryptSubtype => "client VeNCrypt subtype".to_owned(),
            },
            AuthError::CredentialsFrame(e) => e.text(
                "bad WebSocket message",
                "missing client message",
            ),
            AuthError::CredentialsText(reason) => reason.clone(),
            AuthError::Token(_) => "token validation".to_owned(),
            AuthError::ServerHandshake(_) => "server ProtocolVersion handshake".to_owned(),
            AuthError::SecurityTypes(data) => with_byte_list("invalid SecurityType payload ", data),
            AuthError::Nonce(data) => with_byte_list("invalid VncAuth nonce: ", data),
            AuthError::NoPassword =>
                "server does not have a password set up, cannot use basic password authentication.".to_owned(),
            AuthError::NoSupportedType(types) => with_byte_list(
                "no supported SecurityTypes found: ",
                types,
            ),
            AuthError::Refused(data) => with_byte_list("authentication failure: ", data),
        }
    }
}

/// What kind of authentication to use for an RFB connection.
pub enum RfbAuthentication {
    /// A null authentication. It does not perform the initial handshake, so it relies on the rest
    /// of the connection to pass through the data as-is without parsing.
    Null,
    /// An authentication that parses the initial ProtocolVersion and Security handshakes, and
    /// passes them as-is to the peer, without acting on it. This leaves the stream in a state
    /// where the ClientInit handshake is expected to appear next, followed by a stream of normal
    /// RFB messages can appear. See [`passthrough`].
    Passthrough,
    /// An authentication that uses a Plain authentication mechanism, where the username is a Replit
    /// token for the Repl in which this proxy is being run. See [`replit`].
    Replit { replid: String, pubkeys: Pubkeys },
}

/// An authentication that is under way.
pub enum Authenticator<'a> {
    Null,
    Passthrough(Passthrough),
    Replit(Replit<'a>),
}

impl<'a> Authenticator<'a> {
    /// Whether data from the server is waited for.
    pub open spec fn awaits_server(self) -> bool {
        match self {
            Authenticator::Null => false,
            Authenticator::Passthrough(a) => a.phase.awaits_server(),
            Authenticator::Replit(a) => a.phase.awaits_server(),
        }
    }

    /// Whether a message of the client is waited for.
    pub open spec fn awaits_client(self) -> bool {
        match self {
            Authenticator::Null => false,
            Authenticator::Passthrough(a) => a.phase.awaits_client(),
            Authenticator::Replit(a) => a.phase.awaits_client(),
        }
    }

    /// Whether there is room for what the client sent.
    pub open spec fn room_for(self, event: ClientEventView) -> bool {
        match self {
            Authenticator::Replit(a) => received(a@.buffer, event).len() <= isize::MAX,
            _ => true,
        }
    }

    /// Whether there is room for what the client sent.
    pub fn has_room(&self, event: &ClientEvent) -> (room: bool)
        ensures
            room == self.room_for(event@),
    {
        match self {
            Authenticator::Replit(a) => a.has_room(event),
            _ => true,
        }
    }

    /// Takes what one read from the server gave.
    pub fn on_server(&mut self, data: Vec<u8>) -> (step: Step)
        requires
            old(self).awaits_server(),
        ensures
            match (*old(self), *final(self)) {
                (Authenticator::Passthrough(before), Authenticator::Passthrough(after)) => (
                    after.phase,
                    step@,
                ) == passthrough::server_step(before.phase, data@),
                (Authenticator::Replit(before), Authenticator::Replit(after)) => after.same_setup(
                    before,
                ) && (after@, step@) == replit::server_step(before@, data@),
                _ => false,
            },
    {
        match self {
            Authenticator::Null => silent(Next::Done),
            Authenticator::Passthrough(a) => a.on_server(data),
            Authenticator::Replit(a) => a.on_server(data),
        }
    }

    /// Takes what came of waiting for the client.
    pub fn on_client(&mut self, event: ClientEvent) -> (step: Step)
        requires
            old(self).awaits_client(),
            old(self).room_for(event@),
        ensures
            match (*old(self), *final(self)) {
                (Authenticator::Passthrough(before), Authenticator::Passthrough(after)) => (
                    after.phase,
                    step@,
                ) == passthrough::client_step(before.phase, event@),
                (Authenticator::Replit(before), Authenticator::Replit(after)) => after.same_setup(
                    before,
                ) && exists|now: Option<UnixTime>|
                    (after@, step@) == replit::client_step(
                        before.replid@,
                        before.pubkeys@,
                        before@,
                        event@,
                        #[trigger] clock_instant(now),
                    ),
                _ => false,
            },
    {
        match self {
            Authenticator::Null => silent(Next::Done),
            Authenticator::Passthrough(a) => a.on_client(event),
            Authenticator::Replit(a) => a.on_client(event),
        }
    }
}

/// A way of authenticating an RFB connection.
pub fn authenticate<'a>(authentication: &'a RfbAuthentication) -> (r: (Authenticator<'a>, Step))
    ensures
        match authentication {
            RfbAuthentication::Null => r.0 is Null && r.1@ == (StepView {
                outputs: Seq::empty(),
                next: NextView::Done,
            }),
            RfbAuthentication::Passthrough => (r.0 matches Authenticator::Passthrough(a)
                && a.phase is ServerVersion) && r.1@ == (StepView {
                outputs: Seq::empty(),
                next: NextView::ReadServer(VERSION_LENGTH as int),
            }),
            RfbAuthentication::Replit { replid, pubkeys } => (
            r.0 matches Authenticator::Replit(a) && a@ == replit::start() && a.replid@ == replid@
                && a.pubkeys == pubkeys) && r.1@ == (StepView {
                outputs: seq![OutputView::ToClient(VERSION@)],
                next: NextView::ReadClient,
            }),
        },
{
    match authentication {
        RfbAuthentication::Null => (Authenticator::Null, silent(Next::Done)),
        RfbAuthentication::Passthrough => {
            let (a, step) = authenticate_passthrough();
            (Authenticator::Passthrough(a), step)
        },
        RfbAuthentication::Replit { replid, pubkeys } => {
            let (a, step) = authenticate_replit(replid.as_str(), pubkeys);
            (Authenticator::Replit(a), step)
        },
    }
}

} // verus!
