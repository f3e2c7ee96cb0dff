//! An authentication that uses a Plain authentication mechanism, where the username is a Replit
//! token for the Repl in which this proxy is being run. It acts as if this were the real server and
//! exposes the Plain authentication as the only valid authentication mechanism, which should be
//! fine since all connections should go over TLS anyways.
//!
//! The password will be sent to the upstream RFB server if it claims to support VncAuth. Otherwise,
//! the password won't be sent (or checked at all!) and the None authentication type will be used.

use vstd::prelude::*;
use vstd::slice::{slice_subrange, slice_to_vec};

use super::credentials::{client_username_password, received, received_credentials};
use super::credentials::{Credentials, CredentialsView};
use super::passthrough::{client_payload, frame_error, SECURITY_NONE, SECURITY_VNC};
use super::token::{clock_instant, validate_token_at, verdict, verdict_view};
use super::token::{Pubkeys, TokenError, TokenErrorView, UnixTime};
use super::vnc::{encrypted_blocks, vnc_des_encrypt, vnc_key};
use super::{output_views, sending, silent, AuthError, AuthErrorView, ClientEvent, ClientEventView};
use super::{FrameError, FrameErrorView, Handshake, Next, NextView, Output, OutputView, Step};
use super::{StepView, READ_BUFFER};
use crate::data::{contains_byte, same_bytes, same_text};
use crate::outside::{buffer_bytes, buffer_with_capacity, buffered, clock};

verus! {

/// The version of the protocol, `RFB 003.008` and a newline.
pub const VERSION: [u8; 12] = [
    0x52,
    0x46,
    0x42,
    0x20,
    0x30,
    0x30,
    0x33,
    0x2e,
    0x30,
    0x30,
    0x38,
    0x0a,
];

/// The list of security types that the client is offered: just VeNCrypt.
pub const OFFERED_TYPES: [u8; 2] = [1, 19];

/// The security type of VeNCrypt.
pub const VENCRYPT: [u8; 1] = [19];

/// The version of VeNCrypt, 0.2.
pub const VENCRYPT_VERSION: [u8; 2] = [0, 2];

/// What tells the client that its version of VeNCrypt is fine.
pub const VENCRYPT_ACCEPTED: [u8; 1] = [0];

/// The list of VeNCrypt subtypes that the client is offered: just Plain.
pub const OFFERED_SUBTYPES: [u8; 5] = [1, 0, 0, 1, 0];

/// The VeNCrypt subtype of Plain.
pub const PLAIN: [u8; 4] = [0, 0, 1, 0];

/// What tells the client that it is let in.
pub const SUCCESS: [u8; 4] = [0, 0, 0, 0];

/// What tells the client that it is not let in.
pub const FAILURE: [u8; 4] = [0, 0, 0, 1];

/// The length of the challenge of VNC authentication.
pub const NONCE_LENGTH: usize = 16;

/// How far the handshakes have come: what is waited for.
#[derive(Clone, Copy, Debug, PartialEq, Eq, Structural)]
pub enum Phase {
    /// The client's protocol version.
    ClientVersion,
    /// The client's security type.
    ClientSecurity,
    /// The client's version of VeNCrypt.
    ClientVencrypt,
    /// The client's VeNCrypt subtype.
    ClientSubtype,
    /// The client's username and password.
    Credentials,
    /// The server's protocol version.
    ServerVersion,
    /// The security types that the server offers.
    ServerSecurity,
    /// The server's challenge.
    ServerChallenge,
    /// Whether the server lets the client in.
    ServerResult,
    /// Nothing, after success or failure.
    Finished,
}

impl Phase {
    /// The position of the phase in the course of the handshakes.
    pub open spec fn rank(self) -> int {
        match self {
            Phase::ClientVersion => 0,
            Phase::ClientSecurity => 1,
            Phase::ClientVencrypt => 2,
            Phase::ClientSubtype => 3,
            Phase::Credentials => 4,
            Phase::ServerVersion => 5,
            Phase::ServerSecurity => 6,
            Phase::ServerChallenge => 7,
            Phase::ServerResult => 8,
            Phase::Finished => 9,
        }
    }

    /// Whether a message of the client is waited for.
    pub open spec fn awaits_client(self) -> bool {
        self.rank() <= 4
    }

    /// Whether data from the server is waited for.
    pub open spec fn awaits_server(self) -> bool {
        5 <= self.rank() <= 8
    }
}

/// The handshakes with a client and with a server.
pub struct Replit<'a> {
    pub replid: &'a str,
    pub pubkeys: &'a Pubkeys,
    pub phase: Phase,
    pub buffer: bytes::BytesMut,
    pub password: String,
    pub use_token: bool,
}

/// The state of the handshakes: how far they have come, what the client has sent of its
/// credentials, its password, and whether it has to have a token.
pub struct State {
    pub phase: Phase,
    pub buffer: Seq<u8>,
    pub password: Seq<char>,
    pub use_token: bool,
}

impl State {
    /// The state in another phase.
    pub open spec fn to(self, phase: Phase) -> State {
        State { phase, ..self }
    }
}

impl<'a> View for Replit<'a> {
    type V = State;

    open spec fn view(&self) -> State {
        State {
            phase: self.phase,
            buffer: buffered(self.buffer),
            password: self.password@,
            use_token: self.use_token,
        }
    }
}

/// Gives up.
pub open spec fn off(state: State, outputs: Seq<OutputView>, e: AuthErrorView) -> (
    State,
    StepView,
) {
    (state.to(Phase::Finished), StepView { outputs, next: NextView::Failed(e) })
}

/// The state at the start.
pub open spec fn start() -> State {
    State {
        phase: Phase::ClientVersion,
        buffer: Seq::empty(),
        password: Seq::empty(),
        use_token: true,
    }
}

/// Whether a message of the client holds exactly the expected data, and what is wrong with it if it
/// does not.
pub open spec fn answer(event: ClientEventView, expected: Seq<u8>) -> Result<(), FrameErrorView> {
    match event {
        ClientEventView::Binary(payload) => if payload == expected {
            Ok(())
        } else {
            Err(FrameErrorView::Mismatch(payload))
        },
        _ => Err(frame_error(event)),
    }
}

/// A step of the handshake with the client: if its answer is the expected one, `outputs` are sent
/// to it and the next phase begins.
pub open spec fn handshake(
    state: State,
    event: ClientEventView,
    expected: Seq<u8>,
    step: Handshake,
    phase: Phase,
    outputs: Seq<OutputView>,
) -> (State, StepView) {
    match answer(event, expected) {
        Ok(()) => (state.to(phase), StepView { outputs, next: NextView::ReadClient }),
        Err(e) => off(state, Seq::empty(), AuthErrorView::Handshake(step, e)),
    }
}

/// Whether a client with these credentials has to have a token. Users can get through with the
/// "runner" username, but only if a password is provided.
pub open spec fn needs_token(username: Seq<char>, password: Seq<char>) -> bool {
    username != "runner"@ || password.len() == 0
}

/// The step that a message of the client leads to.
pub open spec fn client_step(
    replid: Seq<char>,
    keys: Map<Seq<char>, Seq<u8>>,
    state: State,
    event: ClientEventView,
    now: int,
) -> (State, StepView) {
    match state.phase {
        Phase::ClientVersion => handshake(
            state,
            event,
            VERSION@,
            Handshake::ProtocolVersion,
            Phase::ClientSecurity,
            seq![OutputView::ToClient(OFFERED_TYPES@)],
        ),
        Phase::ClientSecurity => handshake(
            state,
            event,
            VENCRYPT@,
            Handshake::SecurityType,
            Phase::ClientVencrypt,
            seq![OutputView::ToClient(VENCRYPT_VERSION@)],
        ),
        Phase::ClientVencrypt => handshake(
            state,
            event,
            VENCRYPT_VERSION@,
            Handshake::VencryptVersion,
            Phase::ClientSubtype,
            seq![
                OutputView::ToClient(VENCRYPT_ACCEPTED@),
                OutputView::ToClient(OFFERED_SUBTYPES@),
            ],
        ),
        Phase::ClientSubtype => handshake(
            state,
            event,
            PLAIN@,
            Handshake::VencryptSubtype,
            Phase::Credentials,
            Seq::empty(),
        ),
        _ => {
            let heard = State { buffer: received(state.buffer, event), ..state };
            match received_credentials(state.buffer, event) {
                CredentialsView::Incomplete => (
                    heard,
                    StepView { outputs: Seq::empty(), next: NextView::ReadClient },
                ),
                CredentialsView::BadFrame(e) => off(
                    heard,
                    Seq::empty(),
                    AuthErrorView::CredentialsFrame(e),
                ),
                CredentialsView::BadText(reason) => off(
                    heard,
                    Seq::empty(),
                    AuthErrorView::CredentialsText(reason),
                ),
                CredentialsView::Complete(username, password) => {
                    let use_token = needs_token(username, password);
                    let known = State { password, use_token, ..heard };
                    if use_token {
                        decided(known, verdict(username, replid, keys, now))
                    } else {
                        decided(known, Ok(()))
                    }
                },
            }
        },
    }
}

/// The step that the verdict on the client's token leads to. A client whose token is not accepted
/// is told so; otherwise the handshake with the server begins.
pub open spec fn decided(state: State, verdict: Result<(), TokenErrorView>) -> (State, StepView) {
    match verdict {
        Ok(()) => (
            state.to(Phase::ServerVersion),
            StepView {
                outputs: Seq::empty(),
                next: NextView::ReadServer(READ_BUFFER as int),
            },
        ),
        Err(e) => off(state, seq![OutputView::ToClient(FAILURE@)], AuthErrorView::Token(e)),
    }
}

/// The step that data from the server leads to.
pub open spec fn server_step(state: State, data: Seq<u8>) -> (State, StepView) {
    let read = NextView::ReadServer(READ_BUFFER as int);
    match state.phase {
        Phase::ServerVersion => if data != VERSION@ {
            off(state, Seq::empty(), AuthErrorView::ServerHandshake(data))
        } else {
            (
                state.to(Phase::ServerSecurity),
                StepView { outputs: seq![OutputView::ToServer(VERSION@)], next: read },
            )
        },
        Phase::ServerSecurity => if data.len() <= 1 || data[0] + 1 != data.len() {
            off(state, Seq::empty(), AuthErrorView::SecurityTypes(data))
        } else if data.skip(1).contains(SECURITY_VNC) {
            (
                state.to(Phase::ServerChallenge),
                StepView {
                    outputs: seq![OutputView::ToServer(seq![SECURITY_VNC])],
                    next: NextView::ReadServer(NONCE_LENGTH as int),
                },
            )
        } else if data.skip(1).contains(SECURITY_NONE) {
            if state.use_token {
                (
                    state.to(Phase::ServerResult),
                    StepView {
                        outputs: seq![OutputView::ToServer(seq![SECURITY_NONE])],
                        next: read,
                    },
                )
            } else {
                off(state, seq![OutputView::ToClient(FAILURE@)], AuthErrorView::NoPassword)
            }
        } else {
            off(state, Seq::empty(), AuthErrorView::NoSupportedType(data.skip(1)))
        },
        Phase::ServerChallenge => if data.len() != NONCE_LENGTH {
            off(state, Seq::empty(), AuthErrorView::Nonce(data))
        } else {
            (
                state.to(Phase::ServerResult),
                StepView {
                    outputs: seq![OutputView::ToServer(response(state.password, data))],
                    next: read,
                },
            )
        },
        _ => if data == SUCCESS@ {
            (
                state.to(Phase::Finished),
                StepView { outputs: seq![OutputView::ToClient(data)], next: NextView::Done },
            )
        } else {
            off(state, seq![OutputView::ToClient(data)], AuthErrorView::Refused(data))
        },
    }
}

/// The response to a challenge.
pub open spec fn response(password: Seq<char>, nonce: Seq<u8>) -> Seq<u8> {
    encrypted_blocks(vnc_key(password), nonce)
}

/// Checks that the client's answer matches what we expect.
pub fn client_handshake_step(event: ClientEvent, expected: &[u8]) -> (r: Result<(), FrameError>)
    ensures
        answer(event@, expected@) == (match r {
            Ok(()) => Ok::<(), FrameErrorView>(()),
            Err(e) => Err(e@),
        }),
{
    let payload = client_payload(event)?;
    if same_bytes(payload.as_slice(), expected) {
        Ok(())
    } else {
        Err(FrameError::Mismatch(payload))
    }
}

/// Checks that what the server sent matches what we expect, and sends a message in response.
pub fn server_handshake_step(data: &[u8], expected: &[u8], message: &[u8]) -> (r: Option<Output>)
    ensures
        match r {
            Some(output) => data@ == expected@ && output@ == OutputView::ToServer(message@),
            None => data@ != expected@,
        },
{
    if same_bytes(data, expected) {
        Some(Output::ToServer(slice_to_vec(message)))
    } else {
        None
    }
}

fn to_client(message: &[u8]) -> (output: Output)
    ensures
        output@ == OutputView::ToClient(message@),
{
    Output::ToClient(slice_to_vec(message))
}

/// Starts the handshakes: the client is told the version of the protocol.
pub fn authenticate_replit<'a>(replid: &'a str, pubkeys: &'a Pubkeys) -> (r: (Replit<'a>, Step))
    ensures
        r.0@ == start(),
        r.0.replid == replid,
        r.0.pubkeys == pubkeys,
        r.1@ == (StepView {
            outputs: seq![OutputView::ToClient(VERSION@)],
            next: NextView::ReadClient,
        }),
{
    let replit = Replit {
        replid,
        pubkeys,
        phase: Phase::ClientVersion,
        buffer: buffer_with_capacity(READ_BUFFER),
        password: String::new(),
        use_token: true,
    };
    assert(replit@.password =~= Seq::<char>::empty());
    (replit, sending(to_client(VERSION.as_slice()), Next::ReadClient))
}

impl<'a> Replit<'a> {
    /// Whether `other` is about the same repl and has the same keys.
    pub open spec fn same_setup(self, other: Replit<'a>) -> bool {
        self.replid == other.replid && self.pubkeys == other.pubkeys
    }

    fn fail(&mut self, e: AuthError) -> (step: Step)
        ensures
            final(self).same_setup(*old(self)),
            (final(self)@, step@) == off(old(self)@, Seq::empty(), e@),
    {
        self.phase = Phase::Finished;
        silent(Next::Failed(e))
    }

    fn handshake(
        &mut self,
        event: ClientEvent,
        expected: &[u8],
        step: Handshake,
        phase: Phase,
        outputs: Vec<Output>,
    ) -> (r: Step)
        ensures
            final(self).same_setup(*old(self)),
            (final(self)@, r@) == handshake(
                old(self)@,
                event@,
                expected@,
                step,
                phase,
                output_views(outputs@),
            ),
    {
        match client_handshake_step(event, expected) {
            Ok(()) => {
                self.phase = phase;
                Step { outputs, next: Next::ReadClient }
            },
            Err(e) => self.fail(AuthError::Handshake(step, e)),
        }
    }

    /// Takes the verdict on the client's token.
    pub fn on_verdict(&mut self, verdict: Result<(), TokenError>) -> (step: Step)
        ensures
            final(self).same_setup(*old(self)),
            (final(self)@, step@) == decided(old(self)@, verdict_view(verdict)),
    {
        match verdict {
            Ok(()) => {
                self.phase = Phase::ServerVersion;
                silent(Next::ReadServer(READ_BUFFER))
            },
            Err(e) => {
                self.phase = Phase::Finished;
                sending(to_client(FAILURE.as_slice()), Next::Failed(AuthError::Token(e)))
            },
        }
    }

    /// Whether there is room for what the client sent.
    pub fn has_room(&self, event: &ClientEvent) -> (room: bool)
        ensures
            room == (received(self@.buffer, event@).len() <= isize::MAX),
    {
        let n: usize = buffer_bytes(&self.buffer).len();
        let limit: usize = isize::MAX as usize;
        match event {
            ClientEvent::Binary(payload) => n <= limit && payload.len() <= limit - n,
            _ => n <= limit,
        }
    }

    /// Takes what came of waiting for the client, at the given point in time.
    pub fn on_client_at(&mut self, event: ClientEvent, now: Option<UnixTime>) -> (step: Step)
        requires
            old(self).phase.awaits_client(),
            received(old(self)@.buffer, event@).len() <= isize::MAX,
        ensures
            final(self).same_setup(*old(self)),
            (final(self)@, step@) == client_step(
                old(self).replid@,
                old(self).pubkeys@,
                old(self)@,
                event@,
                clock_instant(now),
            ),
    {
        let mut outputs: Vec<Output> = Vec::new();
        match self.phase {
            Phase::ClientVersion => {
                outputs.push(to_client(OFFERED_TYPES.as_slice()));
                assert(output_views(outputs@) =~= seq![OutputView::ToClient(OFFERED_TYPES@)]);
                self.handshake(
                    event,
                    VERSION.as_slice(),
                    Handshake::ProtocolVersion,
                    Phase::ClientSecurity,
                    outputs,
                )
            },
            Phase::ClientSecurity => {
                outputs.push(to_client(VENCRYPT_VERSION.as_slice()));
                assert(output_views(outputs@) =~= seq![OutputView::ToClient(VENCRYPT_VERSION@)]);
                self.handshake(
                    event,
                    VENCRYPT.as_slice(),
                    Handshake::SecurityType,
                    Phase::ClientVencrypt,
                    outputs,
                )
            },
            Phase::ClientVencrypt => {
                outputs.push(to_client(VENCRYPT_ACCEPTED.as_slice()));
                outputs.push(to_client(OFFERED_SUBTYPES.as_slice()));
                assert(output_views(outputs@) =~= seq![
                    OutputView::ToClient(VENCRYPT_ACCEPTED@),
                    OutputView::ToClient(OFFERED_SUBTYPES@),
                ]);
                self.handshake(
                    event,
                    VENCRYPT_VERSION.as_slice(),
                    Handshake::VencryptVersion,
                    Phase::ClientSubtype,
                    outputs,
                )
            },
            Phase::ClientSubtype => {
                assert(output_views(outputs@) =~= Seq::<OutputView>::empty());
                self.handshake(
                    event,
                    PLAIN.as_slice(),
                    Handshake::VencryptSubtype,
                    Phase::Credentials,
                    outputs,
                )
            },
            _ => match client_username_password(&mut self.buffer, &event) {
                Credentials::Incomplete => silent(Next::ReadClient),
                Credentials::BadFrame(e) => self.fail(AuthError::CredentialsFrame(e)),
                Credentials::BadText(reason) => self.fail(AuthError::CredentialsText(reason)),
                Credentials::Complete(username, password) => {
                    proof {
                        reveal_strlit("");
                        assert(password@.len() == 0 ==> password@ =~= ""@);
                    }
                    self.use_token = !same_text(username.as_str(), "runner") || same_text(
                        password.as_str(),
                        "",
                    );
                    self.password = password;
                    let verdict = if self.use_token {
                        validate_token_at(username.as_str(), self.replid, self.pubkeys, now)
                    } else {
                        Ok(())
                    };
                    self.on_verdict(verdict)
                },
            },
        }
    }

    /// Takes what came of waiting for the client, at the time that the clock shows.
    pub fn on_client(&mut self, event: ClientEvent) -> (step: Step)
        requires
            old(self).phase.awaits_client(),
            received(old(self)@.buffer, event@).len() <= isize::MAX,
        ensures
            final(self).same_setup(*old(self)),
            exists|now: Option<UnixTime>|
                (final(self)@, step@) == client_step(
                    old(self).replid@,
                    old(self).pubkeys@,
                    old(self)@,
                    event@,
                    #[trigger] clock_instant(now),
                ),
    {
        let now = clock();
        self.on_client_at(event, now)
    }

    /// Takes what one read from the server gave.
    pub fn on_server(&mut self, data: Vec<u8>) -> (step: Step)
        requires
            old(self).phase.awaits_server(),
        ensures
            final(self).same_setup(*old(self)),
            (final(self)@, step@) == server_step(old(self)@, data@),
    {
        match self.phase {
            Phase::ServerVersion => {
                match server_handshake_step(
                    data.as_slice(),
                    VERSION.as_slice(),
                    VERSION.as_slice(),
                ) {
                    None => self.fail(AuthError::ServerHandshake(data)),
                    Some(output) => {
                        self.phase = Phase::ServerSecurity;
                        sending(output, Next::ReadServer(READ_BUFFER))
                    },
                }
            },
            Phase::ServerSecurity => {
                if data.len() <= 1 || data[0] as usize + 1 != data.len() {
                    return self.fail(AuthError::SecurityTypes(data));
                }
                let types = slice_subrange(data.as_slice(), 1, data.len());
                assert(types@ =~= data@.skip(1));
                if contains_byte(types, SECURITY_VNC) {
                    self.phase = Phase::ServerChallenge;
                    let chosen: Vec<u8> = vec![SECURITY_VNC];
                    assert(chosen@ =~= seq![SECURITY_VNC]);
                    sending(Output::ToServer(chosen), Next::ReadServer(NONCE_LENGTH))
                } else if contains_byte(types, SECURITY_NONE) {
                    if !self.use_token {
                        // Let the client know that it messed up, since "runner" cannot be used if
                        // the server does not validate the password.
                        self.phase = Phase::Finished;
                        return sending(
                            to_client(FAILURE.as_slice()),
                            Next::Failed(AuthError::NoPassword),
                        );
                    }
                    self.phase = Phase::ServerResult;
                    let chosen: Vec<u8> = vec![SECURITY_NONE];
                    assert(chosen@ =~= seq![SECURITY_NONE]);
                    sending(Output::ToServer(chosen), Next::ReadServer(READ_BUFFER))
                } else {
                    self.fail(AuthError::NoSupportedType(slice_to_vec(types)))
                }
            },
            Phase::ServerChallenge => {
                if data.len() != NONCE_LENGTH {
                    return self.fail(AuthError::Nonce(data));
                }
                let mut nonce = data;
                vnc_des_encrypt(self.password.as_str(), nonce.as_mut_slice());
                self.phase = Phase::ServerResult;
                sending(Output::ToServer(nonce), Next::ReadServer(READ_BUFFER))
            },
            _ => {
                self.phase = Phase::Finished;
                if same_bytes(data.as_slice(), SUCCESS.as_slice()) {
                    sending(Output::ToClient(data), Next::Done)
                } else {
                    // The reply is sent as well, so that the client can display the
                    // "authentication failed" message.
                    let reply = slice_to_vec(data.as_slice());
                    sending(Output::ToClient(reply), Next::Failed(AuthError::Refused(data)))
                }
            },
        }
    }
}

/// What comes in during the handshakes: data from the server, or what came of waiting for the
/// client at a point in time.
pub enum Arrival {
    Server(Seq<u8>),
    Client(ClientEventView, int),
}

/// The step that an arrival leads to. `None` if it is not waited for.
pub open spec fn arrival_step(
    replid: Seq<char>,
    keys: Map<Seq<char>, Seq<u8>>,
    state: State,
    arrival: Arrival,
) -> Option<(State, StepView)> {
    match arrival {
        Arrival::Server(data) => if state.phase.awaits_server() {
            Some(server_step(state, data))
        } else {
            None
        },
        Arrival::Client(event, now) => if state.phase.awaits_client() {
            Some(client_step(replid, keys, state, event, now))
        } else {
            None
        },
    }
}

/// The state after `arrivals` came in one after the other, all that was sent, and what is done
/// next. `None` if one of them was not waited for.
pub open spec fn run(
    replid: Seq<char>,
    keys: Map<Seq<char>, Seq<u8>>,
    arrivals: Seq<Arrival>,
) -> Option<(State, Seq<OutputView>, NextView)>
    decreases arrivals.len(),
{
    if arrivals.len() == 0 {
        Some((start(), seq![OutputView::ToClient(VERSION@)], NextView::ReadClient))
    } else {
        match run(replid, keys, arrivals.drop_last()) {
            None => None,
            Some((before, sent, _)) => match arrival_step(replid, keys, before, arrivals.last()) {
                None => None,
                Some((after, step)) => Some((after, sent + step.outputs, step.next)),
            },
        }
    }
}

/// The username, the password and the point in time of the login that let the client go on to the
/// server.
pub open spec fn login_of(
    replid: Seq<char>,
    keys: Map<Seq<char>, Seq<u8>>,
    arrivals: Seq<Arrival>,
) -> Option<(Seq<char>, Seq<char>, int)>
    decreases arrivals.len(),
{
    if arrivals.len() == 0 {
        None
    } else {
        let earlier = login_of(replid, keys, arrivals.drop_last());
        match (run(replid, keys, arrivals.drop_last()), arrivals.last()) {
            (Some((before, _, _)), Arrival::Client(event, now)) => if before.phase is Credentials
                && client_step(replid, keys, before, event, now).0.phase is ServerVersion {
                match received_credentials(before.buffer, event) {
                    CredentialsView::Complete(u, p) => Some((u, p, now)),
                    _ => earlier,
                }
            } else {
                earlier
            },
            _ => earlier,
        }
    }
}

/// Whether a login is good enough to go on to the server: the token is valid, or it is the "runner"
/// with a password.
pub open spec fn good_login(
    replid: Seq<char>,
    keys: Map<Seq<char>, Seq<u8>>,
    username: Seq<char>,
    password: Seq<char>,
    now: int,
) -> bool {
    ||| username == "runner"@ && password.len() > 0
    ||| verdict(username, replid, keys, now) is Ok
}

/// Whether the server was sent a response to a challenge, made with the password.
pub open spec fn responded(sent: Seq<OutputView>, password: Seq<char>) -> bool {
    exists|nonce: Seq<u8>|
        sent.contains(OutputView::ToServer(#[trigger] response(password, nonce)))
}

proof fn lemma_good_run(replid: Seq<char>, keys: Map<Seq<char>, Seq<u8>>, arrivals: Seq<Arrival>)
    ensures
        run(replid, keys, arrivals) matches Some((state, sent, next)) ==> {
            &&& !(next is Failed) && state.phase.rank() >= 5 ==> {
                &&& login_of(replid, keys, arrivals) matches Some((u, p, now))
                &&& state.password == p
                &&& state.use_token == needs_token(u, p)
                &&& good_login(replid, keys, u, p, now)
                &&& state.use_token ==> verdict(u, replid, keys, now) is Ok
                &&& state.phase.rank() >= 8 && !state.use_token ==> responded(sent, p)
            }
            &&& next is Failed ==> state.phase is Finished
            &&& next is Done ==> {
                &&& arrivals.len() > 0
                &&& arrivals.last() == Arrival::Server(SUCCESS@)
                &&& sent.len() > 0
                &&& sent.last() == OutputView::ToClient(SUCCESS@)
            }
        },
    decreases arrivals.len(),
{
    if arrivals.len() > 0 {
        lemma_good_run(replid, keys, arrivals.drop_last());
        if let Some((before, sent, next)) = run(replid, keys, arrivals.drop_last()) {
            if let Some((after, step)) = arrival_step(replid, keys, before, arrivals.last()) {
                let all = sent + step.outputs;
                if responded(sent, before.password) {
                    let nonce = choose|nonce: Seq<u8>|
                        sent.contains(
                            OutputView::ToServer(#[trigger] response(before.password, nonce)),
                        );
                    let output = OutputView::ToServer(response(before.password, nonce));
                    let i = choose|i: int| 0 <= i < sent.len() && sent[i] == output;
                    assert(all[i] == output);
                    assert(all.contains(output));
                    assert(responded(all, before.password));
                }
                if before.phase is ServerChallenge && after.phase is ServerResult {
                    if let Arrival::Server(data) = arrivals.last() {
                        let output = OutputView::ToServer(response(before.password, data));
                        assert(all[sent.len() as int] == output);
                        assert(all.contains(output));
                        assert(responded(all, before.password));
                    }
                }
            }
        }
    }
}

/// A client gets through only with a good login, and only if the server lets it in: either with a
/// valid token, or as the "runner" with a password that the server was given to check. In both
/// cases the client has been told of the server's success last.
pub proof fn law_only_good_logins_succeed(
    replid: Seq<char>,
    keys: Map<Seq<char>, Seq<u8>>,
    arrivals: Seq<Arrival>,
)
    requires
        run(replid, keys, arrivals) matches Some((_, _, next)) && next is Done,
    ensures
        login_of(replid, keys, arrivals) matches Some((username, password, now)) && (verdict(
            username,
            replid,
            keys,
            now,
        ) is Ok || (username == "runner"@ && password.len() > 0 && (run(
            replid,
            keys,
            arrivals,
        ) matches Some((_, sent, _)) && responded(sent, password)))),
        arrivals.last() == Arrival::Server(SUCCESS@),
        run(replid, keys, arrivals) matches Some((_, sent, _)) && sent.len() > 0 && sent.last()
            == OutputView::ToClient(SUCCESS@),
{
    lemma_good_run(replid, keys, arrivals);
    lemma_done_is_finished(replid, keys, arrivals);
}

proof fn lemma_done_is_finished(
    replid: Seq<char>,
    keys: Map<Seq<char>, Seq<u8>>,
    arrivals: Seq<Arrival>,
)
    ensures
        run(replid, keys, arrivals) matches Some((state, _, next)) ==> (next is Done
            ==> state.phase is Finished),
{
}

/// Nothing is sent to the server before a good login.
pub proof fn law_server_is_not_bothered_before_login(
    replid: Seq<char>,
    keys: Map<Seq<char>, Seq<u8>>,
    arrivals: Seq<Arrival>,
)
    ensures
        run(replid, keys, arrivals) matches Some((_, sent, _)) ==> (login_of(
            replid,
            keys,
            arrivals,
        ) is None ==> forall|i: int| 0 <= i < sent.len() ==> #[trigger] sent[i] is ToClient),
    decreases arrivals.len(),
{
    if arrivals.len() > 0 {
        law_server_is_not_bothered_before_login(replid, keys, arrivals.drop_last());
        lemma_good_run(replid, keys, arrivals.drop_last());
        lemma_good_run(replid, keys, arrivals);
    }
}

/// What is done with data from the server depends on the password only where the data is a
/// challenge, which the server sends only if it offered VncAuth.
pub proof fn law_password_is_for_challenges_only(state: State, data: Seq<u8>, other: Seq<char>)
    requires
        state.phase.awaits_server(),
    ensures
        !(state.phase is ServerChallenge) ==> server_step(state, data).1 == server_step(
            State { password: other, ..state },
            data,
        ).1,
        server_step(state, data).0.phase is ServerChallenge ==> state.phase is ServerSecurity
            && data.skip(1).contains(SECURITY_VNC),
        server_step(state, data).0.password == state.password,
{
}

/// A client that does not get through because of its login, or because of what the server makes of
/// it, is told so.
pub proof fn law_failures_are_told(
    replid: Seq<char>,
    keys: Map<Seq<char>, Seq<u8>>,
    state: State,
    arrival: Arrival,
)
    ensures
        arrival_step(replid, keys, state, arrival) matches Some((_, step)) ==> {
            &&& step.next matches NextView::Failed(AuthErrorView::Token(_)) ==> step.outputs
                == seq![OutputView::ToClient(FAILURE@)]
            &&& step.next matches NextView::Failed(AuthErrorView::NoPassword) ==> step.outputs
                == seq![OutputView::ToClient(FAILURE@)]
            &&& step.next matches NextView::Failed(AuthErrorView::Refused(data)) ==> step.outputs
                == seq![OutputView::ToClient(data)]
        },
{
}

/// The handshakes go through their phases in order: no arrival leads back, and only more of the
/// client's credentials lets them stay where they are.
pub proof fn law_phases_are_in_order(
    replid: Seq<char>,
    keys: Map<Seq<char>, Seq<u8>>,
    state: State,
    arrival: Arrival,
)
    ensures
        arrival_step(replid, keys, state, arrival) matches Some((after, step)) ==> {
            &&& after.phase.rank() > state.phase.rank() || (after.phase is Credentials
                && state.phase is Credentials)
            &&& step.next is ReadClient <==> after.phase.awaits_client()
            &&& step.next is ReadServer <==> after.phase.awaits_server()
        },
{
}

} // verus!
