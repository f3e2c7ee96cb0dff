//! The course of the handshakes, told by the bytes that come in and go out.

use vstd::prelude::*;
use vstd::utf8::{encode_utf8, encode_utf8_decode_utf8, encode_utf8_valid_utf8, valid_utf8};

use super::credentials::{received_credentials, CredentialsView};
use super::passthrough;
use super::replit;
use super::replit::{arrival_step, client_step, decided, response, run, server_step, start};
use super::replit::{Arrival, Phase, State};
use super::token::{verdict, TokenErrorView};
use super::vnc::{encrypted_blocks, reversed, vnc_key};
use super::{AuthErrorView, Authenticator, ClientEventView, FrameErrorView, Handshake, NextView};
use super::{OutputView, StepView};
use crate::messages::io::be32;
use crate::messages::layout::{four, law_numbers_are_read_back};
use crate::outside::{buffered, des_encrypted, utf8_error};

verus! {

/// `RFB 003.008` and a newline.
pub open spec fn rfb_version() -> Seq<u8> {
    seq![
        0x52u8,
        0x46u8,
        0x42u8,
        0x20u8,
        0x30u8,
        0x30u8,
        0x33u8,
        0x2eu8,
        0x30u8,
        0x30u8,
        0x38u8,
        10u8,
    ]
}

/// A step that sends one thing to the client.
pub open spec fn tells_client(data: Seq<u8>, next: NextView) -> StepView {
    StepView { outputs: seq![OutputView::ToClient(data)], next }
}

/// A step that sends one thing to the server.
pub open spec fn tells_server(data: Seq<u8>, next: NextView) -> StepView {
    StepView { outputs: seq![OutputView::ToServer(data)], next }
}

/// A step that sends nothing.
pub open spec fn tells_nobody(next: NextView) -> StepView {
    StepView { outputs: Seq::empty(), next }
}

/// Where the handshakes are passed through, whatever the server sends goes to the client as it is,
/// and the handshakes go on, or are done after the server's last word. The one exception is what
/// the server starts with, which has to be 12 bytes long.
pub proof fn law_passthrough_of_the_server(data: Seq<u8>)
    ensures
        passthrough::server_step(passthrough::Phase::ServerVersion, data) == (if data.len() == 12 {
            (passthrough::Phase::ClientVersion, tells_client(data, NextView::ReadClient))
        } else {
            (
                passthrough::Phase::Finished,
                tells_nobody(NextView::Failed(AuthErrorView::ServerVersion(data))),
            )
        }),
        passthrough::server_step(passthrough::Phase::ServerSecurity, data) == (
            passthrough::Phase::ClientSecurity,
            tells_client(data, NextView::ReadClient),
        ),
        passthrough::server_step(passthrough::Phase::ServerChallenge, data) == (
            passthrough::Phase::ClientResponse,
            tells_client(data, NextView::ReadClient),
        ),
        passthrough::server_step(passthrough::Phase::ServerResult, data) == (
            passthrough::Phase::Finished,
            tells_client(data, NextView::Done),
        ),
{
}

/// Where the handshakes are passed through, whatever the client sends goes to the server as it is.
/// It is the client's choice of a security type that decides what comes next: with None the
/// server's result, with VNC authentication a challenge. Any other type fails, after the server has
/// heard of it.
pub proof fn law_passthrough_of_the_client(data: Seq<u8>)
    ensures
        ({
            let event = ClientEventView::Binary(data);
            let read = NextView::ReadServer(1024);
            &&& passthrough::client_step(passthrough::Phase::ClientVersion, event) == (
                passthrough::Phase::ServerSecurity,
                tells_server(data, read),
            )
            &&& passthrough::client_step(passthrough::Phase::ClientResponse, event) == (
                passthrough::Phase::ServerResult,
                tells_server(data, read),
            )
            &&& data.len() != 1 ==> passthrough::client_step(
                passthrough::Phase::ClientSecurity,
                event,
            ) == (
                passthrough::Phase::Finished,
                tells_nobody(
                    NextView::Failed(AuthErrorView::SecurityTypeLength(data.len() as int)),
                ),
            )
            &&& data == seq![1u8] ==> passthrough::client_step(
                passthrough::Phase::ClientSecurity,
                event,
            ) == (passthrough::Phase::ServerResult, tells_server(data, read))
            &&& data == seq![2u8] ==> passthrough::client_step(
                passthrough::Phase::ClientSecurity,
                event,
            ) == (passthrough::Phase::ServerChallenge, tells_server(data, read))
            &&& data.len() == 1 && data[0] != 1 && data[0] != 2 ==> passthrough::client_step(
                passthrough::Phase::ClientSecurity,
                event,
            ) == (
                passthrough::Phase::Finished,
                tells_server(
                    data,
                    NextView::Failed(AuthErrorView::UnsupportedSecurityType(data[0])),
                ),
            )
        }),
{
}

/// What is wrong with a message that holds no data: why the connection failed, what else it was, or
/// that there was none.
pub open spec fn no_data(event: ClientEventView) -> FrameErrorView {
    match event {
        ClientEventView::Failed(reason) => FrameErrorView::Failed(reason),
        ClientEventView::Other(description) => FrameErrorView::Unexpected(description),
        _ => FrameErrorView::Missing,
    }
}

/// Without data from the client the handshakes fail at once, and nobody is told anything.
pub proof fn law_handshakes_need_data(
    replid: Seq<char>,
    keys: Map<Seq<char>, Seq<u8>>,
    state: State,
    event: ClientEventView,
    now: int,
)
    requires
        !(event is Binary),
    ensures
        passthrough::client_step(passthrough::Phase::ClientVersion, event) == (
            passthrough::Phase::Finished,
            tells_nobody(NextView::Failed(AuthErrorView::ClientVersion(no_data(event)))),
        ),
        passthrough::client_step(passthrough::Phase::ClientSecurity, event) == (
            passthrough::Phase::Finished,
            tells_nobody(NextView::Failed(AuthErrorView::ClientSecurity(no_data(event)))),
        ),
        passthrough::client_step(passthrough::Phase::ClientResponse, event) == (
            passthrough::Phase::Finished,
            tells_nobody(NextView::Failed(AuthErrorView::ClientResponse(no_data(event)))),
        ),
        state.phase.awaits_client() ==> ({
            let (after, step) = client_step(replid, keys, state, event, now);
            &&& after == (State { phase: Phase::Finished, ..state })
            &&& step == tells_nobody(
                NextView::Failed(
                    match state.phase {
                        Phase::ClientVersion => AuthErrorView::Handshake(
                            Handshake::ProtocolVersion,
                            no_data(event),
                        ),
                        Phase::ClientSecurity => AuthErrorView::Handshake(
                            Handshake::SecurityType,
                            no_data(event),
                        ),
                        Phase::ClientVencrypt => AuthErrorView::Handshake(
                            Handshake::VencryptVersion,
                            no_data(event),
                        ),
                        Phase::ClientSubtype => AuthErrorView::Handshake(
                            Handshake::VencryptSubtype,
                            no_data(event),
                        ),
                        _ => AuthErrorView::CredentialsFrame(no_data(event)),
                    },
                ),
            )
        }),
{
}

/// Handshakes that are passed through come to their end with what a client and a server usually
/// say: versions, security types, the choice of None or of VNC authentication with a challenge and
/// the response to it, and the result. Each of them hears exactly what the other one said.
pub proof fn law_passthrough_comes_to_its_end(
    version: Seq<u8>,
    client_version: Seq<u8>,
    types: Seq<u8>,
    challenge: Seq<u8>,
    answer: Seq<u8>,
    result: Seq<u8>,
)
    requires
        version.len() == 12,
    ensures
        ({
            let first = passthrough::Phase::ServerVersion;
            let from_server = |data: Seq<u8>| passthrough::Arrival::Server(data);
            let from_client = |data: Seq<u8>|
                passthrough::Arrival::Client(ClientEventView::Binary(data));
            &&& passthrough::run(
                first,
                seq![
                    from_server(version),
                    from_client(client_version),
                    from_server(types),
                    from_client(seq![1u8]),
                    from_server(result),
                ],
            ) == Some(
                (
                    passthrough::Phase::Finished,
                    seq![
                        OutputView::ToClient(version),
                        OutputView::ToServer(client_version),
                        OutputView::ToClient(types),
                        OutputView::ToServer(seq![1u8]),
                        OutputView::ToClient(result),
                    ],
                ),
            )
            &&& passthrough::run(
                first,
                seq![
                    from_server(version),
                    from_client(client_version),
                    from_server(types),
                    from_client(seq![2u8]),
                    from_server(challenge),
                    from_client(answer),
                    from_server(result),
                ],
            ) == Some(
                (
                    passthrough::Phase::Finished,
                    seq![
                        OutputView::ToClient(version),
                        OutputView::ToServer(client_version),
                        OutputView::ToClient(types),
                        OutputView::ToServer(seq![2u8]),
                        OutputView::ToClient(challenge),
                        OutputView::ToServer(answer),
                        OutputView::ToClient(result),
                    ],
                ),
            )
        }),
{
    let s = |data: Seq<u8>| passthrough::Arrival::Server(data);
    let c = |data: Seq<u8>| passthrough::Arrival::Client(ClientEventView::Binary(data));
    lemma_run_step_server(Seq::empty(), version);
    lemma_run_step_client(seq![s(version)], client_version);
    let a1 = Seq::<passthrough::Arrival>::empty().push(s(version));
    assert(a1 =~= seq![s(version)]);
    let a2 = a1.push(c(client_version));
    lemma_run_step_server(a2, types);
    let a3 = a2.push(s(types));
    lemma_run_step_client(a3, seq![1u8]);
    lemma_run_step_client(a3, seq![2u8]);
    let n4 = a3.push(c(seq![1u8]));
    lemma_run_step_server(n4, result);
    let n5 = n4.push(s(result));
    assert(n5 =~= seq![s(version), c(client_version), s(types), c(seq![1u8]), s(result)]);
    let v4 = a3.push(c(seq![2u8]));
    lemma_run_step_server(v4, challenge);
    let v5 = v4.push(s(challenge));
    lemma_run_step_client(v5, answer);
    let v6 = v5.push(c(answer));
    lemma_run_step_server(v6, result);
    let v7 = v6.push(s(result));
    assert(v7 =~= seq![
        s(version),
        c(client_version),
        s(types),
        c(seq![2u8]),
        s(challenge),
        c(answer),
        s(result),
    ]);
    let first = passthrough::Phase::ServerVersion;
    match passthrough::run(first, n5) {
        Some((_, sent)) => {
            assert(sent =~= seq![
                OutputView::ToClient(version),
                OutputView::ToServer(client_version),
                OutputView::ToClient(types),
                OutputView::ToServer(seq![1u8]),
                OutputView::ToClient(result),
            ]);
        },
        None => {},
    }
    match passthrough::run(first, v7) {
        Some((_, sent)) => {
            assert(sent =~= seq![
                OutputView::ToClient(version),
                OutputView::ToServer(client_version),
                OutputView::ToClient(types),
                OutputView::ToServer(seq![2u8]),
                OutputView::ToClient(challenge),
                OutputView::ToServer(answer),
                OutputView::ToClient(result),
            ]);
        },
        None => {},
    }
}

proof fn lemma_run_step_server(earlier: Seq<passthrough::Arrival>, data: Seq<u8>)
    ensures
        passthrough::run(
            passthrough::Phase::ServerVersion,
            earlier.push(passthrough::Arrival::Server(data)),
        ) == (match passthrough::run(passthrough::Phase::ServerVersion, earlier) {
            Some((phase, sent)) if phase.awaits_server() => Some(
                (
                    passthrough::server_step(phase, data).0,
                    sent + passthrough::server_step(phase, data).1.outputs,
                ),
            ),
            _ => None,
        }),
{
    assert(earlier.push(passthrough::Arrival::Server(data)).drop_last() =~= earlier);
}

proof fn lemma_run_step_client(earlier: Seq<passthrough::Arrival>, data: Seq<u8>)
    ensures
        passthrough::run(
            passthrough::Phase::ServerVersion,
            earlier.push(passthrough::Arrival::Client(ClientEventView::Binary(data))),
        ) == (match passthrough::run(passthrough::Phase::ServerVersion, earlier) {
            Some((phase, sent)) if phase.awaits_client() => Some(
                (
                    passthrough::client_step(phase, ClientEventView::Binary(data)).0,
                    sent + passthrough::client_step(
                        phase,
                        ClientEventView::Binary(data),
                    ).1.outputs,
                ),
            ),
            _ => None,
        }),
{
    assert(earlier.push(
        passthrough::Arrival::Client(ClientEventView::Binary(data)),
    ).drop_last() =~= earlier);
}

/// What the client has to say, before it logs in, to get on to the next phase, and what it is sent
/// then.
pub open spec fn cue(phase: Phase) -> Option<(Seq<u8>, Phase, Seq<OutputView>)> {
    match phase {
        Phase::ClientVersion => Some(
            (rfb_version(), Phase::ClientSecurity, seq![OutputView::ToClient(seq![1u8, 19u8])]),
        ),
        Phase::ClientSecurity => Some(
            (seq![19u8], Phase::ClientVencrypt, seq![OutputView::ToClient(seq![0u8, 2u8])]),
        ),
        Phase::ClientVencrypt => Some(
            (
                seq![0u8, 2u8],
                Phase::ClientSubtype,
                seq![
                    OutputView::ToClient(seq![0u8]),
                    OutputView::ToClient(seq![1u8, 0u8, 0u8, 1u8, 0u8]),
                ],
            ),
        ),
        Phase::ClientSubtype => Some(
            (seq![0u8, 0u8, 1u8, 0u8], Phase::Credentials, Seq::empty()),
        ),
        _ => None,
    }
}

/// A client gets as far as the login exactly by saying what is expected of it: the version, the
/// security type VeNCrypt, its version 0.2, and the subtype Plain. Whatever else it says ends the
/// handshakes, and it is not sent anything.
pub proof fn law_client_is_led_to_the_login(
    replid: Seq<char>,
    keys: Map<Seq<char>, Seq<u8>>,
    state: State,
    data: Seq<u8>,
    now: int,
)
    requires
        cue(state.phase) is Some,
    ensures
        ({
            let (expected, phase, outputs) = cue(state.phase)->0;
            let (after, step) = client_step(
                replid,
                keys,
                state,
                ClientEventView::Binary(data),
                now,
            );
            &&& data == expected ==> after == (State { phase, ..state }) && step == (StepView {
                outputs,
                next: NextView::ReadClient,
            })
            &&& data != expected ==> after == (State { phase: Phase::Finished, ..state })
                && step.outputs.len() == 0 && (
            step.next matches NextView::Failed(AuthErrorView::Handshake(about, e)) && e
                == FrameErrorView::Mismatch(data) && match state.phase {
                Phase::ClientVersion => about is ProtocolVersion,
                Phase::ClientSecurity => about is SecurityType,
                Phase::ClientVencrypt => about is VencryptVersion,
                _ => about is VencryptSubtype,
            })
        }),
        start() == (State {
            phase: Phase::ClientVersion,
            buffer: Seq::empty(),
            password: Seq::empty(),
            use_token: true,
        }),
{
    lemma_constants();
}

proof fn lemma_constants()
    ensures
        replit::VERSION@ == rfb_version(),
        replit::OFFERED_TYPES@ == seq![1u8, 19u8],
        replit::VENCRYPT@ == seq![19u8],
        replit::VENCRYPT_VERSION@ == seq![0u8, 2u8],
        replit::VENCRYPT_ACCEPTED@ == seq![0u8],
        replit::OFFERED_SUBTYPES@ == seq![1u8, 0u8, 0u8, 1u8, 0u8],
        replit::PLAIN@ == seq![0u8, 0u8, 1u8, 0u8],
        replit::SUCCESS@ == seq![0u8, 0u8, 0u8, 0u8],
        replit::FAILURE@ == seq![0u8, 0u8, 0u8, 1u8],
{
    assert(replit::VERSION@ =~= rfb_version());
    assert(replit::OFFERED_TYPES@ =~= seq![1u8, 19u8]);
    assert(replit::VENCRYPT@ =~= seq![19u8]);
    assert(replit::VENCRYPT_VERSION@ =~= seq![0u8, 2u8]);
    assert(replit::VENCRYPT_ACCEPTED@ =~= seq![0u8]);
    assert(replit::OFFERED_SUBTYPES@ =~= seq![1u8, 0u8, 0u8, 1u8, 0u8]);
    assert(replit::PLAIN@ =~= seq![0u8, 0u8, 1u8, 0u8]);
    assert(replit::SUCCESS@ =~= seq![0u8, 0u8, 0u8, 0u8]);
    assert(replit::FAILURE@ =~= seq![0u8, 0u8, 0u8, 1u8]);
}

/// What a client sends to log in: the lengths of the username and of the password in four bytes
/// each, and then the two.
pub open spec fn login_bytes(username: Seq<char>, password: Seq<char>) -> Seq<u8> {
    four(encode_utf8(username).len() as int) + four(encode_utf8(password).len() as int)
        + encode_utf8(username) + encode_utf8(password)
}

/// A login is taken in whatever pieces it comes. Before the last byte is there, nothing is done
/// about it. Then the "runner" with a password gets on to the server at once; everybody else does,
/// too, if the username is a token that is accepted. If not, the client is told of its failure, and
/// so is nobody else. The password is kept.
#[verifier::spinoff_prover]
#[verifier::rlimit(60)]
pub proof fn law_logins(
    replid: Seq<char>,
    keys: Map<Seq<char>, Seq<u8>>,
    state: State,
    username: Seq<char>,
    password: Seq<char>,
    data: Seq<u8>,
    more: Seq<u8>,
    now: int,
)
    requires
        state.phase is Credentials,
        encode_utf8(username).len() <= 4294967295,
        encode_utf8(password).len() <= 4294967295,
        state.buffer + data + more == login_bytes(username, password),
    ensures
        ({
            let (after, step) = client_step(
                replid,
                keys,
                state,
                ClientEventView::Binary(data),
                now,
            );
            let runner = username == "runner"@ && password.len() > 0;
            let known = State {
                phase: Phase::ServerVersion,
                buffer: state.buffer + data,
                password,
                use_token: !runner,
            };
            &&& more.len() > 0 ==> after == (State { buffer: state.buffer + data, ..state }) && step
                == tells_nobody(NextView::ReadClient)
            &&& more.len() == 0 && runner ==> after == known && step == tells_nobody(
                NextView::ReadServer(1024),
            )
            &&& more.len() == 0 && !runner ==> match verdict(username, replid, keys, now) {
                Ok(_) => after == known && step == tells_nobody(NextView::ReadServer(1024)),
                Err(e) => after == (State { phase: Phase::Finished, ..known }) && step
                    == tells_client(
                    seq![0u8, 0u8, 0u8, 1u8],
                    NextView::Failed(AuthErrorView::Token(e)),
                ),
            }
        }),
{
    lemma_constants();
    let u = encode_utf8(username);
    let p = encode_utf8(password);
    let all = login_bytes(username, password);
    let s = state.buffer + data;
    encode_utf8_valid_utf8(username);
    encode_utf8_valid_utf8(password);
    encode_utf8_decode_utf8(username);
    encode_utf8_decode_utf8(password);
    law_numbers_are_read_back(Seq::empty(), u.len() as int, four(p.len() as int) + u + p);
    law_numbers_are_read_back(four(u.len() as int), p.len() as int, u + p);
    assert(all =~= Seq::<u8>::empty() + four(u.len() as int) + (four(p.len() as int) + u + p));
    assert(all =~= four(u.len() as int) + four(p.len() as int) + (u + p));
    assert(be32(all, 0) == u.len());
    assert(be32(all, 4) == p.len());
    assert(s + more =~= all);
    assert(forall|i: int| 0 <= i < s.len() ==> #[trigger] s[i] == all[i]);
    if s.len() >= 8 {
        assert(be32(s, 0) == be32(all, 0));
        assert(be32(s, 4) == be32(all, 4));
    }
    if more.len() == 0 {
        assert(s =~= all);
        assert(s.subrange(8, 8 + u.len() as int) =~= u);
        assert(s.subrange(8 + u.len() as int, (8 + u.len() + p.len()) as int) =~= p);
        assert(received_credentials(state.buffer, ClientEventView::Binary(data))
            == CredentialsView::Complete(username, password));
    } else {
        assert(received_credentials(state.buffer, ClientEventView::Binary(data))
            == CredentialsView::Incomplete);
    }
}

/// The server has to speak the same version of the protocol, and is answered with it.
pub proof fn law_server_version(state: State, data: Seq<u8>)
    requires
        state.phase is ServerVersion,
    ensures
        data == rfb_version() ==> server_step(state, data) == (
            State { phase: Phase::ServerSecurity, ..state },
            tells_server(rfb_version(), NextView::ReadServer(1024)),
        ),
        data != rfb_version() ==> server_step(state, data) == (
            State { phase: Phase::Finished, ..state },
            tells_nobody(NextView::Failed(AuthErrorView::ServerHandshake(data))),
        ),
{
    lemma_constants();
}

/// A server that offers VNC authentication, wherever it stands in the list, is asked for a
/// challenge. One that does not, but offers None, is taken up on that if the client has a token;
/// the "runner" is turned away. Any other list, and anything that is not a list, ends the
/// handshakes.
#[verifier::spinoff_prover]
#[verifier::rlimit(60)]
pub proof fn law_server_security(state: State, data: Seq<u8>)
    requires
        state.phase is ServerSecurity,
    ensures
        ({
            let listed = data.len() > 1 && data[0] + 1 == data.len();
            let (after, step) = server_step(state, data);
            &&& forall|i: int|
                listed && 1 <= i < data.len() && #[trigger] data[i] == 2 ==> after == (State {
                    phase: Phase::ServerChallenge,
                    ..state
                }) && step == tells_server(seq![2u8], NextView::ReadServer(16))
            &&& forall|i: int|
                listed && 1 <= i < data.len() && #[trigger] data[i] == 1 && (forall|k: int|
                    1 <= k < data.len() ==> #[trigger] data[k] != 2) ==> if state.use_token {
                    after == (State { phase: Phase::ServerResult, ..state }) && step
                        == tells_server(seq![1u8], NextView::ReadServer(1024))
                } else {
                    after == (State { phase: Phase::Finished, ..state }) && step == tells_client(
                        seq![0u8, 0u8, 0u8, 1u8],
                        NextView::Failed(AuthErrorView::NoPassword),
                    )
                }
            &&& listed && (forall|k: int|
                1 <= k < data.len() ==> #[trigger] data[k] != 2 && data[k] != 1) ==> after == (
            State { phase: Phase::Finished, ..state }) && step == tells_nobody(
                NextView::Failed(
                    AuthErrorView::NoSupportedType(data.subrange(1, data.len() as int)),
                ),
            )
            &&& !listed ==> after == (State { phase: Phase::Finished, ..state }) && step
                == tells_nobody(NextView::Failed(AuthErrorView::SecurityTypes(data)))
        }),
{
    lemma_constants();
    if data.len() > 1 && data[0] + 1 == data.len() {
        let types = data.skip(1);
        assert(forall|i: int| 0 <= i < types.len() ==> #[trigger] types[i] == data[i + 1]);
        assert forall|i: int| 1 <= i < data.len() implies types.contains(#[trigger] data[i]) by {
            assert(types[i - 1] == data[i]);
        }
        assert(types =~= data.subrange(1, data.len() as int));
        if types.contains(2u8) {
            let k = choose|k: int| 0 <= k < types.len() && types[k] == 2;
            assert(data[k + 1] == 2);
        }
        if types.contains(1u8) {
            let k = choose|k: int| 0 <= k < types.len() && types[k] == 1;
            assert(data[k + 1] == 1);
        }
    }
}

/// The bits of a byte in the opposite order, as numbers.
pub open spec fn mirrored(b: int) -> int {
    (b % 2) * 128 + ((b / 2) % 2) * 64 + ((b / 4) % 2) * 32 + ((b / 8) % 2) * 16 + ((b / 16) % 2)
        * 8 + ((b / 32) % 2) * 4 + ((b / 64) % 2) * 2 + (b / 128) % 2
}

/// A challenge of 16 bytes is answered with its two halves, each of them encrypted with DES on its
/// own. The key is made of the first 8 bytes of the password, with their bits in the opposite
/// order; where the password is shorter, there are zeroes. Anything else that the server sends ends
/// the handshakes.
#[verifier::spinoff_prover]
#[verifier::rlimit(60)]
pub proof fn law_challenges(state: State, data: Seq<u8>, key: Seq<u8>)
    requires
        state.phase is ServerChallenge,
        key.len() == 8,
        forall|i: int|
            0 <= i < 8 ==> #[trigger] key[i] == (if i < encode_utf8(state.password).len() {
                mirrored(encode_utf8(state.password)[i] as int)
            } else {
                0
            }),
    ensures
        data.len() == 16 ==> server_step(state, data) == (
            State { phase: Phase::ServerResult, ..state },
            tells_server(
                des_encrypted(key, data.subrange(0, 8)) + des_encrypted(key, data.subrange(8, 16)),
                NextView::ReadServer(1024),
            ),
        ),
        data.len() != 16 ==> server_step(state, data) == (
            State { phase: Phase::Finished, ..state },
            tells_nobody(NextView::Failed(AuthErrorView::Nonce(data))),
        ),
{
    let bytes = encode_utf8(state.password);
    assert forall|i: int| 0 <= i < 8 implies vnc_key(state.password)[i] == key[i] by {
        if i < bytes.len() {
            law_bits_are_mirrored(bytes[i]);
        }
    }
    assert(vnc_key(state.password) =~= key);
    if data.len() == 16 {
        lemma_two_blocks(key, data);
    }
}

proof fn lemma_two_blocks(key: Seq<u8>, data: Seq<u8>)
    requires
        data.len() == 16,
    ensures
        encrypted_blocks(key, data) == des_encrypted(key, data.subrange(0, 8)) + des_encrypted(
            key,
            data.subrange(8, 16),
        ),
{
    reveal_with_fuel(encrypted_blocks, 3);
    assert(data.take(8) =~= data.subrange(0, 8));
    assert(data.skip(8).take(8) =~= data.subrange(8, 16));
    assert(data.skip(8).skip(8) =~= Seq::<u8>::empty());
    assert(des_encrypted(key, data.subrange(8, 16)) + Seq::<u8>::empty() =~= des_encrypted(
        key,
        data.subrange(8, 16),
    ));
}

/// Reversing the bits of a byte swaps the highest one for the lowest one, and so on, in numbers.
pub proof fn law_bits_are_mirrored(b: u8)
    ensures
        reversed(b) == mirrored(b as int),
{
    assert(reversed(b) == (b % 2) * 128 + ((b / 2) % 2) * 64 + ((b / 4) % 2) * 32 + ((b / 8) % 2)
        * 16 + ((b / 16) % 2) * 8 + ((b / 32) % 2) * 4 + ((b / 64) % 2) * 2 + (b / 128) % 2)
        by (bit_vector);
}

/// The server's last word goes to the client, whatever it is. Four zeroes mean that it is let in.
pub proof fn law_server_result(state: State, data: Seq<u8>)
    requires
        state.phase is ServerResult,
    ensures
        server_step(state, data) == (
            State { phase: Phase::Finished, ..state },
            tells_client(
                data,
                if data == seq![0u8, 0u8, 0u8, 0u8] {
                    NextView::Done
                } else {
                    NextView::Failed(AuthErrorView::Refused(data))
                },
            ),
        ),
{
    lemma_constants();
}

/// The verdict on a token decides: with a good one the server is read, otherwise the client is told
/// of its failure.
pub proof fn law_verdicts(state: State, v: Result<(), TokenErrorView>)
    ensures
        v is Ok ==> decided(state, v) == (
            State { phase: Phase::ServerVersion, ..state },
            tells_nobody(NextView::ReadServer(1024)),
        ),
        v matches Err(e) ==> decided(state, v) == (
            State { phase: Phase::Finished, ..state },
            tells_client(seq![0u8, 0u8, 0u8, 1u8], NextView::Failed(AuthErrorView::Token(e))),
        ),
{
    lemma_constants();
}

/// What comes behind a login in the same message makes no difference to it.
#[verifier::spinoff_prover]
#[verifier::rlimit(60)]
pub proof fn law_logins_end(
    username: Seq<char>,
    password: Seq<char>,
    buffer: Seq<u8>,
    data: Seq<u8>,
)
    requires
        encode_utf8(username).len() <= 4294967295,
        encode_utf8(password).len() <= 4294967295,
        login_bytes(username, password).len() <= (buffer + data).len(),
        (buffer + data).take(login_bytes(username, password).len() as int) == login_bytes(
            username,
            password,
        ),
    ensures
        received_credentials(buffer, ClientEventView::Binary(data)) == CredentialsView::Complete(
            username,
            password,
        ),
{
    let u = encode_utf8(username);
    let p = encode_utf8(password);
    let all = login_bytes(username, password);
    let s = buffer + data;
    encode_utf8_valid_utf8(username);
    encode_utf8_valid_utf8(password);
    encode_utf8_decode_utf8(username);
    encode_utf8_decode_utf8(password);
    law_numbers_are_read_back(Seq::empty(), u.len() as int, four(p.len() as int) + u + p);
    law_numbers_are_read_back(four(u.len() as int), p.len() as int, u + p);
    assert(all =~= Seq::<u8>::empty() + four(u.len() as int) + (four(p.len() as int) + u + p));
    assert(all =~= four(u.len() as int) + four(p.len() as int) + (u + p));
    let start = s.take(all.len() as int);
    assert(forall|i: int| 0 <= i < all.len() ==> #[trigger] start[i] == s[i]);
    assert(be32(s, 0) == be32(all, 0));
    assert(be32(s, 4) == be32(all, 4));
    assert(s.subrange(8, 8 + u.len() as int) =~= u) by {
        assert(all.subrange(8, 8 + u.len() as int) =~= u);
        assert(s.subrange(8, 8 + u.len() as int) =~= all.subrange(8, 8 + u.len() as int));
    }
    assert(s.subrange(8 + u.len() as int, (8 + u.len() + p.len()) as int) =~= p) by {
        let from = 8 + u.len() as int;
        let to = (8 + u.len() + p.len()) as int;
        assert(all.subrange(from, to) =~= p);
        assert(s.subrange(from, to) =~= all.subrange(from, to));
    }
}

/// A username or a password that is not a text ends the handshakes; nobody is told anything.
#[verifier::spinoff_prover]
#[verifier::rlimit(60)]
pub proof fn law_logins_are_texts(
    replid: Seq<char>,
    keys: Map<Seq<char>, Seq<u8>>,
    state: State,
    username: Seq<u8>,
    password: Seq<u8>,
    data: Seq<u8>,
    now: int,
)
    requires
        state.phase is Credentials,
        username.len() <= 4294967295,
        password.len() <= 4294967295,
        !valid_utf8(username) || !valid_utf8(password),
        state.buffer + data == four(username.len() as int) + four(password.len() as int) + username
            + password,
    ensures
        client_step(replid, keys, state, ClientEventView::Binary(data), now) == (
            State { phase: Phase::Finished, buffer: state.buffer + data, ..state },
            tells_nobody(
                NextView::Failed(
                    AuthErrorView::CredentialsText(
                        utf8_error(
                            if valid_utf8(username) {
                                password
                            } else {
                                username
                            },
                        ),
                    ),
                ),
            ),
        ),
{
    let u = username;
    let p = password;
    let s = state.buffer + data;
    law_numbers_are_read_back(Seq::empty(), u.len() as int, four(p.len() as int) + u + p);
    law_numbers_are_read_back(four(u.len() as int), p.len() as int, u + p);
    assert(s =~= Seq::<u8>::empty() + four(u.len() as int) + (four(p.len() as int) + u + p));
    assert(s =~= four(u.len() as int) + four(p.len() as int) + (u + p));
    assert(s.subrange(8, 8 + u.len() as int) =~= u);
    assert(s.subrange(8 + u.len() as int, (8 + u.len() + p.len()) as int) =~= p);
}

proof fn lemma_one_more_arrival(
    replid: Seq<char>,
    keys: Map<Seq<char>, Seq<u8>>,
    earlier: Seq<Arrival>,
    arrival: Arrival,
)
    ensures
        run(replid, keys, earlier.push(arrival)) == (match run(replid, keys, earlier) {
            None => None,
            Some((before, sent, _)) => match arrival_step(replid, keys, before, arrival) {
                None => None,
                Some((after, step)) => Some((after, sent + step.outputs, step.next)),
            },
        }),
{
    assert(earlier.push(arrival).drop_last() =~= earlier);
}

/// What a client says up to its login.
pub open spec fn client_words(username: Seq<char>, password: Seq<char>, now: int) -> Seq<Arrival> {
    seq![
        Arrival::Client(ClientEventView::Binary(rfb_version()), now),
        Arrival::Client(ClientEventView::Binary(seq![19u8]), now),
        Arrival::Client(ClientEventView::Binary(seq![0u8, 2u8]), now),
        Arrival::Client(ClientEventView::Binary(seq![0u8, 0u8, 1u8, 0u8]), now),
        Arrival::Client(ClientEventView::Binary(login_bytes(username, password)), now),
    ]
}

/// What a client is told up to its login.
pub open spec fn words_to_client() -> Seq<OutputView> {
    seq![
        OutputView::ToClient(rfb_version()),
        OutputView::ToClient(seq![1u8, 19u8]),
        OutputView::ToClient(seq![0u8, 2u8]),
        OutputView::ToClient(seq![0u8]),
        OutputView::ToClient(seq![1u8, 0u8, 0u8, 1u8, 0u8]),
    ]
}

#[verifier::spinoff_prover]
#[verifier::rlimit(60)]
proof fn lemma_up_to_login(
    replid: Seq<char>,
    keys: Map<Seq<char>, Seq<u8>>,
    username: Seq<char>,
    password: Seq<char>,
    now: int,
)
    requires
        encode_utf8(username).len() <= 4294967295,
        encode_utf8(password).len() <= 4294967295,
        (username == "runner"@ && password.len() > 0) || verdict(
            username,
            replid,
            keys,
            now,
        ) is Ok,
    ensures
        run(replid, keys, client_words(username, password, now)) == Some(
            (
                State {
                    phase: Phase::ServerVersion,
                    buffer: login_bytes(username, password),
                    password,
                    use_token: !(username == "runner"@ && password.len() > 0),
                },
                words_to_client(),
                NextView::ReadServer(1024),
            ),
        ),
{
    lemma_constants();
    let words = client_words(username, password, now);
    let none = Seq::<Arrival>::empty();
    let a1 = none.push(words[0]);
    let a2 = a1.push(words[1]);
    let a3 = a2.push(words[2]);
    let a4 = a3.push(words[3]);
    let a5 = a4.push(words[4]);
    assert(a5 =~= words);
    lemma_one_more_arrival(replid, keys, none, words[0]);
    lemma_one_more_arrival(replid, keys, a1, words[1]);
    lemma_one_more_arrival(replid, keys, a2, words[2]);
    lemma_one_more_arrival(replid, keys, a3, words[3]);
    lemma_one_more_arrival(replid, keys, a4, words[4]);
    let begun = start();
    law_client_is_led_to_the_login(replid, keys, begun, rfb_version(), now);
    let s1 = State { phase: Phase::ClientSecurity, ..begun };
    law_client_is_led_to_the_login(replid, keys, s1, seq![19u8], now);
    let s2 = State { phase: Phase::ClientVencrypt, ..begun };
    law_client_is_led_to_the_login(replid, keys, s2, seq![0u8, 2u8], now);
    let s3 = State { phase: Phase::ClientSubtype, ..begun };
    law_client_is_led_to_the_login(replid, keys, s3, seq![0u8, 0u8, 1u8, 0u8], now);
    let s4 = State { phase: Phase::Credentials, ..begun };
    let login = login_bytes(username, password);
    let nothing = Seq::<u8>::empty();
    assert(s4.buffer + login =~= login);
    assert(s4.buffer + login + nothing =~= login);
    law_logins(replid, keys, s4, username, password, login, nothing, now);
    match run(replid, keys, a5) {
        Some((_, sent, _)) => {
            assert(sent =~= words_to_client());
        },
        None => {},
    }
}

/// A good login gets through to a server that lets the client in. With a token that is so whether
/// the server offers VNC authentication or, failing that, None; for the "runner" it has to be VNC
/// authentication. What the server and the client are sent on the way is all laid down.
#[verifier::spinoff_prover]
#[verifier::rlimit(60)]
pub proof fn law_good_logins_get_through(
    replid: Seq<char>,
    keys: Map<Seq<char>, Seq<u8>>,
    username: Seq<char>,
    password: Seq<char>,
    types: Seq<u8>,
    nonce: Seq<u8>,
    now: int,
)
    requires
        encode_utf8(username).len() <= 4294967295,
        encode_utf8(password).len() <= 4294967295,
        (username == "runner"@ && password.len() > 0) || verdict(
            username,
            replid,
            keys,
            now,
        ) is Ok,
        1 <= types.len() <= 255,
        nonce.len() == 16,
        types.contains(2) || (types.contains(1) && !(username == "runner"@ && password.len() > 0)),
    ensures
        ({
            let offer = seq![types.len() as u8] + types;
            let success = seq![0u8, 0u8, 0u8, 0u8];
            let said = client_words(username, password, now).push(
                Arrival::Server(rfb_version()),
            ).push(Arrival::Server(offer));
            let told = words_to_client().push(OutputView::ToServer(rfb_version()));
            let state = State {
                phase: Phase::Finished,
                buffer: login_bytes(username, password),
                password,
                use_token: !(username == "runner"@ && password.len() > 0),
            };
            if types.contains(2) {
                run(
                    replid,
                    keys,
                    said.push(Arrival::Server(nonce)).push(Arrival::Server(success)),
                ) == Some(
                    (
                        state,
                        told.push(OutputView::ToServer(seq![2u8])).push(
                            OutputView::ToServer(response(password, nonce)),
                        ).push(OutputView::ToClient(success)),
                        NextView::Done,
                    ),
                )
            } else {
                run(replid, keys, said.push(Arrival::Server(success))) == Some(
                    (
                        state,
                        told.push(OutputView::ToServer(seq![1u8])).push(
                            OutputView::ToClient(success),
                        ),
                        NextView::Done,
                    ),
                )
            }
        }),
{
    let offer = seq![types.len() as u8] + types;
    let success = seq![0u8, 0u8, 0u8, 0u8];
    let words = client_words(username, password, now);
    lemma_up_to_login(replid, keys, username, password, now);
    let begun = State {
        phase: Phase::ServerVersion,
        buffer: login_bytes(username, password),
        password,
        use_token: !(username == "runner"@ && password.len() > 0),
    };
    lemma_one_more_arrival(replid, keys, words, Arrival::Server(rfb_version()));
    law_server_version(begun, rfb_version());
    let a1 = words.push(Arrival::Server(rfb_version()));
    let t1 = words_to_client().push(OutputView::ToServer(rfb_version()));
    assert(words_to_client() + seq![OutputView::ToServer(rfb_version())] =~= t1);
    let s1 = State { phase: Phase::ServerSecurity, ..begun };
    lemma_one_more_arrival(replid, keys, a1, Arrival::Server(offer));
    law_server_security(s1, offer);
    let a2 = a1.push(Arrival::Server(offer));
    assert forall|i: int| 0 <= i < types.len() implies #[trigger] types[i] == offer[i + 1] by {}
    if types.contains(2) {
        let i = choose|i: int| 0 <= i < types.len() && types[i] == 2;
        assert(offer[i + 1] == 2);
        let t2 = t1.push(OutputView::ToServer(seq![2u8]));
        assert(t1 + seq![OutputView::ToServer(seq![2u8])] =~= t2);
        let s2 = State { phase: Phase::ServerChallenge, ..begun };
        assert(run(replid, keys, a2) == Some((s2, t2, NextView::ReadServer(16))));
        lemma_one_more_arrival(replid, keys, a2, Arrival::Server(nonce));
        let a3 = a2.push(Arrival::Server(nonce));
        let t3 = t2.push(OutputView::ToServer(response(password, nonce)));
        assert(t2 + seq![OutputView::ToServer(response(password, nonce))] =~= t3);
        let s3 = State { phase: Phase::ServerResult, ..begun };
        lemma_one_more_arrival(replid, keys, a3, Arrival::Server(success));
        law_server_result(s3, success);
        assert(t3 + seq![OutputView::ToClient(success)] =~= t3.push(OutputView::ToClient(success)));
    } else {
        let i = choose|i: int| 0 <= i < types.len() && types[i] == 1;
        assert(offer[i + 1] == 1);
        assert forall|k: int| 1 <= k < offer.len() implies #[trigger] offer[k] != 2 by {
            assert(offer[k] == types[k - 1]);
        }
        let t2 = t1.push(OutputView::ToServer(seq![1u8]));
        assert(t1 + seq![OutputView::ToServer(seq![1u8])] =~= t2);
        let s2 = State { phase: Phase::ServerResult, ..begun };
        assert(run(replid, keys, a2) == Some((s2, t2, NextView::ReadServer(1024))));
        lemma_one_more_arrival(replid, keys, a2, Arrival::Server(success));
        law_server_result(s2, success);
        assert(t2 + seq![OutputView::ToClient(success)] =~= t2.push(OutputView::ToClient(success)));
    }
}

/// What comes from the side that is not waited for is no step, and after the end nothing is.
pub proof fn law_arrivals_are_waited_for(
    replid: Seq<char>,
    keys: Map<Seq<char>, Seq<u8>>,
    state: State,
    data: Seq<u8>,
    event: ClientEventView,
    now: int,
)
    ensures
        ({
            let of_client = state.phase is ClientVersion || state.phase is ClientSecurity
                || state.phase is ClientVencrypt || state.phase is ClientSubtype
                || state.phase is Credentials;
            let at_end = state.phase is Finished;
            &&& arrival_step(replid, keys, state, Arrival::Client(event, now)) is Some
                <==> of_client
            &&& arrival_step(replid, keys, state, Arrival::Server(data)) is Some <==> !of_client
                && !at_end
        }),
{
}

/// Data is encrypted block by block, from its start to its end.
pub proof fn law_data_is_encrypted_in_blocks(key: Seq<u8>, block: Seq<u8>, rest: Seq<u8>)
    requires
        block.len() == 8,
    ensures
        encrypted_blocks(key, block + rest) == des_encrypted(key, block) + encrypted_blocks(
            key,
            rest,
        ),
        encrypted_blocks(key, Seq::empty()) == Seq::<u8>::empty(),
{
    assert((block + rest).take(8) =~= block);
    assert((block + rest).skip(8) =~= rest);
}

/// Who is waited for, and what there is room for. Without an authentication nobody is waited for;
/// the others wait for one side at a time. There is room for what the client sends up to the
/// longest buffer that there can be.
pub proof fn law_authenticators_wait(auth: Authenticator<'_>, event: ClientEventView)
    ensures
        auth is Null ==> !auth.awaits_client() && !auth.awaits_server(),
        auth matches Authenticator::Passthrough(a) ==> {
            &&& auth.awaits_server() <==> a.phase is ServerVersion || a.phase is ServerSecurity
                || a.phase is ServerChallenge || a.phase is ServerResult
            &&& auth.awaits_client() <==> a.phase is ClientVersion || a.phase is ClientSecurity
                || a.phase is ClientResponse
        },
        auth matches Authenticator::Replit(a) ==> {
            &&& auth.awaits_server() <==> a.phase is ServerVersion || a.phase is ServerSecurity
                || a.phase is ServerChallenge || a.phase is ServerResult
            &&& auth.awaits_client() <==> a.phase is ClientVersion || a.phase is ClientSecurity
                || a.phase is ClientVencrypt || a.phase is ClientSubtype || a.phase is Credentials
        },
        auth matches Authenticator::Replit(a) ==> (event matches ClientEventView::Binary(data)
            ==> auth.room_for(event) == (buffered(a.buffer).len() + data.len() <= isize::MAX)),
        !(auth is Replit) ==> auth.room_for(event),
{
}

} // verus!
