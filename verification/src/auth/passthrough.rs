//! An authentication that parses the initial ProtocolVersion and Security handshakes, and passes
//! them as-is to the peer, without acting on it.

use vstd::prelude::*;

use super::{sending, silent, AuthError, AuthErrorView, ClientEvent, ClientEventView};
use super::{FrameError, FrameErrorView, Next, NextView, Output, OutputView, Step, StepView};
use super::READ_BUFFER;

verus! {

/// The length of a protocol version, such as `RFB 003.008` and the newline behind it.
pub const VERSION_LENGTH: usize = 12;

/// The security type of a server that asks for nothing.
pub const SECURITY_NONE: u8 = 1;

/// The security type of a server that asks for a password.
pub const SECURITY_VNC: u8 = 2;

/// How far the handshakes have come: what is waited for.
#[derive(Clone, Copy, Debug, PartialEq, Eq, Structural)]
pub enum Phase {
    /// The server's protocol version.
    ServerVersion,
    /// The client's protocol version.
    ClientVersion,
    /// The security types that the server offers.
    ServerSecurity,
    /// The security type that the client chooses.
    ClientSecurity,
    /// The server's challenge.
    ServerChallenge,
    /// The client's response to it.
    ClientResponse,
    /// Whether the server lets the client in.
    ServerResult,
    /// Nothing, after success or failure.
    Finished,
}

impl Phase {
    /// Whether data from the server is waited for.
    pub open spec fn awaits_server(self) -> bool {
        self is ServerVersion || self is ServerSecurity || self is ServerChallenge
            || self is ServerResult
    }

    /// Whether a message of the client is waited for.
    pub open spec fn awaits_client(self) -> bool {
        self is ClientVersion || self is ClientSecurity || self is ClientResponse
    }
}

/// The handshakes between a client and a server.
pub struct Passthrough {
    pub phase: Phase,
}

/// Goes on.
pub open spec fn on(phase: Phase, outputs: Seq<OutputView>, next: NextView) -> (Phase, StepView) {
    (phase, StepView { outputs, next })
}

/// Gives up.
pub open spec fn off(outputs: Seq<OutputView>, e: AuthErrorView) -> (Phase, StepView) {
    (Phase::Finished, StepView { outputs, next: NextView::Failed(e) })
}

/// The step that data from the server leads to.
pub open spec fn server_step(phase: Phase, data: Seq<u8>) -> (Phase, StepView) {
    let relayed = seq![OutputView::ToClient(data)];
    match phase {
        Phase::ServerVersion => if data.len() != VERSION_LENGTH {
            off(Seq::empty(), AuthErrorView::ServerVersion(data))
        } else {
            on(Phase::ClientVersion, relayed, NextView::ReadClient)
        },
        Phase::ServerSecurity => on(Phase::ClientSecurity, relayed, NextView::ReadClient),
        Phase::ServerChallenge => on(Phase::ClientResponse, relayed, NextView::ReadClient),
        _ => on(Phase::Finished, relayed, NextView::Done),
    }
}

/// What is wrong with a message of the client that does not hold data.
pub open spec fn frame_error(event: ClientEventView) -> FrameErrorView {
    match event {
        ClientEventView::Other(description) => FrameErrorView::Unexpected(description),
        ClientEventView::Failed(reason) => FrameErrorView::Failed(reason),
        _ => FrameErrorView::Missing,
    }
}

/// The step that a message of the client leads to.
pub open spec fn client_step(phase: Phase, event: ClientEventView) -> (Phase, StepView) {
    let read = NextView::ReadServer(READ_BUFFER as int);
    match event {
        ClientEventView::Binary(payload) => {
            let relayed = seq![OutputView::ToServer(payload)];
            match phase {
                Phase::ClientVersion => on(Phase::ServerSecurity, relayed, read),
                Phase::ClientSecurity => if payload.len() != 1 {
                    off(
                        Seq::empty(),
                        AuthErrorView::SecurityTypeLength(payload.len() as int),
                    )
                } else if payload[0] == SECURITY_NONE {
                    on(Phase::ServerResult, relayed, read)
                } else if payload[0] == SECURITY_VNC {
                    on(Phase::ServerChallenge, relayed, read)
                } else {
                    off(relayed, AuthErrorView::UnsupportedSecurityType(payload[0]))
                },
                _ => on(Phase::ServerResult, relayed, read),
            }
        },
        _ => {
            let e = frame_error(event);
            off(
                Seq::empty(),
                match phase {
                    Phase::ClientVersion => AuthErrorView::ClientVersion(e),
                    Phase::ClientSecurity => AuthErrorView::ClientSecurity(e),
                    _ => AuthErrorView::ClientResponse(e),
                },
            )
        },
    }
}

/// The data of a client's message.
pub fn client_payload(event: ClientEvent) -> (r: Result<Vec<u8>, FrameError>)
    ensures
        match r {
            Ok(payload) => event@ == ClientEventView::Binary(payload@),
            Err(e) => !(event@ is Binary) && e@ == frame_error(event@),
        },
{
    match event {
        ClientEvent::Binary(payload) => Ok(payload),
        ClientEvent::Other(description) => Err(FrameError::Unexpected(description)),
        ClientEvent::Failed(reason) => Err(FrameError::Failed(reason)),
        ClientEvent::Ended => Err(FrameError::Missing),
    }
}

/// Starts the handshakes. The server speaks first.
pub fn authenticate_passthrough() -> (r: (Passthrough, Step))
    ensures
        r.0.phase is ServerVersion,
        r.1@ == (StepView {
            outputs: Seq::empty(),
            next: NextView::ReadServer(VERSION_LENGTH as int),
        }),
{
    (Passthrough { phase: Phase::ServerVersion }, silent(Next::ReadServer(VERSION_LENGTH)))
}

impl Passthrough {
    /// Takes what one read from the server gave.
    pub fn on_server(&mut self, data: Vec<u8>) -> (step: Step)
        requires
            old(self).phase.awaits_server(),
        ensures
            (final(self).phase, step@) == server_step(old(self).phase, data@),
    {
        match self.phase {
            Phase::ServerVersion => {
                if data.len() != VERSION_LENGTH {
                    self.phase = Phase::Finished;
                    return silent(Next::Failed(AuthError::ServerVersion(data)));
                }
                self.phase = Phase::ClientVersion;
                sending(Output::ToClient(data), Next::ReadClient)
            },
            Phase::ServerSecurity => {
                self.phase = Phase::ClientSecurity;
                sending(Output::ToClient(data), Next::ReadClient)
            },
            Phase::ServerChallenge => {
                self.phase = Phase::ClientResponse;
                sending(Output::ToClient(data), Next::ReadClient)
            },
            _ => {
                self.phase = Phase::Finished;
                sending(Output::ToClient(data), Next::Done)
            },
        }
    }

    /// Takes what came of waiting for the client.
    pub fn on_client(&mut self, event: ClientEvent) -> (step: Step)
        requires
            old(self).phase.awaits_client(),
        ensures
            (final(self).phase, step@) == client_step(old(self).phase, event@),
    {
        let phase = self.phase;
        let payload = match client_payload(event) {
            Ok(payload) => payload,
            Err(e) => {
                self.phase = Phase::Finished;
                return silent(
                    Next::Failed(
                        match phase {
                            Phase::ClientVersion => AuthError::ClientVersion(e),
                            Phase::ClientSecurity => AuthError::ClientSecurity(e),
                            _ => AuthError::ClientResponse(e),
                        },
                    ),
                );
            },
        };
        match phase {
            Phase::ClientVersion => {
                self.phase = Phase::ServerSecurity;
                sending(Output::ToServer(payload), Next::ReadServer(READ_BUFFER))
            },
            Phase::ClientSecurity => {
                if payload.len() != 1 {
                    self.phase = Phase::Finished;
                    return silent(Next::Failed(AuthError::SecurityTypeLength(payload.len())));
                }
                let chosen: u8 = payload[0];
                if chosen == SECURITY_NONE {
                    self.phase = Phase::ServerResult;
                    sending(Output::ToServer(payload), Next::ReadServer(READ_BUFFER))
                } else if chosen == SECURITY_VNC {
                    self.phase = Phase::ServerChallenge;
                    sending(Output::ToServer(payload), Next::ReadServer(READ_BUFFER))
                } else {
                    self.phase = Phase::Finished;
                    sending(
                        Output::ToServer(payload),
                        Next::Failed(AuthError::UnsupportedSecurityType(chosen)),
                    )
                }
            },
            _ => {
                self.phase = Phase::ServerResult;
                sending(Output::ToServer(payload), Next::ReadServer(READ_BUFFER))
            },
        }
    }
}

/// What comes in during the handshakes.
pub enum Arrival {
    Server(Seq<u8>),
    Client(ClientEventView),
}

/// All that is sent while `arrivals` come in one after the other, and what is done after the last
/// one. `None` if one comes in that is not waited for.
pub open spec fn run(phase: Phase, arrivals: Seq<Arrival>) -> Option<(Phase, Seq<OutputView>)>
    decreases arrivals.len(),
{
    if arrivals.len() == 0 {
        Some((phase, Seq::empty()))
    } else {
        match run(phase, arrivals.drop_last()) {
            None => None,
            Some((before, sent)) => match arrivals.last() {
                Arrival::Server(data) => if before.awaits_server() {
                    let (after, step) = server_step(before, data);
                    Some((after, sent + step.outputs))
                } else {
                    None
                },
                Arrival::Client(event) => if before.awaits_client() {
                    let (after, step) = client_step(before, event);
                    Some((after, sent + step.outputs))
                } else {
                    None
                },
            },
        }
    }
}

/// An arrival as it is passed on to the peer.
pub open spec fn relayed(arrivals: Seq<Arrival>) -> Seq<OutputView> {
    Seq::new(
        arrivals.len(),
        |i: int|
            match arrivals[i] {
                Arrival::Server(data) => OutputView::ToClient(data),
                Arrival::Client(ClientEventView::Binary(payload)) => OutputView::ToServer(payload),
                _ => OutputView::ToServer(Seq::empty()),
            },
    )
}

/// As long as the handshakes have not ended, each peer has been sent exactly what the other one
/// sent, in the same order and in the same pieces.
pub proof fn law_passthrough_relays_as_is(arrivals: Seq<Arrival>)
    requires
        run(Phase::ServerVersion, arrivals) matches Some((phase, _)) && !(phase is Finished),
    ensures
        run(Phase::ServerVersion, arrivals) matches Some((_, sent)) && sent == relayed(arrivals),
        forall|i: int|
            0 <= i < arrivals.len() ==> (#[trigger] arrivals[i] matches Arrival::Client(event)
                ==> event is Binary),
    decreases arrivals.len(),
{
    if arrivals.len() > 0 {
        let before = run(Phase::ServerVersion, arrivals.drop_last());
        assert(before matches Some((phase, _)) && !(phase is Finished));
        law_passthrough_relays_as_is(arrivals.drop_last());
        assert(relayed(arrivals) =~= relayed(arrivals.drop_last()) + relayed(
            seq![arrivals.last()],
        ));
        assert forall|i: int| 0 <= i < arrivals.len() implies (
        #[trigger] arrivals[i] matches Arrival::Client(event) ==> event is Binary) by {
            if i < arrivals.len() - 1 {
                assert(arrivals[i] == arrivals.drop_last()[i]);
            }
        }
        match run(Phase::ServerVersion, arrivals) {
            Some((_, sent)) => assert(sent =~= relayed(arrivals)),
            None => {},
        }
    } else {
        assert(relayed(arrivals) =~= Seq::<OutputView>::empty());
    }
}

/// Handshakes that succeed leave each peer with exactly what the other one sent: what the server
/// says of its result is the last thing that is relayed.
pub proof fn law_passthrough_success_relays_everything(arrivals: Seq<Arrival>, last: Seq<u8>)
    requires
        run(Phase::ServerVersion, arrivals) matches Some((phase, _)) && phase is ServerResult,
    ensures
        (server_step(Phase::ServerResult, last).1).next is Done,
        run(Phase::ServerVersion, arrivals.push(Arrival::Server(last))) == Some(
            (Phase::Finished, relayed(arrivals.push(Arrival::Server(last)))),
        ),
{
    law_passthrough_relays_as_is(arrivals);
    let all = arrivals.push(Arrival::Server(last));
    assert(all.drop_last() =~= arrivals);
    assert(relayed(all) =~= relayed(arrivals) + seq![OutputView::ToClient(last)]);
}

/// What is waited for next is what the phase says: a step asks for data of the server exactly if
/// the phase after it takes that, and for a message of the client exactly if it takes one.
pub proof fn law_passthrough_asks_for_what_it_takes(
    phase: Phase,
    data: Seq<u8>,
    event: ClientEventView,
)
    ensures
        phase.awaits_server() ==> ({
            let (after, step) = server_step(phase, data);
            &&& step.next is ReadServer <==> after.awaits_server()
            &&& step.next is ReadClient <==> after.awaits_client()
        }),
        phase.awaits_client() ==> ({
            let (after, step) = client_step(phase, event);
            &&& step.next is ReadServer <==> after.awaits_server()
            &&& step.next is ReadClient <==> after.awaits_client()
        }),
{
}

} // verus!
