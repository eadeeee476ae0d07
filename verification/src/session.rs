//! The handshake between a client and the server.
//!
//! The client says hello, the server sends a nonce, the client proves with it that it holds the
//! shared key, and the server says that it is satisfied. Each function here takes what was read
//! from the stream and gives what has to be written next.

use crate::digest::hmac_sha256_of;
use crate::protocol::{
    Message, MessageView, ProtoError, MIN_PROTOCOL_VERSION, PROTOCOL_VERSION,
};
use crate::psk::{hmac_psk, verify_psk};
use crate::text::owned;
use rand::RngCore;
use vstd::prelude::*;

verus! {

/// Why a handshake failed.
#[derive(Debug, Clone, Copy, PartialEq, Eq, Structural)]
pub enum HandshakeError {
    /// A message could not be read or written.
    Protocol(ProtoError),
    /// The proof was wrong, or was not accepted.
    AuthFailed,
    VersionMismatch { got: u16, expected: u16 },
    UnexpectedMessage,
}

/// What the server learns of a client from its hello.
#[derive(Debug, PartialEq, Eq)]
pub struct Peer {
    pub hostname: String,
    pub peer_version: u16,
}

/// What a [`Peer`] says.
pub struct PeerView {
    pub hostname: Seq<char>,
    pub peer_version: u16,
}

impl View for Peer {
    type V = PeerView;

    open spec fn view(&self) -> PeerView {
        PeerView { hostname: self.hostname@, peer_version: self.peer_version }
    }
}

/// What a message says, or why it could not be read.
pub open spec fn incoming(m: Result<Message, ProtoError>) -> Result<MessageView, ProtoError> {
    match m {
        Ok(m) => Ok(m@),
        Err(e) => Err(e),
    }
}

/// The versions that a server accepts.
pub open spec fn version_accepted(v: u16) -> bool {
    MIN_PROTOCOL_VERSION <= v <= PROTOCOL_VERSION
}

/// What the server makes of the first message.
pub open spec fn hello_verdict(m: Result<MessageView, ProtoError>) -> Result<
    PeerView,
    HandshakeError,
> {
    match m {
        Err(e) => Err(HandshakeError::Protocol(e)),
        Ok(MessageView::Hello { protocol_version, hostname }) => if version_accepted(
            protocol_version,
        ) {
            Ok(PeerView { hostname, peer_version: protocol_version })
        } else {
            Err(
                HandshakeError::VersionMismatch {
                    got: protocol_version,
                    expected: PROTOCOL_VERSION,
                },
            )
        },
        Ok(_) => Err(HandshakeError::UnexpectedMessage),
    }
}

/// What the server makes of the answer to its challenge.
pub open spec fn response_verdict(
    psk: Seq<u8>,
    nonce: Seq<u8>,
    m: Result<MessageView, ProtoError>,
) -> Result<MessageView, HandshakeError> {
    match m {
        Err(e) => Err(HandshakeError::Protocol(e)),
        Ok(MessageView::AuthResponse { mac }) => if mac == hmac_sha256_of(psk, nonce) {
            Ok(MessageView::AuthOk)
        } else {
            Err(HandshakeError::AuthFailed)
        },
        Ok(_) => Err(HandshakeError::UnexpectedMessage),
    }
}

/// What the client answers to a challenge.
pub open spec fn challenge_answer(psk: Seq<u8>, m: Result<MessageView, ProtoError>) -> Result<
    MessageView,
    HandshakeError,
> {
    match m {
        Err(e) => Err(HandshakeError::Protocol(e)),
        Ok(MessageView::AuthChallenge { nonce }) => Ok(
            MessageView::AuthResponse { mac: hmac_sha256_of(psk, nonce) },
        ),
        Ok(_) => Err(HandshakeError::UnexpectedMessage),
    }
}

/// What the client makes of the last message.
pub open spec fn final_verdict(m: Result<MessageView, ProtoError>) -> Result<(), HandshakeError> {
    match m {
        Err(e) => Err(HandshakeError::Protocol(e)),
        Ok(MessageView::AuthOk) => Ok(()),
        Ok(_) => Err(HandshakeError::AuthFailed),
    }
}

/// `rand::RngCore::fill_bytes` on the thread's generator: 32 bytes, of which nothing is known.
#[verifier::external_body]
pub(crate) fn random_32() -> (r: [u8; 32]) {
    let mut bytes = [0u8; 32];
    rand::thread_rng().fill_bytes(&mut bytes);
    bytes
}

/// The server reads a hello: who the client is, if it is accepted.
pub fn accept_hello(hello: Result<Message, ProtoError>) -> (r: Result<Peer, HandshakeError>)
    ensures
        match r {
            Ok(p) => hello_verdict(incoming(hello)) == Ok::<_, HandshakeError>(p@),
            Err(e) => hello_verdict(incoming(hello)) == Err::<PeerView, _>(e),
        },
{
    match hello {
        Err(e) => Err(HandshakeError::Protocol(e)),
        Ok(Message::Hello { protocol_version, hostname }) => if MIN_PROTOCOL_VERSION
            <= protocol_version && protocol_version <= PROTOCOL_VERSION {
            Ok(Peer { hostname, peer_version: protocol_version })
        } else {
            Err(
                HandshakeError::VersionMismatch {
                    got: protocol_version,
                    expected: PROTOCOL_VERSION,
                },
            )
        },
        Ok(_) => Err(HandshakeError::UnexpectedMessage),
    }
}

/// The server reads a hello and draws a nonce: who the client is, the nonce, and the challenge to
/// send, which carries it. The nonce is random; [`accept_response`] takes it.
pub fn open_challenge(hello: Result<Message, ProtoError>) -> (r: Result<
    (Peer, [u8; 32], Message),
    HandshakeError,
>)
    ensures
        match r {
            Ok((p, nonce, challenge)) => hello_verdict(incoming(hello)) == Ok::<_, HandshakeError>(
                p@,
            ) && challenge@ == (MessageView::AuthChallenge { nonce: nonce@ }),
            Err(e) => hello_verdict(incoming(hello)) == Err::<PeerView, _>(e),
        },
{
    match accept_hello(hello) {
        Ok(p) => {
            let nonce = random_32();
            Ok((p, nonce, Message::AuthChallenge { nonce }))
        },
        Err(e) => Err(e),
    }
}

/// The server reads the answer to its challenge: the message to send, if the proof is right.
pub fn accept_response(
    psk: &[u8; 32],
    nonce: &[u8; 32],
    response: Result<Message, ProtoError>,
) -> (r: Result<Message, HandshakeError>)
    ensures
        match r {
            Ok(m) => response_verdict(psk@, nonce@, incoming(response)) == Ok::<_, HandshakeError>(
                m@,
            ),
            Err(e) => response_verdict(psk@, nonce@, incoming(response)) == Err::<MessageView, _>(
                e,
            ),
        },
{
    match response {
        Err(e) => Err(HandshakeError::Protocol(e)),
        Ok(Message::AuthResponse { mac }) => if verify_psk(psk, nonce, &mac) {
            Ok(Message::AuthOk)
        } else {
            Err(HandshakeError::AuthFailed)
        },
        Ok(_) => Err(HandshakeError::UnexpectedMessage),
    }
}

/// The client's first message.
pub fn client_hello(hostname: &str) -> (r: Message)
    ensures
        r@ == (MessageView::Hello { protocol_version: PROTOCOL_VERSION, hostname: hostname@ }),
{
    Message::Hello { protocol_version: PROTOCOL_VERSION, hostname: owned(hostname) }
}

/// The client reads the challenge: the proof to send.
pub fn answer_challenge(psk: &[u8; 32], challenge: Result<Message, ProtoError>) -> (r: Result<
    Message,
    HandshakeError,
>)
    ensures
        match r {
            Ok(m) => challenge_answer(psk@, incoming(challenge)) == Ok::<_, HandshakeError>(m@),
            Err(e) => challenge_answer(psk@, incoming(challenge)) == Err::<MessageView, _>(e),
        },
{
    match challenge {
        Err(e) => Err(HandshakeError::Protocol(e)),
        Ok(Message::AuthChallenge { nonce }) => {
            let mac = hmac_psk(psk, &nonce);
            Ok(Message::AuthResponse { mac })
        },
        Ok(_) => Err(HandshakeError::UnexpectedMessage),
    }
}

/// The client reads the server's last word.
pub fn accept_final(last: Result<Message, ProtoError>) -> (r: Result<(), HandshakeError>)
    ensures
        r == final_verdict(incoming(last)),
{
    match last {
        Err(e) => Err(HandshakeError::Protocol(e)),
        Ok(Message::AuthOk) => Ok(()),
        Ok(_) => Err(HandshakeError::AuthFailed),
    }
}

/// How far the server has come with a client.
#[derive(Debug, PartialEq, Eq)]
pub enum ServerStage {
    /// The client has to say hello.
    Hello,
    /// The client has to prove that it holds the key.
    Response { nonce: [u8; 32], peer: Peer },
    /// There is nothing more to say.
    Ended,
}

/// What is known of a [`ServerStage`].
pub enum ServerStageView {
    Hello,
    Response { nonce: Seq<u8>, peer: PeerView },
    Ended,
}

impl View for ServerStage {
    type V = ServerStageView;

    open spec fn view(&self) -> ServerStageView {
        match *self {
            ServerStage::Hello => ServerStageView::Hello,
            ServerStage::Response { nonce, peer } => ServerStageView::Response {
                nonce: nonce@,
                peer: peer@,
            },
            ServerStage::Ended => ServerStageView::Ended,
        }
    }
}

/// The server's side of a handshake.
#[derive(Debug, PartialEq, Eq)]
pub struct ServerHandshake {
    pub psk: [u8; 32],
    pub stage: ServerStage,
}

/// What the server does next: the message to send, and the client, once it is authenticated.
#[derive(Debug, PartialEq, Eq)]
pub struct ServerStep {
    pub send: Message,
    pub done: Option<Peer>,
}

/// What comes of a message: where the handshake stands, what to send, and who is authenticated. The
/// server sends `nonce`, if it sends a challenge.
pub open spec fn server_step(
    psk: Seq<u8>,
    stage: ServerStageView,
    m: Result<MessageView, ProtoError>,
    nonce: Seq<u8>,
) -> (ServerStageView, Result<(MessageView, Option<PeerView>), HandshakeError>) {
    match stage {
        ServerStageView::Hello => match hello_verdict(m) {
            Ok(peer) => (
                ServerStageView::Response { nonce, peer },
                Ok((MessageView::AuthChallenge { nonce }, None)),
            ),
            Err(e) => (ServerStageView::Ended, Err(e)),
        },
        ServerStageView::Response { nonce: sent, peer } => match response_verdict(psk, sent, m) {
            Ok(last) => (ServerStageView::Ended, Ok((last, Some(peer)))),
            Err(e) => (ServerStageView::Ended, Err(e)),
        },
        ServerStageView::Ended => (
            ServerStageView::Ended,
            Err(HandshakeError::UnexpectedMessage),
        ),
    }
}

/// What a step of the server says.
pub open spec fn server_step_view(r: Result<ServerStep, HandshakeError>) -> Result<
    (MessageView, Option<PeerView>),
    HandshakeError,
> {
    match r {
        Ok(s) => Ok(
            (
                s.send@,
                match s.done {
                    Some(p) => Some(p@),
                    None => None,
                },
            ),
        ),
        Err(e) => Err(e),
    }
}

impl ServerHandshake {
    /// The client has said nothing yet.
    pub fn new(psk: [u8; 32]) -> (r: Self)
        ensures
            r.psk == psk,
            r.stage@ is Hello,
    {
        ServerHandshake { psk, stage: ServerStage::Hello }
    }

    /// A message came from the client, or could not be read. A challenge carries a random nonce,
    /// which the handshake keeps.
    pub fn on_message(&mut self, m: Result<Message, ProtoError>) -> (r: Result<
        ServerStep,
        HandshakeError,
    >)
        ensures
            final(self).psk == old(self).psk,
            ({
                let nonce = match final(self).stage@ {
                    ServerStageView::Response { nonce, .. } => nonce,
                    _ => Seq::empty(),
                };
                (final(self).stage@, server_step_view(r)) == server_step(
                    old(self).psk@,
                    old(self).stage@,
                    incoming(m),
                    nonce,
                )
            }),
    {
        let mut stage = ServerStage::Ended;
        std::mem::swap(&mut stage, &mut self.stage);
        match stage {
            ServerStage::Hello => match open_challenge(m) {
                Ok((peer, nonce, send)) => {
                    self.stage = ServerStage::Response { nonce, peer };
                    Ok(ServerStep { send, done: None })
                },
                Err(e) => Err(e),
            },
            ServerStage::Response { nonce, peer } => match accept_response(&self.psk, &nonce, m) {
                Ok(send) => Ok(ServerStep { send, done: Some(peer) }),
                Err(e) => Err(e),
            },
            ServerStage::Ended => Err(HandshakeError::UnexpectedMessage),
        }
    }
}

/// How far a client has come with the server.
#[derive(Debug, Clone, Copy, PartialEq, Eq, Structural)]
pub enum ClientStage {
    /// The server has to send its challenge.
    Challenge,
    /// The server has to say whether it is satisfied.
    Last,
    /// There is nothing more to say.
    Ended,
}

/// A client's side of a handshake. It has said hello.
#[derive(Debug, PartialEq, Eq)]
pub struct ClientHandshake {
    pub psk: [u8; 32],
    pub stage: ClientStage,
}

/// What comes of a message: where the handshake stands, and what to send. Once there is nothing to
/// send any more, the client is authenticated.
pub open spec fn client_handshake_step(
    psk: Seq<u8>,
    stage: ClientStage,
    m: Result<MessageView, ProtoError>,
) -> (ClientStage, Result<Option<MessageView>, HandshakeError>) {
    match stage {
        ClientStage::Challenge => match challenge_answer(psk, m) {
            Ok(answer) => (ClientStage::Last, Ok(Some(answer))),
            Err(e) => (ClientStage::Ended, Err(e)),
        },
        ClientStage::Last => (
            ClientStage::Ended,
            match final_verdict(m) {
                Ok(_) => Ok(None),
                Err(e) => Err(e),
            },
        ),
        ClientStage::Ended => (ClientStage::Ended, Err(HandshakeError::UnexpectedMessage)),
    }
}

impl ClientHandshake {
    /// Starts a handshake: with the message to send.
    pub fn start(psk: [u8; 32], hostname: &str) -> (r: (Self, Message))
        ensures
            r.0.psk == psk,
            r.0.stage == ClientStage::Challenge,
            r.1@ == (MessageView::Hello {
                protocol_version: PROTOCOL_VERSION,
                hostname: hostname@,
            }),
    {
        (ClientHandshake { psk, stage: ClientStage::Challenge }, client_hello(hostname))
    }

    /// A message came from the server, or could not be read.
    pub fn on_message(&mut self, m: Result<Message, ProtoError>) -> (r: Result<
        Option<Message>,
        HandshakeError,
    >)
        ensures
            final(self).psk == old(self).psk,
            (
                final(self).stage,
                match r {
                    Ok(Some(m)) => Ok(Some(m@)),
                    Ok(None) => Ok(None),
                    Err(e) => Err(e),
                },
            ) == client_handshake_step(old(self).psk@, old(self).stage, incoming(m)),
    {
        let stage = self.stage;
        self.stage = ClientStage::Ended;
        match stage {
            ClientStage::Challenge => match answer_challenge(&self.psk, m) {
                Ok(answer) => {
                    self.stage = ClientStage::Last;
                    Ok(Some(answer))
                },
                Err(e) => Err(e),
            },
            ClientStage::Last => match accept_final(m) {
                Ok(_) => Ok(None),
                Err(e) => Err(e),
            },
            ClientStage::Ended => Err(HandshakeError::UnexpectedMessage),
        }
    }
}

/// Two sides that hold the same key complete the handshake, whatever the nonce, and the server
/// learns the client's name.
pub proof fn same_key_succeeds(psk: Seq<u8>, nonce: Seq<u8>, hostname: Seq<char>)
    ensures
        ({
            let peer = PeerView { hostname, peer_version: PROTOCOL_VERSION };
            let hello = MessageView::Hello { protocol_version: PROTOCOL_VERSION, hostname };
            let (s1, challenge) = server_step(psk, ServerStageView::Hello, Ok(hello), nonce);
            let (c1, answer) = client_handshake_step(
                psk,
                ClientStage::Challenge,
                Ok(challenge->Ok_0.0),
            );
            let (s2, last) = server_step(psk, s1, Ok(answer->Ok_0->Some_0), Seq::empty());
            let (c2, done) = client_handshake_step(psk, c1, Ok(last->Ok_0.0));
            &&& challenge == Ok::<_, HandshakeError>(
                (MessageView::AuthChallenge { nonce }, None::<PeerView>),
            )
            &&& answer is Ok && answer->Ok_0 is Some
            &&& last == Ok::<_, HandshakeError>((MessageView::AuthOk, Some(peer)))
            &&& done == Ok::<_, HandshakeError>(None::<MessageView>)
        }),
{
}

/// Nobody is authenticated without having said hello in a version that is accepted, and having then
/// sent the proof for the nonce that was sent.
pub proof fn no_proof_no_entry(
    psk: Seq<u8>,
    stage: ServerStageView,
    m: Result<MessageView, ProtoError>,
    nonce: Seq<u8>,
)
    ensures
        server_step(psk, stage, m, nonce).1 matches Ok((_, Some(peer))) ==> {
            &&& stage matches ServerStageView::Response { nonce: sent, peer: who } && who == peer
                && m == Ok::<_, ProtoError>(
                MessageView::AuthResponse { mac: hmac_sha256_of(psk, sent) },
            )
        },
        server_step(psk, stage, m, nonce).0 matches ServerStageView::Response { peer, .. }
            ==> stage is Hello && version_accepted(peer.peer_version) && m == Ok::<_, ProtoError>(
            MessageView::Hello { protocol_version: peer.peer_version, hostname: peer.hostname },
        ),
{
}

/// A client is refused for its version exactly if that is older than the oldest that is accepted or
/// newer than the server's own.
pub proof fn other_versions_are_refused(v: u16, hostname: Seq<char>)
    ensures
        ({
            let m = MessageView::Hello { protocol_version: v, hostname };
            if v < MIN_PROTOCOL_VERSION || v > PROTOCOL_VERSION {
                hello_verdict(Ok(m)) == Err::<PeerView, _>(
                    HandshakeError::VersionMismatch { got: v, expected: PROTOCOL_VERSION },
                )
            } else {
                hello_verdict(Ok(m)) == Ok::<_, HandshakeError>(
                    PeerView { hostname, peer_version: v },
                )
            }
        }),
{
}

/// A client whose key proves something else is refused, and so is any other answer than the proof:
/// the server says that it is satisfied only to the right proof.
pub proof fn other_proof_fails(psk: Seq<u8>, nonce: Seq<u8>, m: Result<MessageView, ProtoError>)
    ensures
        response_verdict(psk, nonce, m) is Ok <==> m == Ok::<_, ProtoError>(
            MessageView::AuthResponse { mac: hmac_sha256_of(psk, nonce) },
        ),
        m matches Ok(MessageView::AuthResponse { mac }) && mac != hmac_sha256_of(psk, nonce)
            ==> response_verdict(psk, nonce, m) == Err::<MessageView, _>(
            HandshakeError::AuthFailed,
        ),
{
}

/// The proof of a client with another key is refused, as long as the two keys' proofs differ.
pub proof fn other_key_fails(psk: Seq<u8>, other: Seq<u8>, nonce: Seq<u8>)
    requires
        hmac_sha256_of(psk, nonce) != hmac_sha256_of(other, nonce),
    ensures
        response_verdict(
            psk,
            nonce,
            Ok(challenge_answer(other, Ok(MessageView::AuthChallenge { nonce }))->Ok_0),
        ) == Err::<MessageView, _>(HandshakeError::AuthFailed),
{
}

/// The client proves that it holds its key for the nonce that the server sent, and for no other, and
/// is authenticated only by the server's last word.
pub proof fn clients_answer_the_challenge(psk: Seq<u8>, m: Result<MessageView, ProtoError>)
    ensures
        client_handshake_step(psk, ClientStage::Challenge, m).1 matches Ok(answer) ==> {
            &&& m is Ok && m->Ok_0 is AuthChallenge
            &&& answer == Some(
                MessageView::AuthResponse { mac: hmac_sha256_of(psk, m->Ok_0->nonce) },
            )
            &&& client_handshake_step(psk, ClientStage::Challenge, m).0 == ClientStage::Last
        },
        client_handshake_step(psk, ClientStage::Challenge, m).1 is Ok <==> m is Ok && m->Ok_0
            is AuthChallenge,
        client_handshake_step(psk, ClientStage::Last, m).1 is Ok <==> m == Ok::<_, ProtoError>(
            MessageView::AuthOk,
        ),
        client_handshake_step(psk, ClientStage::Last, m).1 matches Ok(next) ==> next is None,
        client_handshake_step(psk, ClientStage::Last, m).0 == ClientStage::Ended,
        client_handshake_step(psk, ClientStage::Ended, m).1 is Err,
{
}

/// What cannot be read ends the handshake on either side, with the reason; so does a message that is
/// not due.
pub proof fn failures_end_the_handshake(psk: Seq<u8>, nonce: Seq<u8>, e: ProtoError, m: MessageView)
    ensures
        server_step(psk, ServerStageView::Hello, Err(e), nonce) == (
            ServerStageView::Ended,
            Err::<(MessageView, Option<PeerView>), _>(HandshakeError::Protocol(e)),
        ),
        client_handshake_step(psk, ClientStage::Challenge, Err(e)) == (
            ClientStage::Ended,
            Err::<Option<MessageView>, _>(HandshakeError::Protocol(e)),
        ),
        client_handshake_step(psk, ClientStage::Last, Err(e)) == (
            ClientStage::Ended,
            Err::<Option<MessageView>, _>(HandshakeError::Protocol(e)),
        ),
        !(m is Hello) ==> server_step(psk, ServerStageView::Hello, Ok(m), nonce) == (
            ServerStageView::Ended,
            Err::<(MessageView, Option<PeerView>), _>(HandshakeError::UnexpectedMessage),
        ),
        !(m is AuthChallenge) ==> client_handshake_step(psk, ClientStage::Challenge, Ok(m)) == (
            ClientStage::Ended,
            Err::<Option<MessageView>, _>(HandshakeError::UnexpectedMessage),
        ),
        !(m is AuthOk) ==> client_handshake_step(psk, ClientStage::Last, Ok(m)) == (
            ClientStage::Ended,
            Err::<Option<MessageView>, _>(HandshakeError::AuthFailed),
        ),
{
}

/// A proof is good for one nonce only: what answers one challenge does not answer another, as long
/// as the proofs of the two differ. After one answer, right or wrong, the handshake is over.
pub proof fn proofs_are_good_once(
    psk: Seq<u8>,
    peer: PeerView,
    sent: Seq<u8>,
    earlier: Seq<u8>,
    m: Result<MessageView, ProtoError>,
)
    requires
        hmac_sha256_of(psk, sent) != hmac_sha256_of(psk, earlier),
    ensures
        ({
            let stage = ServerStageView::Response { nonce: sent, peer };
            let old_proof = MessageView::AuthResponse { mac: hmac_sha256_of(psk, earlier) };
            &&& server_step(psk, stage, Ok(old_proof), Seq::empty()).1 == Err::<
                (MessageView, Option<PeerView>),
                _,
            >(HandshakeError::AuthFailed)
            &&& server_step(psk, stage, m, Seq::empty()).0 is Ended
            &&& server_step(psk, ServerStageView::Ended, m, Seq::empty()).1 is Err
        }),
{
}

/// A client introduces itself under its own name and with the version that it speaks, and a server of
/// the same build lets it go on.
pub proof fn clients_introduce_themselves(hostname: &str, hello: Message)
    requires
        call_ensures(client_hello, (hostname,), hello),
    ensures
        hello@ is Hello,
        hello@->hostname == hostname@,
        hello_verdict(incoming(Ok(hello))) == Ok::<_, HandshakeError>(
            PeerView { hostname: hostname@, peer_version: hello@->protocol_version },
        ),
{
}

/// A hello is accepted, under the name and with the version that it gives, if and only if the version
/// is the first or the second; any other is refused with the version that was given.
pub proof fn both_versions_are_accepted(v: u16, hostname: Seq<char>)
    ensures
        ({
            let r = hello_verdict(Ok(MessageView::Hello { protocol_version: v, hostname }));
            &&& r is Ok <==> v == 1 || v == 2
            &&& r is Ok ==> r->Ok_0 == (PeerView { hostname, peer_version: v })
            &&& r is Err ==> r->Err_0 == (HandshakeError::VersionMismatch { got: v, expected: 2 })
        }),
{
}

} // verus!
