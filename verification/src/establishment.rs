//! How two peers agree to use shared memory when they open a session: each
//! proves to the other that it can read the other's authentication segment,
//! by sending back the challenge that it found there.

use vstd::prelude::*;
use rand::Rng;
use crate::codec::shm::{
    decoded_u8, lemma_skip_prefix, lemma_skip_skip, RCodec, Reader, WCodec, Zenoh080,
};
use crate::codec::zint::{
    decoded_u32, decoded_u64, encoded_u32, encoded_u64, lemma_u32_roundtrip, lemma_u64_roundtrip,
    DidntRead,
};
use crate::common::{ZError, ZResult};

verus! {

/// Numeric tag of an authentication segment.
pub type AuthSegmentID = u32;

/// What a peer finds in an authentication segment: the id under which the
/// segment is known, and the challenge that its owner put there.
#[derive(Clone, Copy, Debug, PartialEq, Eq, Structural)]
pub struct AuthSegment {
    id: AuthSegmentID,
    challenge: u64,
}

impl AuthSegment {
    pub closed spec fn id_spec(&self) -> AuthSegmentID {
        self.id
    }

    pub closed spec fn challenge_spec(&self) -> u64 {
        self.challenge
    }

    pub fn new(id: AuthSegmentID, challenge: u64) -> (segment: Self)
        ensures
            segment.id_spec() == id,
            segment.challenge_spec() == challenge,
    {
        AuthSegment { id, challenge }
    }

    pub fn id(&self) -> (id: AuthSegmentID)
        ensures
            id == self.id_spec(),
    {
        self.id
    }

    pub fn challenge(&self) -> (challenge: u64)
        ensures
            challenge == self.challenge_spec(),
    {
        self.challenge
    }
}

/// The authenticator of one peer: it owns the peer's own authentication
/// segment.
#[derive(Clone, Copy, Debug, PartialEq, Eq, Structural)]
pub struct AuthUnicast {
    segment: AuthSegment,
}

impl AuthUnicast {
    pub closed spec fn id_spec(&self) -> AuthSegmentID {
        self.segment.id_spec()
    }

    pub closed spec fn challenge_spec(&self) -> u64 {
        self.segment.challenge_spec()
    }

    pub fn new(segment: AuthSegment) -> (auth: Self)
        ensures
            auth.id_spec() == segment.id_spec(),
            auth.challenge_spec() == segment.challenge_spec(),
    {
        AuthUnicast { segment }
    }

    /// The id of this peer's segment.
    pub fn id(&self) -> (id: AuthSegmentID)
        ensures
            id == self.id_spec(),
    {
        self.segment.id()
    }

    /// The challenge in this peer's segment.
    pub fn challenge(&self) -> (challenge: u64)
        ensures
            challenge == self.challenge_spec(),
    {
        self.segment.challenge()
    }
}

/// The first message: the id of the opener's segment.
#[derive(Clone, Copy, Debug, PartialEq, Eq, Structural)]
pub struct InitSyn {
    pub alice_segment: AuthSegmentID,
}

/// An `InitSyn` on the wire: the id of the opener's segment.
pub open spec fn encoded_init_syn(x: InitSyn) -> Seq<u8> {
    encoded_u32(x.alice_segment)
}

/// The `InitSyn` at the front of `bytes`, and its length.
pub open spec fn decoded_init_syn(bytes: Seq<u8>) -> Option<(InitSyn, nat)> {
    match decoded_u32(bytes) {
        None => None,
        Some((alice_segment, taken)) => Some((InitSyn { alice_segment }, taken)),
    }
}

impl WCodec<&InitSyn> for Zenoh080 {
    open spec fn encoding(message: &InitSyn) -> Seq<u8> {
        encoded_init_syn(*message)
    }

    fn write(self, writer: &mut Vec<u8>, x: &InitSyn) {
        self.write(writer, x.alice_segment);
    }
}

impl RCodec<InitSyn> for Zenoh080 {
    open spec fn decoding(bytes: Seq<u8>) -> Option<(InitSyn, nat)> {
        decoded_init_syn(bytes)
    }

    fn read(self, reader: &mut Reader) -> (result: Result<InitSyn, DidntRead>) {
        let alice_segment: u32 = match self.read(reader) {
            Ok(alice_segment) => alice_segment,
            Err(e) => {
                return Err(e);
            },
        };
        Ok(InitSyn { alice_segment })
    }
}

/// The second message: the opener's challenge as the accepter read it, and
/// the id of the accepter's segment.
#[derive(Clone, Copy, Debug, PartialEq, Eq, Structural)]
pub struct InitAck {
    pub alice_challenge: u64,
    pub bob_segment: AuthSegmentID,
}

/// An `InitAck` on the wire: the challenge, then the id of the accepter's
/// segment.
pub open spec fn encoded_init_ack(x: InitAck) -> Seq<u8> {
    encoded_u64(x.alice_challenge) + encoded_u32(x.bob_segment)
}

/// The `InitAck` at the front of `bytes`, and its length.
pub open spec fn decoded_init_ack(bytes: Seq<u8>) -> Option<(InitAck, nat)> {
    match decoded_u64(bytes) {
        None => None,
        Some((alice_challenge, first)) => match decoded_u32(bytes.skip(first as int)) {
            None => None,
            Some((bob_segment, second)) => Some(
                (InitAck { alice_challenge, bob_segment }, first + second),
            ),
        },
    }
}

impl WCodec<&InitAck> for Zenoh080 {
    open spec fn encoding(message: &InitAck) -> Seq<u8> {
        encoded_init_ack(*message)
    }

    fn write(self, writer: &mut Vec<u8>, x: &InitAck) {
        self.write(writer, x.alice_challenge);
        self.write(writer, x.bob_segment);
        assert(writer@ =~= old(writer)@ + encoded_init_ack(*x));
    }
}

impl RCodec<InitAck> for Zenoh080 {
    open spec fn decoding(bytes: Seq<u8>) -> Option<(InitAck, nat)> {
        decoded_init_ack(bytes)
    }

    fn read(self, reader: &mut Reader) -> (result: Result<InitAck, DidntRead>) {
        let ghost all = reader.remaining();
        let start = reader.mark();
        let alice_challenge: u64 = match self.read(reader) {
            Ok(alice_challenge) => alice_challenge,
            Err(e) => {
                return Err(e);
            },
        };
        let bob_segment: u32 = match self.read(reader) {
            Ok(bob_segment) => bob_segment,
            Err(e) => {
                reader.rewind(start);
                return Err(e);
            },
        };
        proof {
            let first = decoded_u64(all)->Some_0.1;
            lemma_skip_skip(all, first, decoded_u32(all.skip(first as int))->Some_0.1);
        }
        Ok(InitAck { alice_challenge, bob_segment })
    }
}

/// An `InitSyn` is read back as it was written.
pub proof fn lemma_init_syn_roundtrip(x: InitSyn, rest: Seq<u8>)
    ensures
        decoded_init_syn(encoded_init_syn(x) + rest) == Some((x, encoded_init_syn(x).len())),
{
    lemma_u32_roundtrip(x.alice_segment, rest);
}

/// An `InitAck` is read back as it was written.
pub proof fn lemma_init_ack_roundtrip(x: InitAck, rest: Seq<u8>)
    ensures
        decoded_init_ack(encoded_init_ack(x) + rest) == Some((x, encoded_init_ack(x).len())),
{
    let a = encoded_u64(x.alice_challenge);
    let b = encoded_u32(x.bob_segment);
    assert(encoded_init_ack(x) + rest =~= a + (b + rest));
    lemma_u64_roundtrip(x.alice_challenge, b + rest);
    lemma_skip_prefix(a, b + rest);
    lemma_u32_roundtrip(x.bob_segment, rest);
}

/// What one side of a session knows of the negotiation: whether both sides
/// proved that they can read each other's segment.
#[derive(Clone, Copy, Debug, PartialEq, Eq, Structural)]
pub struct StateOpen {
    negotiated_to_use_shm: bool,
}

/// The accepter keeps the same state as the opener.
pub type StateAccept = StateOpen;

/// `rand::thread_rng().gen::<bool>()`: a fair coin. Nothing is claimed of
/// the outcome.
#[verifier::external_body]
fn random_bool() -> bool {
    rand::thread_rng().gen::<bool>()
}

impl StateOpen {
    pub closed spec fn negotiated(&self) -> bool {
        self.negotiated_to_use_shm
    }

    /// The state before the negotiation: shared memory is not agreed on.
    pub fn new() -> (state: Self)
        ensures
            !state.negotiated(),
    {
        Self { negotiated_to_use_shm: false }
    }

    pub fn negotiated_to_use_shm(&self) -> (negotiated: bool)
        ensures
            negotiated == self.negotiated(),
    {
        self.negotiated_to_use_shm
    }

    /// A state drawn at random, for trying out code that has to work with
    /// either.
    pub fn rand() -> (state: Self) {
        Self { negotiated_to_use_shm: random_bool() }
    }
}

/// The state on the wire: one byte, 1 for an agreement and 0 for none.
pub open spec fn encoded_state(x: StateOpen) -> Seq<u8> {
    seq![if x.negotiated() {
        1u8
    } else {
        0u8
    }]
}

/// The state at the front of `bytes`: an agreement exactly where the byte
/// is 1.
pub open spec fn decoded_state(bytes: Seq<u8>) -> Option<(StateOpen, nat)> {
    match decoded_u8(bytes) {
        None => None,
        Some((byte, taken)) => Some((state_of(byte == 1), taken)),
    }
}

/// The state that holds `negotiated`.
pub closed spec fn state_of(negotiated: bool) -> StateOpen {
    StateOpen { negotiated_to_use_shm: negotiated }
}

/// `state_of` holds what it was given.
pub proof fn lemma_state_of(negotiated: bool)
    ensures
        state_of(negotiated).negotiated() == negotiated,
{
}

/// A state is what it holds, and nothing else.
pub proof fn lemma_state_is(state: StateOpen)
    ensures
        state == state_of(state.negotiated()),
{
}

impl WCodec<&StateOpen> for Zenoh080 {
    open spec fn encoding(message: &StateOpen) -> Seq<u8> {
        encoded_state(*message)
    }

    fn write(self, writer: &mut Vec<u8>, x: &StateOpen) {
        let negotiated_to_use_shm: u8 = if x.negotiated_to_use_shm {
            1
        } else {
            0
        };
        self.write(writer, negotiated_to_use_shm);
    }
}

impl RCodec<StateOpen> for Zenoh080 {
    open spec fn decoding(bytes: Seq<u8>) -> Option<(StateOpen, nat)> {
        decoded_state(bytes)
    }

    fn read(self, reader: &mut Reader) -> (result: Result<StateOpen, DidntRead>) {
        let negotiated_to_use_shm: u8 = match self.read(reader) {
            Ok(byte) => byte,
            Err(e) => {
                return Err(e);
            },
        };
        Ok(StateOpen { negotiated_to_use_shm: negotiated_to_use_shm == 1 })
    }
}

/// A state is read back as it was written.
pub proof fn lemma_state_roundtrip(x: StateOpen, rest: Seq<u8>)
    ensures
        decoded_state(encoded_state(x) + rest) == Some((x, 1nat)),
{
    let bytes = encoded_state(x) + rest;
    assert(bytes[0] == encoded_state(x)[0]);
}

/// The state machine of the extension, for one peer.
pub struct ShmFsm<'a> {
    inner: &'a AuthUnicast,
}

/// What the opener makes of an `InitAck`: the id of the accepter's segment,
/// where the message is there, can be read and holds the opener's own
/// challenge.
pub open spec fn init_ack_verdict(own_challenge: u64, input: Option<Seq<u8>>) -> Option<
    AuthSegmentID,
> {
    match input {
        None => None,
        Some(bytes) => match decoded_init_ack(bytes) {
            None => None,
            Some((init_ack, _)) => if init_ack.alice_challenge == own_challenge {
                Some(init_ack.bob_segment)
            } else {
                None
            },
        },
    }
}

/// The opener goes on exactly with an answer that holds its own challenge:
/// then it learns the id of the accepter's segment, and with any other
/// challenge it drops the extension.
pub proof fn lemma_init_ack_verdict(own_challenge: u64, answer: InitAck, rest: Seq<u8>)
    ensures
        init_ack_verdict(own_challenge, Some(encoded_init_ack(answer) + rest)) == (if
            answer.alice_challenge == own_challenge {
            Some(answer.bob_segment)
        } else {
            None
        }),
{
    lemma_init_ack_roundtrip(answer, rest);
}

impl<'a> ShmFsm<'a> {
    /// The authenticator of this peer.
    pub closed spec fn auth(&self) -> AuthUnicast {
        *self.inner
    }

    pub fn new(inner: &'a AuthUnicast) -> (fsm: Self)
        ensures
            fsm.auth() == *inner,
    {
        Self { inner }
    }

    /// The opener's first message: the id of its own segment.
    pub fn send_init_syn(&self, _state: &StateOpen) -> (result: ZResult<Option<Vec<u8>>>)
        ensures
            result is Ok && result->Ok_0 is Some,
            result->Ok_0->Some_0@ == encoded_init_syn(
                InitSyn { alice_segment: self.auth().id_spec() },
            ),
    {
        let init_syn = InitSyn { alice_segment: self.inner.id() };
        let codec = Zenoh080::new();
        let mut buff: Vec<u8> = Vec::new();
        codec.write(&mut buff, &init_syn);
        assert(buff@ =~= encoded_init_syn(init_syn));
        Ok(Some(buff))
    }

    /// The opener receives the accepter's answer. It goes on, with the id
    /// of the accepter's segment, only where the answer can be read and
    /// holds the opener's own challenge; else the extension is dropped.
    pub fn recv_init_ack(&self, input: Option<Vec<u8>>) -> (result: ZResult<Option<AuthSegmentID>>)
        ensures
            result == Ok::<Option<AuthSegmentID>, ZError>(
                init_ack_verdict(
                    self.auth().challenge_spec(),
                    match input {
                        Some(bytes) => Some(bytes@),
                        None => None,
                    },
                ),
            ),
    {
        let ext = match input {
            Some(ext) => ext,
            None => {
                return Ok(None);
            },
        };
        let codec = Zenoh080::new();
        let mut reader = Reader::new(ext.as_slice());
        let init_ack: InitAck = match codec.read(&mut reader) {
            Ok(init_ack) => init_ack,
            Err(_) => {
                return Ok(None);
            },
        };
        let challenge = self.inner.challenge();
        if challenge != init_ack.alice_challenge {
            return Ok(None);
        }
        Ok(Some(init_ack.bob_segment))
    }

    /// The opener's second message: the challenge that it read from the
    /// accepter's segment, where it has one.
    pub fn send_open_syn(&self, input: &Option<AuthSegment>) -> (result: ZResult<Option<u64>>)
        ensures
            result == Ok::<Option<u64>, ZError>(
                match *input {
                    Some(segment) => Some(segment.challenge_spec()),
                    None => None,
                },
            ),
    {
        match input {
            Some(segment) => Ok(Some(segment.challenge())),
            None => Ok(None),
        }
    }

    /// The opener receives the accepter's last message. Shared memory is agreed
    /// on exactly where the verdict is there and is 1.
    pub fn recv_open_ack(&self, state: &mut StateOpen, ext: Option<u64>) -> (result: ZResult<()>)
        ensures
            result is Ok,
            final(state).negotiated() == (old(state).negotiated() || ext == Some(1u64)),
    {
        let value = match ext {
            Some(value) => value,
            None => {
                return Ok(());
            },
        };
        if value != 1 {
            return Ok(());
        }
        state.negotiated_to_use_shm = true;
        Ok(())
    }

    /// The accepter receives the opener's first message and learns the id
    /// of the opener's segment; a message that cannot be read ends the
    /// negotiation with an error.
    pub fn recv_init_syn(&self, input: &Vec<u8>) -> (result: ZResult<AuthSegmentID>)
        ensures
            match decoded_init_syn(input@) {
                Some((init_syn, _)) => result == Ok::<AuthSegmentID, ZError>(init_syn.alice_segment),
                None => result is Err && result->Err_0 is Other,
            },
    {
        let codec = Zenoh080::new();
        let mut reader = Reader::new(input.as_slice());
        let init_syn: InitSyn = match codec.read(&mut reader) {
            Ok(init_syn) => init_syn,
            Err(_) => {
                return Err(ZError::Other(String::new()));
            },
        };
        Ok(init_syn.alice_segment)
    }

    /// The accepter's answer: the challenge that it read from the opener's
    /// segment, and the id of its own segment.
    pub fn send_init_ack(&self, alice_segment: &AuthSegment) -> (result: ZResult<Option<Vec<u8>>>)
        ensures
            result is Ok && result->Ok_0 is Some,
            result->Ok_0->Some_0@ == encoded_init_ack(
                InitAck {
                    alice_challenge: alice_segment.challenge_spec(),
                    bob_segment: self.auth().id_spec(),
                },
            ),
    {
        let init_ack = InitAck {
            alice_challenge: alice_segment.challenge(),
            bob_segment: self.inner.id(),
        };
        let codec = Zenoh080::new();
        let mut buff: Vec<u8> = Vec::new();
        codec.write(&mut buff, &init_ack);
        assert(buff@ =~= encoded_init_ack(init_ack));
        Ok(Some(buff))
    }

    /// The accepter receives the opener's second message: shared memory is
    /// agreed on exactly where the message is there and holds the
    /// accepter's own challenge.
    pub fn recv_open_syn(&self, state: &mut StateAccept, ext: Option<u64>) -> (result: ZResult<()>)
        ensures
            result is Ok,
            final(state).negotiated() == (old(state).negotiated() || ext == Some(
                self.auth().challenge_spec(),
            )),
    {
        let bob_challenge = match ext {
            Some(value) => value,
            None => {
                return Ok(());
            },
        };
        let challenge = self.inner.challenge();
        if challenge != bob_challenge {
            return Ok(());
        }
        state.negotiated_to_use_shm = true;
        Ok(())
    }

    /// The accepter's last message is 1 where shared memory is agreed on, and no
    /// message where it is not.
    pub fn send_open_ack(&self, state: &StateAccept) -> (result: ZResult<Option<u64>>)
        ensures
            result == Ok::<Option<u64>, ZError>(
                if state.negotiated() {
                    Some(1u64)
                } else {
                    None
                },
            ),
    {
        if state.negotiated_to_use_shm {
            Ok(Some(1))
        } else {
            Ok(None)
        }
    }
}

} // verus!
