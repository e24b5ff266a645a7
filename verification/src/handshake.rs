use vstd::prelude::*;
use vstd::string::StringSliceAdditionalSpecFns;
use vstd::slice::slice_to_vec;
use crate::authstore::{sha256_of, AuthObjectView, AuthStore};
use crate::bytefmt::{dec_digits, lemma_dec_digits_len_u32, push_bytes, spec_dec_digits};
use crate::frame::{encode_frame, spec_encode_frame};
use crate::message_string::is_utf8;
use crate::opcode::OpCodes;
use vstd::utf8::valid_utf8;

verus! {

/// The name this broker announces in its Info frame: "rust-feeds".
pub open spec fn spec_broker_name() -> Seq<u8> {
    seq![114u8, 117u8, 115u8, 116u8, 45u8, 102u8, 101u8, 101u8, 100u8, 115u8]
}

/// The length of the broker's name on the wire.
pub const NAME_LENGTH: u8 = 10;

/// The broker's name as bytes.
pub fn broker_name() -> (r: Vec<u8>)
    ensures
        r@ == spec_broker_name(),
{
    let mut v: Vec<u8> = Vec::new();
    v.push(114);
    v.push(117);
    v.push(115);
    v.push(116);
    v.push(45);
    v.push(102);
    v.push(101);
    v.push(101);
    v.push(100);
    v.push(115);
    proof {
        assert(v@ =~= spec_broker_name());
    }
    v
}

/// The Info frame that opens the handshake: the broker name,
/// length-prefixed, then the 32-byte challenge nonce.
pub open spec fn spec_info_frame(nonce: Seq<u8>) -> Seq<u8> {
    spec_encode_frame(1, seq![10u8] + spec_broker_name() + nonce)
}

/// Build the Info frame for a fresh challenge nonce.
pub fn build_info_message(nonce: &Vec<u8>) -> (r: Vec<u8>)
    requires
        nonce@.len() == 32,
    ensures
        r@ == spec_info_frame(nonce@),
        r@.len() == 48,
{
    let mut payload: Vec<u8> = Vec::new();
    payload.push(NAME_LENGTH);
    let name = broker_name();
    push_bytes(&mut payload, name.as_slice());
    push_bytes(&mut payload, nonce.as_slice());
    proof {
        assert(payload@ =~= seq![10u8] + spec_broker_name() + nonce@);
    }
    encode_frame(OpCodes::Info.as_byte(), &payload)
}

/// Relies on textnonce's `TextNonce::new`: a fresh 32-character
/// base64 text nonce, 16 characters of time and 16 of randomness. Its
/// bytes are unpredictable, so nothing is stated of them but the
/// length.
#[verifier::external_body]
fn fresh_nonce() -> (r: Vec<u8>)
    ensures
        r@.len() == 32,
{
    textnonce::TextNonce::new().into_string().into_bytes()
}

/// The reply when an Auth frame declares fewer than 39 bytes.
pub open spec fn spec_msg_auth_too_short(len: u32) -> Seq<u8> {
    "Expected at least 39 bytes. Got: ".spec_bytes() + spec_dec_digits(len as nat)
        + ".".spec_bytes()
}

/// The reply when the frame after the challenge is not an Auth frame.
pub open spec fn spec_msg_wrong_auth_opcode(op: u8) -> Seq<u8> {
    "Invalid Error Code. Expected 2. Got: ".spec_bytes() + spec_dec_digits(op as nat)
        + ".".spec_bytes()
}

/// The one reply a failed challenge earns, whatever failed: nothing
/// reveals whether the owner exists.
pub open spec fn spec_msg_auth_failed() -> Seq<u8> {
    "Authentication failed".spec_bytes()
}

proof fn lemma_handshake_msg_lens(len: u32, op: u8)
    ensures
        spec_msg_auth_too_short(len).len() <= 64,
        spec_msg_wrong_auth_opcode(op).len() <= 64,
        spec_msg_auth_failed().len() <= 64,
{
    reveal_strlit("Expected at least 39 bytes. Got: ");
    reveal_strlit("Invalid Error Code. Expected 2. Got: ");
    reveal_strlit("Authentication failed");
    reveal_strlit(".");
    assert(vstd::utf8::is_ascii_chars("Expected at least 39 bytes. Got: "@));
    assert(vstd::utf8::is_ascii_chars("Invalid Error Code. Expected 2. Got: "@));
    assert(vstd::utf8::is_ascii_chars("Authentication failed"@));
    assert(vstd::utf8::is_ascii_chars("."@));
    vstd::utf8::is_ascii_chars_encode_utf8("Expected at least 39 bytes. Got: "@);
    vstd::utf8::is_ascii_chars_encode_utf8("Invalid Error Code. Expected 2. Got: "@);
    vstd::utf8::is_ascii_chars_encode_utf8("Authentication failed"@);
    vstd::utf8::is_ascii_chars_encode_utf8("."@);
    lemma_dec_digits_len_u32(len);
    lemma_dec_digits_len_u32(op as u32);
}

fn msg_auth_too_short(len: u32) -> (r: Vec<u8>)
    ensures
        r@ == spec_msg_auth_too_short(len),
        r@.len() <= 64,
{
    let mut r: Vec<u8> = Vec::new();
    push_bytes(&mut r, "Expected at least 39 bytes. Got: ".as_bytes());
    let digits = dec_digits(len);
    push_bytes(&mut r, digits.as_slice());
    push_bytes(&mut r, ".".as_bytes());
    proof {
        lemma_handshake_msg_lens(len, 0);
    }
    r
}

fn msg_wrong_auth_opcode(op: u8) -> (r: Vec<u8>)
    ensures
        r@ == spec_msg_wrong_auth_opcode(op),
        r@.len() <= 64,
{
    let mut r: Vec<u8> = Vec::new();
    push_bytes(&mut r, "Invalid Error Code. Expected 2. Got: ".as_bytes());
    let digits = dec_digits(op as u32);
    push_bytes(&mut r, digits.as_slice());
    push_bytes(&mut r, ".".as_bytes());
    proof {
        lemma_handshake_msg_lens(0, op);
        assert(spec_dec_digits(op as u32 as nat) == spec_dec_digits(op as nat));
    }
    r
}

fn msg_auth_failed() -> (r: Vec<u8>)
    ensures
        r@ == spec_msg_auth_failed(),
        r@.len() <= 64,
{
    let mut r: Vec<u8> = Vec::new();
    push_bytes(&mut r, "Authentication failed".as_bytes());
    proof {
        lemma_handshake_msg_lens(0, 0);
    }
    r
}

/// The early check on an Auth frame's declared length, made before
/// the body is read: a declared total below 39 bytes earns an Error
/// frame naming the minimum, and the connection closes.
pub fn auth_length_reply(len: u32) -> (r: Option<Vec<u8>>)
    ensures
        match r {
            Some(f) => len < 39 && f@ == spec_encode_frame(0, spec_msg_auth_too_short(len)),
            None => len >= 39,
        },
{
    if len < 39 {
        let msg = msg_auth_too_short(len);
        Some(encode_frame(0, &msg))
    } else {
        None
    }
}

/// The handshake states; `Failed` is terminal, the socket closes.
#[derive(Clone, Copy, PartialEq, Eq, Structural, Debug)]
pub enum HandshakeState {
    Connected,
    ChallengeSent,
    Authenticated,
    Failed,
}

/// What one Auth frame earns, at specification level.
pub enum AuthOutcome {
    /// The response matched; the owner's name is recorded.
    Accepted(Seq<u8>),
    /// Rejected, with an Error frame to write before closing.
    RejectedWithError(Seq<u8>),
    /// Rejected silently: close without a reply.
    Rejected,
}

/// What the caller does after the Auth step.
pub enum AuthReply {
    /// The session may begin.
    Accepted,
    /// Write this Error frame, then close.
    RejectedWithError(Vec<u8>),
    /// Close without a reply.
    Rejected,
}

/// What one Auth frame yields against a challenge nonce and the
/// authorization cache. The frame must be long enough, carry the Auth
/// opcode, name its owner in valid UTF-8 within bounds, and answer
/// the challenge with SHA-256 over the nonce and the owner's secret;
/// a failed challenge earns one generic reply, whether the owner is
/// unknown or the response wrong.
pub open spec fn spec_auth_outcome(
    frame: Seq<u8>,
    nonce: Seq<u8>,
    store: Map<Seq<u8>, AuthObjectView>,
) -> AuthOutcome {
    if frame.len() < 39 {
        AuthOutcome::RejectedWithError(
            spec_encode_frame(0, spec_msg_auth_too_short(frame.len() as u32)),
        )
    } else if frame[4] != 2 {
        AuthOutcome::RejectedWithError(spec_encode_frame(0, spec_msg_wrong_auth_opcode(frame[4])))
    } else if frame.len() < 6 + (frame[5] as int) {
        AuthOutcome::Rejected
    } else if !valid_utf8(frame.subrange(6, 6 + (frame[5] as int))) {
        AuthOutcome::Rejected
    } else {
        let owner = frame.subrange(6, 6 + (frame[5] as int));
        let response = frame.skip(6 + (frame[5] as int));
        if store.contains_key(owner) && response == sha256_of(nonce + store[owner].secret) {
            AuthOutcome::Accepted(owner)
        } else {
            AuthOutcome::RejectedWithError(spec_encode_frame(0, spec_msg_auth_failed()))
        }
    }
}

/// One connection's handshake: its state, the challenge nonce issued
/// for this connection alone, and the owner once authenticated. The
/// nonce is discarded as soon as the challenge is answered.
pub struct Handshake {
    pub state: HandshakeState,
    pub nonce: Vec<u8>,
    pub owner: Vec<u8>,
}

impl Handshake {
    /// A connection was accepted; nothing has been sent yet.
    pub fn new() -> (h: Handshake)
        ensures
            h.state == HandshakeState::Connected,
            h.nonce@.len() == 0,
            h.owner@.len() == 0,
    {
        Handshake { state: HandshakeState::Connected, nonce: Vec::new(), owner: Vec::new() }
    }

    /// Draw a fresh nonce and build the Info frame that carries the
    /// challenge; the caller writes the frame and calls `fail` if the
    /// write fails.
    pub fn issue_challenge(&mut self) -> (frame: Vec<u8>)
        requires
            old(self).state == HandshakeState::Connected,
        ensures
            final(self).state == HandshakeState::ChallengeSent,
            final(self).nonce@.len() == 32,
            final(self).owner == old(self).owner,
            frame@ == spec_info_frame(final(self).nonce@),
    {
        let nonce = fresh_nonce();
        let frame = build_info_message(&nonce);
        self.nonce = nonce;
        self.state = HandshakeState::ChallengeSent;
        frame
    }

    /// The connection failed (a write or read error, or a rejected
    /// challenge): terminal.
    pub fn fail(&mut self)
        ensures
            final(self).state == HandshakeState::Failed,
            final(self).nonce == old(self).nonce,
            final(self).owner == old(self).owner,
    {
        self.state = HandshakeState::Failed;
    }

    /// Judge the one frame read after the challenge. On success the
    /// connection is authenticated under the owner's name; any
    /// failure is terminal. Either way the nonce is discarded here,
    /// used exactly once.
    pub fn process_auth(&mut self, frame: &Vec<u8>, store: &AuthStore) -> (r: AuthReply)
        requires
            old(self).state == HandshakeState::ChallengeSent,
            frame@.len() <= u32::MAX,
            store.wf(),
        ensures
            final(self).nonce@.len() == 0,
            match spec_auth_outcome(frame@, old(self).nonce@, store@) {
                AuthOutcome::Accepted(owner) => r is Accepted && final(self).state
                    == HandshakeState::Authenticated && final(self).owner@ == owner,
                AuthOutcome::RejectedWithError(f) => final(self).state == HandshakeState::Failed
                    && (r matches AuthReply::RejectedWithError(g) && g@ == f),
                AuthOutcome::Rejected => final(self).state == HandshakeState::Failed
                    && r is Rejected,
            },
    {
        let reply: AuthReply;
        if frame.len() < 39 {
            let msg = msg_auth_too_short(frame.len() as u32);
            reply = AuthReply::RejectedWithError(encode_frame(0, &msg));
            self.state = HandshakeState::Failed;
        } else if frame[4] != OpCodes::Auth.as_byte() {
            let msg = msg_wrong_auth_opcode(frame[4]);
            reply = AuthReply::RejectedWithError(encode_frame(0, &msg));
            self.state = HandshakeState::Failed;
        } else {
            let owner_len = frame[5] as usize;
            if frame.len() < 6 + owner_len {
                reply = AuthReply::Rejected;
                self.state = HandshakeState::Failed;
            } else {
                let owner = slice_to_vec(&frame.as_slice()[6..6 + owner_len]);
                if !is_utf8(owner.as_slice()) {
                    reply = AuthReply::Rejected;
                    self.state = HandshakeState::Failed;
                } else {
                    let response = &frame.as_slice()[6 + owner_len..frame.len()];
                    if store.auth_user(owner.as_slice(), self.nonce.as_slice(), response) {
                        reply = AuthReply::Accepted;
                        self.owner = owner;
                        self.state = HandshakeState::Authenticated;
                    } else {
                        let msg = msg_auth_failed();
                        reply = AuthReply::RejectedWithError(encode_frame(0, &msg));
                        self.state = HandshakeState::Failed;
                    }
                }
            }
        }
        self.nonce = Vec::new();
        reply
    }
}

} // verus!
