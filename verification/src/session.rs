use vstd::prelude::*;
use vstd::string::StringSliceAdditionalSpecFns;
use vstd::slice::slice_to_vec;
use crate::authstore::{AuthObjectView, AuthStore};
use crate::bytefmt::{dec_digits, lemma_dec_digits_len_u32, push_bytes, spec_dec_digits};
use crate::errors::{
    spec_msg_unauth_pub, spec_msg_unauth_sub, AuthError, DataError, PublishError, SubscribeError,
};
use crate::frame::{encode_frame, spec_encode_frame};
use crate::message_string::{
    read_str_no_len, read_str_with_len, spec_read_str_no_len, spec_read_str_with_len,
};
use crate::opcode::OpCodes;
use crate::registry::{spec_subscribe, spec_unsubscribe, SubRegistry};

verus! {

/// A Publish payload: the owner, length-prefixed; a ':'; the channel,
/// length-prefixed; a ':'; then the published bytes, opaque.
pub open spec fn spec_parse_publish(p: Seq<u8>) -> Result<(Seq<u8>, Seq<u8>, Seq<u8>), DataError> {
    match spec_read_str_with_len(p) {
        Err(e) => Err(e),
        Ok((n, owner)) => {
            if p.len() < 2 + n {
                Err(DataError::TooShort)
            } else if p[(1 + n) as int] != 58 {
                Err(DataError::BadSeparator)
            } else {
                let q = p.skip((2 + n) as int);
                match spec_read_str_with_len(q) {
                    Err(e) => Err(e),
                    Ok((m, chan)) => {
                        if q.len() < 2 + m {
                            Err(DataError::TooShort)
                        } else if q[(1 + m) as int] != 58 {
                            Err(DataError::BadSeparator)
                        } else {
                            Ok((owner, chan, q.skip((2 + m) as int)))
                        }
                    },
                }
            }
        },
    }
}

/// Read a Publish payload's owner, channel and published bytes.
pub fn parse_publish(payload: &[u8]) -> (r: Result<(Vec<u8>, Vec<u8>, Vec<u8>), DataError>)
    ensures
        match r {
            Ok(t) => spec_parse_publish(payload@) == Ok::<(Seq<u8>, Seq<u8>, Seq<u8>), DataError>(
                (t.0@, t.1@, t.2@),
            ),
            Err(e) => spec_parse_publish(payload@) == Err::<(Seq<u8>, Seq<u8>, Seq<u8>), DataError>(
                e,
            ),
        },
{
    let (n, owner) = match read_str_with_len(payload) {
        Ok(p) => p,
        Err(e) => {
            return Err(e);
        },
    };
    if payload.len() < 2 + n {
        return Err(DataError::TooShort);
    }
    if payload[1 + n] != 58 {
        return Err(DataError::BadSeparator);
    }
    let q = &payload[2 + n..payload.len()];
    proof {
        assert(q@ =~= payload@.skip((2 + n) as int));
    }
    let (m, chan) = match read_str_with_len(q) {
        Ok(p) => p,
        Err(e) => {
            return Err(e);
        },
    };
    if q.len() < 2 + m {
        return Err(DataError::TooShort);
    }
    if q[1 + m] != 58 {
        return Err(DataError::BadSeparator);
    }
    let rest = slice_to_vec(&q[2 + m..q.len()]);
    proof {
        assert(rest@ =~= q@.skip((2 + m) as int));
    }
    Ok((owner, chan, rest))
}

/// A Subscribe payload: the owner, length-prefixed; the channel is
/// all that remains.
pub open spec fn spec_parse_subscribe(p: Seq<u8>) -> Result<(Seq<u8>, Seq<u8>), DataError> {
    match spec_read_str_with_len(p) {
        Err(e) => Err(e),
        Ok((n, owner)) => match spec_read_str_no_len(p.skip((1 + n) as int)) {
            Err(e) => Err(e),
            Ok(chan) => Ok((owner, chan)),
        },
    }
}

/// Read a Subscribe payload's owner and channel.
pub fn parse_subscribe(payload: &[u8]) -> (r: Result<(Vec<u8>, Vec<u8>), DataError>)
    ensures
        match r {
            Ok(t) => spec_parse_subscribe(payload@) == Ok::<(Seq<u8>, Seq<u8>), DataError>(
                (t.0@, t.1@),
            ),
            Err(e) => spec_parse_subscribe(payload@) == Err::<(Seq<u8>, Seq<u8>), DataError>(e),
        },
{
    let (n, owner) = match read_str_with_len(payload) {
        Ok(p) => p,
        Err(e) => {
            return Err(e);
        },
    };
    let q = &payload[1 + n..payload.len()];
    proof {
        assert(q@ =~= payload@.skip((1 + n) as int));
    }
    match read_str_no_len(q) {
        Ok(chan) => Ok((owner, chan)),
        Err(e) => Err(e),
    }
}

/// The reply when a client repeats a handshake opcode, or sends the
/// server's own Error opcode, after authentication.
pub open spec fn spec_msg_wrong_op(op: u8) -> Seq<u8> {
    "Client cannot send ".spec_bytes() + spec_dec_digits(op as nat)
        + " code to server at this point".spec_bytes()
}

/// The reply to a byte no opcode answers to.
pub open spec fn spec_msg_unknown_op(op: u8) -> Seq<u8> {
    "Unknown OpCode provided. Got: ".spec_bytes() + spec_dec_digits(op as nat)
}

proof fn lemma_session_msg_lens(op: u8)
    ensures
        spec_msg_wrong_op(op).len() <= 64,
        spec_msg_unknown_op(op).len() <= 64,
{
    reveal_strlit("Client cannot send ");
    reveal_strlit(" code to server at this point");
    reveal_strlit("Unknown OpCode provided. Got: ");
    assert(vstd::utf8::is_ascii_chars("Client cannot send "@));
    assert(vstd::utf8::is_ascii_chars(" code to server at this point"@));
    assert(vstd::utf8::is_ascii_chars("Unknown OpCode provided. Got: "@));
    vstd::utf8::is_ascii_chars_encode_utf8("Client cannot send "@);
    vstd::utf8::is_ascii_chars_encode_utf8(" code to server at this point"@);
    vstd::utf8::is_ascii_chars_encode_utf8("Unknown OpCode provided. Got: "@);
    lemma_dec_digits_len_u32(op as u32);
    assert(spec_dec_digits(op as u32 as nat) == spec_dec_digits(op as nat));
}

fn msg_wrong_op(op: u8) -> (r: Vec<u8>)
    ensures
        r@ == spec_msg_wrong_op(op),
        r@.len() <= 64,
{
    let mut r: Vec<u8> = Vec::new();
    push_bytes(&mut r, "Client cannot send ".as_bytes());
    let digits = dec_digits(op as u32);
    push_bytes(&mut r, digits.as_slice());
    push_bytes(&mut r, " code to server at this point".as_bytes());
    proof {
        lemma_session_msg_lens(op);
    }
    r
}

fn msg_unknown_op(op: u8) -> (r: Vec<u8>)
    ensures
        r@ == spec_msg_unknown_op(op),
        r@.len() <= 64,
{
    let mut r: Vec<u8> = Vec::new();
    push_bytes(&mut r, "Unknown OpCode provided. Got: ".as_bytes());
    let digits = dec_digits(op as u32);
    push_bytes(&mut r, digits.as_slice());
    proof {
        lemma_session_msg_lens(op);
    }
    r
}

/// Handle one Publish frame: parse the payload, check that the named
/// owner may publish to the named channel, and name the handles the
/// whole frame is forwarded to, verbatim.
pub fn publish_message(frame: &Vec<u8>, store: &AuthStore, registry: &SubRegistry) -> (r: Result<
    Vec<u64>,
    PublishError,
>)
    requires
        frame@.len() >= 5,
        store.wf(),
        registry.wf(),
    ensures
        match spec_parse_publish(frame@.skip(5)) {
            Err(e) => r matches Err(PublishError::DataError(e2)) && e2 == e,
            Ok(t) => if store@.contains_key(t.0) && store@[t.0].allow_pub.contains(t.1) {
                r matches Ok(targets) && targets@ == (if registry@.contains_key(t.1) {
                    registry@[t.1]
                } else {
                    Seq::<u64>::empty()
                })
            } else {
                r matches Err(PublishError::AuthError(AuthError::UnauthPub(c))) && c@ == t.1
            },
        },
{
    let payload = &frame.as_slice()[5..frame.len()];
    proof {
        assert(payload@ =~= frame@.skip(5));
    }
    match parse_publish(payload) {
        Err(e) => Err(PublishError::DataError(e)),
        Ok((owner, chan, _rest)) => {
            if store.auth_pub(owner.as_slice(), chan.as_slice()) {
                Ok(registry.publish(chan.as_slice()))
            } else {
                Err(PublishError::AuthError(AuthError::UnauthPub(chan)))
            }
        },
    }
}

/// Handle one Subscribe frame: parse the payload and check that the
/// named owner may subscribe; the channel name comes back for the
/// caller to register its own write handle under.
pub fn process_subscribe_message(frame: &Vec<u8>, store: &AuthStore) -> (r: Result<
    Vec<u8>,
    SubscribeError,
>)
    requires
        frame@.len() >= 5,
        store.wf(),
    ensures
        match spec_parse_subscribe(frame@.skip(5)) {
            Err(e) => r matches Err(SubscribeError::DataError(e2)) && e2 == e,
            Ok(t) => if store@.contains_key(t.0) && store@[t.0].allow_sub.contains(t.1) {
                r matches Ok(chan) && chan@ == t.1
            } else {
                r matches Err(SubscribeError::AuthError(AuthError::UnauthSub(c))) && c@ == t.1
            },
        },
{
    let payload = &frame.as_slice()[5..frame.len()];
    proof {
        assert(payload@ =~= frame@.skip(5));
    }
    match parse_subscribe(payload) {
        Err(e) => Err(SubscribeError::DataError(e)),
        Ok((owner, chan)) => {
            if store.auth_sub(owner.as_slice(), chan.as_slice()) {
                Ok(chan)
            } else {
                Err(SubscribeError::AuthError(AuthError::UnauthSub(chan)))
            }
        },
    }
}

/// What is written back after one post-handshake frame, at
/// specification level.
pub enum SessionOutcome {
    /// Nothing to write.
    NoReply,
    /// An Error frame to this connection; it stays open.
    ErrorFrame(Seq<u8>),
    /// The received frame goes, verbatim, to each of these handles.
    Fanout(Seq<u64>),
}

/// What the caller does after one post-handshake frame.
pub enum SessionReply {
    /// Nothing to write back.
    NoReply,
    /// Write this Error frame to this connection; it stays open.
    ErrorFrame(Vec<u8>),
    /// Write the received frame, verbatim, to each of these handles.
    Fanout(Vec<u64>),
}

/// The registry after one post-handshake frame: only a lawful
/// Subscribe and an Unsubscribe change it.
pub open spec fn spec_dispatch_registry(
    frame: Seq<u8>,
    me: u64,
    store: Map<Seq<u8>, AuthObjectView>,
    reg: Map<Seq<u8>, Seq<u64>>,
) -> Map<Seq<u8>, Seq<u64>> {
    let op = frame[4];
    if op == 4 {
        match spec_parse_subscribe(frame.skip(5)) {
            Ok(t) => if store.contains_key(t.0) && store[t.0].allow_sub.contains(t.1) {
                spec_subscribe(reg, t.1, me)
            } else {
                reg
            },
            Err(_) => reg,
        }
    } else if op == 5 {
        match spec_read_str_no_len(frame.skip(5)) {
            Ok(chan) => spec_unsubscribe(reg, chan, me),
            Err(_) => reg,
        }
    } else {
        reg
    }
}

/// The reply one post-handshake frame earns, by its opcode: Info,
/// Auth and Error are out of place here; Publish and Subscribe answer
/// only when parsing or authorization refuses them; an unknown byte
/// is named back to the client. No reply closes the connection.
pub open spec fn spec_dispatch_reply(
    frame: Seq<u8>,
    me: u64,
    store: Map<Seq<u8>, AuthObjectView>,
    reg: Map<Seq<u8>, Seq<u64>>,
) -> SessionOutcome {
    let op = frame[4];
    if op == 0 || op == 1 || op == 2 {
        SessionOutcome::ErrorFrame(spec_encode_frame(0, spec_msg_wrong_op(op)))
    } else if op == 3 {
        match spec_parse_publish(frame.skip(5)) {
            Err(e) => SessionOutcome::ErrorFrame(spec_encode_frame(0, e.spec_message())),
            Ok(t) => if store.contains_key(t.0) && store[t.0].allow_pub.contains(t.1) {
                SessionOutcome::Fanout(
                    if reg.contains_key(t.1) {
                        reg[t.1]
                    } else {
                        Seq::<u64>::empty()
                    },
                )
            } else {
                SessionOutcome::ErrorFrame(spec_encode_frame(0, spec_msg_unauth_pub(t.1)))
            },
        }
    } else if op == 4 {
        match spec_parse_subscribe(frame.skip(5)) {
            Err(e) => SessionOutcome::ErrorFrame(spec_encode_frame(0, e.spec_message())),
            Ok(t) => if store.contains_key(t.0) && store[t.0].allow_sub.contains(t.1) {
                SessionOutcome::NoReply
            } else {
                SessionOutcome::ErrorFrame(spec_encode_frame(0, spec_msg_unauth_sub(t.1)))
            },
        }
    } else if op == 5 {
        match spec_read_str_no_len(frame.skip(5)) {
            Err(e) => SessionOutcome::ErrorFrame(spec_encode_frame(0, e.spec_message())),
            Ok(_) => SessionOutcome::NoReply,
        }
    } else {
        SessionOutcome::ErrorFrame(spec_encode_frame(0, spec_msg_unknown_op(op)))
    }
}

/// Whether a declared frame length can be taken into the session
/// loop: it must leave room for the opcode byte, and headroom for an
/// Error frame that quotes a name out of the frame.
pub fn frame_length_ok(len: u32) -> (r: bool)
    ensures
        r == (len >= 5 && len + 64 <= u32::MAX),
{
    len >= 5 && len <= u32::MAX - 64
}

/// Dispatch one post-handshake frame for the connection holding
/// write handle `me`: decide the reply, and apply what Subscribe or
/// Unsubscribe ask of the registry. A frame here is always complete;
/// a truncated read never reaches dispatch.
pub fn dispatch_frame(
    frame: &Vec<u8>,
    me: u64,
    store: &AuthStore,
    registry: &mut SubRegistry,
) -> (r: SessionReply)
    requires
        frame@.len() >= 5,
        frame@.len() + 64 <= u32::MAX,
        store.wf(),
        old(registry).wf(),
    ensures
        final(registry).wf(),
        final(registry)@ == spec_dispatch_registry(frame@, me, store@, old(registry)@),
        match spec_dispatch_reply(frame@, me, store@, old(registry)@) {
            SessionOutcome::NoReply => r is NoReply,
            SessionOutcome::ErrorFrame(f) => r matches SessionReply::ErrorFrame(g) && g@ == f,
            SessionOutcome::Fanout(t) => r matches SessionReply::Fanout(v) && v@ == t,
        },
{
    let op = frame[4];
    match OpCodes::from_byte(op) {
        Some(OpCodes::ErrorCode) | Some(OpCodes::Info) | Some(OpCodes::Auth) => {
            let msg = msg_wrong_op(op);
            SessionReply::ErrorFrame(encode_frame(0, &msg))
        },
        Some(OpCodes::Publish) => match publish_message(frame, store, registry) {
            Ok(targets) => SessionReply::Fanout(targets),
            Err(e) => {
                proof {
                    match &e {
                        PublishError::DataError(d) => d.lemma_message_len(),
                        PublishError::AuthError(a) => a.lemma_message_len(),
                    }
                }
                let msg = e.message();
                SessionReply::ErrorFrame(encode_frame(0, &msg))
            },
        },
        Some(OpCodes::Subscribe) => match process_subscribe_message(frame, store) {
            Ok(chan) => {
                registry.subscribe(chan.as_slice(), me);
                SessionReply::NoReply
            },
            Err(e) => {
                proof {
                    match &e {
                        SubscribeError::DataError(d) => d.lemma_message_len(),
                        SubscribeError::AuthError(a) => a.lemma_message_len(),
                    }
                }
                let msg = e.message();
                SessionReply::ErrorFrame(encode_frame(0, &msg))
            },
        },
        Some(OpCodes::Unsubscribe) => {
            let payload = &frame.as_slice()[5..frame.len()];
            proof {
                assert(payload@ =~= frame@.skip(5));
            }
            match read_str_no_len(payload) {
                Ok(chan) => {
                    registry.unsubscribe(chan.as_slice(), me);
                    SessionReply::NoReply
                },
                Err(e) => {
                    proof {
                        e.lemma_message_len();
                    }
                    let msg = e.message();
                    SessionReply::ErrorFrame(encode_frame(0, &msg))
                },
            }
        },
        None => {
            let msg = msg_unknown_op(op);
            SessionReply::ErrorFrame(encode_frame(0, &msg))
        },
    }
}

} // verus!
