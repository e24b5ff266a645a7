use vstd::prelude::*;
use vstd::string::StringSliceAdditionalSpecFns;
use crate::bytefmt::push_bytes;

verus! {

/// A malformed payload field: the reading errors of the string
/// sub-fields, kept apart so that truncation and bad text stay
/// distinct errors.
#[derive(Clone, Copy, PartialEq, Eq, Structural, Debug)]
pub enum DataError {
    /// A declared field length exceeds the bytes that remain.
    TooShort,
    /// A name field is not valid UTF-8.
    NotUtf8,
    /// A separator byte is missing where the payload layout asks for
    /// one.
    BadSeparator,
}

impl DataError {
    /// The human-readable text this error puts into an Error frame.
    pub open spec fn spec_message(self) -> Seq<u8> {
        match self {
            DataError::TooShort => "Data too short".spec_bytes(),
            DataError::NotUtf8 => "Str not UTF-8".spec_bytes(),
            DataError::BadSeparator => "Missing ':' separator".spec_bytes(),
        }
    }

    pub fn message(self) -> (r: Vec<u8>)
        ensures
            r@ == self.spec_message(),
    {
        let mut r: Vec<u8> = Vec::new();
        match self {
            DataError::TooShort => push_bytes(&mut r, "Data too short".as_bytes()),
            DataError::NotUtf8 => push_bytes(&mut r, "Str not UTF-8".as_bytes()),
            DataError::BadSeparator => push_bytes(&mut r, "Missing ':' separator".as_bytes()),
        }
        r
    }

    /// Every such message is short.
    pub proof fn lemma_message_len(self)
        ensures
            self.spec_message().len() <= 32,
    {
        reveal_strlit("Data too short");
        reveal_strlit("Str not UTF-8");
        reveal_strlit("Missing ':' separator");
        assert(vstd::utf8::is_ascii_chars("Data too short"@));
        assert(vstd::utf8::is_ascii_chars("Str not UTF-8"@));
        assert(vstd::utf8::is_ascii_chars("Missing ':' separator"@));
        vstd::utf8::is_ascii_chars_encode_utf8("Data too short"@);
        vstd::utf8::is_ascii_chars_encode_utf8("Str not UTF-8"@);
        vstd::utf8::is_ascii_chars_encode_utf8("Missing ':' separator"@);
    }
}

/// A publish or subscribe request that authorization refused; the
/// payload names the channel that was asked for.
#[derive(Clone, PartialEq, Eq, Debug)]
pub enum AuthError {
    /// The owner may not publish to this channel.
    UnauthPub(Vec<u8>),
    /// The owner may not subscribe to this channel.
    UnauthSub(Vec<u8>),
}

/// The text that refuses a publish, naming the channel.
pub open spec fn spec_msg_unauth_pub(chan: Seq<u8>) -> Seq<u8> {
    "User is not allowed to send to channel: ".spec_bytes() + chan
}

/// The text that refuses a subscribe, naming the channel.
pub open spec fn spec_msg_unauth_sub(chan: Seq<u8>) -> Seq<u8> {
    "User is not allowed to listen to channel: ".spec_bytes() + chan
}

impl AuthError {
    /// The human-readable text this error puts into an Error frame; it
    /// always names the channel.
    pub open spec fn spec_message(self) -> Seq<u8> {
        match self {
            AuthError::UnauthPub(chan) => spec_msg_unauth_pub(chan@),
            AuthError::UnauthSub(chan) => spec_msg_unauth_sub(chan@),
        }
    }

    pub fn message(&self) -> (r: Vec<u8>)
        ensures
            r@ == self.spec_message(),
    {
        let mut r: Vec<u8> = Vec::new();
        match self {
            AuthError::UnauthPub(chan) => {
                push_bytes(&mut r, "User is not allowed to send to channel: ".as_bytes());
                push_bytes(&mut r, chan.as_slice());
            },
            AuthError::UnauthSub(chan) => {
                push_bytes(&mut r, "User is not allowed to listen to channel: ".as_bytes());
                push_bytes(&mut r, chan.as_slice());
            },
        }
        r
    }

    /// The fixed text ahead of the channel name is short.
    pub proof fn lemma_message_len(self)
        ensures
            self.spec_message().len() <= 48 + match self {
                AuthError::UnauthPub(chan) => chan@.len(),
                AuthError::UnauthSub(chan) => chan@.len(),
            },
    {
        reveal_strlit("User is not allowed to send to channel: ");
        reveal_strlit("User is not allowed to listen to channel: ");
        assert(vstd::utf8::is_ascii_chars("User is not allowed to send to channel: "@));
        assert(vstd::utf8::is_ascii_chars("User is not allowed to listen to channel: "@));
        vstd::utf8::is_ascii_chars_encode_utf8("User is not allowed to send to channel: "@);
        vstd::utf8::is_ascii_chars_encode_utf8("User is not allowed to listen to channel: "@);
    }
}

/// Why a publish request was not carried out.
#[derive(Clone, PartialEq, Eq, Debug)]
pub enum PublishError {
    DataError(DataError),
    AuthError(AuthError),
}

impl PublishError {
    pub open spec fn spec_message(self) -> Seq<u8> {
        match self {
            PublishError::DataError(e) => e.spec_message(),
            PublishError::AuthError(e) => e.spec_message(),
        }
    }

    pub fn message(&self) -> (r: Vec<u8>)
        ensures
            r@ == self.spec_message(),
    {
        match self {
            PublishError::DataError(e) => e.message(),
            PublishError::AuthError(e) => e.message(),
        }
    }
}

/// Why a subscribe request was not carried out.
#[derive(Clone, PartialEq, Eq, Debug)]
pub enum SubscribeError {
    DataError(DataError),
    AuthError(AuthError),
}

impl SubscribeError {
    pub open spec fn spec_message(self) -> Seq<u8> {
        match self {
            SubscribeError::DataError(e) => e.spec_message(),
            SubscribeError::AuthError(e) => e.spec_message(),
        }
    }

    pub fn message(&self) -> (r: Vec<u8>)
        ensures
            r@ == self.spec_message(),
    {
        match self {
            SubscribeError::DataError(e) => e.message(),
            SubscribeError::AuthError(e) => e.message(),
        }
    }
}

} // verus!
