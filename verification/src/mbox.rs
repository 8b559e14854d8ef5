//! Video core mailbox interface.
//!
//! A message is a buffer of 256 bytes made of little-endian words: its size,
//! a code, and a list of properties closed by an end tag.  A property is a
//! tag, the size of its payload buffer, the size of the response, and the
//! payload, padded to whole words.  The firmware answers in place: it sets
//! the code and, in each property, the response size and the payload.
//!
//! [`Message`] and [`Property`] build requests and read answers.
//! [`Mailbox`] decides, step by step, what an exchange asks of the registers
//! and the cache; carrying that out is left to the caller.

pub mod exchange;
pub mod list;
pub mod message;
pub mod property;
pub mod words;

pub use self::exchange::{
    Action, Event, Mailbox, Phase, BASE, CHANNEL, EMPTY_STATUS, FULL_STATUS, INBOX_DATA,
    INBOX_STATUS, OUTBOX_DATA, OUTBOX_STATUS,
};
pub use self::message::{request, response, Message};
pub use self::property::{Property, PropertyView};
pub use self::words::{first_word, get_word, split_word};

use vstd::prelude::*;

verus! {

/// Bytes in a message buffer.
pub const BUF_SIZE: usize = 256;

/// Code of a message that has not been answered.
pub const REQUEST_CODE: u32 = 0;

/// Code of a message that the firmware has answered.
pub const SUCCESS_CODE: u32 = 0x8000_0000;

/// The tag that closes the list of properties.
pub const END_TAG: u32 = 0;

/// Offset of the first property.
pub const LIST_START: usize = 8;

/// Bytes in front of a property's payload: tag, buffer size, response size.
pub const HEADER_SIZE: usize = 12;

/// Bit of the response size that says a response is there.
pub const RESPONSE_BIT: u32 = 0x8000_0000;

/// The largest payload that a property can be made with.
pub const MAX_PAYLOAD: usize = 0xffff_fffc;

/// Why a message or a property was refused.
#[derive(Clone, Copy, Debug, PartialEq, Eq, Structural)]
pub enum MailboxError {
    /// The message already holds a property with this tag.
    DuplicateTag(u32),
    /// The property and the end tag behind it do not fit into the message.
    Overflow,
    /// The message is not a successful answer; its code is given.
    NotAnswered(u32),
    /// The message holds no property with this tag.
    TagNotFound(u32),
    /// The message to send is not a request; its code is given.
    NotRequest(u32),
    /// The firmware answered with this code, which is not success.
    Rejected(u32),
    /// The firmware left the property with this tag without a response.
    NoResponse(u32),
    /// The response is longer than the property's buffer.
    Truncated { tag: u32, capacity: u32, size: u32 },
}

} // verus!
