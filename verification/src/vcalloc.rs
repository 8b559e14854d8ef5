//! Firmware memory allocator.
//!
//! Has the firmware allocate memory that stays where it is, is not cached and
//! starts out as zeroes.  It takes two exchanges: one that allocates and
//! gives a handle, one that locks the handle and gives the address.  The
//! caller makes the exchanges: it starts with the request from [`allocate`]
//! and hands each answer to [`advance`], which says how to go on.

use crate::mbox::list::has_tag;
use crate::mbox::words::{append, leading_word, word_bytes};
use crate::mbox::{
    first_word, response, split_word, MailboxError, Message, Property, END_TAG, REQUEST_CODE,
};
use vstd::prelude::*;

verus! {

/// Allocate memory property tag.
pub const ALLOC_MEM_TAG: u32 = 0x3000c;

/// Lock memory property tag.
pub const LOCK_MEM_TAG: u32 = 0x3000d;

/// Allocation flags: permanent, uncached, zero-filled.
pub const FLAGS: u32 = 0x54;

/// Why the firmware gave no memory.
#[derive(Clone, Copy, Debug, PartialEq, Eq, Structural)]
pub enum AllocError {
    /// The firmware allocated nothing.
    AllocationFailed,
    /// The firmware did not lock what it had allocated.
    LockFailed,
    /// The answer does not hold what was asked for.
    Mailbox(MailboxError),
}

/// Which of the two exchanges is under way.
#[derive(Clone, Copy, Debug, PartialEq, Eq, Structural)]
pub enum Stage {
    /// The request from [`allocate`] is with the firmware.
    Allocating,
    /// The request from [`lock`] is with the firmware.
    Locking,
}

/// How an allocation goes on.
pub enum Step {
    /// Exchange this request, and come back with the answer at this stage.
    Exchange(Message, Stage),
    /// The memory lies at this address.
    Done(u32),
}

/// Whether `msg` is a request with the one property tagged `tag`, which
/// carries `input` and has room for `capacity` bytes.
pub open spec fn is_request(msg: Message, tag: u32, capacity: u32, input: Seq<u8>) -> bool {
    &&& msg.code() == REQUEST_CODE
    &&& msg.terminated()
    &&& msg.properties().len() == 1
    &&& msg.properties()[0].tag == tag
    &&& msg.properties()[0].buf_size == capacity
    &&& msg.properties()[0].resp_size == 0
    &&& msg.properties()[0].data == input
}

/// What the firmware said to the property tagged `tag`, as one word.
pub open spec fn answer_word(msg: Message, tag: u32) -> Result<u32, MailboxError> {
    match msg.response(tag) {
        Ok(bytes) => Ok(leading_word(bytes)),
        Err(error) => Err(error),
    }
}

/// The handle in the answer to a request to allocate.  The handle zero
/// stands for no memory.
pub open spec fn handle_in(answer: Message) -> Result<u32, AllocError> {
    match answer_word(answer, ALLOC_MEM_TAG) {
        Ok(handle) => if handle == 0 {
            Err(AllocError::AllocationFailed)
        } else {
            Ok(handle)
        },
        Err(error) => Err(AllocError::Mailbox(error)),
    }
}

/// The address in the answer to a request to lock.  The address zero stands
/// for a handle that was not locked.
pub open spec fn address_in(answer: Message) -> Result<u32, AllocError> {
    match answer_word(answer, LOCK_MEM_TAG) {
        Ok(address) => if address == 0 {
            Err(AllocError::LockFailed)
        } else {
            Ok(address)
        },
        Err(error) => Err(AllocError::Mailbox(error)),
    }
}

/// The request with the one property tagged `tag`, which carries `input`
/// and has room for as many bytes.
fn ask(tag: u32, input: &[u8]) -> (msg: Message)
    requires
        tag != END_TAG,
        input.len() == 4 || input.len() == 12,
    ensures
        is_request(msg, tag, input.len() as u32, input@),
{
    let mut msg = Message::new();
    let prop = Property::new(tag, input, 0);
    assert(prop@.data =~= input@);
    assert(!has_tag(msg.properties(), tag));
    let added = msg.add_property(&prop);
    assert(added is Ok);
    msg
}

fn read_answer(msg: &Message, tag: u32) -> (result: Result<u32, MailboxError>)
    ensures
        result == answer_word(*msg, tag),
{
    match response(msg, tag) {
        Ok(bytes) => Ok(first_word(bytes.as_slice())),
        Err(error) => Err(error),
    }
}

/// The request that allocates `size` bytes on a boundary of `align` bytes.
pub fn allocate(size: u32, align: u32) -> (msg: Message)
    ensures
        is_request(
            msg,
            ALLOC_MEM_TAG,
            12,
            word_bytes(size) + word_bytes(align) + word_bytes(FLAGS),
        ),
{
    let ghost expected = word_bytes(size) + word_bytes(align) + word_bytes(FLAGS);
    let mut input: Vec<u8> = Vec::new();
    append(&mut input, split_word(size).as_slice());
    append(&mut input, split_word(align).as_slice());
    append(&mut input, split_word(FLAGS).as_slice());
    assert(input@ =~= expected);
    ask(ALLOC_MEM_TAG, input.as_slice())
}

/// From the answer to [`allocate`] to the request that locks what was
/// allocated.
pub fn lock(answer: &Message) -> (result: Result<Message, AllocError>)
    ensures
        match result {
            Ok(msg) => handle_in(*answer) matches Ok(handle) && is_request(
                msg,
                LOCK_MEM_TAG,
                4,
                word_bytes(handle),
            ),
            Err(error) => handle_in(*answer) == Err::<u32, AllocError>(error),
        },
{
    let handle = match read_answer(answer, ALLOC_MEM_TAG) {
        Ok(handle) => handle,
        Err(error) => {
            return Err(AllocError::Mailbox(error));
        },
    };
    if handle == 0 {
        return Err(AllocError::AllocationFailed);
    }
    let input = split_word(handle);
    Ok(ask(LOCK_MEM_TAG, input.as_slice()))
}

/// From the answer to [`lock`] to the address of the memory.
pub fn address(answer: &Message) -> (result: Result<u32, AllocError>)
    ensures
        result == address_in(*answer),
{
    match read_answer(answer, LOCK_MEM_TAG) {
        Ok(address) => if address == 0 {
            Err(AllocError::LockFailed)
        } else {
            Ok(address)
        },
        Err(error) => Err(AllocError::Mailbox(error)),
    }
}

/// Takes the answer to the request of `stage` and says how the allocation
/// goes on: after allocating with the request to lock, after locking with
/// the address.
pub fn advance(stage: Stage, answer: &Message) -> (result: Result<Step, AllocError>)
    ensures
        match stage {
            Stage::Allocating => match result {
                Ok(Step::Exchange(msg, next)) => {
                    &&& next == Stage::Locking
                    &&& handle_in(*answer) matches Ok(handle)
                    &&& is_request(msg, LOCK_MEM_TAG, 4, word_bytes(handle))
                },
                Ok(Step::Done(_)) => false,
                Err(error) => handle_in(*answer) == Err::<u32, AllocError>(error),
            },
            Stage::Locking => match result {
                Ok(Step::Done(address)) => address_in(*answer) == Ok::<u32, AllocError>(address),
                Ok(Step::Exchange(_, _)) => false,
                Err(error) => address_in(*answer) == Err::<u32, AllocError>(error),
            },
        },
{
    match stage {
        Stage::Allocating => match lock(answer) {
            Ok(msg) => Ok(Step::Exchange(msg, Stage::Locking)),
            Err(error) => Err(error),
        },
        Stage::Locking => match address(answer) {
            Ok(address) => Ok(Step::Done(address)),
            Err(error) => Err(error),
        },
    }
}

} // verus!
