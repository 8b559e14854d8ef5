use pibus::mbox::{get_word, MailboxError, Message, Property, REQUEST_CODE, SUCCESS_CODE};
use pibus::vcalloc::{
    address, advance, allocate, lock, AllocError, Stage, Step, ALLOC_MEM_TAG, FLAGS, LOCK_MEM_TAG,
};

fn put_word(bytes: &mut [u8; 256], at: usize, word: u32) {
    bytes[at..at + 4].copy_from_slice(&word.to_le_bytes());
}

/// The answer of a firmware that answers the one property of `request` with
/// `word`.
fn answered(request: &Message, word: u32) -> Message {
    let mut bytes = request.to_bytes();
    put_word(&mut bytes, 4, SUCCESS_CODE);
    put_word(&mut bytes, 16, 0x8000_0004);
    put_word(&mut bytes, 20, word);
    Message::from_bytes(bytes)
}

#[test]
fn allocation_asks_for_size_alignment_and_flags() {
    let bytes = allocate(64, 32).to_bytes();
    assert_eq!(get_word(&bytes, 0), 256);
    assert_eq!(get_word(&bytes, 4), REQUEST_CODE);
    assert_eq!(get_word(&bytes, 8), ALLOC_MEM_TAG);
    assert_eq!(get_word(&bytes, 12), 12);
    assert_eq!(get_word(&bytes, 16), 0);
    assert_eq!(get_word(&bytes, 20), 64);
    assert_eq!(get_word(&bytes, 24), 32);
    assert_eq!(get_word(&bytes, 28), FLAGS);
    assert_eq!(get_word(&bytes, 32), 0);
    assert_eq!(FLAGS, 0x54);
    assert_eq!(ALLOC_MEM_TAG, 0x3_000c);
    assert_eq!(LOCK_MEM_TAG, 0x3_000d);
}

#[test]
fn allocation_takes_two_exchanges() {
    let request = allocate(0x1_7700, 4);
    let step = advance(Stage::Allocating, &answered(&request, 0x1234)).unwrap();
    let request = match step {
        Step::Exchange(request, Stage::Locking) => request,
        _ => panic!("the handle has to be locked"),
    };
    let bytes = request.to_bytes();
    assert_eq!(get_word(&bytes, 4), REQUEST_CODE);
    assert_eq!(get_word(&bytes, 8), LOCK_MEM_TAG);
    assert_eq!(get_word(&bytes, 12), 4);
    assert_eq!(get_word(&bytes, 16), 0);
    assert_eq!(get_word(&bytes, 20), 0x1234);
    assert_eq!(get_word(&bytes, 24), 0);
    match advance(Stage::Locking, &answered(&request, 0xc000_1000)).unwrap() {
        Step::Done(address) => assert_eq!(address, 0xc000_1000),
        _ => panic!("the address has to come out"),
    }
}

#[test]
fn handle_zero_is_an_allocation_failure() {
    let request = allocate(64, 32);
    assert_eq!(lock(&answered(&request, 0)).err(), Some(AllocError::AllocationFailed));
    assert_eq!(
        advance(Stage::Allocating, &answered(&request, 0)).err(),
        Some(AllocError::AllocationFailed)
    );
}

#[test]
fn address_zero_is_a_lock_failure() {
    let request = lock(&answered(&allocate(64, 32), 7)).unwrap();
    assert_eq!(address(&answered(&request, 0)), Err(AllocError::LockFailed));
    assert_eq!(
        advance(Stage::Locking, &answered(&request, 0)).err(),
        Some(AllocError::LockFailed)
    );
    assert_eq!(address(&answered(&request, 0x10)), Ok(0x10));
}

#[test]
fn answer_that_is_none_gives_nothing() {
    let request = allocate(64, 32);
    assert_eq!(
        lock(&request).err(),
        Some(AllocError::Mailbox(MailboxError::NotAnswered(REQUEST_CODE)))
    );
    let mut bytes = request.to_bytes();
    put_word(&mut bytes, 4, SUCCESS_CODE);
    assert_eq!(
        lock(&Message::from_bytes(bytes)).err(),
        Some(AllocError::Mailbox(MailboxError::NoResponse(ALLOC_MEM_TAG)))
    );
    put_word(&mut bytes, 16, 0x8000_0010);
    assert_eq!(
        lock(&Message::from_bytes(bytes)).err(),
        Some(AllocError::Mailbox(MailboxError::Truncated {
            tag: ALLOC_MEM_TAG,
            capacity: 12,
            size: 16
        }))
    );
    // The answer to the first request holds nothing for the second stage.
    assert_eq!(
        address(&answered(&request, 0x1234)),
        Err(AllocError::Mailbox(MailboxError::TagNotFound(LOCK_MEM_TAG)))
    );
}

#[test]
fn short_buffer_counts_as_followed_by_zeroes() {
    let mut request = Message::new();
    let prop = Property::new(LOCK_MEM_TAG, &[0xaa, 0xbb], 2);
    assert_eq!(request.add_property(&prop), Ok(()));
    let mut bytes = request.to_bytes();
    put_word(&mut bytes, 4, SUCCESS_CODE);
    put_word(&mut bytes, 16, 0x8000_0002);
    put_word(&mut bytes, 20, 0xffff_1234);
    assert_eq!(address(&Message::from_bytes(bytes)), Ok(0x1234));
}

#[test]
fn answer_is_the_word_that_the_buffer_holds() {
    let request = lock(&answered(&allocate(64, 32), 7)).unwrap();
    let mut bytes = request.to_bytes();
    put_word(&mut bytes, 4, SUCCESS_CODE);
    put_word(&mut bytes, 16, 0x8000_0002);
    put_word(&mut bytes, 20, 0xc012_3400);
    assert_eq!(address(&Message::from_bytes(bytes)), Ok(0xc012_3400));
}
