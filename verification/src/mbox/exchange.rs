//! The exchange of a message with the firmware, step by step.

use crate::mbox::message::Message;
use crate::mbox::property::PropertyView;
use crate::mbox::words::word_at;
use crate::mbox::{MailboxError, REQUEST_CODE, SUCCESS_CODE};
use vstd::prelude::*;

verus! {

/// Base address of the mailbox registers.
pub const BASE: u64 = 0x10_7c01_3880;

/// Inbox data register.
pub const INBOX_DATA: u64 = BASE;

/// Inbox status register.
pub const INBOX_STATUS: u64 = BASE + 0x18;

/// Outbox data register.
pub const OUTBOX_DATA: u64 = BASE + 0x20;

/// Outbox status register.
pub const OUTBOX_STATUS: u64 = BASE + 0x38;

/// Bit of the outbox status that says the outbox takes no word.
pub const FULL_STATUS: u32 = 0x8000_0000;

/// Bit of the inbox status that says the inbox holds no word.
pub const EMPTY_STATUS: u32 = 0x4000_0000;

/// What the word that announces a buffer holds besides the buffer's
/// address: the channel of property messages in its four lowest bits, and
/// its two highest bits set.
pub const CHANNEL: u32 = 0xc000_0008;

/// The word that announces the message buffer at `address` to the firmware.
pub open spec fn outbox_word(address: u64) -> u32 {
    (address as u32) | CHANNEL
}

/// Whether the outbox status says that the outbox is full.
pub open spec fn outbox_full(status: u32) -> bool {
    status & FULL_STATUS != 0
}

/// Whether the inbox status says that the inbox is empty.
pub open spec fn inbox_empty(status: u32) -> bool {
    status & EMPTY_STATUS != 0
}

/// What the driver asks of its caller.
#[derive(Clone, Copy, Debug, PartialEq, Eq)]
pub enum Action {
    /// Nothing: no exchange is under way.
    Idle,
    /// Read the outbox status register and hand the word back.
    ReadOutboxStatus,
    /// Clean the cache over the message buffer.
    Clean,
    /// Write this word to the outbox data register.
    WriteOutbox(u32),
    /// Read the inbox status register and hand the word back.
    ReadInboxStatus,
    /// Read the inbox data register and hand the word back.
    ReadInbox,
    /// Invalidate the cache over the message buffer and hand back what the
    /// buffer holds.
    Invalidate,
    /// The exchange is over, with this result.
    Done(Result<(), MailboxError>),
}

impl Action {
    /// Whether carrying the action out reaches a register or the cache.
    pub open spec fn touches_hardware(self) -> bool {
        !(self is Idle || self is Done)
    }
}

/// What the caller hands to the driver.
#[derive(Clone, Copy, Debug)]
pub enum Event {
    /// The message, whose buffer lies at this address, is to be exchanged.
    Start(u64),
    /// The word read from the register that the driver asked for.
    Word(u32),
    /// The cache was cleaned, or the word was written.
    Completed,
    /// The cache was invalidated, and the buffer holds this.
    Buffer([u8; 256]),
}

/// How far an exchange has come: what the driver has asked for and waits on.
#[derive(Clone, Copy, Debug, PartialEq, Eq, Structural)]
pub enum Phase {
    /// No exchange is under way.
    Idle,
    /// Waits for the outbox status, to write the word given once the outbox
    /// has room.
    OutboxStatus(u32),
    /// Waits for the cache to be cleaned, to write the word given.
    Cleaning(u32),
    /// Waits for the word given to be written.
    Writing(u32),
    /// Waits for the inbox status.
    InboxStatus,
    /// Waits for the word from the inbox.
    Draining,
    /// Waits for the buffer after the cache was invalidated.
    Invalidating,
}

impl Phase {
    /// What the driver waits on in this phase.
    pub open spec fn pending(self) -> Action {
        match self {
            Phase::Idle => Action::Idle,
            Phase::OutboxStatus(_) => Action::ReadOutboxStatus,
            Phase::Cleaning(_) => Action::Clean,
            Phase::Writing(word) => Action::WriteOutbox(word),
            Phase::InboxStatus => Action::ReadInboxStatus,
            Phase::Draining => Action::ReadInbox,
            Phase::Invalidating => Action::Invalidate,
        }
    }
}

/// How the firmware took a message with this code.
pub open spec fn verdict(code: u32) -> Result<(), MailboxError> {
    if code == SUCCESS_CODE {
        Ok(())
    } else {
        Err(MailboxError::Rejected(code))
    }
}

/// One step of an exchange: from the phase, the code of the message in hand
/// and what the caller brings, to the next phase and what the driver asks
/// for.  What the driver does not wait on is passed over: it asks again.
pub open spec fn step(phase: Phase, code: u32, event: Event) -> (Phase, Action) {
    match (phase, event) {
        (Phase::Idle, Event::Start(address)) => if code == REQUEST_CODE {
            (Phase::OutboxStatus(outbox_word(address)), Action::ReadOutboxStatus)
        } else {
            (Phase::Idle, Action::Done(Err(MailboxError::NotRequest(code))))
        },
        (Phase::OutboxStatus(word), Event::Word(status)) => if outbox_full(status) {
            (phase, Action::ReadOutboxStatus)
        } else {
            (Phase::Cleaning(word), Action::Clean)
        },
        (Phase::Cleaning(word), Event::Completed) => (
            Phase::Writing(word),
            Action::WriteOutbox(word),
        ),
        (Phase::Writing(_), Event::Completed) => (Phase::InboxStatus, Action::ReadInboxStatus),
        (Phase::InboxStatus, Event::Word(status)) => if inbox_empty(status) {
            (phase, Action::ReadInboxStatus)
        } else {
            (Phase::Draining, Action::ReadInbox)
        },
        (Phase::Draining, Event::Word(_)) => (Phase::Invalidating, Action::Invalidate),
        (Phase::Invalidating, Event::Buffer(bytes)) => (
            Phase::Idle,
            Action::Done(verdict(word_at(bytes@, 4))),
        ),
        _ => (phase, phase.pending()),
    }
}

/// An exchange that nothing holds up goes through its steps in this order:
/// the driver looks whether the outbox has room, has the cache cleaned, has
/// the word written, looks whether the inbox holds a word, has that word
/// read, has the cache invalidated, and judges what the buffer holds then.
/// While the outbox is full or the inbox is empty it looks again, without
/// end.
pub proof fn lemma_exchange_order(
    address: u64,
    full: u32,
    room: u32,
    empty: u32,
    ready: u32,
    doorbell: u32,
    answer: [u8; 256],
)
    requires
        outbox_full(full),
        !outbox_full(room),
        inbox_empty(empty),
        !inbox_empty(ready),
    ensures
        ({
            let word = outbox_word(address);
            &&& step(Phase::Idle, REQUEST_CODE, Event::Start(address)) == (
                Phase::OutboxStatus(word),
                Action::ReadOutboxStatus,
            )
            &&& step(Phase::OutboxStatus(word), REQUEST_CODE, Event::Word(full)) == (
                Phase::OutboxStatus(word),
                Action::ReadOutboxStatus,
            )
            &&& step(Phase::OutboxStatus(word), REQUEST_CODE, Event::Word(room)) == (
                Phase::Cleaning(word),
                Action::Clean,
            )
            &&& step(Phase::Cleaning(word), REQUEST_CODE, Event::Completed) == (
                Phase::Writing(word),
                Action::WriteOutbox(word),
            )
            &&& step(Phase::Writing(word), REQUEST_CODE, Event::Completed) == (
                Phase::InboxStatus,
                Action::ReadInboxStatus,
            )
            &&& step(Phase::InboxStatus, REQUEST_CODE, Event::Word(empty)) == (
                Phase::InboxStatus,
                Action::ReadInboxStatus,
            )
            &&& step(Phase::InboxStatus, REQUEST_CODE, Event::Word(ready)) == (
                Phase::Draining,
                Action::ReadInbox,
            )
            &&& step(Phase::Draining, REQUEST_CODE, Event::Word(doorbell)) == (
                Phase::Invalidating,
                Action::Invalidate,
            )
            &&& step(Phase::Invalidating, REQUEST_CODE, Event::Buffer(answer)) == (
                Phase::Idle,
                Action::Done(verdict(word_at(answer@, 4))),
            )
        }),
{
}

/// A message that is not a request is refused at once: the exchange is over
/// before the driver has asked for anything that reaches a register or the
/// cache.
pub proof fn lemma_only_requests_are_sent(code: u32, address: u64)
    requires
        code != REQUEST_CODE,
    ensures
        step(Phase::Idle, code, Event::Start(address)) == (
            Phase::Idle,
            Action::Done(Err(MailboxError::NotRequest(code))),
        ),
        !step(Phase::Idle, code, Event::Start(address)).1.touches_hardware(),
{
}

/// An answer that the firmware has not marked as a success ends the exchange
/// with an error, and nothing is found in it afterwards, whatever the tag.
pub proof fn lemma_rejected_answer_holds_nothing(
    code: u32,
    bytes: [u8; 256],
    answer: Message,
    tag: u32,
)
    requires
        answer.bytes() == bytes@,
        answer.code() != SUCCESS_CODE,
    ensures
        step(Phase::Invalidating, code, Event::Buffer(bytes)) == (
            Phase::Idle,
            Action::Done(Err(MailboxError::Rejected(answer.code()))),
        ),
        answer.find(tag) == Err::<PropertyView, MailboxError>(
            MailboxError::NotAnswered(answer.code()),
        ),
        answer.response(tag) is Err,
{
}

/// The word that announces a buffer is its address with the channel in the
/// four lowest bits, for a buffer on a 16-byte boundary in the first
/// gigabyte.
pub proof fn lemma_outbox_word_keeps_address(address: u64)
    requires
        address % 16 == 0,
        address < 0x4000_0000,
    ensures
        outbox_word(address) == address + CHANNEL,
        outbox_word(address) & 0xf == 8,
        outbox_word(address) & 0x3fff_fff0 == address,
{
    assert(((address as u32) | 0xc000_0008u32) == address + 0xc000_0008u32 && ((address as u32)
        | 0xc000_0008u32) & 0xf == 8 && ((address as u32) | 0xc000_0008u32) & 0x3fff_fff0
        == address) by (bit_vector)
        requires
            address % 16 == 0,
            address < 0x4000_0000,
    ;
}

/// Mailbox interface driver.
///
/// The driver decides, the caller acts: [`Mailbox::exchange`] takes what the
/// caller has read or done and says what to do next, until it says
/// [`Action::Done`].
pub struct Mailbox {
    phase: Phase,
}

impl Mailbox {
    /// How far the exchange has come.
    pub closed spec fn phase(self) -> Phase {
        self.phase
    }

    /// A driver with no exchange under way.
    pub fn new() -> (mailbox: Mailbox)
        ensures
            mailbox.phase() == Phase::Idle,
    {
        Mailbox { phase: Phase::Idle }
    }

    /// Takes an exchange one step further.  The message changes in the last
    /// step only, where it becomes what the firmware left in the buffer.
    pub fn exchange(&mut self, msg: &mut Message, event: Event) -> (action: Action)
        ensures
            (final(self).phase(), action) == step(old(self).phase(), old(msg).code(), event),
            final(msg).bytes() == match (old(self).phase(), event) {
                (Phase::Invalidating, Event::Buffer(bytes)) => bytes@,
                _ => old(msg).bytes(),
            },
    {
        match (self.phase, event) {
            (Phase::Idle, Event::Start(address)) => {
                let code = msg.get_code();
                if code == REQUEST_CODE {
                    let word: u32 = (#[verifier::truncate] (address as u32)) | CHANNEL;
                    self.phase = Phase::OutboxStatus(word);
                    Action::ReadOutboxStatus
                } else {
                    Action::Done(Err(MailboxError::NotRequest(code)))
                }
            },
            (Phase::OutboxStatus(word), Event::Word(status)) => {
                if status & FULL_STATUS != 0 {
                    Action::ReadOutboxStatus
                } else {
                    self.phase = Phase::Cleaning(word);
                    Action::Clean
                }
            },
            (Phase::Cleaning(word), Event::Completed) => {
                self.phase = Phase::Writing(word);
                Action::WriteOutbox(word)
            },
            (Phase::Writing(_), Event::Completed) => {
                self.phase = Phase::InboxStatus;
                Action::ReadInboxStatus
            },
            (Phase::InboxStatus, Event::Word(status)) => {
                if status & EMPTY_STATUS != 0 {
                    Action::ReadInboxStatus
                } else {
                    self.phase = Phase::Draining;
                    Action::ReadInbox
                }
            },
            (Phase::Draining, Event::Word(_)) => {
                self.phase = Phase::Invalidating;
                Action::Invalidate
            },
            (Phase::Invalidating, Event::Buffer(bytes)) => {
                *msg = Message::from_bytes(bytes);
                self.phase = Phase::Idle;
                let code = msg.get_code();
                if code == SUCCESS_CODE {
                    Action::Done(Ok(()))
                } else {
                    Action::Done(Err(MailboxError::Rejected(code)))
                }
            },
            (phase, _) => match phase {
                Phase::Idle => Action::Idle,
                Phase::OutboxStatus(_) => Action::ReadOutboxStatus,
                Phase::Cleaning(_) => Action::Clean,
                Phase::Writing(word) => Action::WriteOutbox(word),
                Phase::InboxStatus => Action::ReadInboxStatus,
                Phase::Draining => Action::ReadInbox,
                Phase::Invalidating => Action::Invalidate,
            },
        }
    }
}

} // verus!
