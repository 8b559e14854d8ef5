//! Direct memory access controller driver.
//!
//! Sets a channel up to send a buffer to a peripheral again and again.  The
//! engine follows control blocks in memory, each of which names the next, so
//! a chain that leads back to its start never ends: two blocks over the two
//! halves of the buffer, or one block over all of it that names itself.
//!
//! Nothing here writes to memory or to a register.  [`setup_sender`] places
//! the blocks and says, command by command, what arming the channel takes;
//! the caller carries the commands out in order.

use crate::scalloc::{allocate, lemma_aligned_base_gives_aligned_address, round_up, Scratch};
use vstd::prelude::*;

verus! {

/// Address of the control and status register of channel 0.
pub const BASE: u64 = 0x10_0001_0000;

/// Bytes that a control block takes in memory, and the alignment it needs.
pub const BLOCK_SIZE: u64 = 32;

/// Transfer information of every block: bursts, a source that moves on, a
/// destination that stays and sets the pace, a wait for each write to be
/// acknowledged.
pub const TRANSFER: u32 = 0xf348;

/// Bits of a peripheral's request line that the transfer information holds.
pub const DREQ_MASK: u32 = 0x1f;

/// Written to the control and status register to stop what the channel does.
pub const ABORT: u32 = 0x8000_0000;

/// Written to the control and status register to start the channel, with its
/// priorities.
pub const START: u32 = 0x20a5_0007;

/// Offset of a channel's control block register from its control and status
/// register.
pub const BLOCK_REGISTER: u64 = 4;

/// Why no sender was set up.
#[derive(Clone, Copy, Debug, PartialEq, Eq, Structural)]
pub enum DmaError {
    /// No channel is free.
    NoChannel,
    /// The scratch memory has no room for the control blocks.
    NoMemory,
}

/// How the chain of control blocks leads back to its start.
#[derive(Clone, Copy, Debug, PartialEq, Eq, Structural)]
pub enum Ring {
    /// Two blocks, each over one half of the buffer, each naming the other.
    Double,
    /// One block over the whole buffer that names itself.
    Single,
}

/// A control block: what the engine reads to make one transfer.
#[derive(Clone, Copy, Debug, PartialEq, Eq, Structural)]
pub struct ControlBlock {
    /// Transfer information.
    pub ti: u32,
    /// Lower 32 bits of the source address.
    pub src: u32,
    /// Lower 32 bits of the destination address.
    pub dst: u32,
    /// Length in bytes.
    pub len: u32,
    /// Bits 32 to 39 of the source address, and above them those of the
    /// destination address.
    pub hisrcdst: u32,
    /// Address of the next control block, without its five lowest bits.
    pub next: u32,
}

/// A control block and the address at which the engine expects it.
#[derive(Clone, Copy, Debug, PartialEq, Eq, Structural)]
pub struct Placed {
    pub address: u64,
    pub block: ControlBlock,
}

/// A word to write to a register.
#[derive(Clone, Copy, Debug, PartialEq, Eq, Structural)]
pub struct RegisterWrite {
    pub register: u64,
    pub value: u32,
}

/// The registers of one channel, and the chain to drive it with.
#[derive(Clone, Copy, Debug, PartialEq, Eq, Structural)]
pub struct Profile {
    /// Address of the channel's control and status register.
    pub control: u64,
    /// Address of the channel's control block register.
    pub block: u64,
    /// The chain to build.
    pub ring: Ring,
}

/// One thing to do on the way to an armed channel.
#[derive(Clone, Copy, Debug, PartialEq, Eq, Structural)]
pub enum Command {
    /// Store the control block at its address.
    Store(Placed),
    /// Issue a release fence: the engine is to see what was stored before it
    /// sees what follows.
    Fence,
    /// Write the word to the register.
    Write(RegisterWrite),
}

/// The transfer information of a block paced by the request line `dreq`.
pub open spec fn transfer_info(dreq: u32) -> u32 {
    TRANSFER | ((dreq & DREQ_MASK) << 16)
}

/// An address as a control block names it.
pub open spec fn pointer(address: u64) -> u32 {
    (address >> 5) as u32
}

/// Bits 32 to 39 of the two addresses of a transfer, as a control block holds
/// them.
pub open spec fn high_bits(source: u64, destination: u64) -> u32 {
    (((destination >> 24) as u32) & 0xff00) | (((source >> 32) as u32) & 0xff)
}

/// The control block for moving `length` bytes from `source` to the register
/// at `destination`, to be followed by the block at `next`.
pub open spec fn block_for(info: u32, source: u64, destination: u64, length: u32, next: u64)
    -> ControlBlock {
    ControlBlock {
        ti: info,
        src: source as u32,
        dst: destination as u32,
        len: length,
        hisrcdst: high_bits(source, destination),
        next: pointer(next),
    }
}

impl ControlBlock {
    /// The source address that the block names.
    pub open spec fn source(self) -> u64 {
        (self.src as u64) | (((self.hisrcdst & 0xff) as u64) << 32)
    }

    /// The destination address that the block names.
    pub open spec fn destination(self) -> u64 {
        (self.dst as u64) | (((self.hisrcdst & 0xff00) as u64) << 24)
    }

    /// The address of the block that the engine turns to next.
    pub open spec fn successor(self) -> u64 {
        (self.next as u64) << 5
    }

    /// The block as the eight words that the engine reads, the last two of
    /// which are padding.
    pub fn words(&self) -> (words: [u32; 8])
        ensures
            words@ == seq![
                self.ti,
                self.src,
                self.dst,
                self.len,
                self.hisrcdst,
                self.next,
                0u32,
                0u32,
            ],
    {
        let words = [self.ti, self.src, self.dst, self.len, self.hisrcdst, self.next, 0, 0];
        assert(words@ =~= seq![
            self.ti,
            self.src,
            self.dst,
            self.len,
            self.hisrcdst,
            self.next,
            0u32,
            0u32,
        ]);
        words
    }
}

/// A control block names the addresses it was made for, as long as they have
/// no more than 40 bits, and the block it was told to go on with, as long as
/// that lies on a 32-byte boundary below 2 to the 37th.
pub proof fn lemma_block_names_its_addresses(
    info: u32,
    source: u64,
    destination: u64,
    length: u32,
    next: u64,
)
    ensures
        source < 0x100_0000_0000 ==> block_for(info, source, destination, length, next).source()
            == source,
        destination < 0x100_0000_0000 ==> block_for(
            info,
            source,
            destination,
            length,
            next,
        ).destination() == destination,
        next % 32 == 0 && next < 0x20_0000_0000 ==> block_for(
            info,
            source,
            destination,
            length,
            next,
        ).successor() == next,
{
    assert(source < 0x100_0000_0000 ==> ((source as u32) as u64) | (((((((destination >> 24)
        as u32) & 0xff00) | (((source >> 32) as u32) & 0xff)) & 0xff) as u64) << 32) == source)
        by (bit_vector);
    assert(destination < 0x100_0000_0000 ==> ((destination as u32) as u64) | (((((((destination
        >> 24) as u32) & 0xff00) | (((source >> 32) as u32) & 0xff)) & 0xff00) as u64) << 24)
        == destination) by (bit_vector);
    assert(next % 32 == 0 && next < 0x20_0000_0000 ==> (((next >> 5) as u32) as u64) << 5 == next)
        by (bit_vector);
}

/// The transfer information holds the request line in bits 16 to 20 and the
/// same flags for every line.
pub proof fn lemma_transfer_info_fields(dreq: u32)
    ensures
        (transfer_info(dreq) >> 16) & DREQ_MASK == dreq & DREQ_MASK,
        transfer_info(dreq) & 0xffff == TRANSFER,
        transfer_info(dreq) & !0x1f_ffffu32 == 0,
{
    assert(((0xf348u32 | ((dreq & 0x1f) << 16)) >> 16) & 0x1f == dreq & 0x1f) by (bit_vector);
    assert((0xf348u32 | ((dreq & 0x1f) << 16)) & 0xffff == 0xf348) by (bit_vector);
    assert((0xf348u32 | ((dreq & 0x1f) << 16)) & !0x1f_ffffu32 == 0) by (bit_vector);
}

/// Whether bit `index` of `bitmap` is set.
pub open spec fn bit_set(bitmap: u32, index: u32) -> bool {
    (bitmap >> index) & 1 == 1
}

/// The lowest channel that `bitmap` marks as free.
pub fn select_channel(bitmap: u32) -> (result: Result<u32, DmaError>)
    ensures
        match result {
            Ok(channel) => {
                &&& bitmap != 0
                &&& channel < 32
                &&& bit_set(bitmap, channel)
                &&& forall|lower: u32| lower < channel ==> !bit_set(bitmap, lower)
            },
            Err(error) => bitmap == 0 && error == DmaError::NoChannel,
        },
{
    if bitmap == 0 {
        return Err(DmaError::NoChannel);
    }
    let mut channel: u32 = 0;
    assert(bitmap >> 0u32 != 0) by (bit_vector)
        requires
            bitmap != 0,
    ;
    loop
        invariant
            channel < 32,
            bitmap != 0,
            bitmap >> channel != 0,
            forall|lower: u32| lower < channel ==> !bit_set(bitmap, lower),
        decreases 32 - channel,
    {
        if (bitmap >> channel) & 1 == 1 {
            return Ok(channel);
        }
        assert(channel < 31 && bitmap >> ((channel + 1) as u32) != 0) by (bit_vector)
            requires
                channel < 32,
                bitmap >> channel != 0,
                (bitmap >> channel) & 1 != 1,
        ;
        channel += 1;
    }
}

impl Profile {
    /// The profile of channel `channel` where the registers of channel 0
    /// start at `base` and those of each further channel `stride` bytes after
    /// those of the one before, or `None` where that lies beyond the last
    /// address.
    pub fn new(base: u64, stride: u64, channel: u32, ring: Ring) -> (profile: Option<Profile>)
        ensures
            match profile {
                Some(p) => {
                    &&& p.control == base + stride * channel
                    &&& p.block == p.control + BLOCK_REGISTER
                    &&& p.ring == ring
                },
                None => base + stride * channel + BLOCK_REGISTER > u64::MAX,
            },
    {
        let offset = match stride.checked_mul(channel as u64) {
            Some(offset) => offset,
            None => {
                return None;
            },
        };
        let control = match base.checked_add(offset) {
            Some(control) => control,
            None => {
                return None;
            },
        };
        match control.checked_add(BLOCK_REGISTER) {
            Some(block) => Some(Profile { control, block, ring }),
            None => None,
        }
    }
}

/// The control blocks of a sender for the `length` bytes at `source`, stored
/// from `first` on.
pub open spec fn blocks_for(
    ring: Ring,
    first: u64,
    source: u64,
    length: u32,
    destination: u64,
    dreq: u32,
) -> Seq<Placed> {
    let info = transfer_info(dreq);
    let half = length / 2;
    let second = (first + BLOCK_SIZE) as u64;
    match ring {
        Ring::Double => seq![
            Placed { address: first, block: block_for(info, source, destination, half, second) },
            Placed {
                address: second,
                block: block_for(info, (source + half) as u64, destination, half, first),
            },
        ],
        Ring::Single => seq![
            Placed { address: first, block: block_for(info, source, destination, length, first) },
        ],
    }
}

/// What arming a channel takes once its control blocks are stored from
/// `first` on: the fence, then the abort of what the channel was doing, the
/// first control block, and the start.
pub open spec fn arming(profile: Profile, first: u64) -> Seq<Command> {
    seq![
        Command::Fence,
        Command::Write(RegisterWrite { register: profile.control, value: ABORT }),
        Command::Write(RegisterWrite { register: profile.block, value: pointer(first) }),
        Command::Write(RegisterWrite { register: profile.control, value: START }),
    ]
}

/// What [`setup_sender`] hands back: the control blocks to store, then what
/// arms the channel.
pub open spec fn sender_for(
    profile: Profile,
    first: u64,
    source: u64,
    length: u32,
    destination: u64,
    dreq: u32,
) -> Seq<Command> {
    blocks_for(profile.ring, first, source, length, destination, dreq).map_values(
        |placed: Placed| Command::Store(placed),
    ) + arming(profile, first)
}

/// The two blocks of a double ring name each other, and between them they
/// move the whole buffer once, given that it can be halved.
pub proof fn lemma_double_ring_is_a_cycle(
    first: u64,
    source: u64,
    length: u32,
    destination: u64,
    dreq: u32,
)
    requires
        first + 2 * BLOCK_SIZE <= u64::MAX,
    ensures
        ({
            let blocks = blocks_for(Ring::Double, first, source, length, destination, dreq);
            &&& blocks.len() == 2
            &&& blocks[0].address == first
            &&& blocks[1].address == first + BLOCK_SIZE
            &&& blocks[0].block.next == pointer(blocks[1].address)
            &&& blocks[1].block.next == pointer(blocks[0].address)
            &&& blocks[0].block.len == blocks[1].block.len
            &&& length % 2 == 0 ==> blocks[0].block.len + blocks[1].block.len == length
            &&& first % 32 == 0 && first + BLOCK_SIZE < 0x20_0000_0000 ==> {
                &&& blocks[0].block.successor() == blocks[1].address
                &&& blocks[1].block.successor() == blocks[0].address
            }
            &&& source + length < 0x100_0000_0000 ==> {
                &&& blocks[0].block.source() == source
                &&& blocks[1].block.source() == source + blocks[0].block.len
            }
            &&& destination < 0x100_0000_0000 ==> {
                &&& blocks[0].block.destination() == destination
                &&& blocks[1].block.destination() == destination
            }
        }),
{
    let info = transfer_info(dreq);
    let half = (length / 2) as u32;
    let second = (first + BLOCK_SIZE) as u64;
    lemma_block_names_its_addresses(info, source, destination, half, second);
    lemma_block_names_its_addresses(info, (source + half) as u64, destination, half, first);
}

/// The block of a single ring names itself and moves the whole buffer.
pub proof fn lemma_single_ring_is_a_loop(
    first: u64,
    source: u64,
    length: u32,
    destination: u64,
    dreq: u32,
)
    ensures
        ({
            let blocks = blocks_for(Ring::Single, first, source, length, destination, dreq);
            &&& blocks.len() == 1
            &&& blocks[0].address == first
            &&& blocks[0].block.next == pointer(first)
            &&& blocks[0].block.len == length
            &&& first % 32 == 0 && first < 0x20_0000_0000 ==> blocks[0].block.successor() == first
            &&& source < 0x100_0000_0000 ==> blocks[0].block.source() == source
            &&& destination < 0x100_0000_0000 ==> blocks[0].block.destination() == destination
        }),
{
    lemma_block_names_its_addresses(transfer_info(dreq), source, destination, length, first);
}

/// Number of control blocks in a ring.
pub open spec fn ring_len(ring: Ring) -> int {
    match ring {
        Ring::Double => 2,
        Ring::Single => 1,
    }
}

fn make_block(info: u32, source: u64, destination: u64, length: u32, next: u64) -> (block:
    ControlBlock)
    ensures
        block == block_for(info, source, destination, length, next),
{
    ControlBlock {
        ti: info,
        src: #[verifier::truncate]
        (source as u32),
        dst: #[verifier::truncate]
        (destination as u32),
        len: length,
        hisrcdst: ((#[verifier::truncate]
        ((destination >> 24) as u32)) & 0xff00) | ((#[verifier::truncate]
        ((source >> 32) as u32)) & 0xff),
        next: #[verifier::truncate]
        ((next >> 5) as u32),
    }
}

/// Sets up a channel to send the `length` bytes at `source` to the register
/// at `destination` again and again, at the pace of the request line `dreq`.
/// The control blocks are placed in scratch memory; where that has no room
/// for them, nothing is taken from it.
pub fn setup_sender(
    scratch: &mut Scratch,
    profile: &Profile,
    source: u64,
    length: u32,
    destination: u64,
    dreq: u32,
) -> (result: Result<Vec<Command>, DmaError>)
    requires
        source + length <= u64::MAX,
    ensures
        final(scratch).base() == old(scratch).base(),
        match result {
            Ok(commands) => {
                let first = old(scratch).base() + round_up(old(scratch).used() as int, 32);
                &&& first + BLOCK_SIZE * ring_len(profile.ring) <= u64::MAX
                &&& old(scratch).base() % 32 == 0 ==> first % 32 == 0
                &&& final(scratch).used() == round_up(old(scratch).used() as int, 32) + BLOCK_SIZE
                    * ring_len(profile.ring)
                &&& commands@ == sender_for(
                    *profile,
                    first as u64,
                    source,
                    length,
                    destination,
                    dreq,
                )
            },
            Err(error) => {
                &&& error == DmaError::NoMemory
                &&& old(scratch).base() + round_up(old(scratch).used() as int, 32) + BLOCK_SIZE
                    * ring_len(profile.ring) > u64::MAX
                &&& final(scratch).used() == old(scratch).used()
            },
        },
{
    let count: u64 = match profile.ring {
        Ring::Double => 2,
        Ring::Single => 1,
    };
    assert(32u64 & ((32u64 - 1) as u64) == 0) by (bit_vector);
    let first = match allocate(scratch, BLOCK_SIZE * count, BLOCK_SIZE) {
        Ok(first) => first,
        Err(_) => {
            return Err(DmaError::NoMemory);
        },
    };
    proof {
        if old(scratch).base() % 32 == 0 {
            lemma_aligned_base_gives_aligned_address(
                old(scratch).base() as int,
                old(scratch).used() as int,
                32,
            );
        }
    }
    let info: u32 = TRANSFER | ((dreq & DREQ_MASK) << 16);
    let mut commands: Vec<Command> = Vec::new();
    match profile.ring {
        Ring::Double => {
            let half: u32 = length / 2;
            let second: u64 = first + BLOCK_SIZE;
            commands.push(
                Command::Store(
                    Placed {
                        address: first,
                        block: make_block(info, source, destination, half, second),
                    },
                ),
            );
            commands.push(
                Command::Store(
                    Placed {
                        address: second,
                        block: make_block(info, source + half as u64, destination, half, first),
                    },
                ),
            );
        },
        Ring::Single => {
            commands.push(
                Command::Store(
                    Placed {
                        address: first,
                        block: make_block(info, source, destination, length, first),
                    },
                ),
            );
        },
    }
    commands.push(Command::Fence);
    commands.push(Command::Write(RegisterWrite { register: profile.control, value: ABORT }));
    commands.push(
        Command::Write(
            RegisterWrite { register: profile.block, value: #[verifier::truncate]
            ((first >> 5) as u32) },
        ),
    );
    commands.push(Command::Write(RegisterWrite { register: profile.control, value: START }));
    assert(commands@ =~= sender_for(*profile, first, source, length, destination, dreq));
    Ok(commands)
}

} // verus!
