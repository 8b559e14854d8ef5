use pibus::dma::{
    select_channel, setup_sender, Command, ControlBlock, DmaError, Placed, Profile, RegisterWrite,
    Ring, ABORT, BLOCK_SIZE, START,
};
use pibus::scalloc::{allocate, Scratch};

const BASE: u64 = 0x10_0001_0000;
const FIFO: u64 = 0x10_7c72_001c;

/// The control blocks that the commands store, in order.
fn blocks(commands: &[Command]) -> Vec<Placed> {
    let mut blocks = Vec::new();
    for command in commands {
        if let Command::Store(placed) = command {
            blocks.push(*placed);
        }
    }
    blocks
}

/// The control block with which the commands start the channel.
fn started_with(commands: &[Command]) -> u32 {
    match commands[commands.len() - 2] {
        Command::Write(write) => write.value,
        _ => panic!("the control block register has to be written"),
    }
}

#[test]
fn lowest_free_channel_is_selected() {
    assert_eq!(select_channel(0), Err(DmaError::NoChannel));
    assert_eq!(select_channel(1), Ok(0));
    assert_eq!(select_channel(0b1000), Ok(3));
    assert_eq!(select_channel(0xffff_fff0), Ok(4));
    assert_eq!(select_channel(0x8000_0000), Ok(31));
    assert_eq!(select_channel(0x8001_0000), Ok(16));
}

#[test]
fn registers_of_a_channel_follow_from_base_and_stride() {
    assert_eq!(
        Profile::new(BASE, 0x100, 0, Ring::Double),
        Some(Profile { control: BASE, block: BASE + 4, ring: Ring::Double })
    );
    assert_eq!(
        Profile::new(BASE, 0x100, 5, Ring::Single),
        Some(Profile { control: BASE + 0x500, block: BASE + 0x504, ring: Ring::Single })
    );
    assert_eq!(Profile::new(u64::MAX - 3, 0x100, 0, Ring::Single), None);
    assert_eq!(
        Profile::new(u64::MAX - 4, 0x100, 0, Ring::Single),
        Some(Profile { control: u64::MAX - 4, block: u64::MAX, ring: Ring::Single })
    );
    assert_eq!(Profile::new(0, u64::MAX, 2, Ring::Single), None);
    assert_eq!(Profile::new(u64::MAX - 0x200, 0x100, 2, Ring::Single), None);
}

#[test]
fn control_block_is_eight_words() {
    let block = ControlBlock { ti: 1, src: 2, dst: 3, len: 4, hisrcdst: 5, next: 6 };
    assert_eq!(block.words(), [1, 2, 3, 4, 5, 6, 0, 0]);
    assert_eq!(BLOCK_SIZE, 32);
}

#[test]
fn double_ring_halves_the_buffer() {
    let mut scratch = Scratch::new(0x400_0000);
    let profile = Profile::new(BASE, 0x100, 0, Ring::Double).unwrap();
    let source: u64 = 0x1_2345_6780;
    let commands = setup_sender(&mut scratch, &profile, source, 96000, FIFO, 10).unwrap();
    assert_eq!(
        commands,
        vec![
            Command::Store(Placed {
                address: 0x400_0000,
                block: ControlBlock {
                    ti: 0x000a_f348,
                    src: 0x2345_6780,
                    dst: 0x7c72_001c,
                    len: 48000,
                    hisrcdst: 0x1001,
                    next: 0x20_0001,
                },
            }),
            Command::Store(Placed {
                address: 0x400_0020,
                block: ControlBlock {
                    ti: 0x000a_f348,
                    src: 0x2346_2300,
                    dst: 0x7c72_001c,
                    len: 48000,
                    hisrcdst: 0x1001,
                    next: 0x20_0000,
                },
            }),
            Command::Fence,
            Command::Write(RegisterWrite { register: BASE, value: ABORT }),
            Command::Write(RegisterWrite { register: BASE + 4, value: 0x20_0000 }),
            Command::Write(RegisterWrite { register: BASE, value: START }),
        ]
    );
    assert_eq!(scratch.cursor(), 0x400_0040);
}

#[test]
fn blocks_of_a_double_ring_name_each_other() {
    for length in [0u32, 2, 4, 96000, 0xffff_fffe] {
        let mut scratch = Scratch::new(0x400_0000);
        let profile = Profile::new(BASE, 0x100, 0, Ring::Double).unwrap();
        let commands = setup_sender(&mut scratch, &profile, 0x400_1000, length, FIFO, 10).unwrap();
        let blocks = blocks(&commands);
        assert_eq!(blocks.len(), 2);
        let first = blocks[0];
        let second = blocks[1];
        assert_eq!((first.block.next as u64) << 5, second.address);
        assert_eq!((second.block.next as u64) << 5, first.address);
        assert_eq!(first.block.len as u64 + second.block.len as u64, length as u64);
        assert_eq!(second.block.src, first.block.src + first.block.len);
        assert_eq!(started_with(&commands) as u64, first.address >> 5);
    }
}

#[test]
fn halves_of_an_odd_buffer_leave_its_last_byte_out() {
    let mut scratch = Scratch::new(0x400_0000);
    let profile = Profile::new(BASE, 0x100, 0, Ring::Double).unwrap();
    let commands = setup_sender(&mut scratch, &profile, 0x400_1000, 7, FIFO, 10).unwrap();
    let blocks = blocks(&commands);
    assert_eq!(blocks[0].block.len, 3);
    assert_eq!(blocks[1].block.len, 3);
    assert_eq!(blocks[1].block.src, 0x400_1003);
}

#[test]
fn second_half_may_lie_beyond_four_gigabytes() {
    let mut scratch = Scratch::new(0x400_0000);
    let profile = Profile::new(BASE, 0x100, 0, Ring::Double).unwrap();
    let commands = setup_sender(&mut scratch, &profile, 0xffff_fff0, 0x40, FIFO, 10).unwrap();
    let blocks = blocks(&commands);
    assert_eq!(blocks[0].block.src, 0xffff_fff0);
    assert_eq!(blocks[0].block.hisrcdst, 0x1000);
    assert_eq!(blocks[1].block.src, 0x10);
    assert_eq!(blocks[1].block.hisrcdst, 0x1001);
}

#[test]
fn single_ring_names_itself() {
    let mut scratch = Scratch::new(0x400_0000);
    assert_eq!(allocate(&mut scratch, 4, 4), Ok(0x400_0000));
    let profile = Profile::new(BASE, 0x100, 3, Ring::Single).unwrap();
    let commands = setup_sender(&mut scratch, &profile, 0x400_1000, 96000, FIFO, 10).unwrap();
    assert_eq!(
        commands,
        vec![
            Command::Store(Placed {
                address: 0x400_0020,
                block: ControlBlock {
                    ti: 0x000a_f348,
                    src: 0x0400_1000,
                    dst: 0x7c72_001c,
                    len: 96000,
                    hisrcdst: 0x1000,
                    next: 0x20_0001,
                },
            }),
            Command::Fence,
            Command::Write(RegisterWrite { register: BASE + 0x300, value: ABORT }),
            Command::Write(RegisterWrite { register: BASE + 0x304, value: 0x20_0001 }),
            Command::Write(RegisterWrite { register: BASE + 0x300, value: START }),
        ]
    );
    assert_eq!(scratch.cursor(), 0x400_0040);
}

#[test]
fn control_blocks_lie_on_their_boundary() {
    let mut scratch = Scratch::new(0x400_0000);
    assert_eq!(allocate(&mut scratch, 5, 1), Ok(0x400_0000));
    let profile = Profile::new(BASE, 0x100, 0, Ring::Double).unwrap();
    let commands = setup_sender(&mut scratch, &profile, 0x400_1000, 64, FIFO, 10).unwrap();
    for placed in blocks(&commands) {
        assert_eq!(placed.address % BLOCK_SIZE, 0);
    }
    assert_eq!(blocks(&commands)[0].address, 0x400_0020);
}

#[test]
fn request_line_is_cut_to_five_bits() {
    let profile = Profile::new(BASE, 0x100, 0, Ring::Single).unwrap();
    for (dreq, info) in [(0u32, 0xf348u32), (31, 0x1f_f348), (32, 0xf348), (0xffff_ffea, 0xa_f348)]
    {
        let mut scratch = Scratch::new(0x400_0000);
        let commands = setup_sender(&mut scratch, &profile, 0x400_1000, 64, FIFO, dreq).unwrap();
        assert_eq!(blocks(&commands)[0].block.ti, info);
    }
}

#[test]
fn sender_needs_room_for_its_blocks() {
    let profile = Profile::new(BASE, 0x100, 0, Ring::Double).unwrap();
    let mut scratch = Scratch::new(u64::MAX - 63);
    assert_eq!(
        setup_sender(&mut scratch, &profile, 0x400_1000, 64, FIFO, 10).err(),
        Some(DmaError::NoMemory)
    );
    assert_eq!(scratch.cursor(), u64::MAX - 63);
    let single = Profile::new(BASE, 0x100, 0, Ring::Single).unwrap();
    assert!(setup_sender(&mut scratch, &single, 0x400_1000, 64, FIFO, 10).is_ok());
    assert_eq!(scratch.cursor(), u64::MAX - 31);
}
