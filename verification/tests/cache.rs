use pibus::cache::{
    cleanup_cache, invalidate_cache, plan_clean, plan_invalidate, Lines, Memory, Slot, Step,
    LINE_SIZE,
};

fn filled(lines: usize) -> Memory {
    let mut mem = Memory::new(lines);
    for addr in 0..mem.len() {
        mem.store(addr, (addr % 251) as u8);
        mem.device_store(addr, 0xff - (addr % 251) as u8);
    }
    mem
}

#[test]
fn line_size_is_sixty_four() {
    assert_eq!(LINE_SIZE, 64);
}

#[test]
fn new_memory_is_zero_on_both_sides() {
    let mem = Memory::new(3);
    assert_eq!(mem.len(), 192);
    for addr in 0..192 {
        assert_eq!(mem.load(addr), 0);
        assert_eq!(mem.device_load(addr), 0);
    }
}

#[test]
fn stores_stay_on_their_side() {
    let mut mem = Memory::new(1);
    mem.store(5, 0x11);
    assert_eq!(mem.load(5), 0x11);
    assert_eq!(mem.device_load(5), 0);
    mem.device_store(6, 0x22);
    assert_eq!(mem.device_load(6), 0x22);
    assert_eq!(mem.load(6), 0);
}

#[test]
fn empty_region_takes_no_steps() {
    assert_eq!(plan_invalidate(100, 0), vec![]);
    assert_eq!(plan_clean(100, 0), vec![]);
}

#[test]
fn cleaning_covers_the_region_with_whole_lines() {
    for (start, size, first, last) in [
        (0usize, 64usize, 0usize, 0usize),
        (0, 65, 0, 64),
        (63, 2, 0, 64),
        (64, 256, 64, 256),
        (100, 1, 64, 64),
    ] {
        assert_eq!(
            plan_clean(start, size),
            vec![Step::Release, Step::Clean(Lines { first, last })]
        );
    }
}

#[test]
fn invalidation_keeps_and_restores_the_outer_lines() {
    assert_eq!(
        plan_invalidate(70, 100),
        vec![
            Step::Save { slot: Slot::First, line: 64 },
            Step::Save { slot: Slot::Last, line: 128 },
            Step::Release,
            Step::Invalidate(Lines { first: 64, last: 128 }),
            Step::Acquire,
            Step::Restore { slot: Slot::First, from: 0, count: 6 },
            Step::Restore { slot: Slot::Last, from: 42, count: 22 },
        ]
    );
    assert_eq!(
        plan_invalidate(128, 64),
        vec![
            Step::Save { slot: Slot::First, line: 128 },
            Step::Save { slot: Slot::Last, line: 128 },
            Step::Release,
            Step::Invalidate(Lines { first: 128, last: 128 }),
            Step::Acquire,
            Step::Restore { slot: Slot::First, from: 0, count: 0 },
            Step::Restore { slot: Slot::Last, from: 64, count: 0 },
        ]
    );
    assert_eq!(
        plan_invalidate(130, 4),
        vec![
            Step::Save { slot: Slot::First, line: 128 },
            Step::Save { slot: Slot::Last, line: 128 },
            Step::Release,
            Step::Invalidate(Lines { first: 128, last: 128 }),
            Step::Acquire,
            Step::Restore { slot: Slot::First, from: 0, count: 2 },
            Step::Restore { slot: Slot::Last, from: 6, count: 58 },
        ]
    );
}

#[test]
fn steps_of_the_plan_invalidate_the_region() {
    let mut mem = filled(4);
    for step in plan_invalidate(70, 100) {
        mem.apply(step);
    }
    let mut same = filled(4);
    invalidate_cache(&mut same, 70, 100);
    for addr in 0..mem.len() {
        assert_eq!(mem.load(addr), same.load(addr));
        assert_eq!(mem.device_load(addr), same.device_load(addr));
    }
}

#[test]
fn barriers_change_nothing() {
    let mut mem = filled(2);
    mem.apply(Step::Release);
    mem.apply(Step::Acquire);
    for addr in 0..128 {
        assert_eq!(mem.load(addr), (addr % 251) as u8);
        assert_eq!(mem.device_load(addr), 0xff - (addr % 251) as u8);
    }
}

#[test]
fn restore_puts_back_what_was_saved() {
    let mut mem = filled(2);
    mem.apply(Step::Save { slot: Slot::Last, line: 64 });
    for addr in 64..128 {
        mem.store(addr, 0);
    }
    mem.apply(Step::Restore { slot: Slot::Last, from: 10, count: 3 });
    for addr in 64..128 {
        if (74..77).contains(&addr) {
            assert_eq!(mem.load(addr), (addr % 251) as u8);
        } else {
            assert_eq!(mem.load(addr), 0);
        }
    }
}

#[test]
fn invalidate_keeps_what_shares_a_line_with_the_region() {
    let mut mem = filled(4);
    let start = 70;
    let size = 100;
    invalidate_cache(&mut mem, start, size);
    for addr in 0..mem.len() {
        let cpu = (addr % 251) as u8;
        let ram = 0xff - cpu;
        if addr >= start && addr < start + size {
            assert_eq!(mem.load(addr), ram);
        } else {
            assert_eq!(mem.load(addr), cpu);
        }
        assert_eq!(mem.device_load(addr), ram);
    }
}

#[test]
fn invalidate_within_one_line_keeps_both_ends_of_it() {
    let mut mem = filled(2);
    invalidate_cache(&mut mem, 10, 4);
    for addr in 0..128 {
        let cpu = (addr % 251) as u8;
        if (10..14).contains(&addr) {
            assert_eq!(mem.load(addr), 0xff - cpu);
        } else {
            assert_eq!(mem.load(addr), cpu);
        }
    }
}

#[test]
fn invalidate_of_whole_lines_leaves_the_next_line_alone() {
    let mut mem = filled(3);
    invalidate_cache(&mut mem, 64, 64);
    for addr in 0..192 {
        let cpu = (addr % 251) as u8;
        if (64..128).contains(&addr) {
            assert_eq!(mem.load(addr), 0xff - cpu);
        } else {
            assert_eq!(mem.load(addr), cpu);
        }
    }
}

#[test]
fn invalidate_of_nothing_changes_nothing() {
    let mut mem = filled(2);
    invalidate_cache(&mut mem, 30, 0);
    invalidate_cache(&mut mem, 128, 0);
    for addr in 0..128 {
        assert_eq!(mem.load(addr), (addr % 251) as u8);
        assert_eq!(mem.device_load(addr), 0xff - (addr % 251) as u8);
    }
}

#[test]
fn invalidate_shows_what_the_device_wrote() {
    let mut mem = Memory::new(2);
    mem.store(60, 1);
    mem.store(68, 2);
    for addr in 62..67 {
        mem.device_store(addr, 0xa0 + (addr - 62) as u8);
    }
    invalidate_cache(&mut mem, 62, 5);
    assert_eq!(mem.load(60), 1);
    assert_eq!(mem.load(61), 0);
    assert_eq!(mem.load(62), 0xa0);
    assert_eq!(mem.load(66), 0xa4);
    assert_eq!(mem.load(67), 0);
    assert_eq!(mem.load(68), 2);
}

#[test]
fn clean_writes_the_lines_of_the_region_back() {
    let mut mem = filled(4);
    cleanup_cache(&mut mem, 70, 100);
    for addr in 0..mem.len() {
        let cpu = (addr % 251) as u8;
        assert_eq!(mem.load(addr), cpu);
        if (64..192).contains(&addr) {
            assert_eq!(mem.device_load(addr), cpu);
        } else {
            assert_eq!(mem.device_load(addr), 0xff - cpu);
        }
    }
}

#[test]
fn clean_reaches_the_line_that_the_region_ends_in() {
    let mut mem = filled(3);
    cleanup_cache(&mut mem, 60, 10);
    for addr in 0..192 {
        let cpu = (addr % 251) as u8;
        if addr < 128 {
            assert_eq!(mem.device_load(addr), cpu);
        } else {
            assert_eq!(mem.device_load(addr), 0xff - cpu);
        }
    }
}

#[test]
fn clean_of_nothing_changes_nothing() {
    let mut mem = filled(1);
    cleanup_cache(&mut mem, 3, 0);
    for addr in 0..64 {
        assert_eq!(mem.device_load(addr), 0xff - (addr % 251) as u8);
    }
}

#[test]
fn lines_are_moved_whole() {
    let mut mem = filled(3);
    mem.apply(Step::Invalidate(Lines { first: 64, last: 64 }));
    mem.apply(Step::Clean(Lines { first: 128, last: 128 }));
    for addr in 0..192 {
        let cpu = (addr % 251) as u8;
        if addr < 64 {
            assert_eq!(mem.load(addr), cpu);
            assert_eq!(mem.device_load(addr), 0xff - cpu);
        } else if addr < 128 {
            assert_eq!(mem.load(addr), 0xff - cpu);
            assert_eq!(mem.device_load(addr), 0xff - cpu);
        } else {
            assert_eq!(mem.load(addr), cpu);
            assert_eq!(mem.device_load(addr), cpu);
        }
    }
}
