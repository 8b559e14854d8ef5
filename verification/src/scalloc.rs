//! Scratch allocator.
//!
//! Hands out addresses in an uncached memory window by bumping a cursor.
//! Nothing is ever given back.

use vstd::prelude::*;

verus! {

/// Base address of the uncached memory region.
pub const UNCACHED_BASE: u64 = 0x400_0000;

/// Why an allocation was refused.
#[derive(Clone, Copy, Debug, PartialEq, Eq, Structural)]
pub enum ScratchError {
    /// The alignment is not a power of two.
    UnsupportedAlignment,
    /// The allocation would end beyond the last address.
    Exhausted,
}

/// Whether `align` is a power of two.
pub open spec fn is_alignment(align: u64) -> bool {
    align > 0 && align & ((align - 1) as u64) == 0
}

/// `n` moved up to the next multiple of `align`, or `n` itself where it is
/// one already.
pub open spec fn round_up(n: int, align: int) -> int {
    if n % align == 0 {
        n
    } else {
        n + align - n % align
    }
}

/// `round_up(n, align)` is a multiple of `align` and is reached from `n` in
/// fewer than `align` steps.
pub proof fn lemma_round_up_is_multiple(n: int, align: int)
    requires
        0 <= n,
        0 < align,
    ensures
        round_up(n, align) % align == 0,
        n <= round_up(n, align) < n + align,
{
    let r = round_up(n, align);
    assert(r % align == 0 && n <= r < n + align) by (nonlinear_arith)
        requires
            0 <= n,
            0 < align,
            r == if n % align == 0 {
                n
            } else {
                n + align - n % align
            },
    ;
}

/// No multiple `m` of `align` lies between `n` and `round_up(n, align)`.
pub proof fn lemma_round_up_is_least(n: int, align: int, m: int)
    requires
        0 <= n,
        0 < align,
        n <= m,
        m % align == 0,
    ensures
        round_up(n, align) <= m,
{
    let r = round_up(n, align);
    lemma_round_up_is_multiple(n, align);
    assert(r <= m) by (nonlinear_arith)
        requires
            0 < align,
            n <= m,
            m % align == 0,
            r % align == 0,
            r < n + align,
    ;
}

/// In a window that starts on a boundary of `align` bytes, rounding the
/// offset up puts the address on such a boundary, too.
pub proof fn lemma_aligned_base_gives_aligned_address(base: int, used: int, align: int)
    requires
        0 <= base,
        0 <= used,
        0 < align,
        base % align == 0,
    ensures
        (base + round_up(used, align)) % align == 0,
{
    lemma_round_up_is_multiple(used, align);
    vstd::arithmetic::div_mod::lemma_mod_adds(base, round_up(used, align), align);
}

/// Cursor into the uncached window.
pub struct Scratch {
    base: u64,
    used: u64,
}

impl Scratch {
    #[verifier::type_invariant]
    spec fn inv(self) -> bool {
        self.base + self.used <= u64::MAX
    }

    /// Address of the first byte of the window.
    pub closed spec fn base(self) -> nat {
        self.base as nat
    }

    /// Bytes between the start of the window and the cursor.
    pub closed spec fn used(self) -> nat {
        self.used as nat
    }

    /// A window starting at `base` with nothing allocated.
    pub fn new(base: u64) -> (scratch: Scratch)
        ensures
            scratch.base() == base,
            scratch.used() == 0,
    {
        Scratch { base, used: 0 }
    }

    /// Address of the first byte that no allocation has claimed.
    pub fn cursor(&self) -> (addr: u64)
        ensures
            addr == self.base() + self.used(),
            0 <= self.base(),
            0 <= self.used(),
    {
        proof {
            use_type_invariant(self);
        }
        self.base + self.used
    }
}

/// Reserves `size` bytes at the next offset that is a multiple of `align`
/// and returns their address.  A refused allocation leaves the cursor where
/// it was.
pub fn allocate(scratch: &mut Scratch, size: u64, align: u64) -> (result: Result<u64, ScratchError>)
    ensures
        final(scratch).base() == old(scratch).base(),
        match result {
            Ok(addr) => {
                let offset = round_up(old(scratch).used() as int, align as int);
                &&& is_alignment(align)
                &&& addr == old(scratch).base() + offset
                &&& final(scratch).used() == offset + size
                &&& old(scratch).base() + old(scratch).used() <= addr
                &&& addr + size <= u64::MAX
                &&& old(scratch).base() % (align as nat) == 0 ==> addr % align == 0
            },
            Err(ScratchError::UnsupportedAlignment) => {
                &&& !is_alignment(align)
                &&& final(scratch).used() == old(scratch).used()
            },
            Err(ScratchError::Exhausted) => {
                let offset = round_up(old(scratch).used() as int, align as int);
                &&& is_alignment(align)
                &&& old(scratch).base() + offset + size > u64::MAX
                &&& final(scratch).used() == old(scratch).used()
            },
        },
{
    proof {
        use_type_invariant(&*scratch);
    }
    if align == 0 || align & (align - 1) != 0 {
        return Err(ScratchError::UnsupportedAlignment);
    }
    let rem: u64 = scratch.used % align;
    let pad: u64 = if rem == 0 {
        0
    } else {
        align - rem
    };
    let room: u64 = u64::MAX - scratch.base - scratch.used;
    if pad > room || size > room - pad {
        return Err(ScratchError::Exhausted);
    }
    let offset: u64 = scratch.used + pad;
    proof {
        if scratch.base as int % (align as int) == 0 {
            lemma_aligned_base_gives_aligned_address(
                scratch.base as int,
                scratch.used as int,
                align as int,
            );
        }
    }
    scratch.used = offset + size;
    Ok(scratch.base + offset)
}

} // verus!
