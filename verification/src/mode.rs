//! Capability-flag sets: the access mode requested when opening or locking a
//! session, and the buffer-selection mask handed to a flush.
//!
//! Each set is a small bit-set value type with named constructors and the
//! usual set operations, so that contracts can speak of flag containment
//! directly.

use vstd::prelude::*;

verus! {

pub const VI_NO_LOCK: u32 = 0;
pub const VI_EXCLUSIVE_LOCK: u32 = 1;
pub const VI_SHARED_LOCK: u32 = 2;
pub const VI_LOAD_CONFIG: u32 = 4;

pub const VI_READ_BUF: u16 = 1;
pub const VI_WRITE_BUF: u16 = 2;
pub const VI_READ_BUF_DISCARD: u16 = 4;
pub const VI_WRITE_BUF_DISCARD: u16 = 8;
pub const VI_IO_IN_BUF: u16 = 16;
pub const VI_IO_OUT_BUF: u16 = 32;
pub const VI_IO_IN_BUF_DISCARD: u16 = 64;
pub const VI_IO_OUT_BUF_DISCARD: u16 = 128;

/// The locking behaviour requested when a session is opened or locked:
/// at most one of the three lock flags, plus the orthogonal
/// load-configuration modifier.
#[derive(Clone, Copy, Debug, PartialEq, Eq, Structural)]
pub struct AccessMode {
    pub bits: u32,
}

impl AccessMode {
    /// The set with no flags: plain, unlocked access.
    pub fn no_lock() -> (r: AccessMode)
        ensures
            r.bits == VI_NO_LOCK,
    {
        AccessMode { bits: VI_NO_LOCK }
    }

    /// The exclusive-lock flag.
    pub fn exclusive_lock() -> (r: AccessMode)
        ensures
            r.bits == VI_EXCLUSIVE_LOCK,
    {
        AccessMode { bits: VI_EXCLUSIVE_LOCK }
    }

    /// The shared-lock flag.
    pub fn shared_lock() -> (r: AccessMode)
        ensures
            r.bits == VI_SHARED_LOCK,
    {
        AccessMode { bits: VI_SHARED_LOCK }
    }

    /// The load-configuration modifier flag.
    pub fn load_config() -> (r: AccessMode)
        ensures
            r.bits == VI_LOAD_CONFIG,
    {
        AccessMode { bits: VI_LOAD_CONFIG }
    }

    /// A set built from raw bits.
    pub fn from_bits(bits: u32) -> (r: AccessMode)
        ensures
            r.bits == bits,
    {
        AccessMode { bits }
    }

    /// The raw bits of the set.
    pub fn bits(&self) -> (r: u32)
        ensures
            r == self.bits,
    {
        self.bits
    }

    /// The union of the two sets.
    pub fn union(self, other: AccessMode) -> (r: AccessMode)
        ensures
            r.bits == self.bits | other.bits,
    {
        AccessMode { bits: self.bits | other.bits }
    }

    /// The intersection of the two sets.
    pub fn intersection(self, other: AccessMode) -> (r: AccessMode)
        ensures
            r.bits == self.bits & other.bits,
    {
        AccessMode { bits: self.bits & other.bits }
    }

    /// Whether every flag of `other` is present in `self`.
    pub fn contains(self, other: AccessMode) -> (r: bool)
        ensures
            r == (self.bits & other.bits == other.bits),
    {
        self.bits & other.bits == other.bits
    }

    /// Whether the set holds no flag at all.
    pub fn is_empty(self) -> (r: bool)
        ensures
            r == (self.bits == 0),
    {
        self.bits == 0
    }

    /// Whether the shared-lock flag is present.
    pub fn has_shared_lock(self) -> (r: bool)
        ensures
            r == spec_has_shared_lock(self),
    {
        proof {
            lemma_bit_and_2(self.bits);
        }
        self.bits & VI_SHARED_LOCK == VI_SHARED_LOCK
    }

    /// Whether the exclusive-lock flag is present.
    pub fn has_exclusive_lock(self) -> (r: bool)
        ensures
            r == spec_has_exclusive_lock(self),
    {
        proof {
            lemma_bit_and_1(self.bits);
        }
        self.bits & VI_EXCLUSIVE_LOCK == VI_EXCLUSIVE_LOCK
    }
}

/// Whether the shared-lock flag is present in `m`.
pub open spec fn spec_has_shared_lock(m: AccessMode) -> bool {
    m.bits & VI_SHARED_LOCK == VI_SHARED_LOCK
}

/// Whether the exclusive-lock flag is present in `m`.
pub open spec fn spec_has_exclusive_lock(m: AccessMode) -> bool {
    m.bits & VI_EXCLUSIVE_LOCK == VI_EXCLUSIVE_LOCK
}

proof fn lemma_bit_and_1(b: u32)
    ensures
        b & 1 == 1 || b & 1 == 0,
{
    assert(b & 1 == 1 || b & 1 == 0) by (bit_vector);
}

proof fn lemma_bit_and_2(b: u32)
    ensures
        b & 2 == 2 || b & 2 == 0,
{
    assert(b & 2 == 2 || b & 2 == 0) by (bit_vector);
}

/// The buffer-selection mask handed to a flush: which buffered data to force
/// out or discard.
#[derive(Clone, Copy, Debug, PartialEq, Eq, Structural)]
pub struct FlushMode {
    pub bits: u16,
}

impl FlushMode {
    /// The read-buffer flag.
    pub fn read_buf() -> (r: FlushMode)
        ensures
            r.bits == VI_READ_BUF,
    {
        FlushMode { bits: VI_READ_BUF }
    }

    /// The discard variant of the read-buffer flag.
    pub fn read_buf_discard() -> (r: FlushMode)
        ensures
            r.bits == VI_READ_BUF_DISCARD,
    {
        FlushMode { bits: VI_READ_BUF_DISCARD }
    }

    /// The write-buffer flag.
    pub fn write_buf() -> (r: FlushMode)
        ensures
            r.bits == VI_WRITE_BUF,
    {
        FlushMode { bits: VI_WRITE_BUF }
    }

    /// The discard variant of the write-buffer flag.
    pub fn write_buf_discard() -> (r: FlushMode)
        ensures
            r.bits == VI_WRITE_BUF_DISCARD,
    {
        FlushMode { bits: VI_WRITE_BUF_DISCARD }
    }

    /// The input driver-buffer flag.
    pub fn io_in_buf() -> (r: FlushMode)
        ensures
            r.bits == VI_IO_IN_BUF,
    {
        FlushMode { bits: VI_IO_IN_BUF }
    }

    /// The output driver-buffer flag.
    pub fn io_out_buf() -> (r: FlushMode)
        ensures
            r.bits == VI_IO_OUT_BUF,
    {
        FlushMode { bits: VI_IO_OUT_BUF }
    }

    /// The discard variant of the input driver-buffer flag.
    pub fn io_in_buf_discard() -> (r: FlushMode)
        ensures
            r.bits == VI_IO_IN_BUF_DISCARD,
    {
        FlushMode { bits: VI_IO_IN_BUF_DISCARD }
    }

    /// The discard variant of the output driver-buffer flag.
    pub fn io_out_buf_discard() -> (r: FlushMode)
        ensures
            r.bits == VI_IO_OUT_BUF_DISCARD,
    {
        FlushMode { bits: VI_IO_OUT_BUF_DISCARD }
    }

    /// A set built from raw bits.
    pub fn from_bits(bits: u16) -> (r: FlushMode)
        ensures
            r.bits == bits,
    {
        FlushMode { bits }
    }

    /// The raw bits of the set.
    pub fn bits(&self) -> (r: u16)
        ensures
            r == self.bits,
    {
        self.bits
    }

    /// The union of the two sets.
    pub fn union(self, other: FlushMode) -> (r: FlushMode)
        ensures
            r.bits == self.bits | other.bits,
    {
        FlushMode { bits: self.bits | other.bits }
    }

    /// Whether the set holds no flag at all.
    pub fn is_empty(self) -> (r: bool)
        ensures
            r == (self.bits == 0),
    {
        self.bits == 0
    }

    /// Whether a flush with this mask is asked to discard received,
    /// not-yet-read data.
    pub fn discards_read(self) -> (r: bool)
        ensures
            r == spec_discards_read(self),
    {
        proof {
            lemma_flush_bits(self.bits);
        }
        self.bits & (VI_READ_BUF_DISCARD | VI_IO_IN_BUF_DISCARD) != 0
    }

    /// Whether the mask names only known buffers.
    pub fn is_valid_mask(self) -> (r: bool)
        ensures
            r == spec_flush_mask_valid(self),
    {
        self.bits != 0 && self.bits & 255 == self.bits
    }
}

/// Whether a flush with mask `m` is asked to discard received data.
pub open spec fn spec_discards_read(m: FlushMode) -> bool {
    m.bits & (VI_READ_BUF_DISCARD | VI_IO_IN_BUF_DISCARD) != 0
}

/// Whether `m` names only known buffers, and at least one.
pub open spec fn spec_flush_mask_valid(m: FlushMode) -> bool {
    m.bits != 0 && m.bits & 255 == m.bits
}

proof fn lemma_flush_bits(b: u16)
    ensures
        (b & (VI_READ_BUF_DISCARD | VI_IO_IN_BUF_DISCARD) != 0) == (b & 68 != 0),
{
    assert(4u16 | 64u16 == 68) by (bit_vector);
}

} // verus!
