//! Sector arithmetic: conversions between byte counts and whole-sector
//! counts, and the length of the zero padding that rounds a payload up to a
//! sector boundary.

use vstd::prelude::*;

verus! {

/// Number of whole sectors needed to hold `bytes` bytes: `ceil(bytes / 2048)`.
pub open spec fn spec_sectors(bytes: nat) -> nat {
    (bytes + 2047) / 2048
}

/// Number of zero bytes that pad a `bytes`-byte payload out to
/// `spec_sectors(bytes)` whole sectors.
pub open spec fn spec_padding(bytes: nat) -> nat {
    (spec_sectors(bytes) * 2048 - bytes) as nat
}

/// Ceiling division rounds up by less than one whole sector.
pub proof fn lemma_sectors_bounds(bytes: nat)
    ensures
        bytes <= spec_sectors(bytes) * 2048,
        spec_sectors(bytes) * 2048 < bytes + 2048,
        bytes % 2048 == 0 ==> spec_sectors(bytes) * 2048 == bytes,
{
    assert(bytes <= ((bytes + 2047) / 2048) * 2048 < bytes + 2048 && (bytes % 2048 == 0
        ==> ((bytes + 2047) / 2048) * 2048 == bytes)) by (nonlinear_arith);
}

/// Converts a sector count to a byte count.
pub fn sectors_to_bytes(sectors: u64) -> (bytes: u64)
    requires
        sectors * 2048 <= u64::MAX,
    ensures
        bytes == sectors * 2048,
{
    sectors * 2048
}

/// Converts a byte count to the number of whole sectors it occupies,
/// rounding a final partial sector up.
pub fn bytes_to_sectors(bytes: u64) -> (sectors: u64)
    ensures
        sectors == spec_sectors(bytes as nat),
{
    let whole = bytes / 2048;
    let sectors = if bytes % 2048 != 0 {
        whole + 1
    } else {
        whole
    };
    proof {
        lemma_div_ceil(bytes as nat);
    }
    sectors
}

/// The number of zero bytes needed to pad `bytes` payload bytes out to
/// `sectors` whole sectors, saturating at zero rather than going negative.
pub fn padding_len(sectors: u64, bytes: u64) -> (r: u64)
    requires
        sectors * 2048 <= u64::MAX,
    ensures
        r == if sectors * 2048 >= bytes {
            sectors * 2048 - bytes
        } else {
            0int
        },
{
    let total = sectors * 2048;
    if total >= bytes {
        total - bytes
    } else {
        0
    }
}

/// Splitting ceiling division into quotient and a round-up bit.
proof fn lemma_div_ceil(bytes: nat)
    ensures
        spec_sectors(bytes) == bytes / 2048 + if bytes % 2048 != 0 {
            1nat
        } else {
            0nat
        },
{
    assert((bytes + 2047) / 2048 == bytes / 2048 + if bytes % 2048 != 0 {
        1nat
    } else {
        0nat
    }) by (nonlinear_arith);
}

} // verus!
