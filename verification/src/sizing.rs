//! How much memory a compressed file may need, and when ZIP64 headers are
//! required.
use vstd::prelude::*;

verus! {

/// Files up to this size (64 MiB) may be compressed in memory by a worker.
pub const MAX_PARALLEL_FILE_SIZE: u64 = 67108864;

/// Room reserved for ZIP headers on top of the compressed data (64 KiB).
pub const ZIP_HEADER_ALLOWANCE: u64 = 65536;

/// The largest size that fits in a classic (non-ZIP64) header field.
pub const ZIP32_LIMIT: u64 = 4294967295;

/// The bytes reserved for compressing a file of `file_size` bytes: the file
/// size, one percent more for incompressible input, and the header allowance,
/// capped at `u64::MAX`.
pub open spec fn reservation(file_size: nat) -> nat {
    let wanted = file_size + file_size / 100 + ZIP_HEADER_ALLOWANCE as nat;
    if wanted > u64::MAX {
        u64::MAX as nat
    } else {
        wanted
    }
}

/// Buffer capacity to reserve for compressing a file of `file_size` bytes.
/// Raw deflate can be slightly larger than incompressible input, so the buffer
/// holds one percent more than the file plus room for the ZIP headers; the
/// buffer never needs to grow beyond this permit.
pub fn buffer_reservation(file_size: u64) -> (r: u64)
    ensures
        r as nat == reservation(file_size as nat),
{
    file_size.saturating_add(file_size / 100).saturating_add(ZIP_HEADER_ALLOWANCE)
}

/// Whether a file of `file_size` bytes must be written with ZIP64 headers:
/// its compressed form may exceed what a 32-bit field can hold. This must be
/// decided before the local file header is written.
pub fn zip64_required(file_size: u64) -> (r: bool)
    ensures
        r == (reservation(file_size as nat) > ZIP32_LIMIT as nat),
{
    buffer_reservation(file_size) > ZIP32_LIMIT
}

/// The reservation always covers the whole file plus the header allowance
/// (short of the `u64` cap), so a worker's buffer never has to grow.
pub proof fn lemma_reservation_covers_file(file_size: nat)
    requires
        file_size <= u64::MAX,
    ensures
        reservation(file_size) >= file_size,
        file_size + file_size / 100 + ZIP_HEADER_ALLOWANCE as nat <= u64::MAX ==> reservation(
            file_size,
        ) == file_size + file_size / 100 + ZIP_HEADER_ALLOWANCE as nat,
{
}

/// The reservation in raw numbers: the size, plus one percent of it (rounded
/// down), plus 64 KiB, capped at `u64::MAX`; and ZIP64 is chosen exactly when
/// that exceeds `u32::MAX`.
pub proof fn lemma_reservation_in_numbers(file_size: nat)
    ensures
        reservation(file_size) == if file_size + file_size / 100 + 65536 > 18446744073709551615 {
            18446744073709551615
        } else {
            file_size + file_size / 100 + 65536
        },
        (reservation(file_size) > ZIP32_LIMIT as nat) == (reservation(file_size) > 4294967295),
{
}

/// A larger file never gets a smaller reservation.
pub proof fn lemma_reservation_monotonic(a: nat, b: nat)
    requires
        a <= b,
    ensures
        reservation(a) <= reservation(b),
{
    assert(a / 100 <= b / 100) by (nonlinear_arith)
        requires
            a <= b,
    ;
}

/// ZIP64 is selected for every file whose size alone reaches the 32-bit
/// limit, and once selected for a size it is selected for every larger size.
pub proof fn lemma_zip64_before_32_bit_limit(a: nat, b: nat)
    requires
        a <= b,
    ensures
        a >= ZIP32_LIMIT ==> reservation(a) > ZIP32_LIMIT,
        reservation(a) > ZIP32_LIMIT ==> reservation(b) > ZIP32_LIMIT,
{
    lemma_reservation_monotonic(a, b);
}

} // verus!
