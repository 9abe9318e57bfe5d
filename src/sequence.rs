//! Wraparound-safe arithmetic on 16-bit sequence numbers and the
//! acknowledgement-bitfield update rule.
use vstd::prelude::*;

verus! {

/// Half of the sequence space: two sequence numbers whose distance is at most
/// this much are ordered by plain comparison.
pub const HALF_RANGE: u16 = 32768;

/// `newer` is more recent than `older`, allowing for wraparound past 65535.
pub open spec fn more_recent(newer: u16, older: u16) -> bool {
    (newer > older && newer - older <= HALF_RANGE) || (newer < older && older - newer
        > HALF_RANGE)
}

/// The forward distance from `older` to `newer`, modulo 2^16.
pub open spec fn seq_diff(newer: u16, older: u16) -> u16 {
    ((newer as int - older as int + 65536) % 65536) as u16
}

/// Returns whether `a` is more recent than `b` under wraparound.
pub fn is_more_recent(a: u16, b: u16) -> (r: bool)
    ensures
        r == more_recent(a, b),
{
    (a > b && a - b <= HALF_RANGE) || (a < b && b - a > HALF_RANGE)
}

/// The wraparound-aware distance `newer - older`.
pub fn diff(newer: u16, older: u16) -> (r: u16)
    ensures
        r == seq_diff(newer, older),
        r as int == if newer >= older { newer - older } else { newer + 65536 - older },
{
    newer.wrapping_sub(older)
}

/// Width of the acknowledgement bitfield in bits.
pub const BITFIELD_WIDTH: u16 = 32;

/// The bitfield after recording, under acknowledgement `ack`, a packet whose
/// sequence number lies `gap` steps behind `ack` (`1 <= gap <= 32`).
pub open spec fn with_bit(bitfield: u32, gap: u16) -> u32 {
    if 1 <= gap <= BITFIELD_WIDTH {
        bitfield | (1u32 << ((gap - 1) as u32))
    } else {
        bitfield
    }
}

/// `bitfield` moved `gap` places towards the high end: a gap of 32 or more
/// leaves nothing of it.
pub open spec fn shifted(bitfield: u32, gap: u16) -> u32 {
    if gap >= BITFIELD_WIDTH {
        0
    } else {
        bitfield << (gap as u32)
    }
}

/// The acknowledgement state `(ack, bitfield)` after receiving `incoming`.
pub open spec fn updated_ack(ack: u16, bitfield: u32, incoming: u16) -> (u16, u32) {
    if more_recent(incoming, ack) {
        let gap = seq_diff(incoming, ack);
        (incoming, with_bit(shifted(bitfield, gap), gap))
    } else {
        (ack, with_bit(bitfield, seq_diff(ack, incoming)))
    }
}

/// Whether bit `n` of `bitfield` is set.
pub open spec fn bit_set(bitfield: u32, n: u32) -> bool {
    n < 32 && bitfield & (1u32 << n) != 0
}

/// Records the receipt of the packet with sequence number `incoming` in the
/// acknowledgement state `(ack, bitfield)`, where bit `n` of the bitfield
/// stands for sequence number `ack - (n + 1)`.
///
/// A more recent packet becomes the new `ack`: the bitfield moves up by the
/// gap and the old `ack` is recorded behind it. An older packet only sets its
/// own bit, when it lies at most 32 steps behind.
pub fn update_on_receive(ack: u16, bitfield: u32, incoming: u16) -> (r: (u16, u32))
    ensures
        r == updated_ack(ack, bitfield, incoming),
{
    if is_more_recent(incoming, ack) {
        let gap = diff(incoming, ack);
        let moved: u32 = if gap >= BITFIELD_WIDTH {
            0
        } else {
            bitfield << (gap as u32)
        };
        (incoming, set_gap_bit(moved, gap))
    } else {
        let gap = diff(ack, incoming);
        (ack, set_gap_bit(bitfield, gap))
    }
}

/// Sets the bit for a packet `gap` steps behind the acknowledgement, if the
/// bitfield reaches that far.
fn set_gap_bit(bitfield: u32, gap: u16) -> (r: u32)
    ensures
        r == with_bit(bitfield, gap),
{
    if 1 <= gap && gap <= BITFIELD_WIDTH {
        bitfield | (1u32 << ((gap - 1) as u32))
    } else {
        bitfield
    }
}

/// Of two distinct sequence numbers that are not exactly half the sequence
/// space apart, exactly one is more recent than the other.
pub proof fn lemma_recency_antisymmetric(a: u16, b: u16)
    requires
        a != b,
        seq_diff(a, b) != HALF_RANGE,
    ensures
        more_recent(a, b) == !more_recent(b, a),
{
}

/// Receiving a packet that is more recent than the acknowledgement makes it
/// the acknowledgement and records the previous one at bit `gap - 1`, when
/// the gap is at most 32.
pub proof fn lemma_newer_records_previous_ack(ack: u16, bitfield: u32, incoming: u16)
    requires
        more_recent(incoming, ack),
        seq_diff(incoming, ack) <= BITFIELD_WIDTH,
    ensures
        updated_ack(ack, bitfield, incoming).0 == incoming,
        bit_set(updated_ack(ack, bitfield, incoming).1, (seq_diff(incoming, ack) - 1) as u32),
{
    let gap = seq_diff(incoming, ack);
    let n = (gap - 1) as u32;
    let s = shifted(bitfield, gap);
    assert(n < 32);
    assert((s | (1u32 << n)) & (1u32 << n) != 0) by (bit_vector)
        requires
            n < 32,
    ;
}

/// Receiving a packet that lies 1 to 32 steps behind the acknowledgement keeps
/// the acknowledgement, sets that packet's bit and keeps every other bit.
pub proof fn lemma_older_sets_own_bit(ack: u16, bitfield: u32, incoming: u16)
    requires
        !more_recent(incoming, ack),
        1 <= seq_diff(ack, incoming) <= BITFIELD_WIDTH,
    ensures
        updated_ack(ack, bitfield, incoming).0 == ack,
        bit_set(updated_ack(ack, bitfield, incoming).1, (seq_diff(ack, incoming) - 1) as u32),
        forall|m: u32|
            m != (seq_diff(ack, incoming) - 1) as u32 ==> (#[trigger] bit_set(
                updated_ack(ack, bitfield, incoming).1,
                m,
            ) == bit_set(bitfield, m)),
{
    let n = (seq_diff(ack, incoming) - 1) as u32;
    assert(n < 32);
    assert((bitfield | (1u32 << n)) & (1u32 << n) != 0) by (bit_vector)
        requires
            n < 32,
    ;
    assert forall|m: u32| m != n implies #[trigger] bit_set(
        updated_ack(ack, bitfield, incoming).1,
        m,
    ) == bit_set(bitfield, m) by {
        assert(m < 32 ==> ((bitfield | (1u32 << n)) & (1u32 << m) != 0) == (bitfield & (1u32
            << m) != 0)) by (bit_vector)
            requires
                n < 32,
                m != n,
        ;
    }
}

} // verus!
