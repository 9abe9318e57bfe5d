use micromayhem::sequence::{diff, is_more_recent, update_on_receive};

#[test]
fn diff_wraps_around() {
    assert_eq!(diff(3, 0), 3);
    assert_eq!(diff(2, 65535), 3);
    assert_eq!(diff(1, 65534), 3);
    assert_eq!(diff(0, 1), 65535);
}

#[test]
fn recency_across_wraparound() {
    assert!(is_more_recent(2, 65535));
    assert!(!is_more_recent(65535, 2));
    assert!(is_more_recent(15, 3));
    assert!(!is_more_recent(3, 15));
    assert!(!is_more_recent(7, 7));
}

#[test]
fn recency_is_antisymmetric_on_samples() {
    let samples: [u16; 8] = [0, 1, 100, 16384, 32767, 40000, 65534, 65535];
    for &a in samples.iter() {
        for &b in samples.iter() {
            if a != b && diff(a, b) != 32768 {
                assert_eq!(is_more_recent(a, b), !is_more_recent(b, a));
            }
        }
    }
}

#[test]
fn recency_at_half_range_boundary() {
    assert!(is_more_recent(32768, 0));
    assert!(!is_more_recent(0, 32768));
    assert!(is_more_recent(32769, 1));
    assert!(!is_more_recent(1, 32769));
}

#[test]
fn ack_bitfield_update_scenario() {
    let (ack, bitfield) = update_on_receive(10, 0, 12);
    assert_eq!(ack, 12);
    assert_eq!(bitfield, 0b10);
    let (ack, bitfield) = update_on_receive(ack, bitfield, 11);
    assert_eq!(ack, 12);
    assert_eq!(bitfield, 0b11);
}

#[test]
fn ack_gap_of_32_keeps_only_previous_ack() {
    assert_eq!(update_on_receive(0, 1, 32), (32, 1 << 31));
}

#[test]
fn ack_gap_beyond_32_clears_bitfield() {
    assert_eq!(update_on_receive(0, u32::MAX, 40), (40, 0));
}

#[test]
fn ack_old_packet_beyond_32_is_ignored() {
    assert_eq!(update_on_receive(100, 5, 60), (100, 5));
}

#[test]
fn ack_duplicate_changes_nothing() {
    assert_eq!(update_on_receive(9, 0b101, 9), (9, 0b101));
}

#[test]
fn ack_update_across_wraparound() {
    assert_eq!(update_on_receive(65535, 0, 1), (1, 0b10));
}
