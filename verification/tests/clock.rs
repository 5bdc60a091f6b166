use dndsound::clock::{milliseconds, nanoseconds};

#[test]
fn a_clock_reading_converts_to_milliseconds_and_nanoseconds() {
    assert_eq!(milliseconds(1_700_000_000, 123_456_789), 1_700_000_000_123);
    assert_eq!(nanoseconds(1_700_000_000, 123_456_789), 1_700_000_000_123_456_789);
    assert_eq!(milliseconds(0, 999_999), 0);
    // Readings far beyond the 64-bit range keep their low bits.
    assert_eq!(nanoseconds(u64::MAX, 5), u64::MAX.wrapping_mul(1_000_000_000).wrapping_add(5));
}
