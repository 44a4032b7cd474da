use virtual_texture::foundation::{alignment, next_highest_power_of_two, Range};

#[test]
pub fn next_highest_power_of_two_test() {
    assert_eq!(next_highest_power_of_two(418), 512);
}

#[test]
pub fn alignment_test() {
    assert_eq!(alignment(418, 4), 420);
}

#[test]
fn next_highest_power_of_two_edge_cases() {
    assert_eq!(next_highest_power_of_two(0), 0);
    assert_eq!(next_highest_power_of_two(-7), 0);
    assert_eq!(next_highest_power_of_two(1), 1);
    assert_eq!(next_highest_power_of_two(2), 2);
    assert_eq!(next_highest_power_of_two(3), 4);
    assert_eq!(next_highest_power_of_two(1024), 1024);
    assert_eq!(next_highest_power_of_two(1025), 2048);
}

#[test]
fn alignment_multiples() {
    assert_eq!(alignment(0, 8), 0);
    assert_eq!(alignment(1, 8), 8);
    assert_eq!(alignment(8, 8), 8);
    assert_eq!(alignment(9, 8), 16);
    assert_eq!(alignment(255, 256), 256);
}

#[test]
fn range_to_std_range() {
    let r = Range::<u32> { start: 3, end: 9 };
    let s = r.to_std_range();
    assert_eq!(s.start, 3);
    assert_eq!(s.end, 9);
    assert_eq!(s.len(), 6);
}
