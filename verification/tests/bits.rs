use bit_tally::bits::test_bit;

#[test]
fn test_bit_reads_each_position_of_a_word() {
    // 40 = 0b101000
    assert!(!test_bit(40, 0));
    assert!(!test_bit(40, 1));
    assert!(!test_bit(40, 2));
    assert!(test_bit(40, 3));
    assert!(!test_bit(40, 4));
    assert!(test_bit(40, 5));
    assert!(!test_bit(40, 6));
}

#[test]
fn test_bit_of_zero_is_never_set() {
    for i in 0..usize::BITS {
        assert!(!test_bit(0, i));
    }
}

#[test]
fn test_bit_of_all_ones_is_set_inside_the_word() {
    for i in 0..usize::BITS {
        assert!(test_bit(usize::MAX, i));
    }
}

#[test]
fn test_bit_beyond_the_word_is_clear() {
    assert!(!test_bit(usize::MAX, usize::BITS));
    assert!(!test_bit(usize::MAX, usize::BITS + 1));
    assert!(!test_bit(usize::MAX, u32::MAX));
}

#[test]
fn test_bit_reads_the_top_position() {
    let top: usize = 1 << (usize::BITS - 1);
    assert!(test_bit(top, usize::BITS - 1));
    assert!(!test_bit(top, usize::BITS - 2));
    assert!(!test_bit(top, 0));
}
