use bit_tally::carry_save::{tally_mod3, CarrySave};

const EXAMPLE: [usize; 8] = [11, 21, 3, 40, 17, 2, 8, 7];

fn count_at(nums: &[usize], i: u32) -> usize {
    nums.iter().filter(|&&x| (x >> i) & 1 == 1).count()
}

#[test]
fn carry_save_of_no_words_is_all_zero() {
    let r = tally_mod3(&[]);
    assert_eq!(r, CarrySave { low: 0, high: 0, third: 0 });
    assert_eq!(r, CarrySave::new());
}

#[test]
fn carry_save_of_the_example_sequence() {
    let r = tally_mod3(&EXAMPLE);
    assert_eq!(r.low, 0b101001);
    assert_eq!(r.high, 0b011100);
    assert_eq!(r.third, 0b000011);
}

#[test]
fn carry_save_of_the_example_sequence_bit_by_bit() {
    // Positions 0 to 6 are set in 5, 4, 2, 3, 2, 1 and 0 of the words.
    let r = tally_mod3(&EXAMPLE);
    let digits: [u8; 7] = [1, 0, 2, 3, 2, 1, 0];
    let wrapped: [bool; 7] = [true, true, false, false, false, false, false];
    for i in 0..7u32 {
        assert_eq!(r.digit(i), digits[i as usize]);
        assert_eq!(r.wrapped(i), wrapped[i as usize]);
    }
    for i in 7..usize::BITS {
        assert_eq!(r.digit(i), 0);
        assert!(!r.wrapped(i));
    }
}

#[test]
fn carry_save_after_each_prefix_of_the_example_sequence() {
    let expected: [(usize, usize, usize); 9] = [
        (0, 0, 0),
        (11, 0, 0),
        (30, 1, 0),
        (29, 3, 0),
        (53, 11, 0),
        (36, 26, 1),
        (38, 26, 1),
        (46, 26, 1),
        (41, 28, 3),
    ];
    for k in 0..=EXAMPLE.len() {
        let r = tally_mod3(&EXAMPLE[..k]);
        assert_eq!((r.low, r.high, r.third), expected[k]);
    }
}

#[test]
fn carry_save_step_rolls_the_carry_upwards() {
    let r = CarrySave { low: 0b0101, high: 0b0011, third: 0 }.step(0b0110);
    // carry = 0b0100, carry into third = 0
    assert_eq!(r, CarrySave { low: 0b0011, high: 0b0111, third: 0 });
    let r = CarrySave { low: 0b11, high: 0b11, third: 0b10 }.step(0b11);
    // both positions roll from three to four
    assert_eq!(r, CarrySave { low: 0, high: 0, third: 0b01 });
}

#[test]
fn carry_save_step_with_zero_changes_nothing() {
    let before = CarrySave { low: 41, high: 28, third: 3 };
    assert_eq!(before.step(0), before);
}

#[test]
fn carry_save_is_exact_while_no_position_is_set_more_than_twice() {
    let nums: [usize; 3] = [6, 3, 5];
    let r = tally_mod3(&nums);
    assert_eq!((r.low, r.high, r.third), (0, 7, 0));
    for i in 0..usize::BITS {
        assert!(count_at(&nums, i) <= 2);
        assert_eq!(r.digit(i) as usize, count_at(&nums, i));
    }
    for k in 0..=nums.len() {
        let p = tally_mod3(&nums[..k]);
        for i in 0..usize::BITS {
            assert_eq!(p.digit(i) as usize, count_at(&nums[..k], i));
        }
    }
}

#[test]
fn carry_save_reads_three_after_the_third_occurrence() {
    let r = tally_mod3(&[1, 1, 1]);
    assert_eq!((r.low, r.high, r.third), (1, 1, 0));
    assert_eq!(r.digit(0), 3);
    assert!(!r.wrapped(0));

    let r = tally_mod3(&[5, 5, 5]);
    assert_eq!((r.low, r.high, r.third), (5, 5, 0));
    assert_eq!(r.digit(0), 3);
    assert_eq!(r.digit(1), 0);
    assert_eq!(r.digit(2), 3);
}

#[test]
fn carry_save_returns_to_zero_after_the_fourth_occurrence() {
    let r = tally_mod3(&[1, 1, 1, 1]);
    assert_eq!((r.low, r.high, r.third), (0, 0, 1));
    assert_eq!(r.digit(0), 0);
    assert!(r.wrapped(0));
}

#[test]
fn carry_save_counts_every_position_of_a_full_word() {
    let m = usize::MAX;
    let expected: [(usize, usize, usize); 9] = [
        (0, 0, 0),
        (m, 0, 0),
        (0, m, 0),
        (m, m, 0),
        (0, 0, m),
        (m, 0, m),
        (0, m, m),
        (m, m, m),
        (0, 0, 0),
    ];
    let nums = [m; 8];
    for k in 0..=8 {
        let r = tally_mod3(&nums[..k]);
        assert_eq!((r.low, r.high, r.third), expected[k]);
    }
}

#[test]
fn carry_save_digit_is_the_count_modulo_four() {
    let nums: [usize; 11] = [
        0x9e3779b9, 0x7f4a7c15, 0xf39cc060, 0x5cedc834, 0x1082276b, 0xf3a95027, 0x8c6d2b3e,
        0xffffffff, 0x00000001, 0x80000000, 0x12345678,
    ];
    let r = tally_mod3(&nums);
    for i in 0..usize::BITS {
        let n = count_at(&nums, i);
        assert_eq!(r.digit(i) as usize, n % 4);
        assert_eq!(r.wrapped(i), n % 8 >= 4);
    }
}

#[test]
fn carry_save_digit_beyond_the_word_is_zero() {
    let r = tally_mod3(&[usize::MAX; 3]);
    assert_eq!(r.digit(usize::BITS - 1), 3);
    assert_eq!(r.digit(usize::BITS), 0);
    assert!(!r.wrapped(usize::BITS));
}

#[test]
fn carry_save_does_not_depend_on_the_order_of_the_words() {
    let forwards = tally_mod3(&EXAMPLE);
    let mut reversed = EXAMPLE;
    reversed.reverse();
    assert_eq!(tally_mod3(&reversed), forwards);
}
