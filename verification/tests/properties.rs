use mixed_radix_counter::{InvalidValues, MixedRadixCounter};
use std::cmp::Ordering;

fn decimal(limits: &[u8], digits: &[u8]) -> usize {
    let mut number = 0;
    for k in 0..digits.len() {
        number = number * limits[k] as usize + digits[k] as usize;
    }
    number
}

#[test]
fn digits_stay_below_limits_along_mixed_calls() {
    let limits = [3_u8, 5, 2, 7];
    let mut counter = MixedRadixCounter::try_from_limits(limits).unwrap();
    for round in 0..500_u32 {
        if round % 3 == 0 {
            counter.increment();
        } else {
            counter.add((round % 256) as u8);
        }
        for k in 0..4 {
            assert!(counter[k] < limits[k]);
        }
    }
}

#[test]
fn construction_keeps_valid_elements() {
    let counter = MixedRadixCounter::try_from_limits_and_elements([2_u8, 3, 4], [1, 2, 3]).unwrap();
    assert_eq!(*counter, [1, 2, 3]);
}

#[test]
fn construction_rejects_element_equal_to_limit() {
    let result = MixedRadixCounter::try_from_limits_and_elements([2_u8, 3, 4], [1, 3, 0]);
    assert_eq!(result.unwrap_err(), InvalidValues);
}

#[test]
fn construction_rejects_element_above_limit() {
    let result = MixedRadixCounter::try_from_limits_and_elements([2_u16, 3, 4], [0, 0, 9]);
    assert_eq!(result.unwrap_err(), InvalidValues);
}

#[test]
fn construction_rejects_violation_at_first_index() {
    let result = MixedRadixCounter::try_from_limits_and_elements([2_u32, 3], [2, 0]);
    assert!(matches!(result, Err(InvalidValues)));
}

#[test]
fn construction_rejects_zero_limit() {
    assert!(matches!(MixedRadixCounter::try_from_limits([2_u8, 0, 4]), Err(InvalidValues)));
    assert!(
        matches!(
            MixedRadixCounter::try_from_limits_and_elements([2_u8, 0, 4], [0, 0, 0]),
            Err(InvalidValues)
        )
    );
}

#[test]
fn construction_from_limits_starts_at_zero() {
    let counter = MixedRadixCounter::try_from_limits([7_u64, 1, 9]).unwrap();
    assert_eq!(*counter, [0, 0, 0]);
}

#[test]
fn try_from_builds_the_counter_at_zero() {
    let counter = MixedRadixCounter::try_from([2_u8, 3]).unwrap();
    assert_eq!(*counter, [0, 0]);
    assert_eq!(counter, MixedRadixCounter::try_from_limits([2_u8, 3]).unwrap());
    assert!(matches!(MixedRadixCounter::try_from([2_u8, 0]), Err(InvalidValues)));
}

#[test]
fn increments_match_one_add() {
    let limits = [3_u8, 4, 5];
    for first in 0..60_u8 {
        let mut start = MixedRadixCounter::try_from_limits(limits).unwrap();
        assert_eq!(start.add(first), None);
        for n in 0..=255_u8 {
            let mut stepped = start.clone();
            let mut overflows = 0_u8;
            for _ in 0..n {
                if let Some(one) = stepped.increment() {
                    assert_eq!(one, 1);
                    overflows += 1;
                }
            }
            let mut added = start.clone();
            let overflow = added.add(n);
            assert_eq!(*stepped, *added);
            assert_eq!(overflow.unwrap_or(0), overflows);
            assert_eq!(overflow.is_some(), overflows > 0);
        }
    }
}

#[test]
fn add_gives_sum_modulo_capacity_and_quotient() {
    let limits = [3_u8, 4, 5];
    for first in 0..60_usize {
        for n in 0..=255_usize {
            let mut counter = MixedRadixCounter::try_from_limits(limits).unwrap();
            counter.add(first as u8);
            assert_eq!(decimal(&limits, &*counter), first);
            let overflow = counter.add(n as u8);
            assert_eq!(decimal(&limits, &*counter), (first + n) % 60);
            assert_eq!(overflow.unwrap_or(0) as usize, (first + n) / 60);
        }
    }
}

#[test]
fn capacity_many_increments_return_to_zero() {
    let mut counter = MixedRadixCounter::try_from_limits([2_u8, 4, 3]).unwrap();
    for _ in 0..23 {
        assert_eq!(counter.increment(), None);
        assert_ne!(*counter, [0, 0, 0]);
    }
    assert_eq!(*counter, [1, 3, 2]);
    assert_eq!(counter.increment(), Some(1));
    assert_eq!(*counter, [0, 0, 0]);
}

#[test]
fn single_binary_digit_add() {
    let mut counter = MixedRadixCounter::try_from_limits([2_u8]).unwrap();
    assert_eq!(counter.add(3), Some(1));
    assert_eq!(*counter, [1]);

    let mut counter = MixedRadixCounter::try_from_limits([2_u8]).unwrap();
    assert_eq!(counter.add(4), Some(2));
    assert_eq!(*counter, [0]);
}

#[test]
fn two_binary_digits_add() {
    let mut counter = MixedRadixCounter::try_from_limits([2_u8, 2]).unwrap();
    assert_eq!(counter.add(9), Some(2));
    assert_eq!(*counter, [0, 1]);

    let mut counter = MixedRadixCounter::try_from_limits([2_u8, 2]).unwrap();
    assert_eq!(counter.add(240), Some(60));
    assert_eq!(*counter, [0, 0]);
}

#[test]
fn odometer_add_reports_no_overflow() {
    let mut counter =
        MixedRadixCounter::try_from_limits([u64::MAX, 365, 24, 60, 60, 1000]).unwrap();
    assert_eq!(counter.add(69_413_798), None);
    assert_eq!(*counter, [0, 0, 19, 16, 53, 798]);
}

#[test]
fn decimal_counter_shows_what_was_added() {
    for i in 0..10_000_u16 {
        let mut counter = MixedRadixCounter::try_from_limits([10_u16, 10, 10, 10]).unwrap();
        assert_eq!(counter.add(i), None);
        let number = counter.iter().fold(0, |acc, &x| acc * 10 + x);
        assert_eq!(number, i);
    }
}

#[test]
fn reading_does_not_change_the_counter() {
    let mut read = MixedRadixCounter::try_from_limits_and_elements([4_u8, 3], [2, 2]).unwrap();
    let mut unread = read.clone();
    let first = *read;
    let second = *read;
    assert_eq!(first, [2, 2]);
    assert_eq!(first, second);
    assert_eq!(read[0], 2);
    assert_eq!(read.len(), 2);
    assert_eq!(read, unread);
    assert_eq!(read.increment(), unread.increment());
    assert_eq!(*read, *unread);
    assert_eq!(*read, [3, 0]);
    assert_eq!(read.add(7), unread.add(7));
    assert_eq!(*read, *unread);
}

#[test]
fn add_of_zero_changes_nothing() {
    let mut counter = MixedRadixCounter::try_from_limits_and_elements([4_u8, 3], [3, 2]).unwrap();
    assert_eq!(counter.add(0), None);
    assert_eq!(*counter, [3, 2]);
}

#[test]
fn add_stops_where_the_carry_ends() {
    let mut counter =
        MixedRadixCounter::try_from_limits_and_elements([9_u8, 9, 10, 10], [8, 7, 9, 5]).unwrap();
    assert_eq!(counter.add(7), None);
    assert_eq!(*counter, [8, 8, 0, 2]);
    assert_eq!(counter.add(7), None);
    assert_eq!(*counter, [8, 8, 0, 9]);
    assert_eq!(counter.add(1), None);
    assert_eq!(*counter, [8, 8, 1, 0]);
    assert_eq!(counter.add(89), None);
    assert_eq!(*counter, [8, 8, 9, 9]);
    assert_eq!(counter.add(1), Some(1));
    assert_eq!(*counter, [0, 0, 0, 0]);
}

#[test]
fn counter_without_digits() {
    let mut counter = MixedRadixCounter::<u8, 0>::try_from_limits([]).unwrap();
    assert_eq!(counter.increment(), Some(1));
    assert_eq!(counter.increment(), Some(1));
    assert_eq!(counter.add(5), None);
    assert_eq!(counter.add(0), None);
    assert_eq!(counter.len(), 0);
}

#[test]
fn digits_with_limit_one_never_move() {
    let mut counter = MixedRadixCounter::try_from_limits([1_u8, 1]).unwrap();
    assert_eq!(counter.increment(), Some(1));
    assert_eq!(*counter, [0, 0]);
    assert_eq!(counter.add(7), Some(7));
    assert_eq!(*counter, [0, 0]);
    assert_eq!(counter.add(0), None);
}

#[test]
fn add_is_exact_where_digit_plus_carry_exceeds_the_type() {
    let mut counter =
        MixedRadixCounter::try_from_limits_and_elements([200_u8, 255], [199, 254]).unwrap();
    assert_eq!(counter.add(255), Some(1));
    assert_eq!(*counter, [0, 254]);

    let mut counter = MixedRadixCounter::try_from_limits_and_elements([255_u8], [254]).unwrap();
    assert_eq!(counter.add(255), Some(1));
    assert_eq!(*counter, [254]);

    let mut counter =
        MixedRadixCounter::try_from_limits_and_elements([u64::MAX], [u64::MAX - 1]).unwrap();
    assert_eq!(counter.add(u64::MAX), Some(1));
    assert_eq!(*counter, [u64::MAX - 1]);

    let mut counter =
        MixedRadixCounter::try_from_limits_and_elements([3_u8, 200], [2, 150]).unwrap();
    assert_eq!(counter.add(250), Some(1));
    assert_eq!(*counter, [1, 0]);
}

#[test]
fn increment_at_the_largest_limit() {
    let mut counter =
        MixedRadixCounter::try_from_limits_and_elements([u8::MAX, u8::MAX], [0, 254]).unwrap();
    assert_eq!(counter.increment(), None);
    assert_eq!(*counter, [1, 0]);

    let mut counter =
        MixedRadixCounter::try_from_limits_and_elements([u8::MAX, u8::MAX], [254, 254]).unwrap();
    assert_eq!(counter.increment(), Some(1));
    assert_eq!(*counter, [0, 0]);
}

#[test]
fn digits_of_u8() {
    let mut counter = MixedRadixCounter::try_from_limits([2_u8, 2]).unwrap();
    assert_eq!(*counter, [0_u8, 0]);
    assert_eq!(counter.increment(), None);
    assert_eq!(*counter, [0_u8, 1]);
    assert_eq!(counter.add(3), Some(1_u8));
    assert_eq!(*counter, [0_u8, 0]);
    assert_eq!(counter.add(7), Some(1_u8));
    assert_eq!(*counter, [1_u8, 1]);
    assert_eq!(counter.increment(), Some(1_u8));
}

#[test]
fn digits_of_u16() {
    let mut counter = MixedRadixCounter::try_from_limits([2_u16, 2]).unwrap();
    assert_eq!(*counter, [0_u16, 0]);
    assert_eq!(counter.increment(), None);
    assert_eq!(*counter, [0_u16, 1]);
    assert_eq!(counter.add(3), Some(1_u16));
    assert_eq!(*counter, [0_u16, 0]);
    assert_eq!(counter.add(7), Some(1_u16));
    assert_eq!(*counter, [1_u16, 1]);
    assert_eq!(counter.increment(), Some(1_u16));
}

#[test]
fn digits_of_u32() {
    let mut counter = MixedRadixCounter::try_from_limits([2_u32, 2]).unwrap();
    assert_eq!(*counter, [0_u32, 0]);
    assert_eq!(counter.increment(), None);
    assert_eq!(*counter, [0_u32, 1]);
    assert_eq!(counter.add(3), Some(1_u32));
    assert_eq!(*counter, [0_u32, 0]);
    assert_eq!(counter.add(7), Some(1_u32));
    assert_eq!(*counter, [1_u32, 1]);
    assert_eq!(counter.increment(), Some(1_u32));
}

#[test]
fn digits_of_u64() {
    let mut counter = MixedRadixCounter::try_from_limits([2_u64, 2]).unwrap();
    assert_eq!(*counter, [0_u64, 0]);
    assert_eq!(counter.increment(), None);
    assert_eq!(*counter, [0_u64, 1]);
    assert_eq!(counter.add(3), Some(1_u64));
    assert_eq!(*counter, [0_u64, 0]);
    assert_eq!(counter.add(7), Some(1_u64));
    assert_eq!(*counter, [1_u64, 1]);
    assert_eq!(counter.increment(), Some(1_u64));
}

#[test]
fn digits_of_u128() {
    let mut counter = MixedRadixCounter::try_from_limits([2_u128, 2]).unwrap();
    assert_eq!(*counter, [0_u128, 0]);
    assert_eq!(counter.increment(), None);
    assert_eq!(*counter, [0_u128, 1]);
    assert_eq!(counter.add(3), Some(1_u128));
    assert_eq!(*counter, [0_u128, 0]);
    assert_eq!(counter.add(7), Some(1_u128));
    assert_eq!(*counter, [1_u128, 1]);
    assert_eq!(counter.increment(), Some(1_u128));
}

#[test]
fn digits_of_usize() {
    let mut counter = MixedRadixCounter::try_from_limits([2_usize, 2]).unwrap();
    assert_eq!(*counter, [0_usize, 0]);
    assert_eq!(counter.increment(), None);
    assert_eq!(*counter, [0_usize, 1]);
    assert_eq!(counter.add(3), Some(1_usize));
    assert_eq!(*counter, [0_usize, 0]);
    assert_eq!(counter.add(7), Some(1_usize));
    assert_eq!(*counter, [1_usize, 1]);
    assert_eq!(counter.increment(), Some(1_usize));
}

#[test]
fn clone_is_equal_and_independent() {
    let mut counter = MixedRadixCounter::try_from_limits_and_elements([4_u8, 3], [1, 2]).unwrap();
    let copy = counter.clone();
    assert_eq!(counter, copy);
    counter.increment();
    assert_ne!(counter, copy);
    assert_eq!(*copy, [1, 2]);
    assert_eq!(*counter, [2, 0]);
}

#[test]
fn equality_looks_at_digits_and_limits() {
    let a = MixedRadixCounter::try_from_limits_and_elements([4_u8, 3], [1, 2]).unwrap();
    let same = MixedRadixCounter::try_from_limits_and_elements([4_u8, 3], [1, 2]).unwrap();
    let other_digits = MixedRadixCounter::try_from_limits_and_elements([4_u8, 3], [1, 1]).unwrap();
    let other_limits = MixedRadixCounter::try_from_limits_and_elements([4_u8, 5], [1, 2]).unwrap();
    assert!(a == same);
    assert!(a != other_digits);
    assert!(a != other_limits);
}

#[test]
fn order_is_by_digits_then_by_limits() {
    let low = MixedRadixCounter::try_from_limits_and_elements([9_u8, 9], [0, 8]).unwrap();
    let high = MixedRadixCounter::try_from_limits_and_elements([2_u8, 2], [1, 0]).unwrap();
    assert_eq!(low.partial_cmp(&high), Some(Ordering::Less));
    assert_eq!(high.partial_cmp(&low), Some(Ordering::Greater));
    assert_eq!(low.cmp(&high), Ordering::Less);
    assert!(low < high);
    assert!(high > low);

    let small = MixedRadixCounter::try_from_limits_and_elements([4_u8, 3], [1, 2]).unwrap();
    let large = MixedRadixCounter::try_from_limits_and_elements([4_u8, 5], [1, 2]).unwrap();
    assert_eq!(small.partial_cmp(&large), Some(Ordering::Less));
    assert_eq!(large.partial_cmp(&small), Some(Ordering::Greater));
    assert_eq!(small.cmp(&large), Ordering::Less);
    assert_eq!(small.partial_cmp(&small.clone()), Some(Ordering::Equal));
    assert_eq!(small.cmp(&small.clone()), Ordering::Equal);
    assert!(small <= large);
}

#[test]
fn order_agrees_with_the_pair_of_arrays() {
    let arrays = [[0_u8, 0], [0, 1], [1, 0], [1, 1], [2, 0]];
    for a_digits in arrays {
        for b_digits in arrays {
            for a_limits in [[3_u8, 2], [3, 3], [4, 2]] {
                for b_limits in [[3_u8, 2], [3, 3], [4, 2]] {
                    let a = MixedRadixCounter::try_from_limits_and_elements(a_limits, a_digits)
                        .unwrap();
                    let b = MixedRadixCounter::try_from_limits_and_elements(b_limits, b_digits)
                        .unwrap();
                    let expected = (a_digits, a_limits).cmp(&(b_digits, b_limits));
                    assert_eq!(a.partial_cmp(&b), Some(expected));
                    assert_eq!(a.cmp(&b), expected);
                    assert_eq!(a == b, expected == Ordering::Equal);
                }
            }
        }
    }
}
