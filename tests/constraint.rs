use aimd::constraint::{convert_to_range, freeze_mask, parse_ranges, parse_string, select_mobile, FreezeError, Range};

#[test]
fn range_numbers() {
    let r = Range::new(3, 6);
    assert_eq!((r.low, r.high), (3, 6));
    assert_eq!(r.gen_numbers(), vec![3, 4, 5, 6]);
    assert_eq!(Range::new(4, 4).gen_numbers(), vec![4]);
    assert!(Range::new(5, 2).gen_numbers().is_empty());
    assert_eq!(Range::new(u32::MAX - 1, u32::MAX).gen_numbers(), vec![u32::MAX - 1, u32::MAX]);
}

#[test]
fn item_skips_pieces_that_are_not_numbers() {
    let item: Vec<char> = "a-2-3".chars().collect();
    assert_eq!(convert_to_range(&item), Some(Range::new(2, 3)));
    let item: Vec<char> = "+4-9".chars().collect();
    assert_eq!(convert_to_range(&item), Some(Range::new(4, 9)));
    let item: Vec<char> = " 1-3".chars().collect();
    assert_eq!(convert_to_range(&item), None);
}

#[test]
fn parse_string_lists_indices() {
    assert_eq!(parse_string("1-3,5-6").unwrap(), vec![1, 2, 3, 5, 6]);
    assert_eq!(parse_ranges("2-3").unwrap(), vec![Range::new(2, 3)]);
}

#[test]
fn malformed_expressions() {
    assert_eq!(parse_string("2").unwrap_err(), FreezeError::MalformedRange);
    assert_eq!(parse_string("3-x").unwrap_err(), FreezeError::MalformedRange);
    assert_eq!(parse_string("1-2,4").unwrap_err(), FreezeError::MalformedRange);
    assert_eq!(freeze_mask(5, "2-3,5").unwrap_err(), FreezeError::MalformedRange);
}

#[test]
fn items_without_numbers_are_skipped() {
    assert_eq!(parse_string("2-3,x-y").unwrap(), vec![2, 3]);
    assert_eq!(parse_string("").unwrap(), Vec::<u32>::new());
    assert_eq!(parse_string("1-2,").unwrap(), vec![1, 2]);
    assert_eq!(parse_ranges("x-y,4-5").unwrap(), vec![Range::new(4, 5)]);
    assert_eq!(freeze_mask(5, "2-3,x-y").unwrap(), vec![true, false, false, true, true]);
    assert_eq!(freeze_mask(3, "x-y").unwrap(), vec![true, true, true]);
}

#[test]
fn freeze_two_of_five() {
    assert_eq!(freeze_mask(5, "2-3").unwrap(), vec![true, false, false, true, true]);
}

#[test]
fn freeze_overlapping_and_empty_ranges() {
    assert_eq!(freeze_mask(4, "1-2,2-2,4-3").unwrap(), vec![false, false, true, true]);
}

#[test]
fn freeze_out_of_range() {
    assert_eq!(freeze_mask(5, "4-6").unwrap_err(), FreezeError::IndexOutOfRange);
    assert_eq!(freeze_mask(5, "0-1").unwrap_err(), FreezeError::IndexOutOfRange);
}

#[test]
fn frozen_atoms_keep_their_values() {
    let mobile = freeze_mask(5, "2-3").unwrap();
    let current = [1.0f64, 2.0, 3.0, 4.0, 5.0];
    let moved = [1.5f64, 2.5, 3.5, 4.5, 5.5];
    assert_eq!(select_mobile(&mobile, &moved, &current), vec![1.5, 2.0, 3.0, 4.5, 5.5]);
    let zero = [0.0f64; 5];
    assert_eq!(select_mobile(&mobile, &moved, &zero), vec![1.5, 0.0, 0.0, 4.5, 5.5]);
}

#[test]
fn mask_freezes_exactly_the_listed_indices() {
    let expr = "1-2,5-6,4-3";
    let listed = parse_string(expr).unwrap();
    let mask = freeze_mask(7, expr).unwrap();
    for (i, mobile) in mask.iter().enumerate() {
        assert_eq!(*mobile, !listed.contains(&(i as u32 + 1)));
    }
    assert_eq!(mask, vec![false, false, true, true, false, false, true]);
}
