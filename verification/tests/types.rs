use elixcee::types::{parse_upper_cell_addr, parse_upper_cell_addr_checked};
use elixcee::types::{
    days_in_month, is_leap, parse_cell_addr, parse_cell_addr_checked, parse_range_addr,
    parse_range_addr_checked, serial_to_display, serial_to_ymd, ArrayBound, ExcelError, VbaArray,
    MAX_ARRAY_ELEMENTS,
};

// ── ExcelError ───────────────────────────────────────────────────────

#[test]
fn excel_error_as_str_covers_every_variant() {
    assert_eq!(ExcelError::DivZero.as_str(), "#DIV/0!");
    assert_eq!(ExcelError::NA.as_str(), "#N/A");
    assert_eq!(ExcelError::Value.as_str(), "#VALUE!");
    assert_eq!(ExcelError::Ref.as_str(), "#REF!");
    assert_eq!(ExcelError::Name.as_str(), "#NAME?");
    assert_eq!(ExcelError::Num.as_str(), "#NUM!");
    assert_eq!(ExcelError::Null.as_str(), "#NULL!");
}

#[test]
fn excel_error_display_matches_as_str() {
    assert_eq!(ExcelError::DivZero.to_string(), "#DIV/0!");
}

#[test]
fn excel_error_from_str_is_the_as_str_inverse_for_every_variant() {
    for e in [
        ExcelError::DivZero,
        ExcelError::NA,
        ExcelError::Value,
        ExcelError::Ref,
        ExcelError::Name,
        ExcelError::Num,
        ExcelError::Null,
    ] {
        assert_eq!(e.as_str().parse::<ExcelError>().as_ref(), Ok(&e));
    }
}

#[test]
fn excel_error_from_str_rejects_an_unrecognized_string() {
    assert_eq!("#SPILL!".parse::<ExcelError>(), Err(()));
    assert_eq!("not an error at all".parse::<ExcelError>(), Err(()));
}

#[test]
fn excel_error_biff_code_matches_the_real_oracles_own_berr_table() {
    assert_eq!(ExcelError::Null.biff_code(), 0x00);
    assert_eq!(ExcelError::DivZero.biff_code(), 0x07);
    assert_eq!(ExcelError::Value.biff_code(), 0x0F);
    assert_eq!(ExcelError::Ref.biff_code(), 0x17);
    assert_eq!(ExcelError::Name.biff_code(), 0x1D);
    assert_eq!(ExcelError::Num.biff_code(), 0x24);
    assert_eq!(ExcelError::NA.biff_code(), 0x2A);
}

#[test]
fn excel_error_from_text_is_exact_and_case_sensitive() {
    assert_eq!(ExcelError::from_text("#REF!"), Ok(ExcelError::Ref));
    assert_eq!(ExcelError::from_text("#ref!"), Err(()));
    assert_eq!(ExcelError::from_text(" #REF!"), Err(()));
    assert_eq!(ExcelError::from_text(""), Err(()));
}

// ── ArrayBound ───────────────────────────────────────────────────────

#[test]
fn array_bound_len_counts_inclusive_bounds() {
    assert_eq!(ArrayBound { lower: 0, upper: 3 }.len(), 4);
    assert_eq!(ArrayBound { lower: -2, upper: 2 }.len(), 5);
    assert!(!ArrayBound { lower: 1, upper: 1 }.is_empty());
}

#[test]
fn array_bound_inverted_is_empty() {
    assert_eq!(ArrayBound { lower: 1, upper: 0 }.len(), 0);
    assert_eq!(ArrayBound { lower: 5, upper: -5 }.len(), 0);
    assert!(ArrayBound { lower: 1, upper: 0 }.is_empty());
}

// ── serial_to_ymd / serial_to_display ───────────────────────────────

#[test]
fn serial_to_ymd_handles_the_epoch() {
    assert_eq!(serial_to_ymd(1), (1900, 1, 1));
}

#[test]
fn serial_to_ymd_reproduces_the_excel_1900_leap_year_bug() {
    assert_eq!(serial_to_ymd(59), (1900, 2, 28));
    assert_eq!(serial_to_ymd(60), (1900, 3, 1));
    assert_eq!(serial_to_ymd(61), (1900, 3, 1));
    assert_eq!(serial_to_ymd(62), (1900, 3, 2));
}

#[test]
fn serial_to_display_formats_as_iso_date() {
    assert_eq!(serial_to_display(1), "1900-01-01");
}

#[test]
fn serial_to_ymd_crosses_year_and_leap_day_boundaries() {
    // 1900 has 365 days in this count: serial 367 is 1901-01-01.
    assert_eq!(serial_to_ymd(367), (1901, 1, 1));
    assert_eq!(serial_to_ymd(366), (1900, 12, 31));
    // 2024-02-29 and 2024-03-01.
    assert_eq!(serial_to_ymd(45351), (2024, 2, 29));
    assert_eq!(serial_to_ymd(45352), (2024, 3, 1));
    assert_eq!(serial_to_display(45000), "2023-03-15");
}

#[test]
fn serial_to_ymd_non_positive_serials_stay_in_january_1900() {
    assert_eq!(serial_to_ymd(0), (1900, 1, 0));
    assert_eq!(serial_to_ymd(-1), (1900, 1, u32::MAX));
}

#[test]
fn leap_years_and_month_lengths() {
    assert!(is_leap(2000));
    assert!(!is_leap(1900));
    assert!(is_leap(2024));
    assert!(!is_leap(2023));
    assert!(is_leap(-4));
    assert_eq!(days_in_month(2024, 2), 29);
    assert_eq!(days_in_month(2023, 2), 28);
    assert_eq!(days_in_month(2023, 4), 30);
    assert_eq!(days_in_month(2023, 12), 31);
    assert_eq!(days_in_month(2023, 13), 0);
    assert_eq!(days_in_month(2023, 0), 0);
}

// ── parse_cell_addr / parse_range_addr ──────────────────────────────

#[test]
fn parse_cell_addr_handles_single_and_double_letter_columns() {
    assert_eq!(parse_cell_addr("A1"), Some((1, 1)));
    assert_eq!(parse_cell_addr("Z1"), Some((1, 26)));
    assert_eq!(parse_cell_addr("AA1"), Some((1, 27)));
}

#[test]
fn parse_cell_addr_is_case_insensitive_and_trims_whitespace() {
    assert_eq!(parse_cell_addr(" a1 "), Some((1, 1)));
}

#[test]
fn parse_cell_addr_rejects_malformed_input() {
    assert_eq!(parse_cell_addr("1A"), None);
    assert_eq!(parse_cell_addr(""), None);
    assert_eq!(parse_cell_addr("A"), None);
}

#[test]
fn parse_range_addr_handles_a_single_cell_as_a_1x1_range() {
    assert_eq!(parse_range_addr("B2"), Some(((2, 2), (2, 2))));
}

#[test]
fn parse_range_addr_handles_a_two_cell_range() {
    assert_eq!(parse_range_addr("A1:C3"), Some(((1, 1), (3, 3))));
}

#[test]
fn parse_range_addr_rejects_a_malformed_piece() {
    assert_eq!(parse_range_addr("A1:"), None);
    assert_eq!(parse_range_addr("!!"), None);
}

#[test]
fn parse_cell_addr_row_must_parse_as_u32() {
    assert_eq!(parse_cell_addr("B4294967295"), Some((4294967295, 2)));
    assert_eq!(parse_cell_addr("B4294967296"), None);
    assert_eq!(parse_cell_addr("B1C"), None);
}

#[test]
fn checked_address_parsing_reports_column_overflow() {
    // A char below 'A' before the first digit, and a column past u32.
    assert_eq!(parse_cell_addr_checked("!1"), None);
    assert_eq!(parse_cell_addr_checked("ZZZZZZZZ1"), None);
    assert_eq!(parse_cell_addr_checked("AB12"), Some(Some((12, 28))));
    assert_eq!(parse_cell_addr_checked("12"), Some(None));
    assert_eq!(parse_range_addr_checked("A1:!2"), None);
    assert_eq!(parse_range_addr_checked("1:!2"), Some(None));
    assert_eq!(parse_range_addr_checked(" B2 : c3 "), Some(Some(((2, 2), (3, 3)))));
}

// ── VbaArray ─────────────────────────────────────────────────────────

fn dim2(lo0: i64, hi0: i64, lo1: i64, hi1: i64) -> VbaArray<i64> {
    VbaArray::new_zeroed(
        vec![
            ArrayBound {
                lower: lo0,
                upper: hi0,
            },
            ArrayBound {
                lower: lo1,
                upper: hi1,
            },
        ],
        0,
    )
    .unwrap()
}

#[test]
fn two_distinct_second_dimension_indices_write_distinct_elements() {
    let mut a = dim2(0, 3, 0, 2);
    a.set(&[2, 0], 111).unwrap();
    a.set(&[2, 1], 222).unwrap();
    assert_eq!(*a.get(&[2, 0]).unwrap(), 111);
    assert_eq!(*a.get(&[2, 1]).unwrap(), 222);
}

#[test]
fn lbound_ubound_report_each_dimension_independently() {
    let a = dim2(1, 3, -2, 2);
    assert_eq!(a.lbound(1), Ok(1));
    assert_eq!(a.ubound(1), Ok(3));
    assert_eq!(a.lbound(2), Ok(-2));
    assert_eq!(a.ubound(2), Ok(2));
}

#[test]
fn dimension_zero_is_subscript_out_of_range() {
    let a = dim2(0, 3, 0, 2);
    assert_eq!(a.ubound(0), Err("Subscript out of range".to_string()));
    assert_eq!(a.lbound(0), Err("Subscript out of range".to_string()));
}

#[test]
fn a_dimension_beyond_rank_is_subscript_out_of_range() {
    let a = dim2(0, 3, 0, 2);
    assert_eq!(a.ubound(3), Err("Subscript out of range".to_string()));
}

#[test]
fn too_few_or_too_many_subscripts_are_rejected_not_silently_accepted() {
    let a = dim2(0, 3, 0, 2);
    assert!(a.get(&[1]).is_err());
    assert!(a.get(&[1, 1, 1]).is_err());
}

#[test]
fn an_index_outside_its_dimensions_bounds_is_subscript_out_of_range() {
    let a = dim2(0, 3, 0, 2);
    assert_eq!(a.get(&[4, 0]), Err("Subscript out of range".to_string()));
    assert_eq!(a.get(&[0, -1]), Err("Subscript out of range".to_string()));
}

#[test]
fn element_count_overflow_is_rejected_as_out_of_memory() {
    let huge = vec![
        ArrayBound {
            lower: 0,
            upper: i64::MAX / 2,
        },
        ArrayBound {
            lower: 0,
            upper: i64::MAX / 2,
        },
    ];
    assert_eq!(VbaArray::new_zeroed(huge, 0i64), Err("Out of memory".to_string()));
}

#[test]
fn a_practically_huge_but_non_overflowing_array_hits_the_element_cap() {
    let too_big = vec![ArrayBound {
        lower: 0,
        upper: (MAX_ARRAY_ELEMENTS as i64) + 1,
    }];
    assert_eq!(
        VbaArray::new_zeroed(too_big, 0i64),
        Err("Out of memory".to_string())
    );
}

#[test]
fn from_vec_is_1d_zero_based_matching_array_and_splits_shape() {
    let a = VbaArray::from_vec(vec![1i64, 2, 3]);
    assert_eq!(a.rank(), 1);
    assert_eq!(a.lbound(1), Ok(0));
    assert_eq!(a.ubound(1), Ok(2));
    assert_eq!(*a.get(&[0]).unwrap(), 1);
    assert_eq!(*a.get(&[2]).unwrap(), 3);
}

#[test]
fn an_inverted_bound_is_a_legal_zero_length_dimension() {
    let a = VbaArray::new_zeroed(vec![ArrayBound { lower: 1, upper: 0 }], 0i64).unwrap();
    assert_eq!(a.elements.len(), 0);
    assert!(a.get(&[1]).is_err());
}

#[test]
fn array_elements_are_stored_row_major() {
    let mut a = dim2(1, 2, 5, 7);
    assert_eq!(a.elements.len(), 6);
    assert_eq!(a.linear_index(&[1, 5]), Ok(0));
    assert_eq!(a.linear_index(&[1, 7]), Ok(2));
    assert_eq!(a.linear_index(&[2, 5]), Ok(3));
    assert_eq!(a.linear_index(&[2, 7]), Ok(5));
    a.set(&[2, 6], 9).unwrap();
    assert_eq!(a.elements, vec![0, 0, 0, 0, 9, 0]);
    assert_eq!(a.set(&[3, 6], 1), Err("Subscript out of range".to_string()));
    assert_eq!(a.elements, vec![0, 0, 0, 0, 9, 0]);
}

#[test]
fn new_zeroed_without_dimensions_is_rejected() {
    assert_eq!(
        VbaArray::new_zeroed(Vec::new(), 0i64),
        Err("array must have at least one dimension".to_string())
    );
}

#[test]
fn a_zero_length_dimension_does_not_mask_an_earlier_oversized_count() {
    let bounds = vec![
        ArrayBound {
            lower: 0,
            upper: MAX_ARRAY_ELEMENTS as i64,
        },
        ArrayBound { lower: 1, upper: 0 },
    ];
    assert_eq!(VbaArray::new_zeroed(bounds, 0i64), Err("Out of memory".to_string()));
    let ok = vec![
        ArrayBound { lower: 1, upper: 0 },
        ArrayBound {
            lower: 0,
            upper: MAX_ARRAY_ELEMENTS as i64,
        },
    ];
    assert_eq!(VbaArray::new_zeroed(ok, 0i64).unwrap().elements.len(), 0);
}

#[test]
fn linear_index_for_checks_bounds_without_an_array() {
    let bounds = [ArrayBound { lower: 0, upper: 3 }, ArrayBound { lower: 0, upper: 2 }];
    assert_eq!(VbaArray::<i64>::linear_index_for(&bounds, &[2, 1]), Ok(7));
    assert_eq!(
        VbaArray::<i64>::linear_index_for(&bounds, &[2]),
        Err("Subscript out of range".to_string())
    );
}

#[test]
fn a_dimension_longer_than_i64_is_out_of_memory() {
    let full = vec![ArrayBound {
        lower: i64::MIN,
        upper: i64::MAX,
    }];
    assert_eq!(VbaArray::new_zeroed(full, 0i64), Err("Out of memory".to_string()));
    let later = vec![
        ArrayBound { lower: 1, upper: 0 },
        ArrayBound {
            lower: -1,
            upper: i64::MAX,
        },
    ];
    assert_eq!(VbaArray::new_zeroed(later, 0i64), Err("Out of memory".to_string()));
}

#[test]
fn consecutive_serials_are_consecutive_calendar_days() {
    assert_eq!(serial_to_ymd(59), (1900, 2, 28));
    assert_eq!(serial_to_ymd(61), (1900, 3, 1));
    assert_eq!(serial_to_ymd(45350), (2024, 2, 28));
    assert_eq!(serial_to_ymd(45351), (2024, 2, 29));
    assert_eq!(serial_to_ymd(45352), (2024, 3, 1));
    assert_eq!(serial_to_ymd(45657), (2024, 12, 31));
    assert_eq!(serial_to_ymd(45658), (2025, 1, 1));
}

#[test]
fn the_last_excel_serial_is_the_end_of_year_9999() {
    assert_eq!(serial_to_display(2958465), "9999-12-31");
}

#[test]
fn an_uppercased_address_reads_directly() {
    assert_eq!(parse_upper_cell_addr(&vec!['B', '3']), Some((3, 2)));
    assert_eq!(parse_upper_cell_addr(&vec!['3']), None);
    assert_eq!(parse_upper_cell_addr_checked(&vec!['A', 'A', '1']), Some(Some((1, 27))));
    let long: Vec<char> = std::iter::repeat('Z').take(10).chain(std::iter::once('1')).collect();
    assert_eq!(parse_upper_cell_addr_checked(&long), None);
}
