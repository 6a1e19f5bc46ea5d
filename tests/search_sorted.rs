use daft_kernels::column::Column;
use daft_kernels::kernel::{search_sorted, AnyColumn, ElementKind, SearchError};
use daft_kernels::multi::search_sorted_multi_array;
use daft_kernels::order::{Float32Bits, Float64Bits, Utf8Value};
use daft_kernels::search::{
    search_sorted_full_range, search_sorted_primitive_array, search_sorted_utf_array,
};

fn ints(values: &[i64]) -> Column<i64> {
    Column::new(values.to_vec())
}

fn nullable_ints(values: &[Option<i64>]) -> Column<i64> {
    let v: Vec<i64> = values.iter().map(|x| x.unwrap_or(0)).collect();
    let valid: Vec<bool> = values.iter().map(|x| x.is_some()).collect();
    Column::with_validity(v, valid)
}

fn floats(values: &[f64]) -> Column<Float64Bits> {
    Column::new(values.iter().map(|x| Float64Bits { bits: x.to_bits() }).collect())
}

fn strings(values: &[Option<&str>]) -> Column<Utf8Value> {
    let v: Vec<Utf8Value> = values
        .iter()
        .map(|x| Utf8Value { bytes: x.unwrap_or("").as_bytes().to_vec() })
        .collect();
    let valid: Vec<bool> = values.iter().map(|x| x.is_some()).collect();
    Column::with_validity(v, valid)
}

fn count_le_ascending(h: &[i64], key: i64) -> u64 {
    h.iter().filter(|x| **x <= key).count() as u64
}

#[test]
fn ascending_result_is_count_of_le() {
    let h = [1, 2, 2, 4, 7, 7, 7, 10];
    let keys = [0, 1, 2, 3, 7, 8, 10, 11, -5, 4];
    let r = search_sorted_primitive_array(&ints(&h), &ints(&keys), false);
    let expected: Vec<u64> = keys.iter().map(|k| count_le_ascending(&h, *k)).collect();
    assert_eq!(r, expected);
    assert_eq!(r, vec![0, 1, 3, 3, 7, 7, 8, 8, 0, 4]);
}

#[test]
fn descending_with_reversed_flag() {
    let h = [10, 7, 7, 4, 1];
    let keys = [11, 10, 7, 5, 1, 0];
    let r = search_sorted_primitive_array(&ints(&h), &ints(&keys), true);
    assert_eq!(r, vec![0, 1, 3, 3, 5, 5]);
}

#[test]
fn reversed_storage_counts_cells_at_or_after_key() {
    let asc = [1, 2, 3, 3, 5];
    let desc = [5, 3, 3, 2, 1];
    let keys = [3, 1, 6, 0];
    let r_desc = search_sorted_primitive_array(&ints(&desc), &ints(&keys), true);
    let at_or_after: Vec<u64> = keys
        .iter()
        .map(|k| asc.iter().filter(|x| **x >= *k).count() as u64)
        .collect();
    assert_eq!(r_desc, at_or_after);
    assert_eq!(r_desc, vec![3, 5, 0, 5]);
}

#[test]
fn null_key_inserts_at_end_of_ascending() {
    let h = nullable_ints(&[Some(1), Some(3), Some(5), None, None]);
    let keys = nullable_ints(&[None, Some(4), None]);
    let r = search_sorted_primitive_array(&h, &keys, false);
    assert_eq!(r, vec![5, 2, 5]);
}

#[test]
fn null_key_in_descending_goes_after_leading_nulls() {
    let h = nullable_ints(&[None, None, Some(5), Some(3), Some(1)]);
    let keys = nullable_ints(&[None, Some(3), Some(9)]);
    let r = search_sorted_primitive_array(&h, &keys, true);
    assert_eq!(r, vec![2, 4, 2]);
}

#[test]
fn nan_key_ascending_goes_past_all_nans() {
    let h = floats(&[1.0, 2.0, f64::NAN, f64::NAN]);
    let keys = floats(&[f64::NAN]);
    assert_eq!(search_sorted_primitive_array(&h, &keys, false), vec![4]);
}

#[test]
fn nan_key_descending_goes_after_leading_nans() {
    let h = floats(&[f64::NAN, f64::NAN, 2.0, 1.0]);
    let keys = floats(&[f64::NAN]);
    assert_eq!(search_sorted_primitive_array(&h, &keys, true), vec![2]);
}

#[test]
fn float_order_negatives_zeros_and_infinities() {
    let h = floats(&[f64::NEG_INFINITY, -2.5, -0.0, 0.0, 1.5, f64::INFINITY, f64::NAN]);
    let keys = floats(&[-3.0, 0.0, -0.0, 1.5, 100.0, f64::INFINITY, f64::NAN, f64::NEG_INFINITY]);
    let r = search_sorted_primitive_array(&h, &keys, false);
    assert_eq!(r, vec![1, 4, 4, 5, 5, 6, 7, 1]);
}

#[test]
fn float32_column() {
    let h: Column<Float32Bits> = Column::new(
        [-1.0f32, 0.5, 2.0, f32::NAN].iter().map(|x| Float32Bits { bits: x.to_bits() }).collect(),
    );
    let keys: Column<Float32Bits> = Column::new(
        [0.5f32, f32::NAN, -7.0].iter().map(|x| Float32Bits { bits: x.to_bits() }).collect(),
    );
    assert_eq!(search_sorted_primitive_array(&h, &keys, false), vec![2, 4, 0]);
}

#[test]
fn string_column_with_nulls() {
    let h = strings(&[Some("apple"), Some("banana"), Some("banana"), Some("cherry"), None]);
    let keys = strings(&[Some("banana"), Some("b"), None, Some("zzz"), Some(""), Some("bananas")]);
    let r = search_sorted_utf_array(&h, &keys, false);
    assert_eq!(r, vec![3, 1, 5, 4, 0, 3]);
}

#[test]
fn string_column_descending() {
    let h = strings(&[None, Some("pear"), Some("fig"), Some("fig"), Some("apple")]);
    let keys = strings(&[Some("fig"), Some("zebra"), Some("a"), None]);
    let r = search_sorted_utf_array(&h, &keys, true);
    assert_eq!(r, vec![4, 1, 5, 1]);
}

#[test]
fn empty_haystack_returns_zero_for_every_key() {
    let r = search_sorted_primitive_array(&ints(&[]), &ints(&[3, -1, 9]), false);
    assert_eq!(r, vec![0, 0, 0]);
    let r = search_sorted_primitive_array(&ints(&[]), &ints(&[3, -1, 9]), true);
    assert_eq!(r, vec![0, 0, 0]);
}

#[test]
fn empty_keys_return_empty_result() {
    let r = search_sorted_primitive_array(&ints(&[1, 2]), &ints(&[]), false);
    assert!(r.is_empty());
}

#[test]
fn window_matches_full_range_search() {
    let cases: Vec<(Vec<i64>, Vec<i64>, bool)> = vec![
        (vec![], vec![1, 0, 2], false),
        (vec![5], vec![4, 5, 6, 5, 4], false),
        (vec![5], vec![6, 5, 4, 4], true),
        (vec![1, 1, 2, 3, 5, 8, 13], vec![0, 1, 2, 3, 4, 13, 14, 2, 2, 1, 20, 0], false),
        (vec![13, 8, 5, 3, 2, 1, 1], vec![14, 13, 1, 0, 5, 5, 6, 20, -3], true),
        (vec![2, 2, 2, 2], vec![2, 1, 3, 2, 2], false),
    ];
    for (h, keys, rev) in cases {
        let windowed = search_sorted_primitive_array(&ints(&h), &ints(&keys), rev);
        let full = search_sorted_full_range(&ints(&h), &ints(&keys), rev);
        assert_eq!(windowed, full);
    }
}

#[test]
fn window_matches_full_range_with_nulls() {
    let h = nullable_ints(&[Some(1), Some(4), Some(4), None]);
    let keys = nullable_ints(&[Some(4), None, Some(0), None, Some(5), Some(4)]);
    let windowed = search_sorted_primitive_array(&h, &keys, false);
    let full = search_sorted_full_range(&h, &keys, false);
    assert_eq!(windowed, full);
    assert_eq!(windowed, vec![3, 4, 0, 4, 3, 3]);
}

#[test]
fn dispatch_searches_each_kind() {
    let r = search_sorted(
        &AnyColumn::UInt8(Column::new(vec![1u8, 200, 255])),
        &AnyColumn::UInt8(Column::new(vec![0u8, 200, 255])),
        false,
    );
    assert_eq!(r, Ok(vec![0, 2, 3]));
    let r = search_sorted(
        &AnyColumn::Int128(Column::new(vec![i128::MIN, 0, i128::MAX])),
        &AnyColumn::Int128(Column::new(vec![-1i128])),
        false,
    );
    assert_eq!(r, Ok(vec![1]));
    let r = search_sorted(
        &AnyColumn::LargeUtf8(strings(&[Some("a"), Some("c")])),
        &AnyColumn::LargeUtf8(strings(&[Some("b")])),
        false,
    );
    assert_eq!(r, Ok(vec![1]));
}

#[test]
fn dispatch_rejects_type_mismatch() {
    let r = search_sorted(
        &AnyColumn::Int32(Column::new(vec![1i32])),
        &AnyColumn::Int64(Column::new(vec![1i64])),
        false,
    );
    assert_eq!(
        r,
        Err(SearchError::TypeMismatch { haystack: ElementKind::Int32, keys: ElementKind::Int64 })
    );
}

#[test]
fn dispatch_rejects_unsupported_kind() {
    let col = AnyColumn::Unsupported { kind: ElementKind::Boolean, len: 3 };
    let keys = AnyColumn::Unsupported { kind: ElementKind::Boolean, len: 1 };
    assert_eq!(
        search_sorted(&col, &keys, false),
        Err(SearchError::UnsupportedKind(ElementKind::Boolean))
    );
}

fn int_col(values: &[i64]) -> AnyColumn {
    AnyColumn::Int64(ints(values))
}

#[test]
fn composite_two_dimensions() {
    let hs = vec![int_col(&[1, 1, 2]), int_col(&[10, 20, 10])];
    let ks = vec![int_col(&[1]), int_col(&[15])];
    let r = search_sorted_multi_array(&hs, &ks, &vec![false, false]);
    assert_eq!(r, Ok(vec![1]));
}

#[test]
fn composite_mixed_kinds_and_directions() {
    let hs = vec![
        AnyColumn::Utf8(strings(&[Some("a"), Some("a"), Some("a"), Some("b"), None])),
        int_col(&[30, 20, 20, 5, 1]),
    ];
    let ks = vec![
        AnyColumn::Utf8(strings(&[Some("a"), Some("a"), Some("b"), None, Some("0")])),
        int_col(&[20, 25, 100, 0, 0]),
    ];
    let r = search_sorted_multi_array(&hs, &ks, &vec![false, true]);
    assert_eq!(r, Ok(vec![3, 1, 3, 5, 0]));
}

#[test]
fn composite_matches_single_column_search() {
    let h = [1, 3, 3, 6, 9];
    let keys = [0, 3, 4, 9, 10, 3];
    let single = search_sorted_primitive_array(&ints(&h), &ints(&keys), false);
    let multi = search_sorted_multi_array(&vec![int_col(&h)], &vec![int_col(&keys)], &vec![false]);
    assert_eq!(multi, Ok(single));
}

#[test]
fn composite_with_float_nans_and_null_rows() {
    let hs = vec![AnyColumn::Float64(floats(&[1.0, f64::NAN])), int_col(&[0, 0])];
    let ks = vec![
        AnyColumn::Float64(floats(&[f64::NAN, 0.5])),
        AnyColumn::Int64(nullable_ints(&[Some(0), None])),
    ];
    let r = search_sorted_multi_array(&hs, &ks, &vec![false, false]);
    assert_eq!(r, Ok(vec![2, 0]));
}

#[test]
fn composite_rejects_empty_input() {
    let r = search_sorted_multi_array(&vec![], &vec![], &vec![]);
    assert_eq!(r, Err(SearchError::EmptyInput));
    let r = search_sorted_multi_array(&vec![int_col(&[1])], &vec![], &vec![false]);
    assert_eq!(r, Err(SearchError::EmptyInput));
}

#[test]
fn composite_rejects_column_count_mismatch() {
    let hs = vec![int_col(&[1, 2]), int_col(&[3, 4])];
    let ks = vec![int_col(&[1])];
    let r = search_sorted_multi_array(&hs, &ks, &vec![false, false]);
    assert_eq!(r, Err(SearchError::ColumnCountMismatch));
}

#[test]
fn composite_rejects_flag_count_mismatch() {
    let hs = vec![int_col(&[1, 2]), int_col(&[3, 4])];
    let ks = vec![int_col(&[1]), int_col(&[3])];
    let r = search_sorted_multi_array(&hs, &ks, &vec![false]);
    assert_eq!(r, Err(SearchError::ColumnCountMismatch));
}

#[test]
fn composite_rejects_haystack_row_mismatch() {
    let hs = vec![int_col(&[1, 2, 3]), int_col(&[3, 4])];
    let ks = vec![int_col(&[1]), int_col(&[3])];
    let r = search_sorted_multi_array(&hs, &ks, &vec![false, false]);
    assert_eq!(r, Err(SearchError::RowCountMismatch { found: 2, expected: 3 }));
}

#[test]
fn composite_rejects_key_row_mismatch() {
    let hs = vec![int_col(&[1, 2]), int_col(&[3, 4])];
    let ks = vec![int_col(&[1]), int_col(&[3, 4, 5, 6])];
    let r = search_sorted_multi_array(&hs, &ks, &vec![false, false]);
    assert_eq!(r, Err(SearchError::RowCountMismatch { found: 4, expected: 1 }));
}

#[test]
fn composite_rejects_type_mismatch_and_unsupported() {
    let hs = vec![int_col(&[1, 2]), AnyColumn::UInt16(Column::new(vec![3u16, 4]))];
    let ks = vec![int_col(&[1]), AnyColumn::UInt32(Column::new(vec![3u32]))];
    let r = search_sorted_multi_array(&hs, &ks, &vec![false, false]);
    assert_eq!(
        r,
        Err(SearchError::TypeMismatch { haystack: ElementKind::UInt16, keys: ElementKind::UInt32 })
    );
    let hs = vec![AnyColumn::Unsupported { kind: ElementKind::Binary, len: 2 }];
    let ks = vec![AnyColumn::Unsupported { kind: ElementKind::Binary, len: 1 }];
    let r = search_sorted_multi_array(&hs, &ks, &vec![true]);
    assert_eq!(r, Err(SearchError::UnsupportedKind(ElementKind::Binary)));
}

#[test]
fn composite_empty_haystack_rows() {
    let hs = vec![int_col(&[]), int_col(&[])];
    let ks = vec![int_col(&[1, 2]), int_col(&[3, 4])];
    let r = search_sorted_multi_array(&hs, &ks, &vec![false, true]);
    assert_eq!(r, Ok(vec![0, 0]));
}
