use sparse_store::access::{emit_slices, segment_range};
use sparse_store::block::build_block;
use sparse_store::dense::{dense_entries, is_zero};
use sparse_store::codec::{chunk_len, chunk_shape, fill_for, ElementKind, FillKind};
use sparse_store::coordinate::{parse_coordinates, parse_decimal, parse_entry, parse_header, split_fields};
use sparse_store::error::{MatrixError, ShapeField};
use sparse_store::matrix::{check_block, check_indptr, list_entries, SparseMatrix};
use sparse_store::names::{compose_name, compose_names};
use sparse_store::shape::{merge_attr, Merge, ShapeAttrs};

fn lines(text: &str) -> Vec<Vec<u8>> {
    text.lines().map(|l| l.as_bytes().to_vec()).collect()
}

fn bits(x: f32) -> u32 {
    x.to_bits()
}

/// The three-entry matrix of the scenarios, imported by column and by row.
fn sample() -> SparseMatrix {
    let text = "%%MatrixMarket matrix coordinate real general\n3 2 3\n1 1 5.0\n2 1 7.0\n3 2 9.0\n";
    let list = parse_coordinates(&lines(text)).unwrap();
    let values: Vec<u32> = list
        .values
        .iter()
        .map(|v| std::str::from_utf8(v).unwrap().parse::<f32>().unwrap().to_bits())
        .collect();
    let mut m = SparseMatrix::new();
    m.import_coordinates(&list, &values, true).unwrap();
    m
}

#[test]
fn single_column_reads() {
    let m = sample();
    let (nrow, ncol, t) = m.read_by_single_column(0).unwrap();
    assert_eq!((nrow, ncol), (3, 1));
    assert_eq!(t, vec![(0, 0, bits(5.0)), (1, 0, bits(7.0))]);
    let (_, _, t) = m.read_by_single_column(1).unwrap();
    assert_eq!(t, vec![(2, 0, bits(9.0))]);
}

#[test]
fn columns_follow_request_order() {
    let m = sample();
    let (nrow, ncol, t) = m.read_by_columns(&vec![1, 0]).unwrap();
    assert_eq!((nrow, ncol), (3, 2));
    assert_eq!(t, vec![(2, 0, bits(9.0)), (0, 1, bits(5.0)), (1, 1, bits(7.0))]);
}

#[test]
fn rows_follow_request_order() {
    let m = sample();
    let (nrow, ncol, t) = m.read_by_rows(&vec![2, 0]).unwrap();
    assert_eq!((nrow, ncol), (2, 2));
    assert_eq!(t, vec![(0, 1, bits(9.0)), (1, 0, bits(5.0))]);
}

#[test]
fn out_of_range_request_gives_nothing() {
    let m = sample();
    let (_, _, t) = m.read_by_columns(&vec![5]).unwrap();
    assert!(t.is_empty());
}

#[test]
fn row_names_round_trip() {
    let mut m = SparseMatrix::new();
    assert!(m.row_names().is_none());
    let names = vec!["a".to_string(), "b".to_string(), "c".to_string()];
    m.register_row_names(names.clone());
    assert_eq!(m.row_names().unwrap(), &names);
    assert!(m.column_names().is_none());
    m.register_column_names(vec!["x".to_string()]);
    assert_eq!(m.column_names().unwrap(), &vec!["x".to_string()]);
}

#[test]
fn export_round_trip() {
    let m = sample();
    let (shape, t) = m.export_coordinates().unwrap();
    assert_eq!(shape, (3, 2, 3));
    assert_eq!(t, vec![(1, 1, bits(5.0)), (2, 1, bits(7.0)), (3, 2, bits(9.0))]);
}

#[test]
fn export_round_trip_unsorted_input() {
    let text = "%%MatrixMarket\n2 3 3\n2 3 1.5\n1 1 2.5\n2 1 3.5\n";
    let list = parse_coordinates(&lines(text)).unwrap();
    let values = vec![bits(1.5), bits(2.5), bits(3.5)];
    let mut m = SparseMatrix::new();
    m.import_coordinates(&list, &values, false).unwrap();
    let (shape, t) = m.export_coordinates().unwrap();
    assert_eq!(shape, (2, 3, 3));
    assert_eq!(t, vec![(1, 1, bits(2.5)), (2, 1, bits(3.5)), (2, 3, bits(1.5))]);
}

#[test]
fn export_needs_shape() {
    let m = SparseMatrix::new();
    assert_eq!(m.export_coordinates().unwrap_err(), MatrixError::IncompleteMetadata);
}

#[test]
fn built_block_shape_invariant() {
    let entries = vec![(2u64, 0u64, 1u32), (0, 1, 2), (2, 1, 3), (0, 0, 4)];
    let b = build_block(&entries, 4, 2).unwrap();
    assert_eq!(b.indptr, vec![0, 2, 2, 4, 4]);
    assert_eq!(b.indices, vec![0, 1, 0, 1]);
    assert_eq!(b.data, vec![4, 2, 1, 3]);
    assert!(check_block(&b, 4, 4, 2));
    assert!(b.indices.iter().all(|&i| i < 2));
}

#[test]
fn build_keeps_input_order_on_ties() {
    let entries = vec![(0u64, 1u64, 7u32), (0, 1, 8), (0, 0, 9)];
    let b = build_block(&entries, 1, 2).unwrap();
    assert_eq!(b.data, vec![9, 7, 8]);
    assert_eq!(b.indptr, vec![0, 3]);
}

#[test]
fn build_empty() {
    let b = build_block(&vec![], 3, 3).unwrap();
    assert_eq!(b.indptr, vec![0, 0, 0, 0]);
    assert!(b.indices.is_empty());
}

#[test]
fn build_out_of_range() {
    assert_eq!(build_block(&vec![(3, 0, 1)], 3, 3).unwrap_err(), MatrixError::DimensionOutOfRange);
    assert_eq!(build_block(&vec![(0, 3, 1)], 3, 3).unwrap_err(), MatrixError::DimensionOutOfRange);
}

#[test]
fn check_block_rejects_bad_blocks() {
    let entries = vec![(1u64, 0u64, 1u32)];
    let mut b = build_block(&entries, 2, 2).unwrap();
    assert!(check_block(&b, 1, 2, 2));
    assert!(!check_block(&b, 2, 2, 2));
    assert!(!check_block(&b, 1, 3, 2));
    assert!(!check_block(&b, 1, 2, 0));
    b.indptr = vec![0, 1, 0];
    assert!(!check_block(&b, 1, 2, 2));
}

#[test]
fn record_shape_twice() {
    let mut a = ShapeAttrs::empty();
    assert_eq!(a.record_shape(3, 2, 3), Ok(()));
    assert_eq!(a.record_shape(3, 2, 3), Ok(()));
    assert_eq!(a.record_shape(3, 2, 4), Err(MatrixError::ShapeMismatch(ShapeField::NumNonZeros)));
    assert_eq!(a.num_non_zeros(), Some(3));
    assert_eq!(a.shape(), Ok((3, 2, 3)));
}

#[test]
fn record_shape_names_first_conflict() {
    let mut a = ShapeAttrs::empty();
    a.record_shape(3, 2, 3).unwrap();
    assert_eq!(a.record_shape(4, 5, 6), Err(MatrixError::ShapeMismatch(ShapeField::NumRows)));
    assert_eq!(a.record_shape(3, 5, 6), Err(MatrixError::ShapeMismatch(ShapeField::NumColumns)));
    assert_eq!(ShapeField::NumColumns.key(), "ncol");
}

#[test]
fn merge_outcomes() {
    assert_eq!(merge_attr(None, 4), Merge::Updated);
    assert_eq!(merge_attr(Some(4), 4), Merge::Unchanged);
    assert_eq!(merge_attr(Some(4), 5), Merge::Conflict);
}

#[test]
fn import_conflicting_shape() {
    let mut m = sample();
    let list = parse_coordinates(&lines("3 2 2\n1 1 1\n2 2 1\n")).unwrap();
    let r = m.import_coordinates(&list, &vec![1, 1], false);
    assert_eq!(r, Err(MatrixError::ShapeMismatch(ShapeField::NumNonZeros)));
    assert_eq!(m.num_non_zeros(), Some(3));
    assert_eq!(m.num_rows(), Some(3));
    assert_eq!(m.num_columns(), Some(2));
}

#[test]
fn import_value_count_mismatch() {
    let mut m = SparseMatrix::new();
    let list = parse_coordinates(&lines("3 2 1\n1 1 1\n")).unwrap();
    assert_eq!(m.import_coordinates(&list, &vec![], false), Err(MatrixError::MalformedSource));
    assert_eq!(list_entries(&list, &vec![1, 2]).unwrap_err(), MatrixError::MalformedSource);
}

#[test]
fn empty_column_reads_nothing() {
    let list = parse_coordinates(&lines("2 3 2\n1 1 1\n2 3 1\n")).unwrap();
    let mut m = SparseMatrix::new();
    m.import_coordinates(&list, &vec![bits(1.0), bits(2.0)], true).unwrap();
    let (_, _, t) = m.read_by_single_column(1).unwrap();
    assert!(t.is_empty());
    let (_, _, t) = m.read_by_rows(&vec![1]).unwrap();
    assert_eq!(t, vec![(0, 2, bits(2.0))]);
}

#[test]
fn unbuilt_orientation_is_not_indexed() {
    let list = parse_coordinates(&lines("2 2 1\n1 1 1\n")).unwrap();
    let mut m = SparseMatrix::new();
    assert_eq!(m.read_by_columns(&vec![0]).unwrap_err(), MatrixError::NotIndexed);
    m.import_coordinates(&list, &vec![1], false).unwrap();
    assert_eq!(m.read_by_rows(&vec![0]).unwrap_err(), MatrixError::NotIndexed);
    assert_eq!(m.read_by_single_column(0).unwrap().2, vec![(0, 0, 1)]);
}

#[test]
fn from_parts_checks() {
    let m = sample();
    let shape = m.shape;
    let by_column = m.by_column.clone();
    let reopened = SparseMatrix::from_parts(shape, by_column.clone(), None, None, None).unwrap();
    assert_eq!(reopened.read_by_single_column(1).unwrap().2, vec![(2, 0, bits(9.0))]);
    assert_eq!(
        SparseMatrix::from_parts(ShapeAttrs::empty(), None, None, None, None).unwrap_err(),
        MatrixError::IncompleteMetadata
    );
    let mut bad = by_column.unwrap();
    bad.indices[0] = 7;
    assert_eq!(
        SparseMatrix::from_parts(shape, Some(bad), None, None, None).unwrap_err(),
        MatrixError::MalformedSource
    );
}

#[test]
fn parse_errors() {
    assert_eq!(parse_coordinates(&lines("% only a comment\n")).unwrap_err(), MatrixError::MalformedSource);
    assert_eq!(parse_coordinates(&lines("3 x 1\n1 1 1\n")).unwrap_err(), MatrixError::MalformedSource);
    assert_eq!(parse_coordinates(&lines("3 2 2\n1 1 1\n")).unwrap_err(), MatrixError::MalformedSource);
    assert_eq!(parse_coordinates(&lines("3 2 1\n0 1 1\n")).unwrap_err(), MatrixError::MalformedSource);
    assert_eq!(parse_coordinates(&lines("3 2 1\n4 1 1\n")).unwrap_err(), MatrixError::MalformedSource);
    assert_eq!(parse_coordinates(&lines("3 2 1\n1 1\n")).unwrap_err(), MatrixError::MalformedSource);
}

#[test]
fn parse_list_skips_comments_and_blank_lines() {
    let list = parse_coordinates(&lines("%%header\n% more\n\n4 5 2\n\n2 3 0.5\n4\t5  -1e3\n")).unwrap();
    assert_eq!((list.nrow, list.ncol, list.nnz), (4, 5, 2));
    assert_eq!(list.positions, vec![(1, 2), (3, 4)]);
    assert_eq!(list.values, vec![b"0.5".to_vec(), b"-1e3".to_vec()]);
}

#[test]
fn parse_lines() {
    assert_eq!(parse_header(&b"10 20 30".to_vec()), Ok((10, 20, 30)));
    assert_eq!(parse_header(&b"10 20".to_vec()), Err(MatrixError::MalformedSource));
    assert_eq!(parse_entry(&b"2 3 4.5".to_vec(), 2, 3), Ok((1, 2, b"4.5".to_vec())));
    assert_eq!(parse_entry(&b"2 4 4.5".to_vec(), 2, 3), Err(MatrixError::MalformedSource));
}

#[test]
fn decimals() {
    assert_eq!(parse_decimal(&b"0".to_vec()), Some(0));
    assert_eq!(parse_decimal(&b"18446744073709551615".to_vec()), Some(u64::MAX));
    assert_eq!(parse_decimal(&b"18446744073709551616".to_vec()), None);
    assert_eq!(parse_decimal(&b"".to_vec()), None);
    assert_eq!(parse_decimal(&b"1a".to_vec()), None);
}

#[test]
fn fields_split_on_whitespace() {
    let f = split_fields(&b"  a\tbc  d \r".to_vec());
    assert_eq!(f, vec![b"a".to_vec(), b"bc".to_vec(), b"d".to_vec()]);
    assert!(split_fields(&b"   ".to_vec()).is_empty());
}

#[test]
fn chunk_lengths() {
    assert_eq!(chunk_len(0), 0);
    assert_eq!(chunk_len(500), 500);
    assert_eq!(chunk_len(5000), 1000);
    assert_eq!(chunk_len(3_000_000), 3000);
    assert_eq!(chunk_shape(&vec![5000, 2_000_000]), vec![1000, 2000]);
}

#[test]
fn fill_values() {
    assert_eq!(fill_for(ElementKind::Float32), FillKind::NotANumber);
    assert_eq!(fill_for(ElementKind::UInt64), FillKind::Zero);
    assert_eq!(fill_for(ElementKind::Text), FillKind::EmptyText);
}

#[test]
fn composed_names() {
    let words = vec!["ENSG1".to_string(), "TP53".to_string(), "Gene".to_string()];
    assert_eq!(compose_name(&words, 0, 2, "_"), "ENSG1_TP53");
    assert_eq!(compose_name(&words, 1, 9, "_"), "TP53_Gene");
    assert_eq!(compose_name(&words, 5, 9, "_"), "");
    assert_eq!(compose_name(&words, 2, 3, "_"), "Gene");
    let all = compose_names(&vec![words.clone(), vec!["x".to_string()]], 0, 2, "@");
    assert_eq!(all, vec!["ENSG1@TP53".to_string(), "x".to_string()]);
}

#[test]
fn dense_row_major_drops_zeros() {
    let cells = vec![bits(0.0), bits(1.0), bits(-0.0), bits(2.0), bits(0.0), bits(3.0)];
    let e = dense_entries(2, 3, &cells, false).unwrap();
    assert_eq!(e, vec![(0, 1, bits(1.0)), (1, 0, bits(2.0)), (1, 2, bits(3.0))]);
}

#[test]
fn dense_column_major() {
    let cells = vec![bits(4.0), bits(0.0), bits(0.0), bits(5.0)];
    let e = dense_entries(2, 2, &cells, true).unwrap();
    assert_eq!(e, vec![(0, 0, bits(4.0)), (1, 1, bits(5.0))]);
    assert_eq!(dense_entries(2, 3, &cells, true).unwrap_err(), MatrixError::MalformedSource);
    assert_eq!(dense_entries(u64::MAX, 2, &cells, true).unwrap_err(), MatrixError::MalformedSource);
}

#[test]
fn zero_encodings() {
    assert!(is_zero(bits(0.0)));
    assert!(is_zero(bits(-0.0)));
    assert!(!is_zero(bits(1e-30)));
}

#[test]
fn dense_import_reads_back() {
    let cells = vec![bits(1.0), bits(0.0), bits(0.0), bits(2.0), bits(3.0), bits(0.0)];
    let e = dense_entries(3, 2, &cells, false).unwrap();
    let mut m = SparseMatrix::new();
    m.import_entries(3, 2, &e, true).unwrap();
    assert_eq!(m.num_non_zeros(), Some(3));
    assert_eq!(m.read_by_single_column(0).unwrap().2, vec![(0, 0, bits(1.0)), (2, 0, bits(3.0))]);
    assert_eq!(m.read_by_rows(&vec![1]).unwrap().2, vec![(0, 1, bits(2.0))]);
}

#[test]
fn import_entries_out_of_range_changes_nothing() {
    let mut m = SparseMatrix::new();
    assert_eq!(m.import_entries(2, 2, &vec![(2, 0, 1)], true), Err(MatrixError::DimensionOutOfRange));
    assert_eq!(m.num_rows(), None);
    assert!(m.by_column.is_none());
}

#[test]
fn ranged_reads() {
    let indptr = vec![0u64, 2, 2, 3];
    assert!(check_indptr(&indptr, 3, 3));
    assert!(!check_indptr(&indptr, 3, 4));
    assert!(!check_indptr(&vec![0, 3, 2, 3], 3, 3));
    assert_eq!(segment_range(&indptr, 3, 3, 0), Some((0, 2)));
    assert_eq!(segment_range(&indptr, 3, 3, 1), Some((2, 2)));
    assert_eq!(segment_range(&indptr, 3, 3, 3), None);
    let mut out = vec![];
    emit_slices(4, &vec![7, 9], &vec![10, 11], true, &mut out).unwrap();
    assert_eq!(out, vec![(7, 4, 10), (9, 4, 11)]);
    emit_slices(1, &vec![3], &vec![12], false, &mut out).unwrap();
    assert_eq!(out[2], (1, 3, 12));
    assert_eq!(emit_slices(1, &vec![3], &vec![], false, &mut out), Err(MatrixError::MalformedSource));
    assert_eq!(out.len(), 3);
}
