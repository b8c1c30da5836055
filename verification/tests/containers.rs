use container_basics::extract::{indexing_array, indexing_tuple};
use container_basics::fixed::{byte_buffer, letters, read_letter};
use container_basics::growable::{
    append, make_empty, read_at, read_checked, remove_last, repeated, write_at,
};

#[test]
fn fixed_letters_first_two() {
    let a = letters();
    assert_eq!(read_letter(&a, 0), 'a');
    assert_eq!(read_letter(&a, 1), 'b');
}

#[test]
fn fixed_letters_all_seven() {
    let a = letters();
    let expected = ['a', 'b', 'c', 'd', 'e', 'f', 'g'];
    let mut i = 0;
    while i < 7 {
        assert_eq!(read_letter(&a, i), expected[i]);
        i += 1;
    }
}

#[test]
fn fixed_byte_buffer_is_zeroed() {
    let b = byte_buffer();
    assert_eq!(b.len(), 512);
    let mut i = 0;
    while i < 512 {
        assert_eq!(b[i], 0);
        i += 1;
    }
}

#[test]
fn growable_remove_last_from_pair() {
    let mut y = vec![1, 2];
    let two = remove_last(&mut y);
    assert_eq!(two, Some(2));
    assert_eq!(y.len(), 1);
    assert_eq!(y, vec![1]);
}

#[test]
fn growable_remove_last_when_empty() {
    let mut v = make_empty();
    assert_eq!(remove_last(&mut v), None);
    assert_eq!(v.len(), 0);
}

#[test]
fn growable_append_in_order() {
    let mut v = make_empty();
    append(&mut v, 5);
    append(&mut v, 6);
    append(&mut v, 7);
    append(&mut v, 8);
    assert_eq!(v, vec![5, 6, 7, 8]);
}

#[test]
fn growable_indexed_write() {
    let mut x = vec![1, 2, 3];
    let old_middle = read_at(&x, 1);
    write_at(&mut x, 1, old_middle + 5);
    assert_eq!(read_at(&x, 1), 7);
    assert_eq!(read_at(&x, 0), 1);
    assert_eq!(read_at(&x, 2), 3);
}

#[test]
fn growable_checked_read_out_of_range_is_absent() {
    let x = vec![1, 2, 3];
    assert_eq!(read_checked(&x, 100), None);
    assert_eq!(read_checked(&x, 3), None);
    assert_eq!(read_checked(&x, 2), Some(3));
}

#[test]
fn growable_repeated_zeroes() {
    let z = repeated(0, 10);
    assert_eq!(z, vec![0; 10]);
}

#[test]
fn tuple_extraction_does_not_raise() {
    indexing_tuple();
}

#[test]
fn array_extraction_does_not_raise() {
    indexing_array();
}
