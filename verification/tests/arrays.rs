use mudi::{Array, Error};

#[test]
fn indexing() {
    let mut a = Array::from_vector(vec![3, 4, 5], 3).unwrap();

    assert_eq!(a.read(0), Ok(&3));
    assert_eq!(a.read(1), Ok(&4));
    assert_eq!(a.read(2), Ok(&5));

    a.write(2, 42).unwrap();
    assert_eq!(a.read(2), Ok(&42));
}

#[test]
fn arrays_from_vector() {
    let mut a = Array::from_vector(vec![3, 4, 5, 78], 4).unwrap();
    assert_eq!(a.read(3), Ok(&78));
    a.write(3, 42).unwrap();
    assert_eq!(a.read(3), Ok(&42));
}

#[test]
fn from_element() {
    let mut a = Array::from_element(678, (7, 7));
    assert_eq!(a.read((3, 4)), Ok(&678));
    a.write((3, 4), 42).unwrap();
    assert_eq!(a.read((3, 4)), Ok(&42));
}

#[test]
fn shape() {
    let a = Array::from_element(678, (7, 7));
    assert_eq!(a.shape(), (7, 7));

    let a = Array::from_element(678, (7, 7..10));
    assert_eq!(a.shape(), (7, 7..10));
}

#[test]
fn from_vector_reads_in_row_major_order() {
    let a = Array::from_vector(vec![1, 2, 3, 4], (2, 2)).unwrap();
    assert_eq!(a.read((0, 0)), Ok(&1));
    assert_eq!(a.read((0, 1)), Ok(&2));
    assert_eq!(a.read((1, 0)), Ok(&3));
    assert_eq!(a.read((1, 1)), Ok(&4));
}

#[test]
fn from_vector_rejects_a_wrong_length() {
    // The shape has 14 coordinates and the vector 4 elements.
    let a = Array::from_vector(vec![1, 2, 3, 4], (2, 7));
    assert_eq!(a.err(), Some(Error::ShapeMismatch));

    let a = Array::from_vector(vec![1, 2, 3, 4], -4..10);
    assert_eq!(a.err(), Some(Error::ShapeMismatch));

    let a = Array::from_vector(vec![1, 2, 3, 4, 5], 4);
    assert_eq!(a.err(), Some(Error::ShapeMismatch));

    let a = Array::from_vector(Vec::<u8>::new(), 1);
    assert_eq!(a.err(), Some(Error::ShapeMismatch));
}

#[test]
fn from_vector_rejects_a_shape_too_large_for_any_vector() {
    let a = Array::from_vector(vec![0u8; 4], (usize::MAX, 2));
    assert_eq!(a.err(), Some(Error::ShapeMismatch));

    let a = Array::from_vector(Vec::<u8>::new(), (usize::MAX, usize::MAX));
    assert_eq!(a.err(), Some(Error::ShapeMismatch));

    let a = Array::from_vector(vec![0u8; 2], (usize::MAX, usize::MAX, 2));
    assert_eq!(a.err(), Some(Error::ShapeMismatch));
}

#[test]
fn a_shape_with_an_axis_of_size_zero_has_no_elements() {
    let mut a = Array::from_vector(Vec::<u8>::new(), (usize::MAX, usize::MAX, 0)).unwrap();
    assert_eq!(a.flat_iter().count(), 0);
    assert_eq!(
        a.read((1, 1, 0)),
        Err(Error::IndexOutOfBounds { start: 0, end: 0, index: 0 })
    );
    assert_eq!(
        a.write((usize::MAX, 1, 0), 1),
        Err(Error::IndexOutOfBounds {
            start: 0,
            end: usize::MAX as i128,
            index: usize::MAX as i128
        })
    );
    assert_eq!(a.shape(), (usize::MAX, usize::MAX, 0));

    let a = Array::from_vector(vec![0u8], (usize::MAX, usize::MAX, 0));
    assert_eq!(a.err(), Some(Error::ShapeMismatch));
}

#[test]
fn empty_shapes_make_empty_arrays() {
    let a = Array::from_vector(Vec::<u8>::new(), (3, 0)).unwrap();
    assert_eq!(a.flat_iter().count(), 0);
    assert_eq!(
        a.read((0, 0)),
        Err(Error::IndexOutOfBounds { start: 0, end: 0, index: 0 })
    );

    let a = Array::from_element(1u8, 5..5);
    assert_eq!(a.flat_iter().count(), 0);
    assert_eq!(a.shape(), 5..5);
}

#[test]
fn read_and_write_report_the_rejecting_axis() {
    let mut a = Array::from_element(0, (3, 4, -10..10));

    assert_eq!(
        a.read((3, 0, 0)),
        Err(Error::IndexOutOfBounds { start: 0, end: 3, index: 3 })
    );
    assert_eq!(
        a.read((0, 0, 10)),
        Err(Error::IndexOutOfBounds { start: -10, end: 10, index: 10 })
    );
    assert_eq!(
        a.write((0, 4, -11), 1),
        Err(Error::IndexOutOfBounds { start: 0, end: 4, index: 4 })
    );
    assert_eq!(
        a.write((0, 0, -11), 1),
        Err(Error::IndexOutOfBounds { start: -10, end: 10, index: -11 })
    );

    // A failed write changes nothing.
    assert!(a.flat_iter().all(|x| *x == 0));
}

#[test]
fn negative_coordinates() {
    let mut a = Array::from_element(0.0, (3, 4, -10..10));

    assert_eq!(a.read((0, 0, 0)), Ok(&0.0));
    a.write((1, 2, -6), 42.0).unwrap();
    assert_eq!(a.read((1, 2, -6)), Ok(&42.0));

    // (1, 2, -6) is at 1 * 80 + 2 * 20 + 4.
    assert_eq!(a.flat_iter().position(|x| *x == 42.0), Some(124));
}

#[test]
fn write_then_read() {
    let shape = (2, -1..2, 3);
    let mut a = Array::from_element(0usize, shape.clone());
    let mut next = 1;
    for i in 0..2 {
        for j in -1..2 {
            for k in 0..3 {
                a.write((i, j, k), next).unwrap();
                assert_eq!(a.read((i, j, k)), Ok(&next));
                next += 1;
            }
        }
    }
    // No write has touched the element of another coordinate.
    let mut next = 1;
    for i in 0..2 {
        for j in -1..2 {
            for k in 0..3 {
                assert_eq!(a.read((i, j, k)), Ok(&next));
                next += 1;
            }
        }
    }
    assert_eq!(a.shape(), shape);
}

#[test]
fn flat_iteration_is_row_major() {
    let mut array = Array::from_element(0, (3, 2));
    for i in 0..3 {
        for j in 0..2 {
            array.write((i, j), i).unwrap();
        }
    }
    let flat: Vec<usize> = array.flat_iter().copied().collect();
    assert_eq!(flat, vec![0, 0, 1, 1, 2, 2]);

    // The flat order is the order of the coordinates, the last axis fastest.
    let array = Array::from_vector((0..24).collect(), (2, 3, 4)).unwrap();
    let mut flat = array.flat_iter();
    for i in 0..2 {
        for j in 0..3 {
            for k in 0..4 {
                assert_eq!(flat.next(), Some(array.read((i, j, k)).unwrap()));
            }
        }
    }
    assert_eq!(flat.next(), None);
    assert_eq!(array.flat_iter().count(), 24);
}

#[test]
fn flat_iteration_can_be_restarted() {
    let array = Array::from_vector(vec![1, 2, 3, 4, 5, 6], (3, 2)).unwrap();
    let first: Vec<i32> = array.flat_iter().copied().collect();
    let second: Vec<i32> = array.flat_iter().copied().collect();
    assert_eq!(first, vec![1, 2, 3, 4, 5, 6]);
    assert_eq!(first, second);
}

#[test]
fn flat_iter_mut_writes_through() {
    let mut array = Array::from_vector(vec![1, 2, 3, 4, 5, 6], (2, 3)).unwrap();
    for value in array.flat_iter_mut() {
        *value *= 10;
    }
    assert_eq!(array.read((0, 0)), Ok(&10));
    assert_eq!(array.read((0, 2)), Ok(&30));
    assert_eq!(array.read((1, 0)), Ok(&40));
    assert_eq!(array.read((1, 2)), Ok(&60));
    assert_eq!(array.shape(), (2, 3));

    array.flat_iter_mut()[4] = 7;
    assert_eq!(array.read((1, 1)), Ok(&7));
    assert_eq!(array.flat_iter_mut().len(), 6);
}

#[test]
fn equality() {
    let a = Array::from_vector(vec![1, 2, 3, 4, 5, 6], (2, 3)).unwrap();
    let b = Array::from_vector(vec![1, 2, 3, 4, 5, 6], (2, 3)).unwrap();
    assert!(a == b);
    assert_eq!(a, b);

    // The same elements in another shape.
    let c = Array::from_vector(vec![1, 2, 3, 4, 5, 6], (3, 2)).unwrap();
    assert!(a != c);

    // The same shape with another element.
    let mut d = Array::from_vector(vec![1, 2, 3, 4, 5, 6], (2, 3)).unwrap();
    d.write((1, 2), 0).unwrap();
    assert!(a != d);
    d.write((1, 2), 6).unwrap();
    assert!(a == d);

    // Ranges of the same size and different bounds are different shapes.
    let e = Array::from_element(0, (2, 0..3));
    let f = Array::from_element(0, (2, 1..4));
    assert!(e != f);
    assert!(e == Array::from_element(0, (2, 0..3)));
}

#[test]
fn from_element_clones_the_element() {
    let a = Array::from_element(vec![1, 2, 3, 4], (2, 7));
    assert_eq!(a.shape(), (2, 7));
    assert_eq!(a.flat_iter().count(), 14);
    assert!(a.flat_iter().all(|v| *v == vec![1, 2, 3, 4]));
}
