use mudi::Array;

#[test]
fn from_value() {
    let array = Array::from_element(0.0, (4, 5, 6));

    for val in array.flat_iter() {
        assert_eq!(*val, 0.0);
    }
}

#[test]
fn macros_from_vector() {
    let array = Array::from_vector(vec![0.0, 1.0, 2.0, 3.0], (2, 2)).unwrap();

    assert_eq!(
        array,
        Array::from_vector(vec![0.0, 1.0, 2.0, 3.0], (2, 2)).unwrap()
    );
}
