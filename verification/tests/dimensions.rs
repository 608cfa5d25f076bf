use mudi::row_major::extend_size;
use mudi::{Dimensions, Error};

fn out_of(start: i128, end: i128, index: i128) -> Error {
    Error::IndexOutOfBounds { start, end, index }
}

#[test]
fn offset() {
    let dim = 4..10;
    assert_eq!(dim.size(), 6);
    assert_eq!(dim.offset(5), Ok(1));
}

#[test]
fn dimensions_offset() {
    // A signed range.
    let dim = -4..10;
    assert_eq!(dim.size(), 14);
    assert_eq!(dim.offset(5), Ok(9));
    assert_eq!(dim.offset(-3), Ok(1));

    // One axis.
    let dim = 8;
    assert_eq!(dim.size(), 8);
    assert_eq!(dim.offset(3), Ok(3));

    // Two axes.
    let dim = (2, 3);
    assert_eq!(dim.size(), 6);

    assert_eq!(dim.offset((0, 1)), Ok(1));
    assert_eq!(dim.offset((1, 0)), Ok(3));

    assert_eq!(dim.offset((1, 2)), Ok(5));

    // Three axes.
    let dim = (2, 2, 5);
    assert_eq!(dim.size(), 20);

    assert_eq!(dim.offset((0, 0, 1)), Ok(1));
    assert_eq!(dim.offset((0, 1, 0)), Ok(5));
    assert_eq!(dim.offset((1, 0, 0)), Ok(10));

    assert_eq!(dim.offset((1, 1, 4)), Ok(19));

    // Four axes.
    let dim = (2, 2, 5, 3);
    assert_eq!(dim.size(), 60);

    assert_eq!(dim.offset((0, 0, 0, 1)), Ok(1));
    assert_eq!(dim.offset((0, 0, 1, 0)), Ok(3));
    assert_eq!(dim.offset((0, 1, 0, 0)), Ok(15));
    assert_eq!(dim.offset((1, 0, 0, 0)), Ok(30));

    assert_eq!(dim.offset((1, 1, 4, 2)), Ok(59));

    // Five axes.
    let dim = (2, 2, 5, 3, 10);
    assert_eq!(dim.size(), 600);

    assert_eq!(dim.offset((0, 0, 0, 0, 1)), Ok(1));
    assert_eq!(dim.offset((0, 0, 0, 1, 0)), Ok(10));
    assert_eq!(dim.offset((0, 0, 1, 0, 0)), Ok(30));
    assert_eq!(dim.offset((0, 1, 0, 0, 0)), Ok(150));
    assert_eq!(dim.offset((1, 0, 0, 0, 0)), Ok(300));

    assert_eq!(dim.offset((1, 1, 4, 2, 9)), Ok(599));

    // Six axes.
    let dim = (2, 2, 2, 3, 2, 5);
    assert_eq!(dim.size(), 240);

    assert_eq!(dim.offset((0, 0, 0, 0, 0, 1)), Ok(1));
    assert_eq!(dim.offset((0, 0, 0, 0, 1, 0)), Ok(5));
    assert_eq!(dim.offset((0, 0, 0, 1, 0, 0)), Ok(10));
    assert_eq!(dim.offset((0, 0, 1, 0, 0, 0)), Ok(30));
    assert_eq!(dim.offset((0, 1, 0, 0, 0, 0)), Ok(60));
    assert_eq!(dim.offset((1, 0, 0, 0, 0, 0)), Ok(120));

    assert_eq!(dim.offset((1, 1, 1, 2, 1, 4)), Ok(239));

    // Seven axes.
    let dim = (2, 2, 5, 3, 4, 5, 6);
    assert_eq!(dim.size(), 7200);

    assert_eq!(dim.offset((0, 0, 0, 0, 0, 0, 1)), Ok(1));
    assert_eq!(dim.offset((0, 0, 0, 0, 0, 1, 0)), Ok(6));
    assert_eq!(dim.offset((0, 0, 0, 0, 1, 0, 0)), Ok(30));
    assert_eq!(dim.offset((0, 0, 0, 1, 0, 0, 0)), Ok(120));
    assert_eq!(dim.offset((0, 0, 1, 0, 0, 0, 0)), Ok(360));
    assert_eq!(dim.offset((0, 1, 0, 0, 0, 0, 0)), Ok(1800));
    assert_eq!(dim.offset((1, 0, 0, 0, 0, 0, 0)), Ok(3600));

    assert_eq!(dim.offset((1, 1, 4, 2, 3, 4, 5)), Ok(7199));
}

#[test]
fn urange_bigger_than_dim() {
    let dim = 4..10;
    assert_eq!(dim.offset(11), Err(out_of(4, 10, 11)));
}

#[test]
fn urange_smaller_than_dim() {
    let dim = 4..10;
    assert_eq!(dim.offset(2), Err(out_of(4, 10, 2)));
}

#[test]
fn irange_bigger_than_dim() {
    let dim = -4..10;
    assert_eq!(dim.offset(11), Err(out_of(-4, 10, 11)));
}

#[test]
fn irange_smaller_than_dim() {
    let dim = -4..10;
    assert_eq!(dim.offset(-6), Err(out_of(-4, 10, -6)));
}

#[test]
fn dim1_bigger_than_dim() {
    let dim = 4;
    assert_eq!(dim.offset(5), Err(out_of(0, 4, 5)));
}

#[test]
fn dim2_bigger_than_dim_1() {
    let dim = (8, 6);
    assert_eq!(dim.offset((8, 4)), Err(out_of(0, 8, 8)));
}

#[test]
fn dim2_bigger_than_dim_2() {
    let dim = (8, 6);
    assert_eq!(dim.offset((7, 8)), Err(out_of(0, 6, 8)));
}

#[test]
fn dim3_bigger_than_dim_1() {
    let dim = (2, 6, 6);
    assert_eq!(dim.offset((9, 4, 3)), Err(out_of(0, 2, 9)));
}

#[test]
fn dim3_bigger_than_dim_2() {
    let dim = (2, 6, 6);
    assert_eq!(dim.offset((1, 8, 3)), Err(out_of(0, 6, 8)));
}

#[test]
fn dim3_bigger_than_dim_3() {
    let dim = (2, 6, 6);
    assert_eq!(dim.offset((1, 4, 12)), Err(out_of(0, 6, 12)));
}

#[test]
fn dim4_bigger_than_dim_1() {
    let dim = (2, 6, 6, 42);
    assert_eq!(dim.offset((9, 4, 3, 4)), Err(out_of(0, 2, 9)));
}

#[test]
fn dim4_bigger_than_dim_2() {
    let dim = (2, 6, 6, 42);
    assert_eq!(dim.offset((1, 8, 3, 4)), Err(out_of(0, 6, 8)));
}

#[test]
fn dim4_bigger_than_dim_3() {
    let dim = (2, 6, 6, 42);
    assert_eq!(dim.offset((1, 4, 6, 4)), Err(out_of(0, 6, 6)));
}

#[test]
fn dim4_bigger_than_dim_4() {
    let dim = (2, 6, 6, 42);
    assert_eq!(dim.offset((1, 4, 3, 45)), Err(out_of(0, 42, 45)));
}

#[test]
fn dim5_bigger_than_dim_1() {
    let dim = (2, 6, 6, 42, 28);
    assert_eq!(dim.offset((890, 4, 3, 40, 20)), Err(out_of(0, 2, 890)));
}

#[test]
fn dim5_bigger_than_dim_2() {
    let dim = (2, 6, 6, 42, 28);
    assert_eq!(dim.offset((1, 6, 3, 40, 20)), Err(out_of(0, 6, 6)));
}

#[test]
fn dim5_bigger_than_dim_3() {
    let dim = (2, 6, 6, 42, 28);
    assert_eq!(dim.offset((1, 4, 8, 40, 20)), Err(out_of(0, 6, 8)));
}

#[test]
fn dim5_bigger_than_dim_4() {
    let dim = (2, 6, 6, 42, 28);
    assert_eq!(dim.offset((1, 4, 3, 130, 20)), Err(out_of(0, 42, 130)));
}

#[test]
fn dim5_bigger_than_dim_5() {
    let dim = (2, 6, 6, 42, 28);
    assert_eq!(dim.offset((1, 4, 3, 40, 40)), Err(out_of(0, 28, 40)));
}

#[test]
fn dim6_bigger_than_dim_1() {
    let dim = (2, 6, 6, 42, 28, 98);
    assert_eq!(dim.offset((890, 4, 3, 40, 20, 70)), Err(out_of(0, 2, 890)));
}

#[test]
fn dim6_bigger_than_dim_2() {
    let dim = (2, 6, 6, 42, 28, 98);
    assert_eq!(dim.offset((1, 6, 3, 40, 20, 70)), Err(out_of(0, 6, 6)));
}

#[test]
fn dim6_bigger_than_dim_3() {
    let dim = (2, 6, 6, 42, 28, 98);
    assert_eq!(dim.offset((1, 4, 8, 40, 20, 70)), Err(out_of(0, 6, 8)));
}

#[test]
fn dim6_bigger_than_dim_4() {
    let dim = (2, 6, 6, 42, 28, 98);
    assert_eq!(dim.offset((1, 4, 3, 130, 20, 70)), Err(out_of(0, 42, 130)));
}

#[test]
fn dim6_bigger_than_dim_5() {
    let dim = (2, 6, 6, 42, 28, 98);
    assert_eq!(dim.offset((1, 4, 3, 40, 40, 70)), Err(out_of(0, 28, 40)));
}

#[test]
fn dim6_bigger_than_dim_6() {
    let dim = (2, 6, 6, 42, 28, 98);
    assert_eq!(dim.offset((1, 4, 3, 40, 20, 100)), Err(out_of(0, 98, 100)));
}

#[test]
fn dim7_bigger_than_dim_1() {
    let dim = (2, 6, 6, 42, 28, 98, 6);
    assert_eq!(dim.offset((890, 4, 3, 40, 20, 70, 4)), Err(out_of(0, 2, 890)));
}

#[test]
fn dim7_bigger_than_dim_2() {
    let dim = (2, 6, 6, 42, 28, 98, 6);
    assert_eq!(dim.offset((1, 6, 3, 40, 20, 70, 4)), Err(out_of(0, 6, 6)));
}

#[test]
fn dim7_bigger_than_dim_3() {
    let dim = (2, 6, 6, 42, 28, 98, 6);
    assert_eq!(dim.offset((1, 4, 8, 40, 20, 70, 4)), Err(out_of(0, 6, 8)));
}

#[test]
fn dim7_bigger_than_dim_4() {
    let dim = (2, 6, 6, 42, 28, 98, 6);
    assert_eq!(dim.offset((1, 4, 3, 130, 20, 70, 4)), Err(out_of(0, 42, 130)));
}

#[test]
fn dim7_bigger_than_dim_5() {
    let dim = (2, 6, 6, 42, 28, 98, 6);
    assert_eq!(dim.offset((1, 4, 3, 40, 40, 70, 4)), Err(out_of(0, 28, 40)));
}

#[test]
fn dim7_bigger_than_dim_6() {
    let dim = (2, 6, 6, 42, 28, 98, 6);
    assert_eq!(dim.offset((1, 4, 3, 40, 20, 100, 4)), Err(out_of(0, 98, 100)));
}

#[test]
fn bigger_than_dim_7() {
    let dim = (2, 6, 6, 42, 28, 98, 6);
    assert_eq!(dim.offset((1, 4, 3, 40, 20, 70, 9)), Err(out_of(0, 6, 9)));
}

#[test]
fn row_major_order_of_two_axes() {
    let dim = (2, 3);
    assert_eq!(dim.offset((0, 0)), Ok(0));
    assert_eq!(dim.offset((0, 1)), Ok(1));
    assert_eq!(dim.offset((0, 2)), Ok(2));
    assert_eq!(dim.offset((1, 0)), Ok(3));
    assert_eq!(dim.offset((1, 1)), Ok(4));
    assert_eq!(dim.offset((1, 2)), Ok(5));
}

#[test]
fn unsigned_range() {
    let dim = 4usize..10;
    assert_eq!(dim.size(), 6);
    assert_eq!(dim.checked_size(), Some(6));
    assert_eq!(dim.offset(4), Ok(0));
    assert_eq!(dim.offset(5), Ok(1));
    assert_eq!(dim.offset(9), Ok(5));
    assert_eq!(dim.offset(10), Err(out_of(4, 10, 10)));
    assert_eq!(dim.offset(3), Err(out_of(4, 10, 3)));
    assert_eq!(dim.offset(0), Err(out_of(4, 10, 0)));
}

#[test]
fn signed_range_bounds() {
    let dim = -4..10;
    assert_eq!(dim.checked_size(), Some(14));
    // The lowest coordinate is at offset zero.
    assert_eq!(dim.offset(-4), Ok(0));
    assert_eq!(dim.offset(9), Ok(13));
    assert_eq!(dim.offset(10), Err(out_of(-4, 10, 10)));
    assert_eq!(dim.offset(-5), Err(out_of(-4, 10, -5)));

    let dim = i32::MIN..i32::MAX;
    assert_eq!(dim.size(), 4294967295);
    assert_eq!(dim.offset(i32::MIN), Ok(0));
    assert_eq!(dim.offset(0), Ok(2147483648));
    assert_eq!(dim.offset(i32::MAX - 1), Ok(4294967294));
    assert_eq!(
        dim.offset(i32::MAX),
        Err(out_of(-2147483648, 2147483647, 2147483647))
    );
}

#[test]
fn empty_and_inverted_ranges_have_size_zero() {
    let dim = 5..5;
    assert_eq!(dim.size(), 0);
    assert_eq!(dim.offset(5), Err(out_of(5, 5, 5)));
    assert_eq!(dim.offset(4), Err(out_of(5, 5, 4)));

    let dim = 10..-4;
    assert_eq!(dim.size(), 0);
    assert_eq!(dim.offset(0), Err(out_of(10, -4, 0)));
    assert_eq!(dim.offset(10), Err(out_of(10, -4, 10)));

    let dim = 7usize..7;
    assert_eq!(dim.size(), 0);
    assert_eq!(dim.offset(7), Err(out_of(7, 7, 7)));

    let dim = 10usize..4;
    assert_eq!(dim.size(), 0);
    assert_eq!(dim.checked_size(), Some(0));
    assert_eq!(dim.offset(5), Err(out_of(10, 4, 5)));

    let dim = 0;
    assert_eq!(dim.size(), 0);
    assert_eq!(dim.offset(0), Err(out_of(0, 0, 0)));

    // A composite with an axis of size zero has size zero.
    let dim = (3, 5..5, 4);
    assert_eq!(dim.size(), 0);
    assert_eq!(dim.offset((1, 5, 1)), Err(out_of(5, 5, 5)));
}

#[test]
fn the_first_rejecting_axis_is_reported() {
    let dim = (2, -3..3, 4);
    assert_eq!(dim.offset((2, 3, 4)), Err(out_of(0, 2, 2)));
    assert_eq!(dim.offset((1, 3, 4)), Err(out_of(-3, 3, 3)));
    assert_eq!(dim.offset((1, -4, 4)), Err(out_of(-3, 3, -4)));
    assert_eq!(dim.offset((1, 2, 4)), Err(out_of(0, 4, 4)));
    assert_eq!(dim.offset((1, 2, 3)), Ok(47));
}

#[test]
fn mixed_axes() {
    let dim = (3, 4, -10..10);
    assert_eq!(dim.size(), 240);
    assert_eq!(dim.offset((0, 0, -10)), Ok(0));
    assert_eq!(dim.offset((1, 2, -6)), Ok(124));
    assert_eq!(dim.offset((2, 3, 9)), Ok(239));

    let dim = (-20..20, 5, 6usize..8);
    assert_eq!(dim.size(), 400);
    assert_eq!(dim.offset((-20, 0, 6)), Ok(0));
    assert_eq!(dim.offset((-19, 0, 6)), Ok(10));
    assert_eq!(dim.offset((0, 4, 7)), Ok(209));
    assert_eq!(dim.offset((0, 4, 8)), Err(out_of(6, 8, 8)));
}

#[test]
fn size_is_the_product_of_the_sizes() {
    let a = 3;
    let b = -2..5;
    let c = 4usize..6;
    let d = (2, 2);
    assert_eq!((a, b.clone()).size(), a.size() * b.size());
    assert_eq!(
        (a, b.clone(), c.clone()).size(),
        a.size() * b.size() * c.size()
    );
    assert_eq!(
        (a, b.clone(), c.clone(), d).size(),
        a.size() * b.size() * c.size() * d.size()
    );
    assert_eq!((a, b, c, d).size(), 168);
}

#[test]
fn offsets_are_the_numbers_below_the_size_in_order() {
    let dim = (2, -1..2, 3, 2usize..4);
    let size = dim.size();
    assert_eq!(size, 36);
    let mut expected = 0;
    for i in 0..2 {
        for j in -1..2 {
            for k in 0..3 {
                for l in 2..4 {
                    let offset = dim.offset((i, j, k, l)).unwrap();
                    assert!(offset < size);
                    assert_eq!(offset, expected);
                    expected += 1;
                }
            }
        }
    }
    assert_eq!(expected, size);
}

#[test]
fn nested_shapes() {
    // A composite is an axis of a larger composite.
    let dim = ((2, 3), 4);
    assert_eq!(dim.size(), 24);
    assert_eq!(dim.offset(((1, 2), 3)), Ok(23));
    assert_eq!(dim.offset(((1, 0), 1)), (2, 3, 4).offset((1, 0, 1)));
    assert_eq!(dim.offset(((1, 3), 1)), Err(out_of(0, 3, 3)));

    let dim = (2, (3, 4));
    assert_eq!(dim.offset((1, (0, 1))), (2, 3, 4).offset((1, 0, 1)));

    // Nine axes.
    let dim = ((2, 2, 2, 2, 2, 2, 2), (3, 3));
    assert_eq!(dim.size(), 1152);
    assert_eq!(dim.offset(((0, 0, 0, 0, 0, 0, 1), (0, 0))), Ok(9));
    assert_eq!(dim.offset(((1, 1, 1, 1, 1, 1, 1), (2, 2))), Ok(1151));
}

#[test]
fn checked_size_is_none_where_the_size_does_not_fit() {
    assert_eq!((usize::MAX, 1).checked_size(), Some(usize::MAX));
    assert_eq!((usize::MAX, 2).checked_size(), None);
    assert_eq!((2, usize::MAX).checked_size(), None);
    assert_eq!((1 << 16, 1 << 16, 1 << 16, 1 << 16).checked_size(), None);
    assert_eq!(((usize::MAX, 2), 3).checked_size(), None);
    assert_eq!((usize::MAX, 2, 3, 4, 5, 6, 7).checked_size(), None);
    assert_eq!((2, 3, 4, 5, 6, 7, usize::MAX).checked_size(), None);
    assert_eq!((2, 3, 4, 5, 6, 7, 8).checked_size(), Some(40320));
    assert_eq!((-4..10, 2).checked_size(), Some(28));
}

#[test]
fn same_and_duplicate() {
    let dim = (3, -4..10, 2usize..5);
    assert!(dim.same(&dim.duplicate()));
    assert_eq!(dim.duplicate(), dim);
    assert!(dim.same(&(3, -4..10, 2usize..5)));
    assert!(!dim.same(&(3, -4..10, 2usize..6)));
    assert!(!dim.same(&(3, -3..10, 2usize..5)));
    assert!(!dim.same(&(4, -4..10, 2usize..5)));
    assert!(!(0..3).same(&(1..4)));
    assert!(8.same(&8));
    assert!(!8.same(&9));
}

#[test]
fn an_axis_of_size_zero_makes_the_size_zero() {
    // Whatever the sizes of the other axes.
    assert_eq!((0, usize::MAX, 2).checked_size(), Some(0));
    assert_eq!((usize::MAX, 2, 0).checked_size(), Some(0));
    assert_eq!(((usize::MAX, 2), 0).checked_size(), Some(0));
    assert_eq!((usize::MAX, (usize::MAX, 5..5)).checked_size(), Some(0));
    assert_eq!((usize::MAX, usize::MAX, 0, usize::MAX).size(), 0);
    assert_eq!(((usize::MAX, 2), 0).size(), 0);

    let dim = (usize::MAX, usize::MAX, 0);
    assert_eq!(dim.offset((1, 1, 0)), Err(out_of(0, 0, 0)));
    assert_eq!(
        dim.offset((usize::MAX, 1, 0)),
        Err(out_of(0, usize::MAX as i128, usize::MAX as i128))
    );
    let dim = ((usize::MAX, usize::MAX), 3..3);
    assert_eq!(
        dim.offset(((usize::MAX - 1, usize::MAX - 1), 3)),
        Err(out_of(3, 3, 3))
    );
}

#[test]
fn check_validates_without_computing() {
    let dim = (2, -3..3, 4usize..6);
    assert_eq!(dim.check(&(1, 2, 5)), Ok(()));
    assert_eq!(dim.check(&(0, -3, 4)), Ok(()));
    assert_eq!(dim.check(&(2, 2, 5)), Err(out_of(0, 2, 2)));
    assert_eq!(dim.check(&(1, 3, 6)), Err(out_of(-3, 3, 3)));
    assert_eq!(dim.check(&(1, 2, 6)), Err(out_of(4, 6, 6)));
    assert_eq!(dim.check(&(1, 2, 3)), Err(out_of(4, 6, 3)));

    assert_eq!(8.check(&7), Ok(()));
    assert_eq!(8.check(&8), Err(out_of(0, 8, 8)));
    assert_eq!((-4..10).check(&-4), Ok(()));
    assert_eq!((-4..10).check(&10), Err(out_of(-4, 10, 10)));
    assert_eq!((4usize..10).check(&3), Err(out_of(4, 10, 3)));

    // A shape too large to have offsets still has coordinates.
    let dim = (usize::MAX, usize::MAX);
    assert_eq!(dim.check(&(usize::MAX - 1, 5)), Ok(()));
    assert_eq!(
        dim.check(&(5, usize::MAX)),
        Err(out_of(0, usize::MAX as i128, usize::MAX as i128))
    );

    // What `check` accepts is what `offset` accepts.
    let dim = (3, 0..2);
    for i in 0..5 {
        for j in -1..4 {
            assert_eq!(dim.check(&(i, j)), dim.offset((i, j)).map(|_| ()));
        }
    }
}

#[test]
fn extend_size_multiplies_sizes_that_may_not_fit() {
    assert_eq!(extend_size(Some(3), Some(4)), Some(12));
    assert_eq!(extend_size(Some(1), Some(usize::MAX)), Some(usize::MAX));
    assert_eq!(extend_size(Some(usize::MAX), Some(2)), None);
    assert_eq!(extend_size(Some(1 << 32), Some(1 << 32)), None);
    assert_eq!(extend_size(None, Some(2)), None);
    assert_eq!(extend_size(Some(2), None), None);
    assert_eq!(extend_size(None, None), None);
    // A size that does not fit, times zero, is zero.
    assert_eq!(extend_size(None, Some(0)), Some(0));
    assert_eq!(extend_size(Some(0), None), Some(0));
    assert_eq!(extend_size(Some(0), Some(0)), Some(0));
    assert_eq!(extend_size(Some(0), Some(7)), Some(0));
}
