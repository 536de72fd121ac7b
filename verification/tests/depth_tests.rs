use rust_rasterizer::rendering::depth::{fraction_less, Depth};

#[test]
fn empty_is_below_every_depth_and_nothing_is_below_empty() {
    let zero = Depth::At { num: 0, den: 1 };
    assert!(Depth::Empty.is_below(&zero));
    assert!(!zero.is_below(&Depth::Empty));
    assert!(!Depth::Empty.is_below(&Depth::Empty));
}

#[test]
fn depths_compare_as_fractions() {
    let third = Depth::At { num: 1, den: 3 };
    let half = Depth::At { num: 1, den: 2 };
    let two_quarters = Depth::At { num: 2, den: 4 };
    assert!(third.is_below(&half));
    assert!(!half.is_below(&third));
    assert!(!half.is_below(&two_quarters));
    assert!(!two_quarters.is_below(&half));
    assert!(!half.is_below(&half));
}

#[test]
fn fraction_less_on_small_numbers() {
    assert!(fraction_less(1, 3, 1, 2));
    assert!(!fraction_less(1, 2, 1, 3));
    assert!(!fraction_less(2, 4, 1, 2));
    assert!(fraction_less(0, 5, 1, 1000));
    assert!(!fraction_less(0, 5, 0, 7));
    assert!(fraction_less(7, 3, 5, 2));
    assert!(!fraction_less(5, 2, 7, 3));
    // 355 / 113 = 3.14159..., 22 / 7 = 3.14285...
    assert!(fraction_less(355, 113, 22, 7));
    assert!(!fraction_less(22, 7, 355, 113));
}

#[test]
fn fraction_less_where_products_would_overflow() {
    let max = u128::MAX;
    assert!(fraction_less(max - 1, max, max, max));
    assert!(!fraction_less(max, max, max - 1, max));
    assert!(fraction_less(1, max, 1, max - 1));
    assert!(!fraction_less(1, max - 1, 1, max));
    assert!(fraction_less(max - 1, 1, max, 1));
    assert!(!fraction_less(max, max - 1, max, max - 1));
    // (max - 1) / max < (max - 2) / (max - 1) is false: x / (x + 1) grows with x.
    assert!(!fraction_less(max - 1, max, max - 2, max - 1));
    assert!(fraction_less(max - 2, max - 1, max - 1, max));
}

#[test]
fn fraction_less_agrees_with_cross_multiplication() {
    for a in 0u128..12 {
        for b in 1u128..12 {
            for c in 0u128..12 {
                for d in 1u128..12 {
                    assert_eq!(fraction_less(a, b, c, d), a * d < c * b);
                }
            }
        }
    }
}
