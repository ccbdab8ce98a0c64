use morse_tutor::ratio::{accuracy_of, fold_accuracy, gcd_u128, Ratio};

#[test]
fn zero_attempts_yield_zero_accuracy() {
    let r = accuracy_of(0, 0);
    assert_eq!(r.num, 0);
    assert_eq!(r.den, 1);
}

#[test]
fn session_accuracy_is_the_exact_fraction() {
    let r = accuracy_of(2, 4);
    assert_eq!(r.num, 2);
    assert_eq!(r.den, 4);
    let r = accuracy_of(5, 5);
    assert_eq!(r.num, 5);
    assert_eq!(r.den, 5);
}

#[test]
fn gcd_of_machine_integers() {
    assert_eq!(gcd_u128(12, 18), 6);
    assert_eq!(gcd_u128(7, 13), 1);
    assert_eq!(gcd_u128(0, 5), 5);
    assert_eq!(gcd_u128(42, 0), 42);
    assert_eq!(gcd_u128(100, 100), 100);
}

#[test]
fn first_fold_is_the_session_accuracy() {
    let start = Ratio { num: 0, den: 1 };
    let after = fold_accuracy(start, 1, 1, 2);
    assert_eq!((after.num, after.den), (1, 2));
}

#[test]
fn folded_accuracy_equals_the_mean() {
    // Sessions with accuracies 1/2 and 1/1: the running weighted
    // average (1/2 * 1 + 1) / 2 must equal the plain mean 3/4.
    let a1 = fold_accuracy(Ratio { num: 0, den: 1 }, 1, 1, 2);
    let a2 = fold_accuracy(a1, 2, 1, 1);
    assert_eq!((a2.num, a2.den), (3, 4));

    // Three sessions 1/1, 0/2, 1/2: mean is (1 + 0 + 1/2) / 3 = 1/2.
    let b1 = fold_accuracy(Ratio { num: 0, den: 1 }, 1, 1, 1);
    let b2 = fold_accuracy(b1, 2, 0, 2);
    let b3 = fold_accuracy(b2, 3, 1, 2);
    assert_eq!((b3.num, b3.den), (1, 2));
}

#[test]
fn folds_come_out_in_lowest_terms() {
    let a = fold_accuracy(Ratio { num: 0, den: 1 }, 1, 2, 4);
    assert_eq!((a.num, a.den), (1, 2));
    let b = fold_accuracy(Ratio { num: 0, den: 1 }, 1, 0, 7);
    assert_eq!((b.num, b.den), (0, 1));
}

#[test]
fn empty_session_folds_a_zero() {
    // a session with no attempts folds the value zero, exactly
    let a = fold_accuracy(Ratio { num: 1, den: 2 }, 2, 0, 0);
    // (1/2 * 1 + 0) / 2 = 1/4
    assert_eq!((a.num, a.den), (1, 4));
}
