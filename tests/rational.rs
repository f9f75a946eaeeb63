use numkern::rat::Rat;
use numkern::rules::{Identity, PowersOfTen};

#[test]
fn mogus() {
    let third: Rat<i32> = Rat::new(2, 6);
    println!("({}/{})", third.n, third.d);
    assert_eq!(third.n, 1);
    assert_eq!(third.d, 3);
}

#[test]
fn new_moves_the_sign_to_the_numerator() {
    let q: Rat<i64> = Rat::new(4, -10);
    assert_eq!((q.n, q.d), (-2, 5));
    let q: Rat<i64> = Rat::new(-4, -10);
    assert_eq!((q.n, q.d), (2, 5));
}

#[test]
fn new_with_zero_numerator() {
    let q: Rat<i16> = Rat::new(0, -7);
    assert_eq!((q.n, q.d), (0, 1));
}

#[test]
fn raw_and_whole_keep_their_parts() {
    let q: Rat<i8> = Rat::raw(6, 4);
    assert_eq!((q.n, q.d), (6, 4));
    let w: Rat<isize> = Rat::whole(-9);
    assert_eq!((w.n, w.d), (-9, 1));
}

#[test]
fn greatest_common_factor() {
    assert_eq!(numkern::rat::gcf(12i32, 18i32), 6);
    assert_eq!(numkern::rat::gcf(0i64, 7i64), 7);
    assert_eq!(numkern::rat::gcf(9i16, 0i16), 9);
    assert_eq!(numkern::rat::gcf(13i8, 13i8), 13);
}

#[test]
fn rational_identities_and_powers_of_ten() {
    let z: Rat<i32> = Rat::zero();
    assert_eq!((z.n, z.d), (0, 1));
    let o: Rat<i64> = Rat::one();
    assert_eq!((o.n, o.d), (1, 1));
    let small: Rat<i32> = Rat::order_of(-3);
    assert_eq!((small.n, small.d), (1, 1000));
    let big: Rat<i32> = Rat::order_of(2);
    assert_eq!((big.n, big.d), (100, 1));
}
