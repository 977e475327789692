use song::time::ClockTick;
use song::utils::{add_elementwise, floor_and_ciel, mul_elementwise, MyRes, XYPairs};
use song::Error;

fn series(xs: &[u32], ys: &[u32]) -> XYPairs<u32, u32> {
    let mut s = XYPairs::new();
    for (x, y) in xs.iter().zip(ys) {
        s.push(*x, *y).unwrap();
    }
    s
}

#[test]
fn floor_and_ciel_places_each_key() {
    let keys: [u32; 3] = [10, 20, 30];
    assert!(matches!(floor_and_ciel(&keys, 20), MyRes::Equal(1)));
    assert!(matches!(floor_and_ciel(&keys, 5), MyRes::ToLow(0)));
    assert!(matches!(floor_and_ciel(&keys, 35), MyRes::ToHigh(2)));
    assert!(matches!(floor_and_ciel(&keys, 25), MyRes::Between(1, 2)));
    assert!(matches!(floor_and_ciel(&keys, 11), MyRes::Between(0, 1)));
    assert!(matches!(floor_and_ciel(&keys, 10), MyRes::Equal(0)));
    assert!(matches!(floor_and_ciel(&keys, 30), MyRes::Equal(2)));
}

#[test]
fn floor_and_ciel_single_key() {
    let keys: [u32; 1] = [7];
    assert!(matches!(floor_and_ciel(&keys, 7), MyRes::Equal(0)));
    assert!(matches!(floor_and_ciel(&keys, 3), MyRes::ToLow(0)));
    assert!(matches!(floor_and_ciel(&keys, 9), MyRes::ToHigh(0)));
}

#[test]
fn push_into_empty_then_ends() {
    let mut s: XYPairs<u32, u32> = XYPairs::new();
    assert!(s.is_empty());
    assert_eq!(s.push(10, 100), Ok(()));
    assert_eq!(s.push(30, 300), Ok(()));
    assert_eq!(s.push(5, 50), Ok(()));
    let (xs, ys) = s.slices();
    assert_eq!(xs, &[5, 10, 30]);
    assert_eq!(ys, &[50, 100, 300]);
    assert!(!s.is_empty());
}

#[test]
fn push_refuses_a_held_key() {
    let mut s = series(&[5, 10, 30], &[50, 100, 300]);
    assert_eq!(s.push(10, 999), Err(Error::Overwrite));
    let (xs, ys) = s.slices();
    assert_eq!(xs, &[5, 10, 30]);
    assert_eq!(ys, &[50, 100, 300]);
}

#[test]
fn push_between_puts_key_low_and_value_high() {
    let mut s = series(&[5, 10, 30], &[50, 100, 300]);
    assert_eq!(s.push(20, 200), Ok(()));
    let (xs, ys) = s.slices();
    assert_eq!(xs, &[5, 20, 10, 30]);
    assert_eq!(ys, &[50, 100, 200, 300]);
}

#[test]
fn push_replace_overwrites_value() {
    let mut s = series(&[5, 10, 30], &[50, 100, 300]);
    s.push_replace(10, 111);
    s.push_replace(40, 400);
    s.push_replace(1, 10);
    let (xs, ys) = s.slices();
    assert_eq!(xs, &[1, 5, 10, 30, 40]);
    assert_eq!(ys, &[10, 50, 111, 300, 400]);
}

#[test]
fn pushed_key_is_found_again() {
    let mut s = series(&[10, 30], &[1, 3]);
    s.push(40, 4).unwrap();
    assert!(s.has_key(40));
    assert!(s.has_key(10));
    assert!(!s.has_key(20));
    match s.get_pairs(40) {
        MyRes::Equal(p) => {
            assert_eq!(p.x(), 40);
            assert_eq!(p.y(), 4);
        }
        _ => panic!("key not found"),
    }
}

#[test]
fn has_key_on_empty_is_false() {
    let s: XYPairs<u32, u32> = XYPairs::new();
    assert!(!s.has_key(0));
}

#[test]
fn get_pairs_brackets_a_key() {
    let s = series(&[10, 20, 30], &[1, 2, 3]);
    match s.get_pairs(25) {
        MyRes::Between(a, b) => {
            assert_eq!((a.x(), a.y()), (20, 2));
            assert_eq!((b.x(), b.y()), (30, 3));
        }
        _ => panic!("expected a bracket"),
    }
    assert!(matches!(s.get_pairs(1), MyRes::ToLow(_)));
    assert!(matches!(s.get_pairs(99), MyRes::ToHigh(_)));
}

#[test]
fn upto_keeps_leading_points() {
    let s = series(&[10, 20, 30], &[1, 2, 3]);
    assert_eq!(s.upto(20), (&[10u32, 20][..], &[1u32, 2][..]));
    assert_eq!(s.upto(25), (&[10u32, 20][..], &[1u32, 2][..]));
    assert_eq!(s.upto(5), (&[][..], &[][..]));
    assert_eq!(s.upto(35), (&[10u32, 20, 30][..], &[1u32, 2, 3][..]));
}

#[test]
fn from_vecs_sorts_by_key_stably() {
    let s = XYPairs::from_vecs(vec![30u32, 10, 20], vec![3u32, 1, 2]);
    let (xs, ys) = s.slices();
    assert_eq!(xs, &[10, 20, 30]);
    assert_eq!(ys, &[1, 2, 3]);
    let t = XYPairs::from_vecs(vec![2u32, 1, 2], vec![7u32, 8, 9]);
    let (xs, ys) = t.slices();
    assert_eq!(xs, &[1, 2, 2]);
    assert_eq!(ys, &[8, 7, 9]);
}

#[test]
fn from_point_and_default() {
    let s = XYPairs::from_point(ClockTick::new(4), 9u8);
    let (xs, ys) = s.slices();
    assert_eq!(xs, &[ClockTick::new(4)]);
    assert_eq!(ys, &[9]);
    let d: XYPairs<u32, u8> = XYPairs::default();
    assert!(d.is_empty());
}

#[test]
fn map_keys_and_values() {
    let s = series(&[1, 2], &[10, 20]);
    let t = s.map_keys(ClockTick::new).map_values(|y| y + 1);
    let (xs, ys) = t.slices();
    assert_eq!(xs, &[ClockTick::new(1), ClockTick::new(2)]);
    assert_eq!(ys, &[11, 21]);
}

#[test]
fn duplicate_holds_the_same_points() {
    let s = series(&[3, 1], &[30, 10]);
    let d = s.duplicate();
    assert_eq!(d.slices(), s.slices());
}

#[test]
fn my_res_map_keeps_variant() {
    let r: MyRes<u32> = MyRes::Between(1, 2);
    assert!(matches!(r.map(|x| x * 10), MyRes::Between(10, 20)));
    let e: MyRes<u32> = MyRes::Equal(3);
    assert!(matches!(e.map(|x| x + 1), MyRes::Equal(4)));
}

#[test]
fn elementwise_sum_and_product() {
    let mut a = vec![1u32, 2, 3];
    add_elementwise(&mut a, &[10, 20, 30]);
    assert_eq!(a, vec![11, 22, 33]);
    mul_elementwise(&mut a, &[2, 3, 4]);
    assert_eq!(a, vec![22, 66, 132]);
    let mut f = vec![0.5f32, 2.0];
    mul_elementwise(&mut f, &[4.0, 0.25]);
    assert_eq!(f, vec![2.0, 0.5]);
}

#[test]
fn clock_tick_arithmetic() {
    let a = ClockTick::new(7);
    let b = ClockTick::new(3);
    assert_eq!(a.plus(b).ticks(), 10);
    assert_eq!(a.minus(b).ticks(), 4);
    assert_eq!(ClockTick::abs_zero().ticks(), 0);
}
