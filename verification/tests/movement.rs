use technobabble::movement::{Movement, Q8p24, Vector};
use technobabble::rtree::{Point, Rectangle};

const ONE: i32 = 1 << 24;

fn rect(x0: i16, y0: i16, x1: i16, y1: i16) -> Rectangle {
    Rectangle {
        min: Point::new(x0, y0),
        max: Point::new(x1, y1),
    }
}

#[test]
fn trunc_rounds_down() {
    assert_eq!(Q8p24(ONE + 5).trunc(), Q8p24(ONE));
    assert_eq!(Q8p24(3 * ONE).trunc(), Q8p24(3 * ONE));
    assert_eq!(Q8p24(ONE - 1).trunc(), Q8p24(0));
    assert_eq!(Q8p24(-1).trunc(), Q8p24(-ONE));
    assert_eq!(Q8p24(-ONE - 1).trunc(), Q8p24(-2 * ONE));
    assert_eq!(Q8p24(i32::MIN).trunc(), Q8p24(i32::MIN));
    assert_eq!(Q8p24(i32::MAX).trunc(), Q8p24(127 * ONE));
}

#[test]
fn fract_is_what_trunc_takes_away() {
    assert_eq!(Q8p24(ONE + 5).fract(), Q8p24(5));
    assert_eq!(Q8p24(3 * ONE).fract(), Q8p24(0));
    assert_eq!(Q8p24(-1).fract(), Q8p24(ONE - 1));
    assert_eq!(Q8p24(i32::MAX).fract(), Q8p24(ONE - 1));
    for raw in [0, 1, -1, 12345678, -12345678, i32::MAX, i32::MIN, ONE, -ONE] {
        let q = Q8p24(raw);
        assert_eq!(q.trunc().0 as i64 + q.fract().0 as i64, raw as i64);
        assert!(q.fract().0 >= 0 && q.fract().0 < ONE);
    }
}

#[test]
fn sums_and_differences_saturate() {
    assert_eq!(Q8p24(5) + Q8p24(7), Q8p24(12));
    assert_eq!(Q8p24(5) - Q8p24(7), Q8p24(-2));
    assert_eq!(Q8p24(i32::MAX) + Q8p24(1), Q8p24(i32::MAX));
    assert_eq!(Q8p24(i32::MIN) + Q8p24(-1), Q8p24(i32::MIN));
    assert_eq!(Q8p24(i32::MIN) - Q8p24(1), Q8p24(i32::MIN));
    assert_eq!(Q8p24(i32::MAX) - Q8p24(-1), Q8p24(i32::MAX));
    assert_eq!(Q8p24(i32::MAX) + Q8p24(i32::MIN), Q8p24(-1));
    assert_eq!(Q8p24(0) - Q8p24(i32::MIN), Q8p24(i32::MAX));
}

#[test]
fn products_round_down_and_wrap() {
    assert_eq!(Q8p24(2 * ONE) * Q8p24(3 * ONE), Q8p24(6 * ONE));
    assert_eq!(Q8p24(ONE / 2) * Q8p24(ONE / 2), Q8p24(ONE / 4));
    assert_eq!(Q8p24(1) * Q8p24(1), Q8p24(0));
    assert_eq!(Q8p24(-1) * Q8p24(1), Q8p24(-1));
    assert_eq!(Q8p24(-3 * ONE) * Q8p24(ONE / 2), Q8p24(-3 * ONE / 2));
    assert_eq!(Q8p24(64 * ONE) * Q8p24(2 * ONE), Q8p24(i32::MIN));
    assert_eq!(Q8p24(64 * ONE) * Q8p24(4 * ONE), Q8p24(0));
}

#[test]
fn quotients_round_toward_zero_and_wrap() {
    assert_eq!(Q8p24(6 * ONE) / Q8p24(3 * ONE), Q8p24(2 * ONE));
    assert_eq!(Q8p24(ONE) / Q8p24(2 * ONE), Q8p24(ONE / 2));
    assert_eq!(Q8p24(-ONE) / Q8p24(2 * ONE), Q8p24(-ONE / 2));
    assert_eq!(Q8p24(1) / Q8p24(3 * ONE), Q8p24(0));
    assert_eq!(Q8p24(-1) / Q8p24(3 * ONE), Q8p24(0));
    assert_eq!(Q8p24(7) / Q8p24(-2 * ONE), Q8p24(-3));
    assert_eq!(Q8p24(-7) / Q8p24(-2 * ONE), Q8p24(3));
    assert_eq!(Q8p24(ONE) / Q8p24(1), Q8p24(0));
    assert_eq!(Q8p24(100 * ONE) / Q8p24(ONE / 2), Q8p24(-56 * ONE));
}

#[test]
fn whole_numbers_convert_both_ways() {
    assert_eq!(Q8p24::from(1i8), Q8p24(ONE));
    assert_eq!(Q8p24::from(-128i8), Q8p24(i32::MIN));
    assert_eq!(Q8p24::from(127i8), Q8p24(127 * ONE));
    assert_eq!(Q8p24::from(0i8), Q8p24(0));
    assert_eq!(i8::from(Q8p24(ONE + 9)), 1);
    assert_eq!(i8::from(Q8p24(-1)), -1);
    assert_eq!(i8::from(Q8p24(i32::MAX)), 127);
    assert_eq!(i8::from(Q8p24(i32::MIN)), -128);
    for i in i8::MIN..=i8::MAX {
        assert_eq!(i8::from(Q8p24::from(i)), i);
    }
}

#[test]
fn vectors_work_by_component() {
    let a = Vector::new(Q8p24(ONE + 1), Q8p24(-1));
    let b = Vector::new(Q8p24(2), Q8p24(i32::MIN));
    let t = a.trunc();
    assert_eq!((t.x, t.y), (Q8p24(ONE), Q8p24(-ONE)));
    let f = a.fract();
    assert_eq!((f.x, f.y), (Q8p24(1), Q8p24(ONE - 1)));
    let s = a + b;
    assert_eq!((s.x, s.y), (Q8p24(ONE + 3), Q8p24(i32::MIN)));
    let d = a - b;
    assert_eq!((d.x, d.y), (Q8p24(ONE - 1), Q8p24(i32::MAX)));
    let v = Vector::from((3i8, -4i8));
    assert_eq!((v.x, v.y), (Q8p24(3 * ONE), Q8p24(-4 * ONE)));
    let w = Vector::from((Q8p24(5), Q8p24(6)));
    assert_eq!((w.x, w.y), (Q8p24(5), Q8p24(6)));
}

#[test]
fn movement_carries_the_fraction_over() {
    let mut m = Movement::new(Q8p24(ONE / 2), Q8p24(-ONE / 4));
    let start = rect(0, 0, 2, 2);
    assert!(m.fits(start));
    let a = m.next(start);
    assert_eq!(a, rect(0, -1, 2, 1));
    let b = m.next(a);
    assert_eq!(b, rect(1, -1, 3, 1));
    let c = m.next(b);
    assert_eq!(c, rect(1, -1, 3, 1));
    let d = m.next(c);
    assert_eq!(d, rect(2, -1, 4, 1));
    let e = m.next(d);
    assert_eq!(e, rect(2, -2, 4, 0));
}

#[test]
fn movement_by_whole_units() {
    let mut m = Movement::new(3i8, -2i8);
    assert_eq!((m.vector.x, m.vector.y), (Q8p24(3 * ONE), Q8p24(-2 * ONE)));
    let a = m.next(rect(10, 10, 11, 12));
    assert_eq!(a, rect(13, 8, 14, 10));
    let b = m.next(a);
    assert_eq!(b, rect(16, 6, 17, 8));
}

#[test]
fn standing_still_drops_the_fraction() {
    let mut m = Movement::new(Q8p24(ONE / 2), Q8p24(0));
    let a = m.next(rect(0, 0, 1, 1));
    assert_eq!(a, rect(0, 0, 1, 1));
    m.vector = Vector::new(Q8p24(0), Q8p24(0));
    let b = m.next(a);
    assert_eq!(b, rect(0, 0, 1, 1));
    m.vector = Vector::new(Q8p24(ONE / 2), Q8p24(0));
    let c = m.next(b);
    assert_eq!(c, rect(0, 0, 1, 1));
    let d = m.next(c);
    assert_eq!(d, rect(1, 0, 2, 1));
}

#[test]
fn fits_tells_when_a_step_leaves_the_plane() {
    let m = Movement::new(1i8, 0i8);
    assert!(m.fits(rect(0, 0, i16::MAX - 1, 0)));
    assert!(!m.fits(rect(0, 0, i16::MAX, 0)));
    let m = Movement::new(0i8, -1i8);
    assert!(m.fits(rect(0, i16::MIN + 1, 0, 0)));
    assert!(!m.fits(rect(0, i16::MIN, 0, 0)));
}
