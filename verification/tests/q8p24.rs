use quickcheck::QuickCheck;
use technobabble::movement::Q8p24;

const ONE: f64 = 16777216.0;

fn from_f64(f: f64) -> Q8p24 {
    if f > 127. {
        Q8p24(i32::MAX)
    } else if f < -128. {
        Q8p24(i32::MIN)
    } else {
        let x: f64 = f * ONE;
        Q8p24(x.round() as i32)
    }
}

fn to_f64(q: Q8p24) -> f64 {
    q.0 as f64 / ONE
}

fn apx_eq(a: f64, b: f64) -> bool {
    let delta: f64 = a - b;
    delta < (1. / (1 << 18) as f64)
}

fn check_into(x: f64) -> bool {
    if x > 127. || x < -127. {
        return true;
    }

    let y: Q8p24 = from_f64(x);
    let z: f64 = to_f64(y);
    apx_eq(x, z)
}

fn check_add(x: f64, y: f64) -> bool {
    let (xi, yi): (Q8p24, Q8p24) = (from_f64(x), from_f64(y));
    let zy: Q8p24 = xi + yi;
    let z: f64 = x + y;
    if z.abs() >= 127. {
        return true;
    }
    apx_eq(to_f64(zy), z)
}

fn check_sub(x: f64, y: f64) -> bool {
    let (xi, yi): (Q8p24, Q8p24) = (from_f64(x), from_f64(y));
    let zy: Q8p24 = xi - yi;
    let z: f64 = x - y;
    if z.abs() >= 127. {
        return true;
    }
    apx_eq(to_f64(zy), z)
}

fn check_mul(x: f64, y: f64) -> bool {
    let (xi, yi): (Q8p24, Q8p24) = (from_f64(x), from_f64(y));
    let zi: Q8p24 = xi * yi;
    let z: f64 = x * y;
    if z.abs() >= 127. {
        return true;
    }
    apx_eq(to_f64(zi), z)
}

#[test]
fn into() {
    QuickCheck::new()
        .tests(100)
        .quickcheck(check_into as fn(f64) -> bool);

    for i in -127..128 {
        check_into(i as f64);
    }
}

#[test]
fn add() {
    QuickCheck::new()
        .tests(100)
        .quickcheck(check_add as fn(f64, f64) -> bool);
}

#[test]
fn sub() {
    QuickCheck::new()
        .tests(100)
        .quickcheck(check_sub as fn(f64, f64) -> bool);
}

#[test]
fn mul() {
    QuickCheck::new()
        .tests(100)
        .quickcheck(check_mul as fn(f64, f64) -> bool);
}
