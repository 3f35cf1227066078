use augur::number::Real;

fn num(x: f64) -> Real {
    Real { bits: x.to_bits() }
}

fn float(x: Real) -> f64 {
    f64::from_bits(x.bits)
}

fn agree(got: Real, want: f64) -> bool {
    if want.is_nan() {
        got.is_nan()
    } else {
        got.bits == want.to_bits()
    }
}

/// A fixed sequence of bit patterns that reaches every exponent.
fn patterns(count: usize, mut state: u64) -> Vec<f64> {
    let mut out: Vec<f64> = Vec::new();
    let mut i: usize = 0;
    while i < count {
        state = state.wrapping_mul(6364136223846793005).wrapping_add(1442695040888963407);
        let x = state ^ (state >> 29);
        let bits = match i % 4 {
            0 => x,
            1 => (x & 0x800f_ffff_ffff_ffff) | ((1000 + (x >> 20) % 60) << 52),
            2 => (x & 0x8000_0000_0000_00ff) | ((x >> 3) & 0x7ff0_0000_0000_0000),
            _ => x & 0x800f_ffff_ffff_ffff,
        };
        out.push(f64::from_bits(bits));
        i += 1;
    }
    let special = [
        0.0,
        -0.0,
        1.0,
        -1.0,
        0.1,
        0.5,
        1.5,
        2.5,
        f64::MAX,
        f64::MIN,
        f64::MIN_POSITIVE,
        5e-324,
        f64::INFINITY,
        f64::NEG_INFINITY,
        f64::NAN,
        9007199254740991.0,
        9007199254740992.0,
        18446744073709551615.0,
        67432.10,
    ];
    for s in special {
        out.push(s);
    }
    out
}

#[test]
fn arithmetic_is_that_of_binary64() {
    let xs = patterns(300, 1);
    let ys = patterns(300, 99);
    for x in xs.iter() {
        for y in ys.iter() {
            let (a, b) = (num(*x), num(*y));
            assert!(agree(a.plus(b), x + y), "{:e} + {:e}", x, y);
            assert!(agree(a.minus(b), x - y), "{:e} - {:e}", x, y);
            assert!(agree(a.times(b), x * y), "{:e} * {:e}", x, y);
            assert!(agree(a.over(b), x / y), "{:e} / {:e}", x, y);
            assert_eq!(a.lt(b), x < y);
            assert_eq!(a.le(b), x <= y);
            assert_eq!(a.same(b), x == y);
        }
    }
}

#[test]
fn neighbours_add_and_subtract_exactly() {
    for x in patterns(400, 7) {
        for step in [1u64, 2, 3, 1 << 52, 5 << 51, 60 << 52, 64 << 52, 65 << 52, 66 << 52] {
            let y = f64::from_bits(x.to_bits().wrapping_add(step));
            assert!(agree(num(x).plus(num(y)), x + y));
            assert!(agree(num(x).minus(num(y)), x - y));
            assert!(agree(num(y).minus(num(x)), y - x));
        }
    }
}

#[test]
fn roots_and_conversions_are_those_of_binary64() {
    for x in patterns(3000, 3) {
        assert!(agree(num(x).sqrt(), x.sqrt()), "{:e}", x);
        assert_eq!(num(x).to_u64(), x.floor() as u64);
        assert!(agree(num(x).magnitude(), x.abs()));
        assert!(agree(num(x).negated(), -x));
        let n = x.to_bits();
        assert_eq!(float(Real::from_u64(n)), n as f64);
        assert_eq!(float(Real::from_u64(n % 1000)), (n % 1000) as f64);
    }
}

#[test]
fn fixed_text_is_that_of_the_formatter() {
    for x in patterns(2000, 11) {
        assert_eq!(num(x).fixed(1), format!("{:.1}", x));
        assert_eq!(num(x).fixed(2), format!("{:.2}", x));
        assert_eq!(num(x).fixed(4), format!("{:.4}", x));
    }
    for i in 0..2000u64 {
        let x = i as f64 / 16.0;
        assert_eq!(num(x).fixed(1), format!("{:.1}", x));
        assert_eq!(num(-x).fixed(2), format!("{:.2}", -x));
    }
    assert_eq!(num(67432.1).fixed(2), "67432.10");
    assert_eq!(num(0.125).fixed(2), "0.12");
    assert_eq!(num(0.375).fixed(2), "0.38");
    assert_eq!(num(f64::NAN).fixed(2), "NaN");
    assert_eq!(num(f64::NEG_INFINITY).fixed(2), "-inf");
}
