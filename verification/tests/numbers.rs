use lox::number;

fn samples() -> Vec<f64> {
    let mut v = vec![
        0.0,
        -0.0,
        1.0,
        -1.0,
        2.0,
        3.0,
        0.5,
        0.1,
        0.2,
        0.3,
        1.0 / 3.0,
        10.0,
        1e-7,
        1e21,
        1e22,
        123456789.125,
        9007199254740992.0,
        9007199254740993.0,
        9007199254740994.0,
        4503599627370496.0,
        4503599627370495.5,
        f64::MAX,
        f64::MIN,
        f64::MIN_POSITIVE,
        f64::EPSILON,
        f64::INFINITY,
        f64::NEG_INFINITY,
        f64::NAN,
        1.7976931348623155e308,
        8.98846567431158e307,
        1e308,
        1e-308,
        1e-320,
        5e-324,
        1.5e-323,
        2.2250738585072009e-308,
        2.225073858507201e-308,
        4.450147717014403e-308,
        1.0000000000000002,
        0.9999999999999999,
        1e154,
        1e-154,
        1.3407807929942597e154,
        6.103515625e-5,
        -7.25,
        -1e-310,
        6.02214076e23,
        3.141592653589793,
        2.718281828459045,
    ];
    let extra: Vec<f64> = v.iter().map(|x| -*x).collect();
    v.extend(extra);
    v
}

fn same(ours: u64, theirs: f64) -> bool {
    if theirs.is_nan() {
        f64::from_bits(ours).is_nan()
    } else {
        ours == theirs.to_bits()
    }
}

struct Lcg(u64);

impl Lcg {
    fn next(&mut self) -> u64 {
        self.0 = self.0.wrapping_mul(6364136223846793005).wrapping_add(1442695040888963407);
        let hi = self.0 >> 11;
        self.0 = self.0.wrapping_mul(6364136223846793005).wrapping_add(1442695040888963407);
        (hi << 32) ^ (self.0 >> 16)
    }
}

#[test]
fn addition_matches_the_hardware_on_samples() {
    for a in samples() {
        for b in samples() {
            let r = number::add(a.to_bits(), b.to_bits());
            assert!(same(r, a + b), "{:e} + {:e}: got {:x}, want {:x}", a, b, r, (a + b).to_bits());
        }
    }
}

#[test]
fn subtraction_matches_the_hardware_on_samples() {
    for a in samples() {
        for b in samples() {
            let r = number::sub(a.to_bits(), b.to_bits());
            assert!(same(r, a - b), "{:e} - {:e}: got {:x}, want {:x}", a, b, r, (a - b).to_bits());
        }
    }
}

#[test]
fn multiplication_matches_the_hardware_on_samples() {
    for a in samples() {
        for b in samples() {
            let r = number::mul(a.to_bits(), b.to_bits());
            assert!(same(r, a * b), "{:e} * {:e}: got {:x}, want {:x}", a, b, r, (a * b).to_bits());
        }
    }
}

#[test]
fn division_matches_the_hardware_on_samples() {
    for a in samples() {
        for b in samples() {
            let r = number::div(a.to_bits(), b.to_bits());
            assert!(same(r, a / b), "{:e} / {:e}: got {:x}, want {:x}", a, b, r, (a / b).to_bits());
        }
    }
}

#[test]
fn arithmetic_matches_the_hardware_on_scattered_bit_patterns() {
    let mut g = Lcg(0x9e3779b97f4a7c15);
    for _ in 0..40000 {
        let x = g.next();
        let y = g.next();
        let (a, b) = (f64::from_bits(x), f64::from_bits(y));
        assert!(same(number::add(x, y), a + b), "{:x} + {:x}", x, y);
        assert!(same(number::sub(x, y), a - b), "{:x} - {:x}", x, y);
        assert!(same(number::mul(x, y), a * b), "{:x} * {:x}", x, y);
        assert!(same(number::div(x, y), a / b), "{:x} / {:x}", x, y);
    }
}

#[test]
fn arithmetic_matches_the_hardware_on_close_exponents() {
    let mut g = Lcg(42);
    for _ in 0..40000 {
        let x = g.next();
        let shift = g.next() % 140;
        let e = ((x >> 52) & 0x7ff).wrapping_add(shift).wrapping_sub(70) & 0x7ff;
        let y = (g.next() & 0x800f_ffff_ffff_ffff) | (e << 52);
        let (a, b) = (f64::from_bits(x), f64::from_bits(y));
        assert!(same(number::add(x, y), a + b), "{:x} + {:x}", x, y);
        assert!(same(number::sub(x, y), a - b), "{:x} - {:x}", x, y);
        assert!(same(number::mul(x, y), a * b), "{:x} * {:x}", x, y);
        assert!(same(number::div(x, y), a / b), "{:x} / {:x}", x, y);
    }
}

#[test]
fn arithmetic_matches_the_hardware_near_the_subnormals() {
    let mut g = Lcg(7);
    for _ in 0..40000 {
        let x = g.next() & 0x803f_ffff_ffff_ffff;
        let y = g.next() & 0x803f_ffff_ffff_ffff;
        let z = (g.next() & 0x800f_ffff_ffff_ffff) | (0x3ffu64 << 52);
        let (a, b, c) = (f64::from_bits(x), f64::from_bits(y), f64::from_bits(z));
        assert!(same(number::add(x, y), a + b), "{:x} + {:x}", x, y);
        assert!(same(number::sub(x, y), a - b), "{:x} - {:x}", x, y);
        assert!(same(number::mul(x, z), a * c), "{:x} * {:x}", x, z);
        assert!(same(number::div(x, z), a / c), "{:x} / {:x}", x, z);
        assert!(same(number::div(x, y), a / b), "{:x} / {:x}", x, y);
    }
}

#[test]
fn comparisons_match_the_hardware() {
    for a in samples() {
        for b in samples() {
            let (x, y) = (a.to_bits(), b.to_bits());
            assert_eq!(number::eq(x, y), a == b, "{:e} == {:e}", a, b);
            assert_eq!(number::lt(x, y), a < b, "{:e} < {:e}", a, b);
            assert_eq!(number::le(x, y), a <= b, "{:e} <= {:e}", a, b);
        }
    }
}

#[test]
fn negation_flips_the_sign() {
    for a in samples() {
        let r = number::neg(a.to_bits());
        assert!(same(r, -a));
        assert_eq!(f64::from_bits(r).is_sign_negative(), !a.is_sign_negative());
    }
}

#[test]
fn one_plus_one_is_two() {
    assert_eq!(number::add(1.0f64.to_bits(), 1.0f64.to_bits()), 2.0f64.to_bits());
}

#[test]
fn a_tie_rounds_to_even() {
    let big = 9007199254740992.0f64;
    assert_eq!(number::add(big.to_bits(), 1.0f64.to_bits()), big.to_bits());
    assert_eq!(
        number::add((big + 2.0).to_bits(), 1.0f64.to_bits()),
        9007199254740996.0f64.to_bits()
    );
}

#[test]
fn the_largest_number_doubled_is_infinite() {
    assert_eq!(number::add(f64::MAX.to_bits(), f64::MAX.to_bits()), number::INFINITY_BITS);
    assert_eq!(number::mul(f64::MAX.to_bits(), 2.0f64.to_bits()), number::INFINITY_BITS);
}

#[test]
fn invalid_operations_give_the_nan() {
    let inf = f64::INFINITY.to_bits();
    let ninf = f64::NEG_INFINITY.to_bits();
    let zero = 0.0f64.to_bits();
    assert_eq!(number::add(inf, ninf), number::NAN_BITS);
    assert_eq!(number::sub(inf, inf), number::NAN_BITS);
    assert_eq!(number::mul(inf, zero), number::NAN_BITS);
    assert_eq!(number::div(zero, zero), number::NAN_BITS);
    assert_eq!(number::div(inf, inf), number::NAN_BITS);
    assert!(number::nan(number::NAN_BITS));
    assert!(!number::nan(inf));
}

#[test]
fn division_by_zero_is_infinite() {
    assert_eq!(number::div(1.0f64.to_bits(), 0.0f64.to_bits()), f64::INFINITY.to_bits());
    assert_eq!(number::div(1.0f64.to_bits(), (-0.0f64).to_bits()), f64::NEG_INFINITY.to_bits());
}

#[test]
fn a_zero_sum_is_negative_only_of_two_negative_zeros() {
    let pz = 0.0f64.to_bits();
    let nz = (-0.0f64).to_bits();
    assert_eq!(number::add(nz, nz), nz);
    assert_eq!(number::add(pz, nz), pz);
    assert_eq!(number::add(1.5f64.to_bits(), (-1.5f64).to_bits()), pz);
    assert_eq!(number::abs_bits(nz), pz);
}
