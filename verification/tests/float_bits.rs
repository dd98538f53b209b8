use zfp_rs::codec::float::{
    block_emax_f32, block_emax_f64, fwd_cast_f32, fwd_cast_f64, inv_cast_value_f32, inv_cast_value_f64,
};

struct Lcg(u64);

impl Lcg {
    fn next(&mut self) -> u64 {
        self.0 = self.0.wrapping_mul(6364136223846793005).wrapping_add(1442695040888963407);
        self.0 ^ (self.0 >> 29)
    }
}

fn ref_emax_f64(v: &[f64]) -> i32 {
    let max = v.iter().map(|x| x.abs()).fold(0.0f64, f64::max);
    if max > 0.0 {
        libm::frexp(max).1.max(1 - 1023)
    } else {
        -1023
    }
}

fn ref_emax_f32(v: &[f32]) -> i32 {
    let max = v.iter().map(|x| x.abs()).fold(0.0f32, f32::max);
    if max > 0.0 {
        libm::frexpf(max).1.max(1 - 127)
    } else {
        -127
    }
}

fn ref_cast_f64(f: f64, emax: i32) -> i64 {
    let v = libm::ldexp(1.0, 62 - emax) * f;
    if v.is_finite() && (-9_223_372_036_854_775_808.0..9_223_372_036_854_775_808.0).contains(&v) {
        v as i64
    } else {
        i64::MIN
    }
}

fn ref_cast_f32(f: f32, emax: i32) -> i32 {
    let v = libm::ldexpf(1.0, 30 - emax) * f;
    if v.is_finite() && (-2_147_483_648.0..2_147_483_648.0).contains(&v) {
        v as i32
    } else {
        i32::MIN
    }
}

fn random_f64(r: &mut Lcg) -> f64 {
    match r.next() % 5 {
        0 => f64::from_bits(r.next()),
        1 => f64::from_bits(r.next() & 0x800f_ffff_ffff_ffff),
        2 => (r.next() % 2000) as f64 - 1000.0,
        3 => 0.0,
        _ => f64::from_bits(r.next()) * 1e-300,
    }
}

fn random_f32(r: &mut Lcg) -> f32 {
    match r.next() % 5 {
        0 => f32::from_bits(r.next() as u32),
        1 => f32::from_bits((r.next() as u32) & 0x807f_ffff),
        2 => (r.next() % 2000) as f32 - 1000.0,
        3 => -0.0,
        _ => f32::from_bits(r.next() as u32) * 1e-30,
    }
}

#[test]
fn block_exponent_and_cast_agree_with_floating_point_doubles() {
    let mut r = Lcg(7);
    for _ in 0..2000 {
        let v: Vec<f64> = (0..4).map(|_| random_f64(&mut r)).collect();
        let raw: Vec<u64> = v.iter().map(|x| x.to_bits()).collect();
        let emax = block_emax_f64(&raw);
        assert_eq!(emax, ref_emax_f64(&v), "{v:?}");
        let cast = fwd_cast_f64(&raw, emax);
        for (f, i) in v.iter().zip(cast) {
            assert_eq!(i, ref_cast_f64(*f, emax), "{f:e} {emax}");
        }
    }
}

#[test]
fn block_exponent_and_cast_agree_with_floating_point_singles() {
    let mut r = Lcg(11);
    for _ in 0..2000 {
        let v: Vec<f32> = (0..4).map(|_| random_f32(&mut r)).collect();
        let raw: Vec<u64> = v.iter().map(|x| u64::from(x.to_bits())).collect();
        let emax = block_emax_f32(&raw);
        assert_eq!(emax, ref_emax_f32(&v), "{v:?}");
        let cast = fwd_cast_f32(&raw, emax);
        for (f, i) in v.iter().zip(cast) {
            assert_eq!(i, ref_cast_f32(*f, emax), "{f:e} {emax}");
        }
    }
}

#[test]
fn inverse_cast_agrees_with_floating_point() {
    let mut r = Lcg(3);
    for _ in 0..20000 {
        let i = r.next() as i64 >> (r.next() % 64);
        let emax = (r.next() % 2048) as i32 - 1023;
        let expected = (libm::ldexp(1.0, emax - 62) * i as f64).to_bits();
        assert_eq!(inv_cast_value_f64(i, emax), expected, "{i} {emax}");

        let j = (r.next() as i32) >> (r.next() % 32);
        let e32 = (r.next() % 256) as i32 - 127;
        let expected = (libm::ldexpf(1.0, e32 - 30) * j as f32).to_bits();
        assert_eq!(inv_cast_value_f32(j, e32), u64::from(expected), "{j} {e32}");
    }
}
