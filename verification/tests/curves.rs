use easing::{
    bounce_in, bounce_in_out, bounce_out, cubic_in, cubic_in_out, cubic_out, linear, quadratic_in,
    quadratic_in_out, quadratic_out, quartic_in, quartic_in_out, quartic_out, quintic_in,
    quintic_in_out, quintic_out, Progress, Ratio,
};

fn at(num: i16, den: u16) -> Progress {
    Progress::new(num, den).unwrap()
}

/// `r` denotes the rational number `num / den`.
fn is(r: Ratio, num: i128, den: i128) -> bool {
    r.den > 0 && den > 0 && r.num * den == num * r.den
}

fn all_curves() -> Vec<(&'static str, fn(Progress) -> Ratio)> {
    vec![
        ("linear", linear as fn(Progress) -> Ratio),
        ("quadratic_in", quadratic_in),
        ("quadratic_out", quadratic_out),
        ("quadratic_in_out", quadratic_in_out),
        ("cubic_in", cubic_in),
        ("cubic_out", cubic_out),
        ("cubic_in_out", cubic_in_out),
        ("quartic_in", quartic_in),
        ("quartic_out", quartic_out),
        ("quartic_in_out", quartic_in_out),
        ("quintic_in", quintic_in),
        ("quintic_out", quintic_out),
        ("quintic_in_out", quintic_in_out),
        ("bounce_in", bounce_in),
        ("bounce_out", bounce_out),
        ("bounce_in_out", bounce_in_out),
    ]
}

#[test]
fn progress_needs_a_denominator() {
    assert!(Progress::new(1, 0).is_none());
    assert!(Progress::new(0, 0).is_none());
    let p = Progress::new(-3, 7).unwrap();
    assert_eq!((p.num, p.den), (-3, 7));
}

#[test]
fn linear_at_half() {
    assert!(is(linear(at(1, 2)), 1, 2));
    let r = linear(at(3, 8));
    assert_eq!((r.num, r.den), (3, 8));
}

#[test]
fn quadratic_in_at_half() {
    assert!(is(quadratic_in(at(1, 2)), 1, 4));
    let r = quadratic_in(at(1, 2));
    assert_eq!((r.num, r.den), (1, 4));
}

#[test]
fn quadratic_out_at_half() {
    assert!(is(quadratic_out(at(1, 2)), 3, 4));
    let r = quadratic_out(at(1, 2));
    assert_eq!((r.num, r.den), (3, 4));
}

#[test]
fn cubic_in_out_at_quarter() {
    assert!(is(cubic_in_out(at(1, 4)), 1, 16));
    let r = cubic_in_out(at(1, 4));
    assert_eq!((r.num, r.den), (4, 64));
}

#[test]
fn bounce_out_at_half_is_on_the_second_arc() {
    // 363/40 * 1/4 - 99/10 * 1/2 + 17/5 = 363/160 - 792/160 + 544/160
    assert!(is(bounce_out(at(1, 2)), 363 - 792 + 544, 160));
    assert!(is(bounce_out(at(1, 2)), 23, 32));
    let r = bounce_out(at(1, 2));
    assert_eq!((r.num, r.den), (18150 - 19800 * 2 + 6800 * 4, 2000 * 4));
}

#[test]
fn bounce_out_on_each_arc() {
    // first arc: 121/16 t^2
    assert!(is(bounce_out(at(1, 4)), 121, 256));
    // second arc starts at 4/11
    assert!(is(bounce_out(at(4, 11)), 1, 1));
    // 363/40 * 36/121 - 99/10 * 6/11 + 17/5 = 27/10 - 54/10 + 34/10
    assert!(is(bounce_out(at(6, 11)), 7, 10));
    // third arc starts at 8/11
    assert!(is(bounce_out(at(8, 11)), 1, 1));
    // 4356/361 * 16/25 - 35442/1805 * 4/5 + 16061/1805
    assert!(is(bounce_out(at(4, 5)), 4356 * 16 - 35442 * 4 + 16061 * 5, 9025));
    // last arc starts at 9/10
    assert!(is(bounce_out(at(9, 10)), 1, 1));
    // 54/5 * 361/400 - 513/25 * 19/20 + 268/25
    assert!(is(bounce_out(at(19, 20)), 54 * 361 - 513 * 19 * 4 + 268 * 80, 2000));
}

#[test]
fn bounce_out_just_below_each_break() {
    // the arc that ends at a break comes within a hair of one there
    for (num, den) in [(3999, 11000), (7999, 11000), (8999, 10000)] {
        let r = bounce_out(at(num, den));
        let gap = r.den - r.num;
        assert!(gap.abs() * 100 < r.den, "{}/{}", num, den);
    }
}

#[test]
fn curves_start_at_zero() {
    for (name, f) in all_curves() {
        if name == "quartic_out" {
            continue;
        }
        assert!(is(f(at(0, 1)), 0, 1), "{}", name);
        assert!(is(f(at(0, 977)), 0, 1), "{}", name);
    }
}

#[test]
fn quartic_out_starts_at_one() {
    assert!(is(quartic_out(at(0, 1)), 1, 1));
    // f^3 + (1 - t) + 1 at 1/2: -1/8 + 1/2 + 1
    assert!(is(quartic_out(at(1, 2)), 11, 8));
}

#[test]
fn curves_end_at_one() {
    for (name, f) in all_curves() {
        assert!(is(f(at(1, 1)), 1, 1), "{}", name);
        assert!(is(f(at(977, 977)), 1, 1), "{}", name);
    }
}

#[test]
fn in_out_curves_pass_through_half_at_the_midpoint() {
    let curves: [fn(Progress) -> Ratio; 5] =
        [quadratic_in_out, cubic_in_out, quartic_in_out, quintic_in_out, bounce_in_out];
    for f in curves {
        assert!(is(f(at(1, 2)), 1, 2));
        assert!(is(f(at(500, 1000)), 1, 2));
        // a hair below the midpoint the value is a hair away from one half
        let below = f(at(4999, 10000));
        let gap = below.den - 2 * below.num;
        assert!(gap.abs() * 100 < below.den);
    }
}

#[test]
fn bounce_in_mirrors_bounce_out() {
    for k in 0..=220i16 {
        let a = bounce_in(at(k, 220));
        let b = bounce_out(at(220 - k, 220));
        // a = 1 - b
        assert!(is(a, b.den - b.num, b.den), "{}", k);
    }
}

#[test]
fn bounce_in_out_is_split_at_the_midpoint() {
    // bounce_in_out(1/4) = 1/2 * bounce_in(1/2)
    let whole = bounce_in(at(1, 2));
    assert!(is(bounce_in_out(at(1, 4)), whole.num, 2 * whole.den));
    assert!(is(bounce_in_out(at(1, 4)), 9, 64));
    // bounce_in_out(3/4) = 1/2 * bounce_out(1/2) + 1/2
    let whole = bounce_out(at(1, 2));
    assert!(is(bounce_in_out(at(3, 4)), whole.num + whole.den, 2 * whole.den));
    assert!(is(bounce_in_out(at(3, 4)), 55, 64));
}

#[test]
fn monotone_curves_do_not_fall() {
    let curves: [fn(Progress) -> Ratio; 8] = [
        linear,
        quadratic_in,
        quadratic_out,
        cubic_in,
        cubic_out,
        quartic_in,
        quintic_in,
        quintic_out,
    ];
    for f in curves {
        let mut last = f(at(0, 200));
        for k in 1..=200i16 {
            let next = f(at(k, 200));
            assert!(last.num * next.den <= next.num * last.den, "{}", k);
            last = next;
        }
    }
}

#[test]
fn quartic_out_falls_towards_the_end() {
    let a = quartic_out(at(1, 2));
    let b = quartic_out(at(1, 1));
    assert!(a.num * b.den > b.num * a.den);
}

#[test]
fn power_curves_by_formula() {
    assert!(is(cubic_in(at(2, 3)), 8, 27));
    assert!(is(cubic_out(at(2, 3)), 26, 27));
    assert!(is(quartic_in(at(2, 3)), 16, 81));
    assert!(is(quintic_in(at(2, 3)), 32, 243));
    assert!(is(quintic_out(at(2, 3)), 242, 243));
    assert!(is(quadratic_in_out(at(1, 4)), 1, 8));
    assert!(is(quadratic_in_out(at(3, 4)), 7, 8));
    assert!(is(cubic_in_out(at(3, 4)), 15, 16));
    assert!(is(quartic_in_out(at(1, 4)), 1, 32));
    assert!(is(quartic_in_out(at(3, 4)), 31, 32));
    assert!(is(quintic_in_out(at(1, 4)), 1, 64));
    assert!(is(quintic_in_out(at(3, 4)), 63, 64));
}

#[test]
fn curves_extrapolate_outside_the_unit_interval() {
    assert!(is(linear(at(-1, 2)), -1, 2));
    assert!(is(quadratic_in(at(-1, 2)), 1, 4));
    assert!(is(quadratic_out(at(3, 1)), -3, 1));
    assert!(is(cubic_in(at(3, 2)), 27, 8));
    assert!(is(cubic_out(at(-1, 1)), -7, 1));
    assert!(is(quintic_in(at(-2, 1)), -32, 1));
    // below zero bounce_out stays on its first arc, above one on its last
    assert!(is(bounce_out(at(-1, 1)), 121, 16));
    assert!(is(bounce_out(at(2, 1)), 54 * 4 * 5 - 513 * 2 + 268, 25));
}

#[test]
fn extreme_progress_does_not_overflow() {
    for (_, f) in all_curves() {
        for num in [i16::MIN, -1, 0, 1, i16::MAX] {
            for den in [1u16, 2, u16::MAX] {
                let r = f(at(num, den));
                assert!(r.den > 0);
            }
        }
    }
    let r = quintic_in(at(i16::MIN, u16::MAX));
    assert_eq!(r.num, -(1i128 << 75));
    assert_eq!(r.den, 65535i128.pow(5));
}

#[test]
fn exact_values_agree_with_double_precision() {
    let doubles: [(fn(Progress) -> Ratio, fn(f64) -> f64); 6] = [
        (quadratic_out, |t| -(t * (t - 2.))),
        (cubic_out, |t| (t - 1.) * (t - 1.) * (t - 1.) + 1.),
        (quartic_out, |t| (t - 1.) * (t - 1.) * (t - 1.) + (1. - t) + 1.),
        (quartic_in_out, |t| {
            if t < 0.5 {
                8. * t * t * t * t
            } else {
                -8. * (t - 1.) * (t - 1.) * (t - 1.) * (t - 1.) + 1.
            }
        }),
        (quintic_in_out, |t| {
            if t < 0.5 {
                16. * t * t * t * t * t
            } else {
                let f = (2. * t) - 2.;
                0.5 * f * f * f * f * f + 1.
            }
        }),
        (bounce_out, |t| {
            if t < 4. / 11. {
                121. / 16. * t * t
            } else if t < 8. / 11. {
                363. / 40. * t * t - 99. / 10. * t + 17. / 5.
            } else if t < 9. / 10. {
                4356. / 361. * t * t - 35442. / 1805. * t + 16061. / 1805.
            } else {
                54. / 5. * t * t - 513. / 25. * t + 268. / 25.
            }
        }),
    ];
    for (exact, double) in doubles {
        for k in 0..=64i16 {
            let r = exact(at(k, 64));
            let got = r.num as f64 / r.den as f64;
            assert!((got - double(k as f64 / 64.)).abs() < 1e-9, "{}", k);
        }
    }
}

#[test]
fn equal_fractions_give_equal_values() {
    for (name, f) in all_curves() {
        for (num, den) in [(1i16, 3u16), (4, 11), (8, 11), (9, 10), (1, 2), (5, 7), (-2, 3), (7, 4)] {
            let a = f(at(num, den));
            let b = f(at(num * 3, den * 3));
            assert!(a.num * b.den == b.num * a.den, "{} at {}/{}", name, num, den);
        }
    }
}

#[test]
fn curves_stay_between_zero_and_one() {
    for (name, f) in all_curves() {
        if name == "quartic_out" {
            continue;
        }
        for k in 0..=110i16 {
            let r = f(at(k, 110));
            assert!(0 <= r.num && r.num <= r.den, "{} at {}/110", name, k);
        }
    }
    // quartic_out rises above one on the way
    let r = quartic_out(at(1, 2));
    assert!(r.num > r.den);
}

#[test]
fn in_out_curves_close_in_on_half_around_the_midpoint() {
    let curves: [(fn(Progress) -> Ratio, i128); 5] = [
        (quadratic_in_out, 2),
        (cubic_in_out, 3),
        (quartic_in_out, 4),
        (quintic_in_out, 5),
        (bounce_in_out, 3),
    ];
    for (f, k) in curves {
        for n in 0..=1000i16 {
            let r = f(at(n, 1000));
            // |r - 1/2| <= k |t - 1/2|, and on the same side
            let off = 2 * r.num - r.den;
            let t_off = 2 * n as i128 - 1000;
            assert!(off * t_off >= 0, "{}", n);
            assert!(off.abs() * 2000 <= k * t_off.abs() * 2 * r.den, "{}", n);
        }
    }
}

#[test]
fn the_midpoint_belongs_to_the_second_half() {
    // the fraction that comes back shows which formula ran
    let r = quadratic_in_out(at(1, 2));
    assert_eq!((r.num, r.den), (-2 + 8 - 4, 4));
    let r = cubic_in_out(at(1, 2));
    assert_eq!((r.num, r.den), (-8 + 16, 16));
    let r = quartic_in_out(at(1, 2));
    assert_eq!((r.num, r.den), (-8 + 16, 16));
    let r = quintic_in_out(at(1, 2));
    assert_eq!((r.num, r.den), (-32 + 64, 64));
    let r = bounce_in_out(at(1, 2));
    assert_eq!((r.num, r.den), (16 * 4, 2 * 16 * 4));
    // just below it the first half runs
    let r = cubic_in_out(at(49, 100));
    assert_eq!((r.num, r.den), (4 * 49 * 49 * 49, 1_000_000));
}

#[test]
fn a_break_belongs_to_the_arc_that_starts_there() {
    let r = bounce_out(at(4, 11));
    assert_eq!(r.den, 2000 * 121);
    let r = bounce_out(at(8, 11));
    assert_eq!(r.den, 361 * 1805 * 1805 * 121);
    let r = bounce_out(at(9, 10));
    assert_eq!(r.den, 3125 * 100);
    let r = bounce_out(at(3, 11));
    assert_eq!((r.num, r.den), (121 * 9, 16 * 121));
}

#[test]
fn a_zero_denominator_passes_through() {
    for (_, f) in all_curves() {
        let r = f(Progress { num: 1, den: 0 });
        assert_eq!(r.den, 0);
    }
}
