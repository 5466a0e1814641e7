use autorize::config::Direction;
use autorize::score::{is_improvement, Score, GREATEST, INFINITY, LEAST};

fn sc(v: f64) -> Score {
    Score { bits: v.to_bits() }
}

/// Numbers of all magnitudes, some of them awkward to write in decimal.
fn samples() -> Vec<f64> {
    let mut v = vec![
        0.0,
        -0.0,
        1.0,
        -1.0,
        0.1,
        0.5,
        2.5,
        0.015625,
        0.000005,
        0.000015,
        -0.000004,
        1e21,
        1e22,
        1e23,
        9007199254740993.0,
        1125899906842624.125,
        1125899906842624.25,
        1125899906842624.5,
        1125899906842624.75,
        2251799813685248.5,
        4503599627370496.5,
        123456.789,
        5e-324,
        2.2250738585072014e-308,
        2.225073858507201e-308,
        1.7976931348623157e308,
        f64::MAX,
        f64::MIN,
        f64::EPSILON,
        std::f64::consts::PI,
    ];
    let mut x: u64 = 0x9e37_79b9_7f4a_7c15;
    for _ in 0..120 {
        x ^= x << 13;
        x ^= x >> 7;
        x ^= x << 17;
        let f = f64::from_bits(x);
        if f.is_finite() {
            v.push(f);
        }
        let small = (x >> 40) as f64 / 1024.0;
        v.push(small);
    }
    v
}

#[test]
fn shown_is_the_shortest_text_that_reads_back() {
    for f in samples() {
        assert_eq!(sc(f).shown(), format!("{f}"), "{:?}", f.to_bits());
    }
    assert_eq!(sc(1e23).shown(), "100000000000000000000000");
    assert_eq!(sc(0.1).shown(), "0.1");
    assert_eq!(sc(-0.0).shown(), "-0");
    assert_eq!(sc(1125899906842624.25).shown(), "1125899906842624.3");
}

#[test]
fn shown_reads_back() {
    for f in samples().into_iter().take(90) {
        assert_eq!(Score::parse(&sc(f).shown()), Some(sc(f)));
    }
}

#[test]
fn fixed_rounds_to_the_given_places() {
    for f in samples() {
        assert_eq!(sc(f).fixed(5), format!("{f:.5}"), "{f}");
        assert_eq!(sc(f).fixed(6), format!("{f:.6}"), "{f}");
        assert_eq!(sc(f).fixed(1), format!("{f:.1}"), "{f}");
        assert_eq!(sc(f).fixed(9), format!("{f:.9}"), "{f}");
    }
    assert_eq!(sc(0.015625).fixed(5), "0.01562");
    assert_eq!(sc(0.25).fixed(1), "0.2");
    assert_eq!(sc(0.75).fixed(1), "0.8");
    assert_eq!(sc(f64::INFINITY).fixed(5), "inf");
    assert_eq!(sc(f64::NAN).fixed(5), "NaN");
    assert_eq!(sc(-0.000004).fixed(5), "-0.00000");
}

#[test]
fn parse_reads_what_the_language_reads() {
    for s in [
        "0", "-0", "+1", "1.", ".5", "5e3", "5E-3", "1e400", "-1e400", "1e-400", "2.5", "  1", "1 ",
        "", ".", "e5", "1e", "1e+", "+", "-", "inf", "-INF", "Infinity", "+infinity", "nan", "NaN",
        "-nan", "infin", "0x10", "1_000", "1,5", "9007199254740993", "9007199254740992.5",
        "0.1e1", "00012", "1e0000000000000000000001", "1e99999999999999999999",
        "0e99999999999999999999", "179769313486231580793728971405301199e273",
        "4.9406564584124654e-324", "2.4703282292062327e-324", "2.4703282292062328e-324",
    ] {
        let want = s.parse::<f64>().ok();
        let got = Score::parse(s);
        match want {
            None => assert_eq!(got, None, "{s:?}"),
            Some(f) if f.is_nan() => assert!(got.unwrap().is_nan(), "{s:?}"),
            Some(f) => assert_eq!(got, Some(sc(f)), "{s:?}"),
        }
    }
    assert_eq!(Score::parse("0.123456"), Some(sc(0.123456)));
}

#[test]
fn numbers_are_sorted_into_kinds() {
    assert!(sc(1.0).is_finite());
    assert!(!sc(f64::INFINITY).is_finite());
    assert!(!sc(f64::NAN).is_finite());
    assert!(sc(f64::NAN).is_nan());
    assert!(!sc(f64::NEG_INFINITY).is_nan());
    assert!(sc(-0.0).is_negative());
    assert!(!sc(0.0).is_negative());
    assert_eq!(INFINITY, f64::INFINITY.to_bits());
    assert_eq!(GREATEST, f64::MAX.to_bits());
    assert_eq!(LEAST, f64::MIN.to_bits());
}

#[test]
fn scores_are_ordered_as_numbers() {
    let mut all = samples();
    all.push(f64::INFINITY);
    all.push(f64::NEG_INFINITY);
    all.push(f64::NAN);
    for a in &all {
        for b in &all {
            assert_eq!(sc(*a).less(&sc(*b)), a < b, "{a} < {b}");
        }
    }
}

#[test]
fn direction_decides_which_score_is_better() {
    assert!(sc(1.0).is_better(&sc(2.0), Direction::Min));
    assert!(!sc(1.0).is_better(&sc(2.0), Direction::Max));
    assert!(sc(2.0).is_better(&sc(1.0), Direction::Max));
    assert!(!sc(1.0).is_better(&sc(1.0), Direction::Min));
    assert!(!sc(-0.0).is_better(&sc(0.0), Direction::Min));
}

#[test]
fn any_score_improves_on_none() {
    assert!(is_improvement(&sc(f64::MAX), &None, Direction::Min));
    assert!(is_improvement(&sc(1.0), &Some(sc(2.0)), Direction::Min));
    assert!(!is_improvement(&sc(2.0), &Some(sc(2.0)), Direction::Min));
}

#[test]
fn sentinels_are_the_worst_scores() {
    for f in samples() {
        assert!(!sc(f64::MAX).is_better(&sc(f), Direction::Min));
        assert!(!sc(f64::MIN).is_better(&sc(f), Direction::Max));
    }
}
