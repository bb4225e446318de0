//! Decimals, domain values, texts and bytes.

use quant_engine::bytes::text_of;
use quant_engine::decimal::{average, sum_all, Dec, Reading};
use quant_engine::domain::{
    Bar, DomainError, InstrumentId, Price, Qty, Resolution, TimeInterval, Timestamp,
    RESOLUTION_COUNT,
};
use quant_engine::order::ascending_order;
use rust_decimal::{Decimal, MathematicalOps};

const TOP: i128 = 79_228_162_514_264_337_593_543_950_335;

fn d(m: i128, s: u32) -> Dec {
    Dec::new(m, s).unwrap()
}

fn decimal(x: Dec) -> Decimal {
    Decimal::from_i128_with_scale(x.mantissa(), x.scale())
}

/// Numbers of every size, scale and sign.
fn corpus() -> Vec<Dec> {
    let mut out = Vec::new();
    for m in [0, 1, 3, 10, 99, 12_345, 4_294_967_296, 10_i128.pow(19), 10_i128.pow(28), TOP] {
        for s in [0, 1, 9, 27, 28] {
            out.push(d(m, s));
            out.push(d(-m, s));
        }
    }
    out
}

// ---- decimals --------------------------------------------------------------------------------

#[test]
fn decimals_are_built_within_their_range() {
    assert_eq!(Dec::new(TOP, 28), Some(d(TOP, 28)));
    assert_eq!(Dec::new(TOP + 1, 0), None);
    assert_eq!(Dec::new(-TOP - 1, 0), None);
    assert_eq!(Dec::new(1, 29), None);
    assert_eq!(Dec::from_int(-7), d(-7, 0));
    assert_eq!(Dec::from_count(7), d(7, 0));
    assert_eq!(Dec::scaled(-75, 2), d(-75, 2));
}

#[test]
fn arithmetic_agrees_with_the_decimal_crate() {
    let mine = |r: Option<Dec>| r.map(decimal);
    for a in corpus() {
        for b in corpus() {
            let (x, y) = (decimal(a), decimal(b));
            assert_eq!(mine(a.checked_add(b)), x.checked_add(y), "{x} + {y}");
            assert_eq!(mine(a.checked_sub(b)), x.checked_sub(y), "{x} - {y}");
            assert_eq!(mine(a.checked_mul(b)), x.checked_mul(y), "{x} * {y}");
            assert_eq!(mine(a.checked_div(b)), x.checked_div(y), "{x} / {y}");
            assert_eq!(a.less_than(b), x < y, "{x} < {y}");
            assert_eq!(a.same_value(b), x == y, "{x} == {y}");
        }
    }
}

/// Numbers at and beside the places where a result takes one decimal less.
fn edges() -> Vec<Dec> {
    let mut out = corpus();
    for m in [TOP, TOP / 10, TOP / 10 + 1, TOP / 3, TOP / 7, 10_i128.pow(27), 5 * 10_i128.pow(14)] {
        for s in [0, 1, 14, 28] {
            for near in [-2, -1, 0, 1, 2] {
                if m + near <= TOP {
                    out.push(d(m + near, s));
                    out.push(d(-m - near, s));
                }
            }
        }
    }
    out.sort_by(|a, b| decimal(*a).cmp(&decimal(*b)));
    out
}

/// Whether the results that are there do not descend.
fn keeps_order(results: Vec<Option<Dec>>) -> bool {
    let present: Vec<Dec> = results.into_iter().flatten().collect();
    present.windows(2).all(|w| !w[1].less_than(w[0]))
}

#[test]
fn rounding_keeps_the_order() {
    let sorted = edges();
    for &b in &sorted {
        assert!(keeps_order(sorted.iter().map(|a| a.checked_sub(b)).collect()));
        if !b.is_negative() {
            assert!(keeps_order(sorted.iter().map(|a| a.checked_mul(b)).collect()));
        }
        if !b.is_negative() && !b.is_zero() {
            assert!(keeps_order(sorted.iter().map(|a| a.checked_div(b)).collect()));
        }
    }
}

#[test]
fn rounding_does_not_pass_what_is_held_exactly() {
    let one = d(1, 0);
    for &a in &edges() {
        for &b in &edges() {
            if !a.less_than(b) {
                assert!(!a.checked_sub(b).is_some_and(|x| x.is_negative()));
            }
            if b.is_negative() {
                continue;
            }
            if !one.less_than(a) {
                assert!(!a.checked_mul(b).is_some_and(|x| b.less_than(x)));
            }
            if !b.is_zero() && !b.less_than(a) {
                assert!(!a.checked_div(b).is_some_and(|x| one.less_than(x)));
            }
        }
    }
}

#[test]
fn exact_results_keep_the_larger_scale() {
    assert_eq!(d(15, 1).checked_add(d(25, 2)), Some(d(175, 2)));
    assert_eq!(d(15, 1).checked_sub(d(25, 2)), Some(d(125, 2)));
    assert_eq!(d(15, 1).checked_mul(d(25, 2)), Some(d(375, 3)));
    assert_eq!(d(75, 2).checked_div(d(3, 0)), Some(d(25, 2)));
    assert_eq!(d(0, 5).checked_add(d(7, 2)), Some(d(7, 2)));
    assert_eq!(d(7, 2).checked_add(d(0, 5)), Some(d(7, 2)));
    assert_eq!(d(0, 5).checked_sub(d(7, 2)), Some(d(-7, 2)));
    assert_eq!(d(7, 2).checked_mul(d(0, 5)), Some(d(0, 0)));
    assert_eq!(d(0, 5).checked_div(d(7, 2)), Some(d(0, 0)));
    assert_eq!(d(1, 0).checked_div(d(0, 0)), None);
    assert_eq!(d(TOP, 0).checked_add(d(1, 0)), None);
    assert_eq!(
        d(1, 0).checked_div(d(3, 0)),
        Some(d(3_333_333_333_333_333_333_333_333_333, 28))
    );
}

#[test]
fn signs_are_told_and_turned() {
    assert!(d(0, 3).is_zero() && !d(1, 28).is_zero());
    assert!(d(-1, 3).is_negative() && !d(0, 0).is_negative());
    assert_eq!(d(-5, 1).abs(), d(5, 1));
    assert_eq!(d(-5, 1).negated(), d(5, 1));
    assert_eq!(d(5, 1).negated(), d(-5, 1));
    assert!(d(10, 1).same_value(d(1, 0)));
    assert!(d(-1, 0).less_than(d(1, 28)));
}

#[test]
fn roots_agree_with_the_decimal_crate() {
    for a in corpus() {
        if a.is_negative() {
            assert_eq!(a.sqrt(), Reading::Undefined);
        } else {
            match a.sqrt() {
                Reading::Value(r) => assert_eq!(Some(decimal(r)), decimal(a).sqrt(), "{a:?}"),
                other => panic!("{a:?}: {other:?}"),
            }
        }
    }
    assert_eq!(d(4, 0).sqrt(), Reading::Value(d(2, 0)));
    assert_eq!(d(0, 7).sqrt(), Reading::Value(d(0, 0)));
}

#[test]
fn a_root_that_does_not_settle_is_a_fault() {
    assert_eq!(
        d(40_000_000_000_000_000_000_000_000_003, 28).sqrt(),
        Reading::Fault
    );
}

#[test]
fn whole_units_are_the_floor() {
    assert_eq!(d(1_999, 3).units(), 1);
    assert_eq!(d(2, 0).units(), 2);
    assert_eq!(d(-1, 0).units(), 0);
    assert_eq!(d(i128::from(u64::MAX), 0).units(), u64::MAX);
    assert_eq!(d(i128::from(u64::MAX) + 1, 0).units(), 0);
}

#[test]
fn sums_and_averages_go_from_the_left() {
    assert_eq!(sum_all(&vec![]), Some(d(0, 0)));
    assert_eq!(sum_all(&vec![d(1, 0), d(25, 1)]), Some(d(35, 1)));
    assert_eq!(sum_all(&vec![d(TOP, 0), d(1, 0)]), None);
    assert!(average(&vec![d(1, 0), d(2, 0)]).unwrap().same_value(d(15, 1)));
}

// ---- domain values ---------------------------------------------------------------------------

#[test]
fn resolutions_ascend() {
    let all: Vec<Resolution> = (0..RESOLUTION_COUNT).map(Resolution::at_position).collect();
    let minutes: Vec<u32> = all.iter().map(|r| r.minutes()).collect();
    assert_eq!(minutes, vec![5, 15, 30, 60, 240, 720, 1440]);
    let codes: Vec<&str> = all.iter().map(|r| r.as_str()).collect();
    assert_eq!(codes, vec!["5m", "15m", "30m", "1h", "4h", "12h", "1d"]);
    for (i, r) in all.iter().enumerate() {
        assert_eq!(usize::from(r.ordinal()), i);
    }
}

#[test]
fn values_out_of_their_domain_are_refused() {
    assert!(Price::new(d(-1, 0)).is_err());
    assert!(Price::new(d(0, 0)).is_ok());
    assert!(Qty::new(d(-1, 2)).is_err());
    assert!(InstrumentId::new("").is_err());
    assert_eq!(InstrumentId::new("BTCUSDT").unwrap().as_str(), "BTCUSDT");
    let t = Timestamp::from_millis;
    assert!(TimeInterval::new(t(2), t(1)).is_err());
    assert_eq!(TimeInterval::new(t(1), t(2)).unwrap().end(), t(2));
    assert_eq!(Timestamp::from_secs(2).millis(), 2_000);
}

#[test]
fn a_bar_lies_between_its_low_and_its_high() {
    let p = |n: i128| Price::new(d(n, 0)).unwrap();
    let bar = |o, h, l, c| {
        Bar::new(
            Timestamp::from_millis(0),
            Resolution::M5,
            p(o),
            p(h),
            p(l),
            p(c),
            Qty::new(d(1, 0)).unwrap(),
            1,
        )
    };
    assert!(bar(2, 3, 1, 2).is_ok());
    assert!(matches!(bar(4, 3, 1, 2), Err(DomainError::InconsistentBar)));
    assert!(matches!(bar(2, 3, 1, 4), Err(DomainError::InconsistentBar)));
    assert!(matches!(bar(0, 3, 1, 2), Err(DomainError::InconsistentBar)));
}

// ---- texts and orders ------------------------------------------------------------------------

#[test]
fn bytes_are_text_only_where_they_are_valid() {
    assert_eq!(text_of(vec![0x68, 0xC3, 0xA9]), Some("h\u{e9}".to_owned()));
    assert_eq!(text_of(vec![0x68, 0xC3]), None);
    assert_eq!(text_of(vec![]), Some(String::new()));
}

#[test]
fn equal_keys_keep_their_places() {
    assert_eq!(ascending_order(&[3, 1, 2, 1]), vec![1, 3, 2, 0]);
    assert_eq!(ascending_order(&[]), Vec::<usize>::new());
}
