//! Genomes: what they decide, how strongly, and how they are repaired.

use std::collections::BTreeSet;

use quant_engine::decimal::Dec;
use quant_engine::domain::Direction;
use quant_engine::signal::catalogue::CatalogueConfig;
use quant_engine::signal::feature::{FeatureSchema, FeatureVector};
use quant_engine::signal::genome::{
    graded_strength_floor, Clause, Decision, ExitParams, Genome, PositionState, RiskParams,
    RuleSet, REP_VERSION,
};
use quant_engine::signal::quant::QState;
use rust_decimal::Decimal;

/// A vector of these states; `None` is not warm.
fn fv(states: &[Option<u16>]) -> FeatureVector {
    FeatureVector {
        time_ms: 0,
        states: states.iter().map(|o| o.map(QState::from_index)).collect(),
    }
}

fn clause(enabled: bool, feature: u16, lo: u16, hi: u16) -> Clause {
    Clause {
        enabled,
        feature,
        lo,
        hi,
    }
}

fn disabled() -> Clause {
    clause(false, 0, 0, 0)
}

/// Long when features 0 and 1 are high, short when both are low; out after three bars or on the
/// opposite signal.
fn fixture_genome() -> Genome {
    Genome {
        version: REP_VERSION,
        long_entry: RuleSet {
            clauses: [
                clause(true, 0, 3, 4),
                clause(true, 1, 3, 4),
                disabled(),
                disabled(),
            ],
            min_satisfied: 2,
        },
        short_entry: RuleSet {
            clauses: [
                clause(true, 0, 0, 1),
                clause(true, 1, 0, 1),
                disabled(),
                disabled(),
            ],
            min_satisfied: 2,
        },
        exit: ExitParams {
            max_holding_bars: 3,
            exit_on_opposite: true,
        },
        risk: RiskParams { size_bps: 5_000 },
    }
}

fn empty_bank() -> RuleSet {
    RuleSet {
        clauses: [disabled(), disabled(), disabled(), disabled()],
        min_satisfied: 1,
    }
}

fn decimal(x: Dec) -> Decimal {
    Decimal::from_i128_with_scale(x.mantissa(), x.scale())
}

#[test]
fn fixture_matches_hand_traced_decisions() {
    let g = fixture_genome();
    let flat = PositionState::flat();

    assert_eq!(
        g.decide(&fv(&[Some(4), Some(4), Some(0)]), flat),
        Decision::Enter(Direction::Long)
    );
    assert_eq!(
        g.decide(&fv(&[Some(4), Some(2), Some(0)]), flat),
        Decision::Hold
    );
    assert_eq!(
        g.decide(&fv(&[Some(0), Some(0), Some(0)]), flat),
        Decision::Enter(Direction::Short)
    );
    assert_eq!(
        g.decide(
            &fv(&[Some(4), Some(4), Some(0)]),
            PositionState::held(Direction::Long, 3)
        ),
        Decision::Exit
    );
    assert_eq!(
        g.decide(
            &fv(&[Some(0), Some(0), Some(0)]),
            PositionState::held(Direction::Long, 1)
        ),
        Decision::Exit
    );
    assert_eq!(
        g.decide(
            &fv(&[Some(4), Some(2), Some(0)]),
            PositionState::held(Direction::Long, 1)
        ),
        Decision::Hold
    );
}

#[test]
fn k_of_n_threshold_and_enabled_govern_firing() {
    let bank = RuleSet {
        clauses: [
            clause(true, 0, 3, 4),
            clause(true, 1, 3, 4),
            disabled(),
            disabled(),
        ],
        min_satisfied: 1,
    };
    assert!(bank.fires(&fv(&[Some(4), Some(0), None])));
    assert!(bank.fires(&fv(&[Some(0), Some(4), None])));
    assert!(!bank.fires(&fv(&[Some(0), Some(0), None])));

    let strict = RuleSet {
        min_satisfied: 2,
        ..bank.clone()
    };
    assert!(!strict.fires(&fv(&[Some(4), Some(0), None])));
    assert!(strict.fires(&fv(&[Some(4), Some(4), None])));
}

#[test]
fn all_disabled_bank_never_fires() {
    let bank = empty_bank();
    assert_eq!(bank.active_count(), 0);
    assert!(!bank.fires(&fv(&[Some(0), Some(0), Some(0)])));
}

#[test]
fn not_warm_slot_is_unsatisfied() {
    let c = clause(true, 0, 0, 4);
    assert!(!c.satisfied(&fv(&[None])));
    assert!(!c.satisfied(&fv(&[])));
    assert!(c.satisfied(&fv(&[Some(2)])));
}

#[test]
fn both_banks_firing_is_ambiguous_hold() {
    let g = Genome {
        long_entry: RuleSet {
            clauses: [clause(true, 0, 2, 2), disabled(), disabled(), disabled()],
            min_satisfied: 1,
        },
        short_entry: RuleSet {
            clauses: [clause(true, 0, 2, 2), disabled(), disabled(), disabled()],
            min_satisfied: 1,
        },
        ..fixture_genome()
    };
    assert_eq!(
        g.decide(&fv(&[Some(2)]), PositionState::flat()),
        Decision::Hold
    );
}

fn schema() -> FeatureSchema {
    FeatureSchema::from_catalogue(&CatalogueConfig {
        states: 5,
        formula_pool: Vec::new(),
    })
}

#[test]
fn fixture_is_valid() {
    let s = schema();
    assert!(s.len() >= 3 && s.num_states() == 5);
    assert!(fixture_genome().is_valid(&s));
}

#[test]
fn repair_clamps_out_of_domain_genes_and_is_idempotent() {
    let s = schema();
    let bad_feature = (s.len() + 100) as u16;
    let mut g = Genome {
        version: 999,
        long_entry: RuleSet {
            clauses: [
                clause(true, bad_feature, 0, 0),
                clause(true, 0, 9, 2),
                disabled(),
                disabled(),
            ],
            min_satisfied: 0,
        },
        short_entry: RuleSet {
            clauses: [clause(true, 1, 0, 99), disabled(), disabled(), disabled()],
            min_satisfied: 9,
        },
        exit: ExitParams {
            max_holding_bars: 0,
            exit_on_opposite: false,
        },
        risk: RiskParams { size_bps: 0 },
    };
    assert!(!g.is_valid(&s));

    g.repair(&s);
    assert!(g.is_valid(&s));
    assert_eq!(g.version, REP_VERSION);
    assert_eq!(g.risk.size_bps, 1);
    assert_eq!(g.exit.max_holding_bars, 1);

    let once = g.clone();
    g.repair(&s);
    assert_eq!(g, once);
}

#[test]
fn repair_leaves_a_valid_genome_alone() {
    let s = schema();
    let mut g = fixture_genome();
    g.repair(&s);
    assert_eq!(g, fixture_genome());
}

#[test]
fn genome_never_fires_when_no_features_are_present() {
    let g = fixture_genome();
    assert_eq!(g.decide(&fv(&[]), PositionState::flat()), Decision::Hold);
    assert!(!g.long_entry.fires(&fv(&[])));
    assert!(!g.short_entry.fires(&fv(&[])));
}

#[test]
fn decide_is_pure_and_repeatable() {
    let g = fixture_genome();
    let f = fv(&[Some(4), Some(4), Some(0)]);
    let first = g.decide(&f, PositionState::flat());
    for _ in 0..5 {
        assert_eq!(g.decide(&f, PositionState::flat()), first);
    }
}

#[test]
fn position_advance_is_the_decide_counterpart() {
    let entered = PositionState::flat().advance(Decision::Enter(Direction::Long));
    assert_eq!(entered, PositionState::held(Direction::Long, 0));
    let held1 = entered.advance(Decision::Hold);
    assert_eq!(held1, PositionState::held(Direction::Long, 1));
    assert_eq!(
        held1.advance(Decision::Hold),
        PositionState::held(Direction::Long, 2)
    );
    assert_eq!(held1.advance(Decision::Exit), PositionState::flat());
    assert_eq!(
        PositionState::flat().advance(Decision::Hold),
        PositionState::flat()
    );
}

#[test]
fn referenced_features_are_enabled_only() {
    let g = fixture_genome();
    assert_eq!(g.referenced_features(), BTreeSet::from([0, 1]));
}

#[test]
fn mdl_complexity_rewards_fewer_clauses_and_features() {
    let one_clause = Genome {
        version: REP_VERSION,
        long_entry: RuleSet {
            clauses: [clause(true, 0, 1, 2), disabled(), disabled(), disabled()],
            min_satisfied: 1,
        },
        short_entry: empty_bank(),
        exit: ExitParams {
            max_holding_bars: 3,
            exit_on_opposite: false,
        },
        risk: RiskParams { size_bps: 5_000 },
    };
    assert_eq!(one_clause.mdl_complexity(), 2);

    let fixture = fixture_genome();
    assert_eq!(fixture.mdl_complexity(), 4 + 2);

    assert!(one_clause.mdl_complexity() < fixture.mdl_complexity());

    let two_clauses_one_feature = Genome {
        long_entry: RuleSet {
            clauses: [
                clause(true, 0, 0, 1),
                clause(true, 0, 2, 3),
                disabled(),
                disabled(),
            ],
            min_satisfied: 1,
        },
        short_entry: empty_bank(),
        ..fixture_genome()
    };
    assert_eq!(two_clauses_one_feature.mdl_complexity(), 2 + 1);
}

// ---- graded conviction -----------------------------------------------------------------------

fn conviction(b: &RuleSet, states: &[Option<u16>]) -> Decimal {
    decimal(b.graded_conviction(&fv(states)))
}

fn strength(g: &Genome, states: &[Option<u16>]) -> Decimal {
    decimal(g.entry_strength(&fv(states), Direction::Long))
}

/// One clause over a wide band.
fn wide_band_bank() -> RuleSet {
    RuleSet {
        clauses: [clause(true, 0, 0, 4), disabled(), disabled(), disabled()],
        min_satisfied: 1,
    }
}

#[test]
fn graded_conviction_grades_distance_into_band() {
    let b = wide_band_bank();
    let third = Decimal::from(1) / Decimal::from(3);
    let two_thirds = Decimal::from(2) / Decimal::from(3);
    assert_eq!(conviction(&b, &[Some(0)]), third);
    assert_eq!(conviction(&b, &[Some(4)]), third);
    assert_eq!(conviction(&b, &[Some(1)]), two_thirds);
    assert_eq!(conviction(&b, &[Some(2)]), Decimal::from(1));
    assert!(conviction(&b, &[Some(0)]) < conviction(&b, &[Some(1)]));
    assert!(conviction(&b, &[Some(1)]) < conviction(&b, &[Some(2)]));
}

#[test]
fn graded_conviction_zero_when_unsatisfied_or_no_active_clause() {
    let b = RuleSet {
        clauses: [clause(true, 0, 3, 4), disabled(), disabled(), disabled()],
        min_satisfied: 1,
    };
    assert_eq!(conviction(&b, &[Some(0)]), Decimal::ZERO);
    let empty = empty_bank();
    assert_eq!(conviction(&empty, &[Some(2)]), Decimal::ZERO);
    assert!(!empty.fires(&fv(&[Some(2)])));
}

#[test]
fn graded_conviction_counts_satisfied_clauses() {
    let b = RuleSet {
        clauses: [
            clause(true, 0, 0, 2),
            clause(true, 1, 0, 2),
            disabled(),
            disabled(),
        ],
        min_satisfied: 1,
    };
    assert_eq!(conviction(&b, &[Some(1), Some(1)]), Decimal::from(1));
    assert_eq!(conviction(&b, &[Some(1), Some(9)]), Decimal::new(5, 1));
    assert_eq!(conviction(&b, &[Some(0), Some(9)]), Decimal::new(25, 2));
    assert!(conviction(&b, &[Some(1), Some(9)]) < conviction(&b, &[Some(1), Some(1)]));
    assert_eq!(b.conviction_parts(&fv(&[Some(0), Some(9)])), (1, 4));
}

#[test]
fn entry_strength_exact_decimal_values() {
    let g = Genome {
        long_entry: RuleSet {
            clauses: [clause(true, 0, 0, 2), disabled(), disabled(), disabled()],
            min_satisfied: 1,
        },
        short_entry: empty_bank(),
        ..fixture_genome()
    };
    assert_eq!(strength(&g, &[Some(0)]), Decimal::new(75, 2));
    assert_eq!(strength(&g, &[Some(2)]), Decimal::new(75, 2));
    assert_eq!(strength(&g, &[Some(1)]), Decimal::new(10, 1));
    let floor = decimal(graded_strength_floor());
    for s in 0..=2u16 {
        let strength = strength(&g, &[Some(s)]);
        assert!(strength >= floor && strength <= Decimal::ONE);
    }
}

#[test]
fn barely_clears_band_sizes_weaker_than_deep_in_band() {
    let g = Genome {
        long_entry: wide_band_bank(),
        short_entry: empty_bank(),
        ..fixture_genome()
    };
    assert!(g.long_entry.fires(&fv(&[Some(0)])) && g.long_entry.fires(&fv(&[Some(2)])));
    let edge = strength(&g, &[Some(0)]);
    let deep = strength(&g, &[Some(2)]);
    assert!(
        edge < deep,
        "band-edge strength {edge} must be < deep-in-band {deep}"
    );
    assert_eq!(deep, Decimal::ONE, "a centred entry sizes at full");
}

#[test]
fn entry_strength_is_pure_and_deterministic() {
    let g = fixture_genome();
    let f = fv(&[Some(4), Some(4), Some(0)]);
    let first = g.entry_strength(&f, Direction::Long);
    for _ in 0..5 {
        assert_eq!(g.entry_strength(&f, Direction::Long), first);
    }
    assert_eq!(
        g.decide(&f, PositionState::flat()),
        Decision::Enter(Direction::Long)
    );
    assert_eq!(
        decimal(g.entry_conviction(&f, Direction::Short)),
        Decimal::ZERO
    );
}
