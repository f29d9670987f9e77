use grn_simulator::gillespie_simulator::{gillespie_step, select_reaction, StepError};
use grn_simulator::simulation::{Product, Reactant, Reaction, System};

/// The two-reaction network driven in the step scenarios: reaction 0 turns
/// O2 + 2 H2 into 2 H2O at rate 0.1, reaction 1 turns 2 H2O back at rate
/// 0.01. Rates are carried as weights 10 and 1 in units of 0.01; the clock
/// is carried as the bit pattern of the non-negative time value, which
/// preserves order.
fn create_default_system() -> System {
    System {
        state: vec![2u64, 2u64, 2u64],
        idx_to_name: vec!["o2".to_string(), "h2".to_string(), "h2o".to_string()],
        reactions: vec![
            Reaction {
                rate_weight: 10,
                reactants: vec![
                    Reactant { index: 0, quantity: 1 },
                    Reactant { index: 1, quantity: 2 },
                ],
                products: vec![Product { index: 2, quantity: 2 }],
            },
            Reaction {
                rate_weight: 1,
                reactants: vec![Reactant { index: 2, quantity: 2 }],
                products: vec![
                    Product { index: 0, quantity: 1 },
                    Product { index: 1, quantity: 2 },
                ],
            },
        ],
        time_of_last_reaction: 0,
        last_reaction: None,
    }
}

/// The exact rational value of a uniform sample in `[0, 1)` that is a
/// multiple of 2^-53, as every 53-bit generator output is.
fn r2_rational(r2: f64) -> (u64, u64) {
    let den = 1u64 << 53;
    ((r2 * den as f64) as u64, den)
}

/// The real rate of the default network in its common unit.
const RATE_UNIT: f64 = 0.01;

#[test]
fn test_step_r_1_and_r_2_are_zero() {
    let mut system = create_default_system();

    // r1 = 0 gives tau = ln(1/0) / a0 = infinity; r2 = 0 selects the first
    // reaction whose running sum exceeds zero.
    let r1 = 0.0f64;
    let total: u64 = system
        .propensity_weights()
        .expect("propensities in range")
        .iter()
        .sum();
    let a_0 = total as f64 * RATE_UNIT;
    let tau = (1.0 / r1).ln() / a_0;
    let new_time = (f64::from_bits(system.time_of_last_reaction) + tau).to_bits();

    let (num, den) = r2_rational(0.0);
    let fired = gillespie_step(&mut system, num, den, new_time);

    assert_eq!(fired, Ok(0));
    assert_eq!(system.time_of_last_reaction, f64::INFINITY.to_bits());
    assert_eq!(system.last_reaction, Some(0));
    assert_eq!(system.state, vec![1, 0, 4]);
}

#[test]
fn test_step_r_1_and_r_2_are_one() {
    let mut system = create_default_system();

    // r1 = 1 gives tau = ln(1) / a0 = 0; r2 = 1 puts the target on the
    // final cumulative sum, which no running sum strictly exceeds, so the
    // last reaction is selected by the fallback rule.
    let r1 = 1.0f64;
    let total: u64 = system
        .propensity_weights()
        .expect("propensities in range")
        .iter()
        .sum();
    let a_0 = total as f64 * RATE_UNIT;
    let tau = (1.0 / r1).ln() / a_0;
    let new_time = (f64::from_bits(system.time_of_last_reaction) + tau).to_bits();

    let fired = gillespie_step(&mut system, 1, 1, new_time);

    assert_eq!(fired, Ok(1));
    assert_eq!(system.time_of_last_reaction, (0.0f64).to_bits());
    assert_eq!(system.last_reaction, Some(1));
    assert_eq!(system.state, vec![3, 4, 0]);
}

#[test]
fn test_decision_boundary() {
    let mut system1 = create_default_system();
    let condensation = system1.reactions[0].propensity(&system1.state);
    let hydrolysis = system1.reactions[1].propensity(&system1.state);
    let decision_boundary: f64 =
        condensation as f64 / (condensation as f64 + hydrolysis as f64);
    let a_0 = (condensation + hydrolysis) as f64 * RATE_UNIT;

    // Just below the boundary fraction the running sum of reaction 0
    // strictly exceeds the target.
    let r = decision_boundary - f64::EPSILON;
    let tau = (1.0 / r).ln() / a_0;
    let (num, den) = r2_rational(r);
    gillespie_step(&mut system1, num, den, tau.to_bits())
        .expect("a reaction fires");
    assert_eq!(system1.last_reaction, Some(0));

    // Just above it the strict inequality fails at reaction 0 and the scan
    // moves on to reaction 1.
    let mut system2 = create_default_system();
    let r = decision_boundary + f64::EPSILON;
    let tau = (1.0 / r).ln() / a_0;
    let (num, den) = r2_rational(r);
    gillespie_step(&mut system2, num, den, tau.to_bits())
        .expect("a reaction fires");
    assert_eq!(system2.last_reaction, Some(1));
}

#[test]
fn step_reports_terminal_state() {
    let mut system = create_default_system();
    system.state = vec![0u64, 0u64, 0u64];

    let fired = gillespie_step(&mut system, 0, 1, 0);

    assert_eq!(fired, Err(StepError::Terminal));
    assert_eq!(system.state, vec![0, 0, 0]);
    assert_eq!(system.time_of_last_reaction, 0);
    assert_eq!(system.last_reaction, None);
}

#[test]
fn step_reports_exhausted_fallback_reaction() {
    // The boundary target r2 = 1 falls back to the last reaction even when
    // that reaction has zero propensity; the mutation is then refused.
    let mut system = System {
        state: vec![1u64, 0u64],
        idx_to_name: vec!["a".to_string(), "b".to_string()],
        reactions: vec![
            Reaction {
                rate_weight: 1,
                reactants: vec![Reactant { index: 0, quantity: 1 }],
                products: vec![],
            },
            Reaction {
                rate_weight: 1,
                reactants: vec![Reactant { index: 1, quantity: 1 }],
                products: vec![],
            },
        ],
        time_of_last_reaction: 0,
        last_reaction: None,
    };

    let fired = gillespie_step(&mut system, 1, 1, 0);

    assert_eq!(fired, Err(StepError::InsufficientReactants));
    assert_eq!(system.state, vec![1, 0]);
    assert_eq!(system.last_reaction, None);
}

#[test]
fn step_reports_count_overflow() {
    let mut system = System {
        state: vec![1u64, u64::MAX],
        idx_to_name: vec!["a".to_string(), "b".to_string()],
        reactions: vec![Reaction {
            rate_weight: 1,
            reactants: vec![Reactant { index: 0, quantity: 1 }],
            products: vec![Product { index: 1, quantity: 1 }],
        }],
        time_of_last_reaction: 0,
        last_reaction: None,
    };

    let fired = gillespie_step(&mut system, 0, 1, 0);

    assert_eq!(fired, Err(StepError::CountOverflow));
    assert_eq!(system.state, vec![1, u64::MAX]);
    assert_eq!(system.last_reaction, None);
}

#[test]
fn step_reports_propensity_overflow() {
    let mut system = System {
        state: vec![200u64],
        idx_to_name: vec!["a".to_string()],
        reactions: vec![Reaction {
            rate_weight: 1,
            reactants: vec![Reactant { index: 0, quantity: 50 }],
            products: vec![],
        }],
        time_of_last_reaction: 0,
        last_reaction: None,
    };

    let fired = gillespie_step(&mut system, 0, 1, 0);

    assert_eq!(fired, Err(StepError::PropensityOverflow));
    assert_eq!(system.state, vec![200]);
    assert_eq!(system.last_reaction, None);
}

#[test]
fn select_reaction_walks_cumulative_sums() {
    let weights: Vec<u64> = vec![20, 1];

    // r2 = 0: the first positive running sum exceeds zero.
    assert_eq!(select_reaction(&weights, 0, 1), Some(0));
    // r2 = 20/21 puts the target exactly on the first cumulative sum: the
    // strict inequality fails there and the scan moves on.
    assert_eq!(select_reaction(&weights, 20, 21), Some(1));
    // One grain below, the first running sum still exceeds the target.
    assert_eq!(select_reaction(&weights, 20 * 1000 - 1, 21 * 1000), Some(0));
    // r2 = 1: no running sum strictly exceeds the total.
    assert_eq!(select_reaction(&weights, 1, 1), Some(1));
}

#[test]
fn select_reaction_skips_zero_weights() {
    let weights: Vec<u64> = vec![0, 5, 0, 5];
    assert_eq!(select_reaction(&weights, 0, 1), Some(1));
    assert_eq!(select_reaction(&weights, 1, 2), Some(3));
    assert_eq!(select_reaction(&weights, 1, 1), Some(3));
}

#[test]
fn select_reaction_reports_zero_total() {
    let empty: Vec<u64> = vec![];
    assert_eq!(select_reaction(&empty, 1, 2), None);
    let zeros: Vec<u64> = vec![0, 0, 0];
    assert_eq!(select_reaction(&zeros, 1, 2), None);
}
