use grn_simulator::simulation::{Product, Reactant, Reaction, System, TriggerError};

/// The water-formation network used throughout: one reaction turning
/// O2 + 2 H2 into 2 H2O at rate 0.1, carried as weight 10 in units of 0.01.
fn water_system() -> System {
    System {
        state: vec![2u64, 2u64, 2u64],
        idx_to_name: vec!["o2".to_string(), "h2".to_string(), "h2o".to_string()],
        reactions: vec![Reaction {
            rate_weight: 10,
            reactants: vec![
                Reactant { index: 0, quantity: 1 },
                Reactant { index: 1, quantity: 2 },
            ],
            products: vec![Product { index: 2, quantity: 2 }],
        }],
        time_of_last_reaction: 0,
        last_reaction: None,
    }
}

#[test]
fn test_trigger_reaction_valid() {
    let mut system = water_system();

    let reaction_time = (0.1f64).to_bits();
    let reaction_index = 0;
    system.trigger_reaction(reaction_time, reaction_index);

    assert_eq!(system.last_reaction, Some(reaction_index));
    assert_eq!(system.time_of_last_reaction, reaction_time);
    assert_eq!(system.state, vec![1, 0, 4]);
}

#[test]
fn trigger_checked_rejects_insufficient_reactants() {
    // Triggering a reaction for which there is not enough input.
    let mut system = water_system();
    system.state = vec![0u64, 0u64, 0u64];

    let r = system.trigger_reaction_checked((0.1f64).to_bits(), 0);

    assert_eq!(r, Err(TriggerError::InsufficientReactants));
    assert_eq!(system.state, vec![0, 0, 0]);
    assert_eq!(system.time_of_last_reaction, 0);
    assert_eq!(system.last_reaction, None);
}

#[test]
fn trigger_checked_rejects_invalid_reaction_index() {
    // Triggering a reaction with an index past the reaction list.
    let mut system = water_system();

    let r = system.trigger_reaction_checked((0.1f64).to_bits(), 1);

    assert_eq!(r, Err(TriggerError::InvalidIndex));
    assert_eq!(system.state, vec![2, 2, 2]);
    assert_eq!(system.time_of_last_reaction, 0);
    assert_eq!(system.last_reaction, None);
}

#[test]
fn trigger_checked_rejects_time_in_the_past() {
    // Triggering a reaction before the last recorded reaction.
    let mut system = water_system();
    system.time_of_last_reaction = (50.0f64).to_bits();

    let r = system.trigger_reaction_checked((0.1f64).to_bits(), 0);

    assert_eq!(r, Err(TriggerError::TimeInPast));
    assert_eq!(system.state, vec![2, 2, 2]);
    assert_eq!(system.time_of_last_reaction, (50.0f64).to_bits());
    assert_eq!(system.last_reaction, None);
}

#[test]
fn trigger_checked_rejects_count_overflow() {
    let mut system = System {
        state: vec![1u64, u64::MAX],
        idx_to_name: vec!["a".to_string(), "b".to_string()],
        reactions: vec![Reaction {
            rate_weight: 1,
            reactants: vec![Reactant { index: 0, quantity: 1 }],
            products: vec![Product { index: 1, quantity: 1 }],
        }],
        time_of_last_reaction: 0,
        last_reaction: None,
    };

    let r = system.trigger_reaction_checked(0, 0);

    assert_eq!(r, Err(TriggerError::CountOverflow));
    assert_eq!(system.state, vec![1, u64::MAX]);
    assert_eq!(system.last_reaction, None);
}

#[test]
fn trigger_checked_applies_valid_reaction() {
    let mut system = water_system();

    let r = system.trigger_reaction_checked((0.1f64).to_bits(), 0);

    assert_eq!(r, Ok(()));
    assert_eq!(system.state, vec![1, 0, 4]);
    assert_eq!(system.last_reaction, Some(0));
}

#[test]
fn test_serialize_state() {
    let mut system = System::new();
    system.state = vec![0u64, 1u64, 1000u64];
    let printed_line = system.serialize_state();
    assert_eq!(printed_line.as_str(), "0,1,1000");
}

#[test]
fn serialize_state_of_empty_system() {
    let system = System::new();
    assert_eq!(system.serialize_state().as_str(), "");
}

#[test]
fn build_system_name_index_mapping() {
    let mut system = System::new();
    assert!(system.add_species("O2".to_string(), 2));
    assert!(system.add_species("H2".to_string(), 4));
    assert!(system.add_species("H2O".to_string(), 0));

    let idx_of_o2 = system.name_to_idx(&"O2".to_string()).expect("no O2 in system?");
    let idx_of_h2 = system.name_to_idx(&"H2".to_string()).expect("no H2 in system?");
    let idx_of_h2o = system.name_to_idx(&"H2O".to_string()).expect("no H2O in system?");

    // idx - name mapping is consistent
    assert_eq!(system.idx_to_name[idx_of_o2], "O2");
    assert_eq!(system.idx_to_name[idx_of_h2], "H2");
    assert_eq!(system.idx_to_name[idx_of_h2o], "H2O");

    // rate 0.2 carried as weight 2 in units of 0.1
    let added = system.add_reaction(Reaction {
        rate_weight: 2,
        reactants: vec![
            Reactant { index: idx_of_o2, quantity: 1 },
            Reactant { index: idx_of_h2, quantity: 2 },
        ],
        products: vec![Product { index: idx_of_h2o, quantity: 2 }],
    });
    assert!(added);

    // reactions
    assert_eq!(system.reactions.len(), 1);
    let first_reaction = &system.reactions[0];
    assert_eq!(first_reaction.rate_weight, 2);
    assert_eq!(first_reaction.reactants.len(), 2);
    assert_eq!(first_reaction.products.len(), 1);
    assert_eq!(first_reaction.reactants[0].index, idx_of_o2);
    assert_eq!(first_reaction.reactants[0].quantity, 1);
    assert_eq!(first_reaction.reactants[1].index, idx_of_h2);
    assert_eq!(first_reaction.reactants[1].quantity, 2);
    assert_eq!(first_reaction.products[0].index, idx_of_h2o);
    assert_eq!(first_reaction.products[0].quantity, 2);

    // initial state
    assert_eq!(system.state.len(), 3);
    assert_eq!(system.state[idx_of_o2], 2);
    assert_eq!(system.state[idx_of_h2], 4);
    assert_eq!(system.state[idx_of_h2o], 0);

    // unknown names are not resolved
    assert_eq!(system.name_to_idx(&"He".to_string()), None);
}

#[test]
fn resolve_reaction_maps_names_to_indices() {
    let mut system = System::new();
    assert!(system.add_species("O2".to_string(), 2));
    assert!(system.add_species("H2".to_string(), 4));
    assert!(system.add_species("H2O".to_string(), 0));

    let reaction = system
        .resolve_reaction(
            2,
            &vec![("O2".to_string(), 1), ("H2".to_string(), 2)],
            &vec![("H2O".to_string(), 2)],
        )
        .expect("all names known");
    assert_eq!(reaction.rate_weight, 2);
    assert_eq!(reaction.reactants.len(), 2);
    assert_eq!(reaction.reactants[0], Reactant { index: 0, quantity: 1 });
    assert_eq!(reaction.reactants[1], Reactant { index: 1, quantity: 2 });
    assert_eq!(reaction.products.len(), 1);
    assert_eq!(reaction.products[0], Product { index: 2, quantity: 2 });

    // an unknown species name is a configuration error
    let missing = system.resolve_reaction(1, &vec![("He".to_string(), 1)], &vec![]);
    assert!(missing.is_none());
}

#[test]
fn add_species_rejects_duplicate_name() {
    let mut system = System::new();
    assert!(system.add_species("O2".to_string(), 2));
    assert!(!system.add_species("O2".to_string(), 5));
    assert_eq!(system.state, vec![2]);
    assert_eq!(system.idx_to_name.len(), 1);
}

#[test]
fn add_reaction_rejects_malformed_reactions() {
    let mut system = System::new();
    assert!(system.add_species("A".to_string(), 1));

    // index out of range
    assert!(!system.add_reaction(Reaction {
        rate_weight: 1,
        reactants: vec![Reactant { index: 1, quantity: 1 }],
        products: vec![],
    }));
    // zero quantity
    assert!(!system.add_reaction(Reaction {
        rate_weight: 1,
        reactants: vec![Reactant { index: 0, quantity: 0 }],
        products: vec![],
    }));
    // zero rate
    assert!(!system.add_reaction(Reaction {
        rate_weight: 0,
        reactants: vec![Reactant { index: 0, quantity: 1 }],
        products: vec![],
    }));
    assert_eq!(system.reactions.len(), 0);
}

#[test]
fn propensity_of_water_reaction() {
    let system = water_system();
    // 10 * C(2,1) * C(2,2) = 10 * 2 * 1
    assert_eq!(system.reactions[0].propensity(&system.state), 20);
    assert_eq!(system.reactions[0].propensity_checked(&system.state), Some(20));
}

#[test]
fn propensity_is_zero_without_reactants() {
    let mut system = water_system();
    system.state = vec![2, 1, 0];
    // the reaction needs two molecules of the species at index 1
    assert_eq!(system.reactions[0].propensity_checked(&system.state), Some(0));
}

#[test]
fn propensity_checked_reports_overflow() {
    let system = System {
        state: vec![200u64],
        idx_to_name: vec!["a".to_string()],
        reactions: vec![Reaction {
            rate_weight: 1,
            reactants: vec![Reactant { index: 0, quantity: 50 }],
            products: vec![],
        }],
        time_of_last_reaction: 0,
        last_reaction: None,
    };
    // C(200, 50) is far beyond the u64 range.
    assert_eq!(system.reactions[0].propensity_checked(&system.state), None);
}
