//! A stochastic simulator for well-mixed reaction networks (Gillespie's
//! Direct Method).
//!
//! The library holds the verified core: propensity computation, the
//! two-sample event selection and time advance of the Direct Method, and
//! the state mutation that applies a fired reaction. Random-number
//! generation, configuration loading and trace output are left to the
//! driver, which feeds the core plain values.

pub mod combinatorics;
pub mod decimal;
pub mod simulation;
pub mod gillespie_simulator;
pub mod trajectory;
