//! Sizing the backend's circuit configuration.

use vstd::prelude::*;

verus! {

/// The part of a backend's circuit configuration that the arithmetizer
/// decides: how many wires a row of the constraint system offers, and how
/// many of them can be routed between gates.
#[derive(Clone, Copy, Debug, PartialEq, Eq, Structural)]
pub struct CircuitConfig {
    pub num_wires: usize,
    pub num_routed_wires: usize,
}

/// The configured wire count is smaller than what the circuit's widest gate
/// needs.
#[derive(Clone, Copy, Debug, PartialEq, Eq, Structural)]
pub struct ConfigurationError {
    pub needed: usize,
    pub configured: usize,
}

/// The larger of two wire counts.
pub open spec fn larger(a: usize, b: usize) -> usize {
    if a >= b {
        a
    } else {
        b
    }
}

impl CircuitConfig {
    /// Whether a gate that needs `gate_wires` wires fits a row.
    pub open spec fn fits(&self, gate_wires: usize) -> bool {
        self.num_wires >= gate_wires
    }

    /// Checks that a gate that needs `gate_wires` wires fits a row.
    pub fn check(&self, gate_wires: usize) -> (result: Result<(), ConfigurationError>)
        ensures
            result is Ok <==> self.fits(gate_wires),
            result matches Err(e) ==> e.needed == gate_wires && e.configured == self.num_wires,
    {
        if self.num_wires >= gate_wires {
            Ok(())
        } else {
            Err(ConfigurationError { needed: gate_wires, configured: self.num_wires })
        }
    }
}

/// Sizes a configuration for a gate: the wire count is the larger of what the
/// gate needs and what the baseline offers, and every wire is routed.
pub fn generate_config_for_gate(gate_wires: usize, baseline: &CircuitConfig) -> (config:
    CircuitConfig)
    ensures
        config.num_wires == larger(gate_wires, baseline.num_wires),
        config.num_routed_wires == config.num_wires,
        config.fits(gate_wires),
        config.num_wires >= baseline.num_wires,
{
    let needed_wires: usize = if gate_wires >= baseline.num_wires {
        gate_wires
    } else {
        baseline.num_wires
    };
    CircuitConfig { num_wires: needed_wires, num_routed_wires: needed_wires }
}

} // verus!
