//! The shapes in which constraint systems and witnesses arrive.

use vstd::prelude::*;

verus! {

/// A witness as exported: one decimal numeral for each signal, the constant
/// `1` conventionally first.
pub type SnarkJsWitnessFile = Vec<String>;

/// One linear combination of an exported constraint: pairs of a signal index
/// and a coefficient, both as text, in the order in which they are read.
pub type LinearCombination = Vec<(String, String)>;

/// One coefficient of a constraint matrix, its value a decimal numeral.
#[derive(Clone, Debug, PartialEq, Eq)]
pub struct Matrix {
    pub constraint: usize,
    pub signal: usize,
    pub value: String,
}

/// A constraint system as the circuit compiler exports it.  Each constraint
/// is a list of linear combinations, of which the first three are its A, B
/// and C parts.
#[derive(Clone, Debug, PartialEq, Eq)]
pub struct R1CSFile {
    pub n8: u32,
    pub prime: String,
    pub num_variables: usize,
    pub num_outputs: usize,
    pub num_pub_inputs: usize,
    pub num_prv_inputs: usize,
    pub num_labels: usize,
    pub num_constraints: usize,
    pub use_custom_gates: Option<bool>,
    pub constraints: Vec<Vec<LinearCombination>>,
    pub map: Vec<usize>,
}

impl R1CSFile {
    /// Every constraint has its A, B and C parts, and the count of public
    /// signals fits the machine word.
    pub open spec fn well_formed(&self) -> bool {
        &&& self.num_pub_inputs + self.num_outputs <= usize::MAX
        &&& forall|k: int| 0 <= k < self.constraints.len() ==> (#[trigger] self.constraints[k]).len() >= 3
    }
}

} // verus!
