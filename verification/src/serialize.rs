//! The normalised constraint system and the conversion of an exported
//! constraint system with its witnesses into it.

use crate::models::{LinearCombination, Matrix, R1CSFile, SnarkJsWitnessFile};
use crate::numeral::{index_of_numeral, parse_index};
use crate::r1cs::{
    can_evaluate, evaluate_prepared, evaluation_result, find_violation, is_first_violation,
    lemma_evaluation_well_formed, matrix_terms, system_result, text_values, witness_texts,
    BatchViolation, ConstraintSystem, EvaluationError, WitnessBoundConstraints,
};
use crate::sparse::coefficients;
use vstd::prelude::*;

verus! {

/// A constraint system in normalised form: three lists of matrix entries.
#[derive(Clone, Debug, PartialEq, Eq)]
pub struct Constraints {
    pub num_public: usize,
    pub num_variables: usize,
    pub num_constraints: usize,
    pub a: Vec<Matrix>,
    pub b: Vec<Matrix>,
    pub c: Vec<Matrix>,
}

impl Constraints {
    /// `result` is what evaluating `witness` against this system gives.
    pub open spec fn evaluates_to(
        &self,
        witness: Seq<String>,
        result: Result<WitnessBoundConstraints, EvaluationError>,
    ) -> bool {
        evaluation_result(self.a@, self.b@, self.c@, self.num_constraints as nat, witness, result)
    }

    /// `witness` can be evaluated against this system.
    pub open spec fn admits(&self, witness: Seq<String>) -> bool {
        can_evaluate(self.a@, self.b@, self.c@, self.num_constraints as nat, witness)
    }
}

/// A constraint system with the witnesses that satisfy it and their
/// evaluations, ready to be written out.
#[derive(Clone, Debug, PartialEq, Eq)]
pub struct SerializedSnarkJs {
    pub constraints: Constraints,
    pub witnesses: Vec<SnarkJsWitnessFile>,
    pub constrained_witnesses: Vec<WitnessBoundConstraints>,
}

/// Why a constraint system and its witnesses could not be converted.
#[derive(Clone, Debug, PartialEq, Eq)]
pub enum ConversionError {
    /// The witness with this index could not be evaluated.
    Evaluation { witness: usize, error: EvaluationError },
    /// Every witness was evaluated, and one of them violates a constraint.
    Unsatisfied { violation: BatchViolation, constrained_witnesses: Vec<WitnessBoundConstraints> },
}

/// The signal that the text of an index names: the index itself where the
/// text is a numeral of one, and signal zero otherwise.
pub open spec fn signal_of(text: Seq<char>) -> usize {
    match index_of_numeral(text) {
        Some(index) => index,
        None => 0,
    }
}

/// The matrix entries of one linear combination of the constraint with index
/// `constraint`, in the order of its pairs.
pub open spec fn combination_entries(pairs: Seq<(String, String)>, constraint: usize) -> Seq<
    Matrix,
> {
    Seq::new(
        pairs.len(),
        |k: int| Matrix { constraint, signal: signal_of(pairs[k].0@), value: pairs[k].1 },
    )
}

/// The entries of the part with index `part` of the first `count`
/// constraints, constraint by constraint.
pub open spec fn part_entries(
    constraints: Seq<Vec<LinearCombination>>,
    part: int,
    count: nat,
) -> Seq<Matrix>
    decreases count,
{
    if count == 0 {
        Seq::empty()
    } else {
        part_entries(constraints, part, (count - 1) as nat) + combination_entries(
            constraints[count - 1]@[part]@,
            (count - 1) as usize,
        )
    }
}

/// `constraints` is the normalised form of `r1cs`: its A, B and C entries are
/// those of the first, second and third part of every constraint.
pub open spec fn is_normal_form(r1cs: R1CSFile, constraints: Constraints) -> bool {
    &&& constraints.num_public == r1cs.num_pub_inputs + r1cs.num_outputs
    &&& constraints.num_variables == r1cs.num_variables
    &&& constraints.num_constraints == r1cs.num_constraints
    &&& constraints.a@ == part_entries(r1cs.constraints@, 0, r1cs.constraints.len() as nat)
    &&& constraints.b@ == part_entries(r1cs.constraints@, 1, r1cs.constraints.len() as nat)
    &&& constraints.c@ == part_entries(r1cs.constraints@, 2, r1cs.constraints.len() as nat)
}

/// `result` is what evaluating `witness` against the normalised form of
/// `r1cs` gives.
pub open spec fn r1cs_evaluates_to(
    r1cs: R1CSFile,
    witness: Seq<String>,
    result: Result<WitnessBoundConstraints, EvaluationError>,
) -> bool {
    let count = r1cs.constraints.len() as nat;
    evaluation_result(
        part_entries(r1cs.constraints@, 0, count),
        part_entries(r1cs.constraints@, 1, count),
        part_entries(r1cs.constraints@, 2, count),
        r1cs.num_constraints as nat,
        witness,
        result,
    )
}

/// `witness` can be evaluated against the normalised form of `r1cs`.
pub open spec fn r1cs_admits(r1cs: R1CSFile, witness: Seq<String>) -> bool {
    let count = r1cs.constraints.len() as nat;
    can_evaluate(
        part_entries(r1cs.constraints@, 0, count),
        part_entries(r1cs.constraints@, 1, count),
        part_entries(r1cs.constraints@, 2, count),
        r1cs.num_constraints as nat,
        witness,
    )
}

/// Appends to `matrix` one entry for each pair of a linear combination.  A
/// signal index that cannot be read counts as signal zero.
pub fn process_constraint(
    matrix: &mut Vec<Matrix>,
    constraint: &LinearCombination,
    constraint_idx: usize,
)
    ensures
        final(matrix)@ == old(matrix)@ + combination_entries(constraint@, constraint_idx),
{
    let ghost start = matrix@;
    let ghost added = combination_entries(constraint@, constraint_idx);
    let mut k: usize = 0;
    while k < constraint.len()
        invariant
            k <= constraint.len(),
            added == combination_entries(constraint@, constraint_idx),
            matrix@ == start + added.take(k as int),
        decreases constraint.len() - k,
    {
        let pair = &constraint[k];
        let signal = match parse_index(pair.0.as_str()) {
            Some(index) => index,
            None => 0,
        };
        matrix.push(Matrix { constraint: constraint_idx, signal, value: pair.1.clone() });
        k += 1;
    }
}

/// Brings an exported constraint system into normalised form.
pub fn normalize(r1cs: &R1CSFile) -> (constraints: Constraints)
    requires
        r1cs.well_formed(),
    ensures
        is_normal_form(*r1cs, constraints),
{
    let mut a: Vec<Matrix> = Vec::new();
    let mut b: Vec<Matrix> = Vec::new();
    let mut c: Vec<Matrix> = Vec::new();
    let mut k: usize = 0;
    while k < r1cs.constraints.len()
        invariant
            k <= r1cs.constraints.len(),
            r1cs.well_formed(),
            a@ == part_entries(r1cs.constraints@, 0, k as nat),
            b@ == part_entries(r1cs.constraints@, 1, k as nat),
            c@ == part_entries(r1cs.constraints@, 2, k as nat),
        decreases r1cs.constraints.len() - k,
    {
        let constraint = &r1cs.constraints[k];
        process_constraint(&mut a, &constraint[0], k);
        process_constraint(&mut b, &constraint[1], k);
        process_constraint(&mut c, &constraint[2], k);
        k += 1;
    }
    Constraints {
        num_public: r1cs.num_pub_inputs + r1cs.num_outputs,
        num_variables: r1cs.num_variables,
        num_constraints: r1cs.num_constraints,
        a,
        b,
        c,
    }
}

/// Evaluates every witness in turn.  Fails at the first witness that cannot
/// be evaluated, with its index and the reason.
pub fn evaluate_witnesses(constraints: &Constraints, witnesses: &Vec<SnarkJsWitnessFile>) -> (r:
    Result<Vec<WitnessBoundConstraints>, (usize, EvaluationError)>)
    ensures
        match r {
            Ok(evaluated) => {
                &&& evaluated.len() == witnesses.len()
                &&& forall|k: int|
                    0 <= k < witnesses.len() ==> constraints.evaluates_to(
                        witnesses@[k]@,
                        Ok(#[trigger] evaluated@[k]),
                    )
            },
            Err((witness, error)) => {
                &&& witness < witnesses.len()
                &&& constraints.evaluates_to(witnesses@[witness as int]@, Err(error))
                &&& forall|k: int| 0 <= k < witness ==> constraints.admits(#[trigger] witnesses@[k]@)
            },
        },
{
    let prepared = ConstraintSystem::from_constraints(constraints);
    let mut evaluated: Vec<WitnessBoundConstraints> = Vec::new();
    let mut k: usize = 0;
    while k < witnesses.len()
        invariant
            k <= witnesses.len(),
            evaluated.len() == k,
            system_result(*constraints, prepared),
            forall|j: int|
                0 <= j < k ==> constraints.evaluates_to(
                    witnesses@[j]@,
                    Ok(#[trigger] evaluated@[j]),
                ),
            forall|j: int| 0 <= j < k ==> constraints.admits(#[trigger] witnesses@[j]@),
        decreases witnesses.len() - k,
    {
        match evaluate_prepared(constraints, &prepared, &witnesses[k]) {
            Ok(products) => {
                evaluated.push(products);
            },
            Err(error) => {
                return Err((k, error));
            },
        }
        k += 1;
    }
    Ok(evaluated)
}

/// Converts an exported constraint system and its witnesses: normalises the
/// system, evaluates every witness and checks that each satisfies every
/// constraint.
///
/// A witness that cannot be evaluated comes before a violated constraint: the
/// first such witness is reported.  Otherwise the first witness that violates
/// a constraint is reported, together with all evaluations.
pub fn convert_r1cs_witnesses_to_serialize_format(
    r1cs: &R1CSFile,
    witnesses: Vec<SnarkJsWitnessFile>,
) -> (r: Result<SerializedSnarkJs, ConversionError>)
    requires
        r1cs.well_formed(),
    ensures
        match r {
            Ok(serialized) => {
                &&& is_normal_form(*r1cs, serialized.constraints)
                &&& serialized.witnesses == witnesses
                &&& serialized.constrained_witnesses.len() == witnesses.len()
                &&& forall|k: int|
                    0 <= k < witnesses.len() ==> r1cs_evaluates_to(
                        *r1cs,
                        witnesses@[k]@,
                        Ok(#[trigger] serialized.constrained_witnesses@[k]),
                    )
                &&& forall|k: int|
                    0 <= k < witnesses.len() ==> (#[trigger] serialized.constrained_witnesses@[k]).satisfied()
            },
            Err(ConversionError::Evaluation { witness, error }) => {
                &&& witness < witnesses.len()
                &&& r1cs_evaluates_to(*r1cs, witnesses@[witness as int]@, Err(error))
                &&& forall|k: int| 0 <= k < witness ==> r1cs_admits(*r1cs, #[trigger] witnesses@[k]@)
            },
            Err(ConversionError::Unsatisfied { violation, constrained_witnesses }) => {
                &&& constrained_witnesses.len() == witnesses.len()
                &&& forall|k: int|
                    0 <= k < witnesses.len() ==> r1cs_evaluates_to(
                        *r1cs,
                        witnesses@[k]@,
                        Ok(#[trigger] constrained_witnesses@[k]),
                    )
                &&& is_first_violation(constrained_witnesses@, violation)
            },
        },
{
    let constraints = normalize(r1cs);
    let constrained_witnesses = match evaluate_witnesses(&constraints, &witnesses) {
        Ok(evaluated) => evaluated,
        Err((witness, error)) => {
            return Err(ConversionError::Evaluation { witness, error });
        },
    };
    proof {
        assert forall|k: int|
            0 <= k < constrained_witnesses@.len() implies (#[trigger] constrained_witnesses@[k]).well_formed() by {
            lemma_evaluation_well_formed(
                constrained_witnesses@[k],
                coefficients(matrix_terms(constraints.a@)),
                coefficients(matrix_terms(constraints.b@)),
                coefficients(matrix_terms(constraints.c@)),
                constraints.num_constraints as nat,
                text_values(witness_texts(witnesses@[k]@)),
            );
        }
    }
    match find_violation(constrained_witnesses.as_slice()) {
        Some(violation) => Err(ConversionError::Unsatisfied { violation, constrained_witnesses }),
        None => Ok(SerializedSnarkJs { constraints, witnesses, constrained_witnesses }),
    }
}

} // verus!
