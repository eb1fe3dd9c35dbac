//! Evaluating a witness against a constraint system, and deciding whether
//! the witness satisfies it.
//!
//! Evaluation multiplies each of the matrices A, B and C with the witness and
//! yields three vectors with one field element for each constraint.  The
//! witness satisfies constraint `i` when `Az[i] · Bz[i] = Cz[i]` in the field.

use crate::field::{
    field_mul, field_value_of, lemma_view_injective, mul_mod, FieldElement,
};
use crate::models::{Matrix, SnarkJsWitnessFile};
use crate::numeral::decimal_value;
use crate::serialize::Constraints;
use crate::sparse::{
    coefficients, entry_terms, field_values, matrix_product, out_of_range, position_le,
    SparseEntry, SparseMatrix,
};
use vstd::prelude::*;

verus! {

/// Which list of numerals a value was read from.
#[derive(Clone, Copy, Debug, PartialEq, Eq, Structural)]
pub enum ValueSource {
    Witness,
    MatrixA,
    MatrixB,
    MatrixC,
}

/// A value that is no decimal numeral of a field element: the list it stands
/// in, and its index there.
#[derive(Clone, Copy, Debug, PartialEq, Eq, Structural)]
pub struct ParseError {
    pub source: ValueSource,
    pub index: usize,
}

/// A matrix entry that names a signal which the witness does not have.
#[derive(Clone, Copy, Debug, PartialEq, Eq, Structural)]
pub struct ShapeError {
    pub constraint: usize,
    pub signal: usize,
}

/// Why a witness could not be evaluated.
#[derive(Clone, Copy, Debug, PartialEq, Eq, Structural)]
pub enum EvaluationError {
    Parse(ParseError),
    Shape(ShapeError),
}

/// The outcome of checking one evaluated witness.  A violation names the
/// first constraint that fails, with both sides of its equation.
#[derive(Clone, Copy, Debug, PartialEq, Eq, Structural)]
pub enum Verdict {
    Satisfied,
    Unsatisfied { constraint: usize, lhs: FieldElement, rhs: FieldElement },
}

/// The first evaluated witness of a batch that fails, and how it fails.
#[derive(Clone, Copy, Debug, PartialEq, Eq, Structural)]
pub struct BatchViolation {
    pub witness: usize,
    pub constraint: usize,
    pub lhs: FieldElement,
    pub rhs: FieldElement,
}

/// The products of the matrices A, B and C with one witness.
#[derive(Clone, Debug, PartialEq, Eq)]
pub struct WitnessBoundConstraints {
    pub az: Vec<FieldElement>,
    pub bz: Vec<FieldElement>,
    pub cz: Vec<FieldElement>,
}

impl WitnessBoundConstraints {
    /// The three vectors have one element for each constraint.
    pub open spec fn well_formed(&self) -> bool {
        self.az.len() == self.bz.len() && self.bz.len() == self.cz.len()
    }

    /// Constraint `i` holds: `Az[i] · Bz[i] = Cz[i]` in the field.
    pub open spec fn holds_at(&self, i: int) -> bool {
        field_mul(self.az[i]@, self.bz[i]@) == self.cz[i]@
    }

    /// Every constraint holds.
    pub open spec fn satisfied(&self) -> bool {
        forall|i: int| 0 <= i < self.az.len() ==> self.holds_at(i)
    }

    /// `verdict` is the outcome of checking these vectors.
    pub open spec fn has_verdict(&self, verdict: Verdict) -> bool {
        match verdict {
            Verdict::Satisfied => self.satisfied(),
            Verdict::Unsatisfied { constraint, lhs, rhs } => {
                &&& constraint < self.az.len()
                &&& !self.holds_at(constraint as int)
                &&& forall|i: int| 0 <= i < constraint ==> self.holds_at(i)
                &&& lhs@ == field_mul(self.az[constraint as int]@, self.bz[constraint as int]@)
                &&& rhs == self.cz[constraint as int]
            },
        }
    }
}

/// The texts of the values of a list of matrix entries.
pub open spec fn matrix_texts(entries: Seq<Matrix>) -> Seq<Seq<char>> {
    Seq::new(entries.len(), |k: int| entries[k].value@)
}

/// The texts of a witness.
pub open spec fn witness_texts(witness: Seq<String>) -> Seq<Seq<char>> {
    Seq::new(witness.len(), |k: int| witness[k]@)
}

/// Every text is the decimal numeral of a field element.
pub open spec fn all_readable(texts: Seq<Seq<char>>) -> bool {
    forall|k: int| 0 <= k < texts.len() ==> field_value_of(#[trigger] texts[k]) is Some
}

/// `index` is the first text that is no decimal numeral of a field element.
pub open spec fn first_unreadable(texts: Seq<Seq<char>>, index: int) -> bool {
    &&& 0 <= index < texts.len()
    &&& field_value_of(texts[index]) is None
    &&& forall|k: int| 0 <= k < index ==> field_value_of(#[trigger] texts[k]) is Some
}

/// The numbers that a list of numerals denotes.
pub open spec fn text_values(texts: Seq<Seq<char>>) -> Seq<nat> {
    Seq::new(texts.len(), |k: int| decimal_value(texts[k]))
}

/// The terms of a list of matrix entries whose values are numerals.
pub open spec fn matrix_terms(entries: Seq<Matrix>) -> Seq<(nat, nat, nat)> {
    Seq::new(
        entries.len(),
        |k: int|
            (entries[k].constraint as nat, entries[k].signal as nat, decimal_value(
                entries[k].value@,
            )),
    )
}

/// A position in one of the first `rows` rows of A, B or C whose signal a
/// witness of length `witness_len` does not have.
pub open spec fn system_out_of_range(
    a: Map<(nat, nat), nat>,
    b: Map<(nat, nat), nat>,
    c: Map<(nat, nat), nat>,
    rows: nat,
    witness_len: nat,
    position: (nat, nat),
) -> bool {
    out_of_range(a, rows, witness_len, position) || out_of_range(b, rows, witness_len, position)
        || out_of_range(c, rows, witness_len, position)
}

/// Every signal that the first `rows` rows of A, B and C name is one of a
/// witness of length `witness_len`.
pub open spec fn system_in_range(
    a: Map<(nat, nat), nat>,
    b: Map<(nat, nat), nat>,
    c: Map<(nat, nat), nat>,
    rows: nat,
    witness_len: nat,
) -> bool {
    forall|q: (nat, nat)| !#[trigger] system_out_of_range(a, b, c, rows, witness_len, q)
}

/// `position` is the least, by constraint and then by signal, of the
/// positions that are out of range.
pub open spec fn least_out_of_range(
    a: Map<(nat, nat), nat>,
    b: Map<(nat, nat), nat>,
    c: Map<(nat, nat), nat>,
    rows: nat,
    witness_len: nat,
    position: (nat, nat),
) -> bool {
    &&& system_out_of_range(a, b, c, rows, witness_len, position)
    &&& forall|q: (nat, nat)| #[trigger]
        system_out_of_range(a, b, c, rows, witness_len, q) ==> position_le(position, q)
}

/// `products` holds the products of the three matrices with the witness.
pub open spec fn is_evaluation(
    products: WitnessBoundConstraints,
    a: Map<(nat, nat), nat>,
    b: Map<(nat, nat), nat>,
    c: Map<(nat, nat), nat>,
    rows: nat,
    witness: Seq<nat>,
) -> bool {
    &&& field_values(products.az@) == matrix_product(a, witness, rows)
    &&& field_values(products.bz@) == matrix_product(b, witness, rows)
    &&& field_values(products.cz@) == matrix_product(c, witness, rows)
}

/// An evaluation has one element for each constraint in each of its vectors.
pub proof fn lemma_evaluation_well_formed(
    products: WitnessBoundConstraints,
    a: Map<(nat, nat), nat>,
    b: Map<(nat, nat), nat>,
    c: Map<(nat, nat), nat>,
    rows: nat,
    witness: Seq<nat>,
)
    requires
        is_evaluation(products, a, b, c, rows, witness),
    ensures
        products.well_formed(),
        products.az.len() == rows,
{
    assert(matrix_product(a, witness, rows).len() == rows);
    assert(matrix_product(b, witness, rows).len() == rows);
    assert(matrix_product(c, witness, rows).len() == rows);
}

/// `result` is what evaluating `witness` against the matrices with the
/// entries `a`, `b` and `c` and with `rows` constraints gives.
///
/// The witness is read first, then the matrices A, B and C; the first value
/// that is no numeral of a field element is reported.  Then the least
/// position whose signal the witness lacks is reported.  Otherwise the result
/// is the three products.
pub open spec fn evaluation_result(
    a: Seq<Matrix>,
    b: Seq<Matrix>,
    c: Seq<Matrix>,
    rows: nat,
    witness: Seq<String>,
    result: Result<WitnessBoundConstraints, EvaluationError>,
) -> bool {
    let w = witness_texts(witness);
    match result {
        Err(EvaluationError::Parse(e)) => match e.source {
            ValueSource::Witness => first_unreadable(w, e.index as int),
            ValueSource::MatrixA => all_readable(w) && first_unreadable(
                matrix_texts(a),
                e.index as int,
            ),
            ValueSource::MatrixB => all_readable(w) && all_readable(matrix_texts(a))
                && first_unreadable(matrix_texts(b), e.index as int),
            ValueSource::MatrixC => all_readable(w) && all_readable(matrix_texts(a))
                && all_readable(matrix_texts(b)) && first_unreadable(
                matrix_texts(c),
                e.index as int,
            ),
        },
        Err(EvaluationError::Shape(e)) => {
            &&& all_readable(w) && all_readable(matrix_texts(a)) && all_readable(matrix_texts(b))
                && all_readable(matrix_texts(c))
            &&& least_out_of_range(
                coefficients(matrix_terms(a)),
                coefficients(matrix_terms(b)),
                coefficients(matrix_terms(c)),
                rows,
                w.len(),
                (e.constraint as nat, e.signal as nat),
            )
        },
        Ok(products) => {
            &&& can_evaluate(a, b, c, rows, witness)
            &&& is_evaluation(
                products,
                coefficients(matrix_terms(a)),
                coefficients(matrix_terms(b)),
                coefficients(matrix_terms(c)),
                rows,
                text_values(w),
            )
        },
    }
}

/// The witness can be evaluated: every value is a numeral of a field element,
/// and the witness has every signal that the first `rows` rows name.
pub open spec fn can_evaluate(
    a: Seq<Matrix>,
    b: Seq<Matrix>,
    c: Seq<Matrix>,
    rows: nat,
    witness: Seq<String>,
) -> bool {
    &&& all_readable(witness_texts(witness))
    &&& all_readable(matrix_texts(a))
    &&& all_readable(matrix_texts(b))
    &&& all_readable(matrix_texts(c))
    &&& system_in_range(
        coefficients(matrix_terms(a)),
        coefficients(matrix_terms(b)),
        coefficients(matrix_terms(c)),
        rows,
        witness.len(),
    )
}

/// What building the matrices of `constraints` gives: the system whose
/// matrices the entries describe, or the first value, in the order A, B, C,
/// that is no numeral of a field element.
pub open spec fn system_result(
    constraints: Constraints,
    result: Result<ConstraintSystem, ParseError>,
) -> bool {
    let ta = matrix_texts(constraints.a@);
    let tb = matrix_texts(constraints.b@);
    let tc = matrix_texts(constraints.c@);
    match result {
        Ok(system) => {
            &&& all_readable(ta) && all_readable(tb) && all_readable(tc)
            &&& system.num_public == constraints.num_public
            &&& system.num_variables == constraints.num_variables
            &&& system.num_constraints == constraints.num_constraints
            &&& system.a@ == coefficients(matrix_terms(constraints.a@))
            &&& system.b@ == coefficients(matrix_terms(constraints.b@))
            &&& system.c@ == coefficients(matrix_terms(constraints.c@))
        },
        Err(e) => match e.source {
            ValueSource::Witness => false,
            ValueSource::MatrixA => first_unreadable(ta, e.index as int),
            ValueSource::MatrixB => all_readable(ta) && first_unreadable(tb, e.index as int),
            ValueSource::MatrixC => all_readable(ta) && all_readable(tb) && first_unreadable(
                tc,
                e.index as int,
            ),
        },
    }
}

/// A constraint system with its coefficients read and its matrices built.
#[derive(Debug)]
pub struct ConstraintSystem {
    pub num_public: usize,
    pub num_variables: usize,
    pub num_constraints: usize,
    pub a: SparseMatrix,
    pub b: SparseMatrix,
    pub c: SparseMatrix,
}

/// Reads the numerals of a witness.  Fails with the index of the first that
/// is no numeral of a field element.
pub fn parse_witness(witness: &SnarkJsWitnessFile) -> (r: Result<Vec<FieldElement>, usize>)
    ensures
        match r {
            Ok(values) => all_readable(witness_texts(witness@)) && field_values(values@)
                == text_values(witness_texts(witness@)),
            Err(index) => first_unreadable(witness_texts(witness@), index as int),
        },
{
    let ghost texts = witness_texts(witness@);
    let mut values: Vec<FieldElement> = Vec::new();
    let mut k: usize = 0;
    while k < witness.len()
        invariant
            k <= witness.len(),
            texts == witness_texts(witness@),
            values.len() == k,
            forall|j: int| 0 <= j < k ==> field_value_of(#[trigger] texts[j]) is Some,
            forall|j: int| 0 <= j < k ==> (#[trigger] values@[j])@ == decimal_value(texts[j]),
        decreases witness.len() - k,
    {
        match FieldElement::from_decimal(witness[k].as_str()) {
            Some(value) => {
                values.push(value);
            },
            None => {
                return Err(k);
            },
        }
        k += 1;
    }
    Ok(values)
}

/// Reads the values of a list of matrix entries.  Fails with the index of the
/// first whose value is no numeral of a field element.
pub fn parse_matrix(entries: &Vec<Matrix>) -> (r: Result<Vec<SparseEntry>, usize>)
    ensures
        match r {
            Ok(parsed) => all_readable(matrix_texts(entries@)) && entry_terms(parsed@)
                == matrix_terms(entries@),
            Err(index) => first_unreadable(matrix_texts(entries@), index as int),
        },
{
    let ghost texts = matrix_texts(entries@);
    let mut parsed: Vec<SparseEntry> = Vec::new();
    let mut k: usize = 0;
    while k < entries.len()
        invariant
            k <= entries.len(),
            texts == matrix_texts(entries@),
            parsed.len() == k,
            forall|j: int| 0 <= j < k ==> field_value_of(#[trigger] texts[j]) is Some,
            forall|j: int|
                0 <= j < k ==> (#[trigger] parsed@[j]).term() == matrix_terms(entries@)[j],
        decreases entries.len() - k,
    {
        let entry = &entries[k];
        match FieldElement::from_decimal(entry.value.as_str()) {
            Some(value) => {
                parsed.push(
                    SparseEntry { constraint: entry.constraint, signal: entry.signal, value },
                );
            },
            None => {
                return Err(k);
            },
        }
        k += 1;
    }
    Ok(parsed)
}

/// The lesser of two optional positions, by constraint and then by signal;
/// a position is less than none.
fn lesser_position(p: Option<(usize, usize)>, q: Option<(usize, usize)>) -> (r: Option<
    (usize, usize),
>)
    ensures
        r == match (p, q) {
            (Some(x), Some(y)) => if position_le((x.0 as nat, x.1 as nat), (y.0 as nat, y.1 as nat)) {
                Some(x)
            } else {
                Some(y)
            },
            (Some(x), None) => Some(x),
            (None, y) => y,
        },
{
    match (p, q) {
        (Some(x), Some(y)) => if x.0 < y.0 || (x.0 == y.0 && x.1 <= y.1) {
            Some(x)
        } else {
            Some(y)
        },
        (Some(x), None) => Some(x),
        (None, y) => y,
    }
}

impl ConstraintSystem {
    /// Reads the coefficients of `constraints` and builds the three matrices.
    /// Fails with the first value, in the order A, B, C, that is no numeral
    /// of a field element.
    pub fn from_constraints(constraints: &Constraints) -> (r: Result<ConstraintSystem, ParseError>)
        ensures
            system_result(*constraints, r),
    {
        let a = match parse_matrix(&constraints.a) {
            Ok(parsed) => SparseMatrix::from_entries(&parsed),
            Err(index) => {
                return Err(ParseError { source: ValueSource::MatrixA, index });
            },
        };
        let b = match parse_matrix(&constraints.b) {
            Ok(parsed) => SparseMatrix::from_entries(&parsed),
            Err(index) => {
                return Err(ParseError { source: ValueSource::MatrixB, index });
            },
        };
        let c = match parse_matrix(&constraints.c) {
            Ok(parsed) => SparseMatrix::from_entries(&parsed),
            Err(index) => {
                return Err(ParseError { source: ValueSource::MatrixC, index });
            },
        };
        Ok(
            ConstraintSystem {
                num_public: constraints.num_public,
                num_variables: constraints.num_variables,
                num_constraints: constraints.num_constraints,
                a,
                b,
                c,
            },
        )
    }

    /// Multiplies the matrices A, B and C with the witness.  Fails with the
    /// least position, by constraint and then by signal, whose signal the
    /// witness does not have.
    pub fn evaluate(&self, witness: &Vec<FieldElement>) -> (r: Result<
        WitnessBoundConstraints,
        ShapeError,
    >)
        ensures
            match r {
                Ok(products) => {
                    &&& system_in_range(
                        self.a@,
                        self.b@,
                        self.c@,
                        self.num_constraints as nat,
                        witness.len() as nat,
                    )
                    &&& is_evaluation(
                        products,
                        self.a@,
                        self.b@,
                        self.c@,
                        self.num_constraints as nat,
                        field_values(witness@),
                    )
                },
                Err(e) => least_out_of_range(
                    self.a@,
                    self.b@,
                    self.c@,
                    self.num_constraints as nat,
                    witness.len() as nat,
                    (e.constraint as nat, e.signal as nat),
                ),
            },
    {
        let rows = self.num_constraints;
        let in_a = self.a.first_out_of_range(rows, witness.len());
        let in_b = self.b.first_out_of_range(rows, witness.len());
        let in_c = self.c.first_out_of_range(rows, witness.len());
        match lesser_position(lesser_position(in_a, in_b), in_c) {
            Some((constraint, signal)) => Err(ShapeError { constraint, signal }),
            None => {
                let az = self.a.product(witness, rows);
                let bz = self.b.product(witness, rows);
                let cz = self.c.product(witness, rows);
                Ok(WitnessBoundConstraints { az, bz, cz })
            },
        }
    }
}

/// Evaluates one witness against a constraint system whose matrices were
/// built beforehand, so that a batch of witnesses shares them.  `prepared` is
/// what [`ConstraintSystem::from_constraints`] gave for `constraints`.
pub fn evaluate_prepared(
    constraints: &Constraints,
    prepared: &Result<ConstraintSystem, ParseError>,
    witness: &SnarkJsWitnessFile,
) -> (r: Result<WitnessBoundConstraints, EvaluationError>)
    requires
        system_result(*constraints, *prepared),
    ensures
        constraints.evaluates_to(witness@, r),
{
    let values = match parse_witness(witness) {
        Ok(values) => values,
        Err(index) => {
            return Err(
                EvaluationError::Parse(ParseError { source: ValueSource::Witness, index }),
            );
        },
    };
    match prepared {
        Ok(system) => match system.evaluate(&values) {
            Ok(products) => Ok(products),
            Err(e) => Err(EvaluationError::Shape(e)),
        },
        Err(e) => Err(EvaluationError::Parse(*e)),
    }
}

/// Evaluates one witness against a constraint system, both given as text.
pub fn compute_witness_bound_constraints(
    constraints: &Constraints,
    witness: &SnarkJsWitnessFile,
) -> (r: Result<WitnessBoundConstraints, EvaluationError>)
    ensures
        constraints.evaluates_to(witness@, r),
{
    let prepared = ConstraintSystem::from_constraints(constraints);
    evaluate_prepared(constraints, &prepared, witness)
}

/// Checks the constraints in order and stops at the first that fails.
pub fn check_r1cs_satisfiability_single(constrained_witness: &WitnessBoundConstraints) -> (verdict:
    Verdict)
    requires
        constrained_witness.well_formed(),
    ensures
        constrained_witness.has_verdict(verdict),
{
    let mut i: usize = 0;
    while i < constrained_witness.az.len()
        invariant
            i <= constrained_witness.az.len(),
            constrained_witness.well_formed(),
            forall|j: int| 0 <= j < i ==> constrained_witness.holds_at(j),
        decreases constrained_witness.az.len() - i,
    {
        let lhs = mul_mod(constrained_witness.az[i], constrained_witness.bz[i]);
        let rhs = constrained_witness.cz[i];
        proof {
            lemma_view_injective(lhs, rhs);
        }
        if lhs != rhs {
            return Verdict::Unsatisfied { constraint: i, lhs, rhs };
        }
        i += 1;
    }
    Verdict::Satisfied
}

/// `violation` names the first evaluated witness of the batch that fails.
pub open spec fn is_first_violation(
    batch: Seq<WitnessBoundConstraints>,
    violation: BatchViolation,
) -> bool {
    &&& violation.witness < batch.len()
    &&& forall|k: int| 0 <= k < violation.witness ==> (#[trigger] batch[k]).satisfied()
    &&& batch[violation.witness as int].has_verdict(
        Verdict::Unsatisfied {
            constraint: violation.constraint,
            lhs: violation.lhs,
            rhs: violation.rhs,
        },
    )
}

/// Looks for the first evaluated witness that violates a constraint.
pub fn find_violation(constrained_witnesses: &[WitnessBoundConstraints]) -> (r: Option<
    BatchViolation,
>)
    requires
        forall|k: int|
            0 <= k < constrained_witnesses@.len() ==> (#[trigger] constrained_witnesses@[k]).well_formed(),
    ensures
        match r {
            Some(violation) => is_first_violation(constrained_witnesses@, violation),
            None => forall|k: int|
                0 <= k < constrained_witnesses@.len() ==> (#[trigger] constrained_witnesses@[k]).satisfied(),
        },
{
    let mut k: usize = 0;
    while k < constrained_witnesses.len()
        invariant
            k <= constrained_witnesses@.len(),
            forall|j: int|
                0 <= j < constrained_witnesses@.len() ==> (#[trigger] constrained_witnesses@[j]).well_formed(),
            forall|j: int| 0 <= j < k ==> (#[trigger] constrained_witnesses@[j]).satisfied(),
        decreases constrained_witnesses@.len() - k,
    {
        match check_r1cs_satisfiability_single(&constrained_witnesses[k]) {
            Verdict::Satisfied => {},
            Verdict::Unsatisfied { constraint, lhs, rhs } => {
                return Some(BatchViolation { witness: k, constraint, lhs, rhs });
            },
        }
        k += 1;
    }
    None
}

/// Whether every evaluated witness of the batch satisfies every constraint.
pub fn check_r1cs_satisfiability(constrained_witnesses: &[WitnessBoundConstraints]) -> (r: bool)
    requires
        forall|k: int|
            0 <= k < constrained_witnesses@.len() ==> (#[trigger] constrained_witnesses@[k]).well_formed(),
    ensures
        r <==> forall|k: int|
            0 <= k < constrained_witnesses@.len() ==> (#[trigger] constrained_witnesses@[k]).satisfied(),
{
    find_violation(constrained_witnesses).is_none()
}

} // verus!
