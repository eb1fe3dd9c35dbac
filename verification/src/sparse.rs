//! Sparse constraint matrices.
//!
//! A matrix arrives as a list of entries `(constraint, signal, value)`.  The
//! list may name one position `(constraint, signal)` several times; the entry
//! that comes last decides the coefficient there.  The model of a matrix is
//! therefore a finite map from positions to coefficients, [`coefficients`],
//! and a position that the map does not hold has coefficient zero.
//!
//! [`SparseMatrix`] keeps one entry for each position of that map, so that a
//! witness is evaluated in one pass over the entries however often the matrix
//! is used.

use crate::field::{add_mod, field_modulus, mul_mod, FieldElement};
use std::collections::HashMap;
use vstd::arithmetic::div_mod::{lemma_add_mod_noop, lemma_small_mod};
use vstd::prelude::*;

verus! {

broadcast use vstd::std_specs::hash::group_hash_axioms;

/// One coefficient of a matrix, as it is ingested.
#[derive(Clone, Copy, Debug, PartialEq, Eq, Structural)]
pub struct SparseEntry {
    pub constraint: usize,
    pub signal: usize,
    pub value: FieldElement,
}

impl SparseEntry {
    /// The entry as `(constraint, signal, value)`.
    pub open spec fn term(&self) -> (nat, nat, nat) {
        (self.constraint as nat, self.signal as nat, self.value@)
    }
}

/// The terms of a list of entries, in the same order.
pub open spec fn entry_terms(entries: Seq<SparseEntry>) -> Seq<(nat, nat, nat)> {
    Seq::new(entries.len(), |k: int| entries[k].term())
}

/// The values of a list of field elements, in the same order.
pub open spec fn field_values(elements: Seq<FieldElement>) -> Seq<nat> {
    Seq::new(elements.len(), |k: int| elements[k]@)
}

/// The position `(constraint, signal)` of the `k`-th term.
pub open spec fn position_at(terms: Seq<(nat, nat, nat)>, k: int) -> (nat, nat) {
    (terms[k].0, terms[k].1)
}

/// The matrix that a list of terms describes: each term writes its value at
/// its position, and a later term overwrites an earlier one.
pub open spec fn coefficients(terms: Seq<(nat, nat, nat)>) -> Map<(nat, nat), nat>
    decreases terms.len(),
{
    if terms.len() == 0 {
        Map::empty()
    } else {
        coefficients(terms.drop_last()).insert(
            position_at(terms, terms.len() - 1),
            terms.last().2,
        )
    }
}

/// The coefficient of `matrix` at a position; zero where it holds none.
pub open spec fn coefficient(matrix: Map<(nat, nat), nat>, constraint: nat, signal: nat) -> nat {
    if matrix.contains_key((constraint, signal)) {
        matrix[(constraint, signal)]
    } else {
        0
    }
}

/// The sum of `coefficient · witness` over the signals below `bound`, in one
/// row of the matrix, as an integer.
pub open spec fn row_sum(
    matrix: Map<(nat, nat), nat>,
    constraint: nat,
    witness: Seq<nat>,
    bound: nat,
) -> nat
    decreases bound,
{
    if bound == 0 {
        0
    } else {
        row_sum(matrix, constraint, witness, (bound - 1) as nat) + coefficient(
            matrix,
            constraint,
            (bound - 1) as nat,
        ) * witness[bound - 1]
    }
}

/// The product of one row of the matrix with the witness, in the field.
pub open spec fn row_value(matrix: Map<(nat, nat), nat>, constraint: nat, witness: Seq<nat>) -> nat {
    row_sum(matrix, constraint, witness, witness.len()) % field_modulus()
}

/// The product of the first `rows` rows of the matrix with the witness.
pub open spec fn matrix_product(matrix: Map<(nat, nat), nat>, witness: Seq<nat>, rows: nat) -> Seq<
    nat,
> {
    Seq::new(rows, |i: int| row_value(matrix, i as nat, witness))
}

/// A position that the matrix holds in one of the first `rows` rows, whose
/// signal a witness of length `witness_len` does not have.
pub open spec fn out_of_range(
    matrix: Map<(nat, nat), nat>,
    rows: nat,
    witness_len: nat,
    position: (nat, nat),
) -> bool {
    matrix.contains_key(position) && position.0 < rows && position.1 >= witness_len
}

/// Positions in lexicographic order: by constraint, then by signal.
pub open spec fn position_le(p: (nat, nat), q: (nat, nat)) -> bool {
    p.0 < q.0 || (p.0 == q.0 && p.1 <= q.1)
}

/// No two terms of the list share a position.
pub open spec fn distinct_positions(terms: Seq<(nat, nat, nat)>) -> bool {
    forall|j: int, k: int|
        0 <= j < k < terms.len() ==> #[trigger] position_at(terms, j) != #[trigger] position_at(
            terms,
            k,
        )
}

/// The matrix holds exactly the positions that the terms name.
pub proof fn lemma_coefficients_domain(terms: Seq<(nat, nat, nat)>, position: (nat, nat))
    ensures
        coefficients(terms).contains_key(position) <==> exists|k: int|
            0 <= k < terms.len() && #[trigger] position_at(terms, k) == position,
    decreases terms.len(),
{
    if terms.len() > 0 {
        let front = terms.drop_last();
        lemma_coefficients_domain(front, position);
        if coefficients(terms).contains_key(position) {
            if position_at(terms, terms.len() - 1) != position {
                let k = choose|k: int|
                    0 <= k < front.len() && #[trigger] position_at(front, k) == position;
                assert(position_at(terms, k) == position);
            }
        }
        if exists|k: int| 0 <= k < terms.len() && #[trigger] position_at(terms, k) == position {
            let k = choose|k: int|
                0 <= k < terms.len() && #[trigger] position_at(terms, k) == position;
            if k < terms.len() - 1 {
                assert(position_at(front, k) == position);
            }
        }
    }
}

/// Where no two terms share a position, the matrix holds each term's value at
/// its position.
pub proof fn lemma_coefficients_of_distinct(terms: Seq<(nat, nat, nat)>, k: int)
    requires
        distinct_positions(terms),
        0 <= k < terms.len(),
    ensures
        coefficients(terms).contains_key(position_at(terms, k)),
        coefficients(terms)[position_at(terms, k)] == terms[k].2,
    decreases terms.len(),
{
    let last = terms.len() - 1;
    if k < last {
        let front = terms.drop_last();
        assert forall|i: int, j: int| 0 <= i < j < front.len() implies #[trigger] position_at(
            front,
            i,
        ) != #[trigger] position_at(front, j) by {
            assert(position_at(terms, i) != position_at(terms, j));
        }
        lemma_coefficients_of_distinct(front, k);
    }
}

/// The list with its first `k + 1` terms describes the matrix of its first
/// `k` terms with the `k`-th term written into it.
pub proof fn lemma_coefficients_step(terms: Seq<(nat, nat, nat)>, k: int)
    requires
        0 <= k < terms.len(),
    ensures
        coefficients(terms.take(k + 1)) == coefficients(terms.take(k)).insert(
            position_at(terms, k),
            terms[k].2,
        ),
{
    assert(terms.take(k + 1).drop_last() =~= terms.take(k));
}

/// Writing a coefficient at a position that the matrix does not hold adds one
/// product to the sum of that position's row, and changes no other row.
pub proof fn lemma_row_sum_insert(
    matrix: Map<(nat, nat), nat>,
    position: (nat, nat),
    value: nat,
    constraint: nat,
    witness: Seq<nat>,
    bound: nat,
)
    requires
        !matrix.contains_key(position),
    ensures
        row_sum(matrix.insert(position, value), constraint, witness, bound) == row_sum(
            matrix,
            constraint,
            witness,
            bound,
        ) + if constraint == position.0 && position.1 < bound {
            value * witness[position.1 as int]
        } else {
            0
        },
    decreases bound,
{
    if bound > 0 {
        lemma_row_sum_insert(matrix, position, value, constraint, witness, (bound - 1) as nat);
        let signal = (bound - 1) as nat;
        let wider = matrix.insert(position, value);
        if (constraint, signal) == position {
            assert(0 * witness[signal as int] == 0);
        } else {
            assert(coefficient(wider, constraint, signal) == coefficient(
                matrix,
                constraint,
                signal,
            ));
        }
    }
}

/// A row in which the matrix holds no position sums to zero.
pub proof fn lemma_row_sum_of_empty_row(
    matrix: Map<(nat, nat), nat>,
    constraint: nat,
    witness: Seq<nat>,
    bound: nat,
)
    requires
        forall|signal: nat| !matrix.contains_key((constraint, signal)),
    ensures
        row_sum(matrix, constraint, witness, bound) == 0,
    decreases bound,
{
    if bound > 0 {
        lemma_row_sum_of_empty_row(matrix, constraint, witness, (bound - 1) as nat);
        assert(0 * witness[bound - 1] == 0);
    }
}

/// A constraint that no term names has the value zero in the product with
/// any witness: absent coefficients count as zero.
pub proof fn lemma_row_without_terms(
    terms: Seq<(nat, nat, nat)>,
    constraint: nat,
    witness: Seq<nat>,
)
    requires
        forall|k: int| 0 <= k < terms.len() ==> (#[trigger] position_at(terms, k)).0 != constraint,
    ensures
        row_value(coefficients(terms), constraint, witness) == 0,
{
    assert forall|signal: nat| !coefficients(terms).contains_key((constraint, signal)) by {
        lemma_coefficients_domain(terms, (constraint, signal));
    }
    lemma_row_sum_of_empty_row(coefficients(terms), constraint, witness, witness.len());
    lemma_small_mod(0, field_modulus());
}

/// Reduction modulo a positive `m` can be moved ahead of an addition.
proof fn lemma_accumulate_modulo(sum: nat, product: nat, m: nat)
    requires
        m > 0,
    ensures
        ((sum % m) + (product % m)) % m == (sum + product) % m,
{
    lemma_add_mod_noop(sum as int, product as int, m as int);
}

/// Overwriting the value of the `k`-th of terms with distinct positions
/// overwrites the coefficient at its position, and nothing else.
proof fn lemma_coefficients_overwrite(terms: Seq<(nat, nat, nat)>, k: int, value: nat)
    requires
        distinct_positions(terms),
        0 <= k < terms.len(),
    ensures
        distinct_positions(terms.update(k, (terms[k].0, terms[k].1, value))),
        coefficients(terms.update(k, (terms[k].0, terms[k].1, value))) == coefficients(
            terms,
        ).insert(position_at(terms, k), value),
{
    let updated = terms.update(k, (terms[k].0, terms[k].1, value));
    let target = coefficients(terms).insert(position_at(terms, k), value);
    assert forall|j: int| 0 <= j < terms.len() implies #[trigger] position_at(updated, j)
        == position_at(terms, j) by {}
    lemma_coefficients_of_distinct(terms, k);
    assert forall|p: (nat, nat)| coefficients(updated).contains_key(p) <==> target.contains_key(
        p,
    ) by {
        lemma_coefficients_domain(updated, p);
        lemma_coefficients_domain(terms, p);
        if coefficients(terms).contains_key(p) {
            let j = choose|j: int| 0 <= j < terms.len() && #[trigger] position_at(terms, j) == p;
            assert(position_at(updated, j) == p);
        }
    }
    assert forall|p: (nat, nat)| coefficients(updated).contains_key(p) implies coefficients(
        updated,
    )[p] == target[p] by {
        lemma_coefficients_domain(updated, p);
        let j = choose|j: int| 0 <= j < updated.len() && #[trigger] position_at(updated, j) == p;
        lemma_coefficients_of_distinct(updated, j);
        lemma_coefficients_of_distinct(terms, j);
    }
}

/// A position packed into one integer, the constraint in the high half.
spec fn position_key(constraint: usize, signal: usize) -> u128 {
    (constraint as int * 0x1_0000_0000_0000_0000 + signal as int) as u128
}

/// The packed position of the `j`-th entry.
spec fn key_at(entries: Seq<SparseEntry>, j: int) -> u128 {
    position_key(entries[j].constraint, entries[j].signal)
}

/// Different positions pack into different integers.
proof fn lemma_position_key_injective(c1: usize, s1: usize, c2: usize, s2: usize)
    ensures
        position_key(c1, s1) == position_key(c2, s2) ==> c1 == c2 && s1 == s2,
{
}

fn pack_position(constraint: usize, signal: usize) -> (key: u128)
    ensures
        key == position_key(constraint, signal),
{
    (constraint as u128) * 0x1_0000_0000_0000_0000u128 + (signal as u128)
}

/// A matrix stored with one entry for each position it holds.
#[derive(Debug)]
pub struct SparseMatrix {
    entries: Vec<SparseEntry>,
}

impl View for SparseMatrix {
    type V = Map<(nat, nat), nat>;

    closed spec fn view(&self) -> Map<(nat, nat), nat> {
        coefficients(entry_terms(self.entries@))
    }
}

impl SparseMatrix {
    #[verifier::type_invariant]
    spec fn one_entry_per_position(&self) -> bool {
        distinct_positions(entry_terms(self.entries@))
    }

    /// Builds the matrix that `raw` describes.  Where `raw` names a position
    /// more than once, the last of those entries gives the coefficient.
    pub fn from_entries(raw: &Vec<SparseEntry>) -> (matrix: SparseMatrix)
        ensures
            matrix@ == coefficients(entry_terms(raw@)),
    {
        let mut entries: Vec<SparseEntry> = Vec::new();
        let mut index: HashMap<u128, usize> = HashMap::new();
        let ghost raw_terms = entry_terms(raw@);
        let mut k: usize = 0;
        while k < raw.len()
            invariant
                k <= raw.len(),
                raw_terms == entry_terms(raw@),
                distinct_positions(entry_terms(entries@)),
                coefficients(entry_terms(entries@)) == coefficients(raw_terms.take(k as int)),
                forall|j: int|
                    0 <= j < entries.len() ==> index@.contains_key(#[trigger] key_at(entries@, j))
                        && index@[key_at(entries@, j)] == j,
                forall|key: u128| #[trigger]
                    index@.contains_key(key) ==> index@[key] < entries.len() && key_at(
                        entries@,
                        index@[key] as int,
                    ) == key,
            decreases raw.len() - k,
        {
            let entry = raw[k];
            let key = pack_position(entry.constraint, entry.signal);
            let found: Option<usize> = match index.get(&key) {
                Some(at) => Some(*at),
                None => None,
            };
            let ghost before = entries@;
            let ghost terms = entry_terms(before);
            proof {
                lemma_coefficients_step(raw_terms, k as int);
            }
            match found {
                Some(at) => {
                    proof {
                        lemma_position_key_injective(
                            before[at as int].constraint,
                            before[at as int].signal,
                            entry.constraint,
                            entry.signal,
                        );
                        lemma_coefficients_overwrite(terms, at as int, entry.value@);
                    }
                    entries.set(at, entry);
                    proof {
                        assert(entry_terms(entries@) =~= terms.update(at as int, entry.term()));
                        assert forall|j: int| 0 <= j < entries.len() implies #[trigger] key_at(
                            entries@,
                            j,
                        ) == key_at(before, j) by {}
                    }
                },
                None => {
                    index.insert(key, entries.len());
                    entries.push(entry);
                    proof {
                        let longer = entry_terms(entries@);
                        assert(longer.drop_last() =~= terms);
                        assert forall|i: int, j: int| 0 <= i < j < longer.len() implies
                            #[trigger] position_at(longer, i) != #[trigger] position_at(
                            longer,
                            j,
                        ) by {
                            if j < terms.len() {
                                assert(position_at(terms, i) != position_at(terms, j));
                            } else {
                                assert(key_at(before, i) != key);
                            }
                        }
                        assert forall|j: int| 0 <= j < entries.len() implies index@.contains_key(
                            #[trigger] key_at(entries@, j),
                        ) && index@[key_at(entries@, j)] == j by {
                            if j < before.len() {
                                assert(key_at(entries@, j) == key_at(before, j));
                            }
                        }
                    }
                },
            }
            k += 1;
        }
        assert(raw_terms.take(k as int) =~= raw_terms);
        SparseMatrix { entries }
    }

    /// The signals and coefficients that the matrix holds in one row, each
    /// signal once.
    pub fn row(&self, constraint: usize) -> (pairs: Vec<(usize, FieldElement)>)
        ensures
            forall|j: int|
                0 <= j < pairs.len() ==> self@.contains_key(
                    (constraint as nat, (#[trigger] pairs@[j]).0 as nat),
                ) && self@[(constraint as nat, pairs@[j].0 as nat)] == pairs@[j].1@,
            forall|signal: nat| #[trigger]
                self@.contains_key((constraint as nat, signal)) ==> exists|j: int|
                    0 <= j < pairs.len() && (#[trigger] pairs@[j]).0 == signal,
            forall|i: int, j: int|
                0 <= i < j < pairs.len() ==> (#[trigger] pairs@[i]).0 != (#[trigger] pairs@[j]).0,
    {
        proof {
            use_type_invariant(self);
        }
        let ghost terms = entry_terms(self.entries@);
        let ghost mut origin: Seq<int> = Seq::empty();
        let mut pairs: Vec<(usize, FieldElement)> = Vec::new();
        let mut k: usize = 0;
        while k < self.entries.len()
            invariant
                k <= self.entries.len(),
                terms == entry_terms(self.entries@),
                distinct_positions(terms),
                origin.len() == pairs.len(),
                forall|i: int, j: int|
                    0 <= i < j < origin.len() ==> #[trigger] origin[i] < #[trigger] origin[j],
                forall|j: int|
                    0 <= j < pairs.len() ==> 0 <= #[trigger] origin[j] < k && terms[origin[j]] == (
                        constraint as nat,
                        pairs@[j].0 as nat,
                        pairs@[j].1@,
                    ),
                forall|e: int|
                    0 <= e < k && (#[trigger] position_at(terms, e)).0 == constraint
                        ==> exists|j: int| 0 <= j < pairs.len() && #[trigger] origin[j] == e,
            decreases self.entries.len() - k,
        {
            let entry = self.entries[k];
            if entry.constraint == constraint {
                pairs.push((entry.signal, entry.value));
                proof {
                    let ghost before = origin;
                    origin = origin.push(k as int);
                    assert forall|e: int|
                        0 <= e < k + 1 && (#[trigger] position_at(terms, e)).0
                            == constraint implies exists|j: int|
                        0 <= j < pairs.len() && #[trigger] origin[j] == e by {
                        if e < k {
                            let j = choose|j: int| 0 <= j < before.len() && #[trigger] before[j] == e;
                            assert(origin[j] == e);
                        } else {
                            assert(origin[before.len() as int] == e);
                        }
                    }
                }
            }
            k += 1;
        }
        proof {
            assert forall|j: int| 0 <= j < pairs.len() implies self@.contains_key(
                (constraint as nat, (#[trigger] pairs@[j]).0 as nat),
            ) && self@[(constraint as nat, pairs@[j].0 as nat)] == pairs@[j].1@ by {
                lemma_coefficients_of_distinct(terms, origin[j]);
            }
            assert forall|signal: nat| #[trigger]
                self@.contains_key((constraint as nat, signal)) implies exists|j: int|
                0 <= j < pairs.len() && (#[trigger] pairs@[j]).0 == signal by {
                lemma_coefficients_domain(terms, (constraint as nat, signal));
                let e = choose|e: int|
                    0 <= e < terms.len() && #[trigger] position_at(terms, e) == (
                        constraint as nat,
                        signal,
                    );
                let j = choose|j: int| 0 <= j < pairs.len() && #[trigger] origin[j] == e;
                assert(pairs@[j].0 == signal);
            }
            assert forall|i: int, j: int| 0 <= i < j < pairs.len() implies (#[trigger] pairs@[i]).0
                != (#[trigger] pairs@[j]).0 by {
                assert(position_at(terms, origin[i]) != position_at(terms, origin[j]));
            }
        }
        pairs
    }

    /// The least position, by constraint and then by signal, that the matrix
    /// holds in one of its first `rows` rows and whose signal is not below
    /// `witness_len`; `None` when there is no such position.
    pub fn first_out_of_range(&self, rows: usize, witness_len: usize) -> (r: Option<
        (usize, usize),
    >)
        ensures
            match r {
                Some((constraint, signal)) => {
                    &&& out_of_range(
                        self@,
                        rows as nat,
                        witness_len as nat,
                        (constraint as nat, signal as nat),
                    )
                    &&& forall|q: (nat, nat)| #[trigger]
                        out_of_range(self@, rows as nat, witness_len as nat, q) ==> position_le(
                            (constraint as nat, signal as nat),
                            q,
                        )
                },
                None => forall|q: (nat, nat)|
                    !#[trigger] out_of_range(self@, rows as nat, witness_len as nat, q),
            },
    {
        proof {
            use_type_invariant(self);
        }
        let ghost terms = entry_terms(self.entries@);
        let mut least: Option<(usize, usize)> = None;
        let mut k: usize = 0;
        while k < self.entries.len()
            invariant
                k <= self.entries.len(),
                terms == entry_terms(self.entries@),
                match least {
                    Some((constraint, signal)) => {
                        &&& constraint < rows
                        &&& signal >= witness_len
                        &&& exists|j: int|
                            0 <= j < k && #[trigger] position_at(terms, j) == (
                                constraint as nat,
                                signal as nat,
                            )
                        &&& forall|j: int|
                            0 <= j < k && (#[trigger] position_at(terms, j)).0 < rows
                                && position_at(terms, j).1 >= witness_len ==> position_le(
                                (constraint as nat, signal as nat),
                                position_at(terms, j),
                            )
                    },
                    None => forall|j: int|
                        0 <= j < k ==> !((#[trigger] position_at(terms, j)).0 < rows
                            && position_at(terms, j).1 >= witness_len),
                },
            decreases self.entries.len() - k,
        {
            let entry = self.entries[k];
            assert(position_at(terms, k as int) == (entry.constraint as nat, entry.signal as nat));
            if entry.constraint < rows && entry.signal >= witness_len {
                let better = match least {
                    Some((constraint, signal)) => entry.constraint < constraint || (
                    entry.constraint == constraint && entry.signal < signal),
                    None => true,
                };
                if better {
                    least = Some((entry.constraint, entry.signal));
                }
            }
            k += 1;
        }
        proof {
            assert forall|q: (nat, nat)| #[trigger]
                out_of_range(self@, rows as nat, witness_len as nat, q) implies match least {
                Some((constraint, signal)) => position_le((constraint as nat, signal as nat), q),
                None => false,
            } by {
                lemma_coefficients_domain(terms, q);
            }
            match least {
                Some((constraint, signal)) => {
                    lemma_coefficients_domain(terms, (constraint as nat, signal as nat));
                },
                None => {},
            }
        }
        least
    }

    /// Multiplies the first `rows` rows of the matrix with the witness, in the
    /// field.  Every signal that those rows name must be one of the witness.
    pub fn product(&self, witness: &Vec<FieldElement>, rows: usize) -> (out: Vec<FieldElement>)
        requires
            forall|q: (nat, nat)|
                !#[trigger] out_of_range(self@, rows as nat, witness.len() as nat, q),
        ensures
            field_values(out@) == matrix_product(self@, field_values(witness@), rows as nat),
    {
        proof {
            use_type_invariant(self);
        }
        let ghost terms = entry_terms(self.entries@);
        let ghost values = field_values(witness@);
        let mut out: Vec<FieldElement> = Vec::new();
        let mut i: usize = 0;
        while i < rows
            invariant
                i <= rows,
                out.len() == i,
                forall|r: int| 0 <= r < i ==> (#[trigger] out@[r])@ == 0,
            decreases rows - i,
        {
            out.push(FieldElement::zero());
            i += 1;
        }
        assert forall|r: int| 0 <= r < rows implies (#[trigger] out@[r])@ == row_value(
            coefficients(terms.take(0)),
            r as nat,
            values,
        ) by {
            lemma_row_sum_of_empty_row(coefficients(terms.take(0)), r as nat, values, values.len());
            lemma_small_mod(0, field_modulus());
        }
        let mut k: usize = 0;
        while k < self.entries.len()
            invariant
                k <= self.entries.len(),
                out.len() == rows,
                terms == entry_terms(self.entries@),
                values == field_values(witness@),
                distinct_positions(terms),
                self@ == coefficients(terms),
                forall|q: (nat, nat)|
                    !#[trigger] out_of_range(self@, rows as nat, witness.len() as nat, q),
                forall|r: int|
                    0 <= r < rows ==> (#[trigger] out@[r])@ == row_value(
                        coefficients(terms.take(k as int)),
                        r as nat,
                        values,
                    ),
            decreases self.entries.len() - k,
        {
            let entry = self.entries[k];
            let ghost position = position_at(terms, k as int);
            let ghost narrow = coefficients(terms.take(k as int));
            proof {
                lemma_coefficients_step(terms, k as int);
                lemma_coefficients_domain(terms, position);
                lemma_coefficients_domain(terms.take(k as int), position);
                if narrow.contains_key(position) {
                    let j = choose|j: int|
                        0 <= j < k && #[trigger] position_at(terms.take(k as int), j) == position;
                    assert(position_at(terms, j) == position);
                }
                assert(!out_of_range(self@, rows as nat, witness.len() as nat, position));
            }
            if entry.constraint < rows {
                let term = mul_mod(entry.value, witness[entry.signal]);
                let sum = add_mod(out[entry.constraint], term);
                out.set(entry.constraint, sum);
                proof {
                    lemma_accumulate_modulo(
                        row_sum(narrow, position.0, values, values.len()),
                        entry.value@ * values[position.1 as int],
                        field_modulus(),
                    );
                }
            }
            proof {
                assert forall|r: int| 0 <= r < rows implies (#[trigger] out@[r])@ == row_value(
                    coefficients(terms.take(k + 1)),
                    r as nat,
                    values,
                ) by {
                    lemma_row_sum_insert(
                        narrow,
                        position,
                        entry.value@,
                        r as nat,
                        values,
                        values.len(),
                    );
                }
            }
            k += 1;
        }
        assert(terms.take(k as int) =~= terms);
        out
    }
}

} // verus!
