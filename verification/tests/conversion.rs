use wrencher::deserialize::{is_witness_file_name, parse_witness_file};
use wrencher::field::FieldElement;
use wrencher::models::{LinearCombination, Matrix, R1CSFile, SnarkJsWitnessFile};
use wrencher::r1cs::{
    evaluate_prepared, parse_matrix, parse_witness, BatchViolation, ConstraintSystem,
    EvaluationError, ParseError, ShapeError, ValueSource, WitnessBoundConstraints,
};
use wrencher::serialize::{
    convert_r1cs_witnesses_to_serialize_format, evaluate_witnesses, normalize,
    process_constraint, Constraints, ConversionError,
};
use wrencher::sparse::{SparseEntry, SparseMatrix};

fn fe(v: u64) -> FieldElement {
    FieldElement::from_u64(v)
}

fn entry(constraint: usize, signal: usize, value: &str) -> Matrix {
    Matrix { constraint, signal, value: value.to_string() }
}

fn sparse(constraint: usize, signal: usize, value: u64) -> SparseEntry {
    SparseEntry { constraint, signal, value: fe(value) }
}

fn combination(pairs: &[(&str, &str)]) -> LinearCombination {
    pairs.iter().map(|(s, v)| (s.to_string(), v.to_string())).collect()
}

fn witness(values: &[&str]) -> SnarkJsWitnessFile {
    values.iter().map(|v| v.to_string()).collect()
}

fn product_file() -> R1CSFile {
    R1CSFile {
        n8: 32,
        prime: "21888242871839275222246405745257275088548364400416034343698204186575808495617"
            .to_string(),
        num_variables: 4,
        num_outputs: 1,
        num_pub_inputs: 1,
        num_prv_inputs: 1,
        num_labels: 4,
        num_constraints: 1,
        use_custom_gates: Some(false),
        constraints: vec![vec![
            combination(&[("1", "1")]),
            combination(&[("2", "1")]),
            combination(&[("3", "1")]),
        ]],
        map: vec![0, 1, 2, 3],
    }
}

#[test]
fn combination_becomes_entries_in_order() {
    let mut matrix = vec![entry(0, 0, "9")];
    process_constraint(&mut matrix, &combination(&[("2", "5"), ("0", "7"), ("+3", "x")]), 4);
    assert_eq!(
        matrix,
        vec![entry(0, 0, "9"), entry(4, 2, "5"), entry(4, 0, "7"), entry(4, 3, "x")]
    );
}

#[test]
fn unreadable_signal_counts_as_signal_zero() {
    let mut matrix = Vec::new();
    process_constraint(
        &mut matrix,
        &combination(&[("abc", "5"), ("", "6"), ("-1", "7"), ("99999999999999999999999", "8")]),
        1,
    );
    assert_eq!(
        matrix,
        vec![entry(1, 0, "5"), entry(1, 0, "6"), entry(1, 0, "7"), entry(1, 0, "8")]
    );
}

#[test]
fn empty_combination_adds_nothing() {
    let mut matrix = vec![entry(1, 2, "3")];
    process_constraint(&mut matrix, &combination(&[]), 0);
    assert_eq!(matrix, vec![entry(1, 2, "3")]);
}

#[test]
fn normal_form_takes_the_first_three_parts() {
    let mut file = product_file();
    file.num_constraints = 7;
    file.constraints = vec![
        vec![
            combination(&[("1", "1"), ("2", "2")]),
            combination(&[("2", "1")]),
            combination(&[("3", "1")]),
            combination(&[("5", "5")]),
        ],
        vec![combination(&[]), combination(&[("0", "4")]), combination(&[("1", "6"), ("1", "8")])],
    ];
    let constraints = normalize(&file);
    assert_eq!(
        constraints,
        Constraints {
            num_public: 2,
            num_variables: 4,
            num_constraints: 7,
            a: vec![entry(0, 1, "1"), entry(0, 2, "2")],
            b: vec![entry(0, 2, "1"), entry(1, 0, "4")],
            c: vec![entry(0, 3, "1"), entry(1, 1, "6"), entry(1, 1, "8")],
        }
    );
}

#[test]
fn conversion_of_satisfying_witnesses() {
    let witnesses = vec![witness(&["1", "3", "5", "15"]), witness(&["1", "4", "6", "24"])];
    let serialized =
        convert_r1cs_witnesses_to_serialize_format(&product_file(), witnesses.clone()).unwrap();
    assert_eq!(
        serialized.constraints,
        Constraints {
            num_public: 2,
            num_variables: 4,
            num_constraints: 1,
            a: vec![entry(0, 1, "1")],
            b: vec![entry(0, 2, "1")],
            c: vec![entry(0, 3, "1")],
        }
    );
    assert_eq!(serialized.witnesses, witnesses);
    assert_eq!(
        serialized.constrained_witnesses,
        vec![
            WitnessBoundConstraints { az: vec![fe(3)], bz: vec![fe(5)], cz: vec![fe(15)] },
            WitnessBoundConstraints { az: vec![fe(4)], bz: vec![fe(6)], cz: vec![fe(24)] },
        ]
    );
}

#[test]
fn conversion_without_witnesses() {
    let mut file = product_file();
    file.constraints[0][0] = combination(&[("1", "not a number")]);
    let serialized = convert_r1cs_witnesses_to_serialize_format(&file, Vec::new()).unwrap();
    assert_eq!(serialized.constraints.a, vec![entry(0, 1, "not a number")]);
    assert!(serialized.witnesses.is_empty());
    assert!(serialized.constrained_witnesses.is_empty());
}

#[test]
fn conversion_reports_a_violation() {
    let witnesses = vec![
        witness(&["1", "3", "5", "15"]),
        witness(&["1", "4", "6", "23"]),
        witness(&["1", "1", "1", "2"]),
    ];
    let r = convert_r1cs_witnesses_to_serialize_format(&product_file(), witnesses);
    assert_eq!(
        r,
        Err(ConversionError::Unsatisfied {
            violation: BatchViolation { witness: 1, constraint: 0, lhs: fe(24), rhs: fe(23) },
            constrained_witnesses: vec![
                WitnessBoundConstraints { az: vec![fe(3)], bz: vec![fe(5)], cz: vec![fe(15)] },
                WitnessBoundConstraints { az: vec![fe(4)], bz: vec![fe(6)], cz: vec![fe(23)] },
                WitnessBoundConstraints { az: vec![fe(1)], bz: vec![fe(1)], cz: vec![fe(2)] },
            ],
        })
    );
}

#[test]
fn conversion_reports_a_witness_that_cannot_be_evaluated() {
    let witnesses = vec![
        witness(&["1", "4", "6", "23"]),
        witness(&["1", "4", "6"]),
        witness(&["1", "4", "six", "24"]),
    ];
    let r = convert_r1cs_witnesses_to_serialize_format(&product_file(), witnesses);
    assert_eq!(
        r,
        Err(ConversionError::Evaluation {
            witness: 1,
            error: EvaluationError::Shape(ShapeError { constraint: 0, signal: 3 }),
        })
    );
    let witnesses = vec![witness(&["1", "4", "six", "24"]), witness(&["1", "4", "6"])];
    let r = convert_r1cs_witnesses_to_serialize_format(&product_file(), witnesses);
    assert_eq!(
        r,
        Err(ConversionError::Evaluation {
            witness: 0,
            error: EvaluationError::Parse(ParseError { source: ValueSource::Witness, index: 2 }),
        })
    );
}

#[test]
fn evaluation_of_a_batch() {
    let constraints = normalize(&product_file());
    let witnesses = vec![witness(&["1", "3", "5", "15"]), witness(&["1", "0", "0", "1"])];
    assert_eq!(
        evaluate_witnesses(&constraints, &witnesses),
        Ok(vec![
            WitnessBoundConstraints { az: vec![fe(3)], bz: vec![fe(5)], cz: vec![fe(15)] },
            WitnessBoundConstraints { az: vec![fe(0)], bz: vec![fe(0)], cz: vec![fe(1)] },
        ])
    );
    let mut broken = constraints.clone();
    broken.c = vec![entry(0, 3, "1"), entry(9, 9, "?")];
    assert_eq!(
        evaluate_witnesses(&broken, &witnesses),
        Err((0, EvaluationError::Parse(ParseError { source: ValueSource::MatrixC, index: 1 })))
    );
    assert_eq!(evaluate_witnesses(&broken, &Vec::new()), Ok(Vec::new()));
}

#[test]
fn prepared_system_is_shared() {
    let constraints = normalize(&product_file());
    let prepared = ConstraintSystem::from_constraints(&constraints);
    assert_eq!(
        evaluate_prepared(&constraints, &prepared, &witness(&["1", "3", "5", "15"])),
        Ok(WitnessBoundConstraints { az: vec![fe(3)], bz: vec![fe(5)], cz: vec![fe(15)] })
    );
    assert_eq!(
        evaluate_prepared(&constraints, &prepared, &witness(&["2", "7", "5", "1"])),
        Ok(WitnessBoundConstraints { az: vec![fe(7)], bz: vec![fe(5)], cz: vec![fe(1)] })
    );
    let system = prepared.unwrap();
    assert_eq!(system.num_public, 2);
    assert_eq!(system.num_variables, 4);
    assert_eq!(system.num_constraints, 1);
    assert_eq!(
        system.evaluate(&vec![fe(1), fe(2)]),
        Err(ShapeError { constraint: 0, signal: 2 })
    );
}

#[test]
fn system_reports_the_first_unreadable_coefficient() {
    let constraints = Constraints {
        num_public: 0,
        num_variables: 0,
        num_constraints: 1,
        a: vec![entry(0, 0, "1")],
        b: vec![entry(0, 0, "1"), entry(0, 1, "b"), entry(0, 2, "c")],
        c: vec![entry(0, 0, "z")],
    };
    assert_eq!(
        ConstraintSystem::from_constraints(&constraints).err(),
        Some(ParseError { source: ValueSource::MatrixB, index: 1 })
    );
}

#[test]
fn values_are_read_in_order() {
    assert_eq!(parse_witness(&witness(&["1", "22", "333"])), Ok(vec![fe(1), fe(22), fe(333)]));
    assert_eq!(parse_witness(&witness(&["1", "", "x"])), Err(1));
    assert_eq!(parse_witness(&witness(&[])), Ok(vec![]));
    assert_eq!(
        parse_matrix(&vec![entry(3, 4, "5"), entry(0, 0, "0")]),
        Ok(vec![sparse(3, 4, 5), sparse(0, 0, 0)])
    );
    assert_eq!(parse_matrix(&vec![entry(3, 4, "5"), entry(0, 0, "0 ")]), Err(1));
}

#[test]
fn matrix_product_with_duplicates() {
    let matrix = SparseMatrix::from_entries(&vec![
        sparse(0, 0, 2),
        sparse(1, 1, 3),
        sparse(0, 0, 5),
        sparse(0, 2, 7),
        sparse(1, 1, 0),
        sparse(4, 9, 1),
    ]);
    let witness = vec![fe(10), fe(100), fe(1000)];
    // row 0: 5 * 10 + 7 * 1000; row 1: 0 * 100; row 2: nothing
    assert_eq!(matrix.product(&witness, 3), vec![fe(7050), fe(0), fe(0)]);
    assert_eq!(matrix.product(&witness, 1), vec![fe(7050)]);
    assert_eq!(matrix.product(&witness, 0), Vec::<FieldElement>::new());
}

#[test]
fn matrix_reports_the_least_position_out_of_range() {
    let matrix = SparseMatrix::from_entries(&vec![
        sparse(2, 5, 1),
        sparse(1, 8, 1),
        sparse(1, 3, 1),
        sparse(1, 4, 0),
        sparse(0, 2, 1),
        sparse(7, 99, 1),
    ]);
    assert_eq!(matrix.first_out_of_range(3, 3), Some((1, 3)));
    assert_eq!(matrix.first_out_of_range(3, 4), Some((1, 4)));
    assert_eq!(matrix.first_out_of_range(3, 5), Some((1, 8)));
    assert_eq!(matrix.first_out_of_range(3, 9), None);
    assert_eq!(matrix.first_out_of_range(1, 2), Some((0, 2)));
    assert_eq!(matrix.first_out_of_range(0, 0), None);
    assert_eq!(matrix.first_out_of_range(8, 9), Some((7, 99)));
}

#[test]
fn empty_matrix() {
    let matrix = SparseMatrix::from_entries(&Vec::new());
    assert_eq!(matrix.first_out_of_range(5, 0), None);
    assert_eq!(matrix.product(&Vec::new(), 2), vec![fe(0), fe(0)]);
}

#[test]
fn witness_file_names() {
    assert!(is_witness_file_name("circuit.wtns.json"));
    assert!(is_witness_file_name(".wtns.json"));
    assert!(is_witness_file_name("späte.wtns.json"));
    assert!(!is_witness_file_name("circuit.json"));
    assert!(!is_witness_file_name("circuit.wtns"));
    assert!(!is_witness_file_name("circuit.wtns.json.bak"));
    assert!(!is_witness_file_name("circuit.WTNS.JSON"));
    assert!(!is_witness_file_name("wtns.json"));
    assert!(!is_witness_file_name(""));
}

#[test]
fn witness_file_is_read() {
    assert_eq!(
        parse_witness_file(r#"["1", "3", "5", "15"]"#),
        Ok(witness(&["1", "3", "5", "15"]))
    );
    assert_eq!(parse_witness_file(" [ ] "), Ok(witness(&[])));
    assert_eq!(parse_witness_file(r#"["a\"b"]"#), Ok(witness(&["a\"b"])));
}

#[test]
fn malformed_witness_file_is_rejected() {
    assert!(parse_witness_file("").is_err());
    assert!(parse_witness_file("[1, 2]").is_err());
    assert!(parse_witness_file(r#"{"a": "1"}"#).is_err());
    assert!(parse_witness_file(r#"["1", "2""#).is_err());
    assert!(!parse_witness_file("[1]").unwrap_err().message.is_empty());
}

#[test]
fn matrix_row_holds_each_signal_once() {
    let matrix = SparseMatrix::from_entries(&vec![
        sparse(0, 0, 2),
        sparse(1, 1, 3),
        sparse(0, 0, 5),
        sparse(0, 2, 7),
        sparse(1, 1, 0),
    ]);
    let mut row = matrix.row(0);
    row.sort_by_key(|pair| pair.0);
    assert_eq!(row, vec![(0, fe(5)), (2, fe(7))]);
    assert_eq!(matrix.row(1), vec![(1, fe(0))]);
    assert_eq!(matrix.row(2), vec![]);
}
