use csv_transformer::cell::CellValue;
use csv_transformer::errors::CsvTransformerError;
use csv_transformer::schema::{ColSpec, ColType, OnInvalid};
use csv_transformer::table::Table;
use csv_transformer::transformer::CsvTransformer;
use csv_transformer::validator::Validator;

fn cell_eq(a: &CellValue, b: &CellValue) -> bool {
    match (a, b) {
        (CellValue::Null, CellValue::Null) => true,
        (CellValue::Bool(x), CellValue::Bool(y)) => x == y,
        (CellValue::Int(x), CellValue::Int(y)) => x == y,
        (CellValue::Float(x), CellValue::Float(y)) => x == y,
        (CellValue::Text(x), CellValue::Text(y)) => x == y,
        _ => false,
    }
}

fn spec(name: &str, dtype: ColType, validators: Vec<Validator>, on_invalid: OnInvalid) -> ColSpec {
    ColSpec { name: name.to_string(), dtype, validators, on_invalid }
}

/// The schema of the scenario tests: id integer mandatory, name text
/// optional, credit_limit float > 0 mandatory.
fn scenario_transformer(credit_policy: OnInvalid) -> CsvTransformer {
    CsvTransformer {
        cols: vec![
            spec("id", ColType::Integer, vec![Validator::NotNull], OnInvalid::Error),
            spec("name", ColType::Text, vec![], OnInvalid::Error),
            spec(
                "credit_limit",
                ColType::Float,
                vec![Validator::NotNull, Validator::NumGreaterThan((0.0f64).to_bits())],
                credit_policy,
            ),
        ],
    }
}

/// The table of the scenario tests: rows (1, "Ana", 500.0),
/// (2, "", -10.0), (3, "Bea", null).
fn scenario_table() -> Table {
    let mut t = Table::new();
    assert!(t.add_column(
        "id".to_string(),
        vec![CellValue::Int(1), CellValue::Int(2), CellValue::Int(3)],
    ));
    assert!(t.add_column(
        "name".to_string(),
        vec![
            CellValue::Text("Ana".to_string()),
            CellValue::Text("".to_string()),
            CellValue::Text("Bea".to_string()),
        ],
    ));
    assert!(t.add_column(
        "credit_limit".to_string(),
        vec![
            CellValue::Float((500.0f64).to_bits()),
            CellValue::Float((-10.0f64).to_bits()),
            CellValue::Null,
        ],
    ));
    t
}

#[test]
fn scenario_ignore_keeps_only_first_row() {
    let tr = scenario_transformer(OnInvalid::Ignore);
    let t = scenario_table();
    let recs = tr.extract(&t).expect("extraction must succeed");
    assert_eq!(recs.len(), 1);
    let row = &recs[0].fields;
    assert_eq!(row.len(), 3);
    assert_eq!(row[0].0, "id");
    assert!(cell_eq(&row[0].1, &CellValue::Int(1)));
    assert_eq!(row[1].0, "name");
    assert!(cell_eq(&row[1].1, &CellValue::Text("Ana".to_string())));
    assert_eq!(row[2].0, "credit_limit");
    assert!(cell_eq(&row[2].1, &CellValue::Float((500.0f64).to_bits())));
}

#[test]
fn scenario_error_cites_the_failing_line() {
    let tr = scenario_transformer(OnInvalid::Error);
    let t = scenario_table();
    // the second data row (index 1) violates `> 0`; with one header
    // line its raw line number is index + 2 = 3
    match tr.extract(&t) {
        Err(CsvTransformerError::ValidacaoLinha { linha, coluna, motivo: _ }) => {
            assert_eq!(linha, 3);
            assert_eq!(coluna, "credit_limit");
        }
        other => panic!("expected a row validation error, got {:?}", other),
    }
}

#[test]
fn empty_table_extracts_to_empty_output() {
    let tr = scenario_transformer(OnInvalid::Error);
    let mut t = Table::new();
    assert!(t.add_column("id".to_string(), vec![]));
    assert!(t.add_column("name".to_string(), vec![]));
    assert!(t.add_column("credit_limit".to_string(), vec![]));
    let recs = tr.extract(&t).expect("an empty table must extract");
    assert_eq!(recs.len(), 0);
}

#[test]
fn missing_columns_reported_before_rows() {
    let tr = scenario_transformer(OnInvalid::Error);
    let mut t = Table::new();
    assert!(t.add_column("id".to_string(), vec![CellValue::Null]));
    match tr.extract(&t) {
        Err(CsvTransformerError::ColunasFaltando(names)) => {
            assert_eq!(names, vec!["name".to_string(), "credit_limit".to_string()]);
        }
        other => panic!("expected missing columns, got {:?}", other),
    }
}

#[test]
fn nullify_keeps_row_with_nulled_cell() {
    let tr = CsvTransformer {
        cols: vec![
            spec("id", ColType::Integer, vec![], OnInvalid::Error),
            spec(
                "score",
                ColType::Float,
                vec![Validator::NumGreaterThan((0.0f64).to_bits())],
                OnInvalid::Nullify,
            ),
        ],
    };
    let mut t = Table::new();
    assert!(t.add_column("id".to_string(), vec![CellValue::Int(7), CellValue::Int(8)]));
    assert!(t.add_column(
        "score".to_string(),
        vec![
            CellValue::Float((-1.5f64).to_bits()),
            CellValue::Float((2.5f64).to_bits()),
        ],
    ));
    let recs = tr.extract(&t).expect("nullify must keep both rows");
    assert_eq!(recs.len(), 2);
    assert!(cell_eq(&recs[0].fields[1].1, &CellValue::Null));
    assert!(cell_eq(&recs[1].fields[1].1, &CellValue::Float((2.5f64).to_bits())));
}

#[test]
fn extract_is_idempotent_without_aborts() {
    let tr = scenario_transformer(OnInvalid::Ignore);
    let t = scenario_table();
    let a = tr.extract(&t).expect("first run");
    let b = tr.extract(&t).expect("second run");
    assert_eq!(a.len(), b.len());
    for (ra, rb) in a.iter().zip(b.iter()) {
        assert_eq!(ra.fields.len(), rb.fields.len());
        for (fa, fb) in ra.fields.iter().zip(rb.fields.iter()) {
            assert_eq!(fa.0, fb.0);
            assert!(cell_eq(&fa.1, &fb.1));
        }
    }
}

#[test]
fn text_parses_into_integer_column() {
    let tr = CsvTransformer {
        cols: vec![spec("id", ColType::Integer, vec![], OnInvalid::Error)],
    };
    let mut t = Table::new();
    assert!(t.add_column(
        "id".to_string(),
        vec![
            CellValue::Text("123".to_string()),
            CellValue::Text("-45".to_string()),
        ],
    ));
    let recs = tr.extract(&t).expect("numeric text must cast");
    assert!(cell_eq(&recs[0].fields[0].1, &CellValue::Int(123)));
    assert!(cell_eq(&recs[1].fields[0].1, &CellValue::Int(-45)));
}

#[test]
fn uncastable_text_under_ignore_drops_row() {
    let tr = CsvTransformer {
        cols: vec![spec("id", ColType::Integer, vec![], OnInvalid::Ignore)],
    };
    let mut t = Table::new();
    assert!(t.add_column(
        "id".to_string(),
        vec![
            CellValue::Text("77".to_string()),
            CellValue::Text("abc".to_string()),
        ],
    ));
    // "abc" fails the cast, becomes null, and the numeric-null check
    // drops its row under the drop policy
    let recs = tr.extract(&t).expect("ignore tolerates bad raw values");
    assert_eq!(recs.len(), 1);
    assert!(cell_eq(&recs[0].fields[0].1, &CellValue::Int(77)));
}

#[test]
fn uncastable_text_under_error_is_engine_failure() {
    let tr = CsvTransformer {
        cols: vec![spec("id", ColType::Integer, vec![], OnInvalid::Error)],
    };
    let mut t = Table::new();
    assert!(t.add_column("id".to_string(), vec![CellValue::Text("abc".to_string())]));
    match tr.extract(&t) {
        Err(CsvTransformerError::PolarsError(msg)) => {
            assert!(msg.contains("id"));
        }
        other => panic!("expected an engine failure, got {:?}", other),
    }
}

#[test]
fn numeric_null_under_error_aborts_citing_row() {
    let tr = CsvTransformer {
        cols: vec![spec("amount", ColType::Float, vec![], OnInvalid::Error)],
    };
    let mut t = Table::new();
    assert!(t.add_column(
        "amount".to_string(),
        vec![CellValue::Float((1.0f64).to_bits()), CellValue::Null],
    ));
    // the null sits in the second data row (index 1): raw line 3
    match tr.extract(&t) {
        Err(CsvTransformerError::ValidacaoLinha { linha, coluna, motivo: _ }) => {
            assert_eq!(linha, 3);
            assert_eq!(coluna, "amount");
        }
        other => panic!("expected a row validation error, got {:?}", other),
    }
}

#[test]
fn non_finite_float_becomes_null_in_record() {
    let tr = CsvTransformer {
        cols: vec![spec("x", ColType::Float, vec![], OnInvalid::Nullify)],
    };
    let mut t = Table::new();
    assert!(t.add_column(
        "x".to_string(),
        vec![
            CellValue::Float(f64::NAN.to_bits()),
            CellValue::Float(f64::INFINITY.to_bits()),
            CellValue::Float((3.25f64).to_bits()),
        ],
    ));
    let recs = tr.extract(&t).expect("nullify accepts everything here");
    assert!(cell_eq(&recs[0].fields[0].1, &CellValue::Null));
    assert!(cell_eq(&recs[1].fields[0].1, &CellValue::Null));
    assert!(cell_eq(&recs[2].fields[0].1, &CellValue::Float((3.25f64).to_bits())));
}

#[test]
fn first_declared_failing_column_is_reported() {
    // both columns reject the row; the first-declared one is cited
    let tr = CsvTransformer {
        cols: vec![
            spec("a", ColType::Integer, vec![Validator::NotNull], OnInvalid::Error),
            spec("b", ColType::Integer, vec![Validator::NotNull], OnInvalid::Error),
        ],
    };
    let mut t = Table::new();
    assert!(t.add_column("a".to_string(), vec![CellValue::Null]));
    assert!(t.add_column("b".to_string(), vec![CellValue::Null]));
    match tr.extract(&t) {
        Err(CsvTransformerError::ValidacaoLinha { linha, coluna, motivo: _ }) => {
            assert_eq!(linha, 2);
            assert_eq!(coluna, "a");
        }
        other => panic!("expected a row validation error, got {:?}", other),
    }
}

#[test]
fn earlier_ignore_column_short_circuits_later_error_column() {
    // the drop-policy column rejects first, so the row is dropped and
    // the later abort-policy column is never evaluated
    let tr = CsvTransformer {
        cols: vec![
            spec("a", ColType::Text, vec![Validator::NotNull], OnInvalid::Ignore),
            spec("b", ColType::Text, vec![Validator::NotNull], OnInvalid::Error),
        ],
    };
    let mut t = Table::new();
    assert!(t.add_column("a".to_string(), vec![CellValue::Null]));
    assert!(t.add_column("b".to_string(), vec![CellValue::Null]));
    let recs = tr.extract(&t).expect("the row is dropped, not aborted");
    assert_eq!(recs.len(), 0);
}

#[test]
fn required_column_names_lists_the_schema() {
    let tr = scenario_transformer(OnInvalid::Error);
    assert_eq!(
        tr.required_column_names(),
        vec!["id".to_string(), "name".to_string(), "credit_limit".to_string()],
    );
}
