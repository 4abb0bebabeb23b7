use csv_transformer::cell::CellValue;
use csv_transformer::errors::CsvTransformerError;
use csv_transformer::schema::{ColSpec, ColType, OnInvalid};
use csv_transformer::table::Table;
use csv_transformer::transformer::CsvTransformer;

fn int_col(on_invalid: OnInvalid) -> CsvTransformer {
    CsvTransformer {
        cols: vec![ColSpec {
            name: "n".to_string(),
            dtype: ColType::Integer,
            validators: vec![],
            on_invalid,
        }],
    }
}

fn one_text_column(cells: Vec<&str>) -> Table {
    let mut t = Table::new();
    assert!(t.add_column(
        "n".to_string(),
        cells.into_iter().map(|s| CellValue::Text(s.to_string())).collect(),
    ));
    t
}

fn extracted_ints(tr: &CsvTransformer, t: &Table) -> Vec<Option<i64>> {
    tr.extract(t)
        .expect("extraction must succeed")
        .iter()
        .map(|r| match r.fields[0].1 {
            CellValue::Int(x) => Some(x),
            CellValue::Null => None,
            ref other => panic!("unexpected cell {:?}", other),
        })
        .collect()
}

#[test]
fn parse_accepts_the_full_i64_range() {
    let tr = int_col(OnInvalid::Error);
    let t = one_text_column(vec!["-9223372036854775808", "9223372036854775807", "0"]);
    assert_eq!(
        extracted_ints(&tr, &t),
        vec![Some(i64::MIN), Some(i64::MAX), Some(0)],
    );
}

#[test]
fn parse_rejects_just_out_of_range() {
    let tr = int_col(OnInvalid::Error);
    for s in ["-9223372036854775809", "9223372036854775808", "99999999999999999999999999"] {
        let t = one_text_column(vec![s]);
        match tr.extract(&t) {
            Err(CsvTransformerError::PolarsError(_)) => {}
            other => panic!("{:?} must fail the cast, got {:?}", s, other),
        }
    }
}

#[test]
fn parse_rejects_malformed_text() {
    let tr = int_col(OnInvalid::Ignore);
    // malformed values become null under the drop policy and the
    // numeric-null check then drops their rows
    let t = one_text_column(vec!["12", "+5", "1.5", "", "-", " 7", "12a"]);
    assert_eq!(extracted_ints(&tr, &t), vec![Some(12)]);
}

#[test]
fn bool_cell_does_not_cast_to_integer() {
    let tr = int_col(OnInvalid::Ignore);
    let mut t = Table::new();
    assert!(t.add_column(
        "n".to_string(),
        vec![CellValue::Bool(true), CellValue::Int(4)],
    ));
    assert_eq!(extracted_ints(&tr, &t), vec![Some(4)]);
}

#[test]
fn integer_cell_is_carried_exactly_in_float_column() {
    let tr = CsvTransformer {
        cols: vec![ColSpec {
            name: "x".to_string(),
            dtype: ColType::Float,
            validators: vec![],
            on_invalid: OnInvalid::Error,
        }],
    };
    let mut t = Table::new();
    assert!(t.add_column("x".to_string(), vec![CellValue::Int(9007199254740993)]));
    let recs = tr.extract(&t).expect("an integer is a number");
    match recs[0].fields[0].1 {
        CellValue::Int(x) => assert_eq!(x, 9007199254740993),
        ref other => panic!("unexpected cell {:?}", other),
    }
}

#[test]
fn null_survives_every_cast() {
    let tr = CsvTransformer {
        cols: vec![ColSpec {
            name: "x".to_string(),
            dtype: ColType::Text,
            validators: vec![],
            on_invalid: OnInvalid::Error,
        }],
    };
    let mut t = Table::new();
    assert!(t.add_column("x".to_string(), vec![CellValue::Null]));
    let recs = tr.extract(&t).expect("null casts to any type");
    assert!(matches!(recs[0].fields[0].1, CellValue::Null));
}
