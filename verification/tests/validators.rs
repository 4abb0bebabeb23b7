use csv_transformer::builder::{ColumnBuilder, CsvTransformerBuilder};
use csv_transformer::cell::CellValue;
use csv_transformer::schema::{ColSpec, ColType, OnInvalid};
use csv_transformer::validator::Validator;

#[test]
fn not_null_fails_only_on_null() {
    let v = Validator::NotNull;
    assert!(!v.ok(&CellValue::Null));
    assert!(v.ok(&CellValue::Int(0)));
    assert!(v.ok(&CellValue::Bool(false)));
    assert!(v.ok(&CellValue::Float((0.0f64).to_bits())));
    assert!(v.ok(&CellValue::Text("".to_string())));
}

#[test]
fn num_greater_than_on_floats() {
    let v = Validator::NumGreaterThan((0.0f64).to_bits());
    assert!(v.ok(&CellValue::Float((500.0f64).to_bits())));
    assert!(!v.ok(&CellValue::Float((-10.0f64).to_bits())));
    // strictly exclusive at the boundary
    assert!(!v.ok(&CellValue::Float((0.0f64).to_bits())));
    assert!(!v.ok(&CellValue::Float((-0.0f64).to_bits())));
    // the smallest positive double is already greater than zero
    assert!(v.ok(&CellValue::Float(1u64)));
}

#[test]
fn num_greater_than_on_integers() {
    let v = Validator::NumGreaterThan((2.5f64).to_bits());
    assert!(v.ok(&CellValue::Int(3)));
    assert!(!v.ok(&CellValue::Int(2)));
    let w = Validator::NumGreaterThan((-3.0f64).to_bits());
    assert!(w.ok(&CellValue::Int(-2)));
    assert!(!w.ok(&CellValue::Int(-3)));
    assert!(!w.ok(&CellValue::Int(-4)));
}

#[test]
fn num_less_than_mirrors_greater_than() {
    let v = Validator::NumLessThan((10.0f64).to_bits());
    assert!(v.ok(&CellValue::Float((9.75f64).to_bits())));
    assert!(!v.ok(&CellValue::Float((10.0f64).to_bits())));
    assert!(!v.ok(&CellValue::Float((11.0f64).to_bits())));
    assert!(v.ok(&CellValue::Int(9)));
    assert!(!v.ok(&CellValue::Int(10)));
}

#[test]
fn numeric_comparisons_against_nan_fail() {
    let gt = Validator::NumGreaterThan(f64::NAN.to_bits());
    let lt = Validator::NumLessThan(f64::NAN.to_bits());
    assert!(!gt.ok(&CellValue::Float((1.0f64).to_bits())));
    assert!(!lt.ok(&CellValue::Float((1.0f64).to_bits())));
    assert!(!gt.ok(&CellValue::Int(1)));
    assert!(!lt.ok(&CellValue::Int(1)));
    // a NaN cell compares as nothing
    let z = Validator::NumGreaterThan((0.0f64).to_bits());
    assert!(!z.ok(&CellValue::Float(f64::NAN.to_bits())));
}

#[test]
fn infinities_order_past_every_finite_value() {
    let below_inf = Validator::NumLessThan(f64::INFINITY.to_bits());
    assert!(below_inf.ok(&CellValue::Float(f64::MAX.to_bits())));
    assert!(below_inf.ok(&CellValue::Int(i64::MAX)));
    let above_neg_inf = Validator::NumGreaterThan(f64::NEG_INFINITY.to_bits());
    assert!(above_neg_inf.ok(&CellValue::Float(f64::MIN.to_bits())));
    assert!(above_neg_inf.ok(&CellValue::Int(i64::MIN)));
}

#[test]
fn integer_comparison_is_exact_beyond_double_precision() {
    // 2^53 + 1 has no double representation; the comparison against
    // 2^53 is still decided exactly
    let t = (9007199254740992.0f64).to_bits();
    let v = Validator::NumGreaterThan(t);
    assert!(v.ok(&CellValue::Int(9007199254740993)));
    assert!(!v.ok(&CellValue::Int(9007199254740992)));
    let w = Validator::NumLessThan(t);
    assert!(w.ok(&CellValue::Int(9007199254740991)));
    assert!(!w.ok(&CellValue::Int(9007199254740992)));
}

#[test]
fn numeric_validators_pass_on_type_mismatch() {
    let v = Validator::NumGreaterThan((100.0f64).to_bits());
    assert!(v.ok(&CellValue::Text("50".to_string())));
    assert!(v.ok(&CellValue::Bool(true)));
    assert!(v.ok(&CellValue::Null));
}

#[test]
fn text_starts_with_checks_prefix() {
    let v = Validator::TextStartsWith("BR-".to_string());
    assert!(v.ok(&CellValue::Text("BR-001".to_string())));
    assert!(v.ok(&CellValue::Text("BR-".to_string())));
    assert!(!v.ok(&CellValue::Text("US-001".to_string())));
    assert!(!v.ok(&CellValue::Text("BR".to_string())));
    // passes on every non-text cell
    assert!(v.ok(&CellValue::Int(1)));
    assert!(v.ok(&CellValue::Null));
}

#[test]
fn validate_ands_all_validators() {
    let spec = ColSpec {
        name: "x".to_string(),
        dtype: ColType::Float,
        validators: vec![
            Validator::NumGreaterThan((0.0f64).to_bits()),
            Validator::NumLessThan((10.0f64).to_bits()),
        ],
        on_invalid: OnInvalid::Error,
    };
    assert!(spec.validate(&CellValue::Float((5.0f64).to_bits())));
    assert!(!spec.validate(&CellValue::Float((-5.0f64).to_bits())));
    assert!(!spec.validate(&CellValue::Float((15.0f64).to_bits())));
    // reversing the list accepts exactly the same cells
    let reversed = ColSpec {
        name: "x".to_string(),
        dtype: ColType::Float,
        validators: vec![
            Validator::NumLessThan((10.0f64).to_bits()),
            Validator::NumGreaterThan((0.0f64).to_bits()),
        ],
        on_invalid: OnInvalid::Error,
    };
    for c in [-5.0f64, 0.0, 5.0, 10.0, 15.0] {
        let cell = CellValue::Float(c.to_bits());
        assert_eq!(spec.validate(&cell), reversed.validate(&cell));
    }
}

#[test]
fn builder_assembles_the_data_model() {
    let col = ColumnBuilder::new("credit_limit".to_string(), ColType::Float)
        .with_validator(Validator::NotNull)
        .with_validator(Validator::NumGreaterThan((0.0f64).to_bits()))
        .ignore_invalid_type();
    assert_eq!(col.name, "credit_limit");
    assert!(matches!(col.on_invalid, OnInvalid::Ignore));
    assert_eq!(col.validators.len(), 2);
    let tr = CsvTransformerBuilder::new()
        .add_column(col)
        .add_column(ColumnBuilder::new("name".to_string(), ColType::Text).nullify_invalid())
        .build();
    assert_eq!(tr.cols.len(), 2);
    assert_eq!(tr.cols[0].name, "credit_limit");
    assert!(matches!(tr.cols[1].on_invalid, OnInvalid::Nullify));
}
