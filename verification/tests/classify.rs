use csv_transformer::classify::{classify_decode_error, classify_engine_error, find_sub};
use csv_transformer::errors::CsvTransformerError;

#[test]
fn find_sub_returns_first_occurrence() {
    assert_eq!(find_sub("abcabc", "bc", 0), Some(1));
    assert_eq!(find_sub("abcabc", "bc", 2), Some(4));
    assert_eq!(find_sub("abcabc", "cb", 0), None);
    assert_eq!(find_sub("abc", "", 1), Some(1));
    assert_eq!(find_sub("", "a", 0), None);
}

#[test]
fn column_not_found_text_is_rewritten() {
    let msg = "ColumnNotFound(ErrString(\"credit_limit\\nhint: try renaming\"))";
    match classify_engine_error(msg) {
        CsvTransformerError::ColunasFaltando(names) => {
            assert_eq!(names, vec!["credit_limit".to_string()]);
        }
        other => panic!("expected missing columns, got {:?}", other),
    }
}

#[test]
fn unparsable_column_not_found_gets_placeholder() {
    let msg = "ColumnNotFound: something unexpected";
    match classify_engine_error(msg) {
        CsvTransformerError::ColunasFaltando(names) => {
            assert_eq!(names, vec!["coluna nao identificada".to_string()]);
        }
        other => panic!("expected missing columns, got {:?}", other),
    }
}

#[test]
fn other_engine_failures_pass_through() {
    let msg = "ComputeError: malformed file";
    match classify_engine_error(msg) {
        CsvTransformerError::PolarsError(m) => assert_eq!(m, msg),
        other => panic!("expected an engine failure, got {:?}", other),
    }
}

#[test]
fn null_decode_failure_is_rewritten() {
    let e = classify_decode_error("invalid type: null, expected i64 at line 1");
    match e {
        CsvTransformerError::ErroLeituraArquivo(m) => {
            assert!(m.contains("valor vazio/nulo"));
            assert!(m.contains("OnInvalid::Nullify"));
        }
        other => panic!("expected a read failure, got {:?}", other),
    }
}

#[test]
fn string_decode_failure_is_rewritten() {
    let e = classify_decode_error("invalid type: string, expected f64 at line 2");
    match e {
        CsvTransformerError::ErroLeituraArquivo(m) => {
            assert!(m.contains("deveria ser numerica"));
        }
        other => panic!("expected a read failure, got {:?}", other),
    }
}

#[test]
fn unknown_decode_failure_keeps_detail() {
    let e = classify_decode_error("missing field `id`");
    match e {
        CsvTransformerError::ErroLeituraArquivo(m) => {
            assert_eq!(m, "Erro ao processar dados: missing field `id`");
        }
        other => panic!("expected a read failure, got {:?}", other),
    }
}
