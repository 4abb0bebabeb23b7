//! Classification of failure text into the error taxonomy.
//!
//! The engine reports some failures only as text: a "column not found"
//! failure raised inside a cast expression is recognized by its shape
//! and rewritten into the same missing-columns error that the proactive
//! check produces, so callers see one error shape regardless of which
//! phase detected the absence. Decode failures are likewise matched
//! against two known shapes and rewritten into actionable messages.

use vstd::prelude::*;
use crate::errors::{CsvTransformerError, ErrV};

verus! {

/// Whether `n` occurs in `h` starting exactly at `i`.
pub open spec fn matches_at(h: Seq<char>, n: Seq<char>, i: int) -> bool {
    0 <= i && i + n.len() <= h.len() && h.subrange(i, i + n.len()) == n
}

/// The first occurrence of `n` in `h` at or after `i`.
pub open spec fn spec_find(h: Seq<char>, n: Seq<char>, i: int) -> Option<int>
    decreases h.len() - i + 1,
{
    if i < 0 || i + n.len() > h.len() {
        None
    } else if matches_at(h, n, i) {
        Some(i)
    } else {
        spec_find(h, n, i + 1)
    }
}

/// Whether `n` occurs anywhere in `h`.
pub open spec fn spec_contains_sub(h: Seq<char>, n: Seq<char>) -> bool {
    spec_find(h, n, 0) is Some
}

/// Whether `n` occurs in `h` starting exactly at `i`.
fn matches_at_exec(h: &str, n: &str, i: usize) -> (r: bool)
    requires
        i + n@.len() <= h@.len(),
    ensures
        r == matches_at(h@, n@, i as int),
{
    let nl: usize = n.unicode_len();
    let hl: usize = h.unicode_len();
    let mut q: usize = 0;
    while q < nl
        invariant
            q <= nl,
            nl == n@.len(),
            hl == h@.len(),
            i + nl <= h@.len(),
            forall|z: int| 0 <= z < q ==> h@[i + z] == n@[z],
        decreases nl - q,
    {
        if h.get_char(i + q) != n.get_char(q) {
            proof {
                assert(h@.subrange(i as int, i + nl)[q as int] == h@[i + q]);
            }
            return false;
        }
        q = q + 1;
    }
    proof {
        assert(h@.subrange(i as int, i + nl) =~= n@);
    }
    true
}

/// The first occurrence of `n` in `h` at or after `from`.
pub fn find_sub(h: &str, n: &str, from: usize) -> (r: Option<usize>)
    ensures
        match r {
            Some(i) => spec_find(h@, n@, from as int) == Some(i as int),
            None => spec_find(h@, n@, from as int) is None,
        },
{
    let hl: usize = h.unicode_len();
    let nl: usize = n.unicode_len();
    if nl == 0 {
        if from > hl {
            return None;
        }
        proof {
            assert(h@.subrange(from as int, from as int) =~= n@);
        }
        return Some(from);
    }
    if nl > hl || from > hl - nl {
        return None;
    }
    let mut i: usize = from;
    while i <= hl - nl
        invariant
            from <= i,
            1 <= nl <= hl,
            hl == h@.len(),
            nl == n@.len(),
            spec_find(h@, n@, from as int) == spec_find(h@, n@, i as int),
        decreases hl - i,
    {
        if matches_at_exec(h, n, i) {
            return Some(i);
        }
        i = i + 1;
    }
    None
}

/// A found occurrence really is one: the result of the search lies at
/// or after its start and matches there.
pub proof fn lemma_find_is_match(h: Seq<char>, n: Seq<char>, i: int, j: int)
    requires
        0 <= i,
        spec_find(h, n, i) == Some(j),
    ensures
        i <= j,
        matches_at(h, n, j),
    decreases h.len() - i + 1,
{
    if !(i < 0 || i + n.len() > h.len()) && !matches_at(h, n, i) {
        lemma_find_is_match(h, n, i + 1, j);
    }
}

/// The text of a recognized but unparsable column-not-found failure.
pub open spec fn spec_unknown_column() -> Seq<char> {
    "coluna nao identificada"@
}

/// How an engine failure message is classified: a message carrying the
/// engine's column-not-found shape becomes the missing-columns error
/// naming the column extracted from the text (or a placeholder when the
/// text cannot be parsed); anything else stays an engine failure with
/// its message.
pub open spec fn spec_classify_engine_error(msg: Seq<char>) -> ErrV {
    if spec_contains_sub(msg, "ColumnNotFound"@) {
        let p = "ColumnNotFound(ErrString(\""@;
        if spec_find(msg, p, 0) is Some {
            let start = spec_find(msg, p, 0)->Some_0 + p.len();
            if spec_find(msg, "\\n"@, start) is Some {
                let end = spec_find(msg, "\\n"@, start)->Some_0;
                ErrV::MissingColumns(seq![msg.subrange(start, end)])
            } else {
                ErrV::MissingColumns(seq![spec_unknown_column()])
            }
        } else {
            ErrV::MissingColumns(seq![spec_unknown_column()])
        }
    } else {
        ErrV::Engine(msg)
    }
}

/// Classifies the message of an engine failure, recognizing the
/// column-not-found shape reactively.
pub fn classify_engine_error(msg: &str) -> (r: CsvTransformerError)
    ensures
        r.v() == spec_classify_engine_error(msg@),
{
    if find_sub(msg, "ColumnNotFound", 0).is_none() {
        return CsvTransformerError::PolarsError(msg.to_owned());
    }
    let p = "ColumnNotFound(ErrString(\"";
    let ml: usize = msg.unicode_len();
    match find_sub(msg, p, 0) {
        Some(s) => {
            proof {
                lemma_find_is_match(msg@, p@, 0, s as int);
            }
            let start: usize = s + p.unicode_len();
            proof {
                assert(spec_find(msg@, p@, 0)->Some_0 + p@.len() == start);
            }
            match find_sub(msg, "\\n", start) {
                Some(end) => {
                    proof {
                        lemma_find_is_match(msg@, "\\n"@, start as int, end as int);
                    }
                    let name: String = msg.substring_char(start, end).to_owned();
                    let mut names: Vec<String> = Vec::new();
                    names.push(name);
                    proof {
                        assert(names@.map_values(|x: String| x@) =~= seq![
                            msg@.subrange(start as int, end as int),
                        ]);
                    }
                    CsvTransformerError::ColunasFaltando(names)
                },
                None => {
                    let mut names: Vec<String> = Vec::new();
                    names.push("coluna nao identificada".to_owned());
                    proof {
                        assert(names@.map_values(|x: String| x@) =~= seq![spec_unknown_column()]);
                    }
                    CsvTransformerError::ColunasFaltando(names)
                },
            }
        },
        None => {
            let mut names: Vec<String> = Vec::new();
            names.push("coluna nao identificada".to_owned());
            proof {
                assert(names@.map_values(|x: String| x@) =~= seq![spec_unknown_column()]);
            }
            CsvTransformerError::ColunasFaltando(names)
        },
    }
}

/// The rewritten message for a null found where the typed output
/// requires a value.
pub open spec fn spec_msg_null_found() -> Seq<char> {
    "Encontrado valor vazio/nulo em coluna que deveria ter um valor. Verifique se todas as colunas obrigatorias estao preenchidas ou configure OnInvalid::Nullify para permitir valores nulos."@
}

/// The rewritten message for text found where a numeric value was
/// expected.
pub open spec fn spec_msg_text_found() -> Seq<char> {
    "Encontrado texto em coluna que deveria ser numerica. Verifique se os valores numericos estao no formato correto ou configure OnInvalid::Nullify para permitir valores nulos."@
}

/// How a decode failure message is classified: the two specially
/// recognized shapes are rewritten to actionable messages; everything
/// else falls back to a generic message carrying the original detail.
pub open spec fn spec_classify_decode_error(msg: Seq<char>) -> ErrV {
    if spec_contains_sub(msg, "invalid type: null, expected"@) {
        ErrV::Read(spec_msg_null_found())
    } else if spec_contains_sub(msg, "invalid type: string, expected"@) {
        ErrV::Read(spec_msg_text_found())
    } else {
        ErrV::Read("Erro ao processar dados: "@ + msg)
    }
}

/// Classifies the message of a failure met while decoding generic
/// records into typed output.
pub fn classify_decode_error(msg: &str) -> (r: CsvTransformerError)
    ensures
        r.v() == spec_classify_decode_error(msg@),
{
    if find_sub(msg, "invalid type: null, expected", 0).is_some() {
        CsvTransformerError::ErroLeituraArquivo(
            "Encontrado valor vazio/nulo em coluna que deveria ter um valor. Verifique se todas as colunas obrigatorias estao preenchidas ou configure OnInvalid::Nullify para permitir valores nulos.".to_owned(),
        )
    } else if find_sub(msg, "invalid type: string, expected", 0).is_some() {
        CsvTransformerError::ErroLeituraArquivo(
            "Encontrado texto em coluna que deveria ser numerica. Verifique se os valores numericos estao no formato correto ou configure OnInvalid::Nullify para permitir valores nulos.".to_owned(),
        )
    } else {
        let mut m: String = "Erro ao processar dados: ".to_owned();
        m.append(msg);
        CsvTransformerError::ErroLeituraArquivo(m)
    }
}

} // verus!
