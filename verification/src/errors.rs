//! The error taxonomy: every failure of an extraction run is one of
//! these domain kinds, never a raw engine or decode failure.

use vstd::prelude::*;

verus! {

/// Mathematical image of a [`CsvTransformerError`], with text fields
/// abstracted to character sequences.
pub enum ErrV {
    /// Unrecoverable failure of the tabular engine, with its message.
    Engine(Seq<char>),
    /// Failure while turning generic records into typed output.
    Read(Seq<char>),
    /// Declared column names absent from the input, in schema order.
    MissingColumns(Seq<Seq<char>>),
    /// A single row/column violation under the abort policy.
    RowValidation { linha: int, coluna: Seq<char>, motivo: Seq<char> },
}

/// A typed extraction failure. All errors are terminal for the current
/// run: the caller receives either the full record sequence or exactly
/// one of these.
#[derive(Debug, Clone)]
pub enum CsvTransformerError {
    /// Unrecoverable failure of the tabular engine, carried as the
    /// engine's message.
    PolarsError(String),
    /// Failure while turning generic records into typed output.
    ErroLeituraArquivo(String),
    /// Declared column names absent from the input.
    ColunasFaltando(Vec<String>),
    /// A single row/column violation under the abort policy. `linha` is
    /// 1-based and offset past the header line.
    ValidacaoLinha { linha: usize, coluna: String, motivo: String },
}

impl CsvTransformerError {
    /// The mathematical value of this error.
    pub open spec fn v(&self) -> ErrV {
        match self {
            CsvTransformerError::PolarsError(m) => ErrV::Engine(m@),
            CsvTransformerError::ErroLeituraArquivo(m) => ErrV::Read(m@),
            CsvTransformerError::ColunasFaltando(ns) => ErrV::MissingColumns(
                ns@.map_values(|n: String| n@),
            ),
            CsvTransformerError::ValidacaoLinha { linha, coluna, motivo } => ErrV::RowValidation {
                linha: *linha as int,
                coluna: coluna@,
                motivo: motivo@,
            },
        }
    }
}

} // verus!
