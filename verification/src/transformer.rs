//! The extraction pipeline: five phases over a raw table and a schema.
//!
//! Phases, in strict order: required-column check, cast, row
//! validation, filter with the numeric-null check, and record
//! materialization. The whole run yields either every surviving row as
//! a generic record or exactly one error.

use vstd::prelude::*;
use crate::cast::{cast_cell, clone_cell, spec_cast_cell, spec_to_json_cell, to_json_cell};
use crate::cell::{CellV, CellValue};
use crate::errors::{CsvTransformerError, ErrV};
use crate::schema::{spec_accepts, ColSpec, ColType, OnInvalid};
use crate::table::Table;

verus! {

/// A generic record: one surviving row as an ordered mapping from
/// column name to its record-layer value, in schema order.
#[derive(Debug)]
pub struct Record {
    pub fields: Vec<(String, CellValue)>,
}

impl Record {
    /// The mathematical value of this record.
    pub open spec fn v(&self) -> Seq<(Seq<char>, CellV)> {
        self.fields@.map_values(|p: (String, CellValue)| (p.0@, p.1.v()))
    }
}

/// The transformer: the ordered column specifications of one run.
#[derive(Debug)]
pub struct CsvTransformer {
    pub cols: Vec<ColSpec>,
}

/// The verdict of one row under a scan: abort the run citing a column,
/// drop the row, or keep it with the given cells.
pub enum RowVerdict {
    Abort(int),
    Drop,
    Keep(Seq<CellV>),
}

// ----- phase 1: required columns -----

/// The declared names absent from the table, in schema order.
pub open spec fn spec_missing(specs: Seq<ColSpec>, t: Table) -> Seq<Seq<char>>
    decreases specs.len(),
{
    if specs.len() == 0 {
        Seq::empty()
    } else {
        let rest = spec_missing(specs.drop_last(), t);
        if t.spec_has_column(specs.last().name@) {
            rest
        } else {
            rest.push(specs.last().name@)
        }
    }
}

// ----- phase 2: cast -----

/// The raw cell of the column declared by `s` at the given row.
pub open spec fn spec_raw_cell(t: Table, s: ColSpec, r: int) -> CellV {
    t.spec_cell(s.name@, r)
}

/// Whether every cell of the column declared by `s` casts to its target
/// type.
pub open spec fn spec_col_cast_ok(t: Table, s: ColSpec) -> bool {
    forall|r: int|
        0 <= r < t.spec_height() ==> (spec_cast_cell(
            #[trigger] spec_raw_cell(t, s, r),
            s.dtype,
        ) is Some)
}

/// The first schema column whose cast failure is a hard error: a
/// coercion failure under the `Ignore` policy becomes null instead.
pub open spec fn spec_first_cast_fail(specs: Seq<ColSpec>, t: Table, j: int) -> Option<int>
    decreases specs.len() - j,
{
    if j < 0 || j >= specs.len() {
        None
    } else if specs[j].on_invalid != OnInvalid::Ignore && !spec_col_cast_ok(t, specs[j]) {
        Some(j)
    } else {
        spec_first_cast_fail(specs, t, j + 1)
    }
}

/// The cast image of one cell, with coercion failure turned to null.
pub open spec fn spec_cast_or_null(c: CellV, ty: ColType) -> CellV {
    match spec_cast_cell(c, ty) {
        Some(cv) => cv,
        None => CellV::Null,
    }
}

/// Row `r` after the cast phase, aligned with the schema columns.
pub open spec fn spec_cast_row(specs: Seq<ColSpec>, t: Table, r: int) -> Seq<CellV> {
    Seq::new(
        specs.len(),
        |j: int| spec_cast_or_null(spec_raw_cell(t, specs[j], r), specs[j].dtype),
    )
}

/// The whole table after the cast phase, row-major.
pub open spec fn spec_cast_rows(specs: Seq<ColSpec>, t: Table) -> Seq<Seq<CellV>> {
    Seq::new(t.spec_height() as nat, |r: int| spec_cast_row(specs, t, r))
}

/// The message of a hard cast failure.
pub open spec fn spec_cast_fail_msg(name: Seq<char>) -> Seq<char> {
    "cast to the declared type failed for column "@ + name
}

// ----- phase 3: row validation -----

/// Whether this column stops the scan of a row: its validators reject
/// the cell and the policy is not `Nullify`.
pub open spec fn spec_blocking(s: ColSpec, c: CellV) -> bool {
    !spec_accepts(s, c) && s.on_invalid != OnInvalid::Nullify
}

/// The first blocking column of the row at or after `j`.
pub open spec fn spec_first_block(specs: Seq<ColSpec>, row: Seq<CellV>, j: int) -> Option<int>
    decreases specs.len() - j,
{
    if j < 0 || j >= specs.len() {
        None
    } else if spec_blocking(specs[j], row[j]) {
        Some(j)
    } else {
        spec_first_block(specs, row, j + 1)
    }
}

/// The row with every rejected `Nullify`-policy cell replaced by null.
pub open spec fn spec_repair_row(specs: Seq<ColSpec>, row: Seq<CellV>) -> Seq<CellV> {
    Seq::new(
        specs.len(),
        |j: int|
            if spec_accepts(specs[j], row[j]) {
                row[j]
            } else {
                CellV::Null
            },
    )
}

/// The verdict of the row-validation scan for one row.
pub open spec fn spec_row_verdict(specs: Seq<ColSpec>, row: Seq<CellV>) -> RowVerdict {
    match spec_first_block(specs, row, 0) {
        Some(j) => if specs[j].on_invalid == OnInvalid::Error {
            RowVerdict::Abort(j)
        } else {
            RowVerdict::Drop
        },
        None => RowVerdict::Keep(spec_repair_row(specs, row)),
    }
}

/// The first row at or after `r` whose verdict aborts the run.
pub open spec fn spec_first_abort_row(specs: Seq<ColSpec>, rows: Seq<Seq<CellV>>, r: int) -> Option<
    int,
>
    decreases rows.len() - r,
{
    if r < 0 || r >= rows.len() {
        None
    } else if spec_row_verdict(specs, rows[r]) matches RowVerdict::Abort(_) {
        Some(r)
    } else {
        spec_first_abort_row(specs, rows, r + 1)
    }
}

/// The retained rows among the first `r`, as pairs of original row
/// index and repaired cells.
pub open spec fn spec_kept_upto(specs: Seq<ColSpec>, rows: Seq<Seq<CellV>>, r: int) -> Seq<
    (int, Seq<CellV>),
>
    decreases r,
{
    if r <= 0 {
        Seq::empty()
    } else {
        let rest = spec_kept_upto(specs, rows, r - 1);
        match spec_row_verdict(specs, rows[r - 1]) {
            RowVerdict::Keep(cs) => rest.push((r - 1, cs)),
            _ => rest,
        }
    }
}

// ----- phase 4: filter, with the numeric-null check -----

/// Whether the column's target type is numeric.
pub open spec fn spec_numeric(ty: ColType) -> bool {
    ty == ColType::Integer || ty == ColType::Float
}

/// The end-to-end validity gap: a numeric column holding null after
/// casting and validation, under a policy that does not accept nulls.
pub open spec fn spec_nn_bad(s: ColSpec, c: CellV) -> bool {
    spec_numeric(s.dtype) && (c matches CellV::Null) && s.on_invalid != OnInvalid::Nullify
}

/// The first numeric-null violation of the row at or after `j`.
pub open spec fn spec_first_nn(specs: Seq<ColSpec>, cells: Seq<CellV>, j: int) -> Option<int>
    decreases specs.len() - j,
{
    if j < 0 || j >= specs.len() {
        None
    } else if spec_nn_bad(specs[j], cells[j]) {
        Some(j)
    } else {
        spec_first_nn(specs, cells, j + 1)
    }
}

/// The verdict of the numeric-null check for one retained row.
pub open spec fn spec_row4_verdict(specs: Seq<ColSpec>, cells: Seq<CellV>) -> RowVerdict {
    match spec_first_nn(specs, cells, 0) {
        Some(j) => if specs[j].on_invalid == OnInvalid::Error {
            RowVerdict::Abort(j)
        } else {
            RowVerdict::Drop
        },
        None => RowVerdict::Keep(cells),
    }
}

/// The first retained row at or after `k` whose numeric-null check
/// aborts the run.
pub open spec fn spec_first_abort4(
    specs: Seq<ColSpec>,
    kept: Seq<(int, Seq<CellV>)>,
    k: int,
) -> Option<int>
    decreases kept.len() - k,
{
    if k < 0 || k >= kept.len() {
        None
    } else if spec_row4_verdict(specs, kept[k].1) matches RowVerdict::Abort(_) {
        Some(k)
    } else {
        spec_first_abort4(specs, kept, k + 1)
    }
}

/// The rows surviving the numeric-null check among the first `k`.
pub open spec fn spec_kept4_upto(
    specs: Seq<ColSpec>,
    kept: Seq<(int, Seq<CellV>)>,
    k: int,
) -> Seq<(int, Seq<CellV>)>
    decreases k,
{
    if k <= 0 {
        Seq::empty()
    } else {
        let rest = spec_kept4_upto(specs, kept, k - 1);
        match spec_row4_verdict(specs, kept[k - 1].1) {
            RowVerdict::Keep(_) => rest.push(kept[k - 1]),
            _ => rest,
        }
    }
}

// ----- phase 5: records -----

/// The generic record of one surviving row: schema order, names paired
/// with record-layer values.
pub open spec fn spec_record_of(specs: Seq<ColSpec>, cells: Seq<CellV>) -> Seq<(Seq<char>, CellV)> {
    Seq::new(specs.len(), |j: int| (specs[j].name@, spec_to_json_cell(cells[j])))
}

/// The records of all surviving rows.
pub open spec fn spec_records(specs: Seq<ColSpec>, kept: Seq<(int, Seq<CellV>)>) -> Seq<
    Seq<(Seq<char>, CellV)>,
> {
    kept.map_values(|p: (int, Seq<CellV>)| spec_record_of(specs, p.1))
}

// ----- the whole pipeline -----

/// The reason reported for a validator violation.
pub open spec fn spec_motivo_validacao() -> Seq<char> {
    "valor nao passou na validacao"@
}

/// The reason reported for a numeric column still null after casting
/// and validation.
pub open spec fn spec_motivo_nulo() -> Seq<char> {
    "valor nulo em coluna numerica"@
}

/// What `extract` returns: the full pipeline as a function of schema
/// and table.
pub open spec fn spec_extract(specs: Seq<ColSpec>, t: Table) -> Result<
    Seq<Seq<(Seq<char>, CellV)>>,
    ErrV,
> {
    if spec_missing(specs, t).len() > 0 {
        Err(ErrV::MissingColumns(spec_missing(specs, t)))
    } else if spec_first_cast_fail(specs, t, 0) is Some {
        let j = spec_first_cast_fail(specs, t, 0)->Some_0;
        Err(ErrV::Engine(spec_cast_fail_msg(specs[j].name@)))
    } else {
        let rows = spec_cast_rows(specs, t);
        if spec_first_abort_row(specs, rows, 0) is Some {
            let ar = spec_first_abort_row(specs, rows, 0)->Some_0;
            let j = spec_first_block(specs, rows[ar], 0)->Some_0;
            Err(
                ErrV::RowValidation {
                    linha: ar + 2,
                    coluna: specs[j].name@,
                    motivo: spec_motivo_validacao(),
                },
            )
        } else {
            let kept = spec_kept_upto(specs, rows, rows.len() as int);
            if spec_first_abort4(specs, kept, 0) is Some {
                let k = spec_first_abort4(specs, kept, 0)->Some_0;
                let j = spec_first_nn(specs, kept[k].1, 0)->Some_0;
                Err(
                    ErrV::RowValidation {
                        linha: kept[k].0 + 2,
                        coluna: specs[j].name@,
                        motivo: spec_motivo_nulo(),
                    },
                )
            } else {
                Ok(spec_records(specs, spec_kept4_upto(specs, kept, kept.len() as int)))
            }
        }
    }
}

impl CsvTransformer {
    /// Schema well-formedness: declared column names are unique.
    pub open spec fn wf(self) -> bool {
        forall|i: int, j: int|
            0 <= i < j < self.cols@.len() ==> (#[trigger] self.cols@[i]).name@ != (
            #[trigger] self.cols@[j]).name@
    }
}

/// The index of the table column bearing this name, if any.
fn find_column(t: &Table, name: &String) -> (r: Option<usize>)
    requires
        t.wf(),
    ensures
        match r {
            Some(i) => t.spec_has_column(name@) && 0 <= i < t.spec_cols().len() && i
                == t.spec_col_index(name@),
            None => !t.spec_has_column(name@),
        },
{
    let mut i: usize = 0;
    while i < t.columns.len()
        invariant
            t.wf(),
            i <= t.spec_cols().len(),
            forall|j: int| 0 <= j < i ==> (#[trigger] t.spec_cols()[j]).name@ != name@,
        decreases t.spec_cols().len() - i,
    {
        if t.columns[i].name.eq(name) {
            proof {
                assert(0 <= i < t.spec_cols().len() && (#[trigger] t.spec_cols()[i as int]).name@
                    == name@);
                assert(t.spec_has_column(name@));
                let w = t.spec_col_index(name@);
                assert(0 <= w < t.spec_cols().len() && t.spec_cols()[w].name@ == name@);
                assert(w == i);
            }
            return Some(i);
        }
        i = i + 1;
    }
    None
}

/// The cells of a table, row-major.
pub open spec fn spec_rows_of(t: Table) -> Seq<Seq<CellV>> {
    Seq::new(
        t.spec_height() as nat,
        |r: int|
            Seq::new(t.spec_cols().len(), |j: int| t.spec_cols()[j].cells@[r].v()),
    )
}

/// Scanning for the first hard cast failure may start past any prefix
/// of columns that cannot fail hard.
proof fn lemma_first_cast_fail_skip(specs: Seq<ColSpec>, t: Table, j: int)
    requires
        0 <= j <= specs.len(),
        forall|jj: int|
            0 <= jj < j ==> (#[trigger] specs[jj]).on_invalid == OnInvalid::Ignore
                || spec_col_cast_ok(t, specs[jj]),
    ensures
        spec_first_cast_fail(specs, t, 0) == spec_first_cast_fail(specs, t, j),
    decreases j,
{
    if j > 0 {
        lemma_first_cast_fail_skip(specs, t, j - 1);
    }
}

impl CsvTransformer {
    /// Every declared column name, in schema order.
    pub fn required_column_names(&self) -> (r: Vec<String>)
        ensures
            r@.map_values(|n: String| n@) == self.cols@.map_values(|c: ColSpec| c.name@),
    {
        let mut names: Vec<String> = Vec::new();
        let mut j: usize = 0;
        while j < self.cols.len()
            invariant
                j <= self.cols@.len(),
                names@.len() == j,
                forall|q: int| 0 <= q < j ==> (#[trigger] names@[q])@ == self.cols@[q].name@,
            decreases self.cols@.len() - j,
        {
            names.push(self.cols[j].name.clone());
            j = j + 1;
        }
        proof {
            assert(names@.map_values(|n: String| n@) =~= self.cols@.map_values(
                |c: ColSpec| c.name@,
            ));
        }
        names
    }

    /// Phase 1: every declared name must be present in the table; the
    /// absent ones, in schema order, make the error.
    fn validate_required_columns(&self, t: &Table) -> (r: Result<(), CsvTransformerError>)
        requires
            t.wf(),
        ensures
            match r {
                Ok(_) => spec_missing(self.cols@, *t).len() == 0,
                Err(e) => spec_missing(self.cols@, *t).len() > 0 && e.v() == ErrV::MissingColumns(
                    spec_missing(self.cols@, *t),
                ),
            },
    {
        let mut missing: Vec<String> = Vec::new();
        let mut j: usize = 0;
        while j < self.cols.len()
            invariant
                t.wf(),
                j <= self.cols@.len(),
                missing@.map_values(|n: String| n@) == spec_missing(self.cols@.take(j as int), *t),
            decreases self.cols@.len() - j,
        {
            proof {
                assert(self.cols@.take(j + 1).drop_last() =~= self.cols@.take(j as int));
                assert(self.cols@.take(j + 1).last() == self.cols@[j as int]);
            }
            if find_column(t, &self.cols[j].name).is_none() {
                let n = self.cols[j].name.clone();
                missing.push(n);
                proof {
                    assert(missing@.map_values(|n: String| n@) =~= spec_missing(
                        self.cols@.take(j + 1),
                        *t,
                    ));
                }
            }
            j = j + 1;
        }
        proof {
            assert(self.cols@.take(self.cols@.len() as int) =~= self.cols@);
        }
        if missing.len() > 0 {
            proof {
                assert(spec_missing(self.cols@, *t).len() == missing@.map_values(
                    |n: String| n@,
                ).len());
            }
            return Err(CsvTransformerError::ColunasFaltando(missing));
        }
        Ok(())
    }

    /// Phase 2: coerces each declared column to its target type, in
    /// schema order, producing the projected cast table. A coercion
    /// failure under the `Ignore` policy becomes null; under any other
    /// policy it is a hard engine error naming the first such column.
    pub fn apply_column_transformations(&self, t: &Table) -> (r: Result<
        Table,
        CsvTransformerError,
    >)
        requires
            t.wf(),
            self.wf(),
            forall|j: int|
                0 <= j < self.cols@.len() ==> t.spec_has_column(
                    (#[trigger] self.cols@[j]).name@,
                ),
        ensures
            match r {
                Ok(t2) => {
                    &&& spec_first_cast_fail(self.cols@, *t, 0) is None
                    &&& t2.wf()
                    &&& t2.spec_height() == t.spec_height()
                    &&& t2.spec_cols().len() == self.cols@.len()
                    &&& forall|j: int|
                        0 <= j < self.cols@.len() ==> (#[trigger] t2.spec_cols()[j]).name@
                            == self.cols@[j].name@
                    &&& spec_rows_of(t2) == spec_cast_rows(self.cols@, *t)
                },
                Err(e) => spec_first_cast_fail(self.cols@, *t, 0) is Some && e.v() == ErrV::Engine(
                    spec_cast_fail_msg(
                        self.cols@[spec_first_cast_fail(self.cols@, *t, 0)->Some_0].name@,
                    ),
                ),
            },
    {
        let mut out: Table = Table { columns: Vec::new(), height: t.height };
        let mut j: usize = 0;
        while j < self.cols.len()
            invariant
                t.wf(),
                self.wf(),
                forall|jj: int|
                    0 <= jj < self.cols@.len() ==> t.spec_has_column(
                        (#[trigger] self.cols@[jj]).name@,
                    ),
                j <= self.cols@.len(),
                out.wf(),
                out.spec_cols().len() == j,
                forall|jj: int|
                    0 <= jj < j ==> (#[trigger] out.spec_cols()[jj]).name@ == self.cols@[jj].name@,
                out.spec_height() == t.spec_height(),
                forall|jj: int|
                    0 <= jj < j ==> (#[trigger] self.cols@[jj]).on_invalid == OnInvalid::Ignore
                        || spec_col_cast_ok(*t, self.cols@[jj]),
                forall|jj: int, rr: int|
                    0 <= jj < j && 0 <= rr < t.spec_height() ==> #[trigger] out.spec_cols()[
                        jj].cells@[rr].v() == spec_cast_or_null(
                        #[trigger] spec_raw_cell(*t, self.cols@[jj], rr),
                        self.cols@[jj].dtype,
                    ),
            decreases self.cols@.len() - j,
        {
            let ci: usize = match find_column(t, &self.cols[j].name) {
                Some(ci) => ci,
                None => vstd::pervasive::unreached(),
            };
            let mut cells: Vec<CellValue> = Vec::new();
            let mut failed: bool = false;
            let mut rr: usize = 0;
            let h: usize = t.columns[ci].cells.len();
            proof {
                assert(h as int == t.spec_height());
            }
            while rr < h
                invariant
                    t.wf(),
                    0 <= ci < t.spec_cols().len(),
                    j < self.cols@.len(),
                    ci == t.spec_col_index(self.cols@[j as int].name@),
                    t.spec_cols()[ci as int].name@ == self.cols@[j as int].name@,
                    h as int == t.spec_height(),
                    rr <= h,
                    cells@.len() == rr,
                    failed == !(forall|q: int|
                        0 <= q < rr ==> (spec_cast_cell(
                            #[trigger] spec_raw_cell(*t, self.cols@[j as int], q),
                            self.cols@[j as int].dtype,
                        ) is Some)),
                    forall|q: int|
                        0 <= q < rr ==> (#[trigger] cells@[q]).v() == spec_cast_or_null(
                            spec_raw_cell(*t, self.cols@[j as int], q),
                            self.cols@[j as int].dtype,
                        ),
                decreases h - rr,
            {
                proof {
                    assert(spec_raw_cell(*t, self.cols@[j as int], rr as int) == t.spec_cols()[
                        ci as int].cells@[rr as int].v());
                }
                match cast_cell(&t.columns[ci].cells[rr], self.cols[j].dtype) {
                    Some(cv) => cells.push(cv),
                    None => {
                        failed = true;
                        cells.push(CellValue::Null);
                    },
                }
                rr = rr + 1;
            }
            let is_ignore: bool = match self.cols[j].on_invalid {
                OnInvalid::Ignore => true,
                _ => false,
            };
            if failed && !is_ignore {
                let mut m: String = "cast to the declared type failed for column ".to_owned();
                m.append(self.cols[j].name.as_str());
                proof {
                    lemma_first_cast_fail_skip(self.cols@, *t, j as int);
                    assert(!spec_col_cast_ok(*t, self.cols@[j as int]));
                    assert(spec_first_cast_fail(self.cols@, *t, j as int) == Some(j as int));
                }
                return Err(CsvTransformerError::PolarsError(m));
            }
            proof {
                if !failed {
                    assert(spec_col_cast_ok(*t, self.cols@[j as int]));
                }
                if out.spec_has_column(self.cols@[j as int].name@) {
                    let w = choose|i: int|
                        0 <= i < out.spec_cols().len() && (#[trigger] out.spec_cols()[i]).name@
                            == self.cols@[j as int].name@;
                    assert(self.cols@[w].name@ == self.cols@[j as int].name@);
                    assert(false);
                }
            }
            let name_copy: String = self.cols[j].name.clone();
            let ghost old_out = out;
            let added: bool = out.add_column(name_copy, cells);
            proof {
                assert(added);
                assert(forall|jj: int|
                    0 <= jj < j ==> (#[trigger] out.spec_cols()[jj]) == old_out.spec_cols()[jj]);
            }
            j = j + 1;
        }
        proof {
            lemma_first_cast_fail_skip(self.cols@, *t, self.cols@.len() as int);
            assert(spec_rows_of(out) =~~= spec_cast_rows(self.cols@, *t));
        }
        Ok(out)
    }
}

/// The exec-side image of a record list.
pub open spec fn recs_view(rs: Seq<Record>) -> Seq<Seq<(Seq<char>, CellV)>> {
    rs.map_values(|x: Record| x.v())
}

/// The exec-side image of retained rows.
pub open spec fn kept_view(kept: Seq<(usize, Vec<CellValue>)>) -> Seq<(int, Seq<CellV>)> {
    kept.map_values(
        |p: (usize, Vec<CellValue>)| (p.0 as int, p.1@.map_values(|c: CellValue| c.v())),
    )
}

/// Scanning for the first blocking column may start past a prefix of
/// columns that do not block.
proof fn lemma_first_block_skip(specs: Seq<ColSpec>, row: Seq<CellV>, j: int)
    requires
        0 <= j <= specs.len(),
        forall|jj: int| 0 <= jj < j ==> !spec_blocking(#[trigger] specs[jj], row[jj]),
    ensures
        spec_first_block(specs, row, 0) == spec_first_block(specs, row, j),
    decreases j,
{
    if j > 0 {
        lemma_first_block_skip(specs, row, j - 1);
    }
}

/// Scanning for the first aborting row may start past a prefix of rows
/// that do not abort.
pub(crate) proof fn lemma_first_abort_row_skip(specs: Seq<ColSpec>, rows: Seq<Seq<CellV>>, r: int)
    requires
        0 <= r <= rows.len(),
        forall|q: int|
            0 <= q < r ==> !(spec_row_verdict(specs, #[trigger] rows[q]) matches RowVerdict::Abort(
                _,
            )),
    ensures
        spec_first_abort_row(specs, rows, 0) == spec_first_abort_row(specs, rows, r),
    decreases r,
{
    if r > 0 {
        lemma_first_abort_row_skip(specs, rows, r - 1);
    }
}

/// Scanning for the first numeric-null violation may start past a
/// prefix of columns without one.
proof fn lemma_first_nn_skip(specs: Seq<ColSpec>, cells: Seq<CellV>, j: int)
    requires
        0 <= j <= specs.len(),
        forall|jj: int| 0 <= jj < j ==> !spec_nn_bad(#[trigger] specs[jj], cells[jj]),
    ensures
        spec_first_nn(specs, cells, 0) == spec_first_nn(specs, cells, j),
    decreases j,
{
    if j > 0 {
        lemma_first_nn_skip(specs, cells, j - 1);
    }
}

/// Scanning for the first retained row that fails the numeric-null
/// check may start past a passing prefix.
proof fn lemma_first_abort4_skip(specs: Seq<ColSpec>, kept: Seq<(int, Seq<CellV>)>, k: int)
    requires
        0 <= k <= kept.len(),
        forall|q: int|
            0 <= q < k ==> !(spec_row4_verdict(specs, (#[trigger] kept[q]).1)
                matches RowVerdict::Abort(_)),
    ensures
        spec_first_abort4(specs, kept, 0) == spec_first_abort4(specs, kept, k),
    decreases k,
{
    if k > 0 {
        lemma_first_abort4_skip(specs, kept, k - 1);
    }
}

/// An empty missing list means every declared name is present.
proof fn lemma_missing_empty_all_present(specs: Seq<ColSpec>, t: Table)
    requires
        spec_missing(specs, t).len() == 0,
    ensures
        forall|j: int| 0 <= j < specs.len() ==> t.spec_has_column((#[trigger] specs[j]).name@),
    decreases specs.len(),
{
    if specs.len() > 0 {
        assert(spec_missing(specs.drop_last(), t).len() == 0);
        lemma_missing_empty_all_present(specs.drop_last(), t);
        assert(forall|j: int|
            0 <= j < specs.len() - 1 ==> #[trigger] specs[j] == specs.drop_last()[j]);
        assert(t.spec_has_column(specs.last().name@));
    }
}

/// The exec-side verdict of one row scan.
enum RowScan {
    AbortAt(usize),
    Dropped,
    Kept(Vec<CellValue>),
}

impl CsvTransformer {
    /// Phase 3 for one row: reads the already cast cells in schema
    /// order, evaluating validators; the first rejected cell under a
    /// non-`Nullify` policy decides the row, and rejected cells under
    /// `Nullify` become null.
    fn scan_row(&self, tc: &Table, r: usize) -> (res: RowScan)
        requires
            tc.wf(),
            tc.spec_cols().len() == self.cols@.len(),
            0 <= r < tc.spec_height(),
        ensures
            ({
                let row = spec_rows_of(*tc)[r as int];
                match res {
                    RowScan::AbortAt(j) => j < self.cols@.len() && spec_row_verdict(
                        self.cols@,
                        row,
                    ) == RowVerdict::Abort(j as int),
                    RowScan::Dropped => spec_row_verdict(self.cols@, row)
                        matches RowVerdict::Drop,
                    RowScan::Kept(cells) => spec_row_verdict(self.cols@, row)
                        == RowVerdict::Keep(cells@.map_values(|c: CellValue| c.v())),
                }
            }),
    {
        let ghost row = spec_rows_of(*tc)[r as int];
        let n: usize = self.cols.len();
        let mut repaired: Vec<CellValue> = Vec::new();
        let mut j: usize = 0;
        while j < n
            invariant
                tc.wf(),
                tc.spec_cols().len() == self.cols@.len(),
                0 <= r < tc.spec_height(),
                row == spec_rows_of(*tc)[r as int],
                n == self.cols@.len(),
                j <= n,
                repaired@.len() == j,
                forall|q: int| 0 <= q < j ==> !spec_blocking(#[trigger] self.cols@[q], row[q]),
                forall|q: int|
                    0 <= q < j ==> (#[trigger] repaired@[q]).v() == spec_repair_row(
                        self.cols@,
                        row,
                    )[q],
            decreases n - j,
        {
            proof {
                assert(row[j as int] == tc.spec_cols()[j as int].cells@[r as int].v());
            }
            let cell = &tc.columns[j].cells[r];
            if self.cols[j].validate(cell) {
                repaired.push(clone_cell(cell));
            } else {
                match self.cols[j].on_invalid {
                    OnInvalid::Error => {
                        proof {
                            lemma_first_block_skip(self.cols@, row, j as int);
                        }
                        return RowScan::AbortAt(j);
                    },
                    OnInvalid::Ignore => {
                        proof {
                            lemma_first_block_skip(self.cols@, row, j as int);
                        }
                        return RowScan::Dropped;
                    },
                    OnInvalid::Nullify => {
                        repaired.push(CellValue::Null);
                    },
                }
            }
            j = j + 1;
        }
        proof {
            lemma_first_block_skip(self.cols@, row, n as int);
            assert(repaired@.map_values(|c: CellValue| c.v()) =~= spec_repair_row(
                self.cols@,
                row,
            ));
        }
        RowScan::Kept(repaired)
    }

    /// Phase 4 for one retained row: the first numeric column still
    /// null under a policy that does not accept nulls decides the row.
    fn scan_nulls(&self, cells: &Vec<CellValue>) -> (res: RowScan)
        requires
            cells@.len() == self.cols@.len(),
        ensures
            ({
                let cv = cells@.map_values(|c: CellValue| c.v());
                match res {
                    RowScan::AbortAt(j) => j < self.cols@.len() && spec_row4_verdict(
                        self.cols@,
                        cv,
                    ) == RowVerdict::Abort(j as int),
                    RowScan::Dropped => spec_row4_verdict(self.cols@, cv)
                        matches RowVerdict::Drop,
                    RowScan::Kept(_) => spec_row4_verdict(self.cols@, cv) == RowVerdict::Keep(cv),
                }
            }),
    {
        let ghost cv = cells@.map_values(|c: CellValue| c.v());
        let n: usize = self.cols.len();
        let mut j: usize = 0;
        while j < n
            invariant
                cells@.len() == self.cols@.len(),
                cv == cells@.map_values(|c: CellValue| c.v()),
                n == self.cols@.len(),
                j <= n,
                forall|q: int| 0 <= q < j ==> !spec_nn_bad(#[trigger] self.cols@[q], cv[q]),
            decreases n - j,
        {
            let numeric: bool = match self.cols[j].dtype {
                ColType::Integer => true,
                ColType::Float => true,
                ColType::Text => false,
            };
            let is_null: bool = match cells[j] {
                CellValue::Null => true,
                _ => false,
            };
            let tolerant: bool = match self.cols[j].on_invalid {
                OnInvalid::Nullify => true,
                _ => false,
            };
            if numeric && is_null && !tolerant {
                proof {
                    lemma_first_nn_skip(self.cols@, cv, j as int);
                }
                match self.cols[j].on_invalid {
                    OnInvalid::Error => {
                        return RowScan::AbortAt(j);
                    },
                    _ => {
                        return RowScan::Dropped;
                    },
                }
            }
            j = j + 1;
        }
        proof {
            lemma_first_nn_skip(self.cols@, cv, n as int);
        }
        RowScan::Kept(Vec::new())
    }

    /// Phases 3 and 4: validates every row in order, then applies the
    /// numeric-null check to the retained rows, yielding the surviving
    /// rows as pairs of original row index and final cells, or the one
    /// row/column violation that aborts the run.
    fn validate_and_process_rows(&self, tc: &Table) -> (r: Result<
        Vec<(usize, Vec<CellValue>)>,
        CsvTransformerError,
    >)
        requires
            tc.wf(),
            tc.spec_cols().len() == self.cols@.len(),
            tc.spec_height() + 2 <= usize::MAX,
        ensures
            ({
                let rows = spec_rows_of(*tc);
                let p3 = spec_first_abort_row(self.cols@, rows, 0);
                let kept3 = spec_kept_upto(self.cols@, rows, rows.len() as int);
                let p4 = spec_first_abort4(self.cols@, kept3, 0);
                match r {
                    Ok(out) => p3 is None && p4 is None && kept_view(out@) == spec_kept4_upto(
                        self.cols@,
                        kept3,
                        kept3.len() as int,
                    ) && forall|q: int|
                        0 <= q < out@.len() ==> (#[trigger] out@[q]).1@.len()
                            == self.cols@.len(),
                    Err(e) => (p3 is Some && e.v() == ErrV::RowValidation {
                        linha: p3->Some_0 + 2,
                        coluna: self.cols@[spec_first_block(
                            self.cols@,
                            rows[p3->Some_0],
                            0,
                        )->Some_0].name@,
                        motivo: spec_motivo_validacao(),
                    }) || (p3 is None && p4 is Some && e.v() == ErrV::RowValidation {
                        linha: kept3[p4->Some_0].0 + 2,
                        coluna: self.cols@[spec_first_nn(
                            self.cols@,
                            kept3[p4->Some_0].1,
                            0,
                        )->Some_0].name@,
                        motivo: spec_motivo_nulo(),
                    }),
                }
            }),
    {
        let ghost rows = spec_rows_of(*tc);
        let h: usize = tc.height();
        let mut kept: Vec<(usize, Vec<CellValue>)> = Vec::new();
        let mut r: usize = 0;
        while r < h
            invariant
                tc.wf(),
                tc.spec_cols().len() == self.cols@.len(),
                tc.spec_height() + 2 <= usize::MAX,
                rows == spec_rows_of(*tc),
                h as int == tc.spec_height(),
                r <= h,
                forall|q: int|
                    0 <= q < r ==> !(spec_row_verdict(self.cols@, #[trigger] rows[q])
                        matches RowVerdict::Abort(_)),
                kept_view(kept@) == spec_kept_upto(self.cols@, rows, r as int),
                forall|q: int|
                    0 <= q < kept@.len() ==> (#[trigger] kept@[q]).1@.len() == self.cols@.len()
                        && 0 <= kept@[q].0 < h,
            decreases h - r,
        {
            match self.scan_row(tc, r) {
                RowScan::AbortAt(j) => {
                    proof {
                        lemma_first_abort_row_skip(self.cols@, rows, r as int);
                    }
                    return Err(
                        CsvTransformerError::ValidacaoLinha {
                            linha: r + 2,
                            coluna: self.cols[j].name.clone(),
                            motivo: "valor nao passou na validacao".to_owned(),
                        },
                    );
                },
                RowScan::Dropped => {
                    proof {
                        assert(kept_view(kept@) =~= spec_kept_upto(self.cols@, rows, r + 1));
                    }
                },
                RowScan::Kept(cells) => {
                    proof {
                        assert(cells@.map_values(|c: CellValue| c.v()).len() == self.cols@.len());
                    }
                    kept.push((r, cells));
                    proof {
                        assert(kept_view(kept@) =~= spec_kept_upto(self.cols@, rows, r + 1));
                    }
                },
            }
            r = r + 1;
        }
        proof {
            lemma_first_abort_row_skip(self.cols@, rows, h as int);
        }
        let ghost kept3 = spec_kept_upto(self.cols@, rows, rows.len() as int);
        proof {
            assert(kept3 == kept_view(kept@));
        }
        let m: usize = kept.len();
        let mut out: Vec<(usize, Vec<CellValue>)> = Vec::new();
        let mut k: usize = 0;
        while k < m
            invariant
                tc.spec_height() + 2 <= usize::MAX,
                rows == spec_rows_of(*tc),
                spec_first_abort_row(self.cols@, rows, 0) is None,
                kept3 == kept_view(kept@),
                kept3 == spec_kept_upto(self.cols@, rows, rows.len() as int),
                m == kept@.len(),
                k <= m,
                forall|q: int|
                    0 <= q < kept@.len() ==> (#[trigger] kept@[q]).1@.len() == self.cols@.len()
                        && 0 <= kept@[q].0 < tc.spec_height(),
                forall|q: int|
                    0 <= q < k ==> !(spec_row4_verdict(self.cols@, (#[trigger] kept3[q]).1)
                        matches RowVerdict::Abort(_)),
                kept_view(out@) == spec_kept4_upto(self.cols@, kept3, k as int),
                forall|q: int|
                    0 <= q < out@.len() ==> (#[trigger] out@[q]).1@.len() == self.cols@.len(),
            decreases m - k,
        {
            proof {
                assert(kept3[k as int].1 == kept@[k as int].1@.map_values(|c: CellValue| c.v()));
            }
            match self.scan_nulls(&kept[k].1) {
                RowScan::AbortAt(j) => {
                    proof {
                        lemma_first_abort4_skip(self.cols@, kept3, k as int);
                    }
                    let linha: usize = kept[k].0 + 2;
                    return Err(
                        CsvTransformerError::ValidacaoLinha {
                            linha,
                            coluna: self.cols[j].name.clone(),
                            motivo: "valor nulo em coluna numerica".to_owned(),
                        },
                    );
                },
                RowScan::Dropped => {
                    proof {
                        assert(kept_view(out@) =~= spec_kept4_upto(self.cols@, kept3, k + 1));
                    }
                },
                RowScan::Kept(_) => {
                    let ri: usize = kept[k].0;
                    let mut cells2: Vec<CellValue> = Vec::new();
                    let mut q: usize = 0;
                    let cl: usize = kept[k].1.len();
                    while q < cl
                        invariant
                            k < kept@.len(),
                            cl == kept@[k as int].1@.len(),
                            q <= cl,
                            cells2@.len() == q,
                            forall|z: int|
                                0 <= z < q ==> (#[trigger] cells2@[z]).v() == kept@[k as int].1@[
                                    z].v(),
                        decreases cl - q,
                    {
                        cells2.push(clone_cell(&kept[k].1[q]));
                        q = q + 1;
                    }
                    out.push((ri, cells2));
                    proof {
                        assert(cells2@.map_values(|c: CellValue| c.v()) =~= kept3[k as int].1);
                        assert(kept_view(out@) =~= spec_kept4_upto(self.cols@, kept3, k + 1));
                    }
                },
            }
            k = k + 1;
        }
        proof {
            lemma_first_abort4_skip(self.cols@, kept3, m as int);
        }
        Ok(out)
    }

    /// The public operation: runs the five phases over the table and
    /// this schema, yielding every surviving row as a generic record
    /// in original row order, or exactly one typed error.
    pub fn extract(&self, table: &Table) -> (r: Result<Vec<Record>, CsvTransformerError>)
        requires
            table.wf(),
            self.wf(),
            table.spec_height() + 2 <= usize::MAX,
        ensures
            ({
                let se = spec_extract(self.cols@, *table);
                match r {
                    Ok(recs) => se is Ok && recs_view(recs@) == se->Ok_0,
                    Err(e) => se is Err && e.v() == se->Err_0,
                }
            }),
    {
        match self.validate_required_columns(table) {
            Err(e) => {
                return Err(e);
            },
            Ok(_) => {},
        }
        proof {
            lemma_missing_empty_all_present(self.cols@, *table);
        }
        let tc: Table = match self.apply_column_transformations(table) {
            Ok(tc) => tc,
            Err(e) => {
                return Err(e);
            },
        };
        let ghost rows = spec_cast_rows(self.cols@, *table);
        proof {
            assert(spec_rows_of(tc) == rows);
        }
        let kept4: Vec<(usize, Vec<CellValue>)> = match self.validate_and_process_rows(&tc) {
            Ok(v) => v,
            Err(e) => {
                return Err(e);
            },
        };
        let ghost kept3 = spec_kept_upto(self.cols@, rows, rows.len() as int);
        let ghost k4 = spec_kept4_upto(self.cols@, kept3, kept3.len() as int);
        let m: usize = kept4.len();
        let n: usize = self.cols.len();
        let mut recs: Vec<Record> = Vec::new();
        let mut k: usize = 0;
        while k < m
            invariant
                kept_view(kept4@) == k4,
                forall|q: int|
                    0 <= q < kept4@.len() ==> (#[trigger] kept4@[q]).1@.len()
                        == self.cols@.len(),
                m == kept4@.len(),
                n == self.cols@.len(),
                k <= m,
                recs_view(recs@) == spec_records(self.cols@, k4.take(k as int)),
            decreases m - k,
        {
            proof {
                assert(k4[k as int] == kept_view(kept4@)[k as int]);
                assert(k4[k as int].1 == kept4@[k as int].1@.map_values(|c: CellValue| c.v()));
            }
            let mut fields: Vec<(String, CellValue)> = Vec::new();
            let mut j: usize = 0;
            while j < n
                invariant
                    k < kept4@.len(),
                    kept4@[k as int].1@.len() == n,
                    k4[k as int].1 == kept4@[k as int].1@.map_values(|c: CellValue| c.v()),
                    n == self.cols@.len(),
                    j <= n,
                    fields@.len() == j,
                    forall|q: int|
                        0 <= q < j ==> (#[trigger] fields@[q]).0@ == self.cols@[q].name@
                            && fields@[q].1.v() == spec_to_json_cell(k4[k as int].1[q]),
                decreases n - j,
            {
                let name_copy: String = self.cols[j].name.clone();
                fields.push((name_copy, to_json_cell(&kept4[k].1[j])));
                j = j + 1;
            }
            let rec = Record { fields };
            proof {
                assert(rec.v() =~= spec_record_of(self.cols@, k4[k as int].1));
            }
            let ghost prev = recs@;
            recs.push(rec);
            proof {
                assert(kept_view(kept4@).len() == kept4@.len());
                assert(k4.len() == m);
                assert(k4.take(k as int).len() == k as int);
                assert(spec_records(self.cols@, k4.take(k as int)).len() == k as int);
                assert(recs_view(prev).len() == prev.len());
                assert(prev.len() == k);
                assert(recs@ == prev.push(rec));
                assert(recs@.len() == k + 1);
                assert(recs_view(recs@).len() == k + 1);
                assert(recs_view(recs@)[k as int] == rec.v());
                assert(forall|q: int|
                    0 <= q < k ==> recs_view(recs@)[q] == #[trigger] recs_view(prev)[q]);
                assert(spec_records(self.cols@, k4.take(k + 1)).len() == k + 1);
                assert(spec_records(self.cols@, k4.take(k + 1))[k as int] == spec_record_of(
                    self.cols@,
                    k4.take(k + 1)[k as int].1,
                ));
                assert(forall|q: int|
                    0 <= q < k + 1 ==> #[trigger] spec_records(self.cols@, k4.take(k + 1))[q]
                        == spec_record_of(self.cols@, k4.take(k + 1)[q].1));
                assert(k4.len() == kept_view(kept4@).len());
                assert(forall|q: int|
                    0 <= q < k ==> #[trigger] spec_records(self.cols@, k4.take(k as int))[q]
                        == spec_record_of(self.cols@, k4.take(k as int)[q].1));
                assert(forall|q: int| 0 <= q < k ==> k4.take(k + 1)[q] == #[trigger] k4.take(
                    k as int,
                )[q]);
                assert(k4.take(k + 1)[k as int] == k4[k as int]);
                assert forall|q: int| 0 <= q < k + 1 implies recs_view(recs@)[q] == spec_records(
                    self.cols@,
                    k4.take(k + 1),
                )[q] by {
                    if q < k {
                        assert(recs_view(recs@)[q] == recs_view(prev)[q]);
                        assert(recs_view(prev)[q] == spec_records(self.cols@, k4.take(k as int))[
                            q]);
                    } else {
                        assert(recs_view(recs@)[q] == rec.v());
                    }
                }
                assert(recs_view(recs@) =~= spec_records(self.cols@, k4.take(k + 1)));
            }
            k = k + 1;
        }
        proof {
            assert(k4.take(m as int) =~= k4);
        }
        Ok(recs)
    }
}

} // verus!
