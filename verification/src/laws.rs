//! General properties of the pipeline, stated and proved over the same
//! spec functions that the executable functions' contracts use.

use vstd::prelude::*;
use crate::cell::CellV;
use crate::errors::ErrV;
use crate::schema::{spec_accepts, validators_accept, ColSpec, OnInvalid};
use crate::table::Table;
use crate::transformer::{
    lemma_first_abort_row_skip, spec_blocking, spec_cast_rows, spec_extract, spec_first_abort4,
    spec_first_abort_row, spec_first_block, spec_first_cast_fail, spec_first_nn, spec_kept4_upto,
    spec_kept_upto, spec_missing, spec_motivo_validacao, spec_nn_bad, spec_records,
    spec_repair_row, spec_row4_verdict, spec_row_verdict, RowVerdict,
};
use crate::validator::{validator_accepts, Validator};

verus! {

/// A name is missing exactly when some declared column bears it and the
/// table does not.
pub proof fn lemma_missing_characterization(specs: Seq<ColSpec>, t: Table, n: Seq<char>)
    ensures
        spec_missing(specs, t).contains(n) <==> (!t.spec_has_column(n) && exists|j: int|
            0 <= j < specs.len() && (#[trigger] specs[j]).name@ == n),
    decreases specs.len(),
{
    if specs.len() > 0 {
        lemma_missing_characterization(specs.drop_last(), t, n);
        let rest = spec_missing(specs.drop_last(), t);
        let m = spec_missing(specs, t);
        assert(forall|j: int|
            0 <= j < specs.len() - 1 ==> #[trigger] specs.drop_last()[j] == specs[j]);
        if t.spec_has_column(specs.last().name@) {
            if !t.spec_has_column(n) && exists|j: int|
                0 <= j < specs.len() && (#[trigger] specs[j]).name@ == n {
                let j = choose|j: int| 0 <= j < specs.len() && (#[trigger] specs[j]).name@ == n;
                assert(j < specs.len() - 1);
                assert((#[trigger] specs.drop_last()[j]).name@ == n);
                assert(rest.contains(n));
            }
            if m.contains(n) {
                assert(rest.contains(n));
                let j = choose|j: int|
                    0 <= j < specs.drop_last().len() && (#[trigger] specs.drop_last()[j]).name@
                        == n;
                assert((#[trigger] specs[j]).name@ == n);
            }
        } else {
            assert(m == rest.push(specs.last().name@));
            if m.contains(n) {
                let i = choose|i: int| 0 <= i < m.len() && m[i] == n;
                if i < rest.len() {
                    assert(rest.contains(n));
                    let j = choose|j: int|
                        0 <= j < specs.drop_last().len() && (#[trigger] specs.drop_last()[
                            j]).name@ == n;
                    assert((#[trigger] specs[j]).name@ == n);
                } else {
                    assert(n == specs.last().name@);
                    assert((#[trigger] specs[specs.len() - 1]).name@ == n);
                }
            }
            if !t.spec_has_column(n) && exists|j: int|
                0 <= j < specs.len() && (#[trigger] specs[j]).name@ == n {
                let j = choose|j: int| 0 <= j < specs.len() && (#[trigger] specs[j]).name@ == n;
                if j < specs.len() - 1 {
                    assert((#[trigger] specs.drop_last()[j]).name@ == n);
                    assert(rest.contains(n));
                    let i = choose|i: int| 0 <= i < rest.len() && rest[i] == n;
                    assert(m[i] == n);
                } else {
                    assert(m[m.len() - 1] == n);
                }
                assert(m.contains(n));
            }
        }
    }
}

/// A declared column absent from the table makes the whole run fail
/// with exactly the missing-columns error, before any row is looked at.
pub proof fn lemma_absent_column_fails(specs: Seq<ColSpec>, t: Table, j: int)
    requires
        0 <= j < specs.len(),
        !t.spec_has_column(specs[j].name@),
    ensures
        spec_extract(specs, t) == Result::<Seq<Seq<(Seq<char>, CellV)>>, ErrV>::Err(
            ErrV::MissingColumns(spec_missing(specs, t)),
        ),
        spec_missing(specs, t).contains(specs[j].name@),
    decreases specs.len(),
{
    lemma_missing_characterization(specs, t, specs[j].name@);
    assert((#[trigger] specs[j]).name@ == specs[j].name@);
    assert(spec_missing(specs, t).len() > 0);
}

/// A list of validators accepts a cell exactly when every validator the
/// list contains accepts it, so acceptance depends only on which
/// validators are present.
pub proof fn lemma_validators_accept_contains(vs: Seq<Validator>, c: CellV)
    ensures
        validators_accept(vs, c) <==> (forall|v: Validator|
            vs.contains(v) ==> #[trigger] validator_accepts(v, c)),
{
    if forall|v: Validator| vs.contains(v) ==> #[trigger] validator_accepts(v, c) {
        assert forall|i: int| 0 <= i < vs.len() implies validator_accepts(
            #[trigger] vs[i],
            c,
        ) by {
            assert(vs.contains(vs[i]));
        }
    }
    if validators_accept(vs, c) {
        assert forall|v: Validator| vs.contains(v) implies #[trigger] validator_accepts(
            v,
            c,
        ) by {
            let i = choose|i: int| 0 <= i < vs.len() && vs[i] == v;
            assert(validator_accepts(vs[i], c));
        }
    }
}

/// Validators compose by logical AND, so their order (and multiplicity)
/// has no effect on whether a cell is accepted: two lists with the same
/// multiset of validators accept exactly the same cells.
pub proof fn lemma_validators_order_independent(
    vs1: Seq<Validator>,
    vs2: Seq<Validator>,
    c: CellV,
)
    requires
        vs1.to_multiset() == vs2.to_multiset(),
    ensures
        validators_accept(vs1, c) == validators_accept(vs2, c),
{
    broadcast use vstd::seq_lib::group_to_multiset_ensures;

    assert forall|v: Validator| vs1.contains(v) <==> vs2.contains(v) by {
        assert(vs1.contains(v) <==> vs1.to_multiset().count(v) > 0);
        assert(vs2.contains(v) <==> vs2.to_multiset().count(v) > 0);
    }
    lemma_validators_accept_contains(vs1, c);
    lemma_validators_accept_contains(vs2, c);
}

/// What the row scan reports is the first blocking column: every
/// earlier column's validators accepted its cell or were under the
/// `Nullify` policy.
pub proof fn lemma_first_block_is_first(specs: Seq<ColSpec>, row: Seq<CellV>, j: int)
    requires
        spec_first_block(specs, row, 0) == Some(j),
    ensures
        0 <= j < specs.len(),
        spec_blocking(specs[j], row[j]),
        forall|q: int| 0 <= q < j ==> !spec_blocking(#[trigger] specs[q], row[q]),
{
    lemma_first_block_from(specs, row, 0, j);
}

/// The scan from `i` finds a blocking column at or after `i`, with none
/// in between.
proof fn lemma_first_block_from(specs: Seq<ColSpec>, row: Seq<CellV>, i: int, j: int)
    requires
        0 <= i,
        spec_first_block(specs, row, i) == Some(j),
    ensures
        i <= j < specs.len(),
        spec_blocking(specs[j], row[j]),
        forall|q: int| i <= q < j ==> !spec_blocking(#[trigger] specs[q], row[q]),
    decreases specs.len() - i,
{
    if i < specs.len() && !spec_blocking(specs[i], row[i]) {
        lemma_first_block_from(specs, row, i + 1, j);
    }
}

/// A row whose rejected cells all sit under the `Nullify` policy is
/// retained, with exactly those cells nulled and every accepted cell
/// kept unchanged.
pub proof fn lemma_nullify_retains_row(specs: Seq<ColSpec>, row: Seq<CellV>)
    requires
        row.len() == specs.len(),
        forall|q: int|
            0 <= q < specs.len() && !spec_accepts(#[trigger] specs[q], row[q]) ==> specs[
                q
            ].on_invalid == OnInvalid::Nullify,
    ensures
        spec_row_verdict(specs, row) == RowVerdict::Keep(spec_repair_row(specs, row)),
        forall|q: int|
            0 <= q < specs.len() && !spec_accepts(#[trigger] specs[q], row[q])
                ==> spec_repair_row(specs, row)[q] == CellV::Null,
        forall|q: int|
            0 <= q < specs.len() && spec_accepts(#[trigger] specs[q], row[q]) ==> spec_repair_row(
                specs,
                row,
            )[q] == row[q],
{
    lemma_no_block(specs, row, 0);
}

/// A scan over columns that never block finds nothing.
proof fn lemma_no_block(specs: Seq<ColSpec>, row: Seq<CellV>, i: int)
    requires
        0 <= i,
        forall|q: int| 0 <= q < specs.len() ==> !spec_blocking(#[trigger] specs[q], row[q]),
    ensures
        spec_first_block(specs, row, i) is None,
    decreases specs.len() - i,
{
    if i < specs.len() {
        lemma_no_block(specs, row, i + 1);
    }
}

/// The retained rows are exactly the rows whose verdict keeps them,
/// with their repaired cells, in row order.
pub proof fn lemma_kept_characterization(
    specs: Seq<ColSpec>,
    rows: Seq<Seq<CellV>>,
    m: int,
    q: int,
    cs: Seq<CellV>,
)
    requires
        0 <= m <= rows.len(),
    ensures
        spec_kept_upto(specs, rows, m).contains((q, cs)) <==> (0 <= q < m && spec_row_verdict(
            specs,
            rows[q],
        ) == RowVerdict::Keep(cs)),
    decreases m,
{
    if m > 0 {
        lemma_kept_characterization(specs, rows, m - 1, q, cs);
        let rest = spec_kept_upto(specs, rows, m - 1);
        let whole = spec_kept_upto(specs, rows, m);
        match spec_row_verdict(specs, rows[m - 1]) {
            RowVerdict::Keep(cs2) => {
                assert(whole == rest.push((m - 1, cs2)));
                if whole.contains((q, cs)) {
                    let i = choose|i: int| 0 <= i < whole.len() && whole[i] == (q, cs);
                    if i < rest.len() {
                        assert(rest.contains((q, cs)));
                    }
                }
                if 0 <= q < m && spec_row_verdict(specs, rows[q]) == RowVerdict::Keep(cs) {
                    if q < m - 1 {
                        assert(rest.contains((q, cs)));
                        let i = choose|i: int| 0 <= i < rest.len() && rest[i] == (q, cs);
                        assert(whole[i] == (q, cs));
                    } else {
                        assert(whole.last() == (q, cs));
                    }
                    assert(whole.contains((q, cs)));
                }
            },
            _ => {
                if 0 <= q < m && spec_row_verdict(specs, rows[q]) == RowVerdict::Keep(cs) {
                    assert(q != m - 1);
                }
            },
        }
    }
}

/// Extraction is a function of the table and schema alone: two runs on
/// the same pair yield the same outcome, so a run without an aborting
/// error is repeatable with identical output in identical order.
pub proof fn lemma_extract_deterministic(
    specs: Seq<ColSpec>,
    t: Table,
    out1: Seq<Seq<(Seq<char>, CellV)>>,
    out2: Seq<Seq<(Seq<char>, CellV)>>,
)
    requires
        spec_extract(specs, t) == Result::<Seq<Seq<(Seq<char>, CellV)>>, ErrV>::Ok(out1),
        spec_extract(specs, t) == Result::<Seq<Seq<(Seq<char>, CellV)>>, ErrV>::Ok(out2),
    ensures
        out1 == out2,
{
}

/// A table with every declared column but no rows extracts to the empty
/// record sequence, whatever the schema asks of its cells.
pub proof fn lemma_empty_table_succeeds(specs: Seq<ColSpec>, t: Table)
    requires
        t.spec_height() == 0,
        spec_missing(specs, t).len() == 0,
    ensures
        spec_extract(specs, t) == Result::<Seq<Seq<(Seq<char>, CellV)>>, ErrV>::Ok(
            Seq::<Seq<(Seq<char>, CellV)>>::empty(),
        ),
{
    lemma_no_cast_fail(specs, t, 0);
    let rows = spec_cast_rows(specs, t);
    assert(rows.len() == 0);
    assert(spec_first_abort_row(specs, rows, 0) is None);
    assert(spec_kept_upto(specs, rows, 0) == Seq::<(int, Seq<CellV>)>::empty());
    assert(spec_extract(specs, t)->Ok_0 =~= Seq::<Seq<(Seq<char>, CellV)>>::empty());
}

/// On a table without rows no column can fail its cast.
proof fn lemma_no_cast_fail(specs: Seq<ColSpec>, t: Table, i: int)
    requires
        0 <= i,
        t.spec_height() == 0,
    ensures
        spec_first_cast_fail(specs, t, i) is None,
    decreases specs.len() - i,
{
    if i < specs.len() {
        lemma_no_cast_fail(specs, t, i + 1);
    }
}

/// Under the abort policy, the first row whose scan stops at a
/// rejected `Error`-policy column fails the whole run, reporting that
/// row's 1-based, header-offset line number and that column's name, and
/// producing no records.
pub proof fn lemma_error_policy_aborts(specs: Seq<ColSpec>, t: Table, r: int, j: int)
    requires
        spec_missing(specs, t).len() == 0,
        spec_first_cast_fail(specs, t, 0) is None,
        0 <= r < t.spec_height(),
        forall|q: int|
            0 <= q < r ==> !(spec_row_verdict(specs, #[trigger] spec_cast_rows(specs, t)[q])
                matches RowVerdict::Abort(_)),
        spec_first_block(specs, spec_cast_rows(specs, t)[r], 0) == Some(j),
        specs[j].on_invalid == OnInvalid::Error,
    ensures
        spec_extract(specs, t) == Result::<Seq<Seq<(Seq<char>, CellV)>>, ErrV>::Err(
            ErrV::RowValidation {
                linha: r + 2,
                coluna: specs[j].name@,
                motivo: spec_motivo_validacao(),
            },
        ),
{
    let rows = spec_cast_rows(specs, t);
    assert(spec_row_verdict(specs, rows[r]) == RowVerdict::Abort(j));
    lemma_abort_row_found(specs, rows, r);
}

/// A row with an aborting verdict, after rows without one, is the first
/// aborting row.
proof fn lemma_abort_row_found(specs: Seq<ColSpec>, rows: Seq<Seq<CellV>>, r: int)
    requires
        0 <= r < rows.len(),
        forall|q: int|
            0 <= q < r ==> !(spec_row_verdict(specs, #[trigger] rows[q])
                matches RowVerdict::Abort(_)),
        spec_row_verdict(specs, rows[r]) matches RowVerdict::Abort(_),
    ensures
        spec_first_abort_row(specs, rows, 0) == Some(r),
{
    lemma_first_abort_row_skip(specs, rows, r);
}

/// Under the drop policy a rejected row is silently excluded: its scan
/// verdict is `Drop`, it appears among no retained rows, and when no
/// row aborts in either phase the run still succeeds.
pub proof fn lemma_ignore_policy_drops(
    specs: Seq<ColSpec>,
    t: Table,
    r: int,
    cs: Seq<CellV>,
)
    requires
        spec_missing(specs, t).len() == 0,
        spec_first_cast_fail(specs, t, 0) is None,
        0 <= r < t.spec_height(),
        spec_row_verdict(specs, spec_cast_rows(specs, t)[r]) matches RowVerdict::Drop,
    ensures
        !spec_kept_upto(specs, spec_cast_rows(specs, t), t.spec_height()).contains((r, cs)),
{
    let rows = spec_cast_rows(specs, t);
    lemma_kept_characterization(specs, rows, t.spec_height(), r, cs);
}


/// A retained row whose null numeric cells all sit under the `Nullify`
/// policy passes the numeric-null check unchanged.
pub proof fn lemma_nullify_survives_null_check(specs: Seq<ColSpec>, cells: Seq<CellV>)
    requires
        forall|q: int| 0 <= q < specs.len() ==> !spec_nn_bad(#[trigger] specs[q], cells[q]),
    ensures
        spec_row4_verdict(specs, cells) == RowVerdict::Keep(cells),
{
    lemma_no_nn(specs, cells, 0);
}

/// A scan over cells without a numeric-null violation finds nothing.
proof fn lemma_no_nn(specs: Seq<ColSpec>, cells: Seq<CellV>, i: int)
    requires
        0 <= i,
        forall|q: int| 0 <= q < specs.len() ==> !spec_nn_bad(#[trigger] specs[q], cells[q]),
    ensures
        spec_first_nn(specs, cells, i) is None,
    decreases specs.len() - i,
{
    if i < specs.len() {
        lemma_no_nn(specs, cells, i + 1);
    }
}

/// A run in which no row aborts in either scan succeeds, returning the
/// records of exactly the rows both scans retained, in row order.
pub proof fn lemma_no_abort_run_succeeds(specs: Seq<ColSpec>, t: Table)
    requires
        spec_missing(specs, t).len() == 0,
        spec_first_cast_fail(specs, t, 0) is None,
        spec_first_abort_row(specs, spec_cast_rows(specs, t), 0) is None,
        spec_first_abort4(
            specs,
            spec_kept_upto(specs, spec_cast_rows(specs, t), t.spec_height()),
            0,
        ) is None,
    ensures
        ({
            let kept = spec_kept_upto(specs, spec_cast_rows(specs, t), t.spec_height());
            spec_extract(specs, t) == Result::<_, ErrV>::Ok(
                spec_records(specs, spec_kept4_upto(specs, kept, kept.len() as int)),
            )
        }),
{
}

} // verus!
