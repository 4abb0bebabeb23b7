//! The raw table model: a column-oriented, row-addressable table of
//! cells with a fixed height and uniquely named columns.

use vstd::prelude::*;
use crate::cell::{CellV, CellValue};

verus! {

/// One named column of cells.
#[derive(Debug, Clone)]
pub struct TableColumn {
    pub name: String,
    pub cells: Vec<CellValue>,
}

/// A raw table: named columns of equal height.
#[derive(Debug, Clone)]
pub struct Table {
    pub columns: Vec<TableColumn>,
    pub height: usize,
}

impl Table {
    /// The columns, as a sequence.
    pub open spec fn spec_cols(self) -> Seq<TableColumn> {
        self.columns@
    }

    /// The number of rows.
    pub open spec fn spec_height(self) -> int {
        self.height as int
    }

    /// Well-formedness: every column has exactly `height` cells and
    /// column names do not repeat.
    pub open spec fn wf(self) -> bool {
        &&& forall|i: int|
            0 <= i < self.spec_cols().len() ==> (#[trigger] self.spec_cols()[i]).cells@.len()
                == self.spec_height()
        &&& forall|i: int, j: int|
            0 <= i < j < self.spec_cols().len() ==> (#[trigger] self.spec_cols()[i]).name@ != (
            #[trigger] self.spec_cols()[j]).name@
    }

    /// Whether some column bears this name.
    pub open spec fn spec_has_column(self, name: Seq<char>) -> bool {
        exists|i: int| 0 <= i < self.spec_cols().len() && (#[trigger] self.spec_cols()[i]).name@ == name
    }

    /// The index of the column bearing this name (unique in a
    /// well-formed table).
    pub open spec fn spec_col_index(self, name: Seq<char>) -> int {
        choose|i: int| 0 <= i < self.spec_cols().len() && (#[trigger] self.spec_cols()[i]).name@ == name
    }

    /// The cell of the named column in the given row.
    pub open spec fn spec_cell(self, name: Seq<char>, row: int) -> CellV {
        self.spec_cols()[self.spec_col_index(name)].cells@[row].v()
    }

    /// An empty table: no columns, no rows.
    pub fn new() -> (t: Table)
        ensures
            t.wf(),
            t.spec_cols().len() == 0,
            t.spec_height() == 0,
    {
        Table { columns: Vec::new(), height: 0 }
    }

    /// The number of rows.
    pub fn height(&self) -> (h: usize)
        ensures
            h as int == self.spec_height(),
    {
        self.height
    }

    /// Appends a named column. The first column fixes the height; a
    /// later one is accepted only if its length matches and its name is
    /// new. Returns whether the column was added; on refusal the table
    /// is unchanged.
    pub fn add_column(&mut self, name: String, cells: Vec<CellValue>) -> (ok: bool)
        requires
            old(self).wf(),
        ensures
            final(self).wf(),
            ok == ((old(self).spec_cols().len() == 0 || cells@.len() == old(self).spec_height())
                && !old(self).spec_has_column(name@)),
            ok ==> final(self).spec_cols() == old(self).spec_cols().push(
                TableColumn { name, cells },
            ) && final(self).spec_height() == cells@.len(),
            !ok ==> *final(self) == *old(self),
    {
        if !(self.columns.len() == 0 || cells.len() == self.height) {
            return false;
        }
        let mut i: usize = 0;
        while i < self.columns.len()
            invariant
                old(self).wf(),
                *self == *old(self),
                i <= self.columns@.len(),
                forall|j: int| 0 <= j < i ==> (#[trigger] self.columns@[j]).name@ != name@,
        decreases self.columns@.len() - i,
        {
            if self.columns[i].name.eq(&name) {
                proof {
                    assert(0 <= i < self.spec_cols().len() && (#[trigger] self.spec_cols()[
                        i as int]).name@ == name@);
                    assert(self.spec_has_column(name@));
                }
                return false;
            }
            i = i + 1;
        }
        self.height = cells.len();
        self.columns.push(TableColumn { name, cells });
        true
    }
}

} // verus!
