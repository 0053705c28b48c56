//! The worksheet model: a sparse grid of typed cells with formats, row and
//! column metadata, merged ranges, data validations, freeze panes and a
//! selection. Rows and cells serialize in ascending order because the grid
//! is kept sorted by a row-major key.

use vstd::prelude::*;
use crate::sortedmap::{SortedMap, seq_get, spec_set, lemma_get_set};
use crate::XlsxError;

verus! {

pub const MAX_ROWS: u32 = 1048576;

pub const MAX_COLS: u16 = 16384;

/// One more than the largest grid key: `MAX_ROWS * 16385`.
pub const GRID_KEY_BOUND: u64 = 0x400100000;

/// Each row owns 16385 key slots: slot 0 is the row's own metadata, slot
/// `c + 1` is the cell in column `c`. Keys are row-major, so walking the
/// grid in key order yields rows ascending, metadata first, cells by column.
pub open spec fn spec_row_key(row: nat) -> u64 {
    (row * 16385) as u64
}

pub open spec fn spec_cell_key(row: nat, col: nat) -> u64 {
    (row * 16385 + col + 1) as u64
}

/// The automaton that accepts a plain decimal number: an optional sign,
/// digits, an optional fraction, an optional exponent. States: 0 start,
/// 1 after the sign, 2 in the integer digits, 3 after the point, 4 in the
/// fraction digits, 5 after the exponent mark, 6 after the exponent sign,
/// 7 in the exponent digits, 8 rejected. 2, 4 and 7 accept.
pub open spec fn num_step(st: u8, b: u8) -> u8 {
    let digit = 48 <= b && b <= 57;
    if st == 0 {
        if b == 45 {
            1u8
        } else if digit {
            2u8
        } else {
            8u8
        }
    } else if st == 1 {
        if digit {
            2u8
        } else {
            8u8
        }
    } else if st == 2 {
        if digit {
            2u8
        } else if b == 46 {
            3u8
        } else if b == 101 || b == 69 {
            5u8
        } else {
            8u8
        }
    } else if st == 3 {
        if digit {
            4u8
        } else {
            8u8
        }
    } else if st == 4 {
        if digit {
            4u8
        } else if b == 101 || b == 69 {
            5u8
        } else {
            8u8
        }
    } else if st == 5 {
        if b == 43 || b == 45 {
            6u8
        } else if digit {
            7u8
        } else {
            8u8
        }
    } else if st == 6 || st == 7 {
        if digit {
            7u8
        } else {
            8u8
        }
    } else {
        8u8
    }
}

pub open spec fn num_run(s: Seq<u8>) -> u8
    decreases s.len(),
{
    if s.len() == 0 {
        0u8
    } else {
        num_step(num_run(s.drop_last()), s.last())
    }
}

/// Whether the bytes spell a finite decimal number the output format can
/// hold. `NaN`, `inf` and the empty string are refused.
pub open spec fn is_number_text(s: Seq<u8>) -> bool {
    num_run(s) == 2 || num_run(s) == 4 || num_run(s) == 7
}

/// Runs the number automaton.
pub fn check_number_text(s: &[u8]) -> (r: bool)
    ensures
        r == is_number_text(s@),
{
    let mut st: u8 = 0;
    let mut i: usize = 0;
    while i < s.len()
        invariant
            i <= s@.len(),
            st == num_run(s@.take(i as int)),
        decreases s@.len() - i,
    {
        let b = s[i];
        let digit = 48 <= b && b <= 57;
        st = if st == 0 {
            if b == 45 {
                1
            } else if digit {
                2
            } else {
                8
            }
        } else if st == 1 {
            if digit {
                2
            } else {
                8
            }
        } else if st == 2 {
            if digit {
                2
            } else if b == 46 {
                3
            } else if b == 101 || b == 69 {
                5
            } else {
                8
            }
        } else if st == 3 {
            if digit {
                4
            } else {
                8
            }
        } else if st == 4 {
            if digit {
                4
            } else if b == 101 || b == 69 {
                5
            } else {
                8
            }
        } else if st == 5 {
            if b == 43 || b == 45 {
                6
            } else if digit {
                7
            } else {
                8
            }
        } else if st == 6 || st == 7 {
            if digit {
                7
            } else {
                8
            }
        } else {
            8
        };
        proof {
            assert(s@.take(i + 1).drop_last() =~= s@.take(i as int));
        }
        i = i + 1;
    }
    proof {
        assert(s@.take(s@.len() as int) =~= s@);
    }
    st == 2 || st == 4 || st == 7
}

/// A typed cell value. Numbers and formula texts are held as their byte
/// rendering; strings are indices into the workbook's shared string table.
#[derive(Debug)]
pub enum CellValue {
    Number(Vec<u8>),
    SharedString(usize),
    Formula(Vec<u8>, Option<Vec<u8>>),
    Boolean(bool),
    Blank,
}

pub enum CellValueV {
    Number(Seq<u8>),
    SharedString(usize),
    Formula(Seq<u8>, Option<Seq<u8>>),
    Boolean(bool),
    Blank,
}

impl View for CellValue {
    type V = CellValueV;

    open spec fn view(&self) -> CellValueV {
        match self {
            CellValue::Number(t) => CellValueV::Number(t@),
            CellValue::SharedString(i) => CellValueV::SharedString(*i),
            CellValue::Formula(f, c) => CellValueV::Formula(
                f@,
                match c {
                    Some(v) => Some(v@),
                    None => None,
                },
            ),
            CellValue::Boolean(b) => CellValueV::Boolean(*b),
            CellValue::Blank => CellValueV::Blank,
        }
    }
}

/// A cell: its value and an optional format registry index.
#[derive(Debug)]
pub struct Cell {
    pub value: CellValue,
    pub format: Option<u32>,
}

pub struct CellV {
    pub value: CellValueV,
    pub format: Option<u32>,
}

impl View for Cell {
    type V = CellV;

    open spec fn view(&self) -> CellV {
        CellV { value: self.value@, format: self.format }
    }
}

/// Metadata set on a whole row: height in points, hidden, default format.
#[derive(Debug, Clone, Copy)]
pub struct RowProps {
    pub height: Option<u16>,
    pub hidden: bool,
    pub format: Option<u32>,
}

/// Metadata set on a column range: width in characters, hidden, format.
#[derive(Debug, Clone, Copy)]
pub struct ColProps {
    pub last_col: u16,
    pub width: Option<u16>,
    pub hidden: bool,
    pub format: Option<u32>,
}

impl View for ColProps {
    type V = ColProps;

    open spec fn view(&self) -> ColProps {
        *self
    }
}

/// One slot of the grid: a row's metadata or a cell.
#[derive(Debug)]
pub enum Entry {
    Props(RowProps),
    Cell(Cell),
}

pub enum EntryV {
    Props(RowProps),
    Cell(CellV),
}

impl View for Entry {
    type V = EntryV;

    open spec fn view(&self) -> EntryV {
        match self {
            Entry::Props(p) => EntryV::Props(*p),
            Entry::Cell(c) => EntryV::Cell(c@),
        }
    }
}

/// A merged rectangle, anchored at its top-left cell.
#[derive(Debug, Clone, Copy, PartialEq, Eq, Structural)]
pub struct Merge {
    pub r1: u32,
    pub c1: u16,
    pub r2: u32,
    pub c2: u16,
}

/// Whether the merge covers the position.
pub open spec fn covers(m: Merge, row: nat, col: nat) -> bool {
    m.r1 <= row <= m.r2 && m.c1 <= col <= m.c2
}

/// Whether a position sits under one of the merges without being its
/// anchor.
pub open spec fn merge_conflict(ms: Seq<Merge>, row: nat, col: nat) -> bool {
    exists|i: int|
        0 <= i < ms.len() && covers(#[trigger] ms[i], row, col) && !(ms[i].r1 == row && ms[i].c1
            == col)
}

/// Whether two merges share any cell.
pub open spec fn overlaps(a: Merge, b: Merge) -> bool {
    !(a.r2 < b.r1 || b.r2 < a.r1 || a.c2 < b.c1 || b.c2 < a.c1)
}

pub open spec fn overlaps_any(ms: Seq<Merge>, m: Merge) -> bool {
    exists|i: int| 0 <= i < ms.len() && overlaps(#[trigger] ms[i], m)
}

/// A data validation rule attached to a rectangle. `kind` names the rule
/// type of the output schema (1 whole number, 2 decimal, 3 list, 4 date,
/// 5 time, 6 text length, 7 custom); the formulas are stored verbatim.
#[derive(Debug)]
pub struct Validation {
    pub r1: u32,
    pub c1: u16,
    pub r2: u32,
    pub c2: u16,
    pub kind: u8,
    pub formula1: Vec<u8>,
    pub formula2: Option<Vec<u8>>,
}

pub struct ValidationV {
    pub r1: u32,
    pub c1: u16,
    pub r2: u32,
    pub c2: u16,
    pub kind: u8,
    pub formula1: Seq<u8>,
    pub formula2: Option<Seq<u8>>,
}

impl View for Validation {
    type V = ValidationV;

    open spec fn view(&self) -> ValidationV {
        ValidationV {
            r1: self.r1,
            c1: self.c1,
            r2: self.r2,
            c2: self.c2,
            kind: self.kind,
            formula1: self.formula1@,
            formula2: match &self.formula2 {
                Some(f) => Some(f@),
                None => None,
            },
        }
    }
}

/// One worksheet.
pub struct Worksheet {
    pub name: Vec<u8>,
    pub grid: SortedMap<Entry>,
    pub merges: Vec<Merge>,
    pub cols: SortedMap<ColProps>,
    pub validations: Vec<Validation>,
    pub freeze: Option<(u32, u16)>,
    pub selection: Option<(u32, u16, u32, u16)>,
}

impl Worksheet {
    /// Row-metadata slots hold row properties; cell slots hold cells.
    pub open spec fn slot_kinds(g: Seq<(u64, EntryV)>) -> bool {
        forall|i: int| 0 <= i < g.len() ==> (((#[trigger] g[i]).0 % 16385 == 0) <==> g[i].1 is Props)
    }

    pub open spec fn wf(&self) -> bool {
        &&& self.grid.wf()
        &&& self.cols.wf()
        &&& forall|i: int|
            0 <= i < self.grid@.len() ==> (#[trigger] self.grid@[i]).0 < GRID_KEY_BOUND
        &&& Worksheet::slot_kinds(self.grid@)
        &&& forall|i: int| 0 <= i < self.cols@.len() ==> (#[trigger] self.cols@[i]).0 < 16384
    }

    pub open spec fn spec_name(&self) -> Seq<u8> {
        self.name@
    }

    /// The cell stored at a position, if any.
    pub open spec fn spec_cell(&self, row: nat, col: nat) -> Option<CellV> {
        match seq_get(self.grid@, spec_cell_key(row, col)) {
            Some(EntryV::Cell(c)) => Some(c),
            _ => None,
        }
    }

    pub open spec fn spec_merges(&self) -> Seq<Merge> {
        self.merges@
    }

    pub(crate) fn new_sheet(name: Vec<u8>) -> (r: Worksheet)
        ensures
            r.wf(),
            r.spec_name() == name@,
            r.grid@ == Seq::<(u64, EntryV)>::empty(),
            r.merges@ == Seq::<Merge>::empty(),
            r.cols@ == Seq::<(u64, ColProps)>::empty(),
            r.validations@ == Seq::<Validation>::empty(),
            r.freeze is None,
            r.selection is None,
    {
        Worksheet {
            name,
            grid: SortedMap::new(),
            merges: Vec::new(),
            cols: SortedMap::new(),
            validations: Vec::new(),
            freeze: None,
            selection: None,
        }
    }

    /// Whether (row, col) lies under a merge other than as its anchor.
    pub(crate) fn check_merge_conflict(&self, row: u32, col: u16) -> (r: bool)
        ensures
            r == merge_conflict(self.merges@, row as nat, col as nat),
    {
        let mut i: usize = 0;
        while i < self.merges.len()
            invariant
                i <= self.merges@.len(),
                forall|j: int|
                    0 <= j < i ==> !(covers(#[trigger] self.merges@[j], row as nat, col as nat) && !(
                    self.merges@[j].r1 == row && self.merges@[j].c1 == col)),
            decreases self.merges@.len() - i,
        {
            let m = self.merges[i];
            if m.r1 <= row && row <= m.r2 && m.c1 <= col && col <= m.c2 && !(m.r1 == row && m.c1
                == col) {
                return true;
            }
            i = i + 1;
        }
        false
    }

    /// Writes a cell, last write winning; refuses positions out of bounds
    /// and positions covered by a merge other than its anchor.
    pub(crate) fn write_cell(&mut self, row: u32, col: u16, cell: Cell) -> (r: Result<
        (),
        XlsxError,
    >)
        requires
            old(self).wf(),
        ensures
            final(self).wf(),
            final(self).name@ == old(self).name@,
            final(self).merges@ == old(self).merges@,
            final(self).cols@ == old(self).cols@,
            final(self).validations@ == old(self).validations@,
            final(self).freeze == old(self).freeze,
            final(self).selection == old(self).selection,
            match r {
                Ok(()) => {
                    &&& row < MAX_ROWS && col < MAX_COLS
                    &&& !merge_conflict(old(self).merges@, row as nat, col as nat)
                    &&& final(self).grid@ == spec_set(
                        old(self).grid@,
                        spec_cell_key(row as nat, col as nat),
                        EntryV::Cell(cell@),
                    )
                    &&& final(self).spec_cell(row as nat, col as nat) == Some(cell@)
                    &&& forall|r2: nat, c2: nat|
                        !(r2 == row && c2 == col) && r2 < MAX_ROWS && c2 < MAX_COLS
                            ==> #[trigger] final(self).spec_cell(r2, c2) == old(self).spec_cell(
                            r2,
                            c2,
                        )
                },
                Err(e) => {
                    &&& *final(self) == *old(self)
                    &&& final(self).grid@ == old(self).grid@
                    &&& (e == XlsxError::InvalidCoordinate <==> (row >= MAX_ROWS || col
                        >= MAX_COLS))
                    &&& (e == XlsxError::MergedCellConflict <==> (row < MAX_ROWS && col < MAX_COLS
                        && merge_conflict(old(self).merges@, row as nat, col as nat)))
                    &&& (e == XlsxError::InvalidCoordinate || e == XlsxError::MergedCellConflict)
                },
            },
    {
        if row >= MAX_ROWS || col >= MAX_COLS {
            return Err(XlsxError::InvalidCoordinate);
        }
        if self.check_merge_conflict(row, col) {
            return Err(XlsxError::MergedCellConflict);
        }
        let key: u64 = (row as u64) * 16385 + (col as u64) + 1;
        proof {
            assert(key == spec_cell_key(row as nat, col as nat));
        }
        self.grid.set(key, Entry::Cell(cell));
        proof {
            let pre = old(self).grid@;
            let post = self.grid@;
            assert forall|i: int|
                0 <= i < post.len() implies (#[trigger] post[i]).0 < GRID_KEY_BOUND by {
                crate::sortedmap::lemma_set_keys(
                    pre,
                    key,
                    EntryV::Cell(cell@),
                    GRID_KEY_BOUND,
                );
            }
            assert(key % 16385 == col as nat + 1) by (nonlinear_arith)
                requires
                    col < 16384,
                    row < 1048576,
                    key == row as nat * 16385 + col as nat + 1,
            ;
            crate::sortedmap::lemma_set_all(
                pre,
                key,
                EntryV::Cell(cell@),
                |p: (u64, EntryV)| (p.0 % 16385 == 0) <==> p.1 is Props,
            );
            assert(Worksheet::slot_kinds(post));
            lemma_get_set(pre, key, EntryV::Cell(cell@), key);
            assert forall|r2: nat, c2: nat|
                !(r2 == row && c2 == col) && r2 < MAX_ROWS && c2 < MAX_COLS implies self.spec_cell(
                r2,
                c2,
            ) == old(self).spec_cell(r2, c2) by {
                lemma_get_set(pre, key, EntryV::Cell(cell@), spec_cell_key(r2, c2));
                assert(spec_cell_key(r2, c2) != key) by (nonlinear_arith)
                    requires
                        !(r2 == row as nat && c2 == col as nat),
                        r2 < 1048576,
                        c2 < 16384,
                        row < 1048576,
                        col < 16384,
                        key == row as nat * 16385 + col as nat + 1,
                ;
            }
        }
        Ok(())
    }

    /// A borrow of the cell at a position, if one was written.
    pub fn get_cell(&self, row: u32, col: u16) -> (r: Option<&Cell>)
        requires
            self.wf(),
            row < MAX_ROWS,
            col < MAX_COLS,
        ensures
            match r {
                Some(c) => self.spec_cell(row as nat, col as nat) == Some(c@),
                None => self.spec_cell(row as nat, col as nat) is None,
            },
    {
        let key: u64 = (row as u64) * 16385 + (col as u64) + 1;
        proof {
            assert(key == spec_cell_key(row as nat, col as nat));
        }
        match self.grid.get(key) {
            Some(e) => match e {
                Entry::Cell(c) => Some(c),
                Entry::Props(_) => None,
            },
            None => None,
        }
    }

    /// Sets height, visibility and default format of one row.
    pub(crate) fn set_row_props(&mut self, row: u32, props: RowProps) -> (r: Result<(), XlsxError>)
        requires
            old(self).wf(),
        ensures
            final(self).wf(),
            final(self).name@ == old(self).name@,
            final(self).merges@ == old(self).merges@,
            final(self).cols@ == old(self).cols@,
            final(self).validations@ == old(self).validations@,
            final(self).freeze == old(self).freeze,
            final(self).selection == old(self).selection,
            match r {
                Ok(()) => {
                    &&& row < MAX_ROWS
                    &&& final(self).grid@ == spec_set(
                        old(self).grid@,
                        spec_row_key(row as nat),
                        EntryV::Props(props),
                    )
                    &&& forall|r2: nat, c2: nat|
                        r2 < MAX_ROWS && c2 < MAX_COLS ==> #[trigger] final(self).spec_cell(r2, c2)
                            == old(self).spec_cell(r2, c2)
                },
                Err(e) => {
                    &&& *final(self) == *old(self)
                    &&& final(self).grid@ == old(self).grid@
                    &&& e == XlsxError::InvalidCoordinate
                    &&& row >= MAX_ROWS
                },
            },
    {
        if row >= MAX_ROWS {
            return Err(XlsxError::InvalidCoordinate);
        }
        let key: u64 = (row as u64) * 16385;
        proof {
            assert(key == spec_row_key(row as nat));
        }
        self.grid.set(key, Entry::Props(props));
        proof {
            let pre = old(self).grid@;
            let post = self.grid@;
            assert forall|i: int|
                0 <= i < post.len() implies (#[trigger] post[i]).0 < GRID_KEY_BOUND by {
                crate::sortedmap::lemma_set_keys(pre, key, EntryV::Props(props), GRID_KEY_BOUND);
            }
            assert(key % 16385 == 0) by (nonlinear_arith)
                requires
                    key == row as nat * 16385,
            ;
            crate::sortedmap::lemma_set_all(
                pre,
                key,
                EntryV::Props(props),
                |p: (u64, EntryV)| (p.0 % 16385 == 0) <==> p.1 is Props,
            );
            assert(Worksheet::slot_kinds(post));
            assert forall|r2: nat, c2: nat|
                r2 < MAX_ROWS && c2 < MAX_COLS implies #[trigger] self.spec_cell(r2, c2) == old(
                self,
            ).spec_cell(r2, c2) by {
                lemma_get_set(pre, key, EntryV::Props(props), spec_cell_key(r2, c2));
                let k2 = r2 * 16385 + c2 + 1;
                assert(k2 != row as nat * 16385) by (nonlinear_arith)
                    requires
                        r2 < 1048576,
                        c2 < 16384,
                        k2 == r2 * 16385 + c2 + 1,
                ;
                assert(spec_cell_key(r2, c2) != key);
            }
        }
        Ok(())
    }

    /// Sets width, visibility and default format of a run of columns.
    pub(crate) fn set_col_props(&mut self, first: u16, props: ColProps) -> (r: Result<
        (),
        XlsxError,
    >)
        requires
            old(self).wf(),
        ensures
            final(self).wf(),
            final(self).name@ == old(self).name@,
            final(self).grid@ == old(self).grid@,
            final(self).merges@ == old(self).merges@,
            final(self).validations@ == old(self).validations@,
            final(self).freeze == old(self).freeze,
            final(self).selection == old(self).selection,
            match r {
                Ok(()) => {
                    &&& first <= props.last_col < MAX_COLS
                    &&& final(self).cols@ == spec_set(old(self).cols@, first as u64, props)
                },
                Err(e) => {
                    &&& *final(self) == *old(self)
                    &&& final(self).cols@ == old(self).cols@
                    &&& e == XlsxError::InvalidCoordinate
                    &&& !(first <= props.last_col < MAX_COLS)
                },
            },
    {
        if !(first <= props.last_col && props.last_col < MAX_COLS) {
            return Err(XlsxError::InvalidCoordinate);
        }
        self.cols.set(first as u64, props);
        proof {
            crate::sortedmap::lemma_set_keys(old(self).cols@, first as u64, props, 16384);
        }
        Ok(())
    }

    /// Freezes the panes above and left of the given cell.
    pub(crate) fn freeze_at(&mut self, row: u32, col: u16) -> (r: Result<(), XlsxError>)
        requires
            old(self).wf(),
        ensures
            final(self).wf(),
            final(self).name@ == old(self).name@,
            final(self).grid@ == old(self).grid@,
            final(self).merges@ == old(self).merges@,
            final(self).cols@ == old(self).cols@,
            final(self).validations@ == old(self).validations@,
            final(self).selection == old(self).selection,
            match r {
                Ok(()) => row < MAX_ROWS && col < MAX_COLS && final(self).freeze == Some(
                    (row, col),
                ),
                Err(e) => {
                    &&& *final(self) == *old(self)
                    &&& final(self).freeze == old(self).freeze
                    &&& e == XlsxError::InvalidCoordinate
                    &&& (row >= MAX_ROWS || col >= MAX_COLS)
                },
            },
    {
        if row >= MAX_ROWS || col >= MAX_COLS {
            return Err(XlsxError::InvalidCoordinate);
        }
        self.freeze = Some((row, col));
        Ok(())
    }

    /// Selects a rectangle; the active cell is its top-left corner.
    pub(crate) fn select(&mut self, r1: u32, c1: u16, r2: u32, c2: u16) -> (r: Result<
        (),
        XlsxError,
    >)
        requires
            old(self).wf(),
        ensures
            final(self).wf(),
            final(self).name@ == old(self).name@,
            final(self).grid@ == old(self).grid@,
            final(self).merges@ == old(self).merges@,
            final(self).cols@ == old(self).cols@,
            final(self).validations@ == old(self).validations@,
            final(self).freeze == old(self).freeze,
            match r {
                Ok(()) => {
                    &&& r1 <= r2 && c1 <= c2 && r2 < MAX_ROWS && c2 < MAX_COLS
                    &&& final(self).selection == Some((r1, c1, r2, c2))
                },
                Err(e) => {
                    &&& *final(self) == *old(self)
                    &&& final(self).selection == old(self).selection
                    &&& e == XlsxError::InvalidCoordinate
                    &&& !(r1 <= r2 && c1 <= c2 && r2 < MAX_ROWS && c2 < MAX_COLS)
                },
            },
    {
        if !(r1 <= r2 && c1 <= c2 && r2 < MAX_ROWS && c2 < MAX_COLS) {
            return Err(XlsxError::InvalidCoordinate);
        }
        self.selection = Some((r1, c1, r2, c2));
        Ok(())
    }

    /// Attaches a data validation rule to a rectangle.
    pub(crate) fn push_validation(&mut self, v: Validation) -> (r: Result<(), XlsxError>)
        requires
            old(self).wf(),
        ensures
            final(self).wf(),
            final(self).name@ == old(self).name@,
            final(self).grid@ == old(self).grid@,
            final(self).merges@ == old(self).merges@,
            final(self).cols@ == old(self).cols@,
            final(self).freeze == old(self).freeze,
            final(self).selection == old(self).selection,
            match r {
                Ok(()) => {
                    &&& v.r1 <= v.r2 && v.c1 <= v.c2 && v.r2 < MAX_ROWS && v.c2 < MAX_COLS
                    &&& final(self).validations@.len() == old(self).validations@.len() + 1
                    &&& final(self).validations@.last()@ == v@
                    &&& forall|i: int|
                        0 <= i < old(self).validations@.len() ==> final(self).validations@[i]@
                            == #[trigger] old(self).validations@[i]@
                },
                Err(e) => {
                    &&& *final(self) == *old(self)
                    &&& final(self).validations@ == old(self).validations@
                    &&& e == XlsxError::InvalidCoordinate
                    &&& !(v.r1 <= v.r2 && v.c1 <= v.c2 && v.r2 < MAX_ROWS && v.c2 < MAX_COLS)
                },
            },
    {
        if !(v.r1 <= v.r2 && v.c1 <= v.c2 && v.r2 < MAX_ROWS && v.c2 < MAX_COLS) {
            return Err(XlsxError::InvalidCoordinate);
        }
        self.validations.push(v);
        Ok(())
    }

    /// Records a merged rectangle; refuses malformed or out-of-bounds
    /// rectangles and any overlap with an existing merge.
    pub(crate) fn merge_cells(&mut self, r1: u32, c1: u16, r2: u32, c2: u16) -> (r: Result<
        (),
        XlsxError,
    >)
        requires
            old(self).wf(),
        ensures
            final(self).wf(),
            final(self).name@ == old(self).name@,
            final(self).grid@ == old(self).grid@,
            final(self).cols@ == old(self).cols@,
            final(self).validations@ == old(self).validations@,
            final(self).freeze == old(self).freeze,
            final(self).selection == old(self).selection,
            match r {
                Ok(()) => {
                    &&& r1 <= r2 && c1 <= c2 && r2 < MAX_ROWS && c2 < MAX_COLS
                    &&& !overlaps_any(old(self).merges@, Merge { r1, c1, r2, c2 })
                    &&& final(self).merges@ == old(self).merges@.push(Merge { r1, c1, r2, c2 })
                },
                Err(e) => {
                    &&& *final(self) == *old(self)
                    &&& final(self).merges@ == old(self).merges@
                    &&& (e == XlsxError::InvalidCoordinate <==> !(r1 <= r2 && c1 <= c2 && r2
                        < MAX_ROWS && c2 < MAX_COLS))
                    &&& (e == XlsxError::OverlappingMerge <==> (r1 <= r2 && c1 <= c2 && r2
                        < MAX_ROWS && c2 < MAX_COLS && overlaps_any(
                        old(self).merges@,
                        Merge { r1, c1, r2, c2 },
                    )))
                    &&& (e == XlsxError::InvalidCoordinate || e == XlsxError::OverlappingMerge)
                },
            },
    {
        if !(r1 <= r2 && c1 <= c2 && r2 < MAX_ROWS && c2 < MAX_COLS) {
            return Err(XlsxError::InvalidCoordinate);
        }
        let m = Merge { r1, c1, r2, c2 };
        let mut clash = false;
        let mut i: usize = 0;
        while !clash && i < self.merges.len()
            invariant
                i <= self.merges@.len(),
                m == (Merge { r1, c1, r2, c2 }),
                clash ==> overlaps_any(self.merges@, m),
                !clash ==> forall|j: int| 0 <= j < i ==> !overlaps(#[trigger] self.merges@[j], m),
            decreases self.merges@.len() - i,
        {
            let e = self.merges[i];
            if !(e.r2 < m.r1 || m.r2 < e.r1 || e.c2 < m.c1 || m.c2 < e.c1) {
                clash = true;
            }
            i = i + 1;
        }
        if clash {
            return Err(XlsxError::OverlappingMerge);
        }
        self.merges.push(m);
        Ok(())
    }
}

} // verus!
