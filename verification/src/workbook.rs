//! The workbook: the ordered worksheets, the format registry and the shared
//! string table, with the open/closed lifecycle. Every write threads through
//! the one registry and the one string table the workbook owns.

use vstd::prelude::*;
use vstd::string::StringSliceAdditionalSpecFns;
use crate::XlsxError;
use crate::intern::ByteInterner;
use crate::sheet::{
    Cell, CellV, CellValue, CellValueV, ColProps, EntryV, Merge, RowProps, Validation, Worksheet,
    MAX_COLS, MAX_ROWS, check_number_text, is_number_text, merge_conflict, spec_cell_key,
};
use crate::sortedmap::{seq_get, spec_set};
use crate::style::{Format, FormatRegistry, MAX_FORMATS};
use crate::bytes::{
    dec_of, eq_case_insensitive, fold_bytes, lemma_dec_of_digits, lemma_dec_of_inj,
    lemma_dec_of_len, lemma_fold_app, lemma_fold_digits, lit, pow10, push_dec, push_lit,
};
use crate::xml::{
    app_xml, build_app, build_content_types, build_core, build_root_rels, build_sheet, build_sst,
    build_styles, build_wb_rels, build_workbook_xml, content_types_xml, core_xml, names_of,
    root_rels_xml, sheet_xml, sst_xml, styles_xml, validations_view, wb_rels_xml, workbook_xml,
};
use crate::zip::{Part, PartV, archive_fits, archive_of, build_archive, parts_view};

verus! {

/// A UTF-8 continuation byte.
pub open spec fn is_cont(b: u8) -> bool {
    b & 0xC0 == 0x80
}

/// The number of UTF-8 characters a byte sequence spells: one per
/// non-continuation byte.
pub open spec fn char_count(s: Seq<u8>) -> nat
    decreases s.len(),
{
    if s.len() == 0 {
        0
    } else {
        char_count(s.drop_last()) + (if is_cont(s.last()) {
            0nat
        } else {
            1nat
        })
    }
}

/// A byte a worksheet name may not hold: `[ ] : * ? / \`.
pub open spec fn forbidden_name_byte(b: u8) -> bool {
    b == 91 || b == 93 || b == 58 || b == 42 || b == 63 || b == 47 || b == 92
}

/// A legal worksheet name: nonempty, at most 31 characters, and free of
/// the forbidden characters.
pub open spec fn valid_sheet_name(s: Seq<u8>) -> bool {
    &&& s.len() > 0
    &&& char_count(s) <= 31
    &&& forall|i: int| 0 <= i < s.len() ==> !forbidden_name_byte(#[trigger] s[i])
}

fn check_sheet_name(s: &[u8]) -> (r: bool)
    ensures
        r == valid_sheet_name(s@),
{
    if s.len() == 0 {
        return false;
    }
    let mut count: usize = 0;
    let mut i: usize = 0;
    while i < s.len()
        invariant
            i <= s@.len(),
            count == char_count(s@.take(i as int)),
            count <= i,
            forall|j: int| 0 <= j < i ==> !forbidden_name_byte(#[trigger] s@[j]),
        decreases s@.len() - i,
    {
        let b = s[i];
        if b == 91 || b == 93 || b == 58 || b == 42 || b == 63 || b == 47 || b == 92 {
            return false;
        }
        if !(b & 0xC0 == 0x80) {
            count = count + 1;
        }
        proof {
            assert(s@.take(i + 1).drop_last() =~= s@.take(i as int));
        }
        i = i + 1;
    }
    proof {
        assert(s@.take(s@.len() as int) =~= s@);
    }
    count <= 31
}

/// Case-insensitive name uniqueness across the sheets.
pub open spec fn names_distinct(sheets: Seq<Worksheet>) -> bool {
    forall|i: int, j: int|
        #![trigger sheets[i], sheets[j]]
        0 <= i < j < sheets.len() ==> fold_bytes(sheets[i].name@) != fold_bytes(sheets[j].name@)
}

/// Whether some sheet already carries the name, up to ASCII case.
pub open spec fn name_taken(sheets: Seq<Worksheet>, name: Seq<u8>) -> bool {
    exists|j: int|
        0 <= j < sheets.len() && fold_bytes((#[trigger] sheets[j]).name@) == fold_bytes(name)
}

/// The name taken when no name is given: `Sheet` followed by a decimal
/// counter.
pub open spec fn auto_name(k: nat) -> Seq<u8> {
    lit("Sheet") + dec_of(k)
}

proof fn lemma_sheet_lit()
    ensures
        lit("Sheet") =~= seq![83u8, 104u8, 101u8, 101u8, 116u8],
{
    reveal_strlit("Sheet");
    assert("Sheet"@.len() == 5);
    assert("Sheet"@[0] == 'S' && "Sheet"@[1] == 'h' && "Sheet"@[2] == 'e' && "Sheet"@[3] == 'e'
        && "Sheet"@[4] == 't');
    assert(vstd::utf8::is_ascii_chars("Sheet"@));
    vstd::utf8::is_ascii_chars_encode_utf8("Sheet"@);
    assert(lit("Sheet") =~= seq![83u8, 104u8, 101u8, 101u8, 116u8]);
}

proof fn lemma_char_count_le(s: Seq<u8>)
    ensures
        char_count(s) <= s.len(),
    decreases s.len(),
{
    if s.len() > 0 {
        lemma_char_count_le(s.drop_last());
    }
}

/// Every auto-generated candidate is a legal sheet name.
proof fn lemma_auto_name_valid(k: nat)
    requires
        k <= 0x100000000,
    ensures
        valid_sheet_name(auto_name(k)),
{
    lemma_sheet_lit();
    lemma_dec_of_digits(k);
    assert(pow10(0) == 1);
    assert(pow10(1) == 10);
    assert(pow10(2) == 100);
    assert(pow10(3) == 1000);
    assert(pow10(4) == 10000);
    assert(pow10(5) == 100000);
    assert(pow10(6) == 1000000);
    assert(pow10(7) == 10000000);
    assert(pow10(8) == 100000000);
    assert(pow10(9) == 1000000000);
    assert(pow10(10) == 10000000000);
    lemma_dec_of_len(k, 10);
    lemma_char_count_le(auto_name(k));
    assert(auto_name(k).len() <= 15);
    assert forall|i: int| 0 <= i < auto_name(k).len() implies !forbidden_name_byte(
        #[trigger] auto_name(k)[i],
    ) by {
        if i < 5 {
            assert(auto_name(k)[i] == lit("Sheet")[i]);
        } else {
            assert(auto_name(k)[i] == dec_of(k)[i - 5]);
        }
    }
}

/// Distinct counters give candidates that differ even up to ASCII case.
proof fn lemma_auto_name_inj(a: nat, b: nat)
    requires
        fold_bytes(auto_name(a)) == fold_bytes(auto_name(b)),
    ensures
        a == b,
{
    lemma_sheet_lit();
    lemma_fold_app(lit("Sheet"), dec_of(a));
    lemma_fold_app(lit("Sheet"), dec_of(b));
    lemma_fold_digits(a);
    lemma_fold_digits(b);
    let fa = fold_bytes(auto_name(a));
    let fb = fold_bytes(auto_name(b));
    assert(fold_bytes(lit("Sheet")).len() == 5);
    assert(dec_of(a) =~= fa.subrange(5, fa.len() as int));
    assert(dec_of(b) =~= fb.subrange(5, fb.len() as int));
    lemma_dec_of_inj(a, b);
}

/// An injection from `m` indices into `n` slots needs `m <= n`.
proof fn lemma_pigeonhole(f: spec_fn(int) -> int, m: int, n: int)
    requires
        0 <= n,
        forall|i: int| 0 <= i < m ==> 0 <= #[trigger] f(i) < n,
        forall|i: int, j: int| #![trigger f(i), f(j)] 0 <= i < j < m ==> f(i) != f(j),
    ensures
        m <= n,
    decreases n,
{
    if m > n {
        if n == 0 {
            let x = f(0);
            assert(0 <= x < n);
        } else if exists|i: int| 0 <= i < m && #[trigger] f(i) == n - 1 {
            let i0 = choose|i: int| 0 <= i < m && #[trigger] f(i) == n - 1;
            let g = |j: int|
                if j < i0 {
                    f(j)
                } else {
                    f(j + 1)
                };
            assert forall|j: int| 0 <= j < m - 1 implies 0 <= #[trigger] g(j) < n - 1 by {
                if j < i0 {
                    assert(f(j) != f(i0));
                } else {
                    assert(f(j + 1) != f(i0));
                }
            }
            assert forall|j1: int, j2: int|
                #![trigger g(j1), g(j2)]
                0 <= j1 < j2 < m - 1 implies g(j1) != g(j2) by {
                if j1 < i0 && j2 < i0 {
                    assert(f(j1) != f(j2));
                } else if j1 < i0 {
                    assert(f(j1) != f(j2 + 1));
                } else {
                    assert(f(j1 + 1) != f(j2 + 1));
                }
            }
            lemma_pigeonhole(g, m - 1, n - 1);
        } else {
            assert forall|i: int| 0 <= i < m implies 0 <= #[trigger] f(i) < n - 1 by {
                assert(f(i) != n - 1);
            }
            lemma_pigeonhole(f, m, n - 1);
        }
    }
}

/// A format argument that a full registry must refuse: a descriptor is
/// given, the registry is at its cap, and the descriptor is not already
/// registered.
pub open spec fn format_overflow(formats: Seq<Format>, fmt: Option<&Format>) -> bool {
    match fmt {
        Some(f) => formats.len() >= MAX_FORMATS && (forall|i: int|
            0 <= i < formats.len() ==> formats[i] != *f),
        None => false,
    }
}

/// The workbook.
pub struct Workbook {
    pub sheets: Vec<Worksheet>,
    pub formats: FormatRegistry,
    pub strings: ByteInterner,
    pub closed: bool,
}

impl Workbook {
    pub open spec fn wf(&self) -> bool {
        &&& self.formats.wf()
        &&& self.strings.wf()
        &&& forall|i: int|
            0 <= i < self.sheets@.len() ==> (#[trigger] self.sheets@[i]).wf() && valid_sheet_name(
                self.sheets@[i].name@,
            )
        &&& names_distinct(self.sheets@)
    }

    /// A fresh, open, empty workbook.
    pub fn new() -> (r: Workbook)
        ensures
            r.wf(),
            !r.closed,
            r.sheets@.len() == 0,
            r.formats@ == Seq::<Format>::empty(),
            r.strings@ == Seq::<Seq<u8>>::empty(),
    {
        Workbook {
            sheets: Vec::new(),
            formats: FormatRegistry::new(),
            strings: ByteInterner::new(),
            closed: false,
        }
    }

    pub fn sheet_count(&self) -> (r: usize)
        ensures
            r == self.sheets@.len(),
    {
        self.sheets.len()
    }

    pub fn string_count(&self) -> (r: usize)
        ensures
            r == self.strings@.len(),
    {
        self.strings.len()
    }

    pub fn format_count(&self) -> (r: usize)
        ensures
            r == self.formats@.len(),
    {
        self.formats.len()
    }

    /// A borrow of a worksheet, for reading cells back.
    pub fn sheet(&self, sheet: usize) -> (r: &Worksheet)
        requires
            sheet < self.sheets@.len(),
        ensures
            *r == self.sheets@[sheet as int],
    {
        &self.sheets[sheet]
    }

    fn find_name(&self, name: &[u8]) -> (r: bool)
        ensures
            r == name_taken(self.sheets@, name@),
    {
        let mut j: usize = 0;
        while j < self.sheets.len()
            invariant
                j <= self.sheets@.len(),
                forall|i: int|
                    0 <= i < j ==> fold_bytes((#[trigger] self.sheets@[i]).name@) != fold_bytes(
                        name@,
                    ),
            decreases self.sheets@.len() - j,
        {
            if eq_case_insensitive(self.sheets[j].name.as_slice(), name) {
                return true;
            }
            j = j + 1;
        }
        false
    }

    /// Adds a worksheet. An explicit name must be legal and new; with no
    /// name the first free `SheetN` is taken. The new sheet's index is
    /// returned.
    pub fn add_worksheet(&mut self, name: Option<&str>) -> (r: Result<usize, XlsxError>)
        requires
            old(self).wf(),
        ensures
            final(self).wf(),
            final(self).closed == old(self).closed,
            final(self).formats@ == old(self).formats@,
            final(self).strings@ == old(self).strings@,
            match r {
                Ok(id) => {
                    &&& !old(self).closed
                    &&& id == old(self).sheets@.len()
                    &&& final(self).sheets@.len() == old(self).sheets@.len() + 1
                    &&& forall|i: int|
                        0 <= i < old(self).sheets@.len() ==> final(self).sheets@[i] == #[trigger] old(self).sheets@[i]
                    &&& final(self).sheets@.last().grid@ == Seq::<(u64, EntryV)>::empty()
                    &&& final(self).sheets@.last().merges@ == Seq::<Merge>::empty()
                    &&& valid_sheet_name(final(self).sheets@.last().name@)
                    &&& !name_taken(old(self).sheets@, final(self).sheets@.last().name@)
                    &&& (name matches Some(n) ==> final(self).sheets@.last().name@ == lit(n))
                    &&& (name is None ==> exists|k: nat|
                        1 <= k <= old(self).sheets@.len() + 1 && final(self).sheets@.last().name@
                            == #[trigger] auto_name(k))
                },
                Err(e) => {
                    &&& final(self).sheets@ == old(self).sheets@
                    &&& (e == XlsxError::WorkbookClosed <==> old(self).closed)
                    &&& (name matches Some(n) ==> (e == XlsxError::InvalidSheetName <==> (!old(self).closed && !valid_sheet_name(lit(n)))))
                    &&& (name matches Some(n) ==> (e == XlsxError::DuplicateSheetName <==> (!old(self).closed && valid_sheet_name(lit(n)) && name_taken(old(self).sheets@, lit(n)))))
                    &&& (name matches Some(n) ==> (e == XlsxError::WorkbookClosed || e
                        == XlsxError::InvalidSheetName || e == XlsxError::DuplicateSheetName))
                    &&& (name is None ==> (e == XlsxError::WorkbookClosed || e
                        == XlsxError::DuplicateSheetName))
                },
            },
            (name is None && !old(self).closed && old(self).sheets@.len() < 0xFFFFFFFF) ==> r
                is Ok,
    {
        if self.closed {
            return Err(XlsxError::WorkbookClosed);
        }
        let bytes: Vec<u8> = match name {
            Some(n) => {
                let b = vstd::slice::slice_to_vec(n.as_bytes());
                if !check_sheet_name(b.as_slice()) {
                    return Err(XlsxError::InvalidSheetName);
                }
                if self.find_name(b.as_slice()) {
                    return Err(XlsxError::DuplicateSheetName);
                }
                b
            },
            None => {
                if self.sheets.len() >= 0xFFFFFFFF {
                    // Far beyond what the output format can hold; gives the
                    // candidate counter room.
                    return Err(XlsxError::DuplicateSheetName);
                }
                let mut found: Option<Vec<u8>> = None;
                let mut k: u64 = 1;
                let end: u64 = (self.sheets.len() as u64) + 1;
                while found.is_none() && k <= end
                    invariant
                        self.wf(),
                        end <= 0xFFFFFFFF,
                        end == self.sheets@.len() + 1,
                        1 <= k <= end + 1,
                        match found {
                            Some(b) => valid_sheet_name(b@) && !name_taken(self.sheets@, b@)
                                && exists|kk: nat|
                                1 <= kk <= end && b@ == #[trigger] auto_name(kk),
                            None => forall|m: nat|
                                1 <= m < k ==> name_taken(self.sheets@, #[trigger] auto_name(m)),
                        },
                    decreases end - k + 1,
                {
                    let mut cand: Vec<u8> = Vec::new();
                    push_lit(&mut cand, "Sheet");
                    push_dec(&mut cand, k);
                    proof {
                        assert(cand@ =~= auto_name(k as nat));
                    }
                    if !self.find_name(cand.as_slice()) {
                        proof {
                            lemma_auto_name_valid(k as nat);
                        }
                        found = Some(cand);
                    } else {
                        proof {
                            assert(name_taken(self.sheets@, auto_name(k as nat)));
                            assert forall|m: nat| 1 <= m < k + 1 implies name_taken(
                                self.sheets@,
                                #[trigger] auto_name(m),
                            ) by {
                                if m < k {
                                } else {
                                    assert(m == k as nat);
                                }
                            }
                        }
                    }
                    k = k + 1;
                }
                match found {
                    Some(b) => b,
                    None => {
                        proof {
                            // All of `Sheet1 .. Sheet(n+1)` taken: an
                            // injection of n + 1 candidates into n sheets.
                            let n = self.sheets@.len() as int;
                            let f = |i: int|
                                choose|j: int|
                                    0 <= j < n && fold_bytes(
                                        #[trigger] self.sheets@[j].name@,
                                    ) == fold_bytes(auto_name((i + 1) as nat));
                            assert forall|i: int| 0 <= i < n + 1 implies 0 <= #[trigger] f(i)
                                < n by {
                                assert(name_taken(self.sheets@, auto_name((i + 1) as nat)));
                                assert(exists|j: int|
                                    0 <= j < n && fold_bytes(#[trigger] self.sheets@[j].name@)
                                        == fold_bytes(auto_name((i + 1) as nat)));
                            }
                            assert forall|i: int, j2: int|
                                #![trigger f(i), f(j2)]
                                0 <= i < j2 < n + 1 implies f(i) != f(j2) by {
                                assert(name_taken(self.sheets@, auto_name((i + 1) as nat)));
                                assert(exists|j: int|
                                    0 <= j < n && fold_bytes(#[trigger] self.sheets@[j].name@)
                                        == fold_bytes(auto_name((i + 1) as nat)));
                                assert(name_taken(self.sheets@, auto_name((j2 + 1) as nat)));
                                assert(exists|j: int|
                                    0 <= j < n && fold_bytes(#[trigger] self.sheets@[j].name@)
                                        == fold_bytes(auto_name((j2 + 1) as nat)));
                                if f(i) == f(j2) {
                                    lemma_auto_name_inj((i + 1) as nat, (j2 + 1) as nat);
                                }
                            }
                            lemma_pigeonhole(f, n + 1, n);
                            assert(false);
                        }
                        return Err(XlsxError::DuplicateSheetName);
                    },
                }
            },
        };
        let id = self.sheets.len();
        let ws = Worksheet::new_sheet(bytes);
        self.sheets.push(ws);
        proof {
            assert forall|i: int, j: int|
                #![trigger self.sheets@[i], self.sheets@[j]]
                0 <= i < j < self.sheets@.len() implies fold_bytes(self.sheets@[i].name@)
                != fold_bytes(self.sheets@[j].name@) by {
                if j < old(self).sheets@.len() {
                    assert(old(self).sheets@[i] == self.sheets@[i]);
                    assert(old(self).sheets@[j] == self.sheets@[j]);
                } else {
                    assert(self.sheets@[j] == self.sheets@.last());
                }
            }
        }
        Ok(id)
    }

    /// Finalizes the workbook: locks it against further mutation, generates
    /// every part from the model and packages the archive. The first call on
    /// a non-empty workbook succeeds; a second call fails.
    #[verifier::rlimit(100)]
    #[verifier::spinoff_prover]
    pub fn close(&mut self) -> (r: Result<Vec<u8>, XlsxError>)
        requires
            old(self).wf(),
        ensures
            final(self).wf(),
            final(self).sheets@ == old(self).sheets@,
            final(self).formats@ == old(self).formats@,
            final(self).strings@ == old(self).strings@,
            match r {
                Ok(bytes) => {
                    &&& !old(self).closed
                    &&& old(self).sheets@.len() > 0
                    &&& final(self).closed
                    &&& bytes@ == workbook_archive(
                        old(self).sheets@,
                        old(self).formats@,
                        old(self).strings@,
                    )
                },
                Err(e) => {
                    &&& final(self).closed == old(self).closed
                    &&& (e == XlsxError::WorkbookClosed <==> old(self).closed)
                    &&& (e == XlsxError::EmptyWorkbook <==> (!old(self).closed && old(
                        self,
                    ).sheets@.len() == 0))
                    &&& (e == XlsxError::IoFailure ==> !archive_fits(
                        workbook_parts(old(self).sheets@, old(self).formats@, old(self).strings@),
                    ))
                    &&& (e == XlsxError::WorkbookClosed || e == XlsxError::EmptyWorkbook || e
                        == XlsxError::IoFailure)
                },
            },
    {
        if self.closed {
            return Err(XlsxError::WorkbookClosed);
        }
        if self.sheets.len() == 0 {
            return Err(XlsxError::EmptyWorkbook);
        }
        let ghost all = workbook_parts(self.sheets@, self.formats@, self.strings@);
        proof {
            self.formats.lemma_len_bound();
        }
        if self.sheets.len() >= 0xFFFF {
            proof {
                assert(all.len() == 8 + self.sheets@.len());
                assert(!archive_fits(all));
            }
            return Err(XlsxError::IoFailure);
        }
        let mut parts: Vec<Part> = Vec::new();
        let n = self.sheets.len();
        parts.push(Part { name: name_vec("[Content_Types].xml"), data: build_content_types(n) });
        parts.push(Part { name: name_vec("_rels/.rels"), data: build_root_rels() });
        parts.push(Part { name: name_vec("docProps/core.xml"), data: build_core() });
        parts.push(Part { name: name_vec("docProps/app.xml"), data: build_app() });
        parts.push(
            Part { name: name_vec("xl/workbook.xml"), data: build_workbook_xml(&self.sheets) },
        );
        parts.push(Part { name: name_vec("xl/_rels/workbook.xml.rels"), data: build_wb_rels(n) });
        parts.push(Part { name: name_vec("xl/styles.xml"), data: build_styles(&self.formats) });
        parts.push(Part { name: name_vec("xl/sharedStrings.xml"), data: build_sst(&self.strings) });
        proof {
            assert(parts_view(parts@) =~= fixed_parts(self.sheets@, self.formats@, self.strings@));
            assert(all.take(8) =~= fixed_parts(self.sheets@, self.formats@, self.strings@));
        }
        let mut i: usize = 0;
        while i < n
            invariant
                i <= n,
                self.wf(),
                n == self.sheets@.len(),
                n < 0xFFFF,
                all == workbook_parts(self.sheets@, self.formats@, self.strings@),
                all.len() == 8 + n,
                parts@.len() == 8 + i,
                parts_view(parts@) == all.take(8 + i),
            decreases n - i,
        {
            let mut name: Vec<u8> = Vec::new();
            push_lit(&mut name, "xl/worksheets/sheet");
            push_dec(&mut name, i as u64 + 1);
            push_lit(&mut name, ".xml");
            let data = build_sheet(&self.sheets[i]);
            parts.push(Part { name, data });
            proof {
                assert(parts_view(parts@)[8 + i as int] == sheet_part(self.sheets@, i as int));
                assert(all[8 + i as int] == sheet_part(self.sheets@, i as int));
                assert(parts_view(parts@) =~= all.take(8 + i + 1));
            }
            i = i + 1;
        }
        proof {
            assert(all.take(8 + n as int) =~= all);
        }
        match build_archive(&parts) {
            Ok(bytes) => {
                self.closed = true;
                Ok(bytes)
            },
            Err(e) => Err(e),
        }
    }

    /// The shared writing path: the lifecycle, coordinate and merge checks,
    /// the format registration, and the cell store.
    fn put_cell(&mut self, sheet: usize, row: u32, col: u16, value: CellValue, fmt: Option<&Format>)
        -> (r: Result<(), XlsxError>)
        requires
            old(self).wf(),
            sheet < old(self).sheets@.len(),
        ensures
            final(self).wf(),
            final(self).closed == old(self).closed,
            final(self).strings@ == old(self).strings@,
            final(self).sheets@.len() == old(self).sheets@.len(),
            forall|i: int|
                0 <= i < old(self).sheets@.len() && i != sheet ==> final(self).sheets@[i]
                    == #[trigger] old(self).sheets@[i],
            final(self).sheets@[sheet as int].name@ == old(self).sheets@[sheet as int].name@,
            final(self).sheets@[sheet as int].merges@ == old(self).sheets@[sheet as int].merges@,
            final(self).sheets@[sheet as int].cols@ == old(self).sheets@[sheet as int].cols@,
            match r {
                Ok(()) => {
                    &&& !old(self).closed
                    &&& row < MAX_ROWS && col < MAX_COLS
                    &&& !merge_conflict(
                        old(self).sheets@[sheet as int].merges@,
                        row as nat,
                        col as nat,
                    )
                    &&& (fmt is None ==> final(self).formats@ == old(self).formats@)
                    &&& (fmt matches Some(f) ==> (final(self).formats@ == old(self).formats@
                        || final(self).formats@ == old(self).formats@.push(*f)))
                    &&& exists|fid: Option<u32>|
                        {
                            &&& final(self).sheets@[sheet as int].grid@ == #[trigger] spec_set(
                                old(self).sheets@[sheet as int].grid@,
                                spec_cell_key(row as nat, col as nat),
                                EntryV::Cell(CellV { value: value@, format: fid }),
                            )
                            &&& (fmt is None ==> fid is None)
                            &&& (fmt matches Some(f) ==> fid matches Some(id) && id < final(self).formats@.len() && final(self).formats@[id as int] == *f)
                        }
                },
                Err(e) => {
                    &&& final(self).sheets@ == old(self).sheets@
                    &&& final(self).formats@ == old(self).formats@
                    &&& (e == XlsxError::WorkbookClosed <==> old(self).closed)
                    &&& (e == XlsxError::InvalidCoordinate <==> (!old(self).closed && (row
                        >= MAX_ROWS || col >= MAX_COLS)))
                    &&& (e == XlsxError::MergedCellConflict <==> (!old(self).closed && row
                        < MAX_ROWS && col < MAX_COLS && merge_conflict(
                        old(self).sheets@[sheet as int].merges@,
                        row as nat,
                        col as nat,
                    )))
                    &&& (e == XlsxError::TooManyFormats <==> (!old(self).closed && row < MAX_ROWS
                        && col < MAX_COLS && !merge_conflict(
                        old(self).sheets@[sheet as int].merges@,
                        row as nat,
                        col as nat,
                    ) && format_overflow(old(self).formats@, fmt)))
                    &&& (e == XlsxError::WorkbookClosed || e == XlsxError::InvalidCoordinate || e
                        == XlsxError::MergedCellConflict || e == XlsxError::TooManyFormats)
                },
            },
    {
        if self.closed {
            return Err(XlsxError::WorkbookClosed);
        }
        if row >= MAX_ROWS || col >= MAX_COLS {
            return Err(XlsxError::InvalidCoordinate);
        }
        if self.sheets[sheet].check_merge_conflict(row, col) {
            return Err(XlsxError::MergedCellConflict);
        }
        let ghost vspec = value@;
        match fmt {
            None => {
                let res = self.sheets[sheet].write_cell(row, col, Cell { value, format: None });
                match res {
                    Ok(()) => Ok(()),
                    Err(e) => {
                        proof {
                            assert(false);
                        }
                        Err(e)
                    },
                }
            },
            Some(f) => {
                match self.formats.register(*f) {
                    Err(e) => Err(e),
                    Ok(id) => {
                        let res = self.sheets[sheet].write_cell(
                            row,
                            col,
                            Cell { value, format: Some(id) },
                        );
                        match res {
                            Ok(()) => {
                                proof {
                                    assert(self.sheets@[sheet as int].grid@ == spec_set(
                                        old(self).sheets@[sheet as int].grid@,
                                        spec_cell_key(row as nat, col as nat),
                                        EntryV::Cell(CellV { value: vspec, format: Some(id) }),
                                    ));
                                    assert(self.formats@[id as int] == *f);
                                }
                                Ok(())
                            },
                            Err(e) => {
                                proof {
                                    assert(false);
                                }
                                Err(e)
                            },
                        }
                    },
                }
            },
        }
    }

    /// Writes a finite decimal number, given as its locale-independent
    /// decimal text.
    pub fn write_number(
        &mut self,
        sheet: usize,
        row: u32,
        col: u16,
        num: &str,
        fmt: Option<&Format>,
    ) -> (r: Result<(), XlsxError>)
        requires
            old(self).wf(),
            sheet < old(self).sheets@.len(),
        ensures
            final(self).wf(),
            final(self).closed == old(self).closed,
            final(self).strings@ == old(self).strings@,
            final(self).sheets@.len() == old(self).sheets@.len(),
            forall|i: int|
                0 <= i < old(self).sheets@.len() && i != sheet ==> final(self).sheets@[i]
                    == #[trigger] old(self).sheets@[i],
            match r {
                Ok(()) => {
                    &&& !old(self).closed
                    &&& row < MAX_ROWS && col < MAX_COLS
                    &&& is_number_text(lit(num))
                    &&& !merge_conflict(
                        old(self).sheets@[sheet as int].merges@,
                        row as nat,
                        col as nat,
                    )
                    &&& exists|fid: Option<u32>|
                        final(self).sheets@[sheet as int].grid@ == #[trigger] spec_set(
                            old(self).sheets@[sheet as int].grid@,
                            spec_cell_key(row as nat, col as nat),
                            EntryV::Cell(
                                CellV { value: CellValueV::Number(lit(num)), format: fid },
                            ),
                        )
                },
                Err(e) => {
                    &&& final(self).sheets@ == old(self).sheets@
                    &&& (e == XlsxError::WorkbookClosed <==> old(self).closed)
                    &&& (e == XlsxError::InvalidCoordinate <==> (!old(self).closed && (row
                        >= MAX_ROWS || col >= MAX_COLS)))
                    &&& (e == XlsxError::InvalidNumericValue <==> (!old(self).closed && row
                        < MAX_ROWS && col < MAX_COLS && !is_number_text(lit(num))))
                    &&& (e == XlsxError::MergedCellConflict <==> (!old(self).closed && row
                        < MAX_ROWS && col < MAX_COLS && is_number_text(lit(num)) && merge_conflict(
                        old(self).sheets@[sheet as int].merges@,
                        row as nat,
                        col as nat,
                    )))
                    &&& (e == XlsxError::TooManyFormats <==> (!old(self).closed && row < MAX_ROWS
                        && col < MAX_COLS && is_number_text(lit(num)) && !merge_conflict(
                        old(self).sheets@[sheet as int].merges@,
                        row as nat,
                        col as nat,
                    ) && format_overflow(old(self).formats@, fmt)))
                    &&& (e == XlsxError::WorkbookClosed || e == XlsxError::InvalidCoordinate || e
                        == XlsxError::InvalidNumericValue || e == XlsxError::MergedCellConflict
                        || e == XlsxError::TooManyFormats)
                },
            },
    {
        if self.closed {
            return Err(XlsxError::WorkbookClosed);
        }
        if row >= MAX_ROWS || col >= MAX_COLS {
            return Err(XlsxError::InvalidCoordinate);
        }
        if !check_number_text(num.as_bytes()) {
            return Err(XlsxError::InvalidNumericValue);
        }
        let text = vstd::slice::slice_to_vec(num.as_bytes());
        self.put_cell(sheet, row, col, CellValue::Number(text), fmt)
    }

    /// Writes a text cell: the text is interned in the shared string table
    /// and the cell stores its index.
    pub fn write_string(
        &mut self,
        sheet: usize,
        row: u32,
        col: u16,
        text: &str,
        fmt: Option<&Format>,
    ) -> (r: Result<(), XlsxError>)
        requires
            old(self).wf(),
            sheet < old(self).sheets@.len(),
        ensures
            final(self).wf(),
            final(self).closed == old(self).closed,
            final(self).sheets@.len() == old(self).sheets@.len(),
            forall|i: int|
                0 <= i < old(self).sheets@.len() && i != sheet ==> final(self).sheets@[i]
                    == #[trigger] old(self).sheets@[i],
            match r {
                Ok(()) => {
                    &&& !old(self).closed
                    &&& row < MAX_ROWS && col < MAX_COLS
                    &&& !merge_conflict(
                        old(self).sheets@[sheet as int].merges@,
                        row as nat,
                        col as nat,
                    )
                    &&& exists|sid: usize, fid: Option<u32>|
                        {
                            &&& sid < final(self).strings@.len()
                            &&& final(self).strings@[sid as int] == lit(text)
                            &&& (final(self).strings@ == old(self).strings@ || final(self).strings@
                                == old(self).strings@.push(lit(text)))
                            &&& final(self).sheets@[sheet as int].grid@ == #[trigger] spec_set(
                                old(self).sheets@[sheet as int].grid@,
                                spec_cell_key(row as nat, col as nat),
                                EntryV::Cell(
                                    CellV { value: CellValueV::SharedString(sid), format: fid },
                                ),
                            )
                        }
                },
                Err(e) => {
                    &&& final(self).sheets@ == old(self).sheets@
                    &&& final(self).strings@ == old(self).strings@
                    &&& (e == XlsxError::WorkbookClosed <==> old(self).closed)
                    &&& (e == XlsxError::InvalidCoordinate <==> (!old(self).closed && (row
                        >= MAX_ROWS || col >= MAX_COLS)))
                    &&& (e == XlsxError::MergedCellConflict <==> (!old(self).closed && row
                        < MAX_ROWS && col < MAX_COLS && merge_conflict(
                        old(self).sheets@[sheet as int].merges@,
                        row as nat,
                        col as nat,
                    )))
                    &&& (e == XlsxError::TooManyFormats <==> (!old(self).closed && row < MAX_ROWS
                        && col < MAX_COLS && !merge_conflict(
                        old(self).sheets@[sheet as int].merges@,
                        row as nat,
                        col as nat,
                    ) && format_overflow(old(self).formats@, fmt)))
                    &&& (e == XlsxError::WorkbookClosed || e == XlsxError::InvalidCoordinate || e
                        == XlsxError::MergedCellConflict || e == XlsxError::TooManyFormats)
                },
            },
    {
        if self.closed {
            return Err(XlsxError::WorkbookClosed);
        }
        if row >= MAX_ROWS || col >= MAX_COLS {
            return Err(XlsxError::InvalidCoordinate);
        }
        if self.sheets[sheet].check_merge_conflict(row, col) {
            return Err(XlsxError::MergedCellConflict);
        }
        let fid: Option<u32> = match fmt {
            None => None,
            Some(f) => match self.formats.register(*f) {
                Ok(id) => Some(id),
                Err(e) => {
                    return Err(e);
                },
            },
        };
        let bytes = vstd::slice::slice_to_vec(text.as_bytes());
        let sid = self.strings.intern(bytes);
        let res = self.sheets[sheet].write_cell(
            row,
            col,
            Cell { value: CellValue::SharedString(sid), format: fid },
        );
        match res {
            Ok(()) => {
                proof {
                    assert(self.sheets@[sheet as int].grid@ == spec_set(
                        old(self).sheets@[sheet as int].grid@,
                        spec_cell_key(row as nat, col as nat),
                        EntryV::Cell(CellV { value: CellValueV::SharedString(sid), format: fid }),
                    ));
                    assert(self.strings@[sid as int] == lit(text));
                }
                Ok(())
            },
            Err(e) => {
                proof {
                    assert(false);
                }
                Err(e)
            },
        }
    }

    /// Writes a formula, stored verbatim, with an optional cached decimal
    /// result for readers that do not evaluate formulas.
    pub fn write_formula(
        &mut self,
        sheet: usize,
        row: u32,
        col: u16,
        formula: &str,
        cached: Option<&str>,
        fmt: Option<&Format>,
    ) -> (r: Result<(), XlsxError>)
        requires
            old(self).wf(),
            sheet < old(self).sheets@.len(),
        ensures
            final(self).wf(),
            final(self).closed == old(self).closed,
            final(self).strings@ == old(self).strings@,
            final(self).sheets@.len() == old(self).sheets@.len(),
            forall|i: int|
                0 <= i < old(self).sheets@.len() && i != sheet ==> final(self).sheets@[i]
                    == #[trigger] old(self).sheets@[i],
            match r {
                Ok(()) => {
                    &&& !old(self).closed
                    &&& row < MAX_ROWS && col < MAX_COLS
                    &&& (cached matches Some(c) ==> is_number_text(lit(c)))
                    &&& exists|fid: Option<u32>, cv: Option<Seq<u8>>|
                        final(self).sheets@[sheet as int].grid@ == #[trigger] spec_set(
                            old(self).sheets@[sheet as int].grid@,
                            spec_cell_key(row as nat, col as nat),
                            EntryV::Cell(
                                CellV { value: CellValueV::Formula(lit(formula), cv), format: fid },
                            ),
                        ) && cv == match cached {
                            Some(c) => Some(lit(c)),
                            None => None,
                        }
                },
                Err(e) => {
                    &&& final(self).sheets@ == old(self).sheets@
                    &&& (e == XlsxError::WorkbookClosed <==> old(self).closed)
                    &&& (e == XlsxError::InvalidCoordinate <==> (!old(self).closed && (row
                        >= MAX_ROWS || col >= MAX_COLS)))
                    &&& (e == XlsxError::InvalidNumericValue <==> (!old(self).closed && row
                        < MAX_ROWS && col < MAX_COLS && (cached matches Some(c) && !is_number_text(
                        lit(c),
                    ))))
                    &&& (e == XlsxError::MergedCellConflict <==> (!old(self).closed && row
                        < MAX_ROWS && col < MAX_COLS && (cached matches Some(c) ==> is_number_text(
                        lit(c),
                    )) && merge_conflict(
                        old(self).sheets@[sheet as int].merges@,
                        row as nat,
                        col as nat,
                    )))
                    &&& (e == XlsxError::TooManyFormats <==> (!old(self).closed && row < MAX_ROWS
                        && col < MAX_COLS && (cached matches Some(c) ==> is_number_text(lit(c)))
                        && !merge_conflict(
                        old(self).sheets@[sheet as int].merges@,
                        row as nat,
                        col as nat,
                    ) && format_overflow(old(self).formats@, fmt)))
                    &&& (e == XlsxError::WorkbookClosed || e == XlsxError::InvalidCoordinate || e
                        == XlsxError::InvalidNumericValue || e == XlsxError::MergedCellConflict
                        || e == XlsxError::TooManyFormats)
                },
            },
    {
        if self.closed {
            return Err(XlsxError::WorkbookClosed);
        }
        if row >= MAX_ROWS || col >= MAX_COLS {
            return Err(XlsxError::InvalidCoordinate);
        }
        let cv: Option<Vec<u8>> = match cached {
            Some(c) => {
                if !check_number_text(c.as_bytes()) {
                    return Err(XlsxError::InvalidNumericValue);
                }
                Some(vstd::slice::slice_to_vec(c.as_bytes()))
            },
            None => None,
        };
        let fv = vstd::slice::slice_to_vec(formula.as_bytes());
        let ghost cvspec: Option<Seq<u8>> = match &cv {
            Some(v) => Some(v@),
            None => None,
        };
        let val = CellValue::Formula(fv, cv);
        proof {
            assert(val@ == CellValueV::Formula(lit(formula), cvspec));
            assert(cvspec == match cached {
                Some(c) => Some(lit(c)),
                None => None,
            });
        }
        self.put_cell(sheet, row, col, val, fmt)
    }

    /// Writes a boolean cell.
    pub fn write_boolean(
        &mut self,
        sheet: usize,
        row: u32,
        col: u16,
        value: bool,
        fmt: Option<&Format>,
    ) -> (r: Result<(), XlsxError>)
        requires
            old(self).wf(),
            sheet < old(self).sheets@.len(),
        ensures
            final(self).wf(),
            final(self).closed == old(self).closed,
            final(self).strings@ == old(self).strings@,
            final(self).sheets@.len() == old(self).sheets@.len(),
            forall|i: int|
                0 <= i < old(self).sheets@.len() && i != sheet ==> final(self).sheets@[i]
                    == #[trigger] old(self).sheets@[i],
            match r {
                Ok(()) => {
                    &&& !old(self).closed
                    &&& row < MAX_ROWS && col < MAX_COLS
                    &&& exists|fid: Option<u32>|
                        final(self).sheets@[sheet as int].grid@ == #[trigger] spec_set(
                            old(self).sheets@[sheet as int].grid@,
                            spec_cell_key(row as nat, col as nat),
                            EntryV::Cell(CellV { value: CellValueV::Boolean(value), format: fid }),
                        )
                },
                Err(e) => {
                    &&& final(self).sheets@ == old(self).sheets@
                    &&& (e == XlsxError::WorkbookClosed <==> old(self).closed)
                    &&& (e == XlsxError::InvalidCoordinate <==> (!old(self).closed && (row
                        >= MAX_ROWS || col >= MAX_COLS)))
                    &&& (e == XlsxError::MergedCellConflict <==> (!old(self).closed && row
                        < MAX_ROWS && col < MAX_COLS && merge_conflict(
                        old(self).sheets@[sheet as int].merges@,
                        row as nat,
                        col as nat,
                    )))
                    &&& (e == XlsxError::TooManyFormats <==> (!old(self).closed && row < MAX_ROWS
                        && col < MAX_COLS && !merge_conflict(
                        old(self).sheets@[sheet as int].merges@,
                        row as nat,
                        col as nat,
                    ) && format_overflow(old(self).formats@, fmt)))
                    &&& (e == XlsxError::WorkbookClosed || e == XlsxError::InvalidCoordinate || e
                        == XlsxError::MergedCellConflict || e == XlsxError::TooManyFormats)
                },
            },
    {
        self.put_cell(sheet, row, col, CellValue::Boolean(value), fmt)
    }

    /// Writes an empty cell, carrying only a format.
    pub fn write_blank(&mut self, sheet: usize, row: u32, col: u16, fmt: Option<&Format>) -> (r:
        Result<(), XlsxError>)
        requires
            old(self).wf(),
            sheet < old(self).sheets@.len(),
        ensures
            final(self).wf(),
            final(self).closed == old(self).closed,
            final(self).strings@ == old(self).strings@,
            final(self).sheets@.len() == old(self).sheets@.len(),
            forall|i: int|
                0 <= i < old(self).sheets@.len() && i != sheet ==> final(self).sheets@[i]
                    == #[trigger] old(self).sheets@[i],
            match r {
                Ok(()) => {
                    &&& !old(self).closed
                    &&& row < MAX_ROWS && col < MAX_COLS
                    &&& exists|fid: Option<u32>|
                        final(self).sheets@[sheet as int].grid@ == #[trigger] spec_set(
                            old(self).sheets@[sheet as int].grid@,
                            spec_cell_key(row as nat, col as nat),
                            EntryV::Cell(CellV { value: CellValueV::Blank, format: fid }),
                        )
                },
                Err(e) => {
                    &&& final(self).sheets@ == old(self).sheets@
                    &&& (e == XlsxError::WorkbookClosed <==> old(self).closed)
                    &&& (e == XlsxError::InvalidCoordinate <==> (!old(self).closed && (row
                        >= MAX_ROWS || col >= MAX_COLS)))
                    &&& (e == XlsxError::MergedCellConflict <==> (!old(self).closed && row
                        < MAX_ROWS && col < MAX_COLS && merge_conflict(
                        old(self).sheets@[sheet as int].merges@,
                        row as nat,
                        col as nat,
                    )))
                    &&& (e == XlsxError::TooManyFormats <==> (!old(self).closed && row < MAX_ROWS
                        && col < MAX_COLS && !merge_conflict(
                        old(self).sheets@[sheet as int].merges@,
                        row as nat,
                        col as nat,
                    ) && format_overflow(old(self).formats@, fmt)))
                    &&& (e == XlsxError::WorkbookClosed || e == XlsxError::InvalidCoordinate || e
                        == XlsxError::MergedCellConflict || e == XlsxError::TooManyFormats)
                },
            },
    {
        self.put_cell(sheet, row, col, CellValue::Blank, fmt)
    }

    /// Merges a rectangle of cells into one, anchored at its top-left.
    pub fn merge_range(&mut self, sheet: usize, r1: u32, c1: u16, r2: u32, c2: u16) -> (r: Result<
        (),
        XlsxError,
    >)
        requires
            old(self).wf(),
            sheet < old(self).sheets@.len(),
        ensures
            final(self).wf(),
            final(self).closed == old(self).closed,
            final(self).strings@ == old(self).strings@,
            final(self).formats@ == old(self).formats@,
            final(self).sheets@.len() == old(self).sheets@.len(),
            forall|i: int|
                0 <= i < old(self).sheets@.len() && i != sheet ==> final(self).sheets@[i]
                    == #[trigger] old(self).sheets@[i],
            final(self).sheets@[sheet as int].grid@ == old(self).sheets@[sheet as int].grid@,
            match r {
                Ok(()) => {
                    &&& !old(self).closed
                    &&& r1 <= r2 && c1 <= c2 && r2 < MAX_ROWS && c2 < MAX_COLS
                    &&& !crate::sheet::overlaps_any(
                        old(self).sheets@[sheet as int].merges@,
                        Merge { r1, c1, r2, c2 },
                    )
                    &&& final(self).sheets@[sheet as int].merges@ == old(self).sheets@[sheet as int].merges@.push(Merge { r1, c1, r2, c2 })
                },
                Err(e) => {
                    &&& final(self).sheets@ == old(self).sheets@
                    &&& (e == XlsxError::WorkbookClosed <==> old(self).closed)
                    &&& (e == XlsxError::InvalidCoordinate <==> (!old(self).closed && !(r1 <= r2
                        && c1 <= c2 && r2 < MAX_ROWS && c2 < MAX_COLS)))
                    &&& (e == XlsxError::OverlappingMerge <==> (!old(self).closed && r1 <= r2 && c1
                        <= c2 && r2 < MAX_ROWS && c2 < MAX_COLS && crate::sheet::overlaps_any(
                        old(self).sheets@[sheet as int].merges@,
                        Merge { r1, c1, r2, c2 },
                    )))
                    &&& (e == XlsxError::WorkbookClosed || e == XlsxError::InvalidCoordinate || e
                        == XlsxError::OverlappingMerge)
                },
            },
    {
        if self.closed {
            return Err(XlsxError::WorkbookClosed);
        }
        let r = self.sheets[sheet].merge_cells(r1, c1, r2, c2);
        proof {
            if r is Err {
                assert(self.sheets@ =~= old(self).sheets@);
            }
        }
        r
    }

    /// Sets the height, visibility and default format of a row.
    pub fn set_row(&mut self, sheet: usize, row: u32, props: RowProps) -> (r: Result<(), XlsxError>)
        requires
            old(self).wf(),
            sheet < old(self).sheets@.len(),
        ensures
            final(self).wf(),
            final(self).closed == old(self).closed,
            match r {
                Ok(()) => {
                    &&& !old(self).closed
                    &&& row < MAX_ROWS
                    &&& final(self).sheets@[sheet as int].grid@ == spec_set(
                        old(self).sheets@[sheet as int].grid@,
                        crate::sheet::spec_row_key(row as nat),
                        EntryV::Props(props),
                    )
                },
                Err(e) => {
                    &&& final(self).sheets@ == old(self).sheets@
                    &&& (e == XlsxError::WorkbookClosed <==> old(self).closed)
                    &&& (e == XlsxError::InvalidCoordinate <==> (!old(self).closed && row
                        >= MAX_ROWS))
                    &&& (e == XlsxError::WorkbookClosed || e == XlsxError::InvalidCoordinate)
                },
            },
    {
        if self.closed {
            return Err(XlsxError::WorkbookClosed);
        }
        let r = self.sheets[sheet].set_row_props(row, props);
        proof {
            if r is Err {
                assert(self.sheets@ =~= old(self).sheets@);
            }
        }
        r
    }

    /// Sets the width, visibility and default format of a column range.
    pub fn set_column(&mut self, sheet: usize, first: u16, props: ColProps) -> (r: Result<
        (),
        XlsxError,
    >)
        requires
            old(self).wf(),
            sheet < old(self).sheets@.len(),
        ensures
            final(self).wf(),
            final(self).closed == old(self).closed,
            match r {
                Ok(()) => {
                    &&& !old(self).closed
                    &&& first <= props.last_col < MAX_COLS
                    &&& final(self).sheets@[sheet as int].cols@ == spec_set(
                        old(self).sheets@[sheet as int].cols@,
                        first as u64,
                        props,
                    )
                },
                Err(e) => {
                    &&& final(self).sheets@ == old(self).sheets@
                    &&& (e == XlsxError::WorkbookClosed <==> old(self).closed)
                    &&& (e == XlsxError::InvalidCoordinate <==> (!old(self).closed && !(first
                        <= props.last_col < MAX_COLS)))
                    &&& (e == XlsxError::WorkbookClosed || e == XlsxError::InvalidCoordinate)
                },
            },
    {
        if self.closed {
            return Err(XlsxError::WorkbookClosed);
        }
        let r = self.sheets[sheet].set_col_props(first, props);
        proof {
            if r is Err {
                assert(self.sheets@ =~= old(self).sheets@);
            }
        }
        r
    }

    /// Freezes the panes above and left of a cell.
    pub fn freeze_panes(&mut self, sheet: usize, row: u32, col: u16) -> (r: Result<(), XlsxError>)
        requires
            old(self).wf(),
            sheet < old(self).sheets@.len(),
        ensures
            final(self).wf(),
            final(self).closed == old(self).closed,
            match r {
                Ok(()) => {
                    &&& !old(self).closed
                    &&& final(self).sheets@[sheet as int].freeze == Some((row, col))
                },
                Err(e) => {
                    &&& final(self).sheets@ == old(self).sheets@
                    &&& (e == XlsxError::WorkbookClosed <==> old(self).closed)
                    &&& (e == XlsxError::InvalidCoordinate <==> (!old(self).closed && (row
                        >= MAX_ROWS || col >= MAX_COLS)))
                    &&& (e == XlsxError::WorkbookClosed || e == XlsxError::InvalidCoordinate)
                },
            },
    {
        if self.closed {
            return Err(XlsxError::WorkbookClosed);
        }
        let r = self.sheets[sheet].freeze_at(row, col);
        proof {
            if r is Err {
                assert(self.sheets@ =~= old(self).sheets@);
            }
        }
        r
    }

    /// Selects a rectangle on a sheet.
    pub fn set_selection(&mut self, sheet: usize, r1: u32, c1: u16, r2: u32, c2: u16) -> (r: Result<
        (),
        XlsxError,
    >)
        requires
            old(self).wf(),
            sheet < old(self).sheets@.len(),
        ensures
            final(self).wf(),
            final(self).closed == old(self).closed,
            match r {
                Ok(()) => {
                    &&& !old(self).closed
                    &&& final(self).sheets@[sheet as int].selection == Some((r1, c1, r2, c2))
                },
                Err(e) => {
                    &&& final(self).sheets@ == old(self).sheets@
                    &&& (e == XlsxError::WorkbookClosed <==> old(self).closed)
                    &&& (e == XlsxError::InvalidCoordinate <==> (!old(self).closed && !(r1 <= r2
                        && c1 <= c2 && r2 < MAX_ROWS && c2 < MAX_COLS)))
                    &&& (e == XlsxError::WorkbookClosed || e == XlsxError::InvalidCoordinate)
                },
            },
    {
        if self.closed {
            return Err(XlsxError::WorkbookClosed);
        }
        let r = self.sheets[sheet].select(r1, c1, r2, c2);
        proof {
            if r is Err {
                assert(self.sheets@ =~= old(self).sheets@);
            }
        }
        r
    }

    /// Attaches a data validation rule to a rectangle of a sheet.
    pub fn add_validation(&mut self, sheet: usize, v: Validation) -> (r: Result<(), XlsxError>)
        requires
            old(self).wf(),
            sheet < old(self).sheets@.len(),
        ensures
            final(self).wf(),
            final(self).closed == old(self).closed,
            match r {
                Ok(()) => {
                    &&& !old(self).closed
                    &&& final(self).sheets@[sheet as int].validations@.len() == old(self).sheets@[sheet as int].validations@.len() + 1
                    &&& final(self).sheets@[sheet as int].validations@.last()@ == v@
                },
                Err(e) => {
                    &&& final(self).sheets@ == old(self).sheets@
                    &&& (e == XlsxError::WorkbookClosed <==> old(self).closed)
                    &&& (e == XlsxError::InvalidCoordinate <==> (!old(self).closed && !(v.r1 <= v.r2
                        && v.c1 <= v.c2 && v.r2 < MAX_ROWS && v.c2 < MAX_COLS)))
                    &&& (e == XlsxError::WorkbookClosed || e == XlsxError::InvalidCoordinate)
                },
            },
    {
        if self.closed {
            return Err(XlsxError::WorkbookClosed);
        }
        let r = self.sheets[sheet].push_validation(v);
        proof {
            if r is Err {
                assert(self.sheets@ =~= old(self).sheets@);
            }
        }
        r
    }
}

fn name_vec(s: &str) -> (r: Vec<u8>)
    ensures
        r@ == lit(s),
{
    let mut v: Vec<u8> = Vec::new();
    push_lit(&mut v, s);
    proof {
        assert(v@ =~= lit(s));
    }
    v
}

/// The fixed leading parts of every archive: the package manifests, the
/// document properties, the workbook part, its relationships, the styles
/// and the shared string table.
pub open spec fn fixed_parts(
    sheets: Seq<Worksheet>,
    formats: Seq<Format>,
    strings: Seq<Seq<u8>>,
) -> Seq<PartV> {
    seq![
        PartV { name: lit("[Content_Types].xml"), data: content_types_xml(sheets.len()) },
        PartV { name: lit("_rels/.rels"), data: root_rels_xml() },
        PartV { name: lit("docProps/core.xml"), data: core_xml() },
        PartV { name: lit("docProps/app.xml"), data: app_xml() },
        PartV { name: lit("xl/workbook.xml"), data: workbook_xml(names_of(sheets)) },
        PartV { name: lit("xl/_rels/workbook.xml.rels"), data: wb_rels_xml(sheets.len()) },
        PartV { name: lit("xl/styles.xml"), data: styles_xml(formats) },
        PartV { name: lit("xl/sharedStrings.xml"), data: sst_xml(strings) },
    ]
}

/// Sheet part `i` of the archive.
pub open spec fn sheet_part(sheets: Seq<Worksheet>, i: int) -> PartV {
    PartV {
        name: lit("xl/worksheets/sheet") + dec_of((i + 1) as nat) + lit(".xml"),
        data: sheet_xml(
            sheets[i].grid@,
            sheets[i].merges@,
            sheets[i].cols@,
            validations_view(sheets[i].validations@),
            sheets[i].freeze,
            sheets[i].selection,
        ),
    }
}

/// Every part of the archive, in its fixed packaging order.
pub open spec fn workbook_parts(
    sheets: Seq<Worksheet>,
    formats: Seq<Format>,
    strings: Seq<Seq<u8>>,
) -> Seq<PartV> {
    fixed_parts(sheets, formats, strings) + Seq::new(sheets.len(), |i: int| sheet_part(sheets, i))
}

/// The bytes `close` produces: a function of the workbook model alone.
pub open spec fn workbook_archive(
    sheets: Seq<Worksheet>,
    formats: Seq<Format>,
    strings: Seq<Seq<u8>>,
) -> Seq<u8> {
    archive_of(workbook_parts(sheets, formats, strings))
}

/// Generating a workbook twice from one model gives byte-identical
/// archives: the archive depends on the sheets, formats and strings alone,
/// never on time, environment or chance.
pub proof fn lemma_archive_deterministic(
    sheets1: Seq<Worksheet>,
    formats1: Seq<Format>,
    strings1: Seq<Seq<u8>>,
    sheets2: Seq<Worksheet>,
    formats2: Seq<Format>,
    strings2: Seq<Seq<u8>>,
)
    requires
        sheets1 == sheets2,
        formats1 == formats2,
        strings1 == strings2,
    ensures
        workbook_archive(sheets1, formats1, strings1) == workbook_archive(
            sheets2,
            formats2,
            strings2,
        ),
{
}

/// Writing a cell and reading the same coordinates back yields exactly the
/// written cell.
pub proof fn lemma_write_then_read(g: Seq<(u64, EntryV)>, row: nat, col: nat, c: CellV)
    ensures
        ({
            let g2 = spec_set(g, spec_cell_key(row, col), EntryV::Cell(c));
            seq_get(g2, spec_cell_key(row, col)) == Some(EntryV::Cell(c))
        }),
{
    crate::sortedmap::lemma_get_set(g, spec_cell_key(row, col), EntryV::Cell(c), spec_cell_key(row, col));
}

/// An interned byte string sits at one index only: interning it again
/// returns that index, and the shared string part lists it at the rank of
/// its first insertion.
pub proof fn lemma_interned_index_unique(s: Seq<Seq<u8>>, i: int, j: int)
    requires
        crate::intern::distinct_seqs(s),
        0 <= i < s.len(),
        0 <= j < s.len(),
        s[i] == s[j],
    ensures
        i == j,
{
    if i < j {
        assert(s[i] != s[j]);
    } else if j < i {
        assert(s[j] != s[i]);
    }
}

} // verus!
