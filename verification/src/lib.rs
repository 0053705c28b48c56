//! A write-only spreadsheet (XLSX) generator: an in-memory workbook and
//! worksheet model, a deduplicating format registry, a shared string table,
//! XML part generation and ZIP archive packaging, with the model and the
//! generated bytes specified and verified.

mod bytes;
mod intern;
pub mod sheet;
pub mod sortedmap;
pub mod style;
pub mod workbook;
pub mod xml;
pub mod zip;

use vstd::prelude::*;

verus! {

/// The error taxonomy of the library. Every fallible operation reports the
/// first rule it violates through one of these variants.
#[derive(Debug, Clone, Copy, PartialEq, Eq, Structural)]
pub enum XlsxError {
    /// A row or column index lies outside the sheet bounds.
    InvalidCoordinate,
    /// A worksheet name is empty, too long, or holds a forbidden character.
    InvalidSheetName,
    /// A worksheet with the same (case-insensitive) name already exists.
    DuplicateSheetName,
    /// `close` was called on a workbook with no worksheets.
    EmptyWorkbook,
    /// A write targets a cell covered by a merge, other than its anchor.
    MergedCellConflict,
    /// A merge overlaps an already registered merge.
    OverlappingMerge,
    /// A numeric cell value is not a finite decimal number.
    InvalidNumericValue,
    /// The format registry is full.
    TooManyFormats,
    /// The workbook was already closed.
    WorkbookClosed,
    /// Packaging or writing the archive failed.
    IoFailure,
}

/// What `try_to_vec` returns: `Ok` with every value in order when no entry
/// is an error, else the first error.
pub open spec fn spec_try_to_vec<T>(s: Seq<Result<T, XlsxError>>) -> Result<Seq<T>, XlsxError>
    decreases s.len(),
{
    if s.len() == 0 {
        Ok(Seq::empty())
    } else {
        match s[0] {
            Err(e) => Err(e),
            Ok(v) => match spec_try_to_vec(s.skip(1)) {
                Ok(rest) => Ok(seq![v] + rest),
                Err(e) => Err(e),
            },
        }
    }
}

/// Collects a sequence of fallible values, stopping at the first error.
pub fn try_to_vec<T>(items: Vec<Result<T, XlsxError>>) -> (r: Result<Vec<T>, XlsxError>)
    ensures
        match r {
            Ok(v) => spec_try_to_vec(items@) == Ok::<Seq<T>, XlsxError>(v@),
            Err(e) => spec_try_to_vec(items@) == Err::<Seq<T>, XlsxError>(e),
        },
{
    let ghost all = items@;
    let mut todo = items;
    let mut out: Vec<T> = Vec::new();
    let mut failed: Option<XlsxError> = None;
    while failed.is_none() && todo.len() > 0
        invariant
            match failed {
                None => spec_try_to_vec(all) == (match spec_try_to_vec(todo@) {
                    Ok(rest) => Ok::<Seq<T>, XlsxError>(out@ + rest),
                    Err(e) => Err::<Seq<T>, XlsxError>(e),
                }),
                Some(e) => spec_try_to_vec(all) == Err::<Seq<T>, XlsxError>(e),
            },
        decreases todo.len(),
    {
        let ghost pre = todo@;
        let ghost pre_out = out@;
        let x = todo.remove(0);
        proof {
            assert(todo@ =~= pre.skip(1));
        }
        match x {
            Ok(t) => {
                out.push(t);
                proof {
                    match spec_try_to_vec(todo@) {
                        Ok(rest) => {
                            assert(pre_out + (seq![t] + rest) =~= out@ + rest);
                        },
                        Err(_) => {},
                    }
                }
            }
            Err(e) => {
                proof {
                    assert(spec_try_to_vec(pre) == Err::<Seq<T>, XlsxError>(e));
                }
                failed = Some(e);
            }
        }
    }
    match failed {
        Some(e) => Err(e),
        None => {
            proof {
                assert(spec_try_to_vec(todo@) == Ok::<Seq<T>, XlsxError>(Seq::<T>::empty()));
                assert(out@ + Seq::<T>::empty() =~= out@);
            }
            Ok(out)
        }
    }
}

} // verus!
