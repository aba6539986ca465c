//! The external columnar boundary: the rules a table must meet before it may
//! leave for, or arrive from, an external columnar format. Names are compared
//! case-insensitively here, unlike inside the engine, and a raw-scalar column
//! has no external representation at all.

use crate::column::ColumnType;
use crate::ident::{spec_lower_bytes, Identifier};
use crate::table::{OwnedColumn, OwnedTable, OwnedTableError};
use vstd::prelude::*;

verus! {

/// A failure converting across the external boundary.
#[derive(Clone, Copy, Debug, PartialEq, Eq, Structural, Hash)]
pub enum OwnedArrowConversionError {
    /// The column's type has no external representation.
    UnsupportedType,
    /// Two column names collide after case folding.
    DuplicateIdentifiers,
    /// Two columns differ in length.
    ColumnLengthMismatch,
}

/// Whether a column type can cross the boundary: every type but the raw
/// field-scalar can.
pub fn column_type_supported_externally(t: ColumnType) -> (r: bool)
    ensures
        r == !(t is Scalar),
{
    !matches!(t, ColumnType::Scalar)
}

/// Two names that the boundary treats as the same.
pub open spec fn spec_ci_same(a: Identifier, b: Identifier) -> bool {
    spec_lower_bytes(a.bytes()) == spec_lower_bytes(b.bytes())
}

/// Some pair of names collides after case folding.
pub open spec fn spec_has_ci_duplicate(columns: Seq<(Identifier, OwnedColumn)>) -> bool {
    exists|i: int, j: int|
        0 <= i < j < columns.len() && spec_ci_same(
            (#[trigger] columns[i]).0,
            (#[trigger] columns[j]).0,
        )
}

/// Builds a table from named columns under the boundary's rules: names must
/// not collide even case-insensitively, and all columns must share a length.
pub fn try_new_from_boundary(columns: Vec<(Identifier, OwnedColumn)>) -> (r: Result<
    OwnedTable,
    OwnedArrowConversionError,
>)
    requires
        forall|i: int| 0 <= i < columns@.len() ==> (#[trigger] columns@[i]).0.wf(),
        forall|i: int| 0 <= i < columns@.len() ==> (#[trigger] columns@[i]).1.wf(),
    ensures
        r == Err::<OwnedTable, OwnedArrowConversionError>(
            OwnedArrowConversionError::DuplicateIdentifiers,
        ) <==> spec_has_ci_duplicate(columns@),
        r matches Ok(t) ==> t.columns@ == columns@ && t.wf(),
        r is Ok <==> !spec_has_ci_duplicate(columns@) && crate::table::spec_lengths_equal(
            columns@,
        ),
{
    let n = columns.len();
    let mut i: usize = 0;
    while i < n
        invariant
            0 <= i <= n,
            n == columns@.len(),
            forall|k: int| 0 <= k < columns@.len() ==> (#[trigger] columns@[k]).0.wf(),
            forall|a: int, b: int| 0 <= a < i && a < b < n ==> !spec_ci_same(
                (#[trigger] columns@[a]).0,
                (#[trigger] columns@[b]).0,
            ),
        decreases n - i,
    {
        let mut j: usize = i + 1;
        while j < n
            invariant
                0 <= i < j <= n,
                n == columns@.len(),
                forall|k: int| 0 <= k < columns@.len() ==> (#[trigger] columns@[k]).0.wf(),
                forall|b: int| i < b < j ==> !spec_ci_same(
                    columns@[i as int].0,
                    (#[trigger] columns@[b]).0,
                ),
            decreases n - j,
        {
            if columns[i].0.eq_name_case_insensitive(&columns[j].0) {
                return Err(OwnedArrowConversionError::DuplicateIdentifiers);
            }
            j += 1;
        }
        i += 1;
    }
    assert(!spec_has_ci_duplicate(columns@));
    proof {
        lemma_ci_distinct_implies_distinct(columns@);
    }
    match OwnedTable::try_new(columns) {
        Ok(t) => Ok(t),
        Err(OwnedTableError::ColumnLengthMismatch) => Err(
            OwnedArrowConversionError::ColumnLengthMismatch,
        ),
        Err(OwnedTableError::DuplicateIdentifier) => {
            proof {
                assert(false);
            }
            Err(OwnedArrowConversionError::DuplicateIdentifiers)
        },
    }
}

/// Case-insensitively distinct names are distinct as they stand.
proof fn lemma_ci_distinct_implies_distinct(columns: Seq<(Identifier, OwnedColumn)>)
    requires
        !spec_has_ci_duplicate(columns),
    ensures
        crate::table::spec_names_distinct(columns),
{
    assert forall|i: int, j: int| 0 <= i < j < columns.len() implies (
    #[trigger] columns[i]).0@ != (#[trigger] columns[j]).0@ by {
        if columns[i].0@ == columns[j].0@ {
            assert(columns[i].0.bytes() == columns[j].0.bytes());
            assert(spec_ci_same(columns[i].0, columns[j].0));
        }
    }
}

/// Checks that every column of the table may leave for the external format:
/// a raw-scalar column is refused.
pub fn check_table_exportable(t: &OwnedTable) -> (r: Result<(), OwnedArrowConversionError>)
    ensures
        r is Ok <==> forall|i: int| 0 <= i < t.columns@.len()
            ==> !((#[trigger] t.columns@[i]).1.spec_type() is Scalar),
        r is Err ==> r == Err::<(), OwnedArrowConversionError>(
            OwnedArrowConversionError::UnsupportedType,
        ),
{
    let n = t.columns.len();
    let mut i: usize = 0;
    while i < n
        invariant
            0 <= i <= n,
            n == t.columns@.len(),
            forall|j: int| 0 <= j < i ==> !((#[trigger] t.columns@[j]).1.spec_type() is Scalar),
        decreases n - i,
    {
        if !column_type_supported_externally(t.columns[i].1.column_type()) {
            return Err(OwnedArrowConversionError::UnsupportedType);
        }
        i += 1;
    }
    Ok(())
}

} // verus!
