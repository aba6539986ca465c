//! Owned columnar data: a typed, length-homogeneous column of cells, and an
//! ordered table of named columns whose invariants are case-sensitive name
//! uniqueness and a single shared row count.

use crate::column::{ColumnType, Precision};
use crate::ident::Identifier;
use crate::scalar::Scalar;
use vstd::prelude::*;

verus! {

/// A typed column of values, owned in memory.
#[derive(Debug, PartialEq, Eq)]
pub enum OwnedColumn {
    Boolean(Vec<bool>),
    BigInt(Vec<i64>),
    Int128(Vec<i128>),
    Decimal75(Precision, i8, Vec<Scalar>),
    VarChar(Vec<String>),
    Scalar(Vec<Scalar>),
}

/// Deep equality of two columns: same variant, same cells.
pub open spec fn spec_col_eq(a: OwnedColumn, b: OwnedColumn) -> bool {
    match (a, b) {
        (OwnedColumn::Boolean(x), OwnedColumn::Boolean(y)) => x@ == y@,
        (OwnedColumn::BigInt(x), OwnedColumn::BigInt(y)) => x@ == y@,
        (OwnedColumn::Int128(x), OwnedColumn::Int128(y)) => x@ == y@,
        (OwnedColumn::Decimal75(p, s, x), OwnedColumn::Decimal75(q, t, y)) => p == q && s == t
            && x@ == y@,
        (OwnedColumn::VarChar(x), OwnedColumn::VarChar(y)) => x.deep_view() == y.deep_view(),
        (OwnedColumn::Scalar(x), OwnedColumn::Scalar(y)) => x@ == y@,
        _ => false,
    }
}

impl OwnedColumn {
    /// The number of cells.
    pub open spec fn spec_len(self) -> nat {
        match self {
            OwnedColumn::Boolean(v) => v@.len(),
            OwnedColumn::BigInt(v) => v@.len(),
            OwnedColumn::Int128(v) => v@.len(),
            OwnedColumn::Decimal75(_, _, v) => v@.len(),
            OwnedColumn::VarChar(v) => v@.len(),
            OwnedColumn::Scalar(v) => v@.len(),
        }
    }

    /// The type the cells carry.
    pub open spec fn spec_type(self) -> ColumnType {
        match self {
            OwnedColumn::Boolean(_) => ColumnType::Boolean,
            OwnedColumn::BigInt(_) => ColumnType::BigInt,
            OwnedColumn::Int128(_) => ColumnType::Int128,
            OwnedColumn::Decimal75(p, s, _) => ColumnType::Decimal75(p, s),
            OwnedColumn::VarChar(_) => ColumnType::VarChar,
            OwnedColumn::Scalar(_) => ColumnType::Scalar,
        }
    }

    /// Well-formed: the type is valid and every raw scalar cell is canonical.
    pub open spec fn wf(self) -> bool {
        match self {
            OwnedColumn::Decimal75(p, _, v) => p.wf() && forall|i: int|
                0 <= i < v@.len() ==> (#[trigger] v@[i]).is_canonical(),
            OwnedColumn::Scalar(v) => forall|i: int|
                0 <= i < v@.len() ==> (#[trigger] v@[i]).is_canonical(),
            _ => true,
        }
    }

    pub fn len(&self) -> (r: usize)
        ensures
            r == self.spec_len(),
    {
        match self {
            OwnedColumn::Boolean(v) => v.len(),
            OwnedColumn::BigInt(v) => v.len(),
            OwnedColumn::Int128(v) => v.len(),
            OwnedColumn::Decimal75(_, _, v) => v.len(),
            OwnedColumn::VarChar(v) => v.len(),
            OwnedColumn::Scalar(v) => v.len(),
        }
    }

    pub fn column_type(&self) -> (r: ColumnType)
        ensures
            r == self.spec_type(),
    {
        match self {
            OwnedColumn::Boolean(_) => ColumnType::Boolean,
            OwnedColumn::BigInt(_) => ColumnType::BigInt,
            OwnedColumn::Int128(_) => ColumnType::Int128,
            OwnedColumn::Decimal75(p, s, _) => ColumnType::Decimal75(*p, *s),
            OwnedColumn::VarChar(_) => ColumnType::VarChar,
            OwnedColumn::Scalar(_) => ColumnType::Scalar,
        }
    }

    /// Deep comparison of two columns.
    pub fn eq_col(&self, other: &OwnedColumn) -> (r: bool)
        ensures
            r == spec_col_eq(*self, *other),
    {
        match (self, other) {
            (OwnedColumn::Boolean(x), OwnedColumn::Boolean(y)) => eq_vec_bool(x, y),
            (OwnedColumn::BigInt(x), OwnedColumn::BigInt(y)) => eq_vec_i64(x, y),
            (OwnedColumn::Int128(x), OwnedColumn::Int128(y)) => eq_vec_i128(x, y),
            (OwnedColumn::Decimal75(p, s, x), OwnedColumn::Decimal75(q, t, y)) => p.value
                == q.value && *s == *t && eq_vec_scalar(x, y),
            (OwnedColumn::VarChar(x), OwnedColumn::VarChar(y)) => eq_vec_string(x, y),
            (OwnedColumn::Scalar(x), OwnedColumn::Scalar(y)) => eq_vec_scalar(x, y),
            _ => false,
        }
    }
}

impl Clone for OwnedColumn {
    fn clone(&self) -> (r: Self)
        ensures
            spec_col_eq(r, *self),
    {
        match self {
            OwnedColumn::Boolean(v) => OwnedColumn::Boolean(copy_vec(v)),
            OwnedColumn::BigInt(v) => OwnedColumn::BigInt(copy_vec(v)),
            OwnedColumn::Int128(v) => OwnedColumn::Int128(copy_vec(v)),
            OwnedColumn::Decimal75(p, s, v) => OwnedColumn::Decimal75(*p, *s, copy_vec(v)),
            OwnedColumn::VarChar(v) => OwnedColumn::VarChar(clone_vec_string(v)),
            OwnedColumn::Scalar(v) => OwnedColumn::Scalar(copy_vec(v)),
        }
    }
}

/// An element-wise copy of a vector of plain values.
pub fn copy_vec<T: Copy>(v: &Vec<T>) -> (r: Vec<T>)
    ensures
        r@ == v@,
{
    let mut r: Vec<T> = Vec::new();
    let mut i: usize = 0;
    while i < v.len()
        invariant
            0 <= i <= v@.len(),
            r@ == v@.take(i as int),
        decreases v@.len() - i,
    {
        r.push(v[i]);
        proof {
            assert(r@ =~= v@.take(i + 1int));
        }
        i += 1;
    }
    proof {
        assert(r@ =~= v@);
    }
    r
}

/// An element-wise copy of a vector of strings.
pub fn clone_vec_string(v: &Vec<String>) -> (r: Vec<String>)
    ensures
        r.deep_view() == v.deep_view(),
{
    let mut r: Vec<String> = Vec::new();
    let mut i: usize = 0;
    while i < v.len()
        invariant
            0 <= i <= v@.len(),
            r@.len() == i,
            forall|j: int| 0 <= j < i ==> (#[trigger] r@[j])@ == v@[j]@,
        decreases v@.len() - i,
    {
        r.push(v[i].clone());
        i += 1;
    }
    proof {
        assert(r.deep_view() =~= v.deep_view());
    }
    r
}

fn eq_vec_bool(a: &Vec<bool>, b: &Vec<bool>) -> (r: bool)
    ensures
        r == (a@ == b@),
{
    if a.len() != b.len() {
        return false;
    }
    let mut i: usize = 0;
    while i < a.len()
        invariant
            0 <= i <= a@.len(),
            a@.len() == b@.len(),
            forall|j: int| 0 <= j < i ==> a@[j] == b@[j],
        decreases a@.len() - i,
    {
        if a[i] != b[i] {
            return false;
        }
        i += 1;
    }
    proof {
        assert(a@ =~= b@);
    }
    true
}

fn eq_vec_i64(a: &Vec<i64>, b: &Vec<i64>) -> (r: bool)
    ensures
        r == (a@ == b@),
{
    if a.len() != b.len() {
        return false;
    }
    let mut i: usize = 0;
    while i < a.len()
        invariant
            0 <= i <= a@.len(),
            a@.len() == b@.len(),
            forall|j: int| 0 <= j < i ==> a@[j] == b@[j],
        decreases a@.len() - i,
    {
        if a[i] != b[i] {
            return false;
        }
        i += 1;
    }
    proof {
        assert(a@ =~= b@);
    }
    true
}

fn eq_vec_i128(a: &Vec<i128>, b: &Vec<i128>) -> (r: bool)
    ensures
        r == (a@ == b@),
{
    if a.len() != b.len() {
        return false;
    }
    let mut i: usize = 0;
    while i < a.len()
        invariant
            0 <= i <= a@.len(),
            a@.len() == b@.len(),
            forall|j: int| 0 <= j < i ==> a@[j] == b@[j],
        decreases a@.len() - i,
    {
        if a[i] != b[i] {
            return false;
        }
        i += 1;
    }
    proof {
        assert(a@ =~= b@);
    }
    true
}

fn eq_vec_scalar(a: &Vec<Scalar>, b: &Vec<Scalar>) -> (r: bool)
    ensures
        r == (a@ == b@),
{
    if a.len() != b.len() {
        return false;
    }
    let mut i: usize = 0;
    while i < a.len()
        invariant
            0 <= i <= a@.len(),
            a@.len() == b@.len(),
            forall|j: int| 0 <= j < i ==> a@[j] == b@[j],
        decreases a@.len() - i,
    {
        if a[i] != b[i] {
            return false;
        }
        i += 1;
    }
    proof {
        assert(a@ =~= b@);
    }
    true
}

fn eq_vec_string(a: &Vec<String>, b: &Vec<String>) -> (r: bool)
    ensures
        r == (a.deep_view() == b.deep_view()),
{
    proof {
        assert(a.deep_view().len() == a@.len());
        assert(b.deep_view().len() == b@.len());
    }
    if a.len() != b.len() {
        return false;
    }
    let mut i: usize = 0;
    while i < a.len()
        invariant
            0 <= i <= a@.len(),
            a@.len() == b@.len(),
            a.deep_view().len() == a@.len(),
            b.deep_view().len() == b@.len(),
            forall|j: int| 0 <= j < i ==> a@[j]@ == b@[j]@,
        decreases a@.len() - i,
    {
        if !(a[i] == b[i]) {
            proof {
                assert(a.deep_view()[i as int] == a@[i as int]@);
                assert(b.deep_view()[i as int] == b@[i as int]@);
            }
            return false;
        }
        i += 1;
    }
    proof {
        assert(a.deep_view() =~= b.deep_view());
    }
    true
}

/// An error building an owned table.
#[derive(Clone, Copy, Debug, PartialEq, Eq, Structural, Hash)]
pub enum OwnedTableError {
    /// Two columns carry the same (case-sensitive) name.
    DuplicateIdentifier,
    /// Two columns differ in length.
    ColumnLengthMismatch,
}

/// An ordered mapping from identifier to column, with unique names and one
/// shared row count.
#[derive(Debug, PartialEq, Eq)]
pub struct OwnedTable {
    pub columns: Vec<(Identifier, OwnedColumn)>,
}

/// The sequence of column-name views of a column list.
pub open spec fn spec_names(columns: Seq<(Identifier, OwnedColumn)>) -> Seq<Seq<char>> {
    columns.map(|_i: int, c: (Identifier, OwnedColumn)| c.0@)
}

/// No two names equal, case-sensitively.
pub open spec fn spec_names_distinct(columns: Seq<(Identifier, OwnedColumn)>) -> bool {
    forall|i: int, j: int| 0 <= i < j < columns.len()
        ==> (#[trigger] columns[i]).0@ != (#[trigger] columns[j]).0@
}

/// Every column has the length of the first.
pub open spec fn spec_lengths_equal(columns: Seq<(Identifier, OwnedColumn)>) -> bool {
    forall|i: int| 0 <= i < columns.len()
        ==> (#[trigger] columns[i]).1.spec_len() == columns[0].1.spec_len()
}

impl OwnedTable {
    /// The table invariant: distinct names, one row count, well-formed cells.
    pub open spec fn wf(self) -> bool {
        &&& spec_names_distinct(self.columns@)
        &&& spec_lengths_equal(self.columns@)
        &&& forall|i: int| 0 <= i < self.columns@.len()
            ==> (#[trigger] self.columns@[i]).1.wf()
    }

    pub open spec fn spec_num_rows(self) -> nat {
        if self.columns@.len() == 0 {
            0
        } else {
            self.columns@[0].1.spec_len()
        }
    }

    /// Accepts exactly a column list with distinct names and equal lengths.
    pub fn try_new(columns: Vec<(Identifier, OwnedColumn)>) -> (r: Result<
        OwnedTable,
        OwnedTableError,
    >)
        requires
            forall|i: int| 0 <= i < columns@.len() ==> (#[trigger] columns@[i]).1.wf(),
        ensures
            r matches Ok(t) ==> t.columns@ == columns@ && t.wf(),
            r is Ok <==> spec_names_distinct(columns@) && spec_lengths_equal(columns@),
            r == Err::<OwnedTable, OwnedTableError>(OwnedTableError::DuplicateIdentifier)
                <==> !spec_names_distinct(columns@),
            r == Err::<OwnedTable, OwnedTableError>(OwnedTableError::ColumnLengthMismatch)
                <==> spec_names_distinct(columns@) && !spec_lengths_equal(columns@),
    {
        let n = columns.len();
        let mut i: usize = 0;
        while i < n
            invariant
                0 <= i <= n,
                n == columns@.len(),
                forall|a: int, b: int| 0 <= a < i && a < b < n
                    ==> (#[trigger] columns@[a]).0@ != (#[trigger] columns@[b]).0@,
            decreases n - i,
        {
            let mut j: usize = i + 1;
            while j < n
                invariant
                    0 <= i < j <= n,
                    n == columns@.len(),
                    forall|b: int| i < b < j
                        ==> (#[trigger] columns@[b]).0@ != columns@[i as int].0@,
                decreases n - j,
            {
                if columns[i].0.eq_name(&columns[j].0) {
                    return Err(OwnedTableError::DuplicateIdentifier);
                }
                j += 1;
            }
            i += 1;
        }
        assert(spec_names_distinct(columns@));
        if n > 0 {
            let expected = columns[0].1.len();
            let mut k: usize = 1;
            while k < n
                invariant
                    1 <= k <= n,
                    n == columns@.len(),
                    spec_names_distinct(columns@),
                    expected == columns@[0].1.spec_len(),
                    forall|a: int| 0 <= a < k
                        ==> (#[trigger] columns@[a]).1.spec_len() == columns@[0].1.spec_len(),
                decreases n - k,
            {
                if columns[k].1.len() != expected {
                    return Err(OwnedTableError::ColumnLengthMismatch);
                }
                k += 1;
            }
        }
        assert(spec_lengths_equal(columns@));
        Ok(OwnedTable { columns })
    }

    pub fn num_columns(&self) -> (r: usize)
        ensures
            r == self.columns@.len(),
    {
        self.columns.len()
    }

    pub fn num_rows(&self) -> (r: usize)
        ensures
            r == self.spec_num_rows(),
    {
        if self.columns.len() == 0 {
            0
        } else {
            self.columns[0].1.len()
        }
    }

    /// The column stored under a name, if any (first match wins).
    pub fn column_by_name(&self, name: &Identifier) -> (r: Option<&OwnedColumn>)
        ensures
            r matches Some(c) ==> crate::eval::spec_table_lookup(self.columns@, name@)
                == Some(*c),
            r is None ==> crate::eval::spec_table_lookup(self.columns@, name@)
                is None,
    {
        let n = self.columns.len();
        proof {
            assert(self.columns@.skip(0) =~= self.columns@);
        }
        let mut i: usize = 0;
        while i < n
            invariant
                0 <= i <= n,
                n == self.columns@.len(),
                crate::eval::spec_table_lookup(self.columns@, name@)
                    == crate::eval::spec_table_lookup(self.columns@.skip(i as int), name@),
            decreases n - i,
        {
            if self.columns[i].0.eq_name(name) {
                proof {
                    assert(self.columns@.skip(i as int)[0] == self.columns@[i as int]);
                }
                return Some(&self.columns[i].1);
            }
            proof {
                assert(self.columns@.skip(i as int)[0] == self.columns@[i as int]);
                assert(self.columns@.skip(i as int).skip(1) =~= self.columns@.skip(i + 1int));
            }
            i += 1;
        }
        None
    }
}

} // verus!
