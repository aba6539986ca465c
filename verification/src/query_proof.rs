//! The verifiable query result: the prover runs a plan over a
//! commitment-backed accessor and publishes the result columns together with
//! the input commitments it used; the verifier replays the run against its
//! own commitments and accepts only a result that matches them exactly.
//!
//! A commitment here is transparent: it binds by carrying the committed
//! column itself, so binding is unconditional and every check is decidable.

use crate::column::{ColumnRef, ColumnType};
use crate::eval::{col_v, field_of_int, ColumnV, EvalError};
use crate::ident::{Identifier, TableRef};
use crate::plan::{table_v, DynProofPlan};
use crate::scalar::{group_order, max_signed_nat, Scalar};
use crate::table::{spec_col_eq, OwnedColumn, OwnedTable, OwnedTableError};
use vstd::prelude::*;

verus! {

/// A binding commitment to one column.
#[derive(Debug, PartialEq, Eq)]
pub struct Commitment {
    pub column: OwnedColumn,
}

impl Clone for Commitment {
    fn clone(&self) -> (r: Self)
        ensures
            spec_col_eq(r.column, self.column),
    {
        Commitment { column: self.column.clone() }
    }
}

/// An in-memory accessor: tables stored whole, committed as they stand.
#[derive(Debug, PartialEq, Eq)]
pub struct OwnedTableTestAccessor {
    pub tables: Vec<(TableRef, OwnedTable, u64)>,
}

/// First stored table under a key.
pub open spec fn spec_acc_table(
    ts: Seq<(TableRef, OwnedTable, u64)>,
    key: (Seq<char>, Seq<char>),
) -> Option<OwnedTable>
    decreases ts.len(),
{
    if ts.len() == 0 {
        None
    } else if ts[0].0.spec_key() == key {
        Some(ts[0].1)
    } else {
        spec_acc_table(ts.skip(1), key)
    }
}

/// The column an accessor holds for a reference key, when the table exists
/// and the column carries the referenced type.
pub open spec fn spec_acc_column_key(
    acc: OwnedTableTestAccessor,
    k: ((Seq<char>, Seq<char>), Seq<char>, ColumnType),
) -> Option<OwnedColumn> {
    match spec_acc_table(acc.tables@, k.0) {
        None => None,
        Some(t) => match crate::eval::spec_table_lookup(t.columns@, k.1) {
            None => None,
            Some(c) => if c.spec_type() == k.2 {
                Some(c)
            } else {
                None
            },
        },
    }
}

/// The column an accessor holds for a reference.
pub open spec fn spec_acc_column(acc: OwnedTableTestAccessor, cr: ColumnRef) -> Option<
    OwnedColumn,
> {
    spec_acc_column_key(acc, cr.spec_key())
}

impl OwnedTableTestAccessor {
    /// Every stored table is well-formed.
    pub open spec fn wf(self) -> bool {
        forall|i: int| 0 <= i < self.tables@.len() ==> (#[trigger] self.tables@[i]).1.wf()
    }

    pub fn new_empty() -> (r: OwnedTableTestAccessor)
        ensures
            r.tables@.len() == 0,
            r.wf(),
    {
        OwnedTableTestAccessor { tables: Vec::new() }
    }

    /// Stores a table under its reference, with its offset.
    pub fn add_table(&mut self, table_ref: TableRef, table: OwnedTable, offset: u64)
        requires
            old(self).wf(),
            table.wf(),
        ensures
            final(self).wf(),
            final(self).tables@ == old(self).tables@.push((table_ref, table, offset)),
    {
        self.tables.push((table_ref, table, offset));
    }

    /// The stored table under a key, if any.
    pub fn table_by_key(&self, key: &TableRef) -> (r: Option<&OwnedTable>)
        ensures
            r matches Some(t) ==> spec_acc_table(self.tables@, key.spec_key()) == Some(*t),
            r is None ==> spec_acc_table(self.tables@, key.spec_key()) is None,
    {
        proof {
            assert(self.tables@.skip(0) =~= self.tables@);
        }
        let n = self.tables.len();
        let mut i: usize = 0;
        while i < n
            invariant
                0 <= i <= n,
                n == self.tables@.len(),
                spec_acc_table(self.tables@, key.spec_key()) == spec_acc_table(
                    self.tables@.skip(i as int),
                    key.spec_key(),
                ),
            decreases n - i,
        {
            proof {
                assert(self.tables@.skip(i as int)[0] == self.tables@[i as int]);
                assert(self.tables@.skip(i as int).skip(1) =~= self.tables@.skip(i + 1int));
            }
            if self.tables[i].0.eq_table(key) {
                return Some(&self.tables[i].1);
            }
            i += 1;
        }
        None
    }

    /// The row count of a stored table.
    pub fn get_length(&self, key: &TableRef) -> (r: Option<usize>)
        ensures
            r matches Some(n) ==> spec_acc_table(self.tables@, key.spec_key()) matches Some(t)
                && n == t.spec_num_rows(),
            r is None ==> spec_acc_table(self.tables@, key.spec_key()) is None,
    {
        match self.table_by_key(key) {
            Some(t) => Some(t.num_rows()),
            None => None,
        }
    }

    /// The column a reference names, when present with the referenced type.
    pub fn get_column(&self, cr: &ColumnRef) -> (r: Option<&OwnedColumn>)
        ensures
            r matches Some(c) ==> spec_acc_column(*self, *cr) == Some(*c),
            r is None ==> spec_acc_column(*self, *cr) is None,
    {
        match self.table_by_key(&cr.table_ref) {
            Some(t) => match t.column_by_name(&cr.column_id) {
                Some(c) => {
                    if c.column_type() == cr.column_type {
                        Some(c)
                    } else {
                        None
                    }
                },
                None => None,
            },
            None => None,
        }
    }

    /// The commitment to the column a reference names.
    pub fn get_commitment(&self, cr: &ColumnRef) -> (r: Option<Commitment>)
        ensures
            r matches Some(cm) ==> spec_acc_column(*self, *cr) matches Some(c) && spec_col_eq(
                cm.column,
                c,
            ),
            r is None ==> spec_acc_column(*self, *cr) is None,
    {
        match self.get_column(cr) {
            Some(c) => Some(Commitment { column: c.clone() }),
            None => None,
        }
    }
}

/// A verifier-side failure; terminal for the proof it concerns.
#[derive(Clone, Copy, Debug, PartialEq, Eq, Structural, Hash)]
pub enum VerificationError {
    /// A recorded input commitment disagrees with the verifier's, or a
    /// referenced table or column is missing on the verifier's side.
    CommitmentMismatch,
    /// Replaying the plan fails or disagrees with the claimed result.
    ConstraintFailure,
    /// The claimed row count disagrees with the committed input length.
    OutputLengthInconsistency,
    /// A claimed result cell does not decode at its published type.
    DecodingFailure,
}

/// The public cells of one result column: field elements for every numeric or
/// boolean column, text for a string column.
#[derive(Debug, PartialEq, Eq)]
pub enum ProvableColumn {
    Scalars(Vec<Scalar>),
    Strings(Vec<String>),
}

impl ProvableColumn {
    pub open spec fn wf(self) -> bool {
        match self {
            ProvableColumn::Scalars(v) => forall|i: int|
                0 <= i < v@.len() ==> (#[trigger] v@[i]).is_canonical(),
            ProvableColumn::Strings(_) => true,
        }
    }

    pub open spec fn spec_len(self) -> nat {
        match self {
            ProvableColumn::Scalars(v) => v@.len(),
            ProvableColumn::Strings(v) => v@.len(),
        }
    }
}

/// The model of a public result column.
pub enum ProvableColV {
    Scalars(Seq<nat>),
    Strings(Seq<Seq<char>>),
}

pub open spec fn provable_col_v(c: ProvableColumn) -> ProvableColV {
    match c {
        ProvableColumn::Scalars(v) => ProvableColV::Scalars(
            v@.map(|_i: int, x: Scalar| x.val()),
        ),
        ProvableColumn::Strings(v) => ProvableColV::Strings(v.deep_view()),
    }
}

/// The canonical public encoding of a column: booleans as zero and one,
/// integers lifted into the field, decimals and raw scalars as they are,
/// text verbatim.
pub open spec fn spec_encode_cells(cv: ColumnV) -> ProvableColV {
    match cv {
        ColumnV::Boolean(v) => ProvableColV::Scalars(
            v.map(|_i: int, b: bool| if b { 1nat } else { 0nat }),
        ),
        ColumnV::BigInt(v) => ProvableColV::Scalars(v.map(|_i: int, x: int| field_of_int(x))),
        ColumnV::Int128(v) => ProvableColV::Scalars(v.map(|_i: int, x: int| field_of_int(x))),
        ColumnV::Decimal75(_, _, v) => ProvableColV::Scalars(v),
        ColumnV::VarChar(v) => ProvableColV::Strings(v),
        ColumnV::Scalar(v) => ProvableColV::Scalars(v),
    }
}

/// The public portion of a query result.
#[derive(Debug, PartialEq, Eq)]
pub struct ProvableQueryResult {
    pub num_rows: u64,
    pub columns: Vec<ProvableColumn>,
}

impl ProvableQueryResult {
    pub open spec fn wf(self) -> bool {
        forall|i: int| 0 <= i < self.columns@.len() ==> (#[trigger] self.columns@[i]).wf()
            && self.columns@[i].spec_len() == self.num_rows
    }
}

/// Whether the public result is exactly the encoding of the given columns.
pub open spec fn spec_provable_matches(
    pr: ProvableQueryResult,
    cols: Seq<(Seq<char>, ColumnV)>,
    rows: nat,
) -> bool {
    &&& pr.num_rows == rows
    &&& pr.columns@.len() == cols.len()
    &&& forall|i: int| 0 <= i < cols.len() ==> provable_col_v(#[trigger] pr.columns@[i])
        == spec_encode_cells(cols[i].1)
}

/// The transcript-bound prover artifact: the input commitments in the order
/// the plan references them, and the committed input length.
#[derive(Debug, PartialEq, Eq)]
pub struct QueryProof {
    pub table_length: u64,
    pub commitments: Vec<(ColumnRef, Commitment)>,
}

/// Every recorded commitment agrees with what the accessor holds.
pub open spec fn spec_commitments_match(
    cs: Seq<(ColumnRef, Commitment)>,
    acc: OwnedTableTestAccessor,
) -> bool {
    forall|i: int| 0 <= i < cs.len() ==> match spec_acc_column(acc, (#[trigger] cs[i]).0) {
        Some(c) => spec_col_eq(cs[i].1.column, c),
        None => false,
    }
}

/// Every column the plan references has a recorded commitment.
pub open spec fn spec_commitments_cover(
    p: DynProofPlan,
    cs: Seq<(ColumnRef, Commitment)>,
) -> bool {
    forall|k: ((Seq<char>, Seq<char>), Seq<char>, ColumnType)| p.spec_refs().contains(k)
        ==> exists|i: int| 0 <= i < cs.len() && (#[trigger] cs[i]).0.spec_key() == k
}

/// A public result preview coupled with the proof that binds it.
#[derive(Debug, PartialEq, Eq)]
pub struct VerifiableQueryResult {
    pub provable_result: ProvableQueryResult,
    pub proof: QueryProof,
}


/// The signed integer a field element stands for in 64 bits, if any.
pub open spec fn spec_decode_i64(v: nat) -> Option<int> {
    if v <= i64::MAX {
        Some(v as int)
    } else if v >= group_order() - 0x8000000000000000nat {
        Some(v - group_order())
    } else {
        None
    }
}

/// The signed integer a field element stands for in 128 bits, if any.
pub open spec fn spec_decode_i128(v: nat) -> Option<int> {
    if v <= i128::MAX {
        Some(v as int)
    } else if v >= group_order() - 0x80000000000000000000000000000000nat {
        Some(v - group_order())
    } else {
        None
    }
}

/// The boolean a field element stands for, if any.
pub open spec fn spec_decode_bool(v: nat) -> Option<bool> {
    if v == 0 {
        Some(false)
    } else if v == 1 {
        Some(true)
    } else {
        None
    }
}

/// Decodes a canonical scalar as a 64-bit signed integer.
fn decode_i64(s: &Scalar) -> (r: Option<i64>)
    requires
        s.is_canonical(),
    ensures
        r is Some <==> spec_decode_i64(s.val()) is Some,
        r matches Some(x) ==> spec_decode_i64(s.val()) == Some(x as int),
{
    if s.d1 == 0 && s.d2 == 0 && s.d3 == 0 && s.d0 <= 0x7fffffffffffffff {
        Some(s.d0 as i64)
    } else {
        assert(s.val() > i64::MAX);
        let m = s.neg();
        if m.d1 == 0 && m.d2 == 0 && m.d3 == 0 && m.d0 <= 0x8000000000000000 {
            if m.d0 == 0x8000000000000000 {
                Some(i64::MIN)
            } else {
                Some(-(m.d0 as i64))
            }
        } else {
            proof {
                if m.val() <= 0x8000000000000000nat {
                    assert(m.d1 == 0 && m.d2 == 0 && m.d3 == 0);
                }
            }
            None
        }
    }
}

/// Decodes a canonical scalar as a 128-bit signed integer.
fn decode_i128(s: &Scalar) -> (r: Option<i128>)
    requires
        s.is_canonical(),
    ensures
        r is Some <==> spec_decode_i128(s.val()) is Some,
        r matches Some(x) ==> spec_decode_i128(s.val()) == Some(x as int),
{
    if s.d2 == 0 && s.d3 == 0 && s.d1 <= 0x7fffffffffffffff {
        let v: u128 = s.d0 as u128 + (s.d1 as u128) * 0x10000000000000000;
        Some(v as i128)
    } else {
        proof {
            if s.val() <= i128::MAX {
                assert(s.d2 == 0 && s.d3 == 0 && s.d1 <= 0x7fffffffffffffff);
            }
        }
        let m = s.neg();
        if m.d2 == 0 && m.d3 == 0 && (m.d1 < 0x8000000000000000 || (m.d1 == 0x8000000000000000
            && m.d0 == 0)) {
            let a: u128 = m.d0 as u128 + (m.d1 as u128) * 0x10000000000000000;
            if a == 0x80000000000000000000000000000000 {
                Some(i128::MIN)
            } else {
                Some(-(a as i128))
            }
        } else {
            proof {
                if m.val() <= 0x80000000000000000000000000000000nat {
                    assert(m.d2 == 0 && m.d3 == 0);
                    assert(m.d1 <= 0x8000000000000000);
                    if m.d1 == 0x8000000000000000 {
                        assert(m.d0 == 0);
                    }
                }
            }
            None
        }
    }
}

/// Decodes a canonical scalar as a boolean.
fn decode_bool(s: &Scalar) -> (r: Option<bool>)
    requires
        s.is_canonical(),
    ensures
        r is Some <==> spec_decode_bool(s.val()) is Some,
        r matches Some(b) ==> spec_decode_bool(s.val()) == Some(b),
{
    if s.d0 == 0 && s.d1 == 0 && s.d2 == 0 && s.d3 == 0 {
        Some(false)
    } else if s.d0 == 1 && s.d1 == 0 && s.d2 == 0 && s.d3 == 0 {
        Some(true)
    } else {
        None
    }
}


/// The cells a decoded column must carry for each published type.
pub open spec fn spec_decode_cells(pcv: ProvableColV, ty: ColumnType, n: nat) -> Option<
    ColumnV,
> {
    match ty {
        ColumnType::Boolean => match pcv {
            ProvableColV::Scalars(v) => if v.len() == n && forall|i: int|
                0 <= i < v.len() ==> spec_decode_bool(#[trigger] v[i]) is Some {
                Some(ColumnV::Boolean(v.map(|_i: int, x: nat| spec_decode_bool(x).unwrap())))
            } else {
                None
            },
            _ => None,
        },
        ColumnType::BigInt => match pcv {
            ProvableColV::Scalars(v) => if v.len() == n && forall|i: int|
                0 <= i < v.len() ==> spec_decode_i64(#[trigger] v[i]) is Some {
                Some(ColumnV::BigInt(v.map(|_i: int, x: nat| spec_decode_i64(x).unwrap())))
            } else {
                None
            },
            _ => None,
        },
        ColumnType::Int128 => match pcv {
            ProvableColV::Scalars(v) => if v.len() == n && forall|i: int|
                0 <= i < v.len() ==> spec_decode_i128(#[trigger] v[i]) is Some {
                Some(ColumnV::Int128(v.map(|_i: int, x: nat| spec_decode_i128(x).unwrap())))
            } else {
                None
            },
            _ => None,
        },
        ColumnType::Decimal75(p, s) => match pcv {
            ProvableColV::Scalars(v) => if v.len() == n && p.wf() {
                Some(ColumnV::Decimal75(p, s, v))
            } else {
                None
            },
            _ => None,
        },
        ColumnType::Scalar => match pcv {
            ProvableColV::Scalars(v) => if v.len() == n {
                Some(ColumnV::Scalar(v))
            } else {
                None
            },
            _ => None,
        },
        ColumnType::VarChar => match pcv {
            ProvableColV::Strings(v) => if v.len() == n {
                Some(ColumnV::VarChar(v))
            } else {
                None
            },
            _ => None,
        },
    }
}

/// Publishes a column in its canonical public encoding.
fn encode_column(c: &OwnedColumn) -> (r: ProvableColumn)
    requires
        c.wf(),
    ensures
        provable_col_v(r) == spec_encode_cells(col_v(*c)),
        r.wf(),
        r.spec_len() == c.spec_len(),
{
    match c {
        OwnedColumn::Boolean(x) => {
            let mut v: Vec<Scalar> = Vec::new();
            let mut i: usize = 0;
            while i < x.len()
                invariant
                    0 <= i <= x@.len(),
                    v@.len() == i,
                    forall|j: int| 0 <= j < i ==> (#[trigger] v@[j]).is_canonical(),
                    forall|j: int| 0 <= j < i ==> (#[trigger] v@[j]).val() == if x@[j] {
                        1nat
                    } else {
                        0nat
                    },
                decreases x@.len() - i,
            {
                v.push(if x[i] {
                    Scalar::one()
                } else {
                    Scalar::zero()
                });
                i += 1;
            }
            proof {
                assert(v@.map(|_i: int, s: Scalar| s.val()) =~= x@.map(
                    |_i: int,
                    b: bool,
                | if b {
                    1nat
                } else {
                    0nat
                }));
            }
            ProvableColumn::Scalars(v)
        },
        OwnedColumn::BigInt(x) => {
            let mut v: Vec<Scalar> = Vec::new();
            let mut i: usize = 0;
            while i < x.len()
                invariant
                    0 <= i <= x@.len(),
                    v@.len() == i,
                    forall|j: int| 0 <= j < i ==> (#[trigger] v@[j]).is_canonical(),
                    forall|j: int| 0 <= j < i
                        ==> (#[trigger] v@[j]).val() == field_of_int(x@[j] as int),
                decreases x@.len() - i,
            {
                let s = Scalar::from_i64(x[i]);
                proof {
                    crate::eval::lemma_field_of_small(x@[i as int] as int);
                }
                v.push(s);
                i += 1;
            }
            proof {
                assert(v@.map(|_i: int, s: Scalar| s.val()) =~= x@.map(
                    |_i: int,
                    y: i64,
                | y as int).map(|_i: int, z: int| field_of_int(z)));
            }
            ProvableColumn::Scalars(v)
        },
        OwnedColumn::Int128(x) => {
            let mut v: Vec<Scalar> = Vec::new();
            let mut i: usize = 0;
            while i < x.len()
                invariant
                    0 <= i <= x@.len(),
                    v@.len() == i,
                    forall|j: int| 0 <= j < i ==> (#[trigger] v@[j]).is_canonical(),
                    forall|j: int| 0 <= j < i
                        ==> (#[trigger] v@[j]).val() == field_of_int(x@[j] as int),
                decreases x@.len() - i,
            {
                let s = Scalar::from_i128(x[i]);
                proof {
                    crate::eval::lemma_field_of_small(x@[i as int] as int);
                }
                v.push(s);
                i += 1;
            }
            proof {
                assert(v@.map(|_i: int, s: Scalar| s.val()) =~= x@.map(
                    |_i: int,
                    y: i128,
                | y as int).map(|_i: int, z: int| field_of_int(z)));
            }
            ProvableColumn::Scalars(v)
        },
        OwnedColumn::Decimal75(_, _, x) => {
            let v = crate::table::copy_vec(x);
            proof {
                assert(v@.map(|_i: int, s: Scalar| s.val()) =~= x@.map(
                    |_i: int,
                    s: Scalar,
                | s.val()));
            }
            ProvableColumn::Scalars(v)
        },
        OwnedColumn::Scalar(x) => {
            let v = crate::table::copy_vec(x);
            proof {
                assert(v@.map(|_i: int, s: Scalar| s.val()) =~= x@.map(
                    |_i: int,
                    s: Scalar,
                | s.val()));
            }
            ProvableColumn::Scalars(v)
        },
        OwnedColumn::VarChar(x) => {
            let v = crate::table::clone_vec_string(x);
            proof {
                assert(v.deep_view().len() == v@.len());
                assert(x.deep_view().len() == x@.len());
            }
            ProvableColumn::Strings(v)
        },
    }
}

/// Reads a published column back at its published type, rejecting any cell
/// that does not decode.
fn decode_column(pc: &ProvableColumn, ty: ColumnType, n: usize) -> (r: Result<
    OwnedColumn,
    VerificationError,
>)
    requires
        pc.wf(),
    ensures
        ({
            let sd = spec_decode_cells(provable_col_v(*pc), ty, n as nat);
            match sd {
                Some(cv) => r matches Ok(c) && col_v(c) == cv && c.wf() && c.spec_type() == ty
                    && c.spec_len() == n,
                None => r == Err::<OwnedColumn, VerificationError>(
                    VerificationError::DecodingFailure,
                ),
            }
        }),
{
    match (pc, ty) {
        (ProvableColumn::Scalars(v), ColumnType::Boolean) => {
            proof {
                assert(v@.map(|_i: int, s: Scalar| s.val()).len() == v@.len());
            }
            if v.len() != n {
                return Err(VerificationError::DecodingFailure);
            }
            let mut w: Vec<bool> = Vec::new();
            let mut i: usize = 0;
            while i < v.len()
                invariant
                    0 <= i <= v@.len(),
                    v@.len() == n,
                    v@.map(|_i: int, s: Scalar| s.val()).len() == v@.len(),
                    pc.wf(),
                    pc == ProvableColumn::Scalars(*v),
                    ty == ColumnType::Boolean,
                    w@.len() == i,
                    forall|j: int| 0 <= j < i
                        ==> spec_decode_bool((#[trigger] v@[j]).val()) == Some(w@[j]),
                decreases v@.len() - i,
            {
                match decode_bool(&v[i]) {
                    Some(b) => {
                        w.push(b);
                    },
                    None => {
                        proof {
                            assert(v@.map(|_i: int, s: Scalar| s.val())[i as int]
                                == v@[i as int].val());
                        }
                        return Err(VerificationError::DecodingFailure);
                    },
                }
                i += 1;
            }
            proof {
                assert(w@ =~= v@.map(|_i: int, s: Scalar| s.val()).map(
                    |_i: int,
                    x: nat,
                | spec_decode_bool(x).unwrap()));
            }
            Ok(OwnedColumn::Boolean(w))
        },
        (ProvableColumn::Scalars(v), ColumnType::BigInt) => {
            proof {
                assert(v@.map(|_i: int, s: Scalar| s.val()).len() == v@.len());
            }
            if v.len() != n {
                return Err(VerificationError::DecodingFailure);
            }
            let mut w: Vec<i64> = Vec::new();
            let mut i: usize = 0;
            while i < v.len()
                invariant
                    0 <= i <= v@.len(),
                    v@.len() == n,
                    v@.map(|_i: int, s: Scalar| s.val()).len() == v@.len(),
                    pc.wf(),
                    pc == ProvableColumn::Scalars(*v),
                    ty == ColumnType::BigInt,
                    w@.len() == i,
                    forall|j: int| 0 <= j < i
                        ==> spec_decode_i64((#[trigger] v@[j]).val()) == Some(w@[j] as int),
                decreases v@.len() - i,
            {
                match decode_i64(&v[i]) {
                    Some(b) => {
                        w.push(b);
                    },
                    None => {
                        proof {
                            assert(v@.map(|_i: int, s: Scalar| s.val())[i as int]
                                == v@[i as int].val());
                        }
                        return Err(VerificationError::DecodingFailure);
                    },
                }
                i += 1;
            }
            proof {
                assert(w@.map(|_i: int, y: i64| y as int) =~= v@.map(
                    |_i: int,
                    s: Scalar,
                | s.val()).map(|_i: int, x: nat| spec_decode_i64(x).unwrap()));
            }
            Ok(OwnedColumn::BigInt(w))
        },
        (ProvableColumn::Scalars(v), ColumnType::Int128) => {
            proof {
                assert(v@.map(|_i: int, s: Scalar| s.val()).len() == v@.len());
            }
            if v.len() != n {
                return Err(VerificationError::DecodingFailure);
            }
            let mut w: Vec<i128> = Vec::new();
            let mut i: usize = 0;
            while i < v.len()
                invariant
                    0 <= i <= v@.len(),
                    v@.len() == n,
                    v@.map(|_i: int, s: Scalar| s.val()).len() == v@.len(),
                    pc.wf(),
                    pc == ProvableColumn::Scalars(*v),
                    ty == ColumnType::Int128,
                    w@.len() == i,
                    forall|j: int| 0 <= j < i
                        ==> spec_decode_i128((#[trigger] v@[j]).val()) == Some(w@[j] as int),
                decreases v@.len() - i,
            {
                match decode_i128(&v[i]) {
                    Some(b) => {
                        w.push(b);
                    },
                    None => {
                        proof {
                            assert(v@.map(|_i: int, s: Scalar| s.val())[i as int]
                                == v@[i as int].val());
                        }
                        return Err(VerificationError::DecodingFailure);
                    },
                }
                i += 1;
            }
            proof {
                assert(w@.map(|_i: int, y: i128| y as int) =~= v@.map(
                    |_i: int,
                    s: Scalar,
                | s.val()).map(|_i: int, x: nat| spec_decode_i128(x).unwrap()));
            }
            Ok(OwnedColumn::Int128(w))
        },
        (ProvableColumn::Scalars(v), ColumnType::Decimal75(p, s)) => {
            proof {
                assert(v@.map(|_i: int, s: Scalar| s.val()).len() == v@.len());
            }
            if v.len() != n || p.value < 1 || p.value > 75 {
                return Err(VerificationError::DecodingFailure);
            }
            let w = crate::table::copy_vec(v);
            proof {
                assert(w@.map(|_i: int, s: Scalar| s.val()) =~= v@.map(
                    |_i: int,
                    s: Scalar,
                | s.val()));
            }
            Ok(OwnedColumn::Decimal75(p, s, w))
        },
        (ProvableColumn::Scalars(v), ColumnType::Scalar) => {
            proof {
                assert(v@.map(|_i: int, s: Scalar| s.val()).len() == v@.len());
            }
            if v.len() != n {
                return Err(VerificationError::DecodingFailure);
            }
            let w = crate::table::copy_vec(v);
            proof {
                assert(w@.map(|_i: int, s: Scalar| s.val()) =~= v@.map(
                    |_i: int,
                    s: Scalar,
                | s.val()));
            }
            Ok(OwnedColumn::Scalar(w))
        },
        (ProvableColumn::Strings(v), ColumnType::VarChar) => {
            proof {
                assert(v.deep_view().len() == v@.len());
            }
            if v.len() != n {
                return Err(VerificationError::DecodingFailure);
            }
            let w = crate::table::clone_vec_string(v);
            Ok(OwnedColumn::VarChar(w))
        },
        _ => Err(VerificationError::DecodingFailure),
    }
}


/// No two output aliases of the plan collide.
pub open spec fn spec_aliases_distinct(p: DynProofPlan) -> bool {
    forall|i: int, j: int| 0 <= i < j < p.spec_aliased().len()
        ==> (#[trigger] p.spec_aliased()[i]).alias@ != (#[trigger] p.spec_aliased()[j]).alias@
}

/// The row count a named-column model publishes.
pub open spec fn spec_output_rows(cols: Seq<(Seq<char>, crate::eval::ColumnV)>) -> nat {
    if cols.len() == 0 {
        0
    } else {
        cols[0].1.len()
    }
}

/// Exactly when a verifier accepts: its accessor holds the planned table at
/// the committed length, every recorded input commitment agrees with its own
/// and covers every referenced column, the aliases are distinct, replaying
/// the plan succeeds, and the published result decodes, column by column at
/// its published type, to precisely the replayed result. The output must
/// match the plan's aliased list, so only projections and filters — the
/// nodes that publish aliases — can be verified; a bare table scan is a
/// leaf, not a plan of its own.
pub open spec fn spec_verify_ok(
    vqr: VerifiableQueryResult,
    plan: DynProofPlan,
    acc: OwnedTableTestAccessor,
) -> bool {
    match spec_acc_table(acc.tables@, plan.spec_table_key()) {
        None => false,
        Some(t2) => {
            &&& t2.spec_num_rows() == vqr.proof.table_length
            &&& spec_commitments_cover(plan, vqr.proof.commitments@)
            &&& spec_commitments_match(vqr.proof.commitments@, acc)
            &&& spec_aliases_distinct(plan)
            &&& match crate::plan::spec_eval_plan(plan, t2) {
                Err(_) => false,
                Ok(cols) => {
                    &&& cols.len() == plan.spec_aliased().len()
                    &&& vqr.provable_result.num_rows == spec_output_rows(cols)
                    &&& vqr.provable_result.columns@.len() == cols.len()
                    &&& forall|i: int| 0 <= i < cols.len() ==> spec_decode_cells(
                        provable_col_v(#[trigger] vqr.provable_result.columns@[i]),
                        plan.spec_aliased()[i].expr.spec_data_type().unwrap(),
                        spec_output_rows(cols),
                    ) == Some(cols[i].1)
                },
            }
        },
    }
}

/// Exactly when the prover succeeds: the planned table is present, the plan
/// evaluates over it without a fatal error, the published aliases are
/// distinct, and every referenced column resolves in the accessor at its
/// referenced type.
pub open spec fn spec_prove_ok(plan: DynProofPlan, acc: OwnedTableTestAccessor) -> bool {
    match spec_acc_table(acc.tables@, plan.spec_table_key()) {
        None => false,
        Some(t) => {
            &&& crate::plan::spec_eval_plan(plan, t) is Ok
            &&& spec_aliases_distinct(plan)
            &&& forall|k: ((Seq<char>, Seq<char>), Seq<char>, ColumnType)|
                plan.spec_refs().contains(k) ==> spec_acc_column_key(acc, k) is Some
        },
    }
}

impl VerifiableQueryResult {
    /// Runs the prover: evaluates the plan over the accessor's data, records
    /// the commitments of every referenced column and the committed input
    /// length, and publishes the result columns in their public encoding.
    pub fn new(plan: &DynProofPlan, accessor: &OwnedTableTestAccessor) -> (r: Result<
        VerifiableQueryResult,
        EvalError,
    >)
        requires
            plan.wf(),
            plan.spec_well_typed(),
            accessor.wf(),
        ensures
            r matches Ok(vqr) ==> ({
                &&& spec_acc_table(accessor.tables@, plan.spec_table_key()) matches Some(t)
                    && vqr.proof.table_length == t.spec_num_rows()
                    && crate::plan::spec_eval_plan(*plan, t) is Ok
                &&& spec_commitments_cover(*plan, vqr.proof.commitments@)
                &&& spec_commitments_match(vqr.proof.commitments@, *accessor)
                &&& spec_aliases_distinct(*plan)
                &&& ({
                    let cols = crate::plan::spec_eval_plan(
                        *plan,
                        spec_acc_table(accessor.tables@, plan.spec_table_key()).unwrap(),
                    ).unwrap();
                    &&& vqr.provable_result.num_rows == spec_output_rows(cols)
                    &&& vqr.provable_result.columns@.len() == cols.len()
                    &&& forall|i: int| 0 <= i < cols.len() ==> provable_col_v(
                        #[trigger] vqr.provable_result.columns@[i],
                    ) == spec_encode_cells(cols[i].1)
                    &&& vqr.provable_result.wf()
                })
            }),
            plan is Projection || plan is Filter ==> (r matches Ok(vqr)
                ==> spec_verify_ok(vqr, *plan, *accessor)),
            r is Ok <==> spec_prove_ok(*plan, *accessor),
            spec_acc_table(accessor.tables@, plan.spec_table_key()) is None
                ==> r == Err::<VerifiableQueryResult, EvalError>(EvalError::AccessorMissing),
            spec_acc_table(accessor.tables@, plan.spec_table_key()) matches Some(t)
                ==> (crate::plan::spec_eval_plan(*plan, t) matches Err(e)
                    ==> r == Err::<VerifiableQueryResult, EvalError>(e)),
            spec_acc_table(accessor.tables@, plan.spec_table_key()) matches Some(t)
                ==> (crate::plan::spec_eval_plan(*plan, t) is Ok
                    && !spec_aliases_distinct(*plan)
                    ==> r == Err::<VerifiableQueryResult, EvalError>(EvalError::PlanType)),
    {
        let t = match accessor.table_by_key(&table_ref_of(plan)) {
            Some(t) => t,
            None => {
                return Err(EvalError::AccessorMissing);
            },
        };
        proof {
            lemma_acc_table_member(accessor.tables@, plan.spec_table_key());
            let i = choose|i: int|
                0 <= i < accessor.tables@.len() && (#[trigger] accessor.tables@[i]).1 == *t;
            assert(accessor.tables@[i].1.wf());
        }
        let out = plan.result_evaluate(t)?;
        if has_duplicate_aliases(plan) {
            return Err(EvalError::PlanType);
        }
        let refs = plan.get_column_references();
        let mut commitments: Vec<(ColumnRef, Commitment)> = Vec::new();
        let mut i: usize = 0;
        while i < refs.len()
            invariant
                0 <= i <= refs@.len(),
                accessor.wf(),
                spec_acc_table(accessor.tables@, plan.spec_table_key()) == Some(*t),
                crate::plan::spec_eval_plan(*plan, *t) is Ok,
                spec_aliases_distinct(*plan),
                forall|j: int| 0 <= j < refs@.len() ==> plan.spec_refs().contains(
                    (#[trigger] refs@[j]).spec_key(),
                ),
                commitments@.len() == i,
                forall|j: int| 0 <= j < i ==> (#[trigger] commitments@[j]).0.spec_key()
                    == refs@[j].spec_key(),
                forall|j: int| 0 <= j < i ==> match spec_acc_column(
                    *accessor,
                    (#[trigger] commitments@[j]).0,
                ) {
                    Some(c) => spec_col_eq(commitments@[j].1.column, c),
                    None => false,
                },
            decreases refs@.len() - i,
        {
            let cr = refs[i].clone();
            match accessor.get_commitment(&cr) {
                Some(cm) => {
                    commitments.push((cr, cm));
                },
                None => {
                    proof {
                        assert(spec_acc_column_key(*accessor, refs@[i as int].spec_key())
                            is None);
                        assert(!spec_prove_ok(*plan, *accessor));
                    }
                    return Err(EvalError::AccessorMissing);
                },
            }
            i += 1;
        }
        proof {
            assert forall|k: ((Seq<char>, Seq<char>), Seq<char>, ColumnType)|
                plan.spec_refs().contains(k) implies exists|j: int|
                0 <= j < commitments@.len() && (#[trigger] commitments@[j]).0.spec_key()
                    == k by {
                let j0 = choose|j: int|
                    0 <= j < refs@.len() && (#[trigger] refs@[j]).spec_key() == k;
                assert(commitments@[j0].0.spec_key() == k);
            }
            assert forall|k: ((Seq<char>, Seq<char>), Seq<char>, ColumnType)|
                plan.spec_refs().contains(k) implies spec_acc_column_key(*accessor, k)
                is Some by {
                let j0 = choose|j: int|
                    0 <= j < refs@.len() && (#[trigger] refs@[j]).spec_key() == k;
                assert(spec_acc_column(*accessor, commitments@[j0].0) is Some);
                assert(commitments@[j0].0.spec_key() == k);
            }
            assert(spec_prove_ok(*plan, *accessor));
        }
        let num_rows = out.num_rows();
        let mut pcols: Vec<ProvableColumn> = Vec::new();
        let mut j: usize = 0;
        while j < out.columns.len()
            invariant
                0 <= j <= out.columns@.len(),
                out.wf(),
                pcols@.len() == j,
                num_rows == out.spec_num_rows(),
                forall|k: int| 0 <= k < j ==> provable_col_v(#[trigger] pcols@[k])
                    == spec_encode_cells(crate::eval::col_v(out.columns@[k].1)),
                forall|k: int| 0 <= k < j ==> (#[trigger] pcols@[k]).wf()
                    && pcols@[k].spec_len() == num_rows,
            decreases out.columns@.len() - j,
        {
            let pc = encode_column(&out.columns[j].1);
            pcols.push(pc);
            j += 1;
        }
        let provable_result = ProvableQueryResult { num_rows: num_rows as u64, columns: pcols };
        let table_length = t.num_rows();
        let vqr = VerifiableQueryResult {
            provable_result,
            proof: QueryProof { table_length: table_length as u64, commitments },
        };
        proof {
            let cols = crate::plan::spec_eval_plan(*plan, *t).unwrap();
            assert(crate::plan::table_v(out) == cols);
            assert(vqr.provable_result.columns@.len() == cols.len());
            assert forall|k: int| 0 <= k < cols.len() implies provable_col_v(
                #[trigger] vqr.provable_result.columns@[k],
            ) == spec_encode_cells(cols[k].1) by {
                assert(cols[k] == crate::plan::table_v(out)[k]);
                assert(cols[k].1 == crate::eval::col_v(out.columns@[k].1));
            }
            if cols.len() > 0 {
                assert(cols[0].1 == crate::eval::col_v(out.columns@[0].1));
                crate::eval::lemma_col_v_len(out.columns@[0].1);
            }
            match plan {
                DynProofPlan::Table(_) => {},
                _ => {
                    lemma_completeness(vqr, *plan, *accessor);
                },
            }
        }
        Ok(vqr)
    }
}

/// A looked-up table is one of the accessor's tables.
proof fn lemma_acc_table_member(ts: Seq<(TableRef, OwnedTable, u64)>, key: (Seq<char>, Seq<char>))
    ensures
        spec_acc_table(ts, key) matches Some(t) ==> exists|i: int|
            0 <= i < ts.len() && (#[trigger] ts[i]).1 == t,
    decreases ts.len(),
{
    if ts.len() > 0 && ts[0].0.spec_key() != key {
        lemma_acc_table_member(ts.skip(1), key);
        if spec_acc_table(ts, key) is Some {
            let t = spec_acc_table(ts, key).unwrap();
            let i = choose|i: int|
                0 <= i < ts.skip(1).len() && (#[trigger] ts.skip(1)[i]).1 == t;
            assert(ts[i + 1].1 == t);
        }
    }
}

/// The table reference a plan reads.
fn table_ref_of(plan: &DynProofPlan) -> (r: TableRef)
    ensures
        r.spec_key() == plan.spec_table_key(),
{
    match plan {
        DynProofPlan::Table(te) => te.table_ref.clone(),
        DynProofPlan::Projection(pe) => pe.table.table_ref.clone(),
        DynProofPlan::Filter(fe) => fe.table.table_ref.clone(),
    }
}

/// Whether two published aliases of the plan collide.
fn has_duplicate_aliases(plan: &DynProofPlan) -> (r: bool)
    ensures
        r == !spec_aliases_distinct(*plan),
{
    let aliased: &Vec<crate::plan::AliasedDynProofExpr> = match plan {
        DynProofPlan::Table(_) => {
            return false;
        },
        DynProofPlan::Projection(pe) => &pe.aliased_results,
        DynProofPlan::Filter(fe) => &fe.aliased_results,
    };
    let n = aliased.len();
    let mut i: usize = 0;
    while i < n
        invariant
            0 <= i <= n,
            n == aliased@.len(),
            aliased@ == plan.spec_aliased(),
            forall|a: int, b: int| 0 <= a < i && a < b < n
                ==> (#[trigger] aliased@[a]).alias@ != (#[trigger] aliased@[b]).alias@,
        decreases n - i,
    {
        let mut j: usize = i + 1;
        while j < n
            invariant
                0 <= i < j <= n,
                n == aliased@.len(),
                aliased@ == plan.spec_aliased(),
                forall|b: int| i < b < j
                    ==> (#[trigger] aliased@[b]).alias@ != aliased@[i as int].alias@,
            decreases n - j,
        {
            if aliased[i].alias.eq_name(&aliased[j].alias) {
                return true;
            }
            j += 1;
        }
        i += 1;
    }
    false
}


/// Well-formed columns with the same model are the same column: canonical
/// scalars are unique representatives of their values.
pub proof fn lemma_col_v_injective(a: OwnedColumn, b: OwnedColumn)
    requires
        a.wf(),
        b.wf(),
        col_v(a) == col_v(b),
    ensures
        spec_col_eq(a, b),
{
    match (a, b) {
        (OwnedColumn::Boolean(_), OwnedColumn::Boolean(_)) => {},
        (OwnedColumn::BigInt(x), OwnedColumn::BigInt(y)) => {
            assert(x@.map(|_i: int, v: i64| v as int).len() == x@.len());
            assert(y@.map(|_i: int, v: i64| v as int).len() == y@.len());
            assert forall|i: int| 0 <= i < x@.len() implies x@[i] == y@[i] by {
                assert(x@.map(|_i: int, v: i64| v as int)[i] == x@[i] as int);
                assert(y@.map(|_i: int, v: i64| v as int)[i] == y@[i] as int);
            }
            assert(x@ =~= y@);
        },
        (OwnedColumn::Int128(x), OwnedColumn::Int128(y)) => {
            assert(x@.map(|_i: int, v: i128| v as int).len() == x@.len());
            assert(y@.map(|_i: int, v: i128| v as int).len() == y@.len());
            assert forall|i: int| 0 <= i < x@.len() implies x@[i] == y@[i] by {
                assert(x@.map(|_i: int, v: i128| v as int)[i] == x@[i] as int);
                assert(y@.map(|_i: int, v: i128| v as int)[i] == y@[i] as int);
            }
            assert(x@ =~= y@);
        },
        (OwnedColumn::Decimal75(_, _, x), OwnedColumn::Decimal75(_, _, y)) => {
            lemma_scalar_cells_injective(x@, y@);
        },
        (OwnedColumn::VarChar(_), OwnedColumn::VarChar(_)) => {},
        (OwnedColumn::Scalar(x), OwnedColumn::Scalar(y)) => {
            lemma_scalar_cells_injective(x@, y@);
        },
        _ => {},
    }
}

/// Canonical scalar sequences with equal values are equal.
proof fn lemma_scalar_cells_injective(x: Seq<Scalar>, y: Seq<Scalar>)
    requires
        forall|i: int| 0 <= i < x.len() ==> (#[trigger] x[i]).is_canonical(),
        forall|i: int| 0 <= i < y.len() ==> (#[trigger] y[i]).is_canonical(),
        x.map(|_i: int, s: Scalar| s.val()) == y.map(|_i: int, s: Scalar| s.val()),
    ensures
        x == y,
{
    assert(x.map(|_i: int, s: Scalar| s.val()).len() == x.len());
    assert(y.map(|_i: int, s: Scalar| s.val()).len() == y.len());
    assert forall|i: int| 0 <= i < x.len() implies x[i] == y[i] by {
        assert(x.map(|_i: int, s: Scalar| s.val())[i] == x[i].val());
        assert(y.map(|_i: int, s: Scalar| s.val())[i] == y[i].val());
        crate::scalar::lemma_val_injective(x[i], y[i]);
    }
    assert(x =~= y);
}

/// Tamper detection: a single recorded commitment that disagrees with the
/// verifier's accessor, for any reason, makes acceptance impossible.
pub proof fn lemma_tamper_detected(
    vqr: VerifiableQueryResult,
    plan: DynProofPlan,
    acc: OwnedTableTestAccessor,
    i: int,
)
    requires
        0 <= i < vqr.proof.commitments@.len(),
        match spec_acc_column(acc, vqr.proof.commitments@[i].0) {
            Some(c) => !spec_col_eq(vqr.proof.commitments@[i].1.column, c),
            None => true,
        },
    ensures
        !spec_verify_ok(vqr, plan, acc),
{
}

impl VerifiableQueryResult {
    /// Runs the verifier: checks the committed input length, every recorded
    /// input commitment against its own accessor and the plan's reference
    /// list, replays the plan, and decodes the published result, accepting
    /// exactly under `spec_verify_ok`.
    pub fn verify(&self, plan: &DynProofPlan, accessor: &OwnedTableTestAccessor) -> (r: Result<
        OwnedTable,
        VerificationError,
    >)
        requires
            plan.wf(),
            plan.spec_well_typed(),
            accessor.wf(),
            self.provable_result.wf(),
        ensures
            r is Ok <==> spec_verify_ok(*self, *plan, *accessor),
            r matches Ok(out) ==> ({
                let t2 = spec_acc_table(accessor.tables@, plan.spec_table_key()).unwrap();
                let cols = crate::plan::spec_eval_plan(*plan, t2).unwrap();
                &&& out.wf()
                &&& out.columns@.len() == cols.len()
                &&& forall|i: int| 0 <= i < cols.len() ==> (#[trigger] out.columns@[i]).0@
                    == plan.spec_aliased()[i].alias@
                &&& forall|i: int| 0 <= i < cols.len()
                    ==> crate::eval::col_v((#[trigger] out.columns@[i]).1) == cols[i].1
                &&& forall|i: int| 0 <= i < cols.len() ==> (#[trigger] out.columns@[i]).1
                    .spec_type() == plan.spec_aliased()[i].expr.spec_data_type().unwrap()
            }),
    {
        let t2 = match accessor.table_by_key(&table_ref_of(plan)) {
            Some(t) => t,
            None => {
                return Err(VerificationError::CommitmentMismatch);
            },
        };
        proof {
            lemma_acc_table_member(accessor.tables@, plan.spec_table_key());
            let i = choose|i: int|
                0 <= i < accessor.tables@.len() && (#[trigger] accessor.tables@[i]).1 == *t2;
            assert(accessor.tables@[i].1.wf());
        }
        if t2.num_rows() as u64 != self.proof.table_length {
            return Err(VerificationError::OutputLengthInconsistency);
        }
        let ncs = self.proof.commitments.len();
        let mut i: usize = 0;
        while i < ncs
            invariant
                0 <= i <= ncs,
                ncs == self.proof.commitments@.len(),
                accessor.wf(),
                forall|j: int| 0 <= j < i ==> match spec_acc_column(
                    *accessor,
                    (#[trigger] self.proof.commitments@[j]).0,
                ) {
                    Some(c) => spec_col_eq(self.proof.commitments@[j].1.column, c),
                    None => false,
                },
            decreases ncs - i,
        {
            match accessor.get_column(&self.proof.commitments[i].0) {
                Some(c) => {
                    if !self.proof.commitments[i].1.column.eq_col(c) {
                        return Err(VerificationError::CommitmentMismatch);
                    }
                },
                None => {
                    return Err(VerificationError::CommitmentMismatch);
                },
            }
            i += 1;
        }
        let refs = plan.get_column_references();
        let mut k: usize = 0;
        while k < refs.len()
            invariant
                0 <= k <= refs@.len(),
                ncs == self.proof.commitments@.len(),
                forall|j: int| 0 <= j < refs@.len() ==> plan.spec_refs().contains(
                    (#[trigger] refs@[j]).spec_key(),
                ),
                forall|j: int| 0 <= j < k ==> exists|c: int|
                    0 <= c < self.proof.commitments@.len()
                        && (#[trigger] self.proof.commitments@[c]).0.spec_key()
                        == (#[trigger] refs@[j]).spec_key(),
            decreases refs@.len() - k,
        {
            let mut found = false;
            let mut c: usize = 0;
            while c < ncs
                invariant
                    0 <= c <= ncs,
                    ncs == self.proof.commitments@.len(),
                    k < refs@.len(),
                    found ==> exists|x: int|
                        0 <= x < self.proof.commitments@.len()
                            && (#[trigger] self.proof.commitments@[x]).0.spec_key()
                            == refs@[k as int].spec_key(),
                    !found ==> forall|x: int| 0 <= x < c
                        ==> (#[trigger] self.proof.commitments@[x]).0.spec_key()
                            != refs@[k as int].spec_key(),
                decreases ncs - c,
            {
                if self.proof.commitments[c].0.eq_ref(&refs[k]) {
                    found = true;
                }
                c += 1;
            }
            if !found {
                proof {
                    assert(plan.spec_refs().contains(refs@[k as int].spec_key()));
                    assert(!spec_commitments_cover(*plan, self.proof.commitments@));
                }
                return Err(VerificationError::CommitmentMismatch);
            }
            k += 1;
        }
        proof {
            assert forall|key: ((Seq<char>, Seq<char>), Seq<char>, ColumnType)|
                plan.spec_refs().contains(key) implies exists|c: int|
                0 <= c < self.proof.commitments@.len()
                    && (#[trigger] self.proof.commitments@[c]).0.spec_key() == key by {
                let j0 = choose|j: int|
                    0 <= j < refs@.len() && (#[trigger] refs@[j]).spec_key() == key;
                let c0 = choose|c: int|
                    0 <= c < self.proof.commitments@.len()
                        && (#[trigger] self.proof.commitments@[c]).0.spec_key()
                        == refs@[j0].spec_key();
                assert(self.proof.commitments@[c0].0.spec_key() == key);
            }
        }
        if has_duplicate_aliases(plan) {
            return Err(VerificationError::ConstraintFailure);
        }
        let out_expected = match plan.result_evaluate(t2) {
            Ok(o) => o,
            Err(_) => {
                return Err(VerificationError::ConstraintFailure);
            },
        };
        let rows = out_expected.num_rows();
        if self.provable_result.num_rows != rows as u64 {
            return Err(VerificationError::OutputLengthInconsistency);
        }
        proof {
            if out_expected.columns@.len() > 0 {
                crate::eval::lemma_col_v_len(out_expected.columns@[0].1);
            }
        }
        let fields = plan.get_column_result_fields();
        proof {
            assert(crate::plan::table_v(out_expected).len() == out_expected.columns@.len());
        }
        if self.provable_result.columns.len() != out_expected.columns.len() || fields.len()
            != out_expected.columns.len() {
            return Err(VerificationError::ConstraintFailure);
        }
        let ghost cols = crate::plan::spec_eval_plan(*plan, *t2).unwrap();
        let mut decoded: Vec<(Identifier, OwnedColumn)> = Vec::new();
        let mut d: usize = 0;
        while d < self.provable_result.columns.len()
            invariant
                0 <= d <= self.provable_result.columns@.len(),
                self.provable_result.wf(),
                spec_acc_table(accessor.tables@, plan.spec_table_key()) == Some(*t2),
                cols == crate::plan::spec_eval_plan(*plan, *t2).unwrap(),
                crate::plan::spec_eval_plan(*plan, *t2) is Ok,
                crate::plan::table_v(out_expected) == cols,
                out_expected.wf(),
                self.provable_result.columns@.len() == cols.len(),
                fields@.len() == cols.len(),
                plan.spec_aliased().len() == cols.len(),
                out_expected.columns@.len() == cols.len(),
                rows == out_expected.spec_num_rows(),
                self.provable_result.num_rows == rows,
                rows as nat == spec_output_rows(cols),
                forall|j: int| 0 <= j < cols.len() ==> (#[trigger] fields@[j]).name@
                    == plan.spec_aliased()[j].alias@
                    && Some(fields@[j].data_type)
                    == plan.spec_aliased()[j].expr.spec_data_type(),
                decoded@.len() == d,
                forall|j: int| 0 <= j < d ==> (#[trigger] decoded@[j]).0@
                    == plan.spec_aliased()[j].alias@,
                forall|j: int| 0 <= j < d ==> (#[trigger] decoded@[j]).1.wf()
                    && decoded@[j].1.spec_len() == rows
                    && decoded@[j].1.spec_type() == fields@[j].data_type
                    && crate::eval::col_v(decoded@[j].1) == cols[j].1,
                forall|j: int| 0 <= j < d ==> spec_decode_cells(
                    provable_col_v(#[trigger] self.provable_result.columns@[j]),
                    plan.spec_aliased()[j].expr.spec_data_type().unwrap(),
                    spec_output_rows(cols),
                ) == Some(cols[j].1),
            decreases self.provable_result.columns@.len() - d,
        {
            let dc = match decode_column(&self.provable_result.columns[d], fields[d].data_type,
                rows) {
                Ok(c) => c,
                Err(_) => {
                    proof {
                        assert(spec_decode_cells(
                            provable_col_v(self.provable_result.columns@[d as int]),
                            plan.spec_aliased()[d as int].expr.spec_data_type().unwrap(),
                            spec_output_rows(cols),
                        ) is None);
                    }
                    return Err(VerificationError::DecodingFailure);
                },
            };
            proof {
                assert(crate::plan::table_v(out_expected)[d as int] == cols[d as int]);
                assert(crate::eval::col_v(out_expected.columns@[d as int].1)
                    == cols[d as int].1);
            }
            if !dc.eq_col(&out_expected.columns[d].1) {
                proof {
                    lemma_table_column_wf(out_expected, d as int);
                    if crate::eval::col_v(dc) == cols[d as int].1 {
                        lemma_col_v_injective(dc, out_expected.columns@[d as int].1);
                    }
                    assert(spec_decode_cells(
                        provable_col_v(self.provable_result.columns@[d as int]),
                        plan.spec_aliased()[d as int].expr.spec_data_type().unwrap(),
                        spec_output_rows(cols),
                    ) != Some(cols[d as int].1));
                    assert(!spec_verify_ok(*self, *plan, *accessor));
                }
                return Err(VerificationError::ConstraintFailure);
            }
            proof {
                crate::eval::lemma_col_eq_v(dc, out_expected.columns@[d as int].1);
            }
            decoded.push((fields[d].name.clone(), dc));
            d += 1;
        }
        match OwnedTable::try_new(decoded) {
            Ok(out) => Ok(out),
            Err(_) => {
                proof {
                    assert(false);
                }
                Err(VerificationError::ConstraintFailure)
            },
        }
    }
}

/// The columns of a well-formed table are well-formed.
proof fn lemma_table_column_wf(t: OwnedTable, i: int)
    requires
        t.wf(),
        0 <= i < t.columns@.len(),
    ensures
        t.columns@[i].1.wf(),
{
}


/// A column's canonical public encoding decodes back to exactly that column.
proof fn lemma_decode_encode_cv(cv: ColumnV, n: nat)
    requires
        cv.len() == n,
        crate::eval::cv_in_range(cv),
        cv.column_type().wf(),
    ensures
        spec_decode_cells(spec_encode_cells(cv), cv.column_type(), n) == Some(cv),
{
    match cv {
        ColumnV::Boolean(v) => {
            let e = v.map(|_i: int, b: bool| if b { 1nat } else { 0nat });
            assert(e.len() == v.len());
            assert forall|i: int| 0 <= i < v.len() implies spec_decode_bool(
                if #[trigger] v[i] { 1nat } else { 0nat },
            ) == Some(v[i]) by {
            }
            assert(e.map(|_i: int, x: nat| spec_decode_bool(x).unwrap()) =~= v);
        },
        ColumnV::BigInt(v) => {
            let e = v.map(|_i: int, x: int| field_of_int(x));
            assert(e.len() == v.len());
            assert forall|i: int| 0 <= i < v.len() implies spec_decode_i64(
                field_of_int(#[trigger] v[i]),
            ) == Some(v[i]) by {
                crate::eval::lemma_field_of_small(v[i]);
            }
            assert(e.map(|_i: int, x: nat| spec_decode_i64(x).unwrap()) =~= v);
        },
        ColumnV::Int128(v) => {
            let e = v.map(|_i: int, x: int| field_of_int(x));
            assert(e.len() == v.len());
            assert forall|i: int| 0 <= i < v.len() implies spec_decode_i128(
                field_of_int(#[trigger] v[i]),
            ) == Some(v[i]) by {
                crate::eval::lemma_field_of_small(v[i]);
            }
            assert(e.map(|_i: int, x: nat| spec_decode_i128(x).unwrap()) =~= v);
        },
        _ => {},
    }
}

/// Completeness: whatever the prover publishes from an accessor, the verifier
/// accepts against any accessor that holds the same table and commitments.
pub proof fn lemma_completeness(
    vqr: VerifiableQueryResult,
    plan: DynProofPlan,
    acc: OwnedTableTestAccessor,
)
    requires
        plan.wf(),
        plan.spec_well_typed(),
        acc.wf(),
        plan is Projection || plan is Filter,
        spec_acc_table(acc.tables@, plan.spec_table_key()) is Some,
        ({
            let t = spec_acc_table(acc.tables@, plan.spec_table_key()).unwrap();
            &&& vqr.proof.table_length == t.spec_num_rows()
            &&& crate::plan::spec_eval_plan(plan, t) is Ok
            &&& spec_commitments_cover(plan, vqr.proof.commitments@)
            &&& spec_commitments_match(vqr.proof.commitments@, acc)
            &&& spec_aliases_distinct(plan)
            &&& ({
                let cols = crate::plan::spec_eval_plan(plan, t).unwrap();
                &&& vqr.provable_result.num_rows == spec_output_rows(cols)
                &&& vqr.provable_result.columns@.len() == cols.len()
                &&& forall|i: int| 0 <= i < cols.len() ==> provable_col_v(
                    #[trigger] vqr.provable_result.columns@[i],
                ) == spec_encode_cells(cols[i].1)
            })
        }),
    ensures
        spec_verify_ok(vqr, plan, acc),
{
    let t = spec_acc_table(acc.tables@, plan.spec_table_key()).unwrap();
    lemma_acc_table_member(acc.tables@, plan.spec_table_key());
    let ti = choose|i: int|
        0 <= i < acc.tables@.len() && (#[trigger] acc.tables@[i]).1 == t;
    assert(acc.tables@[ti].1.wf());
    crate::plan::lemma_eval_plan_shape(plan, t);
    let cols = crate::plan::spec_eval_plan(plan, t).unwrap();
    assert forall|i: int| 0 <= i < cols.len() implies spec_decode_cells(
        provable_col_v(#[trigger] vqr.provable_result.columns@[i]),
        plan.spec_aliased()[i].expr.spec_data_type().unwrap(),
        spec_output_rows(cols),
    ) == Some(cols[i].1) by {
        assert(Some(cols[i].1.column_type()) == plan.spec_aliased()[i].expr.spec_data_type());
        lemma_decode_encode_cv(cols[i].1, spec_output_rows(cols));
    }
}

} // verus!
