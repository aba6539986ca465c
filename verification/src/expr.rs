//! Proof expressions: the leaf expressions a plan evaluates over columns.
//! An expression is a column reference, a typed literal, an arithmetic node
//! or an equality predicate; each carries its own typing rule, evaluates to a
//! column, and reports the column leaves it reads.

use crate::column::{
    spec_add_subtract_type, spec_equals_ok, spec_multiply_type, try_add_subtract_column_types,
    try_equals_column_types, try_multiply_column_types, ColumnOperationError, ColumnRef,
    ColumnType, Precision,
};
use crate::scalar::Scalar;
use vstd::prelude::*;

verus! {

/// A typed literal value.
#[derive(Debug, PartialEq, Eq)]
pub enum LiteralValue {
    Boolean(bool),
    BigInt(i64),
    Int128(i128),
    VarChar(String),
    Decimal75(Precision, i8, Scalar),
    Scalar(Scalar),
}

impl LiteralValue {
    pub open spec fn spec_type(self) -> ColumnType {
        match self {
            LiteralValue::Boolean(_) => ColumnType::Boolean,
            LiteralValue::BigInt(_) => ColumnType::BigInt,
            LiteralValue::Int128(_) => ColumnType::Int128,
            LiteralValue::VarChar(_) => ColumnType::VarChar,
            LiteralValue::Decimal75(p, s, _) => ColumnType::Decimal75(p, s),
            LiteralValue::Scalar(_) => ColumnType::Scalar,
        }
    }

    /// Any raw field element in the literal is canonical.
    pub open spec fn wf(self) -> bool {
        match self {
            LiteralValue::Decimal75(p, _, v) => p.wf() && v.is_canonical(),
            LiteralValue::Scalar(v) => v.is_canonical(),
            _ => true,
        }
    }

    pub fn data_type(&self) -> (r: ColumnType)
        ensures
            r == self.spec_type(),
    {
        match self {
            LiteralValue::Boolean(_) => ColumnType::Boolean,
            LiteralValue::BigInt(_) => ColumnType::BigInt,
            LiteralValue::Int128(_) => ColumnType::Int128,
            LiteralValue::VarChar(_) => ColumnType::VarChar,
            LiteralValue::Decimal75(p, s, _) => ColumnType::Decimal75(*p, *s),
            LiteralValue::Scalar(_) => ColumnType::Scalar,
        }
    }
}

impl Clone for LiteralValue {
    fn clone(&self) -> (r: Self)
        ensures
            r == self,
    {
        match self {
            LiteralValue::Boolean(v) => LiteralValue::Boolean(*v),
            LiteralValue::BigInt(v) => LiteralValue::BigInt(*v),
            LiteralValue::Int128(v) => LiteralValue::Int128(*v),
            LiteralValue::VarChar(v) => {
                let c = v.clone();
                LiteralValue::VarChar(c)
            },
            LiteralValue::Decimal75(p, s, v) => LiteralValue::Decimal75(*p, *s, *v),
            LiteralValue::Scalar(v) => LiteralValue::Scalar(*v),
        }
    }
}

/// A proof expression over the columns of one table.
#[derive(Debug, PartialEq, Eq)]
pub enum DynProofExpr {
    /// Read one column.
    Column(ColumnRef),
    /// A constant, the same in every row.
    Literal(LiteralValue),
    Add(Box<DynProofExpr>, Box<DynProofExpr>),
    Subtract(Box<DynProofExpr>, Box<DynProofExpr>),
    Multiply(Box<DynProofExpr>, Box<DynProofExpr>),
    /// Row-wise equality; yields a boolean column.
    Equals(Box<DynProofExpr>, Box<DynProofExpr>),
}

impl DynProofExpr {
    /// The type the expression evaluates to, if it is well-typed.
    pub open spec fn spec_data_type(self) -> Option<ColumnType>
        decreases self,
    {
        match self {
            DynProofExpr::Column(cr) => Some(cr.column_type),
            DynProofExpr::Literal(v) => Some(v.spec_type()),
            DynProofExpr::Add(l, r) => match (l.spec_data_type(), r.spec_data_type()) {
                (Some(a), Some(b)) => match spec_add_subtract_type(a, b) {
                    Ok(t) => Some(t),
                    Err(_) => None,
                },
                _ => None,
            },
            DynProofExpr::Subtract(l, r) => match (l.spec_data_type(), r.spec_data_type()) {
                (Some(a), Some(b)) => match spec_add_subtract_type(a, b) {
                    Ok(t) => Some(t),
                    Err(_) => None,
                },
                _ => None,
            },
            DynProofExpr::Multiply(l, r) => match (l.spec_data_type(), r.spec_data_type()) {
                (Some(a), Some(b)) => match spec_multiply_type(a, b) {
                    Ok(t) => Some(t),
                    Err(_) => None,
                },
                _ => None,
            },
            DynProofExpr::Equals(l, r) => match (l.spec_data_type(), r.spec_data_type()) {
                (Some(a), Some(b)) => if spec_equals_ok(a, b) {
                    Some(ColumnType::Boolean)
                } else {
                    None
                },
                _ => None,
            },
        }
    }

    /// Well-typed: every node obeys its typing rule.
    pub open spec fn spec_well_typed(self) -> bool {
        self.spec_data_type() is Some
    }

    /// Every literal in the tree is well-formed.
    pub open spec fn wf(self) -> bool
        decreases self,
    {
        match self {
            DynProofExpr::Column(cr) => cr.column_type.wf(),
            DynProofExpr::Literal(v) => v.wf(),
            DynProofExpr::Add(l, r) => l.wf() && r.wf(),
            DynProofExpr::Subtract(l, r) => l.wf() && r.wf(),
            DynProofExpr::Multiply(l, r) => l.wf() && r.wf(),
            DynProofExpr::Equals(l, r) => l.wf() && r.wf(),
        }
    }

    /// The set of leaf column keys the expression reads.
    pub open spec fn spec_refs(self) -> Set<((Seq<char>, Seq<char>), Seq<char>, ColumnType)>
        decreases self,
    {
        match self {
            DynProofExpr::Column(cr) => set![cr.spec_key()],
            DynProofExpr::Literal(_) => Set::empty(),
            DynProofExpr::Add(l, r) => l.spec_refs().union(r.spec_refs()),
            DynProofExpr::Subtract(l, r) => l.spec_refs().union(r.spec_refs()),
            DynProofExpr::Multiply(l, r) => l.spec_refs().union(r.spec_refs()),
            DynProofExpr::Equals(l, r) => l.spec_refs().union(r.spec_refs()),
        }
    }

    /// The expression's result type, or the typing rule it breaks.
    pub fn data_type(&self) -> (res: Result<ColumnType, ColumnOperationError>)
        ensures
            res matches Ok(t) ==> self.spec_data_type() == Some(t),
            res is Err ==> self.spec_data_type() is None,
        decreases self,
    {
        match self {
            DynProofExpr::Column(cr) => Ok(cr.column_type),
            DynProofExpr::Literal(v) => Ok(v.data_type()),
            DynProofExpr::Add(l, r) => {
                let a = l.data_type()?;
                let b = r.data_type()?;
                try_add_subtract_column_types(a, b)
            },
            DynProofExpr::Subtract(l, r) => {
                let a = l.data_type()?;
                let b = r.data_type()?;
                try_add_subtract_column_types(a, b)
            },
            DynProofExpr::Multiply(l, r) => {
                let a = l.data_type()?;
                let b = r.data_type()?;
                try_multiply_column_types(a, b)
            },
            DynProofExpr::Equals(l, r) => {
                let a = l.data_type()?;
                let b = r.data_type()?;
                if try_equals_column_types(a, b) {
                    Ok(ColumnType::Boolean)
                } else {
                    Err(ColumnOperationError::IncompatibleTypes)
                }
            },
        }
    }

    /// Checked constructor for an addition node.
    pub fn try_new_add(l: DynProofExpr, r: DynProofExpr) -> (res: Result<
        DynProofExpr,
        ColumnOperationError,
    >)
        ensures
            res matches Ok(e) ==> e == DynProofExpr::Add(Box::new(l), Box::new(r))
                && e.spec_well_typed(),
            res is Err ==> !(DynProofExpr::Add(Box::new(l), Box::new(r)).spec_well_typed()),
    {
        let e = DynProofExpr::Add(Box::new(l), Box::new(r));
        match e.data_type() {
            Ok(_) => Ok(e),
            Err(err) => Err(err),
        }
    }

    /// Checked constructor for a subtraction node.
    pub fn try_new_subtract(l: DynProofExpr, r: DynProofExpr) -> (res: Result<
        DynProofExpr,
        ColumnOperationError,
    >)
        ensures
            res matches Ok(e) ==> e == DynProofExpr::Subtract(Box::new(l), Box::new(r))
                && e.spec_well_typed(),
            res is Err ==> !(DynProofExpr::Subtract(Box::new(l), Box::new(r)).spec_well_typed()),
    {
        let e = DynProofExpr::Subtract(Box::new(l), Box::new(r));
        match e.data_type() {
            Ok(_) => Ok(e),
            Err(err) => Err(err),
        }
    }

    /// Checked constructor for a multiplication node.
    pub fn try_new_multiply(l: DynProofExpr, r: DynProofExpr) -> (res: Result<
        DynProofExpr,
        ColumnOperationError,
    >)
        ensures
            res matches Ok(e) ==> e == DynProofExpr::Multiply(Box::new(l), Box::new(r))
                && e.spec_well_typed(),
            res is Err ==> !(DynProofExpr::Multiply(Box::new(l), Box::new(r)).spec_well_typed()),
    {
        let e = DynProofExpr::Multiply(Box::new(l), Box::new(r));
        match e.data_type() {
            Ok(_) => Ok(e),
            Err(err) => Err(err),
        }
    }

    /// Checked constructor for an equality node.
    pub fn try_new_equals(l: DynProofExpr, r: DynProofExpr) -> (res: Result<
        DynProofExpr,
        ColumnOperationError,
    >)
        ensures
            res matches Ok(e) ==> e == DynProofExpr::Equals(Box::new(l), Box::new(r))
                && e.spec_well_typed(),
            res is Err ==> !(DynProofExpr::Equals(Box::new(l), Box::new(r)).spec_well_typed()),
    {
        let e = DynProofExpr::Equals(Box::new(l), Box::new(r));
        match e.data_type() {
            Ok(_) => Ok(e),
            Err(err) => Err(err),
        }
    }

    /// Appends every leaf column reference in the tree to `out`.
    pub fn collect_column_references(&self, out: &mut Vec<ColumnRef>)
        ensures
            final(out)@.len() >= old(out)@.len(),
            forall|i: int| 0 <= i < old(out)@.len() ==> final(out)@[i].spec_key()
                == (#[trigger] old(out)@[i]).spec_key()
                && final(out)@[i].column_type == old(out)@[i].column_type,
            forall|i: int| old(out)@.len() <= i < final(out)@.len()
                ==> self.spec_refs().contains((#[trigger] final(out)@[i]).spec_key()),
            forall|k: ((Seq<char>, Seq<char>), Seq<char>, ColumnType)|
                self.spec_refs().contains(k) ==> exists|i: int|
                    old(out)@.len() <= i < final(out)@.len()
                        && (#[trigger] final(out)@[i]).spec_key() == k,
        decreases self,
    {
        match self {
            DynProofExpr::Column(cr) => {
                out.push(cr.clone());
                proof {
                    assert(out@[out@.len() - 1].spec_key() == cr.spec_key());
                }
            },
            DynProofExpr::Literal(_) => {},
            DynProofExpr::Add(l, r) => {
                l.collect_column_references(out);
                let ghost mid = out@;
                r.collect_column_references(out);
                proof {
                    lemma_union_collect(l.spec_refs(), r.spec_refs());
                    assert forall|i: int| old(out)@.len() <= i < out@.len()
                        implies self.spec_refs().contains((#[trigger] out@[i]).spec_key()) by {
                        if i < mid.len() {
                            assert(out@[i].spec_key() == mid[i].spec_key());
                            assert(l.spec_refs().contains(mid[i].spec_key()));
                        } else {
                            assert(r.spec_refs().contains(out@[i].spec_key()));
                        }
                    }
                }
            },
            DynProofExpr::Subtract(l, r) => {
                l.collect_column_references(out);
                let ghost mid = out@;
                r.collect_column_references(out);
                proof {
                    lemma_union_collect(l.spec_refs(), r.spec_refs());
                    assert forall|i: int| old(out)@.len() <= i < out@.len()
                        implies self.spec_refs().contains((#[trigger] out@[i]).spec_key()) by {
                        if i < mid.len() {
                            assert(out@[i].spec_key() == mid[i].spec_key());
                            assert(l.spec_refs().contains(mid[i].spec_key()));
                        } else {
                            assert(r.spec_refs().contains(out@[i].spec_key()));
                        }
                    }
                }
            },
            DynProofExpr::Multiply(l, r) => {
                l.collect_column_references(out);
                let ghost mid = out@;
                r.collect_column_references(out);
                proof {
                    lemma_union_collect(l.spec_refs(), r.spec_refs());
                    assert forall|i: int| old(out)@.len() <= i < out@.len()
                        implies self.spec_refs().contains((#[trigger] out@[i]).spec_key()) by {
                        if i < mid.len() {
                            assert(out@[i].spec_key() == mid[i].spec_key());
                            assert(l.spec_refs().contains(mid[i].spec_key()));
                        } else {
                            assert(r.spec_refs().contains(out@[i].spec_key()));
                        }
                    }
                }
            },
            DynProofExpr::Equals(l, r) => {
                l.collect_column_references(out);
                let ghost mid = out@;
                r.collect_column_references(out);
                proof {
                    lemma_union_collect(l.spec_refs(), r.spec_refs());
                    assert forall|i: int| old(out)@.len() <= i < out@.len()
                        implies self.spec_refs().contains((#[trigger] out@[i]).spec_key()) by {
                        if i < mid.len() {
                            assert(out@[i].spec_key() == mid[i].spec_key());
                            assert(l.spec_refs().contains(mid[i].spec_key()));
                        } else {
                            assert(r.spec_refs().contains(out@[i].spec_key()));
                        }
                    }
                }
            },
        }
    }
}

/// Membership in a union comes from one of the two sides.
proof fn lemma_union_collect<A>(l: Set<A>, r: Set<A>)
    ensures
        forall|k: A| l.union(r).contains(k) ==> l.contains(k) || r.contains(k),
{
}

} // verus!
