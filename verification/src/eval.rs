//! Evaluation of proof expressions over a table: the mathematical model of
//! what each expression computes row by row, and the executable evaluator
//! proved against it. Integer arithmetic overflow is a fatal evaluation
//! error; decimal and raw-scalar arithmetic is exact field arithmetic.

use crate::column::{
    spec_add_subtract_type, spec_equals_ok, spec_multiply_type, spec_scale_of, ColumnType,
    Precision,
};
use crate::expr::{DynProofExpr, LiteralValue};
use crate::ident::Identifier;
use crate::scalar::{group_order, Scalar};
use crate::table::{OwnedColumn, OwnedTable};
use vstd::prelude::*;

verus! {

/// The mathematical content of a column: plain sequences of values, with
/// field cells read as their values modulo the group order.
pub enum ColumnV {
    Boolean(Seq<bool>),
    BigInt(Seq<int>),
    Int128(Seq<int>),
    Decimal75(Precision, i8, Seq<nat>),
    VarChar(Seq<Seq<char>>),
    Scalar(Seq<nat>),
}

/// The model of an owned column.
pub open spec fn col_v(c: OwnedColumn) -> ColumnV {
    match c {
        OwnedColumn::Boolean(v) => ColumnV::Boolean(v@),
        OwnedColumn::BigInt(v) => ColumnV::BigInt(v@.map(|_i: int, x: i64| x as int)),
        OwnedColumn::Int128(v) => ColumnV::Int128(v@.map(|_i: int, x: i128| x as int)),
        OwnedColumn::Decimal75(p, s, v) => ColumnV::Decimal75(
            p,
            s,
            v@.map(|_i: int, x: Scalar| x.val()),
        ),
        OwnedColumn::VarChar(v) => ColumnV::VarChar(v.deep_view()),
        OwnedColumn::Scalar(v) => ColumnV::Scalar(v@.map(|_i: int, x: Scalar| x.val())),
    }
}

impl ColumnV {
    pub open spec fn len(self) -> nat {
        match self {
            ColumnV::Boolean(v) => v.len(),
            ColumnV::BigInt(v) => v.len(),
            ColumnV::Int128(v) => v.len(),
            ColumnV::Decimal75(_, _, v) => v.len(),
            ColumnV::VarChar(v) => v.len(),
            ColumnV::Scalar(v) => v.len(),
        }
    }

    pub open spec fn column_type(self) -> ColumnType {
        match self {
            ColumnV::Boolean(_) => ColumnType::Boolean,
            ColumnV::BigInt(_) => ColumnType::BigInt,
            ColumnV::Int128(_) => ColumnType::Int128,
            ColumnV::Decimal75(p, s, _) => ColumnType::Decimal75(p, s),
            ColumnV::VarChar(_) => ColumnType::VarChar,
            ColumnV::Scalar(_) => ColumnType::Scalar,
        }
    }
}

/// A fatal error during plan evaluation.
#[derive(Clone, Copy, Debug, PartialEq, Eq, Structural, Hash)]
pub enum EvalError {
    /// An expression breaks its typing rule, or output names collide.
    PlanType,
    /// Integer arithmetic left the representable range.
    EvaluationOverflow,
    /// A referenced table or column is absent, or carries another type.
    AccessorMissing,
}

/// An arithmetic operator of an expression node.
#[derive(Clone, Copy, Debug, PartialEq, Eq, Structural, Hash)]
pub enum BinOp {
    Add,
    Subtract,
    Multiply,
}

/// The value of a cell under an operator, over unbounded integers.
pub open spec fn spec_int_op(op: BinOp, a: int, b: int) -> int {
    match op {
        BinOp::Add => a + b,
        BinOp::Subtract => a - b,
        BinOp::Multiply => a * b,
    }
}

/// The value of a cell under an operator, in the field.
pub open spec fn spec_field_op(op: BinOp, a: nat, b: nat) -> nat {
    match op {
        BinOp::Add => (a + b) % group_order(),
        BinOp::Subtract => ((a - b) % (group_order() as int)) as nat,
        BinOp::Multiply => (a * b) % group_order(),
    }
}

/// An integer modulo the group order, lifted into the field.
pub open spec fn field_of_int(x: int) -> nat {
    (x % (group_order() as int)) as nat
}

/// Ten to the `k`, for decimal scale alignment.
pub open spec fn spec_pow10(k: nat) -> nat
    decreases k,
{
    if k == 0 {
        1
    } else {
        10 * spec_pow10((k - 1) as nat)
    }
}

/// The field cells of a numeric column: integers are lifted modulo the group
/// order, decimal and raw-scalar cells are taken as they are.
pub open spec fn spec_field_cells(c: ColumnV) -> Option<Seq<nat>> {
    match c {
        ColumnV::BigInt(v) => Some(v.map(|_i: int, x: int| field_of_int(x))),
        ColumnV::Int128(v) => Some(v.map(|_i: int, x: int| field_of_int(x))),
        ColumnV::Decimal75(_, _, v) => Some(v),
        ColumnV::Scalar(v) => Some(v),
        _ => None,
    }
}

/// The integer cells of an integer column.
pub open spec fn spec_int_cells(c: ColumnV) -> Option<Seq<int>> {
    match c {
        ColumnV::BigInt(v) => Some(v),
        ColumnV::Int128(v) => Some(v),
        _ => None,
    }
}

/// Cells multiplied by ten to the `d`, in the field.
pub open spec fn spec_scale_cells(v: Seq<nat>, d: nat) -> Seq<nat> {
    v.map(|_i: int, x: nat| (x * (spec_pow10(d) % group_order())) % group_order())
}

/// Row-wise integer arithmetic, fatal when any result leaves `[lo, hi]`.
pub open spec fn spec_int_result(op: BinOp, x: Seq<int>, y: Seq<int>, lo: int, hi: int) -> Result<
    Seq<int>,
    EvalError,
> {
    let z = Seq::new(x.len(), |i: int| spec_int_op(op, x[i], y[i]));
    if forall|i: int| 0 <= i < z.len() ==> lo <= #[trigger] z[i] <= hi {
        Ok(z)
    } else {
        Err(EvalError::EvaluationOverflow)
    }
}

/// Row-wise field arithmetic; always exact.
pub open spec fn spec_field_result(op: BinOp, x: Seq<nat>, y: Seq<nat>) -> Seq<nat> {
    Seq::new(x.len(), |i: int| spec_field_op(op, x[i], y[i]))
}

/// What an arithmetic node yields on two columns of equal length: the typing
/// rule picks the result type, integers stay integers under overflow checks,
/// and any decimal or raw-scalar operand moves the work into the field.
pub open spec fn spec_arith_cols(op: BinOp, a: ColumnV, b: ColumnV) -> Result<
    ColumnV,
    EvalError,
> {
    let rt = if op is Multiply {
        spec_multiply_type(a.column_type(), b.column_type())
    } else {
        spec_add_subtract_type(a.column_type(), b.column_type())
    };
    match rt {
        Err(_) => Err(EvalError::PlanType),
        Ok(t) => match t {
            ColumnType::BigInt => match spec_int_result(
                op,
                spec_int_cells(a).unwrap(),
                spec_int_cells(b).unwrap(),
                i64::MIN as int,
                i64::MAX as int,
            ) {
                Ok(z) => Ok(ColumnV::BigInt(z)),
                Err(e) => Err(e),
            },
            ColumnType::Int128 => match spec_int_result(
                op,
                spec_int_cells(a).unwrap(),
                spec_int_cells(b).unwrap(),
                i128::MIN as int,
                i128::MAX as int,
            ) {
                Ok(z) => Ok(ColumnV::Int128(z)),
                Err(e) => Err(e),
            },
            ColumnType::Scalar => Ok(ColumnV::Scalar(spec_field_result(
                op,
                spec_field_cells(a).unwrap(),
                spec_field_cells(b).unwrap(),
            ))),
            ColumnType::Decimal75(p, s) => {
                let xa = spec_field_cells(a).unwrap();
                let xb = spec_field_cells(b).unwrap();
                if op is Multiply {
                    Ok(ColumnV::Decimal75(p, s, spec_field_result(op, xa, xb)))
                } else {
                    let da = (s - spec_scale_of(a.column_type())) as nat;
                    let db = (s - spec_scale_of(b.column_type())) as nat;
                    Ok(ColumnV::Decimal75(
                        p,
                        s,
                        spec_field_result(op, spec_scale_cells(xa, da), spec_scale_cells(xb, db)),
                    ))
                }
            },
            _ => Err(EvalError::PlanType),
        },
    }
}

/// What an equality node yields on two columns of equal length: elementary
/// types compare their values, numeric types of one scale compare their field
/// cells (which agree exactly when the numbers agree).
pub open spec fn spec_equals_cols(a: ColumnV, b: ColumnV) -> Result<ColumnV, EvalError> {
    if !spec_equals_ok(a.column_type(), b.column_type()) {
        Err(EvalError::PlanType)
    } else {
        match (a, b) {
            (ColumnV::Boolean(x), ColumnV::Boolean(y)) => Ok(ColumnV::Boolean(
                Seq::new(x.len(), |i: int| x[i] == y[i]),
            )),
            (ColumnV::VarChar(x), ColumnV::VarChar(y)) => Ok(ColumnV::Boolean(
                Seq::new(x.len(), |i: int| x[i] == y[i]),
            )),
            _ => {
                if spec_int_cells(a) is Some && spec_int_cells(b) is Some {
                    let x = spec_int_cells(a).unwrap();
                    let y = spec_int_cells(b).unwrap();
                    Ok(ColumnV::Boolean(Seq::new(x.len(), |i: int| x[i] == y[i])))
                } else {
                    let x = spec_field_cells(a).unwrap();
                    let y = spec_field_cells(b).unwrap();
                    Ok(ColumnV::Boolean(Seq::new(x.len(), |i: int| x[i] == y[i])))
                }
            },
        }
    }
}

/// First column stored under `name`, walking the list front to back.
pub open spec fn spec_table_lookup(
    cols: Seq<(Identifier, OwnedColumn)>,
    name: Seq<char>,
) -> Option<OwnedColumn>
    decreases cols.len(),
{
    if cols.len() == 0 {
        None
    } else if cols[0].0@ == name {
        Some(cols[0].1)
    } else {
        spec_table_lookup(cols.skip(1), name)
    }
}

/// The model of a literal as a constant column of `n` rows.
pub open spec fn spec_const_column(v: LiteralValue, n: nat) -> ColumnV {
    match v {
        LiteralValue::Boolean(b) => ColumnV::Boolean(Seq::new(n, |_i: int| b)),
        LiteralValue::BigInt(x) => ColumnV::BigInt(Seq::new(n, |_i: int| x as int)),
        LiteralValue::Int128(x) => ColumnV::Int128(Seq::new(n, |_i: int| x as int)),
        LiteralValue::VarChar(s) => ColumnV::VarChar(Seq::new(n, |_i: int| s@)),
        LiteralValue::Decimal75(p, sc, x) => ColumnV::Decimal75(
            p,
            sc,
            Seq::new(n, |_i: int| x.val()),
        ),
        LiteralValue::Scalar(x) => ColumnV::Scalar(Seq::new(n, |_i: int| x.val())),
    }
}

/// What an expression computes over a table whose row count is `n`:
/// a column of `n` cells, or the first fatal error in evaluation order.
pub open spec fn spec_eval_expr(e: DynProofExpr, t: OwnedTable, n: nat) -> Result<
    ColumnV,
    EvalError,
>
    decreases e,
{
    match e {
        DynProofExpr::Column(cr) => match spec_table_lookup(t.columns@, cr.column_id@) {
            Some(c) => if c.spec_type() == cr.column_type && c.spec_len() == n {
                Ok(col_v(c))
            } else {
                Err(EvalError::AccessorMissing)
            },
            None => Err(EvalError::AccessorMissing),
        },
        DynProofExpr::Literal(v) => Ok(spec_const_column(v, n)),
        DynProofExpr::Add(l, r) => match (spec_eval_expr(*l, t, n), spec_eval_expr(*r, t, n)) {
            (Ok(a), Ok(b)) => spec_arith_cols(BinOp::Add, a, b),
            (Err(e1), _) => Err(e1),
            (_, Err(e2)) => Err(e2),
        },
        DynProofExpr::Subtract(l, r) => match (
            spec_eval_expr(*l, t, n),
            spec_eval_expr(*r, t, n),
        ) {
            (Ok(a), Ok(b)) => spec_arith_cols(BinOp::Subtract, a, b),
            (Err(e1), _) => Err(e1),
            (_, Err(e2)) => Err(e2),
        },
        DynProofExpr::Multiply(l, r) => match (
            spec_eval_expr(*l, t, n),
            spec_eval_expr(*r, t, n),
        ) {
            (Ok(a), Ok(b)) => spec_arith_cols(BinOp::Multiply, a, b),
            (Err(e1), _) => Err(e1),
            (_, Err(e2)) => Err(e2),
        },
        DynProofExpr::Equals(l, r) => match (spec_eval_expr(*l, t, n), spec_eval_expr(*r, t, n)) {
            (Ok(a), Ok(b)) => spec_equals_cols(a, b),
            (Err(e1), _) => Err(e1),
            (_, Err(e2)) => Err(e2),
        },
    }
}


/// The cell views of a column all share its length.
pub proof fn lemma_col_v_len(c: OwnedColumn)
    ensures
        col_v(c).len() == c.spec_len(),
{
}

/// The cell views of a column all share its length.
proof fn lemma_cells_len(c: OwnedColumn)
    ensures
        col_v(c).len() == c.spec_len(),
        spec_int_cells(col_v(c)) matches Some(s) ==> s.len() == c.spec_len(),
        spec_field_cells(col_v(c)) matches Some(s) ==> s.len() == c.spec_len(),
{
}

/// The cell views of a column model share its length.
proof fn lemma_cv_cells_len(c: ColumnV)
    ensures
        spec_int_cells(c) matches Some(s) ==> s.len() == c.len(),
        spec_field_cells(c) matches Some(s) ==> s.len() == c.len(),
{
}

/// Arithmetic keeps the row count.
proof fn lemma_arith_cols_len(op: BinOp, a: ColumnV, b: ColumnV)
    ensures
        spec_arith_cols(op, a, b) matches Ok(cv) ==> cv.len() == a.len(),
{
    lemma_cv_cells_len(a);
    lemma_cv_cells_len(b);
}

/// Equality keeps the row count.
proof fn lemma_equals_cols_len(a: ColumnV, b: ColumnV)
    ensures
        spec_equals_cols(a, b) matches Ok(cv) ==> cv.len() == a.len(),
{
    lemma_cv_cells_len(a);
    lemma_cv_cells_len(b);
}

/// Columns with equal cells have equal lengths.
pub proof fn lemma_col_eq_len(a: OwnedColumn, b: OwnedColumn)
    requires
        crate::table::spec_col_eq(a, b),
    ensures
        a.spec_len() == b.spec_len(),
{
    match (a, b) {
        (OwnedColumn::VarChar(x), OwnedColumn::VarChar(y)) => {
            assert(x.deep_view().len() == x@.len());
            assert(y.deep_view().len() == y@.len());
        },
        _ => {},
    }
}

/// Cells of equal fields have equal models.
pub proof fn lemma_col_eq_v(a: OwnedColumn, b: OwnedColumn)
    requires
        crate::table::spec_col_eq(a, b),
    ensures
        col_v(a) == col_v(b),
{
}

/// An evaluated column always has the table's row count.
pub proof fn lemma_eval_len(e: DynProofExpr, t: OwnedTable, n: nat)
    ensures
        spec_eval_expr(e, t, n) matches Ok(cv) ==> cv.len() == n,
    decreases e,
{
    match e {
        DynProofExpr::Column(_) => {},
        DynProofExpr::Literal(_) => {},
        DynProofExpr::Add(l, r) => {
            lemma_eval_len(*l, t, n);
            lemma_eval_len(*r, t, n);
        },
        DynProofExpr::Subtract(l, r) => {
            lemma_eval_len(*l, t, n);
            lemma_eval_len(*r, t, n);
        },
        DynProofExpr::Multiply(l, r) => {
            lemma_eval_len(*l, t, n);
            lemma_eval_len(*r, t, n);
        },
        DynProofExpr::Equals(l, r) => {
            lemma_eval_len(*l, t, n);
            lemma_eval_len(*r, t, n);
        },
    }
}

/// A value within one group order of zero reduces without further wrapping.
pub proof fn lemma_field_of_small(x: int)
    requires
        -(group_order() as int) < x < group_order() as int,
    ensures
        field_of_int(x) == if x >= 0 { x } else { x + group_order() },
{
    if x >= 0 {
        vstd::arithmetic::div_mod::lemma_fundamental_div_mod_converse_mod(
            x, group_order() as int, 0int, x);
    } else {
        vstd::arithmetic::div_mod::lemma_fundamental_div_mod_converse_mod(
            x, group_order() as int, -1int, x + group_order() as int);
    }
}

/// Ten to the `d` as a field element.
fn pow10_scalar(d: u32) -> (r: Scalar)
    ensures
        r.is_canonical(),
        r.val() == spec_pow10(d as nat) % group_order(),
{
    let ten = Scalar::from_u64(10);
    let mut r = Scalar::one();
    proof {
        vstd::arithmetic::div_mod::lemma_small_mod(1nat, group_order());
    }
    let mut i: u32 = 0;
    while i < d
        invariant
            0 <= i <= d,
            ten.val() == 10,
            r.is_canonical(),
            r.val() == spec_pow10(i as nat) % group_order(),
        decreases d - i,
    {
        let next = r.mul(&ten);
        proof {
            vstd::arithmetic::div_mod::lemma_mul_mod_noop_left(
                spec_pow10(i as nat) as int, 10int, group_order() as int);
            assert(spec_pow10((i + 1) as nat) == 10 * spec_pow10(i as nat));
        }
        r = next;
        i += 1;
    }
    r
}

/// The field cells of a numeric column, as canonical scalars.
fn col_field_cells(c: &OwnedColumn) -> (r: Option<Vec<Scalar>>)
    requires
        c.wf(),
    ensures
        r is Some <==> spec_field_cells(col_v(*c)) is Some,
        r matches Some(v) ==> {
            &&& v@.map(|_i: int, x: Scalar| x.val()) == spec_field_cells(col_v(*c)).unwrap()
            &&& forall|i: int| 0 <= i < v@.len() ==> (#[trigger] v@[i]).is_canonical()
        },
{
    match c {
        OwnedColumn::BigInt(x) => {
            let mut v: Vec<Scalar> = Vec::new();
            let mut i: usize = 0;
            while i < x.len()
                invariant
                    0 <= i <= x@.len(),
                    v@.len() == i,
                    forall|j: int| 0 <= j < i ==> (#[trigger] v@[j]).is_canonical(),
                    forall|j: int| 0 <= j < i
                        ==> (#[trigger] v@[j]).val() == field_of_int(x@[j] as int),
                decreases x@.len() - i,
            {
                let s = Scalar::from_i64(x[i]);
                proof {
                    lemma_field_of_small(x@[i as int] as int);
                }
                v.push(s);
                i += 1;
            }
            proof {
                assert(v@.map(|_i: int, x: Scalar| x.val())
                    =~= spec_field_cells(col_v(*c)).unwrap());
            }
            Some(v)
        },
        OwnedColumn::Int128(x) => {
            let mut v: Vec<Scalar> = Vec::new();
            let mut i: usize = 0;
            while i < x.len()
                invariant
                    0 <= i <= x@.len(),
                    v@.len() == i,
                    forall|j: int| 0 <= j < i ==> (#[trigger] v@[j]).is_canonical(),
                    forall|j: int| 0 <= j < i
                        ==> (#[trigger] v@[j]).val() == field_of_int(x@[j] as int),
                decreases x@.len() - i,
            {
                let s = Scalar::from_i128(x[i]);
                proof {
                    lemma_field_of_small(x@[i as int] as int);
                }
                v.push(s);
                i += 1;
            }
            proof {
                assert(v@.map(|_i: int, x: Scalar| x.val())
                    =~= spec_field_cells(col_v(*c)).unwrap());
            }
            Some(v)
        },
        OwnedColumn::Decimal75(_, _, x) => {
            let v = crate::table::copy_vec(x);
            proof {
                assert(v@.map(|_i: int, x: Scalar| x.val())
                    =~= spec_field_cells(col_v(*c)).unwrap());
            }
            Some(v)
        },
        OwnedColumn::Scalar(x) => {
            let v = crate::table::copy_vec(x);
            proof {
                assert(v@.map(|_i: int, x: Scalar| x.val())
                    =~= spec_field_cells(col_v(*c)).unwrap());
            }
            Some(v)
        },
        _ => None,
    }
}

/// The integer cells of an integer column, widened to 128 bits.
fn col_int_cells(c: &OwnedColumn) -> (r: Option<Vec<i128>>)
    ensures
        r is Some <==> spec_int_cells(col_v(*c)) is Some,
        r matches Some(v) ==> v@.map(|_i: int, x: i128| x as int)
            == spec_int_cells(col_v(*c)).unwrap(),
{
    match c {
        OwnedColumn::BigInt(x) => {
            let mut v: Vec<i128> = Vec::new();
            let mut i: usize = 0;
            while i < x.len()
                invariant
                    0 <= i <= x@.len(),
                    v@.len() == i,
                    forall|j: int| 0 <= j < i ==> (#[trigger] v@[j]) == x@[j] as i128,
                decreases x@.len() - i,
            {
                v.push(x[i] as i128);
                i += 1;
            }
            proof {
                assert(v@.map(|_i: int, x: i128| x as int)
                    =~= spec_int_cells(col_v(*c)).unwrap());
            }
            Some(v)
        },
        OwnedColumn::Int128(x) => {
            let v = crate::table::copy_vec(x);
            proof {
                assert(v@.map(|_i: int, x: i128| x as int)
                    =~= spec_int_cells(col_v(*c)).unwrap());
            }
            Some(v)
        },
        _ => None,
    }
}

/// Row-wise checked integer arithmetic; `narrow` asks for 64-bit bounds.
fn int_bin(op: BinOp, x: &Vec<i128>, y: &Vec<i128>, narrow: bool) -> (r: Result<
    Vec<i128>,
    EvalError,
>)
    requires
        x@.len() == y@.len(),
    ensures
        ({
            let lo: int = if narrow { i64::MIN as int } else { i128::MIN as int };
            let hi: int = if narrow { i64::MAX as int } else { i128::MAX as int };
            let sr = spec_int_result(
                op,
                x@.map(|_i: int, a: i128| a as int),
                y@.map(|_i: int, a: i128| a as int),
                lo,
                hi,
            );
            match sr {
                Ok(z) => r matches Ok(v) && v@.map(|_i: int, a: i128| a as int) == z
                    && forall|i: int| 0 <= i < v@.len() ==> lo <= (#[trigger] v@[i]) as int
                        <= hi,
                Err(e) => r == Err::<Vec<i128>, EvalError>(e),
            }
        }),
{
    let ghost xs = x@.map(|_i: int, a: i128| a as int);
    let ghost ys = y@.map(|_i: int, a: i128| a as int);
    let ghost zs = Seq::new(xs.len(), |i: int| spec_int_op(op, xs[i], ys[i]));
    let ghost lo: int = if narrow { i64::MIN as int } else { i128::MIN as int };
    let ghost hi: int = if narrow { i64::MAX as int } else { i128::MAX as int };
    let mut v: Vec<i128> = Vec::new();
    let mut i: usize = 0;
    while i < x.len()
        invariant
            0 <= i <= x@.len(),
            x@.len() == y@.len(),
            v@.len() == i,
            xs == x@.map(|_i: int, a: i128| a as int),
            ys == y@.map(|_i: int, a: i128| a as int),
            zs == Seq::new(xs.len(), |i: int| spec_int_op(op, xs[i], ys[i])),
            lo == if narrow { i64::MIN as int } else { i128::MIN as int },
            hi == if narrow { i64::MAX as int } else { i128::MAX as int },
            forall|j: int| 0 <= j < i ==> lo <= #[trigger] zs[j] <= hi,
            forall|j: int| 0 <= j < i ==> (#[trigger] v@[j]) as int == zs[j],
        decreases x@.len() - i,
    {
        let a = x[i];
        let b = y[i];
        let step: Option<i128> = match op {
            BinOp::Add => a.checked_add(b),
            BinOp::Subtract => a.checked_sub(b),
            BinOp::Multiply => a.checked_mul(b),
        };
        proof {
            assert(zs[i as int] == spec_int_op(op, xs[i as int], ys[i as int]));
            assert(xs[i as int] == a as int);
            assert(ys[i as int] == b as int);
        }
        match step {
            Some(s) => {
                if narrow && (s < i64::MIN as i128 || s > i64::MAX as i128) {
                    proof {
                        assert(!(lo <= zs[i as int] <= hi));
                    }
                    return Err(EvalError::EvaluationOverflow);
                }
                v.push(s);
            },
            None => {
                proof {
                    assert(!(lo <= zs[i as int] <= hi));
                }
                return Err(EvalError::EvaluationOverflow);
            },
        }
        i += 1;
    }
    proof {
        assert(v@.map(|_i: int, a: i128| a as int) =~= zs);
    }
    Ok(v)
}

/// Row-wise field arithmetic over canonical scalars.
fn field_bin(op: BinOp, x: &Vec<Scalar>, y: &Vec<Scalar>) -> (r: Vec<Scalar>)
    requires
        x@.len() == y@.len(),
    ensures
        r@.map(|_i: int, a: Scalar| a.val()) == spec_field_result(
            op,
            x@.map(|_i: int, a: Scalar| a.val()),
            y@.map(|_i: int, a: Scalar| a.val()),
        ),
        forall|i: int| 0 <= i < r@.len() ==> (#[trigger] r@[i]).is_canonical(),
{
    let ghost xs = x@.map(|_i: int, a: Scalar| a.val());
    let ghost ys = y@.map(|_i: int, a: Scalar| a.val());
    let mut v: Vec<Scalar> = Vec::new();
    let mut i: usize = 0;
    while i < x.len()
        invariant
            0 <= i <= x@.len(),
            x@.len() == y@.len(),
            v@.len() == i,
            xs == x@.map(|_i: int, a: Scalar| a.val()),
            ys == y@.map(|_i: int, a: Scalar| a.val()),
            forall|j: int| 0 <= j < i ==> (#[trigger] v@[j]).is_canonical(),
            forall|j: int| 0 <= j < i
                ==> (#[trigger] v@[j]).val() == spec_field_op(op, xs[j], ys[j]),
        decreases x@.len() - i,
    {
        let s = match op {
            BinOp::Add => x[i].add(&y[i]),
            BinOp::Subtract => x[i].sub(&y[i]),
            BinOp::Multiply => x[i].mul(&y[i]),
        };
        v.push(s);
        i += 1;
    }
    proof {
        assert(v@.map(|_i: int, a: Scalar| a.val()) =~= spec_field_result(op, xs, ys));
    }
    v
}

/// Cells multiplied by ten to the `d`, in the field.
fn scale_cells(x: &Vec<Scalar>, d: u32) -> (r: Vec<Scalar>)
    ensures
        r@.map(|_i: int, a: Scalar| a.val()) == spec_scale_cells(
            x@.map(|_i: int, a: Scalar| a.val()),
            d as nat,
        ),
        forall|i: int| 0 <= i < r@.len() ==> (#[trigger] r@[i]).is_canonical(),
{
    let ghost xs = x@.map(|_i: int, a: Scalar| a.val());
    let f = pow10_scalar(d);
    let mut v: Vec<Scalar> = Vec::new();
    let mut i: usize = 0;
    while i < x.len()
        invariant
            0 <= i <= x@.len(),
            v@.len() == i,
            xs == x@.map(|_i: int, a: Scalar| a.val()),
            f.is_canonical(),
            f.val() == spec_pow10(d as nat) % group_order(),
            forall|j: int| 0 <= j < i ==> (#[trigger] v@[j]).is_canonical(),
            forall|j: int| 0 <= j < i ==> (#[trigger] v@[j]).val()
                == (xs[j] * (spec_pow10(d as nat) % group_order())) % group_order(),
        decreases x@.len() - i,
    {
        v.push(x[i].mul(&f));
        i += 1;
    }
    proof {
        assert(v@.map(|_i: int, a: Scalar| a.val()) =~= spec_scale_cells(xs, d as nat));
    }
    v
}


/// A looked-up column is one of the table's columns.
proof fn lemma_lookup_member(cols: Seq<(Identifier, OwnedColumn)>, name: Seq<char>)
    ensures
        spec_table_lookup(cols, name) matches Some(c) ==> exists|i: int|
            0 <= i < cols.len() && (#[trigger] cols[i]).1 == c,
    decreases cols.len(),
{
    if cols.len() > 0 && cols[0].0@ != name {
        lemma_lookup_member(cols.skip(1), name);
        if spec_table_lookup(cols, name) is Some {
            let c = spec_table_lookup(cols, name).unwrap();
            let i = choose|i: int| 0 <= i < cols.skip(1).len() && (#[trigger] cols.skip(
                1,
            )[i]).1 == c;
            assert(cols[i + 1].1 == c);
        }
    }
}

fn mask_bool(x: &Vec<bool>, y: &Vec<bool>) -> (r: Vec<bool>)
    requires
        x@.len() == y@.len(),
    ensures
        r@ == Seq::new(x@.len(), |i: int| x@[i] == y@[i]),
{
    let mut v: Vec<bool> = Vec::new();
    let mut i: usize = 0;
    while i < x.len()
        invariant
            0 <= i <= x@.len(),
            x@.len() == y@.len(),
            v@.len() == i,
            forall|j: int| 0 <= j < i ==> (#[trigger] v@[j]) == (x@[j] == y@[j]),
        decreases x@.len() - i,
    {
        v.push(x[i] == y[i]);
        i += 1;
    }
    proof {
        assert(v@ =~= Seq::new(x@.len(), |i: int| x@[i] == y@[i]));
    }
    v
}

fn mask_i128(x: &Vec<i128>, y: &Vec<i128>) -> (r: Vec<bool>)
    requires
        x@.len() == y@.len(),
    ensures
        r@ == Seq::new(
            x@.len(),
            |i: int| x@.map(|_i: int, a: i128| a as int)[i] == y@.map(
                |_i: int,
                a: i128,
            | a as int)[i],
        ),
{
    let mut v: Vec<bool> = Vec::new();
    let mut i: usize = 0;
    while i < x.len()
        invariant
            0 <= i <= x@.len(),
            x@.len() == y@.len(),
            v@.len() == i,
            forall|j: int| 0 <= j < i ==> (#[trigger] v@[j]) == (x@[j] == y@[j]),
        decreases x@.len() - i,
    {
        v.push(x[i] == y[i]);
        i += 1;
    }
    proof {
        assert(v@ =~= Seq::new(
            x@.len(),
            |i: int| x@.map(|_i: int, a: i128| a as int)[i] == y@.map(
                |_i: int,
                a: i128,
            | a as int)[i],
        ));
    }
    v
}

fn mask_string(x: &Vec<String>, y: &Vec<String>) -> (r: Vec<bool>)
    requires
        x@.len() == y@.len(),
    ensures
        r@ == Seq::new(x@.len(), |i: int| x.deep_view()[i] == y.deep_view()[i]),
{
    let mut v: Vec<bool> = Vec::new();
    let mut i: usize = 0;
    while i < x.len()
        invariant
            0 <= i <= x@.len(),
            x@.len() == y@.len(),
            v@.len() == i,
            forall|j: int| 0 <= j < i ==> (#[trigger] v@[j]) == (x@[j]@ == y@[j]@),
        decreases x@.len() - i,
    {
        v.push(x[i] == y[i]);
        i += 1;
    }
    proof {
        assert(v@ =~= Seq::new(x@.len(), |i: int| x.deep_view()[i] == y.deep_view()[i]));
    }
    v
}

fn mask_scalar(x: &Vec<Scalar>, y: &Vec<Scalar>) -> (r: Vec<bool>)
    requires
        x@.len() == y@.len(),
        forall|i: int| 0 <= i < x@.len() ==> (#[trigger] x@[i]).is_canonical(),
        forall|i: int| 0 <= i < y@.len() ==> (#[trigger] y@[i]).is_canonical(),
    ensures
        r@ == Seq::new(
            x@.len(),
            |i: int| x@.map(|_i: int, a: Scalar| a.val())[i] == y@.map(
                |_i: int,
                a: Scalar,
            | a.val())[i],
        ),
{
    let mut v: Vec<bool> = Vec::new();
    let mut i: usize = 0;
    while i < x.len()
        invariant
            0 <= i <= x@.len(),
            x@.len() == y@.len(),
            forall|j: int| 0 <= j < x@.len() ==> (#[trigger] x@[j]).is_canonical(),
            forall|j: int| 0 <= j < y@.len() ==> (#[trigger] y@[j]).is_canonical(),
            v@.len() == i,
            forall|j: int| 0 <= j < i ==> (#[trigger] v@[j]) == (x@[j].val() == y@[j].val()),
        decreases x@.len() - i,
    {
        let e = x[i] == y[i];
        proof {
            if x@[i as int].val() == y@[i as int].val() {
                crate::scalar::lemma_val_injective(x@[i as int], y@[i as int]);
            }
        }
        v.push(e);
        i += 1;
    }
    proof {
        assert(v@ =~= Seq::new(
            x@.len(),
            |i: int| x@.map(|_i: int, a: Scalar| a.val())[i] == y@.map(
                |_i: int,
                a: Scalar,
            | a.val())[i],
        ));
    }
    v
}

/// A constant column of `n` copies of a literal.
fn literal_column(v: &LiteralValue, n: usize) -> (r: OwnedColumn)
    requires
        v.wf(),
    ensures
        col_v(r) == spec_const_column(*v, n as nat),
        r.wf(),
        r.spec_len() == n,
{
    match v {
        LiteralValue::Boolean(b) => {
            let mut w: Vec<bool> = Vec::new();
            let mut i: usize = 0;
            while i < n
                invariant
                    0 <= i <= n,
                    w@.len() == i,
                    forall|j: int| 0 <= j < i ==> (#[trigger] w@[j]) == b,
                decreases n - i,
            {
                w.push(*b);
                i += 1;
            }
            proof {
                assert(w@ =~= Seq::new(n as nat, |_i: int| *b));
            }
            OwnedColumn::Boolean(w)
        },
        LiteralValue::BigInt(x) => {
            let mut w: Vec<i64> = Vec::new();
            let mut i: usize = 0;
            while i < n
                invariant
                    0 <= i <= n,
                    w@.len() == i,
                    forall|j: int| 0 <= j < i ==> (#[trigger] w@[j]) == x,
                decreases n - i,
            {
                w.push(*x);
                i += 1;
            }
            proof {
                assert(w@.map(|_i: int, a: i64| a as int) =~= Seq::new(
                    n as nat,
                    |_i: int| *x as int,
                ));
            }
            OwnedColumn::BigInt(w)
        },
        LiteralValue::Int128(x) => {
            let mut w: Vec<i128> = Vec::new();
            let mut i: usize = 0;
            while i < n
                invariant
                    0 <= i <= n,
                    w@.len() == i,
                    forall|j: int| 0 <= j < i ==> (#[trigger] w@[j]) == x,
                decreases n - i,
            {
                w.push(*x);
                i += 1;
            }
            proof {
                assert(w@.map(|_i: int, a: i128| a as int) =~= Seq::new(
                    n as nat,
                    |_i: int| *x as int,
                ));
            }
            OwnedColumn::Int128(w)
        },
        LiteralValue::VarChar(s) => {
            let mut w: Vec<String> = Vec::new();
            let mut i: usize = 0;
            while i < n
                invariant
                    0 <= i <= n,
                    w@.len() == i,
                    forall|j: int| 0 <= j < i ==> (#[trigger] w@[j])@ == s@,
                decreases n - i,
            {
                w.push(s.clone());
                i += 1;
            }
            proof {
                assert(w.deep_view() =~= Seq::new(n as nat, |_i: int| s@));
            }
            OwnedColumn::VarChar(w)
        },
        LiteralValue::Decimal75(p, sc, x) => {
            let mut w: Vec<Scalar> = Vec::new();
            let mut i: usize = 0;
            while i < n
                invariant
                    0 <= i <= n,
                    w@.len() == i,
                    forall|j: int| 0 <= j < i ==> (#[trigger] w@[j]) == x,
                decreases n - i,
            {
                w.push(*x);
                i += 1;
            }
            proof {
                assert(w@.map(|_i: int, a: Scalar| a.val()) =~= Seq::new(
                    n as nat,
                    |_i: int| x.val(),
                ));
            }
            OwnedColumn::Decimal75(*p, *sc, w)
        },
        LiteralValue::Scalar(x) => {
            let mut w: Vec<Scalar> = Vec::new();
            let mut i: usize = 0;
            while i < n
                invariant
                    0 <= i <= n,
                    w@.len() == i,
                    forall|j: int| 0 <= j < i ==> (#[trigger] w@[j]) == x,
                decreases n - i,
            {
                w.push(*x);
                i += 1;
            }
            proof {
                assert(w@.map(|_i: int, a: Scalar| a.val()) =~= Seq::new(
                    n as nat,
                    |_i: int| x.val(),
                ));
            }
            OwnedColumn::Scalar(w)
        },
    }
}


/// Narrow checked 128-bit results into a 64-bit column.
fn narrow_to_i64(z: &Vec<i128>) -> (r: Vec<i64>)
    requires
        forall|i: int| 0 <= i < z@.len()
            ==> i64::MIN <= (#[trigger] z@[i]) <= i64::MAX,
    ensures
        r@.map(|_i: int, a: i64| a as int) == z@.map(|_i: int, a: i128| a as int),
{
    let mut v: Vec<i64> = Vec::new();
    let mut i: usize = 0;
    while i < z.len()
        invariant
            0 <= i <= z@.len(),
            v@.len() == i,
            forall|j: int| 0 <= j < z@.len()
                ==> i64::MIN <= (#[trigger] z@[j]) <= i64::MAX,
            forall|j: int| 0 <= j < i ==> (#[trigger] v@[j]) as int == z@[j] as int,
        decreases z@.len() - i,
    {
        v.push(z[i] as i64);
        i += 1;
    }
    proof {
        assert(v@.map(|_i: int, a: i64| a as int) =~= z@.map(|_i: int, a: i128| a as int));
    }
    v
}

/// One arithmetic node over two evaluated columns of equal length.
fn arith_cols(op: BinOp, a: &OwnedColumn, b: &OwnedColumn) -> (r: Result<OwnedColumn, EvalError>)
    requires
        a.wf(),
        b.wf(),
        a.spec_len() == b.spec_len(),
    ensures
        ({
            let sr = spec_arith_cols(op, col_v(*a), col_v(*b));
            match sr {
                Ok(cv) => r matches Ok(c) && col_v(c) == cv && c.wf() && c.spec_len()
                    == a.spec_len(),
                Err(e) => r == Err::<OwnedColumn, EvalError>(e),
            }
        }),
{
    proof {
        lemma_cells_len(*a);
        lemma_cells_len(*b);
        lemma_arith_cols_len(op, col_v(*a), col_v(*b));
    }
    let ta = a.column_type();
    let tb = b.column_type();
    let rt = match op {
        BinOp::Multiply => crate::column::try_multiply_column_types(ta, tb),
        _ => crate::column::try_add_subtract_column_types(ta, tb),
    };
    match rt {
        Err(_) => Err(EvalError::PlanType),
        Ok(t) => match t {
            ColumnType::BigInt => {
                let x = col_int_cells(a).unwrap();
                let y = col_int_cells(b).unwrap();
                assert(x@.len() == y@.len());
                let z = int_bin(op, &x, &y, true)?;
                let w = narrow_to_i64(&z);
                proof {
                    assert(col_v(OwnedColumn::BigInt(w))
                        == spec_arith_cols(op, col_v(*a), col_v(*b)).unwrap());
                    lemma_cells_len(OwnedColumn::BigInt(w));
                }
                Ok(OwnedColumn::BigInt(w))
            },
            ColumnType::Int128 => {
                let x = col_int_cells(a).unwrap();
                let y = col_int_cells(b).unwrap();
                assert(x@.len() == y@.len());
                let z = int_bin(op, &x, &y, false)?;
                proof {
                    assert(col_v(OwnedColumn::Int128(z))
                        == spec_arith_cols(op, col_v(*a), col_v(*b)).unwrap());
                    lemma_cells_len(OwnedColumn::Int128(z));
                }
                Ok(OwnedColumn::Int128(z))
            },
            ColumnType::Scalar => {
                let x = col_field_cells(a).unwrap();
                let y = col_field_cells(b).unwrap();
                assert(x@.len() == y@.len());
                let z = field_bin(op, &x, &y);
                proof {
                    assert(col_v(OwnedColumn::Scalar(z))
                        == spec_arith_cols(op, col_v(*a), col_v(*b)).unwrap());
                    lemma_cells_len(OwnedColumn::Scalar(z));
                }
                Ok(OwnedColumn::Scalar(z))
            },
            ColumnType::Decimal75(p, s) => {
                let x = col_field_cells(a).unwrap();
                let y = col_field_cells(b).unwrap();
                assert(x@.len() == y@.len());
                let z = match op {
                    BinOp::Multiply => field_bin(op, &x, &y),
                    _ => {
                        let sa = crate::column::scale_of(ta);
                        let sb = crate::column::scale_of(tb);
                        assert(sa <= s && sb <= s);
                        let da: u32 = (s as i32 - sa as i32) as u32;
                        let db: u32 = (s as i32 - sb as i32) as u32;
                        let xs = scale_cells(&x, da);
                        let ys = scale_cells(&y, db);
                        proof {
                            assert(xs@.map(|_i: int, a: Scalar| a.val()).len() == xs@.len());
                            assert(ys@.map(|_i: int, a: Scalar| a.val()).len() == ys@.len());
                            assert(x@.map(|_i: int, a: Scalar| a.val()).len() == x@.len());
                            assert(y@.map(|_i: int, a: Scalar| a.val()).len() == y@.len());
                        }
                        assert(xs@.len() == ys@.len());
                        field_bin(op, &xs, &ys)
                    },
                };
                proof {
                    assert(col_v(OwnedColumn::Decimal75(p, s, z))
                        == spec_arith_cols(op, col_v(*a), col_v(*b)).unwrap());
                    lemma_cells_len(OwnedColumn::Decimal75(p, s, z));
                }
                Ok(OwnedColumn::Decimal75(p, s, z))
            },
            _ => Err(EvalError::PlanType),
        },
    }
}

/// One equality node over two evaluated columns of equal length.
fn equals_cols(a: &OwnedColumn, b: &OwnedColumn) -> (r: Result<OwnedColumn, EvalError>)
    requires
        a.wf(),
        b.wf(),
        a.spec_len() == b.spec_len(),
    ensures
        ({
            let sr = spec_equals_cols(col_v(*a), col_v(*b));
            match sr {
                Ok(cv) => r matches Ok(c) && col_v(c) == cv && c.wf() && c.spec_len()
                    == a.spec_len(),
                Err(e) => r == Err::<OwnedColumn, EvalError>(e),
            }
        }),
{
    proof {
        lemma_cells_len(*a);
        lemma_cells_len(*b);
        lemma_equals_cols_len(col_v(*a), col_v(*b));
    }
    let ta = a.column_type();
    let tb = b.column_type();
    if !crate::column::try_equals_column_types(ta, tb) {
        return Err(EvalError::PlanType);
    }
    match (a, b) {
        (OwnedColumn::Boolean(x), OwnedColumn::Boolean(y)) => {
            let m = mask_bool(x, y);
            proof {
                lemma_cells_len(OwnedColumn::Boolean(m));
            }
            Ok(OwnedColumn::Boolean(m))
        },
        (OwnedColumn::VarChar(x), OwnedColumn::VarChar(y)) => {
            let m = mask_string(x, y);
            proof {
                lemma_cells_len(OwnedColumn::Boolean(m));
            }
            Ok(OwnedColumn::Boolean(m))
        },
        _ => {
            let xi = col_int_cells(a);
            let yi = col_int_cells(b);
            match (xi, yi) {
                (Some(x), Some(y)) => {
                    assert(x@.len() == y@.len());
                    let m = mask_i128(&x, &y);
                    proof {
                        lemma_cells_len(OwnedColumn::Boolean(m));
                    }
                    Ok(OwnedColumn::Boolean(m))
                },
                _ => {
                    let x = col_field_cells(a).unwrap();
                    let y = col_field_cells(b).unwrap();
                    assert(x@.len() == y@.len());
                    let m = mask_scalar(&x, &y);
                    proof {
                        lemma_cells_len(OwnedColumn::Boolean(m));
                    }
                    Ok(OwnedColumn::Boolean(m))
                },
            }
        },
    }
}

impl DynProofExpr {
    /// Evaluates the expression over `t`, whose row count is `n`, to a
    /// concrete column, exactly as `spec_eval_expr` says.
    pub fn result_evaluate(&self, t: &OwnedTable, n: usize) -> (r: Result<
        OwnedColumn,
        EvalError,
    >)
        requires
            t.wf(),
            self.wf(),
        ensures
            ({
                let sr = spec_eval_expr(*self, *t, n as nat);
                match sr {
                    Ok(cv) => r matches Ok(c) && col_v(c) == cv && c.wf() && c.spec_len() == n,
                    Err(e) => r == Err::<OwnedColumn, EvalError>(e),
                }
            }),
        decreases self,
    {
        match self {
            DynProofExpr::Column(cr) => match t.column_by_name(&cr.column_id) {
                Some(c) => {
                    if c.column_type() == cr.column_type && c.len() == n {
                        proof {
                            lemma_lookup_member(t.columns@, cr.column_id@);
                            let i = choose|i: int|
                                0 <= i < t.columns@.len() && (#[trigger] t.columns@[i]).1 == *c;
                            assert(t.columns@[i].1.wf());
                        }
                        let copied = c.clone();
                        proof {
                            lemma_col_eq_v(copied, *c);
                            lemma_col_eq_wf(copied, *c);
                            lemma_cells_len(copied);
                            lemma_cells_len(*c);
                        }
                        Ok(copied)
                    } else {
                        Err(EvalError::AccessorMissing)
                    }
                },
                None => Err(EvalError::AccessorMissing),
            },
            DynProofExpr::Literal(v) => Ok(literal_column(v, n)),
            DynProofExpr::Add(l, r) => {
                let a = l.result_evaluate(t, n)?;
                let b = r.result_evaluate(t, n)?;
                arith_cols(BinOp::Add, &a, &b)
            },
            DynProofExpr::Subtract(l, r) => {
                let a = l.result_evaluate(t, n)?;
                let b = r.result_evaluate(t, n)?;
                arith_cols(BinOp::Subtract, &a, &b)
            },
            DynProofExpr::Multiply(l, r) => {
                let a = l.result_evaluate(t, n)?;
                let b = r.result_evaluate(t, n)?;
                arith_cols(BinOp::Multiply, &a, &b)
            },
            DynProofExpr::Equals(l, r) => {
                let a = l.result_evaluate(t, n)?;
                let b = r.result_evaluate(t, n)?;
                equals_cols(&a, &b)
            },
        }
    }
}

/// Columns with equal cells are equally well-formed.
pub proof fn lemma_col_eq_wf(a: OwnedColumn, b: OwnedColumn)
    requires
        crate::table::spec_col_eq(a, b),
    ensures
        a.wf() == b.wf(),
{
}


/// Every cell is representable at its column's type: integers within their
/// width, field cells fully reduced.
pub open spec fn cv_in_range(cv: ColumnV) -> bool {
    match cv {
        ColumnV::Boolean(_) => true,
        ColumnV::BigInt(v) => forall|i: int|
            0 <= i < v.len() ==> i64::MIN <= #[trigger] v[i] <= i64::MAX,
        ColumnV::Int128(v) => forall|i: int|
            0 <= i < v.len() ==> i128::MIN <= #[trigger] v[i] <= i128::MAX,
        ColumnV::Decimal75(_, _, v) => forall|i: int|
            0 <= i < v.len() ==> #[trigger] v[i] < group_order(),
        ColumnV::VarChar(_) => true,
        ColumnV::Scalar(v) => forall|i: int|
            0 <= i < v.len() ==> #[trigger] v[i] < group_order(),
    }
}

/// The model of a well-formed column carries its type and is in range.
pub proof fn lemma_col_v_props(c: OwnedColumn)
    requires
        c.wf(),
    ensures
        col_v(c).column_type() == c.spec_type(),
        cv_in_range(col_v(c)),
{
}

/// A successful evaluation yields a column of the expression's own type, of
/// the table's row count, with every cell in range.
pub proof fn lemma_eval_expr_props(e: DynProofExpr, t: OwnedTable, n: nat)
    requires
        t.wf(),
        e.wf(),
    ensures
        spec_eval_expr(e, t, n) matches Ok(cv) ==> Some(cv.column_type()) == e.spec_data_type()
            && cv.len() == n && cv_in_range(cv) && cv.column_type().wf(),
    decreases e,
{
    match e {
        DynProofExpr::Column(cr) => {
            if spec_table_lookup(t.columns@, cr.column_id@) is Some {
                let c = spec_table_lookup(t.columns@, cr.column_id@).unwrap();
                lemma_lookup_member(t.columns@, cr.column_id@);
                let i = choose|i: int|
                    0 <= i < t.columns@.len() && (#[trigger] t.columns@[i]).1 == c;
                assert(t.columns@[i].1.wf());
                lemma_col_v_props(c);
                lemma_cells_len(c);
            }
        },
        DynProofExpr::Literal(v) => {
            let cv = spec_const_column(v, n);
            assert(cv.column_type() == v.spec_type());
            assert(cv.len() == n);
            assert(cv_in_range(cv));
        },
        DynProofExpr::Add(l, r) => {
            lemma_eval_expr_props(*l, t, n);
            lemma_eval_expr_props(*r, t, n);
            lemma_arith_props(BinOp::Add, *l, *r, t, n);
        },
        DynProofExpr::Subtract(l, r) => {
            lemma_eval_expr_props(*l, t, n);
            lemma_eval_expr_props(*r, t, n);
            lemma_arith_props(BinOp::Subtract, *l, *r, t, n);
        },
        DynProofExpr::Multiply(l, r) => {
            lemma_eval_expr_props(*l, t, n);
            lemma_eval_expr_props(*r, t, n);
            lemma_arith_props(BinOp::Multiply, *l, *r, t, n);
        },
        DynProofExpr::Equals(l, r) => {
            lemma_eval_expr_props(*l, t, n);
            lemma_eval_expr_props(*r, t, n);
            if spec_eval_expr(*l, t, n) is Ok {
                lemma_cv_cells_len(spec_eval_expr(*l, t, n).unwrap());
            }
        },
    }
}

/// The properties of an arithmetic node's result, given its operands'.
proof fn lemma_arith_props(op: BinOp, l: DynProofExpr, r: DynProofExpr, t: OwnedTable, n: nat)
    requires
        spec_eval_expr(l, t, n) matches Ok(cv) ==> Some(cv.column_type()) == l.spec_data_type()
            && cv.len() == n && cv_in_range(cv) && cv.column_type().wf(),
        spec_eval_expr(r, t, n) matches Ok(cv) ==> Some(cv.column_type()) == r.spec_data_type()
            && cv.len() == n && cv_in_range(cv) && cv.column_type().wf(),
    ensures
        spec_eval_expr(l, t, n) matches Ok(a) ==> spec_eval_expr(r, t, n) matches Ok(b)
            ==> spec_arith_cols(op, a, b) matches Ok(cv) ==> ({
            let rt = if op is Multiply {
                crate::column::spec_multiply_type(a.column_type(), b.column_type())
            } else {
                crate::column::spec_add_subtract_type(a.column_type(), b.column_type())
            };
            Some(cv.column_type()) == match rt {
                Ok(ty) => Some(ty),
                Err(_) => None::<ColumnType>,
            } && cv.len() == n && cv_in_range(cv) && cv.column_type().wf()
        }),
{
    if spec_eval_expr(l, t, n) is Ok && spec_eval_expr(r, t, n) is Ok {
        let a = spec_eval_expr(l, t, n).unwrap();
        let b = spec_eval_expr(r, t, n).unwrap();
        lemma_cv_cells_len(a);
        lemma_cv_cells_len(b);
        if spec_arith_cols(op, a, b) is Ok {
            let cv = spec_arith_cols(op, a, b).unwrap();
            lemma_cv_cells_len(cv);
            match cv {
                ColumnV::Decimal75(_, _, v) => {
                    assert(forall|i: int| 0 <= i < v.len()
                        ==> #[trigger] v[i] < group_order());
                },
                ColumnV::Scalar(v) => {
                    assert(forall|i: int| 0 <= i < v.len()
                        ==> #[trigger] v[i] < group_order());
                },
                _ => {},
            }
        }
    }
}

} // verus!
