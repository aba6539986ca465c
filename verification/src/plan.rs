//! Proof plans: the relational nodes. A table scan returns a table as it is,
//! a projection evaluates aliased expressions over it, and a filter keeps the
//! rows its boolean predicate selects, preserving their order.

use crate::column::{ColumnField, ColumnRef, ColumnType};
use crate::eval::{col_v, spec_eval_expr, ColumnV, EvalError};
use crate::expr::DynProofExpr;
use crate::ident::{Identifier, TableRef};
use crate::scalar::Scalar;
use crate::table::{OwnedColumn, OwnedTable};
use vstd::prelude::*;

verus! {

/// An output column: an expression and the name it is published under.
#[derive(Debug, PartialEq, Eq)]
pub struct AliasedDynProofExpr {
    pub expr: DynProofExpr,
    pub alias: Identifier,
}

/// The leaf plan: one table, whole.
#[derive(Debug, PartialEq, Eq)]
pub struct TableExpr {
    pub table_ref: TableRef,
}

/// Evaluates aliased expressions over the table and publishes the results.
#[derive(Debug, PartialEq, Eq)]
pub struct ProjectionExec {
    pub aliased_results: Vec<AliasedDynProofExpr>,
    pub table: TableExpr,
}

/// Evaluates aliased expressions and keeps the rows where the predicate holds.
#[derive(Debug, PartialEq, Eq)]
pub struct FilterExec {
    pub aliased_results: Vec<AliasedDynProofExpr>,
    pub table: TableExpr,
    pub where_clause: DynProofExpr,
}

/// A proof plan: one of the fixed set of relational nodes. The table scan is
/// the leaf the other nodes read from; only projections and filters publish
/// an aliased output and go through the prover/verifier protocol.
#[derive(Debug, PartialEq, Eq)]
pub enum DynProofPlan {
    Table(TableExpr),
    Projection(ProjectionExec),
    Filter(FilterExec),
}

/// The rows of `s` selected by the mask `m`, in their original order.
pub open spec fn filter_seq<A>(s: Seq<A>, m: Seq<bool>) -> Seq<A>
    decreases s.len(),
{
    if s.len() == 0 {
        Seq::empty()
    } else {
        let pre = filter_seq(s.drop_last(), m.drop_last());
        if m.len() == s.len() && m.last() {
            pre.push(s.last())
        } else {
            pre
        }
    }
}

/// A column restricted to the masked rows.
pub open spec fn spec_filter_cv(c: ColumnV, m: Seq<bool>) -> ColumnV {
    match c {
        ColumnV::Boolean(v) => ColumnV::Boolean(filter_seq(v, m)),
        ColumnV::BigInt(v) => ColumnV::BigInt(filter_seq(v, m)),
        ColumnV::Int128(v) => ColumnV::Int128(filter_seq(v, m)),
        ColumnV::Decimal75(p, s, v) => ColumnV::Decimal75(p, s, filter_seq(v, m)),
        ColumnV::VarChar(v) => ColumnV::VarChar(filter_seq(v, m)),
        ColumnV::Scalar(v) => ColumnV::Scalar(filter_seq(v, m)),
    }
}

/// The model of a table: its named column models, in order.
pub open spec fn table_v(t: OwnedTable) -> Seq<(Seq<char>, ColumnV)> {
    named_cols_v(t.columns@)
}

/// Aliased expressions evaluated front to back; the first fatal error wins.
pub open spec fn spec_eval_aliased(
    s: Seq<AliasedDynProofExpr>,
    t: OwnedTable,
    n: nat,
) -> Result<Seq<(Seq<char>, ColumnV)>, EvalError>
    decreases s.len(),
{
    if s.len() == 0 {
        Ok(Seq::empty())
    } else {
        match spec_eval_expr(s[0].expr, t, n) {
            Err(e) => Err(e),
            Ok(cv) => match spec_eval_aliased(s.skip(1), t, n) {
                Err(e) => Err(e),
                Ok(rest) => Ok(seq![(s[0].alias@, cv)].add(rest)),
            },
        }
    }
}

/// No two published names equal.
pub open spec fn spec_out_names_distinct(cols: Seq<(Seq<char>, ColumnV)>) -> bool {
    forall|i: int, j: int| 0 <= i < j < cols.len()
        ==> (#[trigger] cols[i]).0 != (#[trigger] cols[j]).0
}

/// What a plan yields over its input table: a named-column model, or the
/// first fatal error. Projection keeps the input row count; filter publishes
/// only the selected rows; the leaf returns the table whole.
pub open spec fn spec_eval_plan(p: DynProofPlan, t: OwnedTable) -> Result<
    Seq<(Seq<char>, ColumnV)>,
    EvalError,
> {
    match p {
        DynProofPlan::Table(_) => Ok(table_v(t)),
        DynProofPlan::Projection(pe) => match spec_eval_aliased(
            pe.aliased_results@,
            t,
            t.spec_num_rows(),
        ) {
            Err(e) => Err(e),
            Ok(cols) => if spec_out_names_distinct(cols) {
                Ok(cols)
            } else {
                Err(EvalError::PlanType)
            },
        },
        DynProofPlan::Filter(fe) => match spec_eval_expr(
            fe.where_clause,
            t,
            t.spec_num_rows(),
        ) {
            Err(e) => Err(e),
            Ok(pv) => match pv {
                ColumnV::Boolean(m) => match spec_eval_aliased(
                    fe.aliased_results@,
                    t,
                    t.spec_num_rows(),
                ) {
                    Err(e) => Err(e),
                    Ok(cols) => if spec_out_names_distinct(cols) {
                        Ok(cols.map(|_i: int, c: (Seq<char>, ColumnV)| (
                            c.0,
                            spec_filter_cv(c.1, m),
                        )))
                    } else {
                        Err(EvalError::PlanType)
                    },
                },
                _ => Err(EvalError::PlanType),
            },
        },
    }
}

impl DynProofPlan {
    /// Every expression in the plan is well-formed.
    pub open spec fn wf(self) -> bool {
        match self {
            DynProofPlan::Table(_) => true,
            DynProofPlan::Projection(pe) => forall|i: int|
                0 <= i < pe.aliased_results@.len()
                    ==> (#[trigger] pe.aliased_results@[i]).expr.wf(),
            DynProofPlan::Filter(fe) => fe.where_clause.wf() && forall|i: int|
                0 <= i < fe.aliased_results@.len()
                    ==> (#[trigger] fe.aliased_results@[i]).expr.wf(),
        }
    }

    /// Every expression obeys its typing rule, and a filter predicate is
    /// boolean.
    pub open spec fn spec_well_typed(self) -> bool {
        match self {
            DynProofPlan::Table(_) => true,
            DynProofPlan::Projection(pe) => forall|i: int|
                0 <= i < pe.aliased_results@.len()
                    ==> (#[trigger] pe.aliased_results@[i]).expr.spec_well_typed(),
            DynProofPlan::Filter(fe) => fe.where_clause.spec_data_type() == Some(
                ColumnType::Boolean,
            ) && forall|i: int|
                0 <= i < fe.aliased_results@.len()
                    ==> (#[trigger] fe.aliased_results@[i]).expr.spec_well_typed(),
        }
    }

    /// The table the plan reads.
    pub open spec fn spec_table_key(self) -> (Seq<char>, Seq<char>) {
        match self {
            DynProofPlan::Table(te) => te.table_ref.spec_key(),
            DynProofPlan::Projection(pe) => pe.table.table_ref.spec_key(),
            DynProofPlan::Filter(fe) => fe.table.table_ref.spec_key(),
        }
    }

    /// The set of leaf column keys the plan reads anywhere.
    pub open spec fn spec_refs(self) -> Set<((Seq<char>, Seq<char>), Seq<char>, ColumnType)> {
        match self {
            DynProofPlan::Table(_) => Set::empty(),
            DynProofPlan::Projection(pe) => spec_refs_of_aliased(pe.aliased_results@),
            DynProofPlan::Filter(fe) => spec_refs_of_aliased(fe.aliased_results@).union(
                fe.where_clause.spec_refs(),
            ),
        }
    }

    pub fn get_table_references(&self) -> (r: Vec<TableRef>)
        ensures
            r@.len() == 1,
            r@[0].spec_key() == self.spec_table_key(),
    {
        let tr = match self {
            DynProofPlan::Table(te) => te.table_ref.clone(),
            DynProofPlan::Projection(pe) => pe.table.table_ref.clone(),
            DynProofPlan::Filter(fe) => fe.table.table_ref.clone(),
        };
        let mut v: Vec<TableRef> = Vec::new();
        v.push(tr);
        v
    }

    /// Every leaf column the plan reads, in first-visit order; the set of
    /// their keys is exactly `spec_refs`.
    pub fn get_column_references(&self) -> (r: Vec<ColumnRef>)
        ensures
            forall|i: int| 0 <= i < r@.len()
                ==> self.spec_refs().contains((#[trigger] r@[i]).spec_key()),
            forall|k: ((Seq<char>, Seq<char>), Seq<char>, ColumnType)|
                self.spec_refs().contains(k) ==> exists|i: int|
                    0 <= i < r@.len() && (#[trigger] r@[i]).spec_key() == k,
    {
        let mut out: Vec<ColumnRef> = Vec::new();
        match self {
            DynProofPlan::Table(_) => {},
            DynProofPlan::Projection(pe) => {
                collect_aliased_refs(&pe.aliased_results, &mut out);
            },
            DynProofPlan::Filter(fe) => {
                collect_aliased_refs(&fe.aliased_results, &mut out);
                let ghost mid = out@;
                fe.where_clause.collect_column_references(&mut out);
                proof {
                    assert forall|i: int| 0 <= i < out@.len()
                        implies self.spec_refs().contains(
                        (#[trigger] out@[i]).spec_key(),
                    ) by {
                        if i < mid.len() {
                            assert(out@[i].spec_key() == mid[i].spec_key());
                            assert(spec_refs_of_aliased(fe.aliased_results@).contains(
                                mid[i].spec_key(),
                            ));
                        } else {
                            assert(fe.where_clause.spec_refs().contains(out@[i].spec_key()));
                        }
                    }
                }
            },
        }
        out
    }

    /// The output schema: each published name with its expression's type, in
    /// order.
    pub fn get_column_result_fields(&self) -> (r: Vec<ColumnField>)
        requires
            self.spec_well_typed(),
        ensures
            ({
                let s = self.spec_aliased();
                &&& r@.len() == s.len()
                &&& forall|i: int| 0 <= i < s.len() ==> (#[trigger] r@[i]).name@ == s[i].alias@
                    && Some(r@[i].data_type) == s[i].expr.spec_data_type()
            }),
    {
        let mut r: Vec<ColumnField> = Vec::new();
        let aliased: &Vec<AliasedDynProofExpr> = match self {
            DynProofPlan::Table(_) => {
                return r;
            },
            DynProofPlan::Projection(pe) => &pe.aliased_results,
            DynProofPlan::Filter(fe) => &fe.aliased_results,
        };
        let mut i: usize = 0;
        while i < aliased.len()
            invariant
                0 <= i <= aliased@.len(),
                aliased@ == self.spec_aliased(),
                self.spec_well_typed(),
                r@.len() == i,
                forall|j: int| 0 <= j < i ==> (#[trigger] r@[j]).name@ == aliased@[j].alias@
                    && Some(r@[j].data_type) == aliased@[j].expr.spec_data_type(),
            decreases aliased@.len() - i,
        {
            let dt = match aliased[i].expr.data_type() {
                Ok(t) => t,
                Err(_) => {
                    proof {
                        assert(aliased@[i as int].expr.spec_well_typed());
                        assert(false);
                    }
                    ColumnType::Boolean
                },
            };
            r.push(ColumnField::new(aliased[i].alias.clone(), dt));
            i += 1;
        }
        r
    }

    /// The aliased output expressions of the plan (none for a table scan).
    pub open spec fn spec_aliased(self) -> Seq<AliasedDynProofExpr> {
        match self {
            DynProofPlan::Table(_) => Seq::empty(),
            DynProofPlan::Projection(pe) => pe.aliased_results@,
            DynProofPlan::Filter(fe) => fe.aliased_results@,
        }
    }
}

/// Union of the leaf keys of a list of aliased expressions.
pub open spec fn spec_refs_of_aliased(s: Seq<AliasedDynProofExpr>) -> Set<
    ((Seq<char>, Seq<char>), Seq<char>, ColumnType),
>
    decreases s.len(),
{
    if s.len() == 0 {
        Set::empty()
    } else {
        spec_refs_of_aliased(s.drop_last()).union(s.last().expr.spec_refs())
    }
}

/// Appends the leaf references of each expression in order.
fn collect_aliased_refs(s: &Vec<AliasedDynProofExpr>, out: &mut Vec<ColumnRef>)
    ensures
        final(out)@.len() >= old(out)@.len(),
        forall|i: int| 0 <= i < old(out)@.len() ==> final(out)@[i].spec_key()
            == (#[trigger] old(out)@[i]).spec_key(),
        forall|i: int| old(out)@.len() <= i < final(out)@.len()
            ==> spec_refs_of_aliased(s@).contains((#[trigger] final(out)@[i]).spec_key()),
        forall|k: ((Seq<char>, Seq<char>), Seq<char>, ColumnType)|
            spec_refs_of_aliased(s@).contains(k) ==> exists|i: int|
                old(out)@.len() <= i < final(out)@.len()
                    && (#[trigger] final(out)@[i]).spec_key() == k,
{
    let mut i: usize = 0;
    while i < s.len()
        invariant
            0 <= i <= s@.len(),
            out@.len() >= old(out)@.len(),
            forall|j: int| 0 <= j < old(out)@.len() ==> out@[j].spec_key()
                == (#[trigger] old(out)@[j]).spec_key(),
            forall|j: int| old(out)@.len() <= j < out@.len()
                ==> spec_refs_of_aliased(s@.take(i as int)).contains(
                    (#[trigger] out@[j]).spec_key(),
                ),
            forall|k: ((Seq<char>, Seq<char>), Seq<char>, ColumnType)|
                spec_refs_of_aliased(s@.take(i as int)).contains(k) ==> exists|j: int|
                    old(out)@.len() <= j < out@.len() && (#[trigger] out@[j]).spec_key() == k,
        decreases s@.len() - i,
    {
        let ghost mid = out@;
        s[i].expr.collect_column_references(out);
        proof {
            assert(s@.take(i + 1int).drop_last() =~= s@.take(i as int));
            assert(s@.take(i + 1int).last() == s@[i as int]);
            assert forall|j: int| old(out)@.len() <= j < out@.len()
                implies spec_refs_of_aliased(s@.take(i + 1int)).contains(
                (#[trigger] out@[j]).spec_key(),
            ) by {
                if j < mid.len() {
                    assert(out@[j].spec_key() == mid[j].spec_key());
                    assert(spec_refs_of_aliased(s@.take(i as int)).contains(mid[j].spec_key()));
                } else {
                    assert(s@[i as int].expr.spec_refs().contains(out@[j].spec_key()));
                }
            }
            assert forall|k: ((Seq<char>, Seq<char>), Seq<char>, ColumnType)|
                #[trigger] spec_refs_of_aliased(s@.take(i + 1int)).contains(k) implies exists|j: int|
                old(out)@.len() <= j < out@.len() && (#[trigger] out@[j]).spec_key() == k by {
                if spec_refs_of_aliased(s@.take(i as int)).contains(k) {
                } else {
                    assert(s@[i as int].expr.spec_refs().contains(k));
                    let j0 = choose|j: int|
                        mid.len() <= j < out@.len() && (#[trigger] out@[j]).spec_key() == k;
                    assert(out@[j0].spec_key() == k);
                }
            }
        }
        i += 1;
    }
    proof {
        assert(s@.take(s@.len() as int) =~= s@);
    }
}


/// The number of selected rows of a mask.
pub open spec fn count_true(m: Seq<bool>) -> nat
    decreases m.len(),
{
    if m.len() == 0 {
        0
    } else {
        count_true(m.drop_last()) + if m.last() { 1nat } else { 0nat }
    }
}

/// A filtered sequence has one row per selected mask entry.
pub proof fn lemma_filter_len<A>(s: Seq<A>, m: Seq<bool>)
    requires
        s.len() == m.len(),
    ensures
        filter_seq(s, m).len() == count_true(m),
    decreases s.len(),
{
    if s.len() > 0 {
        lemma_filter_len(s.drop_last(), m.drop_last());
    }
}

/// Every filtered row is one of the original rows.
proof fn lemma_filter_subset<A>(s: Seq<A>, m: Seq<bool>)
    ensures
        forall|i: int| 0 <= i < filter_seq(s, m).len() ==> exists|j: int|
            0 <= j < s.len() && #[trigger] filter_seq(s, m)[i] == s[j],
    decreases s.len(),
{
    if s.len() > 0 {
        lemma_filter_subset(s.drop_last(), m.drop_last());
        assert forall|i: int| 0 <= i < filter_seq(s, m).len() implies exists|j: int|
            0 <= j < s.len() && #[trigger] filter_seq(s, m)[i] == s[j] by {
            let pre = filter_seq(s.drop_last(), m.drop_last());
            if i < pre.len() {
                let j0 = choose|j: int| 0 <= j < s.drop_last().len() && pre[i]
                    == s.drop_last()[j];
                assert(filter_seq(s, m)[i] == s[j0]);
            } else {
                assert(filter_seq(s, m)[i] == s[s.len() - 1]);
            }
        }
    }
}

/// Filtering commutes with mapping a function over the rows.
proof fn lemma_filter_map<A, B>(s: Seq<A>, m: Seq<bool>, f: spec_fn(A) -> B)
    ensures
        filter_seq(s, m).map(|_i: int, a: A| f(a)) == filter_seq(
            s.map(|_i: int, a: A| f(a)),
            m,
        ),
    decreases s.len(),
{
    if s.len() == 0 {
        assert(filter_seq(s, m).map(|_i: int, a: A| f(a)) =~= filter_seq(
            s.map(|_i: int, a: A| f(a)),
            m,
        ));
    } else {
        lemma_filter_map(s.drop_last(), m.drop_last(), f);
        let sm = s.map(|_i: int, a: A| f(a));
        assert(sm.drop_last() =~= s.drop_last().map(|_i: int, a: A| f(a)));
        assert(sm.len() == s.len());
        assert(sm.last() == f(s.last()));
        if m.len() == s.len() && m.last() {
            assert(filter_seq(s, m).map(|_i: int, a: A| f(a)) =~= filter_seq(
                s.drop_last(),
                m.drop_last(),
            ).map(|_i: int, a: A| f(a)).push(f(s.last())));
        } else {
            assert(filter_seq(s, m).map(|_i: int, a: A| f(a)) =~= filter_seq(
                s.drop_last(),
                m.drop_last(),
            ).map(|_i: int, a: A| f(a)));
        }
    }
}

/// Keeps the masked rows of a vector of plain values.
fn filter_vec<T: Copy>(v: &Vec<T>, m: &Vec<bool>) -> (r: Vec<T>)
    requires
        v@.len() == m@.len(),
    ensures
        r@ == filter_seq(v@, m@),
{
    let mut r: Vec<T> = Vec::new();
    let mut i: usize = 0;
    while i < v.len()
        invariant
            0 <= i <= v@.len(),
            v@.len() == m@.len(),
            r@ == filter_seq(v@.take(i as int), m@.take(i as int)),
        decreases v@.len() - i,
    {
        proof {
            assert(v@.take(i + 1int).drop_last() =~= v@.take(i as int));
            assert(m@.take(i + 1int).drop_last() =~= m@.take(i as int));
            assert(v@.take(i + 1int).last() == v@[i as int]);
            assert(m@.take(i + 1int).last() == m@[i as int]);
        }
        if m[i] {
            r.push(v[i]);
        }
        i += 1;
    }
    proof {
        assert(v@.take(v@.len() as int) =~= v@);
        assert(m@.take(m@.len() as int) =~= m@);
    }
    r
}

/// Keeps the masked rows of a vector of strings.
fn filter_strings(v: &Vec<String>, m: &Vec<bool>) -> (r: Vec<String>)
    requires
        v@.len() == m@.len(),
    ensures
        r.deep_view() == filter_seq(v.deep_view(), m@),
{
    proof {
        assert(v.deep_view().len() == v@.len());
    }
    let mut r: Vec<String> = Vec::new();
    let mut i: usize = 0;
    while i < v.len()
        invariant
            0 <= i <= v@.len(),
            v@.len() == m@.len(),
            v.deep_view().len() == v@.len(),
            r.deep_view() == filter_seq(v.deep_view().take(i as int), m@.take(i as int)),
        decreases v@.len() - i,
    {
        proof {
            assert(v.deep_view().take(i + 1int).drop_last() =~= v.deep_view().take(i as int));
            assert(m@.take(i + 1int).drop_last() =~= m@.take(i as int));
            assert(v.deep_view().take(i + 1int).last() == v.deep_view()[i as int]);
            assert(m@.take(i + 1int).last() == m@[i as int]);
        }
        if m[i] {
            let ghost pre = r.deep_view();
            r.push(v[i].clone());
            proof {
                assert(r.deep_view() =~= pre.push(v@[i as int]@));
                assert(v.deep_view()[i as int] == v@[i as int]@);
            }
        }
        i += 1;
    }
    proof {
        assert(v.deep_view().take(v@.len() as int) =~= v.deep_view());
        assert(m@.take(m@.len() as int) =~= m@);
    }
    r
}

/// Keeps the masked rows of a column.
fn filter_column(c: &OwnedColumn, m: &Vec<bool>) -> (r: OwnedColumn)
    requires
        c.wf(),
        c.spec_len() == m@.len(),
    ensures
        col_v(r) == spec_filter_cv(col_v(*c), m@),
        r.wf(),
        r.spec_len() == count_true(m@),
{
    let out = match c {
        OwnedColumn::Boolean(v) => OwnedColumn::Boolean(filter_vec(v, m)),
        OwnedColumn::BigInt(v) => {
            let w = filter_vec(v, m);
            proof {
                let f = |a: i64| a as int;
                lemma_filter_map(v@, m@, f);
                assert(v@.map(|_i: int, a: i64| f(a)) =~= v@.map(|_i: int, x: i64| x as int));
                assert(filter_seq(v@, m@).map(|_i: int, a: i64| f(a)) =~= w@.map(
                    |_i: int,
                    x: i64,
                | x as int));
            }
            OwnedColumn::BigInt(w)
        },
        OwnedColumn::Int128(v) => {
            let w = filter_vec(v, m);
            proof {
                let f = |a: i128| a as int;
                lemma_filter_map(v@, m@, f);
                assert(v@.map(|_i: int, a: i128| f(a)) =~= v@.map(
                    |_i: int,
                    x: i128,
                | x as int));
                assert(filter_seq(v@, m@).map(|_i: int, a: i128| f(a)) =~= w@.map(
                    |_i: int,
                    x: i128,
                | x as int));
            }
            OwnedColumn::Int128(w)
        },
        OwnedColumn::Decimal75(p, s, v) => {
            let w = filter_vec(v, m);
            proof {
                let f = |a: Scalar| a.val();
                lemma_filter_map(v@, m@, f);
                lemma_filter_subset(v@, m@);
                assert(v@.map(|_i: int, a: Scalar| f(a)) =~= v@.map(
                    |_i: int,
                    x: Scalar,
                | x.val()));
                assert(filter_seq(v@, m@).map(|_i: int, a: Scalar| f(a)) =~= w@.map(
                    |_i: int,
                    x: Scalar,
                | x.val()));
            }
            OwnedColumn::Decimal75(*p, *s, w)
        },
        OwnedColumn::VarChar(v) => OwnedColumn::VarChar(filter_strings(v, m)),
        OwnedColumn::Scalar(v) => {
            let w = filter_vec(v, m);
            proof {
                let f = |a: Scalar| a.val();
                lemma_filter_map(v@, m@, f);
                lemma_filter_subset(v@, m@);
                assert(v@.map(|_i: int, a: Scalar| f(a)) =~= v@.map(
                    |_i: int,
                    x: Scalar,
                | x.val()));
                assert(filter_seq(v@, m@).map(|_i: int, a: Scalar| f(a)) =~= w@.map(
                    |_i: int,
                    x: Scalar,
                | x.val()));
            }
            OwnedColumn::Scalar(w)
        },
    };
    proof {
        match c {
            OwnedColumn::Boolean(v) => lemma_filter_len(v@, m@),
            OwnedColumn::BigInt(v) => lemma_filter_len(v@, m@),
            OwnedColumn::Int128(v) => lemma_filter_len(v@, m@),
            OwnedColumn::Decimal75(_, _, v) => lemma_filter_len(v@, m@),
            OwnedColumn::VarChar(v) => {
                assert(v.deep_view().len() == v@.len());
                lemma_filter_len(v.deep_view(), m@);
                assert(out.spec_len() == filter_seq(v.deep_view(), m@).len());
            },
            OwnedColumn::Scalar(v) => lemma_filter_len(v@, m@),
        }
    }
    out
}


/// The named models of built result columns.
pub open spec fn named_cols_v(v: Seq<(Identifier, OwnedColumn)>) -> Seq<(Seq<char>, ColumnV)> {
    v.map(|_i: int, c: (Identifier, OwnedColumn)| (c.0@, col_v(c.1)))
}

/// Evaluates each aliased expression over `t` in order.
fn eval_aliased_exprs(s: &Vec<AliasedDynProofExpr>, t: &OwnedTable, n: usize) -> (r: Result<
    Vec<(Identifier, OwnedColumn)>,
    EvalError,
>)
    requires
        t.wf(),
        n == t.spec_num_rows(),
        forall|i: int| 0 <= i < s@.len() ==> (#[trigger] s@[i]).expr.wf(),
    ensures
        ({
            let sr = spec_eval_aliased(s@, *t, n as nat);
            match sr {
                Ok(cols) => r matches Ok(v) && named_cols_v(v@) == cols && forall|i: int|
                    0 <= i < v@.len() ==> (#[trigger] v@[i]).1.wf() && v@[i].1.spec_len() == n,
                Err(e) => r == Err::<Vec<(Identifier, OwnedColumn)>, EvalError>(e),
            }
        }),
{
    let mut v: Vec<(Identifier, OwnedColumn)> = Vec::new();
    let mut i: usize = 0;
    proof {
        assert(s@.skip(0) =~= s@);
        assert(named_cols_v(v@) =~= Seq::<(Seq<char>, ColumnV)>::empty());
    }
    while i < s.len()
        invariant
            0 <= i <= s@.len(),
            t.wf(),
            n == t.spec_num_rows(),
            forall|j: int| 0 <= j < s@.len() ==> (#[trigger] s@[j]).expr.wf(),
            v@.len() == i,
            forall|j: int| 0 <= j < v@.len() ==> (#[trigger] v@[j]).1.wf()
                && v@[j].1.spec_len() == n,
            spec_eval_aliased(s@, *t, n as nat) == (match spec_eval_aliased(
                s@.skip(i as int),
                *t,
                n as nat,
            ) {
                Err(e) => Err::<Seq<(Seq<char>, ColumnV)>, EvalError>(e),
                Ok(rest) => Ok(named_cols_v(v@).add(rest)),
            }),
        decreases s@.len() - i,
    {
        proof {
            assert(s@.skip(i as int)[0] == s@[i as int]);
            assert(s@.skip(i as int).skip(1) =~= s@.skip(i + 1int));
        }
        match s[i].expr.result_evaluate(t, n) {
            Err(e) => {
                return Err(e);
            },
            Ok(c) => {
                let ghost pre = v@;
                let ghost cv = col_v(c);
                v.push((s[i].alias.clone(), c));
                proof {
                    assert(named_cols_v(v@) =~= named_cols_v(pre).push((
                        s@[i as int].alias@,
                        cv,
                    )));
                    match spec_eval_aliased(s@.skip(i + 1int), *t, n as nat) {
                        Err(_) => {},
                        Ok(rest2) => {
                            assert(named_cols_v(pre).add(
                                seq![(s@[i as int].alias@, cv)].add(rest2),
                            ) =~= named_cols_v(v@).add(rest2));
                        },
                    }
                }
            },
        }
        i += 1;
    }
    proof {
        assert(s@.skip(s@.len() as int) =~= Seq::<AliasedDynProofExpr>::empty());
        assert(named_cols_v(v@).add(Seq::empty()) =~= named_cols_v(v@));
    }
    Ok(v)
}

impl DynProofPlan {
    /// Evaluates the plan over its input table, exactly as `spec_eval_plan`
    /// says: a projection keeps the row count, a filter keeps the selected
    /// rows in order, and the leaf returns the table whole.
    pub fn result_evaluate(&self, t: &OwnedTable) -> (r: Result<OwnedTable, EvalError>)
        requires
            t.wf(),
            self.wf(),
        ensures
            ({
                let sr = spec_eval_plan(*self, *t);
                match sr {
                    Ok(cols) => r matches Ok(out) && table_v(out) == cols && out.wf(),
                    Err(e) => r == Err::<OwnedTable, EvalError>(e),
                }
            }),
    {
        let n = t.num_rows();
        match self {
            DynProofPlan::Table(_) => {
                let mut v: Vec<(Identifier, OwnedColumn)> = Vec::new();
                let mut i: usize = 0;
                while i < t.columns.len()
                    invariant
                        0 <= i <= t.columns@.len(),
                        t.wf(),
                        v@.len() == i,
                        forall|j: int| 0 <= j < i ==> (#[trigger] v@[j]).0@
                            == t.columns@[j].0@,
                        forall|j: int| 0 <= j < i ==> crate::table::spec_col_eq(
                            (#[trigger] v@[j]).1,
                            t.columns@[j].1,
                        ),
                    decreases t.columns@.len() - i,
                {
                    let name = t.columns[i].0.clone();
                    let col = t.columns[i].1.clone();
                    v.push((name, col));
                    i += 1;
                }
                let out = OwnedTable { columns: v };
                proof {
                    assert forall|j: int| 0 <= j < out.columns@.len() implies (
                    #[trigger] table_v(out)[j]) == table_v(*t)[j] by {
                        crate::eval::lemma_col_eq_v(out.columns@[j].1, t.columns@[j].1);
                    }
                    assert(table_v(out) =~= table_v(*t));
                    assert forall|j: int| 0 <= j < out.columns@.len() implies (
                    #[trigger] out.columns@[j]).1.wf() by {
                        crate::eval::lemma_col_eq_wf(out.columns@[j].1, t.columns@[j].1);
                    }
                    assert forall|j: int| 0 <= j < out.columns@.len() implies (
                    #[trigger] out.columns@[j]).1.spec_len() == t.columns@[j].1.spec_len() by {
                        crate::eval::lemma_col_eq_len(out.columns@[j].1, t.columns@[j].1);
                    }
                    assert(out.wf());
                }
                Ok(out)
            },
            DynProofPlan::Projection(pe) => {
                let cols = eval_aliased_exprs(&pe.aliased_results, t, n)?;
                proof {
                    lemma_named_distinct(cols@);
                }
                match OwnedTable::try_new(cols) {
                    Ok(out) => Ok(out),
                    Err(crate::table::OwnedTableError::DuplicateIdentifier) => Err(
                        EvalError::PlanType,
                    ),
                    Err(crate::table::OwnedTableError::ColumnLengthMismatch) => {
                        proof {
                            assert(false);
                        }
                        Err(EvalError::PlanType)
                    },
                }
            },
            DynProofPlan::Filter(fe) => {
                let p = fe.where_clause.result_evaluate(t, n)?;
                match p {
                    OwnedColumn::Boolean(m) => {
                        let cols = eval_aliased_exprs(&fe.aliased_results, t, n)?;
                        let ghost precols = cols@;
                        let mut filtered: Vec<(Identifier, OwnedColumn)> = Vec::new();
                        let mut i: usize = 0;
                        while i < cols.len()
                            invariant
                                0 <= i <= cols@.len(),
                                m@.len() == n,
                                forall|j: int| 0 <= j < cols@.len()
                                    ==> (#[trigger] cols@[j]).1.wf()
                                        && cols@[j].1.spec_len() == n,
                                filtered@.len() == i,
                                forall|j: int| 0 <= j < i ==> (#[trigger] filtered@[j]).0@
                                    == cols@[j].0@,
                                forall|j: int| 0 <= j < i ==> (#[trigger] filtered@[j]).1.wf()
                                    && filtered@[j].1.spec_len() == count_true(m@)
                                    && col_v(filtered@[j].1) == spec_filter_cv(
                                    col_v(cols@[j].1),
                                    m@,
                                ),
                            decreases cols@.len() - i,
                        {
                            let name = cols[i].0.clone();
                            let fc = filter_column(&cols[i].1, &m);
                            filtered.push((name, fc));
                            i += 1;
                        }
                        proof {
                            lemma_named_distinct(cols@);
                            lemma_named_distinct_pair(cols@, filtered@);
                        }
                        match OwnedTable::try_new(filtered) {
                            Ok(out) => {
                                proof {
                                    assert(table_v(out) =~= spec_eval_plan(
                                        *self,
                                        *t,
                                    ).unwrap());
                                }
                                Ok(out)
                            },
                            Err(crate::table::OwnedTableError::DuplicateIdentifier) => Err(
                                EvalError::PlanType,
                            ),
                            Err(crate::table::OwnedTableError::ColumnLengthMismatch) => {
                                proof {
                                    assert(false);
                                }
                                Err(EvalError::PlanType)
                            },
                        }
                    },
                    _ => Err(EvalError::PlanType),
                }
            },
        }
    }
}

/// Distinctness of built names agrees with distinctness of their models.
proof fn lemma_named_distinct(v: Seq<(Identifier, OwnedColumn)>)
    ensures
        crate::table::spec_names_distinct(v) == spec_out_names_distinct(named_cols_v(v)),
{
    if crate::table::spec_names_distinct(v) {
        assert forall|i: int, j: int| 0 <= i < j < named_cols_v(v).len() implies (
        #[trigger] named_cols_v(v)[i]).0 != (#[trigger] named_cols_v(v)[j]).0 by {
            assert(v[i].0@ != v[j].0@);
        }
    } else {
        let (i, j) = choose|i: int, j: int|
            0 <= i < j < v.len() && (#[trigger] v[i]).0@ == (#[trigger] v[j]).0@;
        assert(named_cols_v(v)[i].0 == named_cols_v(v)[j].0);
    }
}

/// Filtering renames nothing, so distinctness carries over.
proof fn lemma_named_distinct_pair(a: Seq<(Identifier, OwnedColumn)>, b: Seq<(Identifier, OwnedColumn)>)
    requires
        a.len() == b.len(),
        forall|i: int| 0 <= i < a.len() ==> (#[trigger] b[i]).0@ == a[i].0@,
    ensures
        crate::table::spec_names_distinct(a) == crate::table::spec_names_distinct(b),
        spec_out_names_distinct(named_cols_v(a)) == spec_out_names_distinct(named_cols_v(b)),
{
    lemma_named_distinct(a);
    lemma_named_distinct(b);
    if crate::table::spec_names_distinct(a) {
        assert forall|i: int, j: int| 0 <= i < j < b.len() implies (#[trigger] b[i]).0@ != (
        #[trigger] b[j]).0@ by {
            assert(a[i].0@ != a[j].0@);
        }
    } else {
        let (i, j) = choose|i: int, j: int|
            0 <= i < j < a.len() && (#[trigger] a[i]).0@ == (#[trigger] a[j]).0@;
        assert(b[i].0@ == b[j].0@);
    }
}


/// Filtering keeps a column's type.
pub proof fn lemma_filter_cv_type(c: ColumnV, m: Seq<bool>)
    ensures
        spec_filter_cv(c, m).column_type() == c.column_type(),
{
}

/// A successful aliased evaluation is one column per expression: named by its
/// alias, typed by its expression, of the table's row count, in range.
pub proof fn lemma_eval_aliased_shape(s: Seq<AliasedDynProofExpr>, t: OwnedTable, n: nat)
    requires
        t.wf(),
        forall|i: int| 0 <= i < s.len() ==> (#[trigger] s[i]).expr.wf(),
    ensures
        spec_eval_aliased(s, t, n) matches Ok(cols) ==> ({
            &&& cols.len() == s.len()
            &&& forall|i: int| 0 <= i < s.len() ==> (#[trigger] cols[i]).0 == s[i].alias@
            &&& forall|i: int| 0 <= i < s.len() ==> Some((#[trigger] cols[i]).1.column_type())
                == s[i].expr.spec_data_type()
            &&& forall|i: int| 0 <= i < s.len() ==> (#[trigger] cols[i]).1.len() == n
            &&& forall|i: int| 0 <= i < s.len()
                ==> crate::eval::cv_in_range((#[trigger] cols[i]).1)
            &&& forall|i: int| 0 <= i < s.len()
                ==> (#[trigger] cols[i]).1.column_type().wf()
        }),
    decreases s.len(),
{
    if s.len() > 0 {
        lemma_eval_aliased_shape(s.skip(1), t, n);
        crate::eval::lemma_eval_expr_props(s[0].expr, t, n);
        if spec_eval_aliased(s, t, n) is Ok {
            let cols = spec_eval_aliased(s, t, n).unwrap();
            let rest = spec_eval_aliased(s.skip(1), t, n).unwrap();
            let cv0 = spec_eval_expr(s[0].expr, t, n).unwrap();
            assert(cols == seq![(s[0].alias@, cv0)].add(rest));
            assert forall|i: int| 0 <= i < s.len() implies (#[trigger] cols[i]).0
                == s[i].alias@ && Some(cols[i].1.column_type()) == s[i].expr.spec_data_type()
                && cols[i].1.len() == n && crate::eval::cv_in_range(cols[i].1)
                && cols[i].1.column_type().wf() by {
                if i == 0 {
                    assert(cols[0] == (s[0].alias@, cv0));
                } else {
                    assert(cols[i] == rest[i - 1]);
                    assert(s.skip(1)[i - 1] == s[i]);
                }
            }
        }
    }
}

/// A successful plan evaluation over a well-formed table: one output column
/// per alias, named and typed by the plan, all sharing the published row
/// count, every cell in range.
pub proof fn lemma_eval_plan_shape(p: DynProofPlan, t: OwnedTable)
    requires
        t.wf(),
        p.wf(),
        p is Projection || p is Filter,
    ensures
        spec_eval_plan(p, t) matches Ok(cols) ==> ({
            &&& cols.len() == p.spec_aliased().len()
            &&& forall|i: int| 0 <= i < cols.len() ==> (#[trigger] cols[i]).0
                == p.spec_aliased()[i].alias@
            &&& forall|i: int| 0 <= i < cols.len() ==> Some(
                (#[trigger] cols[i]).1.column_type(),
            ) == p.spec_aliased()[i].expr.spec_data_type()
            &&& forall|i: int| 0 <= i < cols.len() ==> (#[trigger] cols[i]).1.len()
                == crate::query_proof::spec_output_rows(cols)
            &&& forall|i: int| 0 <= i < cols.len()
                ==> crate::eval::cv_in_range((#[trigger] cols[i]).1)
            &&& forall|i: int| 0 <= i < cols.len()
                ==> (#[trigger] cols[i]).1.column_type().wf()
        }),
{
    let n = t.spec_num_rows();
    match p {
        DynProofPlan::Projection(pe) => {
            lemma_eval_aliased_shape(pe.aliased_results@, t, n);
        },
        DynProofPlan::Filter(fe) => {
            lemma_eval_aliased_shape(fe.aliased_results@, t, n);
            if spec_eval_plan(p, t) is Ok {
                let pv = spec_eval_expr(fe.where_clause, t, n).unwrap();
                let m = pv->Boolean_0;
                let base = spec_eval_aliased(fe.aliased_results@, t, n).unwrap();
                let cols = spec_eval_plan(p, t).unwrap();
                crate::eval::lemma_eval_expr_props(fe.where_clause, t, n);
                assert(m.len() == n);
                assert forall|i: int| 0 <= i < cols.len() implies (#[trigger] cols[i]).0
                    == p.spec_aliased()[i].alias@
                    && Some(cols[i].1.column_type())
                    == p.spec_aliased()[i].expr.spec_data_type()
                    && cols[i].1.len() == count_true(m)
                    && crate::eval::cv_in_range(cols[i].1)
                    && cols[i].1.column_type().wf() by {
                    assert(cols[i] == (base[i].0, spec_filter_cv(base[i].1, m)));
                    lemma_filter_cv_type(base[i].1, m);
                    lemma_filter_cv_len(base[i].1, m);
                    lemma_filter_cv_range(base[i].1, m);
                }
                if cols.len() > 0 {
                    assert(cols[0].1.len() == count_true(m));
                }
            }
        },
        _ => {},
    }
}

/// Filtering a column of the mask's length publishes one row per selected
/// mask entry.
proof fn lemma_filter_cv_len(c: ColumnV, m: Seq<bool>)
    requires
        c.len() == m.len(),
    ensures
        spec_filter_cv(c, m).len() == count_true(m),
{
    match c {
        ColumnV::Boolean(v) => lemma_filter_len(v, m),
        ColumnV::BigInt(v) => lemma_filter_len(v, m),
        ColumnV::Int128(v) => lemma_filter_len(v, m),
        ColumnV::Decimal75(_, _, v) => lemma_filter_len(v, m),
        ColumnV::VarChar(v) => lemma_filter_len(v, m),
        ColumnV::Scalar(v) => lemma_filter_len(v, m),
    }
}

/// Filtering keeps every cell in range: each kept row is an original row.
proof fn lemma_filter_cv_range(c: ColumnV, m: Seq<bool>)
    requires
        crate::eval::cv_in_range(c),
    ensures
        crate::eval::cv_in_range(spec_filter_cv(c, m)),
{
    match c {
        ColumnV::BigInt(v) => {
            lemma_filter_subset(v, m);
            assert forall|i: int| 0 <= i < filter_seq(v, m).len() implies i64::MIN
                <= #[trigger] filter_seq(v, m)[i] <= i64::MAX by {
                let j = choose|j: int| 0 <= j < v.len() && filter_seq(v, m)[i] == v[j];
                assert(i64::MIN <= v[j] <= i64::MAX);
            }
        },
        ColumnV::Int128(v) => {
            lemma_filter_subset(v, m);
            assert forall|i: int| 0 <= i < filter_seq(v, m).len() implies i128::MIN
                <= #[trigger] filter_seq(v, m)[i] <= i128::MAX by {
                let j = choose|j: int| 0 <= j < v.len() && filter_seq(v, m)[i] == v[j];
                assert(i128::MIN <= v[j] <= i128::MAX);
            }
        },
        ColumnV::Decimal75(_, _, v) => {
            lemma_filter_subset(v, m);
            assert forall|i: int| 0 <= i < filter_seq(v, m).len() implies #[trigger] filter_seq(
                v,
                m,
            )[i] < crate::scalar::group_order() by {
                let j = choose|j: int| 0 <= j < v.len() && filter_seq(v, m)[i] == v[j];
                assert(v[j] < crate::scalar::group_order());
            }
        },
        ColumnV::Scalar(v) => {
            lemma_filter_subset(v, m);
            assert forall|i: int| 0 <= i < filter_seq(v, m).len() implies #[trigger] filter_seq(
                v,
                m,
            )[i] < crate::scalar::group_order() by {
                let j = choose|j: int| 0 <= j < v.len() && filter_seq(v, m)[i] == v[j];
                assert(v[j] < crate::scalar::group_order());
            }
        },
        _ => {},
    }
}

} // verus!
