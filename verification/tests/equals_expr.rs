use proof_of_sql::column::{ColumnRef, ColumnType};
use proof_of_sql::expr::{DynProofExpr, LiteralValue};
use proof_of_sql::ident::{Identifier, ResourceId, TableRef};
use proof_of_sql::plan::{AliasedDynProofExpr, DynProofPlan, FilterExec, TableExpr};
use proof_of_sql::query_proof::{OwnedTableTestAccessor, VerifiableQueryResult};
use proof_of_sql::table::{OwnedColumn, OwnedTable};
use rand::distributions::{Distribution, Uniform};
use rand::rngs::StdRng;
use rand_core::SeedableRng;

fn name_of(s: &str) -> Identifier {
    Identifier::try_new(s).unwrap()
}

fn sxt_table(table: &str) -> TableRef {
    TableRef::new(ResourceId::try_new("sxt", table).unwrap())
}

/// A `SELECT <results> WHERE <column> = <value>` filter plan.
fn equals_filter(t: &TableRef, results: Vec<&str>, column: &str, value: i64) -> DynProofPlan {
    DynProofPlan::Filter(FilterExec {
        aliased_results: results
            .into_iter()
            .map(|r| AliasedDynProofExpr {
                expr: DynProofExpr::Column(ColumnRef::new(
                    t.clone(),
                    name_of(r),
                    ColumnType::BigInt,
                )),
                alias: name_of(r),
            })
            .collect(),
        table: TableExpr { table_ref: t.clone() },
        where_clause: DynProofExpr::try_new_equals(
            DynProofExpr::Column(ColumnRef::new(t.clone(), name_of(column), ColumnType::BigInt)),
            DynProofExpr::Literal(LiteralValue::BigInt(value)),
        )
        .unwrap(),
    })
}

fn bigint_table(cols: Vec<(&str, Vec<i64>)>) -> OwnedTable {
    OwnedTable::try_new(
        cols.into_iter()
            .map(|(n, v)| (name_of(n), OwnedColumn::BigInt(v)))
            .collect(),
    )
    .unwrap()
}

#[test]
fn we_can_prove_an_equality_query_with_no_rows() {
    let t = sxt_table("t");
    let expr = equals_filter(&t, vec!["a"], "b", 0);
    let mut accessor = OwnedTableTestAccessor::new_empty();
    accessor.add_table(t.clone(), bigint_table(vec![("a", vec![]), ("b", vec![])]), 0);
    let res = VerifiableQueryResult::new(&expr, &accessor).unwrap();
    let res = res.verify(&expr, &accessor).unwrap();
    let expected = bigint_table(vec![("a", vec![])]);
    assert_eq!(res, expected);
}

#[test]
fn we_can_prove_an_equality_query_with_a_single_selected_row() {
    let t = sxt_table("t");
    let expr = equals_filter(&t, vec!["a"], "b", 0);
    let mut accessor = OwnedTableTestAccessor::new_empty();
    accessor.add_table(
        t.clone(),
        bigint_table(vec![("a", vec![123]), ("b", vec![0])]),
        0,
    );
    let res = VerifiableQueryResult::new(&expr, &accessor).unwrap();
    let res = res.verify(&expr, &accessor).unwrap();
    let expected = bigint_table(vec![("a", vec![123])]);
    assert_eq!(res, expected);
}

#[test]
fn we_can_prove_an_equality_query_with_a_single_non_selected_row() {
    let t = sxt_table("t");
    let expr = equals_filter(&t, vec!["a"], "b", 0);
    let mut accessor = OwnedTableTestAccessor::new_empty();
    accessor.add_table(
        t.clone(),
        bigint_table(vec![("a", vec![123]), ("b", vec![55])]),
        0,
    );
    let res = VerifiableQueryResult::new(&expr, &accessor).unwrap();
    let res = res.verify(&expr, &accessor).unwrap();
    let expected = bigint_table(vec![("a", vec![])]);
    assert_eq!(res, expected);
}

#[test]
fn we_can_prove_an_equality_query_with_multiple_rows() {
    let t = sxt_table("t");
    let expr = equals_filter(&t, vec!["a"], "b", 0);
    let mut accessor = OwnedTableTestAccessor::new_empty();
    accessor.add_table(
        t.clone(),
        bigint_table(vec![("a", vec![1, 2, 3, 4]), ("b", vec![0, 5, 0, 5])]),
        0,
    );
    let res = VerifiableQueryResult::new(&expr, &accessor).unwrap();
    let res = res.verify(&expr, &accessor).unwrap();
    let expected = bigint_table(vec![("a", vec![1, 3])]);
    assert_eq!(res, expected);
}

#[test]
fn we_can_prove_an_equality_query_with_a_nonzero_comparison() {
    let t = sxt_table("t");
    let expr = equals_filter(&t, vec!["a"], "b", 123);
    let mut accessor = OwnedTableTestAccessor::new_empty();
    accessor.add_table(
        t.clone(),
        bigint_table(vec![
            ("a", vec![1, 2, 3, 4, 5]),
            ("b", vec![123, 5, 123, 5, 0]),
        ]),
        0,
    );
    let res = VerifiableQueryResult::new(&expr, &accessor).unwrap();
    let res = res.verify(&expr, &accessor).unwrap();
    let expected = bigint_table(vec![("a", vec![1, 3])]);
    assert_eq!(res, expected);
}

#[test]
fn verify_fails_if_data_between_prover_and_verifier_differ() {
    let t = sxt_table("t");
    let expr = equals_filter(&t, vec!["a"], "b", 0);
    let mut accessor = OwnedTableTestAccessor::new_empty();
    accessor.add_table(
        t.clone(),
        bigint_table(vec![("a", vec![1, 2, 3, 4]), ("b", vec![0, 5, 0, 5])]),
        0,
    );
    let res = VerifiableQueryResult::new(&expr, &accessor).unwrap();
    let mut accessor = OwnedTableTestAccessor::new_empty();
    accessor.add_table(
        t.clone(),
        bigint_table(vec![("a", vec![1, 2, 3, 4]), ("b", vec![0, 2, 0, 5])]),
        0,
    );
    assert!(res.verify(&expr, &accessor).is_err());
}

/// A random table of the named 64-bit columns, and the filtered expectation.
fn random_table(rng: &mut StdRng, cols: &[&str], min_rows: i64, max_rows: i64) -> Vec<(String, Vec<i64>)> {
    let n = Uniform::new(min_rows, max_rows + 1).sample(rng) as usize;
    let vals = Uniform::new(-3i64, 4i64);
    cols.iter()
        .map(|c| (c.to_string(), (0..n).map(|_| vals.sample(rng)).collect()))
        .collect()
}

fn expected_filtered(
    data: &[(String, Vec<i64>)],
    selected: &[&str],
    filter_col: &str,
    val: i64,
) -> Vec<(String, Vec<i64>)> {
    let fcol = &data.iter().find(|(n, _)| n == filter_col).unwrap().1;
    selected
        .iter()
        .map(|s| {
            let scol = &data.iter().find(|(n, _)| n == *s).unwrap().1;
            (
                s.to_string(),
                scol.iter()
                    .zip(fcol.iter())
                    .filter(|(_, f)| **f == val)
                    .map(|(v, _)| *v)
                    .collect(),
            )
        })
        .collect()
}

fn to_owned(data: &[(String, Vec<i64>)]) -> OwnedTable {
    OwnedTable::try_new(
        data.iter()
            .map(|(n, v)| (name_of(n), OwnedColumn::BigInt(v.clone())))
            .collect(),
    )
    .unwrap()
}

#[test]
fn we_can_query_random_tables() {
    let mut rng = StdRng::from_seed([0u8; 32]);
    let cols = ["a", "b"];
    for _ in 0..10 {
        let data = random_table(&mut rng, &cols, 1, 20);
        let val = Uniform::new(-3i64, 4i64).sample(&mut rng);
        let t = sxt_table("t");
        let expr = equals_filter(&t, vec!["a"], "b", val);
        let mut accessor = OwnedTableTestAccessor::new_empty();
        accessor.add_table(t.clone(), to_owned(&data), 0);
        let res = VerifiableQueryResult::new(&expr, &accessor).unwrap();
        let res = res.verify(&expr, &accessor).unwrap();
        let expected = to_owned(&expected_filtered(&data, &["a"], "b", val));
        assert_eq!(res, expected);
    }
}

#[test]
fn we_can_query_random_tables_with_multiple_selected_rows() {
    let mut rng = StdRng::from_seed([0u8; 32]);
    let cols = ["aa", "ab", "b"];
    for _ in 0..10 {
        let data = random_table(&mut rng, &cols, 1, 20);
        let val = Uniform::new(-3i64, 4i64).sample(&mut rng);
        let t = sxt_table("t");
        let expr = equals_filter(&t, vec!["aa", "ab"], "b", val);
        let mut accessor = OwnedTableTestAccessor::new_empty();
        accessor.add_table(t.clone(), to_owned(&data), 0);
        let res = VerifiableQueryResult::new(&expr, &accessor).unwrap();
        let res = res.verify(&expr, &accessor).unwrap();
        let expected = to_owned(&expected_filtered(&data, &["aa", "ab"], "b", val));
        assert_eq!(res, expected);
    }
}
