use proof_of_sql::column::{ColumnField, ColumnRef, ColumnType, Precision};
use proof_of_sql::expr::{DynProofExpr, LiteralValue};
use proof_of_sql::ident::{Identifier, ResourceId, TableRef};
use proof_of_sql::plan::{AliasedDynProofExpr, DynProofPlan, ProjectionExec, TableExpr};
use proof_of_sql::query_proof::{OwnedTableTestAccessor, VerifiableQueryResult};
use proof_of_sql::scalar::Scalar;
use proof_of_sql::table::{OwnedColumn, OwnedTable};

fn ident(s: &str) -> Identifier {
    Identifier::try_new(s).unwrap()
}

fn table_ref(schema: &str, name: &str) -> TableRef {
    TableRef::new(ResourceId::try_new(schema, name).unwrap())
}

fn bigint(name: &str, data: Vec<i64>) -> (Identifier, OwnedColumn) {
    (ident(name), OwnedColumn::BigInt(data))
}

fn int128(name: &str, data: Vec<i128>) -> (Identifier, OwnedColumn) {
    (ident(name), OwnedColumn::Int128(data))
}

fn varchar(name: &str, data: Vec<&str>) -> (Identifier, OwnedColumn) {
    (
        ident(name),
        OwnedColumn::VarChar(data.into_iter().map(String::from).collect()),
    )
}

fn scalar(name: &str, data: Vec<u64>) -> (Identifier, OwnedColumn) {
    (
        ident(name),
        OwnedColumn::Scalar(data.into_iter().map(Scalar::from_u64).collect()),
    )
}

fn decimal75(name: &str, p: u8, s: i8, data: Vec<u64>) -> (Identifier, OwnedColumn) {
    (
        ident(name),
        OwnedColumn::Decimal75(
            Precision::new(p).unwrap(),
            s,
            data.into_iter().map(Scalar::from_u64).collect(),
        ),
    )
}

fn owned_table(columns: Vec<(Identifier, OwnedColumn)>) -> OwnedTable {
    OwnedTable::try_new(columns).unwrap()
}

fn col(t: &TableRef, name: &str, ty: ColumnType) -> DynProofExpr {
    DynProofExpr::Column(ColumnRef::new(t.clone(), ident(name), ty))
}

fn aliased(expr: DynProofExpr, alias: &str) -> AliasedDynProofExpr {
    AliasedDynProofExpr { expr, alias: ident(alias) }
}

fn projection(aliased_results: Vec<AliasedDynProofExpr>, t: &TableRef) -> DynProofPlan {
    DynProofPlan::Projection(ProjectionExec {
        aliased_results,
        table: TableExpr { table_ref: t.clone() },
    })
}

#[test]
fn we_can_correctly_fetch_the_query_result_schema() {
    let t = table_ref("sxt", "sxt_tab");
    let plan = projection(
        vec![
            aliased(col(&t, "a", ColumnType::BigInt), "a"),
            aliased(col(&t, "b", ColumnType::BigInt), "b"),
        ],
        &t,
    );
    let column_fields: Vec<ColumnField> = plan.get_column_result_fields();
    assert_eq!(
        column_fields,
        vec![
            ColumnField::new(ident("a"), ColumnType::BigInt),
            ColumnField::new(ident("b"), ColumnType::BigInt),
        ]
    );
}

#[test]
fn we_can_correctly_fetch_all_the_referenced_columns() {
    let t = table_ref("sxt", "sxt_tab");
    let plan = projection(
        vec![
            aliased(col(&t, "a", ColumnType::BigInt), "a"),
            aliased(col(&t, "f", ColumnType::BigInt), "f"),
        ],
        &t,
    );
    let ref_columns = plan.get_column_references();
    assert_eq!(
        ref_columns,
        vec![
            ColumnRef::new(t.clone(), ident("a"), ColumnType::BigInt),
            ColumnRef::new(t.clone(), ident("f"), ColumnType::BigInt),
        ]
    );
    let ref_tables = plan.get_table_references();
    assert_eq!(ref_tables, vec![t]);
}

#[test]
fn we_can_prove_and_get_the_correct_result_from_a_basic_projection() {
    let data = owned_table(vec![
        bigint("a", vec![1, 4, 5, 2, 5, 1, 4, 5, 2, 5]),
        bigint("b", vec![1, 2, 3, 4, 5, 1, 2, 3, 4, 5]),
    ]);
    let t = table_ref("sxt", "t");
    let mut accessor = OwnedTableTestAccessor::new_empty();
    accessor.add_table(t.clone(), data, 0);
    let ast = projection(vec![aliased(col(&t, "b", ColumnType::BigInt), "b")], &t);
    let verifiable_res = VerifiableQueryResult::new(&ast, &accessor).unwrap();
    let res = verifiable_res.verify(&ast, &accessor).unwrap();
    let expected = owned_table(vec![bigint("b", vec![1, 2, 3, 4, 5, 1, 2, 3, 4, 5])]);
    assert_eq!(res, expected);
}

#[test]
fn we_can_prove_and_get_the_correct_result_from_a_nontrivial_projection() {
    let data = owned_table(vec![
        bigint("a", vec![1, 4, 5, 2, 5]),
        bigint("b", vec![1, 2, 3, 4, 5]),
    ]);
    let t = table_ref("sxt", "t");
    let mut accessor = OwnedTableTestAccessor::new_empty();
    accessor.add_table(t.clone(), data, 0);
    let ast = projection(
        vec![
            aliased(
                DynProofExpr::try_new_add(
                    col(&t, "b", ColumnType::BigInt),
                    DynProofExpr::Literal(LiteralValue::BigInt(1)),
                )
                .unwrap(),
                "b",
            ),
            aliased(
                DynProofExpr::try_new_multiply(
                    col(&t, "a", ColumnType::BigInt),
                    col(&t, "b", ColumnType::BigInt),
                )
                .unwrap(),
                "prod",
            ),
        ],
        &t,
    );
    let verifiable_res = VerifiableQueryResult::new(&ast, &accessor).unwrap();
    let res = verifiable_res.verify(&ast, &accessor).unwrap();
    let expected = owned_table(vec![
        bigint("b", vec![2, 3, 4, 5, 6]),
        bigint("prod", vec![1, 8, 15, 8, 25]),
    ]);
    assert_eq!(res, expected);
}

#[test]
fn we_can_get_an_empty_result_from_a_basic_projection_on_an_empty_table_using_result_evaluate() {
    let data = owned_table(vec![
        bigint("a", vec![]),
        bigint("b", vec![]),
        int128("c", vec![]),
        varchar("d", vec![]),
        scalar("e", vec![]),
    ]);
    let t = table_ref("sxt", "t");
    let plan = projection(
        vec![
            aliased(col(&t, "b", ColumnType::BigInt), "b"),
            aliased(col(&t, "c", ColumnType::Int128), "c"),
            aliased(col(&t, "d", ColumnType::VarChar), "d"),
            aliased(col(&t, "e", ColumnType::Scalar), "e"),
        ],
        &t,
    );
    let res = plan.result_evaluate(&data).unwrap();
    let expected = owned_table(vec![
        bigint("b", vec![]),
        int128("c", vec![]),
        varchar("d", vec![]),
        scalar("e", vec![]),
    ]);
    assert_eq!(res, expected);
}

#[test]
fn we_can_get_no_columns_from_a_basic_projection_with_no_selected_columns_using_result_evaluate() {
    let data = owned_table(vec![
        bigint("a", vec![1, 4, 5, 2, 5]),
        bigint("b", vec![1, 2, 3, 4, 5]),
        int128("c", vec![1, 2, 3, 4, 5]),
        varchar("d", vec!["1", "2", "3", "4", "5"]),
        scalar("e", vec![1, 2, 3, 4, 5]),
    ]);
    let t = table_ref("sxt", "t");
    let plan = projection(vec![], &t);
    let res = plan.result_evaluate(&data).unwrap();
    let expected = OwnedTable::try_new(vec![]).unwrap();
    assert_eq!(res, expected);
    assert_eq!(res.num_rows(), 0);
}

#[test]
fn we_can_get_the_correct_result_from_a_basic_projection_using_result_evaluate() {
    let data = owned_table(vec![
        bigint("a", vec![1, 4, 5, 2, 5]),
        bigint("b", vec![1, 2, 3, 4, 5]),
        int128("c", vec![1, 2, 3, 4, 5]),
        varchar("d", vec!["1", "2", "3", "4", "5"]),
        scalar("e", vec![1, 2, 3, 4, 5]),
    ]);
    let t = table_ref("sxt", "t");
    let plan = projection(
        vec![
            aliased(
                DynProofExpr::try_new_add(
                    col(&t, "b", ColumnType::BigInt),
                    DynProofExpr::Literal(LiteralValue::BigInt(1)),
                )
                .unwrap(),
                "b",
            ),
            aliased(
                DynProofExpr::try_new_multiply(
                    col(&t, "b", ColumnType::BigInt),
                    col(&t, "c", ColumnType::Int128),
                )
                .unwrap(),
                "prod",
            ),
            aliased(col(&t, "d", ColumnType::VarChar), "d"),
            aliased(
                DynProofExpr::Literal(LiteralValue::Decimal75(
                    Precision::new(1).unwrap(),
                    0,
                    Scalar::from_u64(3),
                )),
                "e",
            ),
        ],
        &t,
    );
    let res = plan.result_evaluate(&data).unwrap();
    let expected = owned_table(vec![
        bigint("b", vec![2, 3, 4, 5, 6]),
        int128("prod", vec![1, 4, 9, 16, 25]),
        varchar("d", vec!["1", "2", "3", "4", "5"]),
        decimal75("e", 1, 0, vec![3, 3, 3, 3, 3]),
    ]);
    assert_eq!(res, expected);
}

#[test]
fn we_can_prove_a_projection_on_an_empty_table() {
    let data = owned_table(vec![
        bigint("a", vec![]),
        bigint("b", vec![]),
        int128("c", vec![]),
        varchar("d", vec![]),
        scalar("e", vec![]),
    ]);
    let t = table_ref("sxt", "t");
    let mut accessor = OwnedTableTestAccessor::new_empty();
    accessor.add_table(t.clone(), data, 0);
    let plan = projection(
        vec![
            aliased(
                DynProofExpr::try_new_add(
                    col(&t, "b", ColumnType::BigInt),
                    DynProofExpr::Literal(LiteralValue::BigInt(1)),
                )
                .unwrap(),
                "b",
            ),
            aliased(
                DynProofExpr::try_new_multiply(
                    col(&t, "b", ColumnType::BigInt),
                    col(&t, "c", ColumnType::Int128),
                )
                .unwrap(),
                "prod",
            ),
            aliased(col(&t, "d", ColumnType::VarChar), "d"),
            aliased(
                DynProofExpr::Literal(LiteralValue::Decimal75(
                    Precision::new(1).unwrap(),
                    0,
                    Scalar::from_u64(3),
                )),
                "e",
            ),
        ],
        &t,
    );
    let res = VerifiableQueryResult::new(&plan, &accessor).unwrap();
    let res = res.verify(&plan, &accessor).unwrap();
    let expected = owned_table(vec![
        bigint("b", vec![]),
        int128("prod", vec![]),
        varchar("d", vec![]),
        decimal75("e", 1, 0, vec![]),
    ]);
    assert_eq!(res, expected);
}

#[test]
fn we_can_prove_a_projection() {
    let data = owned_table(vec![
        bigint("a", vec![101, 104, 105, 102, 105]),
        bigint("b", vec![1, 2, 3, 4, 7]),
        int128("c", vec![1, 3, 3, 4, 5]),
        varchar("d", vec!["1", "2", "3", "4", "5"]),
        scalar("e", vec![1, 2, 3, 4, 5]),
    ]);
    let t = table_ref("sxt", "t");
    let mut accessor = OwnedTableTestAccessor::new_empty();
    accessor.add_table(t.clone(), data, 0);
    let plan = projection(
        vec![
            aliased(col(&t, "b", ColumnType::BigInt), "b"),
            aliased(col(&t, "c", ColumnType::Int128), "c"),
            aliased(col(&t, "d", ColumnType::VarChar), "d"),
            aliased(col(&t, "e", ColumnType::Scalar), "e"),
            aliased(DynProofExpr::Literal(LiteralValue::Int128(105)), "const"),
            aliased(
                DynProofExpr::try_new_equals(
                    col(&t, "b", ColumnType::BigInt),
                    col(&t, "c", ColumnType::Int128),
                )
                .unwrap(),
                "bool",
            ),
        ],
        &t,
    );
    let res = VerifiableQueryResult::new(&plan, &accessor).unwrap();
    let res = res.verify(&plan, &accessor).unwrap();
    let expected = owned_table(vec![
        bigint("b", vec![1, 2, 3, 4, 7]),
        int128("c", vec![1, 3, 3, 4, 5]),
        varchar("d", vec!["1", "2", "3", "4", "5"]),
        scalar("e", vec![1, 2, 3, 4, 5]),
        int128("const", vec![105, 105, 105, 105, 105]),
        (
            ident("bool"),
            OwnedColumn::Boolean(vec![true, false, true, true, false]),
        ),
    ]);
    assert_eq!(res, expected);
}
