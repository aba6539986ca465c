use proof_of_sql::boundary::{
    try_new_from_boundary, check_table_exportable, OwnedArrowConversionError,
};
use proof_of_sql::column::{
    try_add_subtract_column_types, try_equals_column_types, try_multiply_column_types,
    ColumnOperationError, ColumnRef, ColumnType, Precision,
};
use proof_of_sql::eval::EvalError;
use proof_of_sql::expr::{DynProofExpr, LiteralValue};
use proof_of_sql::ident::{Identifier, ResourceId, TableRef};
use proof_of_sql::plan::{AliasedDynProofExpr, DynProofPlan, ProjectionExec, TableExpr};
use proof_of_sql::query_proof::{OwnedTableTestAccessor, ProvableColumn, VerifiableQueryResult};
use proof_of_sql::scalar::Scalar;
use proof_of_sql::table::{OwnedColumn, OwnedTable, OwnedTableError};

fn id(s: &str) -> Identifier {
    Identifier::try_new(s).unwrap()
}

#[test]
fn we_cannot_convert_a_record_batch_if_it_has_repeated_column_names() {
    let columns = vec![
        (id("a"), OwnedColumn::BigInt(vec![])),
        (id("A"), OwnedColumn::Int128(vec![])),
    ];
    assert!(matches!(
        try_new_from_boundary(columns),
        Err(OwnedArrowConversionError::DuplicateIdentifiers)
    ));
}

#[test]
fn we_accept_case_differing_names_internally_but_not_at_the_boundary() {
    let internal = OwnedTable::try_new(vec![
        (id("a"), OwnedColumn::BigInt(vec![1])),
        (id("A"), OwnedColumn::BigInt(vec![2])),
    ]);
    assert!(internal.is_ok());
}

#[test]
fn building_a_table_with_equal_names_fails() {
    let r = OwnedTable::try_new(vec![
        (id("a"), OwnedColumn::BigInt(vec![1])),
        (id("a"), OwnedColumn::BigInt(vec![2])),
    ]);
    assert_eq!(r.unwrap_err(), OwnedTableError::DuplicateIdentifier);
}

#[test]
fn building_a_table_with_unequal_lengths_fails() {
    let r = OwnedTable::try_new(vec![
        (id("a"), OwnedColumn::BigInt(vec![1])),
        (id("b"), OwnedColumn::BigInt(vec![2, 3])),
    ]);
    assert_eq!(r.unwrap_err(), OwnedTableError::ColumnLengthMismatch);
}

#[test]
fn a_scalar_column_cannot_be_exported() {
    let table = OwnedTable::try_new(vec![(
        id("a"),
        OwnedColumn::Scalar(vec![]),
    )])
    .unwrap();
    assert_eq!(
        check_table_exportable(&table),
        Err(OwnedArrowConversionError::UnsupportedType)
    );
    let plain = OwnedTable::try_new(vec![(id("a"), OwnedColumn::BigInt(vec![]))]).unwrap();
    assert!(check_table_exportable(&plain).is_ok());
}

#[test]
fn type_inference_widens_and_rejects_as_specified() {
    assert_eq!(
        try_add_subtract_column_types(ColumnType::BigInt, ColumnType::Int128),
        Ok(ColumnType::Int128)
    );
    assert_eq!(
        try_multiply_column_types(ColumnType::BigInt, ColumnType::BigInt),
        Ok(ColumnType::BigInt)
    );
    assert_eq!(
        try_add_subtract_column_types(ColumnType::VarChar, ColumnType::BigInt),
        Err(ColumnOperationError::IncompatibleTypes)
    );
    assert_eq!(
        try_multiply_column_types(ColumnType::Boolean, ColumnType::BigInt),
        Err(ColumnOperationError::IncompatibleTypes)
    );
    let d = ColumnType::Decimal75(Precision::new(4).unwrap(), 2);
    assert_eq!(
        try_add_subtract_column_types(ColumnType::BigInt, d),
        Ok(ColumnType::Decimal75(Precision::new(20).unwrap(), 2))
    );
    assert_eq!(
        try_multiply_column_types(d, d),
        Ok(ColumnType::Decimal75(Precision::new(9).unwrap(), 4))
    );
    let wide = ColumnType::Decimal75(Precision::new(75).unwrap(), 0);
    assert_eq!(
        try_add_subtract_column_types(wide, wide),
        Err(ColumnOperationError::DecimalOverflow)
    );
    assert!(try_equals_column_types(ColumnType::VarChar, ColumnType::VarChar));
    assert!(!try_equals_column_types(ColumnType::VarChar, ColumnType::BigInt));
    assert!(try_equals_column_types(ColumnType::BigInt, ColumnType::Int128));
}

#[test]
fn identifier_grammar_is_enforced() {
    assert!(Identifier::try_new("a").is_some());
    assert!(Identifier::try_new("A_1").is_some());
    assert!(Identifier::try_new("_x").is_some());
    assert!(Identifier::try_new("").is_none());
    assert!(Identifier::try_new("1a").is_none());
    assert!(Identifier::try_new("a-b").is_none());
    assert!(Identifier::try_new("a b").is_none());
    let long = "a".repeat(64);
    assert!(Identifier::try_new(&long).is_some());
    let too_long = "a".repeat(65);
    assert!(Identifier::try_new(&too_long).is_none());
}

#[test]
fn scalar_field_arithmetic_has_exact_values() {
    let two = Scalar::from_u64(2);
    let three = Scalar::from_u64(3);
    assert_eq!(two.add(&three), Scalar::from_u64(5));
    assert_eq!(two.mul(&three), Scalar::from_u64(6));
    assert_eq!(two.sub(&three), Scalar::from_i64(-1));
    assert_eq!(Scalar::from_i64(-1).neg(), Scalar::one());
    assert_eq!(Scalar::zero().neg(), Scalar::zero());
    // the signed boundary: max_signed is non-negative, one past it is negative
    assert!(!Scalar::max_signed().is_negative());
    assert!(Scalar::max_signed().add(&Scalar::one()).is_negative());
}

#[test]
fn evaluation_overflow_is_a_fatal_error() {
    let t = TableRef::new(ResourceId::try_new("sxt", "t").unwrap());
    let data = OwnedTable::try_new(vec![(
        id("a"),
        OwnedColumn::BigInt(vec![i64::MAX]),
    )])
    .unwrap();
    let plan = DynProofPlan::Projection(ProjectionExec {
        aliased_results: vec![AliasedDynProofExpr {
            expr: DynProofExpr::try_new_add(
                DynProofExpr::Column(ColumnRef::new(t.clone(), id("a"), ColumnType::BigInt)),
                DynProofExpr::Literal(LiteralValue::BigInt(1)),
            )
            .unwrap(),
            alias: id("a"),
        }],
        table: TableExpr { table_ref: t },
    });
    assert_eq!(plan.result_evaluate(&data), Err(EvalError::EvaluationOverflow));
}

#[test]
fn referencing_a_missing_column_is_an_accessor_error() {
    let t = TableRef::new(ResourceId::try_new("sxt", "t").unwrap());
    let data = OwnedTable::try_new(vec![(id("a"), OwnedColumn::BigInt(vec![1]))]).unwrap();
    let plan = DynProofPlan::Projection(ProjectionExec {
        aliased_results: vec![AliasedDynProofExpr {
            expr: DynProofExpr::Column(ColumnRef::new(t.clone(), id("zz"), ColumnType::BigInt)),
            alias: id("zz"),
        }],
        table: TableExpr { table_ref: t },
    });
    assert_eq!(plan.result_evaluate(&data), Err(EvalError::AccessorMissing));
}

#[test]
fn mixing_varchar_into_arithmetic_is_a_plan_type_error() {
    let t = TableRef::new(ResourceId::try_new("sxt", "t").unwrap());
    let bad = DynProofExpr::try_new_add(
        DynProofExpr::Column(ColumnRef::new(t.clone(), id("d"), ColumnType::VarChar)),
        DynProofExpr::Literal(LiteralValue::BigInt(1)),
    );
    assert_eq!(bad.unwrap_err(), ColumnOperationError::IncompatibleTypes);
}

#[test]
fn tampering_with_the_claimed_result_fails_verification() {
    let t = TableRef::new(ResourceId::try_new("sxt", "t").unwrap());
    let data = OwnedTable::try_new(vec![(id("a"), OwnedColumn::BigInt(vec![7, 8]))]).unwrap();
    let mut accessor = OwnedTableTestAccessor::new_empty();
    accessor.add_table(t.clone(), data, 0);
    let plan = DynProofPlan::Projection(ProjectionExec {
        aliased_results: vec![AliasedDynProofExpr {
            expr: DynProofExpr::Column(ColumnRef::new(t.clone(), id("a"), ColumnType::BigInt)),
            alias: id("a"),
        }],
        table: TableExpr { table_ref: t },
    });
    let mut vqr = VerifiableQueryResult::new(&plan, &accessor).unwrap();
    assert!(vqr.verify(&plan, &accessor).is_ok());
    // flip one claimed cell without reproving
    vqr.provable_result.columns[0] = ProvableColumn::Scalars(vec![
        Scalar::from_u64(9),
        Scalar::from_u64(8),
    ]);
    assert!(vqr.verify(&plan, &accessor).is_err());
}

#[test]
fn we_can_filter_on_varchar_equality_in_a_projection() {
    let t = TableRef::new(ResourceId::try_new("sxt", "t").unwrap());
    let data = OwnedTable::try_new(vec![(
        id("d"),
        OwnedColumn::VarChar(vec!["x".to_string(), "y".to_string(), "x".to_string()]),
    )])
    .unwrap();
    let plan = DynProofPlan::Projection(ProjectionExec {
        aliased_results: vec![AliasedDynProofExpr {
            expr: DynProofExpr::try_new_equals(
                DynProofExpr::Column(ColumnRef::new(t.clone(), id("d"), ColumnType::VarChar)),
                DynProofExpr::Literal(LiteralValue::VarChar("x".to_string())),
            )
            .unwrap(),
            alias: id("m"),
        }],
        table: TableExpr { table_ref: t },
    });
    let res = plan.result_evaluate(&data).unwrap();
    let expected = OwnedTable::try_new(vec![(
        id("m"),
        OwnedColumn::Boolean(vec![true, false, true]),
    )])
    .unwrap();
    assert_eq!(res, expected);
}
