use proof_of_sql::column::{ColumnRef, ColumnType};
use proof_of_sql::expr::DynProofExpr;
use proof_of_sql::ident::{Identifier, ResourceId, TableRef};
use proof_of_sql::plan::{AliasedDynProofExpr, DynProofPlan, ProjectionExec, TableExpr};
use proof_of_sql::query_proof::{
    OwnedTableTestAccessor, ProvableColumn, ProvableQueryResult, VerifiableQueryResult,
};
use proof_of_sql::scalar::Scalar;
use proof_of_sql::serial::{provable_result_from_bytes, provable_result_to_bytes};
use proof_of_sql::table::{OwnedColumn, OwnedTable};

fn name(s: &str) -> Identifier {
    Identifier::try_new(s).unwrap()
}

fn sample_result() -> ProvableQueryResult {
    let t = TableRef::new(ResourceId::try_new("sxt", "t").unwrap());
    let data = OwnedTable::try_new(vec![
        (name("a"), OwnedColumn::BigInt(vec![7, -8, 0])),
        (
            name("d"),
            OwnedColumn::VarChar(vec!["x".to_string(), "".to_string(), "yz".to_string()]),
        ),
    ])
    .unwrap();
    let mut accessor = OwnedTableTestAccessor::new_empty();
    accessor.add_table(t.clone(), data, 0);
    let plan = DynProofPlan::Projection(ProjectionExec {
        aliased_results: vec![
            AliasedDynProofExpr {
                expr: DynProofExpr::Column(ColumnRef::new(t.clone(), name("a"), ColumnType::BigInt)),
                alias: name("a"),
            },
            AliasedDynProofExpr {
                expr: DynProofExpr::Column(ColumnRef::new(t.clone(), name("d"), ColumnType::VarChar)),
                alias: name("d"),
            },
        ],
        table: TableExpr { table_ref: t },
    });
    VerifiableQueryResult::new(&plan, &accessor).unwrap().provable_result
}

#[test]
fn the_result_byte_layout_round_trips() {
    let pr = sample_result();
    let bytes = provable_result_to_bytes(&pr);
    let parsed = provable_result_from_bytes(&bytes).unwrap();
    assert_eq!(parsed, pr);
    assert_eq!(provable_result_to_bytes(&parsed), bytes);
}

#[test]
fn truncated_or_padded_result_bytes_are_rejected() {
    let pr = sample_result();
    let bytes = provable_result_to_bytes(&pr);
    assert!(provable_result_from_bytes(&bytes[..bytes.len() - 1]).is_none());
    assert!(provable_result_from_bytes(&bytes[1..]).is_none());
    let mut padded = bytes.clone();
    padded.push(0);
    assert!(provable_result_from_bytes(&padded).is_none());
}

#[test]
fn a_non_canonical_scalar_cell_is_rejected() {
    // one row, one field column whose cell holds the group order itself
    let mut bytes = Vec::new();
    bytes.extend_from_slice(&1u64.to_le_bytes());
    bytes.extend_from_slice(&1u64.to_le_bytes());
    bytes.push(0u8);
    bytes.extend_from_slice(&0x5812631a5cf5d3edu64.to_le_bytes());
    bytes.extend_from_slice(&0x14def9dea2f79cd6u64.to_le_bytes());
    bytes.extend_from_slice(&0u64.to_le_bytes());
    bytes.extend_from_slice(&0x1000000000000000u64.to_le_bytes());
    assert!(provable_result_from_bytes(&bytes).is_none());
    // the value one below the order is canonical and accepted
    let mut ok = Vec::new();
    ok.extend_from_slice(&1u64.to_le_bytes());
    ok.extend_from_slice(&1u64.to_le_bytes());
    ok.push(0u8);
    ok.extend_from_slice(&0x5812631a5cf5d3ecu64.to_le_bytes());
    ok.extend_from_slice(&0x14def9dea2f79cd6u64.to_le_bytes());
    ok.extend_from_slice(&0u64.to_le_bytes());
    ok.extend_from_slice(&0x1000000000000000u64.to_le_bytes());
    let parsed = provable_result_from_bytes(&ok).unwrap();
    assert_eq!(parsed.num_rows, 1);
    assert!(matches!(&parsed.columns[0], ProvableColumn::Scalars(v) if v.len() == 1));
}

#[test]
fn an_unknown_column_tag_is_rejected() {
    let mut bytes = Vec::new();
    bytes.extend_from_slice(&0u64.to_le_bytes());
    bytes.extend_from_slice(&1u64.to_le_bytes());
    bytes.push(7u8);
    assert!(provable_result_from_bytes(&bytes).is_none());
}

#[test]
fn scalar_cells_serialise_as_little_endian_limbs() {
    let pr = ProvableQueryResult {
        num_rows: 1,
        columns: vec![ProvableColumn::Scalars(vec![Scalar::from_u64(0x0102030405060708)])],
    };
    let bytes = provable_result_to_bytes(&pr);
    let mut expected = Vec::new();
    expected.extend_from_slice(&1u64.to_le_bytes());
    expected.extend_from_slice(&1u64.to_le_bytes());
    expected.push(0u8);
    expected.extend_from_slice(&0x0102030405060708u64.to_le_bytes());
    expected.extend_from_slice(&[0u8; 24]);
    assert_eq!(bytes, expected);
}
