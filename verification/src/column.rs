//! Column types and references: the fixed set of value types a column may
//! carry, the widening rules for arithmetic over them, and the named handles
//! (`ColumnRef`, `ColumnField`) that plans use to address columns.

use crate::ident::{Identifier, TableRef};
use vstd::prelude::*;

verus! {

/// Decimal precision: the number of significant digits, between 1 and 75.
#[derive(Clone, Copy, Debug, PartialEq, Eq, Structural, Hash)]
pub struct Precision {
    pub value: u8,
}

impl Precision {
    pub open spec fn wf(self) -> bool {
        1 <= self.value <= 75
    }

    /// Accepts exactly the range 1 to 75.
    pub fn new(value: u8) -> (r: Option<Precision>)
        ensures
            r.is_some() <==> 1 <= value <= 75,
            r matches Some(p) ==> p.value == value && p.wf(),
    {
        if 1 <= value && value <= 75 {
            Some(Precision { value })
        } else {
            None
        }
    }
}

/// The type of a column's cells.
#[derive(Clone, Copy, Debug, PartialEq, Eq, Structural, Hash)]
pub enum ColumnType {
    Boolean,
    BigInt,
    Int128,
    Decimal75(Precision, i8),
    VarChar,
    Scalar,
}

impl ColumnType {
    pub open spec fn wf(self) -> bool {
        match self {
            ColumnType::Decimal75(p, _) => p.wf(),
            _ => true,
        }
    }

    /// Numeric types may enter arithmetic; `VarChar` and `Boolean` may not.
    pub open spec fn is_numeric(self) -> bool {
        match self {
            ColumnType::BigInt | ColumnType::Int128 | ColumnType::Decimal75(_, _)
                | ColumnType::Scalar => true,
            _ => false,
        }
    }
}

/// Significant digits a value of the type may need.
pub open spec fn spec_precision_of(t: ColumnType) -> int {
    match t {
        ColumnType::BigInt => 19,
        ColumnType::Int128 => 39,
        ColumnType::Decimal75(p, _) => p.value as int,
        _ => 0,
    }
}

/// The decimal scale of the type; integers have scale zero.
pub open spec fn spec_scale_of(t: ColumnType) -> int {
    match t {
        ColumnType::Decimal75(_, s) => s as int,
        _ => 0,
    }
}

/// An error from the column type rules.
#[derive(Clone, Copy, Debug, PartialEq, Eq, Structural, Hash)]
pub enum ColumnOperationError {
    /// The operand types cannot enter the operation at all.
    IncompatibleTypes,
    /// The result would need more than 75 digits of precision, or a scale
    /// outside the representable range.
    DecimalOverflow,
}

/// The type an addition or subtraction yields: integers widen to the larger
/// width, a decimal operand widens the result to a decimal with one guard
/// digit and the larger scale, and a raw scalar absorbs everything numeric.
pub open spec fn spec_add_subtract_type(l: ColumnType, r: ColumnType) -> Result<
    ColumnType,
    ColumnOperationError,
> {
    if !l.is_numeric() || !r.is_numeric() {
        Err(ColumnOperationError::IncompatibleTypes)
    } else if l is Scalar || r is Scalar {
        Ok(ColumnType::Scalar)
    } else if l is Decimal75 || r is Decimal75 {
        let p = if spec_precision_of(l) >= spec_precision_of(r) {
            spec_precision_of(l) + 1
        } else {
            spec_precision_of(r) + 1
        };
        let s = if spec_scale_of(l) >= spec_scale_of(r) {
            spec_scale_of(l)
        } else {
            spec_scale_of(r)
        };
        if p > 75 {
            Err(ColumnOperationError::DecimalOverflow)
        } else {
            Ok(ColumnType::Decimal75(Precision { value: p as u8 }, s as i8))
        }
    } else if l is Int128 || r is Int128 {
        Ok(ColumnType::Int128)
    } else {
        Ok(ColumnType::BigInt)
    }
}

/// The type a multiplication yields: integers keep the larger width, a decimal
/// operand yields a decimal whose precision is the sum plus one guard digit
/// and whose scale is the sum of the scales.
pub open spec fn spec_multiply_type(l: ColumnType, r: ColumnType) -> Result<
    ColumnType,
    ColumnOperationError,
> {
    if !l.is_numeric() || !r.is_numeric() {
        Err(ColumnOperationError::IncompatibleTypes)
    } else if l is Scalar || r is Scalar {
        Ok(ColumnType::Scalar)
    } else if l is Decimal75 || r is Decimal75 {
        let p = spec_precision_of(l) + spec_precision_of(r) + 1;
        let s = spec_scale_of(l) + spec_scale_of(r);
        if p > 75 || s > 127 || s < -128 {
            Err(ColumnOperationError::DecimalOverflow)
        } else {
            Ok(ColumnType::Decimal75(Precision { value: p as u8 }, s as i8))
        }
    } else if l is Int128 || r is Int128 {
        Ok(ColumnType::Int128)
    } else {
        Ok(ColumnType::BigInt)
    }
}

/// The types an equality predicate accepts: equal elementary types, or any two
/// numeric types of equal scale; the result is always boolean.
pub open spec fn spec_equals_ok(l: ColumnType, r: ColumnType) -> bool {
    ||| (l is Boolean && r is Boolean)
    ||| (l is VarChar && r is VarChar)
    ||| (l.is_numeric() && r.is_numeric() && spec_scale_of(l) == spec_scale_of(r))
}

fn precision_of(t: ColumnType) -> (r: u8)
    ensures
        r == spec_precision_of(t),
{
    match t {
        ColumnType::BigInt => 19,
        ColumnType::Int128 => 39,
        ColumnType::Decimal75(p, _) => p.value,
        _ => 0,
    }
}

pub(crate) fn scale_of(t: ColumnType) -> (r: i8)
    ensures
        r == spec_scale_of(t),
{
    match t {
        ColumnType::Decimal75(_, s) => s,
        _ => 0,
    }
}

pub(crate) fn is_numeric_type(t: ColumnType) -> (r: bool)
    ensures
        r == t.is_numeric(),
{
    match t {
        ColumnType::BigInt | ColumnType::Int128 | ColumnType::Decimal75(_, _)
            | ColumnType::Scalar => true,
        _ => false,
    }
}

/// The result type of `l + r` and `l - r`, or why there is none.
pub fn try_add_subtract_column_types(l: ColumnType, r: ColumnType) -> (res: Result<
    ColumnType,
    ColumnOperationError,
>)
    ensures
        res == spec_add_subtract_type(l, r),
{
    if !is_numeric_type(l) || !is_numeric_type(r) {
        return Err(ColumnOperationError::IncompatibleTypes);
    }
    if matches!(l, ColumnType::Scalar) || matches!(r, ColumnType::Scalar) {
        return Ok(ColumnType::Scalar);
    }
    if matches!(l, ColumnType::Decimal75(_, _)) || matches!(r, ColumnType::Decimal75(_, _)) {
        let pl = precision_of(l);
        let pr = precision_of(r);
        let p: u8 = if pl >= pr { pl } else { pr };
        if p >= 75 {
            return Err(ColumnOperationError::DecimalOverflow);
        }
        let sl = scale_of(l);
        let sr = scale_of(r);
        let s: i8 = if sl >= sr { sl } else { sr };
        return Ok(ColumnType::Decimal75(Precision { value: p + 1 }, s));
    }
    if matches!(l, ColumnType::Int128) || matches!(r, ColumnType::Int128) {
        Ok(ColumnType::Int128)
    } else {
        Ok(ColumnType::BigInt)
    }
}

/// The result type of `l * r`, or why there is none.
pub fn try_multiply_column_types(l: ColumnType, r: ColumnType) -> (res: Result<
    ColumnType,
    ColumnOperationError,
>)
    ensures
        res == spec_multiply_type(l, r),
{
    if !is_numeric_type(l) || !is_numeric_type(r) {
        return Err(ColumnOperationError::IncompatibleTypes);
    }
    if matches!(l, ColumnType::Scalar) || matches!(r, ColumnType::Scalar) {
        return Ok(ColumnType::Scalar);
    }
    if matches!(l, ColumnType::Decimal75(_, _)) || matches!(r, ColumnType::Decimal75(_, _)) {
        let pl = precision_of(l) as u16;
        let pr = precision_of(r) as u16;
        let p: u16 = pl + pr + 1;
        let sl = scale_of(l) as i16;
        let sr = scale_of(r) as i16;
        let s: i16 = sl + sr;
        if p > 75 || s > 127 || s < -128 {
            return Err(ColumnOperationError::DecimalOverflow);
        }
        return Ok(ColumnType::Decimal75(Precision { value: p as u8 }, s as i8));
    }
    if matches!(l, ColumnType::Int128) || matches!(r, ColumnType::Int128) {
        Ok(ColumnType::Int128)
    } else {
        Ok(ColumnType::BigInt)
    }
}

/// Whether an equality predicate accepts the operand types.
pub fn try_equals_column_types(l: ColumnType, r: ColumnType) -> (res: bool)
    ensures
        res == spec_equals_ok(l, r),
{
    match (l, r) {
        (ColumnType::Boolean, ColumnType::Boolean) => true,
        (ColumnType::VarChar, ColumnType::VarChar) => true,
        _ => is_numeric_type(l) && is_numeric_type(r) && scale_of(l) == scale_of(r),
    }
}

/// A column addressed inside a table: its table, its name and its type.
#[derive(Debug, PartialEq, Eq, Hash)]
pub struct ColumnRef {
    pub table_ref: TableRef,
    pub column_id: Identifier,
    pub column_type: ColumnType,
}

impl Clone for ColumnRef {
    fn clone(&self) -> (r: Self)
        ensures
            r.spec_key() == self.spec_key(),
            r.column_type == self.column_type,
    {
        ColumnRef {
            table_ref: self.table_ref.clone(),
            column_id: self.column_id.clone(),
            column_type: self.column_type,
        }
    }
}

impl ColumnRef {
    pub fn new(table_ref: TableRef, column_id: Identifier, column_type: ColumnType) -> (r:
        ColumnRef)
        ensures
            r.table_ref.spec_key() == table_ref.spec_key(),
            r.column_id@ == column_id@,
            r.column_type == column_type,
    {
        ColumnRef { table_ref, column_id, column_type }
    }

    /// What identifies the reference: table key, column name, type.
    pub open spec fn spec_key(self) -> ((Seq<char>, Seq<char>), Seq<char>, ColumnType) {
        (self.table_ref.spec_key(), self.column_id@, self.column_type)
    }

    pub fn eq_ref(&self, other: &ColumnRef) -> (r: bool)
        ensures
            r == (self.spec_key() == other.spec_key()),
    {
        self.table_ref.eq_table(&other.table_ref) && self.column_id.eq_name(&other.column_id)
            && self.column_type == other.column_type
    }
}

/// A named, typed slot in an output schema.
#[derive(Debug, PartialEq, Eq, Hash)]
pub struct ColumnField {
    pub name: Identifier,
    pub data_type: ColumnType,
}

impl Clone for ColumnField {
    fn clone(&self) -> (r: Self)
        ensures
            r.name@ == self.name@,
            r.data_type == self.data_type,
    {
        ColumnField { name: self.name.clone(), data_type: self.data_type }
    }
}

impl ColumnField {
    pub fn new(name: Identifier, data_type: ColumnType) -> (r: ColumnField)
        ensures
            r.name@ == name@,
            r.data_type == data_type,
    {
        ColumnField { name, data_type }
    }
}

} // verus!
