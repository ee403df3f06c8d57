use vstd::prelude::*;

use crate::array::IdxSize;

verus! {

/// What kind of integer or string a literal is whose type is still to be
/// settled.
#[derive(Clone, Copy, Debug, PartialEq, Eq)]
pub enum UnknownKind {
    Int(i128),
    Str,
}

/// The data type of a literal.
#[derive(Clone, Copy, Debug, PartialEq, Eq)]
pub enum DataType {
    Null,
    Boolean,
    String,
    Binary,
    UInt8,
    UInt16,
    UInt32,
    UInt64,
    Int8,
    Int16,
    Int32,
    Int64,
    Int128,
    Date,
    Unknown(UnknownKind),
}

/// A constant value of a query expression.
#[derive(Clone, Debug, PartialEq, Eq)]
pub enum LiteralValue {
    Null,
    Boolean(bool),
    String(String),
    Binary(Vec<u8>),
    UInt8(u8),
    UInt16(u16),
    UInt32(u32),
    UInt64(u64),
    Int8(i8),
    Int16(i16),
    Int32(i32),
    Int64(i64),
    Int128(i128),
    /// A range of integers from `low` up to, not including, `high`, of the
    /// integer type `dtype`.
    Range { low: i64, high: i64, dtype: DataType },
    /// Days since the epoch.
    Date(i32),
    /// An integer whose type is still to be settled.
    Int(i128),
    /// A string whose type is still to be settled.
    StrCat(String),
}

impl LiteralValue {
    /// A scalar literal stands for one value; a range stands for many.
    pub fn is_scalar(&self) -> (r: bool)
        ensures
            r == !(self is Range),
    {
        match self {
            LiteralValue::Range { .. } => false,
            _ => true,
        }
    }

    pub fn is_null(&self) -> (r: bool)
        ensures
            r == (self is Null),
    {
        match self {
            LiteralValue::Null => true,
            _ => false,
        }
    }

    /// The data type of the value.
    pub open spec fn datatype_of(&self) -> DataType {
        match self {
            LiteralValue::Null => DataType::Null,
            LiteralValue::Boolean(_) => DataType::Boolean,
            LiteralValue::String(_) => DataType::String,
            LiteralValue::Binary(_) => DataType::Binary,
            LiteralValue::UInt8(_) => DataType::UInt8,
            LiteralValue::UInt16(_) => DataType::UInt16,
            LiteralValue::UInt32(_) => DataType::UInt32,
            LiteralValue::UInt64(_) => DataType::UInt64,
            LiteralValue::Int8(_) => DataType::Int8,
            LiteralValue::Int16(_) => DataType::Int16,
            LiteralValue::Int32(_) => DataType::Int32,
            LiteralValue::Int64(_) => DataType::Int64,
            LiteralValue::Int128(_) => DataType::Int128,
            LiteralValue::Range { dtype, .. } => *dtype,
            LiteralValue::Date(_) => DataType::Date,
            LiteralValue::Int(v) => DataType::Unknown(UnknownKind::Int(*v)),
            LiteralValue::StrCat(_) => DataType::Unknown(UnknownKind::Str),
        }
    }

    pub fn get_datatype(&self) -> (r: DataType)
        ensures
            r == self.datatype_of(),
    {
        match self {
            LiteralValue::Null => DataType::Null,
            LiteralValue::Boolean(_) => DataType::Boolean,
            LiteralValue::String(_) => DataType::String,
            LiteralValue::Binary(_) => DataType::Binary,
            LiteralValue::UInt8(_) => DataType::UInt8,
            LiteralValue::UInt16(_) => DataType::UInt16,
            LiteralValue::UInt32(_) => DataType::UInt32,
            LiteralValue::UInt64(_) => DataType::UInt64,
            LiteralValue::Int8(_) => DataType::Int8,
            LiteralValue::Int16(_) => DataType::Int16,
            LiteralValue::Int32(_) => DataType::Int32,
            LiteralValue::Int64(_) => DataType::Int64,
            LiteralValue::Int128(_) => DataType::Int128,
            LiteralValue::Range { dtype, .. } => *dtype,
            LiteralValue::Date(_) => DataType::Date,
            LiteralValue::Int(v) => DataType::Unknown(UnknownKind::Int(*v)),
            LiteralValue::StrCat(_) => DataType::Unknown(UnknownKind::Str),
        }
    }

    /// The literal of a row index, of the index type's width.
    pub fn new_idxsize(value: IdxSize) -> (r: Self)
        ensures
            r == LiteralValue::UInt32(value),
    {
        LiteralValue::UInt32(value)
    }
}

/// An expression of the query planner; here only its literal form.
#[derive(Clone, Debug, PartialEq, Eq)]
pub enum Expr {
    Literal(LiteralValue),
}

/// A value that can stand in an expression as a literal.
pub trait Literal: Sized {
    /// The literal that the value becomes.
    spec fn literal_value(&self) -> LiteralValue;

    fn lit(self) -> (r: Expr)
        ensures
            r == Expr::Literal(self.literal_value()),
    ;
}

/// A value whose literal keeps its exact type: an integer becomes a literal
/// of its own width rather than one whose type is still to be settled.
pub trait TypedLiteral: Literal {
    spec fn typed_literal_value(&self) -> LiteralValue;

    fn typed_lit(self) -> (r: Expr)
        ensures
            r == Expr::Literal(self.typed_literal_value()),
    ;
}

/// The null literal.
pub struct Null {}

impl Literal for Null {
    open spec fn literal_value(&self) -> LiteralValue {
        LiteralValue::Null
    }

    fn lit(self) -> (r: Expr) {
        Expr::Literal(LiteralValue::Null)
    }
}

impl Literal for bool {
    open spec fn literal_value(&self) -> LiteralValue {
        LiteralValue::Boolean(*self)
    }

    fn lit(self) -> (r: Expr) {
        Expr::Literal(LiteralValue::Boolean(self))
    }
}

impl Literal for String {
    open spec fn literal_value(&self) -> LiteralValue {
        LiteralValue::String(*self)
    }

    fn lit(self) -> (r: Expr) {
        Expr::Literal(LiteralValue::String(self))
    }
}

impl TypedLiteral for String {
    open spec fn typed_literal_value(&self) -> LiteralValue {
        LiteralValue::String(*self)
    }

    fn typed_lit(self) -> (r: Expr) {
        self.lit()
    }
}

impl Literal for Vec<u8> {
    open spec fn literal_value(&self) -> LiteralValue {
        LiteralValue::Binary(*self)
    }

    fn lit(self) -> (r: Expr) {
        Expr::Literal(LiteralValue::Binary(self))
    }
}

impl Literal for LiteralValue {
    open spec fn literal_value(&self) -> LiteralValue {
        *self
    }

    fn lit(self) -> (r: Expr) {
        Expr::Literal(self)
    }
}

impl Literal for i32 {
    open spec fn literal_value(&self) -> LiteralValue {
        LiteralValue::Int(*self as i128)
    }

    fn lit(self) -> (r: Expr) {
        Expr::Literal(LiteralValue::Int(self as i128))
    }
}

impl TypedLiteral for i32 {
    open spec fn typed_literal_value(&self) -> LiteralValue {
        LiteralValue::Int32(*self)
    }

    fn typed_lit(self) -> (r: Expr) {
        Expr::Literal(LiteralValue::Int32(self))
    }
}

impl Literal for i64 {
    open spec fn literal_value(&self) -> LiteralValue {
        LiteralValue::Int(*self as i128)
    }

    fn lit(self) -> (r: Expr) {
        Expr::Literal(LiteralValue::Int(self as i128))
    }
}

impl TypedLiteral for i64 {
    open spec fn typed_literal_value(&self) -> LiteralValue {
        LiteralValue::Int64(*self)
    }

    fn typed_lit(self) -> (r: Expr) {
        Expr::Literal(LiteralValue::Int64(self))
    }
}

impl Literal for u32 {
    open spec fn literal_value(&self) -> LiteralValue {
        LiteralValue::Int(*self as i128)
    }

    fn lit(self) -> (r: Expr) {
        Expr::Literal(LiteralValue::Int(self as i128))
    }
}

impl TypedLiteral for u32 {
    open spec fn typed_literal_value(&self) -> LiteralValue {
        LiteralValue::UInt32(*self)
    }

    fn typed_lit(self) -> (r: Expr) {
        Expr::Literal(LiteralValue::UInt32(self))
    }
}

impl Literal for u64 {
    open spec fn literal_value(&self) -> LiteralValue {
        LiteralValue::Int(*self as i128)
    }

    fn lit(self) -> (r: Expr) {
        Expr::Literal(LiteralValue::Int(self as i128))
    }
}

impl TypedLiteral for u64 {
    open spec fn typed_literal_value(&self) -> LiteralValue {
        LiteralValue::UInt64(*self)
    }

    fn typed_lit(self) -> (r: Expr) {
        Expr::Literal(LiteralValue::UInt64(self))
    }
}

/// A literal expression of `t`: it behaves like a column that holds `t` in
/// every row.
pub fn lit<L: Literal>(t: L) -> (r: Expr)
    ensures
        r == Expr::Literal(t.literal_value()),
{
    t.lit()
}

/// A literal expression of `t` that keeps `t`'s exact type.
pub fn typed_lit<L: TypedLiteral>(t: L) -> (r: Expr)
    ensures
        r == Expr::Literal(t.typed_literal_value()),
{
    t.typed_lit()
}

} // verus!
