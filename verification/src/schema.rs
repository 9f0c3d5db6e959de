//! The field and type model: the schema representation every other component
//! consumes.
//!
//! A message schema is an ordered list of [`FieldDef`]s.  Fields are named by
//! small numeric identifiers; an [`Expression`] refers to earlier fields by
//! identifier and is evaluated against an explicit lookup context, never
//! against ambient state.  All values here are immutable descriptions derived
//! once from the protocol description; the codec consumes them read-only.

use vstd::prelude::*;

verus! {

/// How a padding field determines its byte count.
#[derive(Debug, PartialEq, Eq)]
pub enum PadKind {
    /// A fixed count of zero bytes.
    Bytes(usize),
    /// Zero bytes until the output length is a multiple of the alignment.
    Align(usize),
}

/// A deduction rule: how a field's wire value is computed from other fields.
#[derive(Debug, PartialEq, Eq)]
pub enum DeducibleField {
    /// The field equals the length of the named list, optionally scaled.
    LengthOf { list: u64, op: DeducibleLengthOp },
    /// The field equals the discriminant of the named tagged union.
    CaseSwitchExpr { switch: u64 },
    /// The field equals the bit-selector of the named bit-flag union.
    BitCaseSwitchExpr { switch: u64 },
}

/// The optional scaling applied by a `LengthOf` deduction rule.
#[derive(Debug, PartialEq, Eq)]
pub enum DeducibleLengthOp {
    /// The field holds the list length itself.
    Plain,
    /// The field holds the list length multiplied by the coefficient.
    Mul(u64),
    /// The field holds the list length divided by the coefficient.
    Div(u64),
}

/// A small expression over already-known field values, used for list
/// lengths, union discriminants and deduced fields.
#[derive(Debug, PartialEq, Eq)]
pub enum Expression {
    /// The value of the field with this identifier.
    FieldRef(u64),
    /// The discriminant of the tagged union currently being encoded.
    SwitchExpr,
    /// An integer literal.
    Value(u64),
    Add(Box<Expression>, Box<Expression>),
    Sub(Box<Expression>, Box<Expression>),
    Mul(Box<Expression>, Box<Expression>),
    Div(Box<Expression>, Box<Expression>),
    BitAnd(Box<Expression>, Box<Expression>),
    BitOr(Box<Expression>, Box<Expression>),
    /// Bitwise complement (on 64 bits).
    BitNot(Box<Expression>),
    /// Equality test; yields 1 or 0.
    Eq(Box<Expression>, Box<Expression>),
    /// Logical conjunction of two 0/1 values.
    LogAnd(Box<Expression>, Box<Expression>),
    /// Logical disjunction of two 0/1 values.
    LogOr(Box<Expression>, Box<Expression>),
    /// Number of set bits in the operand.
    Popcount(Box<Expression>),
}

/// A nested structure type: its own field list, deduction rules, and the
/// identifiers of the external parameters its serializer needs.  The
/// enclosing scope supplies those parameters explicitly when invoking the
/// nested serializer.
#[derive(Debug, PartialEq, Eq)]
pub struct StructDef {
    pub fields: Vec<FieldDef>,
    pub deducible: Vec<(u64, DeducibleField)>,
    pub params: Vec<u64>,
}

/// The resolved type of a normal field or of a list element.
#[derive(Debug, PartialEq, Eq)]
pub enum FieldType {
    /// A fixed-size unsigned integer of the given byte width.
    Int { size: usize },
    /// An enumerated value: declared wire size in bytes, plus the largest
    /// legal enumerator, which determines the minimal wire width able to
    /// represent every legal value.
    Enum { size: usize, max_value: u64 },
    /// A nested structure with its own self-describing serializer.
    Struct(StructDef),
}

/// One case of a tagged union: a guard value (or guard bit) and the nested
/// field list encoded when the case is active.
#[derive(Debug, PartialEq, Eq)]
pub struct SwitchCase {
    pub guard: u64,
    pub fields: Vec<FieldDef>,
    pub deducible: Vec<(u64, DeducibleField)>,
}

/// Whether a tagged union selects exactly one case by value or any number of
/// cases by bits of a bitmask.
#[derive(Debug, PartialEq, Eq)]
pub enum SwitchKind {
    Case,
    BitCase,
}

/// One field of a message schema.
#[derive(Debug, PartialEq, Eq)]
pub enum FieldDef {
    /// Padding; carries no value.
    Pad(PadKind),
    /// A named field of a declared type.
    Normal { id: u64, ty: FieldType },
    /// A named sequence field: element type plus a length expression.
    /// A length expression of `None` means the length is not described by
    /// the schema; such a field is refused with an explicit error rather
    /// than silently mis-encoded.
    List { id: u64, elem: FieldType, length_expr: Option<Expression> },
    /// A named tagged union: discriminant expression and ordered cases.
    Switch { id: u64, expr: Expression, kind: SwitchKind, cases: Vec<SwitchCase> },
    /// A field whose value is a schema-known constant single byte.
    ExprConst { id: u64, value: u64 },
    /// A file descriptor, transmitted out of band; contributes no bytes.
    Fd { id: u64 },
    /// A list of file descriptors, transmitted out of band.
    FdList { id: u64, length_expr: Expression },
    /// A synthetic field that emits the named list's element count as a
    /// 4-byte integer, decoupled from the list's own schema position.
    VirtualLen { id: u64, list: u64 },
}

/// A caller-supplied field value.  A message value is a vector of these,
/// positionally parallel to the schema's field list.
#[derive(Debug, PartialEq, Eq)]
pub enum Value {
    /// No value: padding, constant and virtual-length fields, and deducible
    /// fields the caller chose to omit.
    Absent,
    /// An integer, for normal fields of integer or enumerated type and for
    /// a single file descriptor.
    Uint(u64),
    /// Raw bytes, for lists with byte-sized elements.
    Bytes(Vec<u8>),
    /// Element values, for lists with wider elements.
    List(Vec<Value>),
    /// Nested field values, for normal fields of structure type.
    Struct(Vec<Value>),
    /// Per-case nested field values for a tagged union; `Some` marks an
    /// active case.
    Switch(Vec<Option<Vec<Value>>>),
    /// File descriptors, for fd-list fields.
    Fds(Vec<u64>),
}

/// The minimal wire width, in bytes, able to represent every legal
/// enumerator up to `max_value`.
pub open spec fn spec_wire_bytes(max_value: u64) -> usize {
    if max_value < 0x100 {
        1usize
    } else if max_value < 0x10000 {
        2usize
    } else if max_value < 0x1_0000_0000 {
        4usize
    } else {
        8usize
    }
}

/// Executable twin of [`spec_wire_bytes`].
pub fn wire_bytes(max_value: u64) -> (r: usize)
    ensures
        r == spec_wire_bytes(max_value),
{
    if max_value < 0x100 {
        1
    } else if max_value < 0x10000 {
        2
    } else if max_value < 0x1_0000_0000 {
        4
    } else {
        8
    }
}

/// The number of bytes an enumerated field occupies on the wire when its
/// value is not deduced: the declared size, widened when the widest legal
/// enumerator needs more than one byte and more than the declared size.
pub open spec fn spec_enum_encoded_size(size: usize, max_value: u64) -> usize {
    if spec_wire_bytes(max_value) > 1 && spec_wire_bytes(max_value) > size {
        spec_wire_bytes(max_value)
    } else {
        size
    }
}

/// Executable twin of [`spec_enum_encoded_size`].
pub fn enum_encoded_size(size: usize, max_value: u64) -> (r: usize)
    ensures
        r == spec_enum_encoded_size(size, max_value),
{
    let w = wire_bytes(max_value);
    if w > 1 && w > size {
        w
    } else {
        size
    }
}

} // verus!
