//! The static description of the traced program's types: their kinds, sizes
//! and fields.

use vstd::prelude::*;

verus! {

/// Width of an address on the traced machine.
#[derive(Debug, Clone, Copy, PartialEq, Eq)]
pub enum PointerWidth {
    P16,
    P32,
    P64,
}

/// Declared width of an integer type.
#[derive(Debug, Clone, Copy, PartialEq, Eq)]
pub enum IntWidth {
    W8,
    W16,
    W32,
    W64,
    W128,
    /// As wide as an address.
    Pointer,
}

/// Declared precision of a floating-point type.
#[derive(Debug, Clone, Copy, PartialEq, Eq)]
pub enum FloatWidth {
    F32,
    F64,
}

/// One field of a record type.
#[derive(Debug, Clone)]
pub struct FieldDef {
    pub name: String,
    /// Index of the field's type in the type table.
    pub ty: usize,
    /// Distance in bytes from the start of the record.
    pub offset: u64,
}

/// What kind of type an entry of the type table is.
#[derive(Debug, Clone)]
pub enum TypeKind {
    Bool,
    Char,
    Uint(IntWidth),
    Int(IntWidth),
    Float(FloatWidth),
    /// An unsized text slice; its length travels with the operand.
    Str,
    /// A record with named fields in declaration order.
    Struct { def_id: u64, name: String, fields: Vec<FieldDef>, size: u64 },
    /// A reference or raw pointer.
    Pointer { pointee: usize },
    /// Any type the decoder has no rule for.
    Other { size: u64 },
}

/// The types of the traced program, indexed by type id.
#[derive(Debug, Clone)]
pub struct TypeTable {
    pub pointer_width: PointerWidth,
    pub types: Vec<TypeKind>,
}

impl PointerWidth {
    /// Number of bytes in an address.
    pub open spec fn bytes_spec(self) -> nat {
        match self {
            PointerWidth::P16 => 2,
            PointerWidth::P32 => 4,
            PointerWidth::P64 => 8,
        }
    }

    /// Number of bytes in an address.
    pub fn bytes(self) -> (n: u64)
        ensures
            n == self.bytes_spec(),
    {
        match self {
            PointerWidth::P16 => 2,
            PointerWidth::P32 => 4,
            PointerWidth::P64 => 8,
        }
    }
}

impl IntWidth {
    /// Number of bytes an integer of this width occupies.
    pub open spec fn bytes_spec(self, pointer: PointerWidth) -> nat {
        match self {
            IntWidth::W8 => 1,
            IntWidth::W16 => 2,
            IntWidth::W32 => 4,
            IntWidth::W64 => 8,
            IntWidth::W128 => 16,
            IntWidth::Pointer => pointer.bytes_spec(),
        }
    }

    /// Number of bytes an integer of this width occupies.
    pub fn bytes(self, pointer: PointerWidth) -> (n: u64)
        ensures
            n == self.bytes_spec(pointer),
    {
        match self {
            IntWidth::W8 => 1,
            IntWidth::W16 => 2,
            IntWidth::W32 => 4,
            IntWidth::W64 => 8,
            IntWidth::W128 => 16,
            IntWidth::Pointer => pointer.bytes(),
        }
    }
}

impl FloatWidth {
    /// Number of bytes a float of this precision occupies.
    pub open spec fn bytes_spec(self) -> nat {
        match self {
            FloatWidth::F32 => 4,
            FloatWidth::F64 => 8,
        }
    }

    /// Number of bytes a float of this precision occupies.
    pub fn bytes(self) -> (n: u64)
        ensures
            n == self.bytes_spec(),
    {
        match self {
            FloatWidth::F32 => 4,
            FloatWidth::F64 => 8,
        }
    }
}

impl TypeTable {
    /// Whether `ty` is the id of a text slice type.
    pub open spec fn is_text(&self, ty: usize) -> bool {
        ty < self.types.len() && self.types@[ty as int] is Str
    }

    /// Size in bytes of a value of type `ty`. A text slice has no size of
    /// its own, and neither has an id outside the table: both count as 0.
    /// A pointer to a text slice carries the slice's length beside the
    /// address and is twice as wide as a plain one.
    pub open spec fn size_of_spec(&self, ty: usize) -> nat {
        if ty >= self.types.len() {
            0
        } else {
            match self.types@[ty as int] {
                TypeKind::Bool => 1,
                TypeKind::Char => 4,
                TypeKind::Uint(w) => w.bytes_spec(self.pointer_width),
                TypeKind::Int(w) => w.bytes_spec(self.pointer_width),
                TypeKind::Float(w) => w.bytes_spec(),
                TypeKind::Str => 0,
                TypeKind::Struct { size, .. } => size as nat,
                TypeKind::Pointer { pointee } => if self.is_text(pointee) {
                    2 * self.pointer_width.bytes_spec()
                } else {
                    self.pointer_width.bytes_spec()
                },
                TypeKind::Other { size } => size as nat,
            }
        }
    }

    /// Whether `ty` is the id of a text slice type.
    pub fn is_text_type(&self, ty: usize) -> (text: bool)
        ensures
            text == self.is_text(ty),
    {
        if ty < self.types.len() {
            match &self.types[ty] {
                TypeKind::Str => true,
                _ => false,
            }
        } else {
            false
        }
    }

    /// Size in bytes of a value of type `ty`.
    pub fn size_of(&self, ty: usize) -> (size: u64)
        ensures
            size == self.size_of_spec(ty),
    {
        if ty >= self.types.len() {
            return 0;
        }
        match &self.types[ty] {
            TypeKind::Bool => 1,
            TypeKind::Char => 4,
            TypeKind::Uint(w) => w.bytes(self.pointer_width),
            TypeKind::Int(w) => w.bytes(self.pointer_width),
            TypeKind::Float(w) => w.bytes(),
            TypeKind::Str => 0,
            TypeKind::Struct { size, .. } => *size,
            TypeKind::Pointer { pointee } => if self.is_text_type(*pointee) {
                2 * self.pointer_width.bytes()
            } else {
                self.pointer_width.bytes()
            },
            TypeKind::Other { size } => *size,
        }
    }
}

} // verus!
