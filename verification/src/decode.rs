//! The value decoder: turns one typed operand of the traced machine into a
//! portable value tree.
//!
//! The rules, by the kind of the operand's type:
//! - a record decodes field by field, in declaration order; a record that is
//!   registered as a growable sequence decodes to its elements instead;
//! - a primitive scalar is read from its bytes, which must all have been
//!   written;
//! - a text slice is read from its bytes, which must be UTF-8;
//! - a pointer is followed where it can be, and decodes to `Unallocated`
//!   where it cannot;
//! - any other type is not supported.

use crate::fault::Fault;
use crate::layout::{FieldDef, FloatWidth, IntWidth, TypeKind, TypeTable};
use crate::memory::{Memory, Operand};
use crate::scalar::{
    char_from_u32, char_to_string, int_of, is_scalar_value, le_bytes, le_value,
    lemma_le_bytes_read_back, lemma_short_value, lemma_twos_complement_read_back, read_int,
    read_uint, string_from_utf8, twos_complement, uint_from_le, uint_of, widen_f32, widen_f32_spec,
};
use vstd::arithmetic::power2::pow2;
use crate::type_ids::{growable_sequence_path, TypeDefIds};
use crate::value::{
    field_of, lemma_find_named_first, lemma_values_view, named_values_view, values_view, MValue,
    Value,
};
use vstd::prelude::*;

verus! {

/// What the decoder reads from: the program's types, its well-known type
/// definitions and the machine's memory at one moment.
pub struct Decoder<'a> {
    pub types: &'a TypeTable,
    pub type_def_ids: &'a TypeDefIds,
    pub memory: &'a Memory,
}

/// The model of a decoding result.
pub open spec fn value_result(result: Result<MValue, Fault>) -> Result<Value, Fault> {
    match result {
        Ok(v) => Ok(v@),
        Err(e) => Err(e),
    }
}

/// The model of a result that holds a list of named values.
pub open spec fn named_values_result(result: Result<Vec<(String, MValue)>, Fault>) -> Result<
    Seq<(Seq<char>, Value)>,
    Fault,
> {
    match result {
        Ok(v) => Ok(named_values_view(v@)),
        Err(e) => Err(e),
    }
}

/// The model of a result that holds a list of values.
pub open spec fn values_result(result: Result<Vec<MValue>, Fault>) -> Result<Seq<Value>, Fault> {
    match result {
        Ok(v) => Ok(values_view(v@)),
        Err(e) => Err(e),
    }
}

/// Index of the first field at or after `from` that has the given name.
pub open spec fn find_field(fields: Seq<FieldDef>, name: Seq<char>, from: int) -> Option<int>
    decreases fields.len() - from,
{
    if from < 0 || from >= fields.len() {
        None
    } else if fields[from].name@ == name {
        Some(from)
    } else {
        find_field(fields, name, from + 1)
    }
}

/// The place `offset` bytes after the start of `base`, with type `ty`.
/// There is none where the address would pass the end of the address space.
pub open spec fn place_at(base: Operand, offset: nat, ty: usize) -> Option<Operand> {
    if base.addr + offset <= u64::MAX {
        Some(Operand { ty, addr: (base.addr + offset) as u64, len: base.len })
    } else {
        None
    }
}

/// The boolean that one byte holds.
pub open spec fn bool_of(bytes: Seq<u8>) -> Result<Value, Fault> {
    if bytes[0] == 0 {
        Ok(Value::Bool(false))
    } else if bytes[0] == 1 {
        Ok(Value::Bool(true))
    } else {
        Err(Fault::InvalidBool)
    }
}

/// The character that four bytes hold.
pub open spec fn char_of(bytes: Seq<u8>) -> Result<Value, Fault> {
    let code = le_value(bytes) as u32;
    if is_scalar_value(code) {
        Ok(Value::Char(seq![code as char]))
    } else {
        Err(Fault::InvalidChar)
    }
}

/// The float that the bytes hold, as a double-precision bit pattern.
pub open spec fn float_of(bytes: Seq<u8>, width: FloatWidth) -> Value {
    match width {
        FloatWidth::F32 => Value::Float(widen_f32_spec(le_value(bytes) as u32) as u64),
        FloatWidth::F64 => Value::Float(le_value(bytes) as u64),
    }
}

/// The text that the bytes hold.
pub open spec fn text_of(bytes: Seq<u8>) -> Result<Value, Fault> {
    if vstd::utf8::valid_utf8(bytes) {
        Ok(Value::String(vstd::utf8::decode_utf8(bytes)))
    } else {
        Err(Fault::InvalidText)
    }
}

impl<'a> Decoder<'a> {
    /// The field of a record operand that has the given name. A type that is
    /// no record, or has no such field, has a layout the decoder does not
    /// know.
    pub open spec fn field_spec(&self, op: Operand, name: Seq<char>) -> Result<Operand, Fault> {
        if op.ty >= self.types.types.len() {
            Err(Fault::UnknownLayout)
        } else {
            match self.types.types@[op.ty as int] {
                TypeKind::Struct { fields, .. } => match find_field(fields@, name, 0) {
                    Some(i) => match place_at(op, fields@[i].offset as nat, fields@[i].ty) {
                        Some(place) => Ok(place),
                        None => Err(Fault::OutOfBounds),
                    },
                    None => Err(Fault::UnknownLayout),
                },
                _ => Err(Fault::UnknownLayout),
            }
        }
    }

    /// The named field of an operand that was itself found without fault.
    pub open spec fn then_field(&self, found: Result<Operand, Fault>, name: Seq<char>) -> Result<
        Operand,
        Fault,
    > {
        match found {
            Ok(op) => self.field_spec(op, name),
            Err(e) => Err(e),
        }
    }

    /// The operand that holds the address of a growable sequence's storage:
    /// three fields down from the sequence's buffer.
    pub open spec fn storage_handle(&self, buf: Operand) -> Result<Operand, Fault> {
        self.then_field(self.then_field(self.field_spec(buf, "ptr"@), "pointer"@), "pointer"@)
    }

    /// The place that a pointer operand leads to. There is none where the
    /// pointer's own bytes cannot be read, or where the place it names does
    /// not lie in a live allocation. A pointer to a text slice holds the
    /// slice's length after the address.
    pub open spec fn deref_spec(&self, op: Operand, pointee: usize) -> Option<Operand> {
        let width = self.types.pointer_width.bytes_spec();
        if self.types.is_text(pointee) {
            match self.memory.read_spec(op.addr, 2 * width) {
                Ok(bytes) => {
                    let addr = le_value(bytes.subrange(0, width as int)) as u64;
                    let len = le_value(bytes.subrange(width as int, 2 * width as int)) as u64;
                    if self.memory.accessible(addr, len as nat) {
                        Some(Operand { ty: pointee, addr, len })
                    } else {
                        None
                    }
                },
                Err(_) => None,
            }
        } else {
            match self.memory.read_spec(op.addr, width) {
                Ok(bytes) => {
                    let addr = le_value(bytes) as u64;
                    if self.memory.accessible(addr, self.types.size_of_spec(pointee)) {
                        Some(Operand { ty: pointee, addr, len: 0 })
                    } else {
                        None
                    }
                },
                Err(_) => None,
            }
        }
    }

    /// The value that an operand decodes to when the decoder may descend
    /// `depth` levels, or the fault that ends the decoding.
    pub open spec fn decode(&self, op: Operand, depth: nat) -> Result<Value, Fault>
        decreases depth, 0nat, 0nat,
    {
        if depth == 0 {
            Err(Fault::DepthExceeded)
        } else if op.ty >= self.types.types.len() {
            Err(Fault::UnsupportedType)
        } else {
            match self.types.types@[op.ty as int] {
                TypeKind::Struct { def_id, name, fields, .. } => {
                    if self.type_def_ids@.contains_key(def_id) {
                        if self.type_def_ids@[def_id] == growable_sequence_path() {
                            self.decode_sequence(op, (depth - 1) as nat)
                        } else {
                            Err(Fault::UnsupportedType)
                        }
                    } else {
                        match self.decode_fields(op, fields@, (depth - 1) as nat) {
                            Ok(decoded) => Ok(Value::Struct { name: name@, fields: decoded }),
                            Err(e) => Err(e),
                        }
                    }
                },
                TypeKind::Bool => match self.memory.read_spec(op.addr, 1) {
                    Ok(bytes) => bool_of(bytes),
                    Err(e) => Err(e),
                },
                TypeKind::Char => match self.memory.read_spec(op.addr, 4) {
                    Ok(bytes) => char_of(bytes),
                    Err(e) => Err(e),
                },
                TypeKind::Uint(width) => match self.memory.read_spec(
                    op.addr,
                    width.bytes_spec(self.types.pointer_width),
                ) {
                    Ok(bytes) => Ok(Value::Uint(uint_of(bytes))),
                    Err(e) => Err(e),
                },
                TypeKind::Int(width) => match self.memory.read_spec(
                    op.addr,
                    width.bytes_spec(self.types.pointer_width),
                ) {
                    Ok(bytes) => Ok(Value::Int(int_of(bytes))),
                    Err(e) => Err(e),
                },
                TypeKind::Float(width) => match self.memory.read_spec(op.addr, width.bytes_spec()) {
                    Ok(bytes) => Ok(float_of(bytes, width)),
                    Err(e) => Err(e),
                },
                TypeKind::Str => match self.memory.read_spec(op.addr, op.len as nat) {
                    Ok(bytes) => text_of(bytes),
                    Err(e) => Err(e),
                },
                TypeKind::Pointer { pointee } => match self.deref_spec(op, pointee) {
                    Some(target) => self.decode(target, (depth - 1) as nat),
                    None => Ok(Value::Unallocated),
                },
                TypeKind::Other { .. } => Err(Fault::UnsupportedType),
            }
        }
    }

    /// What one field of a record operand decodes to. A field whose place
    /// would pass the end of the address space is out of bounds.
    pub open spec fn decode_field(&self, op: Operand, field: FieldDef, depth: nat) -> Result<
        Value,
        Fault,
    > {
        match place_at(op, field.offset as nat, field.ty) {
            Some(place) => self.decode(place, depth),
            None => Err(Fault::OutOfBounds),
        }
    }

    /// What the element at `index` decodes to, in a sequence whose storage
    /// starts at `first`: the element lies `index` element sizes after the
    /// first.
    pub open spec fn decode_element(&self, first: Operand, index: nat, depth: nat) -> Result<
        Value,
        Fault,
    > {
        match place_at(first, self.types.size_of_spec(first.ty) * index, first.ty) {
            Some(place) => self.decode(place, depth),
            None => Err(Fault::OutOfBounds),
        }
    }

    /// The fields of a record operand, decoded in declaration order. The
    /// first field that faults ends the decoding.
    pub open spec fn decode_fields(&self, op: Operand, fields: Seq<FieldDef>, depth: nat) -> Result<
        Seq<(Seq<char>, Value)>,
        Fault,
    >
        decreases depth, 1nat, fields.len(),
    {
        if fields.len() == 0 {
            Ok(Seq::empty())
        } else {
            match self.decode_fields(op, fields.drop_last(), depth) {
                Ok(front) => match place_at(op, fields.last().offset as nat, fields.last().ty) {
                    Some(place) => match self.decode(place, depth) {
                        Ok(v) => Ok(front.push((fields.last().name@, v))),
                        Err(e) => Err(e),
                    },
                    None => Err(Fault::OutOfBounds),
                },
                Err(e) => Err(e),
            }
        }
    }

    /// The first `count` elements of a sequence whose storage starts at
    /// `first`, decoded in index order. Element `i` lies `i` element sizes
    /// after the first.
    pub open spec fn decode_elements(&self, first: Operand, count: nat, depth: nat) -> Result<
        Seq<Value>,
        Fault,
    >
        decreases depth, 1nat, count,
    {
        if count == 0 {
            Ok(Seq::empty())
        } else {
            match self.decode_elements(first, (count - 1) as nat, depth) {
                Ok(front) => match place_at(
                    first,
                    self.types.size_of_spec(first.ty) * (count - 1) as nat,
                    first.ty,
                ) {
                    Some(place) => match self.decode(place, depth) {
                        Ok(v) => Ok(front.push(v)),
                        Err(e) => Err(e),
                    },
                    None => Err(Fault::OutOfBounds),
                },
                Err(e) => Err(e),
            }
        }
    }

    /// The body of a growable sequence whose length is `count`: a single
    /// `Unallocated` where its storage cannot be reached, its elements
    /// where it can.
    pub open spec fn decode_storage(&self, op: Operand, count: nat, depth: nat) -> Result<
        Seq<Value>,
        Fault,
    >
        decreases depth, 2nat, 0nat,
    {
        match self.storage_handle(op) {
            Ok(handle) => if handle.ty >= self.types.types.len() {
                Err(Fault::UnknownLayout)
            } else {
                match self.types.types@[handle.ty as int] {
                    TypeKind::Pointer { pointee } => match self.deref_spec(handle, pointee) {
                        Some(first) => self.decode_elements(first, count, depth),
                        None => Ok(seq![Value::Unallocated]),
                    },
                    _ => Err(Fault::UnknownLayout),
                }
            },
            Err(e) => Err(e),
        }
    }

    /// The value of a growable sequence: its length is read from the field
    /// `len`, which must be an unsigned integer, and its body from the
    /// storage that the field `buf` leads to.
    pub open spec fn decode_sequence(&self, op: Operand, depth: nat) -> Result<Value, Fault>
        decreases depth, 3nat, 0nat,
    {
        match self.field_spec(op, "len"@) {
            Ok(len_place) => match self.decode(len_place, depth) {
                Ok(Value::Uint(count)) => match self.field_spec(op, "buf"@) {
                    Ok(buf) => match self.decode_storage(buf, count as nat, depth) {
                        Ok(items) => Ok(Value::Array(items)),
                        Err(e) => Err(e),
                    },
                    Err(e) => Err(e),
                },
                Ok(_) => Err(Fault::UnknownLayout),
                Err(e) => Err(e),
            },
            Err(e) => Err(e),
        }
    }

    /// Finds the field of a record operand by its name.
    #[verifier::loop_isolation(false)]
    pub fn field_by_name(&self, op: &Operand, name: &str) -> (found: Result<Operand, Fault>)
        ensures
            found == self.field_spec(*op, name@),
    {
        if op.ty >= self.types.types.len() {
            return Err(Fault::UnknownLayout);
        }
        match &self.types.types[op.ty] {
            TypeKind::Struct { fields, .. } => {
                let wanted = String::from_str(name);
                let mut i: usize = 0;
                while i < fields.len()
                    invariant
                        i <= fields.len(),
                        wanted@ == name@,
                        find_field(fields@, name@, 0) == find_field(fields@, name@, i as int),
                    decreases fields.len() - i,
                {
                    let field = &fields[i];
                    let same = field.name == wanted;
                    if same {
                        return match op.addr.checked_add(field.offset) {
                            Some(addr) => Ok(Operand { ty: field.ty, addr, len: op.len }),
                            None => Err(Fault::OutOfBounds),
                        };
                    }
                    i = i + 1;
                }
                Err(Fault::UnknownLayout)
            },
            _ => Err(Fault::UnknownLayout),
        }
    }

    /// Follows a pointer operand to the place it leads to.
    pub fn deref_operand(&self, op: &Operand, pointee: usize) -> (target: Option<Operand>)
        ensures
            target == self.deref_spec(*op, pointee),
    {
        let width = self.types.pointer_width.bytes();
        if self.types.is_text_type(pointee) {
            match self.memory.read(op.addr, 2 * width) {
                Ok(bytes) => {
                    let addr = uint_from_le(&bytes, 0, width as usize);
                    let len = uint_from_le(&bytes, width as usize, 2 * width as usize);
                    match self.memory.locate(addr, len) {
                        Some(_) => Some(Operand { ty: pointee, addr, len }),
                        None => None,
                    }
                },
                Err(_) => None,
            }
        } else {
            match self.memory.read(op.addr, width) {
                Ok(bytes) => {
                    let addr = uint_from_le(&bytes, 0, width as usize);
                    proof {
                        assert(bytes@.subrange(0, width as int) =~= bytes@);
                    }
                    match self.memory.locate(addr, self.types.size_of(pointee)) {
                        Some(_) => Some(Operand { ty: pointee, addr, len: 0 }),
                        None => None,
                    }
                },
                Err(_) => None,
            }
        }
    }

    /// Decodes one operand, descending at most `depth` levels.
    pub fn read(&self, op: &Operand, depth: usize) -> (result: Result<MValue, Fault>)
        ensures
            value_result(result) == self.decode(*op, depth as nat),
        decreases depth, 0nat, 0nat,
    {
        if depth == 0 {
            return Err(Fault::DepthExceeded);
        }
        if op.ty >= self.types.types.len() {
            return Err(Fault::UnsupportedType);
        }
        match &self.types.types[op.ty] {
            TypeKind::Struct { def_id, name, fields, .. } => {
                match self.type_def_ids.get_path(*def_id) {
                    Some(path) => {
                        if TypeDefIds::is_growable_sequence(path) {
                            self.read_sequence(op, depth - 1)
                        } else {
                            Err(Fault::UnsupportedType)
                        }
                    },
                    None => match self.read_fields(op, fields, depth - 1) {
                        Ok(decoded) => Ok(MValue::Struct { name: name.clone(), fields: decoded }),
                        Err(e) => Err(e),
                    },
                }
            },
            TypeKind::Bool => match self.memory.read(op.addr, 1) {
                Ok(bytes) => {
                    let byte = bytes[0];
                    if byte == 0 {
                        Ok(MValue::Bool(false))
                    } else if byte == 1 {
                        Ok(MValue::Bool(true))
                    } else {
                        Err(Fault::InvalidBool)
                    }
                },
                Err(e) => Err(e),
            },
            TypeKind::Char => match self.memory.read(op.addr, 4) {
                Ok(bytes) => {
                    proof {
                        lemma_short_value(bytes@);
                        vstd::arithmetic::power2::lemma2_to64();
                        assert(bytes@.subrange(0, 4) =~= bytes@);
                    }
                    let code = uint_from_le(&bytes, 0, 4) as u32;
                    match char_from_u32(code) {
                        Some(c) => Ok(MValue::Char(char_to_string(c))),
                        None => Err(Fault::InvalidChar),
                    }
                },
                Err(e) => Err(e),
            },
            TypeKind::Uint(width) => match self.memory.read(
                op.addr,
                width.bytes(self.types.pointer_width),
            ) {
                Ok(bytes) => Ok(MValue::Uint(read_uint(&bytes))),
                Err(e) => Err(e),
            },
            TypeKind::Int(width) => match self.memory.read(
                op.addr,
                width.bytes(self.types.pointer_width),
            ) {
                Ok(bytes) => Ok(MValue::Int(read_int(&bytes))),
                Err(e) => Err(e),
            },
            TypeKind::Float(width) => match self.memory.read(op.addr, width.bytes()) {
                Ok(bytes) => {
                    proof {
                        lemma_short_value(bytes@);
                        vstd::arithmetic::power2::lemma2_to64();
                        assert(bytes@.subrange(0, bytes.len() as int) =~= bytes@);
                    }
                    match width {
                        FloatWidth::F32 => {
                            let bits = uint_from_le(&bytes, 0, 4) as u32;
                            Ok(MValue::Float(widen_f32(bits)))
                        },
                        FloatWidth::F64 => Ok(MValue::Float(uint_from_le(&bytes, 0, 8))),
                    }
                },
                Err(e) => Err(e),
            },
            TypeKind::Str => match self.memory.read(op.addr, op.len) {
                Ok(bytes) => match string_from_utf8(bytes) {
                    Some(text) => Ok(MValue::String(text)),
                    None => Err(Fault::InvalidText),
                },
                Err(e) => Err(e),
            },
            TypeKind::Pointer { pointee } => match self.deref_operand(op, *pointee) {
                Some(target) => self.read(&target, depth - 1),
                None => Ok(MValue::Unallocated),
            },
            TypeKind::Other { .. } => Err(Fault::UnsupportedType),
        }
    }

    /// Decodes the fields of a record operand in declaration order.
    pub fn read_fields(&self, op: &Operand, fields: &Vec<FieldDef>, depth: usize) -> (result: Result<
        Vec<(String, MValue)>,
        Fault,
    >)
        ensures
            named_values_result(result) == self.decode_fields(*op, fields@, depth as nat),
        decreases depth, 1nat, fields.len(),
    {
        let mut decoded: Vec<(String, MValue)> = Vec::new();
        let mut i: usize = 0;
        proof {
            assert(fields@.subrange(0, 0) =~= Seq::<FieldDef>::empty());
        }
        while i < fields.len()
            invariant
                i <= fields.len(),
                self.decode_fields(*op, fields@.subrange(0, i as int), depth as nat) == Ok::<
                    Seq<(Seq<char>, Value)>,
                    Fault,
                >(named_values_view(decoded@)),
            decreases fields.len() - i,
        {
            let field = &fields[i];
            proof {
                let upto = fields@.subrange(0, i + 1);
                assert(upto.drop_last() =~= fields@.subrange(0, i as int));
                assert(upto.last() == fields@[i as int]);
                self.lemma_fields_fault_stays(*op, fields@, i + 1, depth as nat);
            }
            let place = match op.addr.checked_add(field.offset) {
                Some(addr) => Operand { ty: field.ty, addr, len: op.len },
                None => {
                    return Err(Fault::OutOfBounds);
                },
            };
            let value = match self.read(&place, depth) {
                Ok(v) => v,
                Err(e) => {
                    return Err(e);
                },
            };
            let ghost before = decoded@;
            decoded.push((field.name.clone(), value));
            proof {
                assert(decoded@.drop_last() =~= before);
            }
            i = i + 1;
        }
        proof {
            assert(fields@.subrange(0, fields.len() as int) =~= fields@);
        }
        Ok(decoded)
    }

    /// A fault among the first fields is the fault of the whole record.
    pub proof fn lemma_fields_fault_stays(
        &self,
        op: Operand,
        fields: Seq<FieldDef>,
        upto: int,
        depth: nat,
    )
        requires
            0 <= upto <= fields.len(),
        ensures
            self.decode_fields(op, fields.subrange(0, upto), depth) is Err ==> self.decode_fields(
                op,
                fields,
                depth,
            ) == self.decode_fields(op, fields.subrange(0, upto), depth),
        decreases fields.len() - upto,
    {
        if upto < fields.len() {
            let next = fields.subrange(0, upto + 1);
            assert(next.drop_last() =~= fields.subrange(0, upto));
            self.lemma_fields_fault_stays(op, fields, upto + 1, depth);
        } else {
            assert(fields.subrange(0, upto) =~= fields);
        }
    }

    /// A fault among the first elements is the fault of the whole sequence.
    pub proof fn lemma_elements_fault_stays(&self, first: Operand, upto: nat, count: nat, depth: nat)
        requires
            upto <= count,
        ensures
            self.decode_elements(first, upto, depth) is Err ==> self.decode_elements(
                first,
                count,
                depth,
            ) == self.decode_elements(first, upto, depth),
        decreases count - upto,
    {
        if upto < count {
            self.lemma_elements_fault_stays(first, upto + 1, count, depth);
        }
    }

    /// Decodes the first `count` elements of a sequence whose storage starts
    /// at `first`.
    pub fn read_elements(&self, first: &Operand, count: u64, depth: usize) -> (result: Result<
        Vec<MValue>,
        Fault,
    >)
        ensures
            values_result(result) == self.decode_elements(*first, count as nat, depth as nat),
        decreases depth, 1nat, count,
    {
        let stride = self.types.size_of(first.ty);
        let mut items: Vec<MValue> = Vec::new();
        let mut i: u64 = 0;
        while i < count
            invariant
                i <= count,
                stride == self.types.size_of_spec(first.ty),
                self.decode_elements(*first, i as nat, depth as nat) == Ok::<Seq<Value>, Fault>(
                    values_view(items@),
                ),
            decreases count - i,
        {
            proof {
                self.lemma_elements_fault_stays(*first, (i + 1) as nat, count as nat, depth as nat);
            }
            let offset = match stride.checked_mul(i) {
                Some(o) => o,
                None => {
                    return Err(Fault::OutOfBounds);
                },
            };
            let place = match first.addr.checked_add(offset) {
                Some(addr) => Operand { ty: first.ty, addr, len: first.len },
                None => {
                    return Err(Fault::OutOfBounds);
                },
            };
            let value = match self.read(&place, depth) {
                Ok(v) => v,
                Err(e) => {
                    return Err(e);
                },
            };
            let ghost before = items@;
            items.push(value);
            proof {
                assert(items@.drop_last() =~= before);
            }
            i = i + 1;
        }
        Ok(items)
    }

    /// Decodes the body of a growable sequence of `len` elements from its
    /// storage, which the operand `op` leads to.
    pub fn read_raw_vec(&self, op: &Operand, len: u64, depth: usize) -> (result: Result<
        Vec<MValue>,
        Fault,
    >)
        ensures
            values_result(result) == self.decode_storage(*op, len as nat, depth as nat),
        decreases depth, 2nat, 0nat,
    {
        let unique = match self.field_by_name(op, "ptr") {
            Ok(place) => place,
            Err(e) => {
                return Err(e);
            },
        };
        let non_null = match self.field_by_name(&unique, "pointer") {
            Ok(place) => place,
            Err(e) => {
                return Err(e);
            },
        };
        let handle = match self.field_by_name(&non_null, "pointer") {
            Ok(place) => place,
            Err(e) => {
                return Err(e);
            },
        };
        if handle.ty >= self.types.types.len() {
            return Err(Fault::UnknownLayout);
        }
        match &self.types.types[handle.ty] {
            TypeKind::Pointer { pointee } => match self.deref_operand(&handle, *pointee) {
                Some(first) => self.read_elements(&first, len, depth),
                None => {
                    let mut body: Vec<MValue> = Vec::new();
                    body.push(MValue::Unallocated);
                    proof {
                        lemma_values_view(body@);
                        assert(values_view(body@) =~= seq![Value::Unallocated]);
                    }
                    Ok(body)
                },
            },
            _ => Err(Fault::UnknownLayout),
        }
    }

    /// Decodes a growable sequence.
    pub fn read_sequence(&self, op: &Operand, depth: usize) -> (result: Result<MValue, Fault>)
        ensures
            value_result(result) == self.decode_sequence(*op, depth as nat),
        decreases depth, 3nat, 0nat,
    {
        let len_place = match self.field_by_name(op, "len") {
            Ok(place) => place,
            Err(e) => {
                return Err(e);
            },
        };
        let count = match self.read(&len_place, depth) {
            Ok(MValue::Uint(n)) => n,
            Ok(_) => {
                return Err(Fault::UnknownLayout);
            },
            Err(e) => {
                return Err(e);
            },
        };
        let buf = match self.field_by_name(op, "buf") {
            Ok(place) => place,
            Err(e) => {
                return Err(e);
            },
        };
        match self.read_raw_vec(&buf, count, depth) {
            Ok(items) => Ok(MValue::Array(items)),
            Err(e) => Err(e),
        }
    }
}

/// What was written is what is read: an unsigned integer that fits both its
/// declared width and the 64-bit carrier, written to memory in the machine's
/// byte order, decodes to itself.
pub proof fn lemma_unsigned_reads_back(
    decoder: Decoder,
    op: Operand,
    depth: nat,
    width: IntWidth,
    value: u64,
)
    requires
        depth > 0,
        op.ty < decoder.types.types.len(),
        decoder.types.types@[op.ty as int] == TypeKind::Uint(width),
        value < pow2(8 * width.bytes_spec(decoder.types.pointer_width)),
        decoder.memory.read_spec(op.addr, width.bytes_spec(decoder.types.pointer_width)) == Ok::<
            Seq<u8>,
            Fault,
        >(le_bytes(value as nat, width.bytes_spec(decoder.types.pointer_width))),
    ensures
        decoder.decode(op, depth) == Ok::<Value, Fault>(Value::Uint(value)),
{
    let count = width.bytes_spec(decoder.types.pointer_width);
    lemma_le_bytes_read_back(value as nat, count);
}

/// A signed integer in the range of its declared width, written to memory in
/// two's complement, decodes to itself.
pub proof fn lemma_signed_reads_back(
    decoder: Decoder,
    op: Operand,
    depth: nat,
    width: IntWidth,
    value: i64,
)
    requires
        depth > 0,
        op.ty < decoder.types.types.len(),
        decoder.types.types@[op.ty as int] == TypeKind::Int(width),
        width != IntWidth::W128,
        -pow2((8 * width.bytes_spec(decoder.types.pointer_width) - 1) as nat) <= value < pow2(
            (8 * width.bytes_spec(decoder.types.pointer_width) - 1) as nat,
        ),
        decoder.memory.read_spec(op.addr, width.bytes_spec(decoder.types.pointer_width)) == Ok::<
            Seq<u8>,
            Fault,
        >(
            le_bytes(
                twos_complement(value as int, 8 * width.bytes_spec(decoder.types.pointer_width)),
                width.bytes_spec(decoder.types.pointer_width),
            ),
        ),
    ensures
        decoder.decode(op, depth) == Ok::<Value, Fault>(Value::Int(value)),
{
    let count = width.bytes_spec(decoder.types.pointer_width);
    let pattern = twos_complement(value as int, 8 * count);
    lemma_twos_complement_read_back(value as int, 8 * count);
    lemma_le_bytes_read_back(pattern, count);
    lemma_short_value(le_bytes(pattern, count));
}

/// A boolean written as the byte 0 or 1 decodes to itself.
pub proof fn lemma_bool_reads_back(decoder: Decoder, op: Operand, depth: nat, value: bool)
    requires
        depth > 0,
        op.ty < decoder.types.types.len(),
        decoder.types.types@[op.ty as int] == TypeKind::Bool,
        decoder.memory.read_spec(op.addr, 1) == Ok::<Seq<u8>, Fault>(
            seq![if value {
                1u8
            } else {
                0u8
            }],
        ),
    ensures
        decoder.decode(op, depth) == Ok::<Value, Fault>(Value::Bool(value)),
{
}

/// A character written as its number in four bytes decodes to itself.
pub proof fn lemma_char_reads_back(decoder: Decoder, op: Operand, depth: nat, value: char)
    requires
        depth > 0,
        op.ty < decoder.types.types.len(),
        decoder.types.types@[op.ty as int] == TypeKind::Char,
        decoder.memory.read_spec(op.addr, 4) == Ok::<Seq<u8>, Fault>(
            le_bytes(value as u32 as nat, 4),
        ),
    ensures
        decoder.decode(op, depth) == Ok::<Value, Fault>(Value::Char(seq![value])),
{
    vstd::arithmetic::power2::lemma2_to64();
    lemma_le_bytes_read_back(value as u32 as nat, 4);
    vstd::utf8::char_u32_cast(value, value as u32);
    vstd::utf8::char_is_scalar(value);
}

/// A double written as its bit pattern decodes to that pattern, and a single
/// written as its bit pattern decodes to the double-precision pattern of the
/// same number.
pub proof fn lemma_float_reads_back(
    decoder: Decoder,
    op: Operand,
    depth: nat,
    width: FloatWidth,
    bits: u64,
)
    requires
        depth > 0,
        op.ty < decoder.types.types.len(),
        decoder.types.types@[op.ty as int] == TypeKind::Float(width),
        width == FloatWidth::F32 ==> bits <= u32::MAX,
        decoder.memory.read_spec(op.addr, width.bytes_spec()) == Ok::<Seq<u8>, Fault>(
            le_bytes(bits as nat, width.bytes_spec()),
        ),
    ensures
        decoder.decode(op, depth) == Ok::<Value, Fault>(
            match width {
                FloatWidth::F32 => Value::Float(widen_f32_spec(bits as u32) as u64),
                FloatWidth::F64 => Value::Float(bits),
            },
        ),
{
    vstd::arithmetic::power2::lemma2_to64();
    vstd::arithmetic::power2::lemma2_to64_rest();
    lemma_le_bytes_read_back(bits as nat, width.bytes_spec());
}

impl<'a> Decoder<'a> {
    /// The fields of a record decode one by one: where they decode at all,
    /// there are as many values as fields, and each value carries its
    /// field's name and is what the field decodes to. Where they do not, the
    /// fault is that of the first field that faults.
    pub proof fn lemma_fields_decode_one_by_one(&self, op: Operand, fields: Seq<FieldDef>, depth: nat)
        ensures
            match self.decode_fields(op, fields, depth) {
                Ok(decoded) => {
                    &&& decoded.len() == fields.len()
                    &&& forall|i: int|
                        0 <= i < fields.len() ==> (#[trigger] decoded[i]).0 == fields[i].name@
                            && self.decode_field(op, fields[i], depth) == Ok::<Value, Fault>(
                            decoded[i].1,
                        )
                },
                Err(e) => exists|i: int|
                    {
                        &&& 0 <= i < fields.len()
                        &&& self.decode_field(op, #[trigger] fields[i], depth) == Err::<Value, Fault>(e)
                        &&& forall|j: int|
                            0 <= j < i ==> self.decode_field(op, #[trigger] fields[j], depth) is Ok
                    },
            },
        decreases fields.len(),
    {
        if fields.len() > 0 {
            let front = fields.drop_last();
            self.lemma_fields_decode_one_by_one(op, front, depth);
            match self.decode_fields(op, front, depth) {
                Ok(decoded_front) => {
                    assert forall|j: int| 0 <= j < front.len() implies self.decode_field(
                        op,
                        #[trigger] fields[j],
                        depth,
                    ) is Ok by {
                        assert(front[j] == fields[j]);
                        assert(decoded_front[j].0 == front[j].name@);
                    }
                    match self.decode_fields(op, fields, depth) {
                        Ok(decoded) => {
                            assert forall|i: int| 0 <= i < fields.len() implies (
                            #[trigger] decoded[i]).0 == fields[i].name@ && self.decode_field(
                                op,
                                fields[i],
                                depth,
                            ) == Ok::<Value, Fault>(decoded[i].1) by {
                                if i < front.len() {
                                    assert(decoded[i] == decoded_front[i]);
                                    assert(front[i] == fields[i]);
                                }
                            }
                        },
                        Err(e) => {
                            let i = fields.len() - 1;
                            assert(fields[i] == fields.last());
                            assert(self.decode_field(op, fields[i], depth) == Err::<Value, Fault>(e));
                        },
                    }
                },
                Err(e) => {
                    let i = choose|i: int|
                        {
                            &&& 0 <= i < front.len()
                            &&& self.decode_field(op, #[trigger] front[i], depth) == Err::<
                                Value,
                                Fault,
                            >(e)
                            &&& forall|j: int|
                                0 <= j < i ==> self.decode_field(op, #[trigger] front[j], depth) is Ok
                        };
                    assert(front[i] == fields[i]);
                    assert forall|j: int| 0 <= j < i implies self.decode_field(
                        op,
                        #[trigger] fields[j],
                        depth,
                    ) is Ok by {
                        assert(front[j] == fields[j]);
                    }
                },
            }
        }
    }

    /// A record that is no growable sequence decodes to a record value of the
    /// same name whose fields are the record's fields in declaration order,
    /// each under its name and each decoded by the same rules one level
    /// down. It faults only where one of its fields does, and then with the
    /// fault of the first field that faults.
    pub proof fn lemma_record_decodes_by_field(&self, op: Operand, depth: nat)
        requires
            depth > 0,
            op.ty < self.types.types.len(),
            self.types.types@[op.ty as int] is Struct,
            !self.type_def_ids@.contains_key(self.types.types@[op.ty as int]->def_id),
        ensures
            ({
                let fields = self.types.types@[op.ty as int]->fields@;
                let name = self.types.types@[op.ty as int]->Struct_name@;
                match self.decode(op, depth) {
                    Ok(value) => {
                        &&& value is Struct
                        &&& value->Struct_name == name
                        &&& value->Struct_fields.len() == fields.len()
                        &&& forall|i: int|
                            0 <= i < fields.len() ==> (#[trigger] value->Struct_fields[i]).0
                                == fields[i].name@ && self.decode_field(
                                op,
                                fields[i],
                                (depth - 1) as nat,
                            ) == Ok::<Value, Fault>(value->Struct_fields[i].1)
                    },
                    Err(e) => exists|i: int|
                        {
                            &&& 0 <= i < fields.len()
                            &&& self.decode_field(op, #[trigger] fields[i], (depth - 1) as nat)
                                == Err::<Value, Fault>(e)
                            &&& forall|j: int|
                                0 <= j < i ==> self.decode_field(
                                    op,
                                    #[trigger] fields[j],
                                    (depth - 1) as nat,
                                ) is Ok
                        },
                }
            }),
    {
        let fields = self.types.types@[op.ty as int]->fields@;
        self.lemma_fields_decode_one_by_one(op, fields, (depth - 1) as nat);
    }

    /// A field of a decoded record is found under its name, so long as no
    /// field declared before it bears the same name.
    pub proof fn lemma_record_field_is_found_by_name(&self, op: Operand, depth: nat, i: int)
        requires
            depth > 0,
            op.ty < self.types.types.len(),
            self.types.types@[op.ty as int] is Struct,
            !self.type_def_ids@.contains_key(self.types.types@[op.ty as int]->def_id),
            self.decode(op, depth) is Ok,
            0 <= i < self.types.types@[op.ty as int]->fields@.len(),
            forall|j: int|
                0 <= j < i ==> (#[trigger] self.types.types@[op.ty as int]->fields@[j]).name@
                    != self.types.types@[op.ty as int]->fields@[i].name@,
        ensures
            ({
                let field = self.types.types@[op.ty as int]->fields@[i];
                &&& self.decode_field(op, field, (depth - 1) as nat) is Ok
                &&& field_of(self.decode(op, depth)->Ok_0, field.name@) == Some(
                    self.decode_field(op, field, (depth - 1) as nat)->Ok_0,
                )
            }),
    {
        let fields = self.types.types@[op.ty as int]->fields@;
        let value = self.decode(op, depth)->Ok_0;
        self.lemma_record_decodes_by_field(op, depth);
        let decoded = value->Struct_fields;
        assert forall|j: int| 0 <= j < i implies (#[trigger] decoded[j]).0 != fields[i].name@ by {
            assert(decoded[j].0 == fields[j].name@);
        }
        assert(decoded[i].0 == fields[i].name@);
        lemma_find_named_first(decoded, fields[i].name@, i, 0);
    }

    /// The elements of a sequence decode one by one: where they decode at
    /// all, there are exactly `count` values, in index order, and value `i`
    /// is what element `i` decodes to. Where they do not, the fault is that
    /// of the first element that faults.
    pub proof fn lemma_elements_decode_one_by_one(&self, first: Operand, count: nat, depth: nat)
        ensures
            match self.decode_elements(first, count, depth) {
                Ok(items) => {
                    &&& items.len() == count
                    &&& forall|i: int|
                        0 <= i < count ==> self.decode_element(first, i as nat, depth) == Ok::<
                            Value,
                            Fault,
                        >(#[trigger] items[i])
                },
                Err(e) => exists|i: nat|
                    {
                        &&& i < count
                        &&& #[trigger] self.decode_element(first, i, depth) == Err::<Value, Fault>(e)
                        &&& forall|j: nat|
                            j < i ==> (#[trigger] self.decode_element(first, j, depth)) is Ok
                    },
            },
        decreases count,
    {
        if count > 0 {
            let fewer = (count - 1) as nat;
            self.lemma_elements_decode_one_by_one(first, fewer, depth);
            match self.decode_elements(first, fewer, depth) {
                Ok(front) => {
                    assert forall|j: nat| j < fewer implies (#[trigger] self.decode_element(
                        first,
                        j,
                        depth,
                    )) is Ok by {
                        assert(self.decode_element(first, j as int as nat, depth) == Ok::<
                            Value,
                            Fault,
                        >(front[j as int]));
                    }
                    match self.decode_elements(first, count, depth) {
                        Ok(items) => {
                            assert forall|i: int| 0 <= i < count implies self.decode_element(
                                first,
                                i as nat,
                                depth,
                            ) == Ok::<Value, Fault>(#[trigger] items[i]) by {
                                if i < fewer {
                                    assert(items[i] == front[i]);
                                }
                            }
                        },
                        Err(e) => {
                            assert(self.decode_element(first, fewer, depth) == Err::<Value, Fault>(e));
                        },
                    }
                },
                Err(_) => {},
            }
        }
    }

    /// A growable sequence of `count` elements whose storage can be reached
    /// decodes to an array of exactly `count` values in index order; one
    /// whose storage cannot be reached decodes to an array that holds a
    /// single `Unallocated`, and not to an empty array.
    pub proof fn lemma_sequence_decodes_by_element(&self, op: Operand, depth: nat, count: u64)
        requires
            depth > 1,
            op.ty < self.types.types.len(),
            self.types.types@[op.ty as int] is Struct,
            self.type_def_ids@.contains_key(self.types.types@[op.ty as int]->def_id),
            self.type_def_ids@[self.types.types@[op.ty as int]->def_id] == growable_sequence_path(),
            self.field_spec(op, "len"@) is Ok,
            self.decode(self.field_spec(op, "len"@)->Ok_0, (depth - 1) as nat) == Ok::<Value, Fault>(
                Value::Uint(count),
            ),
            self.field_spec(op, "buf"@) is Ok,
            self.storage_handle(self.field_spec(op, "buf"@)->Ok_0) is Ok,
            self.storage_handle(self.field_spec(op, "buf"@)->Ok_0)->Ok_0.ty
                < self.types.types.len(),
            self.types.types@[self.storage_handle(
                self.field_spec(op, "buf"@)->Ok_0,
            )->Ok_0.ty as int] is Pointer,
        ensures
            ({
                let handle = self.storage_handle(self.field_spec(op, "buf"@)->Ok_0)->Ok_0;
                let pointee = self.types.types@[handle.ty as int]->pointee;
                match self.deref_spec(handle, pointee) {
                    None => self.decode(op, depth) == Ok::<Value, Fault>(
                        Value::Array(seq![Value::Unallocated]),
                    ),
                    Some(first) => match self.decode(op, depth) {
                        Ok(value) => {
                            &&& value is Array
                            &&& value->Array_0.len() == count
                            &&& forall|i: int|
                                0 <= i < count ==> self.decode_element(
                                    first,
                                    i as nat,
                                    (depth - 1) as nat,
                                ) == Ok::<Value, Fault>(#[trigger] value->Array_0[i])
                        },
                        Err(e) => exists|i: nat|
                            {
                                &&& i < count
                                &&& #[trigger] self.decode_element(first, i, (depth - 1) as nat)
                                    == Err::<Value, Fault>(e)
                                &&& forall|j: nat|
                                    j < i ==> (#[trigger] self.decode_element(
                                        first,
                                        j,
                                        (depth - 1) as nat,
                                    )) is Ok
                            },
                    },
                }
            }),
    {
        let inner = (depth - 1) as nat;
        let buf = self.field_spec(op, "buf"@)->Ok_0;
        let handle = self.storage_handle(buf)->Ok_0;
        let pointee = self.types.types@[handle.ty as int]->pointee;
        assert(self.decode(op, depth) == self.decode_sequence(op, inner));
        assert(self.decode_sequence(op, inner) == match self.decode_storage(
            buf,
            count as nat,
            inner,
        ) {
            Ok(items) => Ok::<Value, Fault>(Value::Array(items)),
            Err(e) => Err(e),
        });
        match self.deref_spec(handle, pointee) {
            None => {
                assert(self.decode_storage(buf, count as nat, inner) == Ok::<Seq<Value>, Fault>(
                    seq![Value::Unallocated],
                ));
            },
            Some(first) => {
                assert(self.decode_storage(buf, count as nat, inner) == self.decode_elements(
                    first,
                    count as nat,
                    inner,
                ));
                self.lemma_elements_decode_one_by_one(first, count as nat, inner);
            },
        }
    }

    /// A pointer that cannot be followed, be it dangling, freed or not yet
    /// set, decodes to `Unallocated` and raises no fault.
    pub proof fn lemma_dangling_pointer_is_unallocated(&self, op: Operand, depth: nat)
        requires
            depth > 0,
            op.ty < self.types.types.len(),
            self.types.types@[op.ty as int] is Pointer,
            self.deref_spec(op, self.types.types@[op.ty as int]->pointee) is None,
        ensures
            self.decode(op, depth) == Ok::<Value, Fault>(Value::Unallocated),
    {
    }

    /// A pointer does not lead anywhere if the address it holds lies in no
    /// live allocation.
    pub proof fn lemma_pointer_into_dead_memory(&self, op: Operand, bytes: Seq<u8>)
        requires
            op.ty < self.types.types.len(),
            self.types.types@[op.ty as int] is Pointer,
            !self.types.is_text(self.types.types@[op.ty as int]->pointee),
            self.memory.read_spec(op.addr, self.types.pointer_width.bytes_spec()) == Ok::<
                Seq<u8>,
                Fault,
            >(bytes),
            forall|i: int|
                0 <= i < self.memory.allocations.len() ==> !(
                #[trigger] self.memory.allocations@[i]).covers(
                    le_value(bytes) as u64,
                    self.types.size_of_spec(self.types.types@[op.ty as int]->pointee),
                ),
        ensures
            self.deref_spec(op, self.types.types@[op.ty as int]->pointee) is None,
    {
        crate::memory::lemma_first_covering(
            self.memory.allocations@,
            le_value(bytes) as u64,
            self.types.size_of_spec(self.types.types@[op.ty as int]->pointee),
            0,
        );
    }
}

} // verus!
