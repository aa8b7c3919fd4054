use situ::decode::Decoder;
use situ::fault::Fault;
use situ::layout::{FieldDef, FloatWidth, IntWidth, PointerWidth, TypeKind, TypeTable};
use situ::memory::{Allocation, Memory, Operand};
use situ::type_ids::TypeDefIds;
use situ::value::MValue;

const DEPTH: usize = 16;

fn written(base: u64, bytes: &[u8]) -> Allocation {
    Allocation { base, cells: bytes.iter().map(|b| Some(*b)).collect(), live: true }
}

fn memory_of(allocations: Vec<Allocation>) -> Memory {
    Memory { allocations }
}

fn table(types: Vec<TypeKind>) -> TypeTable {
    TypeTable { pointer_width: PointerWidth::P64, types }
}

fn no_ids() -> TypeDefIds {
    TypeDefIds::new(Vec::new())
}

fn field(name: &str, ty: usize, offset: u64) -> FieldDef {
    FieldDef { name: name.to_string(), ty, offset }
}

fn at(ty: usize, addr: u64) -> Operand {
    Operand { ty, addr, len: 0 }
}

fn decode_one(kind: TypeKind, bytes: &[u8]) -> Result<MValue, Fault> {
    let types = table(vec![kind]);
    let ids = no_ids();
    let memory = memory_of(vec![written(0x1000, bytes)]);
    let decoder = Decoder { types: &types, type_def_ids: &ids, memory: &memory };
    decoder.read(&at(0, 0x1000), DEPTH)
}

/// The types of a growable sequence of 32-bit integers, as the standard
/// library lays it out: the sequence is type 6.
fn sequence_types() -> Vec<TypeKind> {
    vec![
        TypeKind::Int(IntWidth::W32),
        TypeKind::Uint(IntWidth::Pointer),
        TypeKind::Pointer { pointee: 0 },
        TypeKind::Struct {
            def_id: 1,
            name: "NonNull".to_string(),
            fields: vec![field("pointer", 2, 0)],
            size: 8,
        },
        TypeKind::Struct {
            def_id: 2,
            name: "Unique".to_string(),
            fields: vec![field("pointer", 3, 0)],
            size: 8,
        },
        TypeKind::Struct {
            def_id: 3,
            name: "RawVec".to_string(),
            fields: vec![field("ptr", 4, 0), field("cap", 1, 8)],
            size: 16,
        },
        TypeKind::Struct {
            def_id: 100,
            name: "Vec".to_string(),
            fields: vec![field("buf", 5, 0), field("len", 1, 16)],
            size: 24,
        },
    ]
}

fn sequence_ids() -> TypeDefIds {
    TypeDefIds::new(vec![(100, "std::vec::Vec".to_string())])
}

fn sequence_header(storage: u64, capacity: u64, len: u64) -> Vec<u8> {
    let mut bytes = Vec::new();
    bytes.extend_from_slice(&storage.to_le_bytes());
    bytes.extend_from_slice(&capacity.to_le_bytes());
    bytes.extend_from_slice(&len.to_le_bytes());
    bytes
}

#[test]
fn unsigned_boundary_values_read_back() {
    assert_eq!(decode_one(TypeKind::Uint(IntWidth::W8), &u8::MAX.to_le_bytes()), Ok(MValue::Uint(255)));
    assert_eq!(
        decode_one(TypeKind::Uint(IntWidth::W16), &u16::MAX.to_le_bytes()),
        Ok(MValue::Uint(65535))
    );
    assert_eq!(
        decode_one(TypeKind::Uint(IntWidth::W32), &u32::MAX.to_le_bytes()),
        Ok(MValue::Uint(4294967295))
    );
    assert_eq!(
        decode_one(TypeKind::Uint(IntWidth::W64), &u64::MAX.to_le_bytes()),
        Ok(MValue::Uint(u64::MAX))
    );
    assert_eq!(decode_one(TypeKind::Uint(IntWidth::W8), &[0]), Ok(MValue::Uint(0)));
    assert_eq!(
        decode_one(TypeKind::Uint(IntWidth::Pointer), &0x0102_0304_0506_0708u64.to_le_bytes()),
        Ok(MValue::Uint(0x0102_0304_0506_0708))
    );
}

#[test]
fn signed_boundary_values_read_back() {
    assert_eq!(decode_one(TypeKind::Int(IntWidth::W8), &i8::MIN.to_le_bytes()), Ok(MValue::Int(-128)));
    assert_eq!(decode_one(TypeKind::Int(IntWidth::W8), &i8::MAX.to_le_bytes()), Ok(MValue::Int(127)));
    assert_eq!(decode_one(TypeKind::Int(IntWidth::W8), &(-1i8).to_le_bytes()), Ok(MValue::Int(-1)));
    assert_eq!(
        decode_one(TypeKind::Int(IntWidth::W16), &i16::MIN.to_le_bytes()),
        Ok(MValue::Int(-32768))
    );
    assert_eq!(
        decode_one(TypeKind::Int(IntWidth::W32), &i32::MIN.to_le_bytes()),
        Ok(MValue::Int(-2147483648))
    );
    assert_eq!(
        decode_one(TypeKind::Int(IntWidth::W32), &i32::MAX.to_le_bytes()),
        Ok(MValue::Int(2147483647))
    );
    assert_eq!(
        decode_one(TypeKind::Int(IntWidth::W64), &i64::MIN.to_le_bytes()),
        Ok(MValue::Int(i64::MIN))
    );
    assert_eq!(
        decode_one(TypeKind::Int(IntWidth::W64), &i64::MAX.to_le_bytes()),
        Ok(MValue::Int(i64::MAX))
    );
    assert_eq!(
        decode_one(TypeKind::Int(IntWidth::Pointer), &(-5isize).to_le_bytes()),
        Ok(MValue::Int(-5))
    );
}

#[test]
fn wide_integers_keep_their_low_64_bits() {
    let wide: u128 = (7u128 << 64) | 0x1122_3344_5566_7788;
    assert_eq!(
        decode_one(TypeKind::Uint(IntWidth::W128), &wide.to_le_bytes()),
        Ok(MValue::Uint(0x1122_3344_5566_7788))
    );
    assert_eq!(
        decode_one(TypeKind::Int(IntWidth::W128), &(-2i128).to_le_bytes()),
        Ok(MValue::Int(-2))
    );
    assert_eq!(
        decode_one(TypeKind::Uint(IntWidth::W128), &(1u128 << 64).to_le_bytes()),
        Ok(MValue::Uint(0))
    );
}

#[test]
fn narrow_pointer_width_is_respected() {
    let types = TypeTable {
        pointer_width: PointerWidth::P32,
        types: vec![TypeKind::Uint(IntWidth::Pointer), TypeKind::Int(IntWidth::Pointer)],
    };
    let ids = no_ids();
    let memory = memory_of(vec![written(0x10, &[0xff, 0xff, 0xff, 0xff, 0x55, 0x55])]);
    let decoder = Decoder { types: &types, type_def_ids: &ids, memory: &memory };
    assert_eq!(decoder.read(&at(0, 0x10), DEPTH), Ok(MValue::Uint(0xffff_ffff)));
    assert_eq!(decoder.read(&at(1, 0x10), DEPTH), Ok(MValue::Int(-1)));
    let narrow = TypeTable {
        pointer_width: PointerWidth::P16,
        types: vec![TypeKind::Uint(IntWidth::Pointer)],
    };
    let decoder = Decoder { types: &narrow, type_def_ids: &ids, memory: &memory };
    assert_eq!(decoder.read(&at(0, 0x14), DEPTH), Ok(MValue::Uint(0x5555)));
}

#[test]
fn booleans_read_back() {
    assert_eq!(decode_one(TypeKind::Bool, &[0]), Ok(MValue::Bool(false)));
    assert_eq!(decode_one(TypeKind::Bool, &[1]), Ok(MValue::Bool(true)));
}

#[test]
fn a_boolean_must_be_zero_or_one() {
    assert_eq!(decode_one(TypeKind::Bool, &[2]), Err(Fault::InvalidBool));
    assert_eq!(decode_one(TypeKind::Bool, &[255]), Err(Fault::InvalidBool));
}

#[test]
fn characters_read_back() {
    assert_eq!(decode_one(TypeKind::Char, &('a' as u32).to_le_bytes()), Ok(MValue::Char("a".to_string())));
    assert_eq!(
        decode_one(TypeKind::Char, &('\u{10FFFF}' as u32).to_le_bytes()),
        Ok(MValue::Char("\u{10FFFF}".to_string()))
    );
    assert_eq!(
        decode_one(TypeKind::Char, &('é' as u32).to_le_bytes()),
        Ok(MValue::Char("é".to_string()))
    );
    assert_eq!(decode_one(TypeKind::Char, &0u32.to_le_bytes()), Ok(MValue::Char("\0".to_string())));
}

#[test]
fn a_character_must_be_a_scalar_value() {
    assert_eq!(decode_one(TypeKind::Char, &0xD800u32.to_le_bytes()), Err(Fault::InvalidChar));
    assert_eq!(decode_one(TypeKind::Char, &0xDFFFu32.to_le_bytes()), Err(Fault::InvalidChar));
    assert_eq!(decode_one(TypeKind::Char, &0x110000u32.to_le_bytes()), Err(Fault::InvalidChar));
    assert_eq!(
        decode_one(TypeKind::Char, &0xD7FFu32.to_le_bytes()),
        Ok(MValue::Char("\u{D7FF}".to_string()))
    );
    assert_eq!(
        decode_one(TypeKind::Char, &0xE000u32.to_le_bytes()),
        Ok(MValue::Char("\u{E000}".to_string()))
    );
}

#[test]
fn doubles_keep_their_bits() {
    for value in [0.0f64, -0.0, 1.5, -2.25, f64::MAX, f64::MIN_POSITIVE, f64::INFINITY] {
        assert_eq!(
            decode_one(TypeKind::Float(FloatWidth::F64), &value.to_le_bytes()),
            Ok(MValue::Float(value.to_bits()))
        );
    }
}

#[test]
fn singles_are_widened() {
    for value in [0.0f32, -0.0, 1.0, 0.1, -3.75, f32::MAX, f32::MIN_POSITIVE, f32::INFINITY, 1.0e-40] {
        assert_eq!(
            decode_one(TypeKind::Float(FloatWidth::F32), &value.to_le_bytes()),
            Ok(MValue::Float((value as f64).to_bits()))
        );
    }
}

#[test]
fn unwritten_bytes_fault() {
    let types = table(vec![TypeKind::Uint(IntWidth::W32)]);
    let ids = no_ids();
    let memory = memory_of(vec![Allocation {
        base: 0x20,
        cells: vec![Some(1), Some(2), None, Some(4)],
        live: true,
    }]);
    let decoder = Decoder { types: &types, type_def_ids: &ids, memory: &memory };
    assert_eq!(decoder.read(&at(0, 0x20), DEPTH), Err(Fault::Uninitialized));
}

#[test]
fn an_operand_outside_memory_faults() {
    let types = table(vec![TypeKind::Uint(IntWidth::W32)]);
    let ids = no_ids();
    let memory = memory_of(vec![written(0x20, &[1, 2, 3, 4])]);
    let decoder = Decoder { types: &types, type_def_ids: &ids, memory: &memory };
    assert_eq!(decoder.read(&at(0, 0x21), DEPTH), Err(Fault::OutOfBounds));
    assert_eq!(decoder.read(&at(0, 0x1f), DEPTH), Err(Fault::OutOfBounds));
    assert_eq!(decoder.read(&at(0, u64::MAX), DEPTH), Err(Fault::OutOfBounds));
    assert_eq!(decoder.read(&at(0, 0x20), DEPTH), Ok(MValue::Uint(0x04030201)));
}

#[test]
fn a_freed_allocation_cannot_be_read() {
    let types = table(vec![TypeKind::Uint(IntWidth::W8)]);
    let ids = no_ids();
    let memory = memory_of(vec![Allocation { base: 0x20, cells: vec![Some(9)], live: false }]);
    let decoder = Decoder { types: &types, type_def_ids: &ids, memory: &memory };
    assert_eq!(decoder.read(&at(0, 0x20), DEPTH), Err(Fault::OutOfBounds));
}

#[test]
fn unsupported_types_fault() {
    assert_eq!(decode_one(TypeKind::Other { size: 4 }, &[0, 0, 0, 0]), Err(Fault::UnsupportedType));
    let types = table(vec![TypeKind::Bool]);
    let ids = no_ids();
    let memory = memory_of(vec![written(0, &[1])]);
    let decoder = Decoder { types: &types, type_def_ids: &ids, memory: &memory };
    assert_eq!(decoder.read(&at(5, 0), DEPTH), Err(Fault::UnsupportedType));
}

#[test]
fn a_registered_type_other_than_a_sequence_is_unsupported() {
    let types = table(vec![TypeKind::Struct {
        def_id: 7,
        name: "HashMap".to_string(),
        fields: Vec::new(),
        size: 0,
    }]);
    let ids = TypeDefIds::new(vec![(7, "std::collections::HashMap".to_string())]);
    let memory = memory_of(vec![written(0, &[1])]);
    let decoder = Decoder { types: &types, type_def_ids: &ids, memory: &memory };
    assert_eq!(decoder.read(&at(0, 0), DEPTH), Err(Fault::UnsupportedType));
}

#[test]
fn text_reads_back() {
    let types = table(vec![TypeKind::Str]);
    let ids = no_ids();
    let memory = memory_of(vec![written(0x40, "héllo wörld".as_bytes())]);
    let decoder = Decoder { types: &types, type_def_ids: &ids, memory: &memory };
    let len = "héllo wörld".len() as u64;
    assert_eq!(
        decoder.read(&Operand { ty: 0, addr: 0x40, len }, DEPTH),
        Ok(MValue::String("héllo wörld".to_string()))
    );
    assert_eq!(
        decoder.read(&Operand { ty: 0, addr: 0x40, len: 0 }, DEPTH),
        Ok(MValue::String(String::new()))
    );
}

#[test]
fn text_must_be_utf8() {
    let types = table(vec![TypeKind::Str]);
    let ids = no_ids();
    let memory = memory_of(vec![written(0x40, &[0x68, 0xff, 0x69])]);
    let decoder = Decoder { types: &types, type_def_ids: &ids, memory: &memory };
    assert_eq!(decoder.read(&Operand { ty: 0, addr: 0x40, len: 3 }, DEPTH), Err(Fault::InvalidText));
    assert_eq!(decoder.read(&Operand { ty: 0, addr: 0x40, len: 4 }, DEPTH), Err(Fault::OutOfBounds));
}

#[test]
fn a_reference_to_text_carries_its_length() {
    let types = table(vec![TypeKind::Str, TypeKind::Pointer { pointee: 0 }]);
    let ids = no_ids();
    let mut pointer = Vec::new();
    pointer.extend_from_slice(&0x41u64.to_le_bytes());
    pointer.extend_from_slice(&3u64.to_le_bytes());
    let memory = memory_of(vec![written(0x40, b"tracer"), written(0x100, &pointer)]);
    let decoder = Decoder { types: &types, type_def_ids: &ids, memory: &memory };
    assert_eq!(types.size_of(1), 16);
    assert_eq!(decoder.read(&at(1, 0x100), DEPTH), Ok(MValue::String("rac".to_string())));
}

#[test]
fn a_record_decodes_field_by_field() {
    let types = table(vec![
        TypeKind::Int(IntWidth::W32),
        TypeKind::Bool,
        TypeKind::Struct {
            def_id: 9,
            name: "Point".to_string(),
            fields: vec![field("x", 0, 0), field("y", 0, 4), field("visible", 1, 8)],
            size: 12,
        },
        TypeKind::Struct {
            def_id: 10,
            name: "Line".to_string(),
            fields: vec![field("to", 2, 12), field("from", 2, 0)],
            size: 24,
        },
    ]);
    let ids = no_ids();
    let mut bytes = Vec::new();
    for (x, y, visible) in [(3i32, -4i32, 1u8), (10, 20, 0)] {
        bytes.extend_from_slice(&x.to_le_bytes());
        bytes.extend_from_slice(&y.to_le_bytes());
        bytes.extend_from_slice(&[visible, 0, 0, 0]);
    }
    let memory = memory_of(vec![written(0x200, &bytes)]);
    let decoder = Decoder { types: &types, type_def_ids: &ids, memory: &memory };
    let first = MValue::Struct {
        name: "Point".to_string(),
        fields: vec![
            ("x".to_string(), MValue::Int(3)),
            ("y".to_string(), MValue::Int(-4)),
            ("visible".to_string(), MValue::Bool(true)),
        ],
    };
    let second = MValue::Struct {
        name: "Point".to_string(),
        fields: vec![
            ("x".to_string(), MValue::Int(10)),
            ("y".to_string(), MValue::Int(20)),
            ("visible".to_string(), MValue::Bool(false)),
        ],
    };
    assert_eq!(decoder.read(&at(2, 0x200), DEPTH), Ok(first.clone()));
    assert_eq!(
        decoder.read(&at(3, 0x200), DEPTH),
        Ok(MValue::Struct {
            name: "Line".to_string(),
            fields: vec![("to".to_string(), second), ("from".to_string(), first)],
        })
    );
}

#[test]
fn a_record_faults_with_its_first_faulting_field() {
    let types = table(vec![
        TypeKind::Bool,
        TypeKind::Other { size: 1 },
        TypeKind::Struct {
            def_id: 9,
            name: "Pair".to_string(),
            fields: vec![field("good", 0, 0), field("bad", 0, 1), field("worse", 1, 2)],
            size: 3,
        },
    ]);
    let ids = no_ids();
    let memory = memory_of(vec![written(0, &[1, 7, 0])]);
    let decoder = Decoder { types: &types, type_def_ids: &ids, memory: &memory };
    assert_eq!(decoder.read(&at(2, 0), DEPTH), Err(Fault::InvalidBool));
}

#[test]
fn an_empty_record_decodes_to_no_fields() {
    let types = table(vec![TypeKind::Struct {
        def_id: 9,
        name: "Unit".to_string(),
        fields: Vec::new(),
        size: 0,
    }]);
    let ids = no_ids();
    let memory = memory_of(Vec::new());
    let decoder = Decoder { types: &types, type_def_ids: &ids, memory: &memory };
    assert_eq!(
        decoder.read(&at(0, 0x999), DEPTH),
        Ok(MValue::Struct { name: "Unit".to_string(), fields: Vec::new() })
    );
}

#[test]
fn a_field_past_the_address_space_is_out_of_bounds() {
    let types = table(vec![
        TypeKind::Bool,
        TypeKind::Struct { def_id: 9, name: "Far".to_string(), fields: vec![field("b", 0, 16)], size: 17 },
    ]);
    let ids = no_ids();
    let memory = memory_of(Vec::new());
    let decoder = Decoder { types: &types, type_def_ids: &ids, memory: &memory };
    assert_eq!(decoder.read(&at(1, u64::MAX - 3), DEPTH), Err(Fault::OutOfBounds));
}

#[test]
fn a_pointer_is_followed() {
    let types = table(vec![TypeKind::Int(IntWidth::W16), TypeKind::Pointer { pointee: 0 }, TypeKind::Pointer { pointee: 1 }]);
    let ids = no_ids();
    let memory = memory_of(vec![
        written(0x300, &(-7i16).to_le_bytes()),
        written(0x400, &0x300u64.to_le_bytes()),
        written(0x500, &0x400u64.to_le_bytes()),
    ]);
    let decoder = Decoder { types: &types, type_def_ids: &ids, memory: &memory };
    assert_eq!(decoder.read(&at(1, 0x400), DEPTH), Ok(MValue::Int(-7)));
    assert_eq!(decoder.read(&at(2, 0x500), DEPTH), Ok(MValue::Int(-7)));
}

#[test]
fn a_dangling_pointer_is_unallocated() {
    let types = table(vec![TypeKind::Int(IntWidth::W32), TypeKind::Pointer { pointee: 0 }]);
    let ids = no_ids();
    let memory = memory_of(vec![
        written(0x400, &0x300u64.to_le_bytes()),
        written(0x408, &0x4u64.to_le_bytes()),
        written(0x410, &0x406u64.to_le_bytes()),
    ]);
    let decoder = Decoder { types: &types, type_def_ids: &ids, memory: &memory };
    assert_eq!(decoder.read(&at(1, 0x400), DEPTH), Ok(MValue::Unallocated));
    assert_eq!(decoder.read(&at(1, 0x408), DEPTH), Ok(MValue::Unallocated));
    // the target starts in one allocation and ends in the next
    assert_eq!(decoder.read(&at(1, 0x410), DEPTH), Ok(MValue::Unallocated));
}

#[test]
fn a_pointer_to_freed_memory_is_unallocated() {
    let types = table(vec![TypeKind::Int(IntWidth::W32), TypeKind::Pointer { pointee: 0 }]);
    let ids = no_ids();
    let mut freed = written(0x300, &5i32.to_le_bytes());
    let pointer = written(0x400, &0x300u64.to_le_bytes());
    let live = memory_of(vec![freed.clone(), pointer.clone()]);
    let decoder = Decoder { types: &types, type_def_ids: &ids, memory: &live };
    assert_eq!(decoder.read(&at(1, 0x400), DEPTH), Ok(MValue::Int(5)));
    freed.live = false;
    let dead = memory_of(vec![freed, pointer]);
    let decoder = Decoder { types: &types, type_def_ids: &ids, memory: &dead };
    assert_eq!(decoder.read(&at(1, 0x400), DEPTH), Ok(MValue::Unallocated));
}

#[test]
fn a_pointer_that_was_never_written_is_unallocated() {
    let types = table(vec![TypeKind::Int(IntWidth::W32), TypeKind::Pointer { pointee: 0 }]);
    let ids = no_ids();
    let memory = memory_of(vec![Allocation { base: 0x400, cells: vec![None; 8], live: true }]);
    let decoder = Decoder { types: &types, type_def_ids: &ids, memory: &memory };
    assert_eq!(decoder.read(&at(1, 0x400), DEPTH), Ok(MValue::Unallocated));
    assert_eq!(decoder.read(&at(1, 0x7000), DEPTH), Ok(MValue::Unallocated));
}

#[test]
fn a_pointer_to_unwritten_memory_still_faults() {
    let types = table(vec![TypeKind::Int(IntWidth::W32), TypeKind::Pointer { pointee: 0 }]);
    let ids = no_ids();
    let memory = memory_of(vec![
        Allocation { base: 0x300, cells: vec![None; 4], live: true },
        written(0x400, &0x300u64.to_le_bytes()),
    ]);
    let decoder = Decoder { types: &types, type_def_ids: &ids, memory: &memory };
    assert_eq!(decoder.read(&at(1, 0x400), DEPTH), Err(Fault::Uninitialized));
}

#[test]
fn a_sequence_decodes_to_its_elements() {
    let types = table(sequence_types());
    let ids = sequence_ids();
    let mut elements = Vec::new();
    for n in [1i32, 2, 3, 99] {
        elements.extend_from_slice(&n.to_le_bytes());
    }
    let memory = memory_of(vec![
        written(0x5000, &elements),
        written(0x100, &sequence_header(0x5000, 4, 3)),
    ]);
    let decoder = Decoder { types: &types, type_def_ids: &ids, memory: &memory };
    assert_eq!(
        decoder.read(&at(6, 0x100), DEPTH),
        Ok(MValue::Array(vec![MValue::Int(1), MValue::Int(2), MValue::Int(3)]))
    );
}

#[test]
fn an_unallocated_sequence_is_a_single_marker() {
    let types = table(sequence_types());
    let ids = sequence_ids();
    let memory = memory_of(vec![written(0x100, &sequence_header(4, 0, 0))]);
    let decoder = Decoder { types: &types, type_def_ids: &ids, memory: &memory };
    assert_eq!(decoder.read(&at(6, 0x100), DEPTH), Ok(MValue::Array(vec![MValue::Unallocated])));
}

#[test]
fn an_allocated_sequence_without_elements_is_empty() {
    let types = table(sequence_types());
    let ids = sequence_ids();
    let memory = memory_of(vec![
        Allocation { base: 0x5000, cells: vec![None; 16], live: true },
        written(0x100, &sequence_header(0x5000, 4, 0)),
    ]);
    let decoder = Decoder { types: &types, type_def_ids: &ids, memory: &memory };
    assert_eq!(decoder.read(&at(6, 0x100), DEPTH), Ok(MValue::Array(Vec::new())));
}

#[test]
fn a_sequence_that_is_not_registered_is_a_record() {
    let types = table(sequence_types());
    let ids = no_ids();
    let memory = memory_of(vec![written(0x100, &sequence_header(4, 0, 2))]);
    let decoder = Decoder { types: &types, type_def_ids: &ids, memory: &memory };
    let handle = MValue::Struct {
        name: "Unique".to_string(),
        fields: vec![(
            "pointer".to_string(),
            MValue::Struct {
                name: "NonNull".to_string(),
                fields: vec![("pointer".to_string(), MValue::Unallocated)],
            },
        )],
    };
    assert_eq!(
        decoder.read(&at(6, 0x100), DEPTH),
        Ok(MValue::Struct {
            name: "Vec".to_string(),
            fields: vec![
                (
                    "buf".to_string(),
                    MValue::Struct {
                        name: "RawVec".to_string(),
                        fields: vec![("ptr".to_string(), handle), ("cap".to_string(), MValue::Uint(0))],
                    },
                ),
                ("len".to_string(), MValue::Uint(2)),
            ],
        })
    );
}

#[test]
fn a_sequence_with_an_unknown_layout_faults() {
    let mut types = sequence_types();
    types[6] = TypeKind::Struct {
        def_id: 100,
        name: "Vec".to_string(),
        fields: vec![field("buf", 5, 0), field("length", 1, 16)],
        size: 24,
    };
    let ids = sequence_ids();
    let memory = memory_of(vec![written(0x100, &sequence_header(4, 0, 0))]);
    let table = table(types);
    let decoder = Decoder { types: &table, type_def_ids: &ids, memory: &memory };
    assert_eq!(decoder.read(&at(6, 0x100), DEPTH), Err(Fault::UnknownLayout));

    let mut types = sequence_types();
    types[6] = TypeKind::Struct {
        def_id: 100,
        name: "Vec".to_string(),
        fields: vec![field("buf", 5, 0), field("len", 0, 16)],
        size: 24,
    };
    let table = TypeTable { pointer_width: PointerWidth::P64, types };
    let decoder = Decoder { types: &table, type_def_ids: &ids, memory: &memory };
    assert_eq!(decoder.read(&at(6, 0x100), DEPTH), Err(Fault::UnknownLayout));

    let mut types = sequence_types();
    types[3] = TypeKind::Struct {
        def_id: 1,
        name: "NonNull".to_string(),
        fields: vec![field("pointer", 1, 0)],
        size: 8,
    };
    let table = TypeTable { pointer_width: PointerWidth::P64, types };
    let decoder = Decoder { types: &table, type_def_ids: &ids, memory: &memory };
    assert_eq!(decoder.read(&at(6, 0x100), DEPTH), Err(Fault::UnknownLayout));
}

#[test]
fn a_sequence_longer_than_its_storage_faults() {
    let types = table(sequence_types());
    let ids = sequence_ids();
    let memory = memory_of(vec![
        written(0x5000, &[1, 0, 0, 0, 2, 0, 0, 0]),
        written(0x100, &sequence_header(0x5000, 2, 3)),
    ]);
    let decoder = Decoder { types: &types, type_def_ids: &ids, memory: &memory };
    assert_eq!(decoder.read(&at(6, 0x100), DEPTH), Err(Fault::OutOfBounds));
}

#[test]
fn depth_is_bounded() {
    // a pointer that points at itself
    let types = table(vec![TypeKind::Pointer { pointee: 0 }]);
    let ids = no_ids();
    let memory = memory_of(vec![written(0x400, &0x400u64.to_le_bytes())]);
    let decoder = Decoder { types: &types, type_def_ids: &ids, memory: &memory };
    assert_eq!(decoder.read(&at(0, 0x400), DEPTH), Err(Fault::DepthExceeded));
    assert_eq!(decoder.read(&at(0, 0x400), 0), Err(Fault::DepthExceeded));

    let types = table(vec![TypeKind::Bool, TypeKind::Pointer { pointee: 0 }]);
    let memory = memory_of(vec![written(0x300, &[1]), written(0x400, &0x300u64.to_le_bytes())]);
    let decoder = Decoder { types: &types, type_def_ids: &ids, memory: &memory };
    assert_eq!(decoder.read(&at(1, 0x400), 1), Err(Fault::DepthExceeded));
    assert_eq!(decoder.read(&at(1, 0x400), 2), Ok(MValue::Bool(true)));
    assert_eq!(decoder.read(&at(0, 0x300), 1), Ok(MValue::Bool(true)));
}

#[test]
fn the_first_allocation_that_holds_a_range_is_read() {
    let memory = memory_of(vec![
        Allocation { base: 0x10, cells: vec![Some(1), Some(2)], live: false },
        written(0x10, &[3, 4]),
        written(0x10, &[5, 6, 7]),
    ]);
    assert_eq!(memory.locate(0x10, 2), Some(1));
    assert_eq!(memory.locate(0x10, 3), Some(2));
    assert_eq!(memory.locate(0x10, 4), None);
    assert_eq!(memory.locate(0x12, 0), Some(1));
    assert_eq!(memory.read(0x11, 1), Ok(vec![4]));
    assert_eq!(memory.read(0x11, 2), Ok(vec![6, 7]));
    assert_eq!(memory.read(0x13, 1), Err(Fault::OutOfBounds));
}

#[test]
fn fields_are_found_by_name() {
    let types = table(sequence_types());
    let ids = no_ids();
    let memory = memory_of(Vec::new());
    let decoder = Decoder { types: &types, type_def_ids: &ids, memory: &memory };
    assert_eq!(decoder.field_by_name(&at(6, 0x100), "len"), Ok(at(1, 0x110)));
    assert_eq!(decoder.field_by_name(&at(5, 0x100), "cap"), Ok(at(1, 0x108)));
    assert_eq!(decoder.field_by_name(&at(6, 0x100), "cap"), Err(Fault::UnknownLayout));
    assert_eq!(decoder.field_by_name(&at(0, 0x100), "len"), Err(Fault::UnknownLayout));
    assert_eq!(decoder.field_by_name(&at(60, 0x100), "len"), Err(Fault::UnknownLayout));
    assert_eq!(decoder.field_by_name(&at(6, u64::MAX), "len"), Err(Fault::OutOfBounds));
}

#[test]
fn equal_values_are_told_from_different_ones() {
    let a = MValue::Array(vec![MValue::Int(1), MValue::Float(0.0f64.to_bits())]);
    let b = MValue::Array(vec![MValue::Int(1), MValue::Float((-0.0f64).to_bits())]);
    let c = MValue::Array(vec![MValue::Int(1), MValue::Float(f64::NAN.to_bits())]);
    assert!(a.same_as(&b));
    assert!(a == b);
    assert!(!c.same_as(&c.clone()));
    assert!(MValue::Uint(1) != MValue::Int(1));
    assert!(MValue::Char("a".to_string()) != MValue::String("a".to_string()));
    assert!(MValue::Unallocated == MValue::Unallocated);
    assert!(MValue::Array(Vec::new()) != MValue::Array(vec![MValue::Unallocated]));
}

#[test]
fn a_single_that_is_no_number_stays_none() {
    for bits in [0x7fc0_0000u32, 0xffc0_0000, 0x7f80_0001, 0x7fa5_5555, 0xff80_0001] {
        let single = f32::from_bits(bits);
        assert!(single.is_nan());
        match decode_one(TypeKind::Float(FloatWidth::F32), &single.to_le_bytes()) {
            Ok(MValue::Float(wide)) => {
                let double = f64::from_bits(wide);
                assert!(double.is_nan());
                assert_eq!(double.is_sign_negative(), single.is_sign_negative());
                assert_eq!(wide & (1 << 51), 1 << 51);
            }
            other => panic!("no float: {:?}", other),
        }
    }
    assert_eq!(
        decode_one(TypeKind::Float(FloatWidth::F32), &f32::NEG_INFINITY.to_le_bytes()),
        Ok(MValue::Float(f64::NEG_INFINITY.to_bits()))
    );
}

#[test]
fn every_subnormal_single_widens_exactly() {
    let mut bits = 1u32;
    while bits < 0x0080_0000 {
        let single = f32::from_bits(bits);
        assert_eq!(situ::scalar::widen_f32(bits), (single as f64).to_bits());
        assert_eq!(
            situ::scalar::widen_f32(bits | 0x8000_0000),
            (-(single as f64)).to_bits()
        );
        bits = bits * 3 + 1;
    }
    for bits in [1u32, 2, 3, 0x007f_ffff, 0x0040_0000, 0x0080_0000, 0x7f7f_ffff, 0x3f80_0001] {
        assert_eq!(situ::scalar::widen_f32(bits), (f32::from_bits(bits) as f64).to_bits());
    }
}

#[test]
fn a_field_of_a_record_is_found_by_its_name() {
    let point = MValue::Struct {
        name: "Point".to_string(),
        fields: vec![
            ("x".to_string(), MValue::Int(1)),
            ("y".to_string(), MValue::Int(2)),
            ("x".to_string(), MValue::Int(3)),
        ],
    };
    assert_eq!(point.field("x"), Some(&MValue::Int(1)));
    assert_eq!(point.field("y"), Some(&MValue::Int(2)));
    assert_eq!(point.field("z"), None);
    assert_eq!(MValue::Int(1).field("x"), None);
    assert_eq!(MValue::Array(vec![MValue::Int(1)]).field("0"), None);
}

#[test]
fn a_copy_of_a_value_equals_it() {
    let value = MValue::Struct {
        name: "Outer".to_string(),
        fields: vec![
            ("list".to_string(), MValue::Array(vec![MValue::Uint(1), MValue::Unallocated])),
            ("text".to_string(), MValue::String("t".to_string())),
            ("flag".to_string(), MValue::Bool(true)),
            ("mark".to_string(), MValue::Char("c".to_string())),
            ("ratio".to_string(), MValue::Float(0.5f64.to_bits())),
        ],
    };
    assert_eq!(value.clone(), value);
    assert!(value.same_as(&value.clone()));
}
