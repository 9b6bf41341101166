use shadey::parser::parse_struct_named;
use shadey::wgsl::offset_of_member;
use shadey::wgsl::slots_layout_ready;
use shadey::wgsl::PType;
use shadey::wgsl::RuntimeStruct;
use shadey::wgsl::Sized;
use shadey::wgsl::SlotError;
use shadey::wgsl::StructSlot;
use shadey::wgsl::TType;

fn slot(name: &str, typed: TType) -> StructSlot {
    StructSlot {
        identifier: name.to_string(),
        typed,
        options: None,
    }
}

#[test]
fn scalar_then_vec3_layout() {
    // a: f32 sits at 0; b: vec3<f32> aligns to 16; the struct rounds up to 32.
    let slots = vec![
        slot("a", TType::Scalar(PType::F32)),
        slot("b", TType::Vector(3, PType::F32)),
    ];
    assert_eq!(offset_of_member(&slots, 1), 0);
    assert_eq!(offset_of_member(&slots, 2), 16);
    assert_eq!(slots.size(), 32);
}

#[test]
fn std_uniform_end_to_end() {
    let source = "StdUniform { window_size: vec2<u32>; mouse_pos: vec2<u32>; time: f32; toggle_mouse_pos: vec2<u32>; }";
    let slots = parse_struct_named(source, "StdUniform").unwrap();
    assert_eq!(slots.len(), 4);
    assert_eq!(offset_of_member(&slots, 1), 0);
    assert_eq!(offset_of_member(&slots, 2), 8);
    assert_eq!(offset_of_member(&slots, 3), 16);
    // The fourth slot is a vec2<u32> again: its 8-byte alignment pushes it
    // from 20 up to 24.
    assert_eq!(offset_of_member(&slots, 4), 24);
    assert_eq!(slots.size(), 32);
    assert_eq!(slots[0].identifier, "window_size");
    assert_eq!(slots[1].identifier, "mouse_pos");
    assert_eq!(slots[2].identifier, "time");
    assert_eq!(slots[3].identifier, "toggle_mouse_pos");
    assert_eq!(slots[2].typed, TType::Scalar(PType::F32));
}

#[test]
fn new_runtime_struct_is_zeroed() {
    let slots = vec![
        slot("a", TType::Scalar(PType::F32)),
        slot("b", TType::Vector(3, PType::F32)),
    ];
    let rs = RuntimeStruct::new(slots);
    assert_eq!(rs.buffer().len(), 32);
    assert!(rs.buffer().iter().all(|b| *b == 0));
}

#[test]
fn write_then_read_round_trip() {
    let slots = vec![
        slot("a", TType::Scalar(PType::F32)),
        slot("b", TType::Vector(3, PType::F32)),
    ];
    let mut rs = RuntimeStruct::new(slots);
    let value = 1.25f32.to_le_bytes();
    rs.write_to_slot(1, &value).unwrap();
    assert_eq!(rs.read_from_slot(1).unwrap(), value.to_vec());

    let tint = [0.5f32, 0.25f32, 1.0f32];
    let mut bytes = Vec::new();
    for c in tint.iter() {
        bytes.extend_from_slice(&c.to_le_bytes());
    }
    rs.write_to_slot(2, &bytes).unwrap();
    assert_eq!(rs.read_from_slot(2).unwrap(), bytes);
    // The first slot is untouched by the second write.
    assert_eq!(rs.read_from_slot(1).unwrap(), value.to_vec());
}

#[test]
fn checked_access_reports_errors() {
    let slots = vec![slot("a", TType::Scalar(PType::U32))];
    let mut rs = RuntimeStruct::new(slots);
    assert_eq!(rs.write_to_slot(0, &[0, 0, 0, 0]), Err(SlotError::NoSuchSlot));
    assert_eq!(rs.write_to_slot(2, &[0, 0, 0, 0]), Err(SlotError::NoSuchSlot));
    assert_eq!(rs.write_to_slot(1, &[1, 2]), Err(SlotError::SizeMismatch));
    assert_eq!(rs.read_from_slot(2), Err(SlotError::NoSuchSlot));
    // A failed write leaves the buffer untouched.
    assert!(rs.buffer().iter().all(|b| *b == 0));
}

#[test]
fn slot_numbers_are_one_based() {
    let slots = vec![
        slot("window_size", TType::Vector(2, PType::U32)),
        slot("mouse_pos", TType::Vector(2, PType::U32)),
        slot("time", TType::Scalar(PType::F32)),
    ];
    let rs = RuntimeStruct::new(slots);
    assert_eq!(rs.get_slot_number("window_size"), Some(1));
    assert_eq!(rs.get_slot_number("mouse_pos"), Some(2));
    assert_eq!(rs.get_slot_number("time"), Some(3));
    assert_eq!(rs.get_slot_number("absent"), None);
}

#[test]
fn reload_with_identical_slots_keeps_values() {
    let mk = || {
        vec![
            slot("a", TType::Scalar(PType::F32)),
            slot("b", TType::Vector(3, PType::F32)),
        ]
    };
    let mut rs = RuntimeStruct::new(mk());
    let value = 7.5f32.to_le_bytes();
    rs.write_to_slot(1, &value).unwrap();
    let rs = rs.reload(mk());
    assert_eq!(rs.read_from_slot(1).unwrap(), value.to_vec());
}

#[test]
fn reload_with_different_slots_resets() {
    let mut rs = RuntimeStruct::new(vec![slot("a", TType::Scalar(PType::F32))]);
    rs.write_to_slot(1, &3.0f32.to_le_bytes()).unwrap();
    let rs = rs.reload(vec![
        slot("a", TType::Scalar(PType::F32)),
        slot("b", TType::Vector(2, PType::U32)),
    ]);
    assert_eq!(rs.buffer().len(), 16);
    assert!(rs.buffer().iter().all(|b| *b == 0));
}

#[test]
fn reload_ignores_hint_changes() {
    // Same identifiers and types, different hint: structurally identical,
    // so the buffer survives.
    let mut rs = RuntimeStruct::new(vec![slot("a", TType::Scalar(PType::F32))]);
    rs.write_to_slot(1, &2.0f32.to_le_bytes()).unwrap();
    let hinted = vec![StructSlot {
        identifier: "a".to_string(),
        typed: TType::Scalar(PType::F32),
        options: Some(shadey::wgsl::StructSlotOptions::Slider {
            min: "0.0".to_string(),
            max: "1.0".to_string(),
        }),
    }];
    let rs = rs.reload(hinted);
    assert_eq!(rs.read_from_slot(1).unwrap(), 2.0f32.to_le_bytes().to_vec());
}

#[test]
fn layout_readiness_is_decidable() {
    assert!(slots_layout_ready(&vec![slot("a", TType::Scalar(PType::F32))]));
    assert!(!slots_layout_ready(&vec![]));
    // Kinds that are illegal inside a uniform block have no alignment.
    assert!(!slots_layout_ready(&vec![slot("a", TType::Scalar(PType::I64))]));
    assert!(!slots_layout_ready(&vec![slot("a", TType::Scalar(PType::Bool))]));
    // A gigantic array cannot be laid out within the machine word.
    assert!(!slots_layout_ready(&vec![slot(
        "a",
        TType::Array(usize::MAX, Box::new(TType::Vector(4, PType::F32)))
    )]));
}
