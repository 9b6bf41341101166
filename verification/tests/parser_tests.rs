use shadey::parser::adjustment_for_safe_insert;
use shadey::parser::arguments;
use shadey::parser::parse_options;
use shadey::parser::parse_struct_named;
use shadey::parser::shader_option;
use shadey::parser::structslot_option;
use shadey::parser::AddressMode;
use shadey::parser::ParseError;
use shadey::parser::ShaderOptions;
use shadey::wgsl::PType;
use shadey::wgsl::StructSlotOptions;
use shadey::wgsl::TType;

#[test]
fn parses_a_gui_struct() {
    let source = "GuiControlled {\r\n    brightness: f32; // range(min=0.0, max=1.0)\r\n    tint: vec3<f32>;\r\n}";
    let slots = parse_struct_named(source, "GuiControlled").unwrap();
    assert_eq!(slots.len(), 2);
    assert_eq!(slots[0].identifier, "brightness");
    assert_eq!(slots[0].typed, TType::Scalar(PType::F32));
    assert_eq!(
        slots[0].options,
        Some(StructSlotOptions::Slider {
            min: "0.0".to_string(),
            max: "1.0".to_string()
        })
    );
    assert_eq!(slots[1].identifier, "tint");
    assert_eq!(slots[1].typed, TType::Vector(3, PType::F32));
    assert_eq!(slots[1].options, None);
}

#[test]
fn parses_every_type_form() {
    let source = "T {a: bool; b: i64; c: u64; d: f64; e: mat3x4<f16>; f: array<vec2<u32>,12>;}";
    let slots = parse_struct_named(source, "T").unwrap();
    assert_eq!(slots.len(), 6);
    assert_eq!(slots[0].typed, TType::Scalar(PType::Bool));
    assert_eq!(slots[1].typed, TType::Scalar(PType::I64));
    assert_eq!(slots[2].typed, TType::Scalar(PType::U64));
    assert_eq!(slots[3].typed, TType::Scalar(PType::F64));
    assert_eq!(
        slots[4].typed,
        TType::Matrix {
            m: 3,
            n: 4,
            typed: PType::F16
        }
    );
    assert_eq!(
        slots[5].typed,
        TType::Array(12, Box::new(TType::Vector(2, PType::U32)))
    );
}

#[test]
fn missing_struct_is_reported() {
    assert_eq!(
        parse_struct_named("nothing here", "GuiControlled"),
        Err(ParseError::StructNotFound)
    );
}

#[test]
fn malformed_field_is_reported_with_position() {
    let source = "S {a: qqq;}";
    match parse_struct_named(source, "S") {
        Err(ParseError::Syntax { pos }) => {
            // The error anchors at the first unread character of the body.
            assert_eq!(pos, 3);
        }
        other => panic!("expected a syntax error, got {:?}", other),
    }
}

#[test]
fn missing_closing_brace_is_reported() {
    let source = "S {a: f32;";
    assert!(matches!(parse_struct_named(source, "S"), Err(ParseError::Syntax { .. })));
}

#[test]
fn empty_body_yields_no_slots() {
    assert_eq!(parse_struct_named("S {  }", "S").unwrap(), vec![]);
}

#[test]
fn adjustment_lands_after_the_closing_brace() {
    let source = "GuiControlled {x: f32;} more";
    // The brace closes at offset 22; the insertion point sits 4 past it.
    assert_eq!(adjustment_for_safe_insert(source, "GuiControlled"), Some(26));
    assert_eq!(adjustment_for_safe_insert(source, "Absent"), None);
    assert_eq!(adjustment_for_safe_insert("GuiControlled x", "GuiControlled"), None);
}

#[test]
fn arguments_read_keys_and_values() {
    let (next, pairs) = arguments("(min=0.0, max=1.0)").unwrap();
    assert_eq!(next, 18);
    assert_eq!(
        pairs,
        vec![
            ("min".to_string(), "0.0".to_string()),
            ("max".to_string(), "1.0".to_string())
        ]
    );
    assert!(arguments("min=0.0").is_none());
}

#[test]
fn hint_needs_floats_on_both_ends() {
    assert_eq!(
        structslot_option("range(min=-1.5, max=2e3)"),
        Some(StructSlotOptions::Slider {
            min: "-1.5".to_string(),
            max: "2e3".to_string()
        })
    );
    assert_eq!(structslot_option("range(min=abc, max=1.0)"), None);
    assert_eq!(structslot_option("range(min=0.0)"), None);
    assert_eq!(structslot_option("slider(min=0.0, max=1.0)"), None);
    assert_eq!(structslot_option(""), None);
}

#[test]
fn shader_option_reads_textures() {
    let (_, opt) = shader_option("texture(path=a.png, name=bricks, u_mode=Repeat)").unwrap();
    match &opt {
        ShaderOptions::Texture {
            path,
            name,
            u_addr_mode,
            v_addr_mode,
            w_addr_mode,
        } => {
            assert_eq!(path, "a.png");
            assert_eq!(name, "bricks");
            assert_eq!(*u_addr_mode, Some(AddressMode::Repeat));
            assert_eq!(*v_addr_mode, None);
            assert_eq!(*w_addr_mode, None);
        }
        other => panic!("expected a texture option, got {:?}", other),
    }
    assert!(opt.is_texture_opt());

    let (_, something) = shader_option("something").unwrap();
    assert!(!something.is_texture_opt());
}

#[test]
fn address_modes_ignore_case() {
    let texture_line = "texture(path=p, name=n, u_mode=CLAMPTOEDGE, v_mode=clamptoborder, w_mode=MirrorRepeat)";
    let (_, opt) = shader_option(texture_line).unwrap();
    match opt {
        ShaderOptions::Texture {
            u_addr_mode,
            v_addr_mode,
            w_addr_mode,
            ..
        } => {
            assert_eq!(u_addr_mode, Some(AddressMode::ClampToEdge));
            assert_eq!(v_addr_mode, Some(AddressMode::ClampToBorder));
            assert_eq!(w_addr_mode, Some(AddressMode::MirrorRepeat));
        }
        other => panic!("expected a texture option, got {:?}", other),
    }
}

#[test]
fn parse_options_needs_the_marker() {
    assert_eq!(
        parse_options("no options at all"),
        Err(ParseError::MarkerNotFound)
    );

    let source = "// Shadey\r\n// texture(path=a.png, name=wall)\r\n// something\r\nrest";
    let opts = parse_options(source).unwrap();
    assert_eq!(opts.len(), 2);
    assert!(opts[0].is_texture_opt());
    assert_eq!(opts[1], ShaderOptions::Something);
}

#[test]
fn option_lines_stop_at_the_first_non_option() {
    let source = "// Shadey\r\n// something\r\n// unrelated comment\r\n// something\r\n";
    let opts = parse_options(source).unwrap();
    assert_eq!(opts, vec![ShaderOptions::Something]);
}

#[test]
fn texture_constructor_fills_defaults() {
    let opt = ShaderOptions::texture("img/wall.png", "wall");
    match opt {
        ShaderOptions::Texture {
            path,
            name,
            u_addr_mode,
            v_addr_mode,
            w_addr_mode,
        } => {
            assert_eq!(path, "img/wall.png");
            assert_eq!(name, "wall");
            assert_eq!(u_addr_mode, None);
            assert_eq!(v_addr_mode, None);
            assert_eq!(w_addr_mode, None);
        }
        other => panic!("expected a texture option, got {:?}", other),
    }
}

#[test]
fn parsing_is_repeatable() {
    let source = "GuiControlled {\r\n    level: u32;\r\n    tint: vec4<f32>;\r\n}";
    let first = parse_struct_named(source, "GuiControlled").unwrap();
    let second = parse_struct_named(source, "GuiControlled").unwrap();
    assert_eq!(first, second);
    for i in 1..=first.len() {
        assert_eq!(
            shadey::wgsl::offset_of_member(&first, i),
            shadey::wgsl::offset_of_member(&second, i)
        );
    }
}

#[test]
fn hint_endpoints_follow_the_float_grammar() {
    // The grammar of float literals: optional sign, digits with an optional
    // point, an optional exponent, or the special words.
    assert!(structslot_option("range(min=inf, max=NaN)").is_some());
    assert!(structslot_option("range(min=-INFINITY, max=+1.)").is_some());
    assert!(structslot_option("range(min=.5, max=1e-3)").is_some());
    assert!(structslot_option("range(min=1e, max=2.0)").is_none());
    assert!(structslot_option("range(min=., max=2.0)").is_none());
    assert!(structslot_option("range(min=--1, max=2.0)").is_none());
}

#[test]
fn identifiers_start_with_a_letter_or_underscore() {
    let slots = parse_struct_named("S {_x: f32; y2: u32;}", "S").unwrap();
    assert_eq!(slots[0].identifier, "_x");
    assert_eq!(slots[1].identifier, "y2");
    assert!(matches!(
        parse_struct_named("S {9x: f32;}", "S"),
        Err(ParseError::Syntax { .. })
    ));
}
