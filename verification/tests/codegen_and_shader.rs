use shadey::shader::ShaderFileBuilder;
use shadey::shader::UniformChoice;
use shadey::shader::GUICONTROLLED_DEF;
use shadey::texture::texture_definition;
use shadey::wgsl::PType;
use shadey::wgsl::StructSlot;
use shadey::wgsl::TType;

#[test]
fn slot_definition_text() {
    let slot = StructSlot {
        identifier: "brightness".to_string(),
        typed: TType::Scalar(PType::F32),
        options: None,
    };
    assert_eq!(
        slot.generate_definition(),
        "fn brightness() -> f32 {return _gui.brightness;}"
    );

    let slot = StructSlot {
        identifier: "tint".to_string(),
        typed: TType::Vector(3, PType::F32),
        options: None,
    };
    assert_eq!(
        slot.generate_definition(),
        "fn tint() -> vec3<f32> {return _gui.tint;}"
    );

    let slot = StructSlot {
        identifier: "warp".to_string(),
        typed: TType::Matrix {
            m: 4,
            n: 2,
            typed: PType::F16,
        },
        options: None,
    };
    assert_eq!(
        slot.generate_definition(),
        "fn warp() -> mat4x2<f16> {return _gui.warp;}"
    );

    let slot = StructSlot {
        identifier: "samples".to_string(),
        typed: TType::Array(12, Box::new(TType::Vector(2, PType::U32))),
        options: None,
    };
    assert_eq!(
        slot.generate_definition(),
        "fn samples() -> array<vec2<u32>,12> {return _gui.samples;}"
    );
}

#[test]
fn texture_definition_text() {
    let def = texture_definition("wall", 0);
    assert!(def.starts_with("@group(1) @binding(0) \nvar t_diffuse1: texture_2d<f32>; \n"));
    assert!(def.contains("@group(1) @binding(1) \nvar s_diffuse1: sampler; \n"));
    assert!(def.contains(
        "fn texture_wall_size() -> vec2<f32> { return vec2<f32>(textureDimensions(t_diffuse1));} \n"
    ));
    assert!(def.contains("fn texture_wall(vx: vec2<f32>) -> vec4<f32> \n{ \n"));
    assert!(def.ends_with("return textureSample(t_diffuse1, s_diffuse1, flip);\n}"));

    // The group index in the text is one past the argument.
    let def9 = texture_definition("w", 9);
    assert!(def9.starts_with("@group(10) @binding(0) \n"));
}

#[test]
fn uniform_choice_names() {
    assert_eq!(UniformChoice::StandardLib.struct_name(), "StdUniform");
    assert_eq!(UniformChoice::GuiControlled.struct_name(), "GuiControlled");
    assert_eq!(
        GUICONTROLLED_DEF,
        "[[group(0), binding(1)]]\nvar<uniform> _gui: GuiControlled;"
    );
}

#[test]
fn builder_injects_at_the_safe_point() {
    let std_text = "STD;";
    let shader_text = "GuiControlled {x: f32;};\r\nrest";
    let mut builder = ShaderFileBuilder::new(std_text, shader_text).unwrap();
    assert_eq!(builder.content, "STD;GuiControlled {x: f32;};\r\nrest");
    // Injection lands past the brace and the three characters closing its
    // line.
    assert_eq!(builder.inject_pos, 4 + 26);
    builder.inject_content("INJ");
    assert_eq!(builder.content, "STD;GuiControlled {x: f32;};\r\nINJ\nrest");
    assert_eq!(builder.inject_pos, 34);
    let buf = builder.build();
    assert_eq!(buf.content, "STD;GuiControlled {x: f32;};\r\nINJ\nrest");
}

#[test]
fn builder_fails_without_the_gui_struct() {
    assert!(ShaderFileBuilder::new("STD;", "no struct").is_none());
    // The insertion point can fall past the end of short content.
    assert!(ShaderFileBuilder::new("", "GuiControlled {}").is_none());
}

#[test]
fn builder_finds_uniform_slots() {
    let shader_text =
        "StdUniform {time: f32;};\nGuiControlled {level: u32;};\nbody";
    let builder = ShaderFileBuilder::new("", shader_text).unwrap();
    let std_slots = builder.uniform_slots(UniformChoice::StandardLib).unwrap();
    assert_eq!(std_slots.len(), 1);
    assert_eq!(std_slots[0].identifier, "time");
    let gui_slots = builder.uniform_slots(UniformChoice::GuiControlled).unwrap();
    assert_eq!(gui_slots.len(), 1);
    assert_eq!(gui_slots[0].identifier, "level");
    assert_eq!(gui_slots[0].typed, TType::Scalar(PType::U32));
}
