use vstd::prelude::*;

verus! {

use vstd::string::StringExecFns;
use crate::scan::dec_digits;
use crate::scan::push_decimal;

/// The shader snippet that binds a texture and its sampler under group
/// `gid` and defines the two accessor functions for the texture called
/// `name`.
pub open spec fn spec_texture_definition(name: Seq<char>, gid: int) -> Seq<char> {
    "@group("@ + dec_digits(gid) + ") @binding(0) \nvar t_diffuse"@ + dec_digits(gid)
        + ": texture_2d<f32>; \n@group("@ + dec_digits(gid) + ") @binding(1) \nvar s_diffuse"@
        + dec_digits(gid) + ": sampler; \nfn texture_"@ + name
        + "_size() -> vec2<f32> { return vec2<f32>(textureDimensions(t_diffuse"@ + dec_digits(gid)
        + "));} \nfn texture_"@ + name + "(vx: vec2<f32>) -> vec4<f32> \n{ \nlet texdim = texture_"@
        + name + "_size(); \nlet ratio = f32(texdim.x)/f32(texdim.y); \nlet flip = flipy(vec2<f32>(vx.x, vx.y*ratio));\n                return textureSample(t_diffuse"@
        + dec_digits(gid) + ", s_diffuse"@ + dec_digits(gid) + ", flip);\n}"@
}

/// Emit the binding and accessor snippet for the texture called `name`,
/// placed in the bind group after `group_id`.
pub fn texture_definition(name: &str, group_id: usize) -> (r: String)
    requires
        group_id < usize::MAX,
    ensures
        r@ == spec_texture_definition(name@, group_id as int + 1),
{
    let gid = group_id + 1;
    let mut out = String::new();
    out.append("@group(");
    push_decimal(gid, &mut out);
    out.append(") @binding(0) \nvar t_diffuse");
    push_decimal(gid, &mut out);
    out.append(": texture_2d<f32>; \n@group(");
    push_decimal(gid, &mut out);
    out.append(") @binding(1) \nvar s_diffuse");
    push_decimal(gid, &mut out);
    out.append(": sampler; \nfn texture_");
    out.append(name);
    out.append("_size() -> vec2<f32> { return vec2<f32>(textureDimensions(t_diffuse");
    push_decimal(gid, &mut out);
    out.append("));} \nfn texture_");
    out.append(name);
    out.append("(vx: vec2<f32>) -> vec4<f32> \n{ \nlet texdim = texture_");
    out.append(name);
    out.append(
        "_size(); \nlet ratio = f32(texdim.x)/f32(texdim.y); \nlet flip = flipy(vec2<f32>(vx.x, vx.y*ratio));\n                return textureSample(t_diffuse",
    );
    push_decimal(gid, &mut out);
    out.append(", s_diffuse");
    push_decimal(gid, &mut out);
    out.append(", flip);\n}");
    proof {
        assert(out@ =~= spec_texture_definition(name@, group_id as int + 1));
    }
    out
}

} // verus!
