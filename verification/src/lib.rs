//! Uniform-struct layout engine for a shader-editing tool: parses a
//! restricted struct grammar out of shader source, computes byte offsets and
//! alignments under uniform-buffer layout rules, keeps the field values in a
//! single packed byte buffer with checked typed access, and emits the
//! accessor snippets spliced back into the shader before compilation.

pub mod parser;
pub mod scan;
pub mod shader;
pub mod texture;
pub mod wgsl;
