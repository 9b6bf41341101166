use vstd::prelude::*;

verus! {

use vstd::string::StrSliceExecFns;
use vstd::string::StringExecFns;
use crate::parser::ParseError;
use crate::parser::adjustment_for_safe_insert;
use crate::parser::parse_struct_named;
use crate::parser::slots_deep;
use crate::parser::spec_adjust;
use crate::parser::spec_parse_struct_named;
use crate::wgsl::SlotModel;
use crate::wgsl::StructSlot;

/// The uniform-block declaration spliced in for the interface-controlled
/// struct.
pub const GUICONTROLLED_DEF: &'static str =
    "[[group(0), binding(1)]]\nvar<uniform> _gui: GuiControlled;";

/// Which of the two well-known uniform structs to work on.
#[derive(Debug, Clone, Copy, PartialEq, Eq, Structural)]
pub enum UniformChoice {
    StandardLib,
    GuiControlled,
}

/// The struct name a choice stands for.
pub open spec fn spec_choice_name(c: UniformChoice) -> Seq<char> {
    match c {
        UniformChoice::StandardLib => "StdUniform"@,
        UniformChoice::GuiControlled => "GuiControlled"@,
    }
}

impl UniformChoice {
    /// The struct name this choice stands for.
    pub fn struct_name(&self) -> (r: &'static str)
        ensures
            r@ == spec_choice_name(*self),
    {
        match self {
            UniformChoice::StandardLib => "StdUniform",
            UniformChoice::GuiControlled => "GuiControlled",
        }
    }
}

/// Shader source being assembled: the text so far and the position where
/// further definitions are spliced in.
pub struct ShaderFileBuilder {
    pub content: String,
    pub inject_pos: usize,
}

/// Finished shader source, ready for compilation.
pub struct ShaderFileBuf {
    pub content: String,
}

/// What building from a standard-library text and a shader text yields: the
/// concatenated content and the injection position, or nothing when the
/// interface struct's brace span cannot be found or lies past the end.
pub open spec fn spec_builder_new(stdc: Seq<char>, sh: Seq<char>) -> Option<(Seq<char>, int)> {
    match spec_adjust(sh, spec_choice_name(UniformChoice::GuiControlled)) {
        None => None,
        Some(adj) => {
            let pos = stdc.len() + adj;
            if pos > stdc.len() + sh.len() {
                None
            } else {
                Some((stdc + sh, pos))
            }
        },
    }
}

impl ShaderFileBuilder {
    /// The injection position lies within the content.
    pub open spec fn wf(&self) -> bool {
        self.inject_pos <= self.content@.len()
    }

    /// Combine the standard-library text with a shader text; the injection
    /// position sits just after the interface struct's closing brace.
    pub fn new(std_content: &str, shader_content: &str) -> (r: Option<ShaderFileBuilder>)
        requires
            std_content@.len() + shader_content@.len() + 3 <= usize::MAX,
        ensures
            match r {
                Some(b) => spec_builder_new(std_content@, shader_content@) == Some(
                    (b.content@, b.inject_pos as int),
                ) && b.wf(),
                None => spec_builder_new(std_content@, shader_content@) is None,
            },
    {
        let choice = UniformChoice::GuiControlled;
        let adj = match adjustment_for_safe_insert(shader_content, choice.struct_name()) {
            None => {
                return None;
            },
            Some(a) => a,
        };
        proof {
            crate::parser::lemma_adjust_le(shader_content@, spec_choice_name(choice));
        }
        let candidate_inject_pos = std_content.unicode_len() + adj;
        let mut content = std_content.to_owned();
        content.append(shader_content);
        if candidate_inject_pos > content.unicode_len() {
            return None;
        }
        Some(ShaderFileBuilder { content, inject_pos: candidate_inject_pos })
    }

    /// Splice `content` and a line break in at the injection position, and
    /// move the position past what was inserted.
    pub fn inject_content(&mut self, content: &str)
        requires
            old(self).wf(),
            old(self).content@.len() + content@.len() + 1 <= usize::MAX,
        ensures
            final(self).wf(),
            final(self).content@ == old(self).content@.subrange(0, old(self).inject_pos as int)
                + content@ + seq!['\n'] + old(self).content@.subrange(
                old(self).inject_pos as int,
                old(self).content@.len() as int,
            ),
            final(self).inject_pos == old(self).inject_pos + content@.len() + 1,
    {
        let len = self.content.unicode_len();
        let mut out = self.content.substring_char(0, self.inject_pos).to_owned();
        out.append(content);
        out.append("\n");
        out.append(self.content.substring_char(self.inject_pos, len));
        proof {
            reveal_strlit("\n");
            assert("\n"@ =~= seq!['\n']);
        }
        let added = content.unicode_len();
        self.content = out;
        self.inject_pos = self.inject_pos + added + 1;
    }

    /// Freeze the assembled text.
    pub fn build(self) -> (r: ShaderFileBuf)
        ensures
            r.content@ == self.content@,
    {
        ShaderFileBuf { content: self.content }
    }

    /// The slots of the chosen uniform struct within the assembled text.
    pub fn uniform_slots(&self, uniform_choice: UniformChoice) -> (r: Result<
        Vec<StructSlot>,
        ParseError,
    >)
        ensures
            match r {
                Ok(v) => spec_parse_struct_named(self.content@, spec_choice_name(uniform_choice))
                    == Ok::<Seq<SlotModel>, ParseError>(slots_deep(v@)),
                Err(e) => spec_parse_struct_named(self.content@, spec_choice_name(uniform_choice))
                    == Err::<Seq<SlotModel>, ParseError>(e),
            },
    {
        parse_struct_named(self.content.as_str(), uniform_choice.struct_name())
    }
}

} // verus!
