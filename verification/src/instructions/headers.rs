//! The fixed runtime text around the generated trampolines: the header that
//! sets up the module state, and the tail that instantiates the module, runs
//! the main entries and returns the exports table.

use vstd::prelude::*;

use crate::emitter::{tabs, InstructionContext};
use crate::strutil::{clean_str, lemma_clean_concat};

verus! {

/// One emitted line at the given indentation.
pub open spec fn line_at(indent: nat, s: Seq<char>) -> Seq<char> {
    tabs(indent) + s + seq!['\n']
}

/// The runtime header's text.
pub open spec fn header_text(indent: nat) -> Seq<char> {
    line_at(indent, "--!native"@) + line_at(indent, "--!optimize 2"@) + line_at(
        indent,
        "local WASM_CTOR = require(script.Parent.wasm)"@,
    ) + line_at(indent, "local WASM_FUNCS = {}"@) + line_at(
        indent,
        "local WASM_EXPORTS = {}"@,
    ) + line_at(indent, "local HEAP, HEAP_ID = {}, 0"@) + line_at(
        indent,
        "local WASM, MEMORY, WASM_STACK"@,
    )
}

/// The main-function invocations of the runtime tail, in declaration order.
pub open spec fn mains_text(names: Seq<Seq<char>>, indent: nat) -> Seq<char>
    decreases names.len(),
{
    if names.len() == 0 {
        Seq::empty()
    } else {
        line_at(indent, "WASM.func_list."@ + names[0] + "()"@) + mains_text(
            names.drop_first(),
            indent,
        )
    }
}

/// The runtime tail's text.
pub open spec fn tail_text(names: Seq<Seq<char>>, indent: nat) -> Seq<char> {
    line_at(indent, "WASM = WASM_CTOR({ luau = { func_list = WASM_FUNCS } })"@) + line_at(
        indent,
        "MEMORY = WASM.memory_list.memory"@,
    ) + line_at(indent, "WASM_STACK = WASM.global_list.__stack_pointer"@) + mains_text(
        names,
        indent,
    ) + line_at(indent, "return WASM_EXPORTS"@)
}

/// Emits the runtime header.
pub struct CreateRuntimeHeader;

impl CreateRuntimeHeader {
    pub fn get_inputs(&self) -> (r: usize)
        ensures
            r == 0,
    {
        0
    }

    pub fn get_outputs(&self) -> (r: usize)
        ensures
            r == 0,
    {
        0
    }

    pub fn render(&self, ctx: &mut InstructionContext)
        requires
            old(ctx).wf(),
            old(ctx).out.new_line,
        ensures
            final(ctx).wf(),
            final(ctx).out.new_line,
            final(ctx).out.indent == old(ctx).out.indent,
            final(ctx).vars == old(ctx).vars,
            final(ctx).intrinsics == old(ctx).intrinsics,
            final(ctx).inputs == old(ctx).inputs,
            final(ctx).text() == old(ctx).text() + header_text(old(ctx).out.indent as nat),
    {
        proof {
            reveal_strlit("--!native");
            reveal_strlit("--!optimize 2");
            reveal_strlit("local WASM_CTOR = require(script.Parent.wasm)");
            reveal_strlit("local WASM_FUNCS = {}");
            reveal_strlit("local WASM_EXPORTS = {}");
            reveal_strlit("local HEAP, HEAP_ID = {}, 0");
            reveal_strlit("local WASM, MEMORY, WASM_STACK");
        }
        ctx.out.writeln("--!native");
        ctx.out.writeln("--!optimize 2");
        ctx.out.writeln("local WASM_CTOR = require(script.Parent.wasm)");
        ctx.out.writeln("local WASM_FUNCS = {}");
        ctx.out.writeln("local WASM_EXPORTS = {}");
        ctx.out.writeln("local HEAP, HEAP_ID = {}, 0");
        ctx.out.writeln("local WASM, MEMORY, WASM_STACK");
        proof {
            assert(final(ctx).text() =~= old(ctx).text() + header_text(
                old(ctx).out.indent as nat,
            ));
        }
    }
}

/// Emits the runtime tail, invoking each main entry after initialisation.
pub struct CreateRuntimeTail {
    pub main_names: Vec<String>,
}

impl CreateRuntimeTail {
    pub fn get_inputs(&self) -> (r: usize)
        ensures
            r == 0,
    {
        0
    }

    pub fn get_outputs(&self) -> (r: usize)
        ensures
            r == 0,
    {
        0
    }

    #[verifier::rlimit(60)]
    pub fn render(&self, ctx: &mut InstructionContext)
        requires
            old(ctx).wf(),
            old(ctx).out.new_line,
            forall|k: int|
                0 <= k < self.main_names@.len() ==> clean_str(
                    (#[trigger] self.main_names@[k])@,
                ),
        ensures
            final(ctx).wf(),
            final(ctx).out.new_line,
            final(ctx).out.indent == old(ctx).out.indent,
            final(ctx).vars == old(ctx).vars,
            final(ctx).intrinsics == old(ctx).intrinsics,
            final(ctx).inputs == old(ctx).inputs,
            final(ctx).text() == old(ctx).text() + tail_text(
                self.main_names@.map_values(|s: String| s@),
                old(ctx).out.indent as nat,
            ),
    {
        proof {
            reveal_strlit("WASM = WASM_CTOR({ luau = { func_list = WASM_FUNCS } })");
            reveal_strlit("MEMORY = WASM.memory_list.memory");
            reveal_strlit("WASM_STACK = WASM.global_list.__stack_pointer");
        }
        ctx.out.writeln("WASM = WASM_CTOR({ luau = { func_list = WASM_FUNCS } })");
        ctx.out.writeln("MEMORY = WASM.memory_list.memory");
        ctx.out.writeln("WASM_STACK = WASM.global_list.__stack_pointer");
        let ghost pre_mains = *ctx;
        let ghost gnames = self.main_names@.map_values(|s: String| s@);
        let mut i: usize = 0;
        while i < self.main_names.len()
            invariant
                0 <= i <= self.main_names@.len(),
                gnames == self.main_names@.map_values(|s: String| s@),
                forall|k: int|
                    0 <= k < self.main_names@.len() ==> clean_str(
                        (#[trigger] self.main_names@[k])@,
                    ),
                ctx.wf(),
                ctx.out.new_line,
                ctx.out.indent == pre_mains.out.indent,
                ctx.vars == pre_mains.vars,
                ctx.intrinsics == pre_mains.intrinsics,
                ctx.inputs == pre_mains.inputs,
                ctx.text() == pre_mains.text() + mains_text(
                    gnames.take(i as int),
                    pre_mains.out.indent as nat,
                ),
            decreases self.main_names@.len() - i,
        {
            let ghost it = *ctx;
            let mut line = String::from_str("WASM.func_list.");
            line.append(self.main_names[i].as_str());
            line.append("()");
            proof {
                reveal_strlit("WASM.func_list.");
                reveal_strlit("()");
                lemma_clean_concat("WASM.func_list."@, self.main_names@[i as int]@);
                lemma_clean_concat(
                    "WASM.func_list."@ + self.main_names@[i as int]@,
                    "()"@,
                );
            }
            ctx.out.writeln(line.as_str());
            i = i + 1;
            proof {
                lemma_mains_text_take(gnames, pre_mains.out.indent as nat, i as int);
                assert(ctx.text() =~= pre_mains.text() + mains_text(
                    gnames.take(i as int),
                    pre_mains.out.indent as nat,
                ));
            }
        }
        proof {
            reveal_strlit("return WASM_EXPORTS");
        }
        ctx.out.writeln("return WASM_EXPORTS");
        proof {
            assert(gnames.take(gnames.len() as int) =~= gnames);
            assert(final(ctx).text() =~= old(ctx).text() + tail_text(
                gnames,
                old(ctx).out.indent as nat,
            ));
        }
    }
}

/// Extending the rendered prefix of main invocations by one line.
proof fn lemma_mains_text_take(names: Seq<Seq<char>>, indent: nat, i: int)
    requires
        1 <= i <= names.len(),
    ensures
        mains_text(names.take(i), indent) == mains_text(names.take(i - 1), indent) + line_at(
            indent,
            "WASM.func_list."@ + names[i - 1] + "()"@,
        ),
    decreases i,
{
    if i == 1 {
        assert(names.take(0).len() == 0);
        assert(names.take(1)[0] == names[0]);
        assert(names.take(1).drop_first() =~= names.take(0));
        assert(mains_text(names.take(1), indent) =~= mains_text(names.take(0), indent)
            + line_at(indent, "WASM.func_list."@ + names[0] + "()"@));
    } else {
        lemma_mains_text_take(names.drop_first(), indent, i - 1);
        assert(names.take(i).drop_first() =~= names.drop_first().take(i - 1));
        assert(names.take(i - 1).drop_first() =~= names.drop_first().take(i - 2));
        assert(names.take(i)[0] == names[0]);
        assert(names.take(i - 1)[0] == names[0]);
        assert(names.drop_first()[i - 2] == names[i - 1]);
        assert(mains_text(names.take(i), indent) =~= mains_text(names.take(i - 1), indent)
            + line_at(indent, "WASM.func_list."@ + names[i - 1] + "()"@));
    }
}

} // verus!
