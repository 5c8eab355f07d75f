//! Guest-to-script conversions: each instruction consumes the guest ABI
//! slots of its type from the input stack and produces one script value.

use vstd::prelude::*;

use crate::describe::{
    lemma_memory_size_ge_layout, lemma_r2l_ok_no_function, lemma_value_count_primitives,
    Describe,
};
use crate::emitter::{
    find_intrinsic, lemma_find_intrinsic_clean, lemma_fresh_name_ident, spec_bump, spec_count,
    InstructionContext,
};
use crate::instructions::exports::{st_pull, PullMemory};
use crate::instructions::luau_to_rust::prefix_step;
use crate::instructions::{
    clean_stack, frame_kept, intr_name, lemma_prefix_refl, lemma_prefix_trans, st_drop,
    st_hoisted, st_indent, st_line, st_name, st_next, st_of, st_pop_complex, st_push, st_use,
    stack_shifted, stack_view, EmitState, PushConst,
};
use crate::emitter::tabs;
use crate::strutil::{clean_str, lemma_clean_concat, lemma_dec_clean, spec_dec};

verus! {

/// The common precondition of every guest-to-script render: a well-formed
/// context standing at a line start, with newline-free stack entries, the
/// type's slots on the stack, the `free` intrinsic present when needed, and
/// room for the blocks the conversion opens.
pub open spec fn r2l_ready(ctx: InstructionContext, ty: Describe) -> bool {
    &&& ctx.wf()
    &&& ctx.out.new_line
    &&& clean_stack(ctx.inputs@)
    &&& ctx.inputs@.len() >= ty.spec_value_count()
    &&& ty.r2l_ok()
    &&& ty.sizes_ok()
    &&& (ty.r2l_needs_free() ==> find_intrinsic(ctx.intrinsics.list(), "free"@) is Some)
    &&& ctx.out.indent + ty.height() <= usize::MAX
}

/// What every guest-to-script render guarantees: the frame is kept, the
/// type's slots were consumed for one script value, and the stack stays
/// clean.
pub open spec fn r2l_done(
    pre: InstructionContext,
    post: InstructionContext,
    ty: Describe,
) -> bool {
    &&& frame_kept(pre, post)
    &&& stack_shifted(pre.inputs@, post.inputs@, ty.spec_value_count(), 1)
    &&& clean_stack(post.inputs@)
}

/// What converting a guest boolean emits: the top slot becomes the script
/// comparison against zero.
pub open spec fn bool_r2l(st: EmitState) -> EmitState {
    EmitState { stack: st.stack.drop_last().push(st.stack.last() + " ~= 0"@), ..st }
}

/// What reading a borrowed heap handle emits: the indexing expression, with
/// the table untouched.
pub open spec fn ref_extern_r2l(st: EmitState) -> EmitState {
    EmitState { stack: st.stack.drop_last().push("HEAP["@ + st.stack.last() + "]"@), ..st }
}

/// What reading a borrowed guest string emits: the two slots become one
/// in-place read of `len` bytes at `ptr`, freeing nothing.
pub open spec fn ref_string_r2l(st: EmitState) -> EmitState {
    EmitState {
        stack: st.stack.subrange(0, st.stack.len() - 2).push(
            "buffer.readstring(MEMORY.data, "@ + st.stack[st.stack.len() - 2] + ", "@
                + st.stack.last() + ")"@,
        ),
        ..st
    }
}

/// What taking an owned heap handle emits: the hoisted handle, a read of
/// `HEAP[id]` into a fresh local, and the store of nil that removes the
/// entry.
pub open spec fn owned_extern_r2l(st: EmitState) -> EmitState {
    let v = st_hoisted(st);
    let st1 = st_pop_complex(st);
    let vn = st_name(st1, "value"@);
    let st2 = st_next(st1, "value"@);
    let st3 = st_line(st2, "local "@ + vn + " = HEAP["@ + v + "]"@);
    let st4 = st_line(st3, "HEAP["@ + v + "] = nil"@);
    st_push(st4, vn)
}

/// What taking an owned guest string emits: pointer and length hoisted for
/// single evaluation, a read of `len` bytes at `ptr` into a fresh local, and
/// the `free(ptr, len, 1)` call with the same pair the allocation used.
pub open spec fn owned_string_r2l(st: EmitState, list: Seq<(Seq<char>, Seq<char>)>) -> EmitState {
    let len0 = st.stack.last();
    let addr0 = st.stack[st.stack.len() - 2];
    let a = crate::instructions::hoist_name(st.scope, addr0);
    let sc1 = crate::instructions::hoist_scope(st.scope, addr0);
    let l = crate::instructions::hoist_name(sc1, len0);
    let sc2 = crate::instructions::hoist_scope(sc1, len0);
    let t1 = st.text + crate::instructions::hoist_text_at(st.indent, st.scope, addr0) + crate::instructions::hoist_text_at(
        st.indent,
        sc1,
        len0,
    );
    let st1 = EmitState {
        text: t1,
        stack: st.stack.subrange(0, st.stack.len() - 2),
        scope: sc2,
        ..st
    };
    let var = st_name(st1, "string"@);
    let st2 = st_use(st_next(st1, "string"@), "free"@);
    let f = intr_name(list, "free"@);
    let st3 = st_line(
        st2,
        "local "@ + var + " = "@ + "buffer.readstring(MEMORY.data, "@ + a + ", "@ + l + ")"@,
    );
    let st4 = st_line(st3, "WASM.func_list."@ + f + "("@ + a + ", "@ + l + ", 1)"@);
    st_push(st4, var)
}

/// What reading a borrowed slice emits: a `table.create` of the hoisted
/// length, and a loop inserting each primitive read at its scaled offset.
pub open spec fn slice_r2l(elem: Describe, st: EmitState) -> EmitState {
    let len0 = st.stack.last();
    let addr = st.stack[st.stack.len() - 2];
    let st1 = EmitState { stack: st.stack.subrange(0, st.stack.len() - 2), ..st };
    let result = st_name(st1, "slice"@);
    let st2 = st_next(st1, "slice"@);
    let l = crate::instructions::hoist_name(st2.scope, len0);
    let st3 = EmitState {
        text: st2.text + crate::instructions::hoist_text_at(st.indent, st2.scope, len0),
        scope: crate::instructions::hoist_scope(st2.scope, len0),
        ..st2
    };
    let bn = elem.spec_primitives()[0].spec_buffer_name();
    let size = spec_dec(elem.spec_primitives()[0].spec_byte_size());
    let st4 = st_line(st3, "local "@ + result + " = table.create("@ + l + ")"@);
    let st5 = st_line(st4, "for i = 1, "@ + l + " do"@);
    let st6 = st_line(
        st_indent(st5, st.indent + 1),
        "table.insert("@ + result + ", buffer.read"@ + bn + "(MEMORY.data, "@ + addr
            + " + (i - 1) * "@ + size + "))"@,
    );
    let st7 = st_line(st_indent(st6, st.indent), "end"@);
    st_push(st7, result)
}

/// What reading an owned vector emits: a `table.create` of the length, a
/// loop collecting each element's spilled primitives and converting them,
/// and the `free(ptr, len * size, 4)` call with the allocation's pair.
pub open spec fn vector_r2l(
    elem: Describe,
    st: EmitState,
    list: Seq<(Seq<char>, Seq<char>)>,
) -> EmitState
    decreases elem, 1int,
{
    let len = st.stack.last();
    let addr = st.stack[st.stack.len() - 2];
    let st1 = EmitState { stack: st.stack.subrange(0, st.stack.len() - 2), ..st };
    let result = st_name(st1, "vector"@);
    let st2 = st_use(st_next(st1, "vector"@), "free"@);
    let f = intr_name(list, "free"@);
    let size = spec_dec(elem.spec_memory_size());
    let st3 = st_line(st2, "local "@ + result + " = table.create("@ + len + ")"@);
    let st4 = st_line(st3, "for i = 1, "@ + len + " do"@);
    let st5 = st_pull(
        st_push(st_indent(st4, st.indent + 1), addr + " + (i - 1) * "@ + size),
        elem.spec_primitives(),
    );
    let st6 = r2l_emit(elem, st5, list);
    let value = st6.stack.last();
    let st7 = st_line(st_drop(st6, 1), "table.insert("@ + result + ", "@ + value + ")"@);
    let st8 = st_line(st_indent(st7, st.indent), "end"@);
    let st9 = st_line(
        st8,
        "WASM.func_list."@ + f + "("@ + addr + ", "@ + len + " * "@ + size + ", 4)"@,
    );
    st_push(st9, result)
}

/// What converting an optional guest value emits: a fresh result local, a
/// test of the discriminant slot, the converted payload assigned when it is
/// one, and the local on the stack.
pub open spec fn option_r2l(
    elem: Describe,
    st: EmitState,
    list: Seq<(Seq<char>, Seq<char>)>,
) -> EmitState
    decreases elem, 1int,
{
    let n = elem.spec_value_count();
    let ex = st.stack[st.stack.len() - 1 - n];
    let out = st_name(st, "optional"@);
    let st1 = st_next(st, "optional"@);
    let st2 = st_line(st1, "local "@ + out);
    let st3 = st_line(st2, "if "@ + ex + " == 1 then"@);
    let st4 = r2l_emit(elem, st_indent(st3, st.indent + 1), list);
    let value = st4.stack.last();
    let st5 = st_line(st_drop(st4, 1), out + " = "@ + value);
    let st6 = st_line(st_indent(st5, st.indent), "end"@);
    st_push(st_drop(st6, 1), out)
}

/// What the guest-to-script conversion of a whole type emits, per the
/// conversion table: passthrough for numbers, `nil` for the unit type, and
/// the leaf pieces above; a reference dispatches to its borrowed variant.
pub open spec fn r2l_emit(
    ty: Describe,
    st: EmitState,
    list: Seq<(Seq<char>, Seq<char>)>,
) -> EmitState
    decreases ty, 0int,
{
    match ty {
        Describe::Boolean => bool_r2l(st),
        Describe::ExternRef => owned_extern_r2l(st),
        Describe::Void => st_push(st, "nil"@),
        Describe::String => owned_string_r2l(st, list),
        Describe::Option { ty } => option_r2l(*ty, st, list),
        Describe::Vector { ty } => vector_r2l(*ty, st, list),
        Describe::Ref { ty } => ref_emit(*ty, st),
        _ => st,
    }
}

/// The borrowed conversions a reference dispatches to.
pub open spec fn ref_emit(ty: Describe, st: EmitState) -> EmitState {
    match ty {
        Describe::String => ref_string_r2l(st),
        Describe::ExternRef => ref_extern_r2l(st),
        Describe::Slice { ty } => slice_r2l(*ty, st),
        _ => st,
    }
}

/// Dispatches the guest-to-script conversion for `ty`.
pub struct RustToLuau<'a> {
    pub ty: &'a Describe,
}

impl<'a> RustToLuau<'a> {
    pub fn get_inputs(&self) -> (r: usize)
        requires
            self.ty.r2l_ok(),
            self.ty.sizes_ok(),
        ensures
            r == self.ty.spec_value_count(),
    {
        proof {
            lemma_r2l_ok_no_function(*self.ty);
        }
        self.ty.value_count()
    }

    pub fn get_outputs(&self) -> (r: usize)
        ensures
            r == 1,
    {
        1
    }

    pub fn render(&self, ctx: &mut InstructionContext)
        requires
            r2l_ready(*old(ctx), *self.ty),
        ensures
            r2l_done(*old(ctx), *final(ctx), *self.ty),
            self.ty.passthrough() ==> *final(ctx) == *old(ctx),
            st_of(*final(ctx)) == r2l_emit(
                *self.ty,
                st_of(*old(ctx)),
                old(ctx).intrinsics.list(),
            ),
        decreases *self.ty, 0int,
    {
        let ghost pre = *old(ctx);
        match self.ty {
            Describe::F32
            | Describe::F64
            | Describe::U8
            | Describe::U16
            | Describe::U32
            | Describe::I8
            | Describe::I16
            | Describe::I32 => {
                proof {
                    lemma_prefix_refl(pre.text());
                    lemma_prefix_refl(pre.intrinsics.used_view());
                    assert(final(ctx).inputs@.subrange(0, pre.inputs@.len() - 1)
                        =~= pre.inputs@.subrange(0, pre.inputs@.len() - 1));
                }
            },
            Describe::ExternRef => {
                RustOwnedExternRefToLuau.render(ctx);
                proof {
                    lemma_prefix_refl(pre.intrinsics.used_view());
                }
            },
            Describe::Boolean => {
                RustBooleanToLuau.render(ctx);
                proof {
                    lemma_prefix_refl(pre.text());
                    lemma_prefix_refl(pre.intrinsics.used_view());
                    assert(final(ctx).inputs@.subrange(0, pre.inputs@.len() - 1)
                        =~= pre.inputs@.subrange(0, pre.inputs@.len() - 1));
                }
            },
            Describe::Option { ty } => RustOptionToLuau { ty: &**ty }.render(ctx),
            Describe::Vector { ty } => RustVectorToLuau { ty: &**ty }.render(ctx),
            Describe::Void => {
                PushConst::new("nil").render(ctx);
                proof {
                    reveal_strlit("nil");
                    lemma_prefix_refl(pre.text());
                    lemma_prefix_refl(pre.intrinsics.used_view());
                    assert(final(ctx).inputs@.subrange(0, pre.inputs@.len() as int)
                        =~= pre.inputs@.subrange(0, pre.inputs@.len() as int));
                    assert(clean_stack(final(ctx).inputs@));
                    assert(st_of(*final(ctx)) =~~= st_push(st_of(pre), "nil"@));
                }
            },
            Describe::String => RustOwnedStringToLuau.render(ctx),
            Describe::Ref { ty } => RustRefToLuau { ty: &**ty }.render(ctx),
            _ => vstd::pervasive::unreached(),
        }
        proof {
            if self.ty.passthrough() {
                assert(st_of(*final(ctx)) =~~= r2l_emit(
                    *self.ty,
                    st_of(pre),
                    pre.intrinsics.list(),
                ));
            }
        }
    }
}

/// Dispatches the borrowed conversions that may stand under a reference.
pub struct RustRefToLuau<'a> {
    pub ty: &'a Describe,
}

impl<'a> RustRefToLuau<'a> {
    pub fn get_inputs(&self) -> (r: usize)
        requires
            self.ty.no_function(),
            self.ty.sizes_ok(),
        ensures
            r == self.ty.spec_value_count(),
    {
        self.ty.value_count()
    }

    pub fn get_outputs(&self) -> (r: usize)
        ensures
            r == 1,
    {
        1
    }

    pub fn render(&self, ctx: &mut InstructionContext)
        requires
            old(ctx).wf(),
            old(ctx).out.new_line,
            clean_stack(old(ctx).inputs@),
            self.ty.ref_target_ok(),
            self.ty.sizes_ok(),
            old(ctx).inputs@.len() >= self.ty.spec_value_count(),
            old(ctx).out.indent + 1 + self.ty.height() <= usize::MAX,
        ensures
            frame_kept(*old(ctx), *final(ctx)),
            stack_shifted(
                old(ctx).inputs@,
                final(ctx).inputs@,
                self.ty.spec_value_count(),
                1,
            ),
            clean_stack(final(ctx).inputs@),
            st_of(*final(ctx)) == ref_emit(*self.ty, st_of(*old(ctx))),
        decreases *self.ty, 1int,
    {
        match self.ty {
            Describe::String => {
                RustRefStringToLuau.render(ctx);
                proof {
                    lemma_prefix_refl(old(ctx).text());
                    lemma_prefix_refl(old(ctx).intrinsics.used_view());
                    assert(final(ctx).inputs@.subrange(0, old(ctx).inputs@.len() - 2)
                        =~= old(ctx).inputs@.subrange(0, old(ctx).inputs@.len() - 2));
                }
            },
            Describe::Slice { ty } => RustSliceToLuau { ty: &**ty }.render(ctx),
            Describe::ExternRef => {
                RustRefExternRefToLuau.render(ctx);
                proof {
                    lemma_prefix_refl(old(ctx).text());
                    lemma_prefix_refl(old(ctx).intrinsics.used_view());
                    assert(final(ctx).inputs@.subrange(0, old(ctx).inputs@.len() - 1)
                        =~= old(ctx).inputs@.subrange(0, old(ctx).inputs@.len() - 1));
                }
            },
            _ => vstd::pervasive::unreached(),
        }
    }
}

/// Reads a borrowed slice of primitives into a fresh script array.
pub struct RustSliceToLuau<'a> {
    pub ty: &'a Describe,
}

impl<'a> RustSliceToLuau<'a> {
    pub fn get_inputs(&self) -> (r: usize)
        ensures
            r == 2,
    {
        2
    }

    pub fn get_outputs(&self) -> (r: usize)
        ensures
            r == 1,
    {
        1
    }

    #[verifier::rlimit(80)]
    pub fn render(&self, ctx: &mut InstructionContext)
        requires
            old(ctx).wf(),
            old(ctx).out.new_line,
            clean_stack(old(ctx).inputs@),
            old(ctx).inputs@.len() >= 2,
            self.ty.no_function(),
            self.ty.spec_primitives().len() == 1,
            old(ctx).out.indent + 1 <= usize::MAX,
        ensures
            frame_kept(*old(ctx), *final(ctx)),
            stack_shifted(old(ctx).inputs@, final(ctx).inputs@, 2, 1),
            clean_stack(final(ctx).inputs@),
            st_of(*final(ctx)) == slice_r2l(*self.ty, st_of(*old(ctx))),
        decreases *self.ty, 2int,
    {
        let ghost st0 = st_of(*old(ctx));
        let ghost glen0 = st0.stack.last();
        let ghost gaddr = st0.stack[st0.stack.len() - 2];
        let ghost gs1 = EmitState { stack: st0.stack.subrange(0, st0.stack.len() - 2), ..st0 };
        let ghost gl = crate::instructions::hoist_name(spec_bump(st0.scope, "slice"@), glen0);
        let len0 = ctx.pop();
        let addr = ctx.pop();
        proof {
            assert(clean_str(len0@)) by {
                assert(old(ctx).inputs@.last() == old(ctx).inputs@[old(ctx).inputs@.len()
                    - 1]);
            }
            assert(clean_str(addr@));
            assert(len0@ == glen0);
            assert(addr@ == gaddr) by {
                assert(stack_view(old(ctx).inputs@)[st0.stack.len() - 2] == old(
                    ctx,
                ).inputs@[old(ctx).inputs@.len() - 2]@);
            }
        }
        let result_name = ctx.vars.next("slice");
        let primitives = self.ty.primitive_values();
        let primitive = primitives[0];
        let buffer = primitive.buffer_name();
        let size = primitive.byte_size();
        let len = ctx.prereq_complex(len0);
        let size_str = crate::strutil::dec_string_usize(size);
        let ghost s3 = EmitState {
            text: gs1.text + crate::instructions::hoist_text_at(
                st0.indent,
                spec_bump(st0.scope, "slice"@),
                glen0,
            ),
            scope: crate::instructions::hoist_scope(spec_bump(st0.scope, "slice"@), glen0),
            ..gs1
        };
        proof {
            reveal_strlit("slice");
            reveal_strlit("prereq");
            lemma_fresh_name_ident("slice"@, spec_count(old(ctx).vars.top(), "slice"@));
            lemma_fresh_name_ident("prereq"@, spec_count(spec_bump(old(ctx).vars.top(), "slice"@), "prereq"@));
            lemma_dec_clean(size as nat);
            assert(clean_str(primitive.spec_buffer_name())) by {
                reveal_strlit("f32");
                reveal_strlit("f64");
                reveal_strlit("i8");
                reveal_strlit("i16");
                reveal_strlit("i32");
                reveal_strlit("u8");
                reveal_strlit("u16");
                reveal_strlit("u32");
            }
            prefix_step(old(ctx).text(), old(ctx).text(), ctx.text());
            assert(result_name@ == st_name(gs1, "slice"@));
            assert(len@ == gl);
            assert(st_of(*ctx) =~~= s3);
        }
        let mut line1 = String::from_str("local ");
        line1.append(result_name.as_str());
        line1.append(" = table.create(");
        line1.append(len.as_str());
        line1.append(")");
        proof {
            reveal_strlit("local ");
            reveal_strlit(" = table.create(");
            reveal_strlit(")");
            lemma_clean_concat("local "@, result_name@);
            lemma_clean_concat("local "@ + result_name@, " = table.create("@);
            lemma_clean_concat("local "@ + result_name@ + " = table.create("@, len@);
            lemma_clean_concat(
                "local "@ + result_name@ + " = table.create("@ + len@,
                ")"@,
            );
        }
        let ghost g1 = *ctx;
        ctx.out.writeln(line1.as_str());
        let ghost s4 = st_line(
            s3,
            "local "@ + st_name(gs1, "slice"@) + " = table.create("@ + gl + ")"@,
        );
        proof {
            prefix_step(old(ctx).text(), g1.text(), ctx.text());
            assert(st_of(*ctx) =~~= s4);
        }
        let mut forline = String::from_str("for i = 1, ");
        forline.append(len.as_str());
        forline.append(" do");
        proof {
            reveal_strlit("for i = 1, ");
            reveal_strlit(" do");
            lemma_clean_concat("for i = 1, "@, len@);
            lemma_clean_concat("for i = 1, "@ + len@, " do"@);
        }
        let ghost g2 = *ctx;
        ctx.out.writeln(forline.as_str());
        ctx.out.up();
        let ghost s5 = st_indent(st_line(s4, "for i = 1, "@ + gl + " do"@), st0.indent + 1);
        proof {
            prefix_step(old(ctx).text(), g2.text(), ctx.text());
            assert(st_of(*ctx) =~~= s5);
        }
        let mut body = String::from_str("table.insert(");
        body.append(result_name.as_str());
        body.append(", buffer.read");
        body.append(buffer);
        body.append("(MEMORY.data, ");
        body.append(addr.as_str());
        body.append(" + (i - 1) * ");
        body.append(size_str.as_str());
        body.append("))");
        proof {
            reveal_strlit("table.insert(");
            reveal_strlit(", buffer.read");
            reveal_strlit("(MEMORY.data, ");
            reveal_strlit(" + (i - 1) * ");
            reveal_strlit("))");
            lemma_clean_concat("table.insert("@, result_name@);
            lemma_clean_concat("table.insert("@ + result_name@, ", buffer.read"@);
            lemma_clean_concat(
                "table.insert("@ + result_name@ + ", buffer.read"@,
                primitive.spec_buffer_name(),
            );
            lemma_clean_concat(
                "table.insert("@ + result_name@ + ", buffer.read"@
                    + primitive.spec_buffer_name(),
                "(MEMORY.data, "@,
            );
            lemma_clean_concat(
                "table.insert("@ + result_name@ + ", buffer.read"@
                    + primitive.spec_buffer_name() + "(MEMORY.data, "@,
                addr@,
            );
            lemma_clean_concat(
                "table.insert("@ + result_name@ + ", buffer.read"@
                    + primitive.spec_buffer_name() + "(MEMORY.data, "@ + addr@,
                " + (i - 1) * "@,
            );
            lemma_clean_concat(
                "table.insert("@ + result_name@ + ", buffer.read"@
                    + primitive.spec_buffer_name() + "(MEMORY.data, "@ + addr@
                    + " + (i - 1) * "@,
                size_str@,
            );
            lemma_clean_concat(
                "table.insert("@ + result_name@ + ", buffer.read"@
                    + primitive.spec_buffer_name() + "(MEMORY.data, "@ + addr@
                    + " + (i - 1) * "@ + size_str@,
                "))"@,
            );
        }
        let ghost g3 = *ctx;
        ctx.out.writeln(body.as_str());
        ctx.out.down();
        let ghost s6 = st_line(
            s5,
            "table.insert("@ + st_name(gs1, "slice"@) + ", buffer.read"@
                + self.ty.spec_primitives()[0].spec_buffer_name() + "(MEMORY.data, "@ + gaddr
                + " + (i - 1) * "@ + spec_dec(
                self.ty.spec_primitives()[0].spec_byte_size(),
            ) + "))"@,
        );
        proof {
            reveal_strlit("end");
            prefix_step(old(ctx).text(), g3.text(), ctx.text());
            assert(st_of(*ctx) =~~= st_indent(s6, st0.indent));
        }
        let ghost g4 = *ctx;
        ctx.out.writeln("end");
        let ghost s7 = st_line(st_indent(s6, st0.indent), "end"@);
        proof {
            prefix_step(old(ctx).text(), g4.text(), ctx.text());
            assert(st_of(*ctx) =~~= s7);
        }
        ctx.push(result_name);
        proof {
            assert(final(ctx).inputs@.subrange(0, old(ctx).inputs@.len() - 2)
                =~= old(ctx).inputs@.subrange(0, old(ctx).inputs@.len() - 2));
            lemma_prefix_refl(old(ctx).intrinsics.used_view());
            assert(st_of(*final(ctx)) =~~= slice_r2l(*self.ty, st0));
        }
    }
}

/// Reads an owned vector element by element, then frees its guest memory.
pub struct RustVectorToLuau<'a> {
    pub ty: &'a Describe,
}

impl<'a> RustVectorToLuau<'a> {
    pub fn get_inputs(&self) -> (r: usize)
        ensures
            r == 2,
    {
        2
    }

    pub fn get_outputs(&self) -> (r: usize)
        ensures
            r == 1,
    {
        1
    }

    #[verifier::rlimit(80)]
    pub fn render(&self, ctx: &mut InstructionContext)
        requires
            old(ctx).wf(),
            old(ctx).out.new_line,
            clean_stack(old(ctx).inputs@),
            old(ctx).inputs@.len() >= 2,
            self.ty.r2l_ok(),
            self.ty.sizes_ok(),
            find_intrinsic(old(ctx).intrinsics.list(), "free"@) is Some,
            old(ctx).out.indent + 1 + self.ty.height() <= usize::MAX,
        ensures
            frame_kept(*old(ctx), *final(ctx)),
            stack_shifted(old(ctx).inputs@, final(ctx).inputs@, 2, 1),
            clean_stack(final(ctx).inputs@),
            st_of(*final(ctx)) == vector_r2l(
                *self.ty,
                st_of(*old(ctx)),
                old(ctx).intrinsics.list(),
            ),
        decreases *self.ty, 1int,
    {
        let ghost st0 = st_of(*old(ctx));
        let ghost glist = old(ctx).intrinsics.list();
        let ghost glen = st0.stack.last();
        let ghost gaddr = st0.stack[st0.stack.len() - 2];
        let ghost gs1 = EmitState { stack: st0.stack.subrange(0, st0.stack.len() - 2), ..st0 };
        let len = ctx.pop();
        let addr = ctx.pop();
        proof {
            assert(clean_str(len@)) by {
                assert(old(ctx).inputs@.last() == old(ctx).inputs@[old(ctx).inputs@.len()
                    - 1]);
            }
            assert(clean_str(addr@));
            lemma_r2l_ok_no_function(*self.ty);
            assert(len@ == glen);
            assert(addr@ == gaddr) by {
                assert(stack_view(old(ctx).inputs@)[st0.stack.len() - 2] == old(
                    ctx,
                ).inputs@[old(ctx).inputs@.len() - 2]@);
            }
        }
        let result_name = ctx.vars.next("vector");
        let free = match ctx.intrinsics.get("free") {
            Some(f) => f,
            None => vstd::pervasive::unreached(),
        };
        let ty_size = self.ty.memory_size();
        let primitives = self.ty.primitive_values();
        let size_str = crate::strutil::dec_string_usize(ty_size);
        let ghost s2 = st_use(st_next(gs1, "vector"@), "free"@);
        proof {
            reveal_strlit("vector");
            lemma_fresh_name_ident("vector"@, spec_count(old(ctx).vars.top(), "vector"@));
            lemma_find_intrinsic_clean(old(ctx).intrinsics.list(), "free"@);
            lemma_dec_clean(ty_size as nat);
            assert(result_name@ == st_name(gs1, "vector"@));
            assert(free@ == intr_name(glist, "free"@));
            assert(st_of(*ctx) =~~= s2);
        }
        let mut line1 = String::from_str("local ");
        line1.append(result_name.as_str());
        line1.append(" = table.create(");
        line1.append(len.as_str());
        line1.append(")");
        proof {
            reveal_strlit("local ");
            reveal_strlit(" = table.create(");
            reveal_strlit(")");
            lemma_clean_concat("local "@, result_name@);
            lemma_clean_concat("local "@ + result_name@, " = table.create("@);
            lemma_clean_concat("local "@ + result_name@ + " = table.create("@, len@);
            lemma_clean_concat(
                "local "@ + result_name@ + " = table.create("@ + len@,
                ")"@,
            );
        }
        let ghost g1 = *ctx;
        ctx.out.writeln(line1.as_str());
        let ghost s3 = st_line(
            s2,
            "local "@ + st_name(gs1, "vector"@) + " = table.create("@ + glen + ")"@,
        );
        proof {
            prefix_step(old(ctx).text(), g1.text(), ctx.text());
            assert(st_of(*ctx) =~~= s3);
        }
        let mut forline = String::from_str("for i = 1, ");
        forline.append(len.as_str());
        forline.append(" do");
        proof {
            reveal_strlit("for i = 1, ");
            reveal_strlit(" do");
            lemma_clean_concat("for i = 1, "@, len@);
            lemma_clean_concat("for i = 1, "@ + len@, " do"@);
        }
        let ghost g2 = *ctx;
        ctx.out.writeln(forline.as_str());
        ctx.out.up();
        let ghost s4 = st_indent(
            st_line(s3, "for i = 1, "@ + glen + " do"@),
            st0.indent + 1,
        );
        proof {
            prefix_step(old(ctx).text(), g2.text(), ctx.text());
            assert(st_of(*ctx) =~~= s4);
        }
        let mut elem_ptr = String::from_str("");
        elem_ptr.append(addr.as_str());
        elem_ptr.append(" + (i - 1) * ");
        elem_ptr.append(size_str.as_str());
        proof {
            reveal_strlit("");
            reveal_strlit(" + (i - 1) * ");
            lemma_clean_concat(""@ + addr@, " + (i - 1) * "@);
            lemma_clean_concat(""@ + addr@ + " + (i - 1) * "@, size_str@);
            assert(elem_ptr@ =~= gaddr + " + (i - 1) * "@ + spec_dec(
                self.ty.spec_memory_size(),
            ));
        }
        ctx.push(elem_ptr);
        let ghost s5in = st_push(s4, gaddr + " + (i - 1) * "@ + spec_dec(
            self.ty.spec_memory_size(),
        ));
        proof {
            lemma_value_count_primitives(*self.ty);
            lemma_memory_size_ge_layout(*self.ty);
            if self.ty.spec_primitives().len() == 0 {
                assert(crate::describe::layout_size(self.ty.spec_primitives(), 0) == 0);
            }
            assert(ctx.inputs@.subrange(0, old(ctx).inputs@.len() - 2)
                =~= old(ctx).inputs@.subrange(0, old(ctx).inputs@.len() - 2));
            assert(st_of(*ctx) =~~= s5in);
        }
        let ghost before_pull = *ctx;
        PullMemory { primitives: primitives.as_slice() }.render(ctx);
        let ghost s5 = st_pull(s5in, self.ty.spec_primitives());
        proof {
            prefix_step(old(ctx).text(), before_pull.text(), ctx.text());
            assert(ctx.inputs@.len() == old(ctx).inputs@.len() - 2
                + self.ty.spec_value_count());
            assert(ctx.inputs@.subrange(0, old(ctx).inputs@.len() - 2) =~= old(
                ctx,
            ).inputs@.subrange(0, old(ctx).inputs@.len() - 2));
            assert(st_of(before_pull) == s5in);
            assert(st_of(*ctx) == s5);
        }
        let ghost before_conv = *ctx;
        RustToLuau { ty: self.ty }.render(ctx);
        let ghost s6 = r2l_emit(*self.ty, s5, glist);
        proof {
            assert(ctx.inputs@.subrange(0, old(ctx).inputs@.len() - 2) =~= old(
                ctx,
            ).inputs@.subrange(0, old(ctx).inputs@.len() - 2));
            lemma_prefix_trans(old(ctx).text(), before_conv.text(), ctx.text());
            lemma_prefix_trans(
                old(ctx).intrinsics.used_view(),
                before_conv.intrinsics.used_view(),
                ctx.intrinsics.used_view(),
            );
            assert(before_conv.intrinsics.list() == glist);
            assert(st_of(before_conv) == s5);
            assert(st_of(*ctx) == s6);
        }
        let value = ctx.pop();
        let ghost gvalue = s6.stack.last();
        proof {
            assert(clean_str(value@));
            assert(ctx.inputs@ =~= old(ctx).inputs@.subrange(
                0,
                old(ctx).inputs@.len() - 2,
            ));
            assert(value@ == gvalue);
            assert(st_of(*ctx) =~~= st_drop(s6, 1));
        }
        let mut insert = String::from_str("table.insert(");
        insert.append(result_name.as_str());
        insert.append(", ");
        insert.append(value.as_str());
        insert.append(")");
        proof {
            reveal_strlit("table.insert(");
            reveal_strlit(", ");
            reveal_strlit(")");
            lemma_clean_concat("table.insert("@, result_name@);
            lemma_clean_concat("table.insert("@ + result_name@, ", "@);
            lemma_clean_concat("table.insert("@ + result_name@ + ", "@, value@);
            lemma_clean_concat(
                "table.insert("@ + result_name@ + ", "@ + value@,
                ")"@,
            );
        }
        let ghost g3 = *ctx;
        ctx.out.writeln(insert.as_str());
        ctx.out.down();
        let ghost s7 = st_line(
            st_drop(s6, 1),
            "table.insert("@ + st_name(gs1, "vector"@) + ", "@ + gvalue + ")"@,
        );
        proof {
            reveal_strlit("end");
            prefix_step(old(ctx).text(), g3.text(), ctx.text());
            assert(st_of(*ctx) =~~= st_indent(s7, st0.indent));
        }
        let ghost g4 = *ctx;
        ctx.out.writeln("end");
        let ghost s8 = st_line(st_indent(s7, st0.indent), "end"@);
        proof {
            prefix_step(old(ctx).text(), g4.text(), ctx.text());
            assert(st_of(*ctx) =~~= s8);
        }
        let mut freeline = String::from_str("WASM.func_list.");
        freeline.append(free.as_str());
        freeline.append("(");
        freeline.append(addr.as_str());
        freeline.append(", ");
        freeline.append(len.as_str());
        freeline.append(" * ");
        freeline.append(size_str.as_str());
        freeline.append(", 4)");
        proof {
            reveal_strlit("WASM.func_list.");
            reveal_strlit("(");
            reveal_strlit(", ");
            reveal_strlit(" * ");
            reveal_strlit(", 4)");
            lemma_clean_concat("WASM.func_list."@, free@);
            lemma_clean_concat("WASM.func_list."@ + free@, "("@);
            lemma_clean_concat("WASM.func_list."@ + free@ + "("@, addr@);
            lemma_clean_concat("WASM.func_list."@ + free@ + "("@ + addr@, ", "@);
            lemma_clean_concat("WASM.func_list."@ + free@ + "("@ + addr@ + ", "@, len@);
            lemma_clean_concat(
                "WASM.func_list."@ + free@ + "("@ + addr@ + ", "@ + len@,
                " * "@,
            );
            lemma_clean_concat(
                "WASM.func_list."@ + free@ + "("@ + addr@ + ", "@ + len@ + " * "@,
                size_str@,
            );
            lemma_clean_concat(
                "WASM.func_list."@ + free@ + "("@ + addr@ + ", "@ + len@ + " * "@
                    + size_str@,
                ", 4)"@,
            );
        }
        let ghost g5 = *ctx;
        ctx.out.writeln(freeline.as_str());
        let ghost s9 = st_line(
            s8,
            "WASM.func_list."@ + intr_name(glist, "free"@) + "("@ + gaddr + ", "@ + glen
                + " * "@ + spec_dec(self.ty.spec_memory_size()) + ", 4)"@,
        );
        proof {
            prefix_step(old(ctx).text(), g5.text(), ctx.text());
            assert(st_of(*ctx) =~~= s9);
        }
        ctx.push(result_name);
        proof {
            assert(final(ctx).inputs@.subrange(0, old(ctx).inputs@.len() - 2)
                =~= old(ctx).inputs@.subrange(0, old(ctx).inputs@.len() - 2));
            assert(st_of(*final(ctx)) =~~= vector_r2l(*self.ty, st0, glist));
        }
    }
}

/// Reads a borrowed guest string straight out of linear memory.
pub struct RustRefStringToLuau;

impl RustRefStringToLuau {
    pub fn get_inputs(&self) -> (r: usize)
        ensures
            r == 2,
    {
        2
    }

    pub fn get_outputs(&self) -> (r: usize)
        ensures
            r == 1,
    {
        1
    }

    pub fn render(&self, ctx: &mut InstructionContext)
        requires
            old(ctx).inputs@.len() >= 2,
            clean_stack(old(ctx).inputs@),
        ensures
            final(ctx).out == old(ctx).out,
            final(ctx).vars == old(ctx).vars,
            final(ctx).intrinsics == old(ctx).intrinsics,
            final(ctx).inputs@.len() == old(ctx).inputs@.len() - 1,
            final(ctx).inputs@.drop_last() == old(ctx).inputs@.drop_last().drop_last(),
            final(ctx).inputs@.last()@ == "buffer.readstring(MEMORY.data, "@ + old(
                ctx,
            ).inputs@[old(ctx).inputs@.len() - 2]@ + ", "@ + old(ctx).inputs@.last()@
                + ")"@,
            clean_stack(final(ctx).inputs@),
            st_of(*final(ctx)) == ref_string_r2l(st_of(*old(ctx))),
    {
        let len = ctx.pop();
        let addr = ctx.pop();
        let mut e = String::from_str("buffer.readstring(MEMORY.data, ");
        e.append(addr.as_str());
        e.append(", ");
        e.append(len.as_str());
        e.append(")");
        proof {
            reveal_strlit("buffer.readstring(MEMORY.data, ");
            reveal_strlit(", ");
            reveal_strlit(")");
            assert(clean_str(len@)) by {
                assert(old(ctx).inputs@.last() == old(ctx).inputs@[old(ctx).inputs@.len()
                    - 1]);
            }
            assert(clean_str(addr@));
            lemma_clean_concat("buffer.readstring(MEMORY.data, "@, addr@);
            lemma_clean_concat("buffer.readstring(MEMORY.data, "@ + addr@, ", "@);
            lemma_clean_concat(
                "buffer.readstring(MEMORY.data, "@ + addr@ + ", "@,
                len@,
            );
            lemma_clean_concat(
                "buffer.readstring(MEMORY.data, "@ + addr@ + ", "@ + len@,
                ")"@,
            );
        }
        ctx.push(e);
        proof {
            assert(final(ctx).inputs@.drop_last() =~= old(
                ctx,
            ).inputs@.drop_last().drop_last());
            assert(stack_view(old(ctx).inputs@).last() == old(ctx).inputs@.last()@);
            assert(stack_view(old(ctx).inputs@)[old(ctx).inputs@.len() - 2] == old(
                ctx,
            ).inputs@[old(ctx).inputs@.len() - 2]@);
            assert(st_of(*final(ctx)) =~~= ref_string_r2l(st_of(*old(ctx))));
        }
    }
}

/// Reads an owned guest string, then frees its bytes.
pub struct RustOwnedStringToLuau;

impl RustOwnedStringToLuau {
    pub fn get_inputs(&self) -> (r: usize)
        ensures
            r == 2,
    {
        2
    }

    pub fn get_outputs(&self) -> (r: usize)
        ensures
            r == 1,
    {
        1
    }

    #[verifier::rlimit(80)]
    pub fn render(&self, ctx: &mut InstructionContext)
        requires
            old(ctx).wf(),
            old(ctx).out.new_line,
            clean_stack(old(ctx).inputs@),
            old(ctx).inputs@.len() >= 2,
            find_intrinsic(old(ctx).intrinsics.list(), "free"@) is Some,
        ensures
            frame_kept(*old(ctx), *final(ctx)),
            stack_shifted(old(ctx).inputs@, final(ctx).inputs@, 2, 1),
            clean_stack(final(ctx).inputs@),
            st_of(*final(ctx)) == owned_string_r2l(
                st_of(*old(ctx)),
                old(ctx).intrinsics.list(),
            ),
    {
        let ghost st0 = st_of(*old(ctx));
        let ghost glist = old(ctx).intrinsics.list();
        let ghost glen0 = st0.stack.last();
        let ghost gaddr0 = st0.stack[st0.stack.len() - 2];
        let ghost ga = crate::instructions::hoist_name(st0.scope, gaddr0);
        let ghost gsc1 = crate::instructions::hoist_scope(st0.scope, gaddr0);
        let ghost gl = crate::instructions::hoist_name(gsc1, glen0);
        let len0 = ctx.pop();
        let addr0 = ctx.pop();
        proof {
            assert(clean_str(len0@)) by {
                assert(old(ctx).inputs@.last() == old(ctx).inputs@[old(ctx).inputs@.len()
                    - 1]);
            }
            assert(clean_str(addr0@));
            assert(len0@ == glen0);
            assert(addr0@ == gaddr0) by {
                assert(stack_view(old(ctx).inputs@)[st0.stack.len() - 2] == old(
                    ctx,
                ).inputs@[old(ctx).inputs@.len() - 2]@);
            }
        }
        let addr = ctx.prereq_complex(addr0);
        proof {
            reveal_strlit("prereq");
            lemma_fresh_name_ident("prereq"@, spec_count(old(ctx).vars.top(), "prereq"@));
            prefix_step(old(ctx).text(), old(ctx).text(), ctx.text());
            assert(addr@ == ga);
        }
        let ghost after_first = *ctx;
        let len = ctx.prereq_complex(len0);
        let ghost s1 = EmitState {
            text: st0.text + crate::instructions::hoist_text_at(st0.indent, st0.scope, gaddr0)
                + crate::instructions::hoist_text_at(st0.indent, gsc1, glen0),
            stack: st0.stack.subrange(0, st0.stack.len() - 2),
            scope: crate::instructions::hoist_scope(gsc1, glen0),
            used: st0.used,
            indent: st0.indent,
        };
        proof {
            lemma_fresh_name_ident(
                "prereq"@,
                spec_count(after_first.vars.top(), "prereq"@),
            );
            lemma_prefix_trans(old(ctx).text(), after_first.text(), ctx.text());
            assert(len@ == gl);
            assert(st_of(*ctx) =~~= s1);
        }
        let ghost tv = ctx.vars.top();
        let var = ctx.vars.next("string");
        let free = match ctx.intrinsics.get("free") {
            Some(f) => f,
            None => vstd::pervasive::unreached(),
        };
        let ghost s2 = st_use(st_next(s1, "string"@), "free"@);
        proof {
            reveal_strlit("string");
            lemma_fresh_name_ident("string"@, spec_count(tv, "string"@));
            assert(clean_str(var@));
            lemma_find_intrinsic_clean(old(ctx).intrinsics.list(), "free"@);
            assert(var@ == st_name(s1, "string"@));
            assert(free@ == intr_name(glist, "free"@));
            assert(st_of(*ctx) =~~= s2);
        }
        let mut read_expr = String::from_str("buffer.readstring(MEMORY.data, ");
        read_expr.append(addr.as_str());
        read_expr.append(", ");
        read_expr.append(len.as_str());
        read_expr.append(")");
        proof {
            reveal_strlit("buffer.readstring(MEMORY.data, ");
            reveal_strlit(", ");
            reveal_strlit(")");
            lemma_clean_concat("buffer.readstring(MEMORY.data, "@, addr@);
            lemma_clean_concat("buffer.readstring(MEMORY.data, "@ + addr@, ", "@);
            lemma_clean_concat(
                "buffer.readstring(MEMORY.data, "@ + addr@ + ", "@,
                len@,
            );
            lemma_clean_concat(
                "buffer.readstring(MEMORY.data, "@ + addr@ + ", "@ + len@,
                ")"@,
            );
        }
        let mut line1 = String::from_str("local ");
        line1.append(var.as_str());
        line1.append(" = ");
        line1.append(read_expr.as_str());
        proof {
            reveal_strlit("local ");
            reveal_strlit(" = ");
            lemma_clean_concat("local "@, var@);
            lemma_clean_concat("local "@ + var@, " = "@);
            lemma_clean_concat("local "@ + var@ + " = "@, read_expr@);
        }
        let ghost g1 = *ctx;
        ctx.out.writeln(line1.as_str());
        let ghost s3 = st_line(
            s2,
            "local "@ + st_name(s1, "string"@) + " = "@ + "buffer.readstring(MEMORY.data, "@
                + ga + ", "@ + gl + ")"@,
        );
        proof {
            prefix_step(old(ctx).text(), g1.text(), ctx.text());
            assert(line1@ =~= "local "@ + st_name(s1, "string"@) + " = "@
                + "buffer.readstring(MEMORY.data, "@ + ga + ", "@ + gl + ")"@);
            assert(st_of(*ctx) =~~= s3);
        }
        let mut line2 = String::from_str("WASM.func_list.");
        line2.append(free.as_str());
        line2.append("(");
        line2.append(addr.as_str());
        line2.append(", ");
        line2.append(len.as_str());
        line2.append(", 1)");
        proof {
            reveal_strlit("WASM.func_list.");
            reveal_strlit("(");
            reveal_strlit(", 1)");
            lemma_clean_concat("WASM.func_list."@, free@);
            lemma_clean_concat("WASM.func_list."@ + free@, "("@);
            lemma_clean_concat("WASM.func_list."@ + free@ + "("@, addr@);
            lemma_clean_concat("WASM.func_list."@ + free@ + "("@ + addr@, ", "@);
            lemma_clean_concat("WASM.func_list."@ + free@ + "("@ + addr@ + ", "@, len@);
            lemma_clean_concat(
                "WASM.func_list."@ + free@ + "("@ + addr@ + ", "@ + len@,
                ", 1)"@,
            );
        }
        let ghost g2 = *ctx;
        ctx.out.writeln(line2.as_str());
        let ghost s4 = st_line(
            s3,
            "WASM.func_list."@ + intr_name(glist, "free"@) + "("@ + ga + ", "@ + gl + ", 1)"@,
        );
        proof {
            prefix_step(old(ctx).text(), g2.text(), ctx.text());
            assert(st_of(*ctx) =~~= s4);
        }
        ctx.push(var);
        proof {
            assert(final(ctx).inputs@.subrange(0, old(ctx).inputs@.len() - 2)
                =~= old(ctx).inputs@.subrange(0, old(ctx).inputs@.len() - 2));
            assert(st_of(*final(ctx)) =~~= owned_string_r2l(st0, glist));
        }
    }
}

/// Takes an owned heap handle: reads the value and clears the slot.
pub struct RustOwnedExternRefToLuau;

impl RustOwnedExternRefToLuau {
    pub fn get_inputs(&self) -> (r: usize)
        ensures
            r == 1,
    {
        1
    }

    pub fn get_outputs(&self) -> (r: usize)
        ensures
            r == 1,
    {
        1
    }

    pub fn render(&self, ctx: &mut InstructionContext)
        requires
            old(ctx).wf(),
            old(ctx).out.new_line,
            clean_stack(old(ctx).inputs@),
            old(ctx).inputs@.len() >= 1,
        ensures
            frame_kept(*old(ctx), *final(ctx)),
            stack_shifted(old(ctx).inputs@, final(ctx).inputs@, 1, 1),
            clean_stack(final(ctx).inputs@),
            st_of(*final(ctx)) == owned_extern_r2l(st_of(*old(ctx))),
    {
        let ghost st0 = st_of(*old(ctx));
        let ghost gv = st_hoisted(st0);
        proof {
            assert(clean_str(old(ctx).inputs@.last()@));
            assert(stack_view(old(ctx).inputs@).last() == old(ctx).inputs@.last()@);
        }
        let value = ctx.pop_complex();
        let ghost s1 = st_pop_complex(st0);
        proof {
            reveal_strlit("prereq");
            lemma_fresh_name_ident("prereq"@, spec_count(old(ctx).vars.top(), "prereq"@));
            prefix_step(old(ctx).text(), old(ctx).text(), ctx.text());
            assert(value@ == gv);
            assert(st_of(*ctx) =~~= s1);
        }
        let ghost tv = ctx.vars.top();
        let value_name = ctx.vars.next("value");
        let ghost s2 = st_next(s1, "value"@);
        proof {
            reveal_strlit("value");
            lemma_fresh_name_ident("value"@, spec_count(tv, "value"@));
            assert(clean_str(value_name@));
            assert(value_name@ == st_name(s1, "value"@));
            assert(st_of(*ctx) =~~= s2);
        }
        let mut line1 = String::from_str("local ");
        line1.append(value_name.as_str());
        line1.append(" = HEAP[");
        line1.append(value.as_str());
        line1.append("]");
        proof {
            reveal_strlit("local ");
            reveal_strlit(" = HEAP[");
            reveal_strlit("]");
            lemma_clean_concat("local "@, value_name@);
            lemma_clean_concat("local "@ + value_name@, " = HEAP["@);
            lemma_clean_concat("local "@ + value_name@ + " = HEAP["@, value@);
            lemma_clean_concat("local "@ + value_name@ + " = HEAP["@ + value@, "]"@);
        }
        let ghost g1 = *ctx;
        ctx.out.writeln(line1.as_str());
        let ghost s3 = st_line(s2, "local "@ + st_name(s1, "value"@) + " = HEAP["@ + gv + "]"@);
        proof {
            prefix_step(old(ctx).text(), g1.text(), ctx.text());
            assert(st_of(*ctx) =~~= s3);
        }
        let mut line2 = String::from_str("HEAP[");
        line2.append(value.as_str());
        line2.append("] = nil");
        proof {
            reveal_strlit("HEAP[");
            reveal_strlit("] = nil");
            lemma_clean_concat("HEAP["@, value@);
            lemma_clean_concat("HEAP["@ + value@, "] = nil"@);
        }
        let ghost g2 = *ctx;
        ctx.out.writeln(line2.as_str());
        let ghost s4 = st_line(s3, "HEAP["@ + gv + "] = nil"@);
        proof {
            prefix_step(old(ctx).text(), g2.text(), ctx.text());
            assert(st_of(*ctx) =~~= s4);
        }
        ctx.push(value_name);
        proof {
            assert(final(ctx).inputs@.subrange(0, old(ctx).inputs@.len() - 1)
                =~= old(ctx).inputs@.subrange(0, old(ctx).inputs@.len() - 1));
            lemma_prefix_refl(old(ctx).intrinsics.used_view());
            assert(st_of(*final(ctx)) =~~= owned_extern_r2l(st0));
        }
    }
}

/// Reads a borrowed heap handle without clearing the slot.
pub struct RustRefExternRefToLuau;

impl RustRefExternRefToLuau {
    pub fn get_inputs(&self) -> (r: usize)
        ensures
            r == 1,
    {
        1
    }

    pub fn get_outputs(&self) -> (r: usize)
        ensures
            r == 1,
    {
        1
    }

    pub fn render(&self, ctx: &mut InstructionContext)
        requires
            old(ctx).inputs@.len() >= 1,
            clean_stack(old(ctx).inputs@),
        ensures
            final(ctx).out == old(ctx).out,
            final(ctx).vars == old(ctx).vars,
            final(ctx).intrinsics == old(ctx).intrinsics,
            final(ctx).inputs@.len() == old(ctx).inputs@.len(),
            final(ctx).inputs@.drop_last() == old(ctx).inputs@.drop_last(),
            final(ctx).inputs@.last()@ == "HEAP["@ + old(ctx).inputs@.last()@ + "]"@,
            clean_stack(final(ctx).inputs@),
            st_of(*final(ctx)) == ref_extern_r2l(st_of(*old(ctx))),
    {
        let value = ctx.pop();
        let mut e = String::from_str("HEAP[");
        e.append(value.as_str());
        e.append("]");
        proof {
            reveal_strlit("HEAP[");
            reveal_strlit("]");
            assert(clean_str(old(ctx).inputs@.last()@));
            lemma_clean_concat("HEAP["@, value@);
            lemma_clean_concat("HEAP["@ + value@, "]"@);
        }
        ctx.push(e);
        proof {
            assert(final(ctx).inputs@.drop_last() =~= old(ctx).inputs@.drop_last());
            assert(stack_view(old(ctx).inputs@).last() == old(ctx).inputs@.last()@);
            assert(st_of(*final(ctx)) =~~= ref_extern_r2l(st_of(*old(ctx))));
        }
    }
}

/// Converts the guest's integer boolean into a script boolean.
pub struct RustBooleanToLuau;

impl RustBooleanToLuau {
    pub fn get_inputs(&self) -> (r: usize)
        ensures
            r == 1,
    {
        1
    }

    pub fn get_outputs(&self) -> (r: usize)
        ensures
            r == 1,
    {
        1
    }

    pub fn render(&self, ctx: &mut InstructionContext)
        requires
            old(ctx).inputs@.len() >= 1,
            clean_stack(old(ctx).inputs@),
        ensures
            final(ctx).out == old(ctx).out,
            final(ctx).vars == old(ctx).vars,
            final(ctx).intrinsics == old(ctx).intrinsics,
            final(ctx).inputs@.len() == old(ctx).inputs@.len(),
            final(ctx).inputs@.drop_last() == old(ctx).inputs@.drop_last(),
            final(ctx).inputs@.last()@ == old(ctx).inputs@.last()@ + " ~= 0"@,
            clean_stack(final(ctx).inputs@),
            st_of(*final(ctx)) == bool_r2l(st_of(*old(ctx))),
    {
        let value = ctx.pop();
        let mut e = String::from_str("");
        e.append(value.as_str());
        e.append(" ~= 0");
        proof {
            reveal_strlit("");
            reveal_strlit(" ~= 0");
            assert(clean_str(old(ctx).inputs@.last()@));
            lemma_clean_concat(""@ + value@, " ~= 0"@);
            assert(e@ =~= old(ctx).inputs@.last()@ + " ~= 0"@);
        }
        ctx.push(e);
        proof {
            assert(final(ctx).inputs@.drop_last() =~= old(ctx).inputs@.drop_last());
            assert(stack_view(old(ctx).inputs@).last() == old(ctx).inputs@.last()@);
            assert(st_of(*final(ctx)) =~~= bool_r2l(st_of(*old(ctx))));
        }
    }
}

/// Converts an optional guest value: when the discriminant slot is one, the
/// payload converts; otherwise the script sees nil.
pub struct RustOptionToLuau<'a> {
    pub ty: &'a Describe,
}

impl<'a> RustOptionToLuau<'a> {
    pub fn get_inputs(&self) -> (r: usize)
        requires
            self.ty.r2l_ok(),
            self.ty.sizes_ok(),
            self.ty.spec_value_count() < usize::MAX,
        ensures
            r == 1 + self.ty.spec_value_count(),
    {
        proof {
            lemma_r2l_ok_no_function(*self.ty);
        }
        1 + self.ty.value_count()
    }

    pub fn get_outputs(&self) -> (r: usize)
        ensures
            r == 1,
    {
        1
    }

    #[verifier::rlimit(80)]
    pub fn render(&self, ctx: &mut InstructionContext)
        requires
            old(ctx).wf(),
            old(ctx).out.new_line,
            clean_stack(old(ctx).inputs@),
            self.ty.r2l_ok(),
            self.ty.sizes_ok(),
            self.ty.spec_value_count() < usize::MAX,
            old(ctx).inputs@.len() >= 1 + self.ty.spec_value_count(),
            (self.ty.r2l_needs_free() ==> find_intrinsic(old(ctx).intrinsics.list(), "free"@)
                is Some),
            old(ctx).out.indent + 1 + self.ty.height() <= usize::MAX,
        ensures
            frame_kept(*old(ctx), *final(ctx)),
            stack_shifted(
                old(ctx).inputs@,
                final(ctx).inputs@,
                1 + self.ty.spec_value_count(),
                1,
            ),
            clean_stack(final(ctx).inputs@),
            st_of(*final(ctx)) == option_r2l(
                *self.ty,
                st_of(*old(ctx)),
                old(ctx).intrinsics.list(),
            ),
        decreases *self.ty, 1int,
    {
        let ghost st0 = st_of(*old(ctx));
        let ghost glist = old(ctx).intrinsics.list();
        let ghost n = self.ty.spec_value_count();
        let ghost gex = st0.stack[st0.stack.len() - 1 - n];
        proof {
            lemma_r2l_ok_no_function(*self.ty);
        }
        let count = self.ty.value_count();
        let existance_idx = ctx.inputs.len() - (1 + count);
        let existance = ctx.inputs[existance_idx].clone();
        proof {
            assert(clean_str(existance@)) by {
                assert(clean_str((old(ctx).inputs@[existance_idx as int])@));
            }
            assert(existance@ == gex) by {
                assert(stack_view(old(ctx).inputs@)[existance_idx as int] == old(
                    ctx,
                ).inputs@[existance_idx as int]@);
            }
        }
        let output_name = ctx.vars.next("optional");
        let ghost s1 = st_next(st0, "optional"@);
        proof {
            reveal_strlit("optional");
            lemma_fresh_name_ident(
                "optional"@,
                spec_count(old(ctx).vars.top(), "optional"@),
            );
            assert(clean_str(output_name@));
            assert(output_name@ == st_name(st0, "optional"@));
            assert(st_of(*ctx) =~~= s1);
        }
        let mut line1 = String::from_str("local ");
        line1.append(output_name.as_str());
        proof {
            reveal_strlit("local ");
            lemma_clean_concat("local "@, output_name@);
        }
        let ghost g1 = *ctx;
        ctx.out.writeln(line1.as_str());
        let ghost s2 = st_line(s1, "local "@ + st_name(st0, "optional"@));
        proof {
            prefix_step(old(ctx).text(), g1.text(), ctx.text());
            assert(st_of(*ctx) =~~= s2);
        }
        let mut ifline = String::from_str("if ");
        ifline.append(existance.as_str());
        ifline.append(" == 1 then");
        proof {
            reveal_strlit("if ");
            reveal_strlit(" == 1 then");
            lemma_clean_concat("if "@, existance@);
            lemma_clean_concat("if "@ + existance@, " == 1 then"@);
        }
        let ghost g2 = *ctx;
        ctx.out.writeln(ifline.as_str());
        ctx.out.up();
        let ghost s3 = st_indent(st_line(s2, "if "@ + gex + " == 1 then"@), st0.indent + 1);
        proof {
            prefix_step(old(ctx).text(), g2.text(), ctx.text());
            assert(st_of(*ctx) =~~= s3);
        }
        let ghost before_conv = *ctx;
        RustToLuau { ty: self.ty }.render(ctx);
        let ghost s4 = r2l_emit(*self.ty, s3, glist);
        proof {
            lemma_prefix_trans(old(ctx).text(), before_conv.text(), ctx.text());
            lemma_prefix_trans(
                old(ctx).intrinsics.used_view(),
                before_conv.intrinsics.used_view(),
                ctx.intrinsics.used_view(),
            );
            assert(ctx.inputs@.subrange(0, old(ctx).inputs@.len() - 1 - count) =~= old(
                ctx,
            ).inputs@.subrange(0, old(ctx).inputs@.len() - 1 - count));
            assert(before_conv.intrinsics.list() == glist);
            assert(st_of(before_conv) == s3);
            assert(st_of(*ctx) == s4);
        }
        let value = ctx.pop();
        let ghost gvalue = s4.stack.last();
        proof {
            assert(clean_str(value@));
            assert(value@ == gvalue);
            assert(st_of(*ctx) =~~= st_drop(s4, 1));
        }
        let mut setline = String::from_str("");
        setline.append(output_name.as_str());
        setline.append(" = ");
        setline.append(value.as_str());
        proof {
            reveal_strlit("");
            reveal_strlit(" = ");
            lemma_clean_concat(""@ + output_name@, " = "@);
            lemma_clean_concat(""@ + output_name@ + " = "@, value@);
            assert(setline@ =~= st_name(st0, "optional"@) + " = "@ + gvalue);
        }
        let ghost g3 = *ctx;
        ctx.out.writeln(setline.as_str());
        ctx.out.down();
        let ghost s5 = st_line(st_drop(s4, 1), st_name(st0, "optional"@) + " = "@ + gvalue);
        proof {
            reveal_strlit("end");
            prefix_step(old(ctx).text(), g3.text(), ctx.text());
            assert(st_of(*ctx) =~~= st_indent(s5, st0.indent));
        }
        let ghost g4 = *ctx;
        ctx.out.writeln("end");
        let ghost s6 = st_line(st_indent(s5, st0.indent), "end"@);
        proof {
            prefix_step(old(ctx).text(), g4.text(), ctx.text());
            assert(st_of(*ctx) =~~= s6);
        }
        let _ = ctx.pop();
        ctx.push(output_name);
        proof {
            assert(final(ctx).inputs@.subrange(0, old(ctx).inputs@.len() - 1 - count)
                =~= old(ctx).inputs@.subrange(0, old(ctx).inputs@.len() - 1 - count));
            assert(st_of(*final(ctx)) =~~= option_r2l(*self.ty, st0, glist));
        }
    }
}

} // verus!
