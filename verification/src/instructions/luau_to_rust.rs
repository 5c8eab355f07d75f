//! Script-to-guest conversions: each instruction consumes one script value
//! from the input stack and produces the guest ABI slots of its type.

use vstd::prelude::*;

use crate::describe::{
    lemma_l2r_ok_no_function, lemma_memory_size_ge_layout, lemma_value_count_primitives,
    Describe,
};
use crate::emitter::{
    find_intrinsic, fresh_name, lemma_find_intrinsic_clean, lemma_fresh_name_ident,
    lemma_names_n_clean, spec_bump, spec_count, tabs, InstructionContext,
};
use crate::instructions::imports::{st_wm, WriteMemory};
use crate::instructions::{
    clean_stack, frame_kept, hoist_name, hoist_scope, lemma_prefix_concat, lemma_prefix_refl,
    lemma_prefix_trans, st_drop, st_hoisted, st_indent, st_line, st_name, st_next, st_of,
    st_pop_complex, st_push, st_use, stack_shifted, stack_view, intr_name, EmitState,
};
use crate::emitter::{bump_n, names_n};
use crate::strutil::spec_dec;
use crate::strutil::{clean_str, lemma_clean_concat, lemma_dec_clean};

verus! {

/// The common precondition of every script-to-guest render: a well-formed
/// context standing at a line start, with newline-free stack entries, a
/// supported type whose sizes fit the machine, the allocator present when
/// needed, and room for the blocks the conversion opens.
pub open spec fn l2r_ready(ctx: InstructionContext, ty: Describe) -> bool {
    &&& ctx.wf()
    &&& ctx.out.new_line
    &&& clean_stack(ctx.inputs@)
    &&& ctx.inputs@.len() >= 1
    &&& ty.l2r_ok()
    &&& ty.sizes_ok()
    &&& (ty.l2r_needs_alloc() ==> find_intrinsic(ctx.intrinsics.list(), "alloc"@) is Some)
    &&& ctx.out.indent + ty.height() <= usize::MAX
}

/// What every script-to-guest render guarantees: the frame is kept, one
/// entry was consumed for the type's slots, and the stack stays clean.
pub open spec fn l2r_done(
    pre: InstructionContext,
    post: InstructionContext,
    ty: Describe,
) -> bool {
    &&& frame_kept(pre, post)
    &&& stack_shifted(pre.inputs@, post.inputs@, 1, ty.spec_value_count())
    &&& clean_stack(post.inputs@)
}

/// The `local <name> = 0` lines for a list of slot names.
pub open spec fn zero_lines(names: Seq<Seq<char>>, indent: nat) -> Seq<char>
    decreases names.len(),
{
    if names.len() == 0 {
        Seq::empty()
    } else {
        tabs(indent) + "local "@ + names[0] + " = 0"@ + seq!['\n'] + zero_lines(
            names.drop_first(),
            indent,
        )
    }
}

/// The `<name> = <expr>` assignment lines for paired names and expressions.
pub open spec fn assign_lines(
    names: Seq<Seq<char>>,
    exprs: Seq<Seq<char>>,
    indent: nat,
) -> Seq<char>
    decreases names.len(),
{
    if names.len() == 0 {
        Seq::empty()
    } else {
        tabs(indent) + names[0] + " = "@ + exprs[0] + seq!['\n'] + assign_lines(
            names.drop_first(),
            exprs.drop_first(),
            indent,
        )
    }
}

/// What converting a script boolean emits: the top expression becomes the
/// guest's one-or-zero conditional.
pub open spec fn bool_l2r(st: EmitState) -> EmitState {
    EmitState {
        stack: st.stack.drop_last().push("if "@ + st.stack.last() + " then 1 else 0"@),
        ..st
    }
}

/// What registering a script value in the heap table emits: a fresh handle
/// local fed from the bumped counter, the store, and the handle on the
/// stack.
pub open spec fn extern_l2r(st: EmitState) -> EmitState {
    let heap = st_name(st, "heap"@);
    let st1 = st_next(st, "heap"@);
    let st2 = st_line(st1, "HEAP_ID += 1"@);
    let st3 = st_line(st2, "local "@ + heap + " = HEAP_ID"@);
    let st4 = st_line(st3, "HEAP[HEAP_ID] = "@ + st.stack.last());
    EmitState { stack: st.stack.drop_last().push(heap), ..st4 }
}

/// What copying a script string into guest memory emits: the hoisted value,
/// an allocation of its byte length with alignment one, the byte store, and
/// the (pointer, length) pair on the stack.
pub open spec fn string_l2r(st: EmitState, list: Seq<(Seq<char>, Seq<char>)>) -> EmitState {
    let v = st_hoisted(st);
    let st1 = st_pop_complex(st);
    let result = st_name(st1, "string"@);
    let st2 = st_use(st_next(st1, "string"@), "alloc"@);
    let a = intr_name(list, "alloc"@);
    let st3 = st_line(st2, "local "@ + result + " = "@ + a + "(#"@ + v + ", 1)"@);
    let st4 = st_line(st3, "buffer.writestring(MEMORY.data, "@ + result + ", "@ + v + ")"@);
    st_push(st_push(st4, result), seq!['#'] + v)
}

/// What copying a script array into guest memory emits: an allocation of
/// `#v * size` bytes at alignment four, a loop converting each element and
/// writing it at its aligned offsets, and the (pointer, length) pair.
pub open spec fn vec_l2r(
    elem: Describe,
    st: EmitState,
    list: Seq<(Seq<char>, Seq<char>)>,
) -> EmitState
    decreases elem, 1int,
{
    let v = st_hoisted(st);
    let st1 = st_pop_complex(st);
    let var = st_name(st1, "vec"@);
    let st2 = st_use(st_next(st1, "vec"@), "alloc"@);
    let a = intr_name(list, "alloc"@);
    let size = spec_dec(elem.spec_memory_size());
    let st3 = st_line(st2, "local "@ + var + " = "@ + a + "(#"@ + v + " * "@ + size + ", 4)"@);
    let st4 = st_line(st3, "for i, v in ipairs("@ + v + ") do"@);
    let st5 = l2r_emit(elem, st_push(st_indent(st4, st.indent + 1), "v"@), list);
    let st6 = st_wm(st_push(st5, var + " + (i - 1) * "@ + size), elem.spec_primitives());
    let st7 = st_line(st_indent(st6, st.indent), "end"@);
    st_push(st_push(st7, var), seq!['#'] + v)
}

/// What converting an optional script value emits: zeroed discriminant and
/// payload locals, a nil test that sets the discriminant and assigns the
/// recursively converted payload, and the slot names on the stack.
pub open spec fn option_l2r(
    elem: Describe,
    st: EmitState,
    list: Seq<(Seq<char>, Seq<char>)>,
) -> EmitState
    decreases elem, 1int,
{
    let v = st_hoisted(st);
    let st1 = st_pop_complex(st);
    let ex = st_name(st1, "option"@);
    let st2 = st_next(st1, "option"@);
    let n = elem.spec_value_count();
    let names = names_n(st2.scope, "option"@, n);
    let st3 = EmitState { scope: bump_n(st2.scope, "option"@, n), ..st2 };
    let st4 = st_line(st3, "local "@ + ex + " = 0"@);
    let st5 = EmitState { text: st4.text + zero_lines(names, st.indent), ..st4 };
    let st6 = st_line(st5, "if "@ + v + " ~= nil then"@);
    let st7 = st_line(st_indent(st6, st.indent + 1), ex + " = 1"@);
    let st8 = l2r_emit(elem, st_push(st7, v), list);
    let exprs = st8.stack.subrange(st8.stack.len() - n, st8.stack.len() as int);
    let st9 = st_drop(st8, n);
    let st10 = EmitState {
        text: st9.text + assign_lines(names, exprs, st.indent + 1),
        ..st9
    };
    let st11 = st_line(st_indent(st10, st.indent), "end"@);
    EmitState { stack: st11.stack.push(ex) + names, ..st11 }
}

/// What the script-to-guest conversion of a whole type emits, per the
/// conversion table: passthrough for numbers, and the leaf pieces above.
pub open spec fn l2r_emit(
    ty: Describe,
    st: EmitState,
    list: Seq<(Seq<char>, Seq<char>)>,
) -> EmitState
    decreases ty, 0int,
{
    match ty {
        Describe::Boolean => bool_l2r(st),
        Describe::ExternRef => extern_l2r(st),
        Describe::Void => st_drop(st, 1),
        Describe::String => string_l2r(st, list),
        Describe::Option { ty } => option_l2r(*ty, st, list),
        Describe::Vector { ty } => vec_l2r(*ty, st, list),
        _ => st,
    }
}

/// Taking the zeroing lines one name further.
pub proof fn lemma_zero_lines_take(names: Seq<Seq<char>>, indent: nat, i: int)
    requires
        1 <= i <= names.len(),
    ensures
        zero_lines(names.take(i), indent) == zero_lines(names.take(i - 1), indent) + (tabs(
            indent,
        ) + "local "@ + names[i - 1] + " = 0"@ + seq!['\n']),
    decreases i,
{
    if i == 1 {
        assert(names.take(1)[0] == names[0]);
        assert(names.take(1).drop_first() =~= names.take(0));
        assert(zero_lines(names.take(1), indent) =~= zero_lines(names.take(0), indent) + (
        tabs(indent) + "local "@ + names[0] + " = 0"@ + seq!['\n']));
    } else {
        lemma_zero_lines_take(names.drop_first(), indent, i - 1);
        assert(names.take(i).drop_first() =~= names.drop_first().take(i - 1));
        assert(names.take(i - 1).drop_first() =~= names.drop_first().take(i - 2));
        assert(names.take(i)[0] == names[0]);
        assert(names.take(i - 1)[0] == names[0]);
        assert(names.drop_first()[i - 2] == names[i - 1]);
        assert(zero_lines(names.take(i), indent) =~= zero_lines(names.take(i - 1), indent) + (
        tabs(indent) + "local "@ + names[i - 1] + " = 0"@ + seq!['\n']));
    }
}

/// Taking the assignment lines one pair further.
pub proof fn lemma_assign_lines_take(
    names: Seq<Seq<char>>,
    exprs: Seq<Seq<char>>,
    indent: nat,
    i: int,
)
    requires
        1 <= i <= names.len(),
        names.len() <= exprs.len(),
    ensures
        assign_lines(names.take(i), exprs.take(i), indent) == assign_lines(
            names.take(i - 1),
            exprs.take(i - 1),
            indent,
        ) + (tabs(indent) + names[i - 1] + " = "@ + exprs[i - 1] + seq!['\n']),
    decreases i,
{
    if i == 1 {
        assert(names.take(1)[0] == names[0]);
        assert(exprs.take(1)[0] == exprs[0]);
        assert(names.take(1).drop_first() =~= names.take(0));
        assert(exprs.take(1).drop_first() =~= exprs.take(0));
        assert(assign_lines(names.take(1), exprs.take(1), indent) =~= assign_lines(
            names.take(0),
            exprs.take(0),
            indent,
        ) + (tabs(indent) + names[0] + " = "@ + exprs[0] + seq!['\n']));
    } else {
        lemma_assign_lines_take(names.drop_first(), exprs.drop_first(), indent, i - 1);
        assert(names.take(i).drop_first() =~= names.drop_first().take(i - 1));
        assert(names.take(i - 1).drop_first() =~= names.drop_first().take(i - 2));
        assert(exprs.take(i).drop_first() =~= exprs.drop_first().take(i - 1));
        assert(exprs.take(i - 1).drop_first() =~= exprs.drop_first().take(i - 2));
        assert(names.take(i)[0] == names[0]);
        assert(exprs.take(i)[0] == exprs[0]);
        assert(names.take(i - 1)[0] == names[0]);
        assert(exprs.take(i - 1)[0] == exprs[0]);
        assert(names.drop_first()[i - 2] == names[i - 1]);
        assert(exprs.drop_first()[i - 2] == exprs[i - 1]);
        assert(assign_lines(names.take(i), exprs.take(i), indent) =~= assign_lines(
            names.take(i - 1),
            exprs.take(i - 1),
            indent,
        ) + (tabs(indent) + names[i - 1] + " = "@ + exprs[i - 1] + seq!['\n']));
    }
}

/// Dispatches the script-to-guest conversion for `ty`.
pub struct LuauToRust<'a> {
    pub ty: &'a Describe,
}

impl<'a> LuauToRust<'a> {
    pub fn get_inputs(&self) -> (r: usize)
        ensures
            r == 1,
    {
        1
    }

    pub fn get_outputs(&self) -> (r: usize)
        requires
            self.ty.l2r_ok(),
            self.ty.sizes_ok(),
        ensures
            r == self.ty.spec_value_count(),
    {
        proof {
            lemma_l2r_ok_no_function(*self.ty);
        }
        self.ty.value_count()
    }

    pub fn render(&self, ctx: &mut InstructionContext)
        requires
            l2r_ready(*old(ctx), *self.ty),
        ensures
            l2r_done(*old(ctx), *final(ctx), *self.ty),
            self.ty.passthrough() ==> *final(ctx) == *old(ctx),
            st_of(*final(ctx)) == l2r_emit(
                *self.ty,
                st_of(*old(ctx)),
                old(ctx).intrinsics.list(),
            ),
        decreases *self.ty, 0int,
    {
        let ghost pre = *old(ctx);
        match self.ty {
            Describe::F32
            | Describe::F64
            | Describe::U8
            | Describe::U16
            | Describe::U32
            | Describe::I8
            | Describe::I16
            | Describe::I32 => {
                proof {
                    lemma_prefix_refl(pre.text());
                    lemma_prefix_refl(pre.intrinsics.used_view());
                    assert(final(ctx).inputs@.subrange(0, pre.inputs@.len() - 1)
                        =~= pre.inputs@.subrange(0, pre.inputs@.len() - 1));
                }
            },
            Describe::ExternRef => {
                LuauExternRefToRust.render(ctx);
                proof {
                    lemma_prefix_concat(pre.text(), final(ctx).text().skip(pre.text().len() as int));
                    assert(pre.text() + final(ctx).text().skip(pre.text().len() as int)
                        =~= final(ctx).text());
                    lemma_prefix_refl(pre.intrinsics.used_view());
                    assert(final(ctx).inputs@.subrange(0, pre.inputs@.len() - 1)
                        =~= pre.inputs@.drop_last());
                    assert(pre.inputs@.subrange(0, pre.inputs@.len() - 1)
                        =~= pre.inputs@.drop_last());
                }
            },
            Describe::Boolean => {
                LuauBooleanToRust.render(ctx);
                proof {
                    lemma_prefix_refl(pre.text());
                    lemma_prefix_refl(pre.intrinsics.used_view());
                    assert(final(ctx).inputs@.subrange(0, pre.inputs@.len() - 1)
                        =~= pre.inputs@.subrange(0, pre.inputs@.len() - 1));
                }
            },
            Describe::String => LuauStringToRust.render(ctx),
            Describe::Option { ty } => LuauOptionToRust { ty: &**ty }.render(ctx),
            Describe::Vector { ty } => LuauVecToRust { ty: &**ty }.render(ctx),
            Describe::Void => {
                let _ = ctx.pop();
                proof {
                    lemma_prefix_refl(pre.text());
                    lemma_prefix_refl(pre.intrinsics.used_view());
                    assert(final(ctx).inputs@.subrange(0, pre.inputs@.len() - 1)
                        =~= pre.inputs@.subrange(0, pre.inputs@.len() - 1));
                    assert(st_of(*final(ctx)) =~~= st_drop(st_of(pre), 1));
                }
            },
            _ => vstd::pervasive::unreached(),
        }
        proof {
            if self.ty.passthrough() {
                assert(st_of(*final(ctx)) =~~= l2r_emit(
                    *self.ty,
                    st_of(pre),
                    pre.intrinsics.list(),
                ));
            }
        }
    }
}

/// Converts a script boolean into the guest's `1` or `0`.
pub struct LuauBooleanToRust;

impl LuauBooleanToRust {
    pub fn get_inputs(&self) -> (r: usize)
        ensures
            r == 1,
    {
        1
    }

    pub fn get_outputs(&self) -> (r: usize)
        ensures
            r == 1,
    {
        1
    }

    pub fn render(&self, ctx: &mut InstructionContext)
        requires
            old(ctx).inputs@.len() >= 1,
            clean_stack(old(ctx).inputs@),
        ensures
            final(ctx).out == old(ctx).out,
            final(ctx).vars == old(ctx).vars,
            final(ctx).intrinsics == old(ctx).intrinsics,
            final(ctx).inputs@.len() == old(ctx).inputs@.len(),
            final(ctx).inputs@.drop_last() == old(ctx).inputs@.drop_last(),
            final(ctx).inputs@.last()@ == "if "@ + old(ctx).inputs@.last()@
                + " then 1 else 0"@,
            clean_stack(final(ctx).inputs@),
            st_of(*final(ctx)) == bool_l2r(st_of(*old(ctx))),
    {
        let value = ctx.pop();
        let mut e = String::from_str("if ");
        e.append(value.as_str());
        e.append(" then 1 else 0");
        proof {
            reveal_strlit("if ");
            reveal_strlit(" then 1 else 0");
            assert(clean_str(old(ctx).inputs@.last()@));
            lemma_clean_concat("if "@, value@);
            lemma_clean_concat("if "@ + value@, " then 1 else 0"@);
        }
        ctx.push(e);
        proof {
            assert(final(ctx).inputs@.drop_last() =~= old(ctx).inputs@.drop_last());
            assert(stack_view(old(ctx).inputs@).last() == old(ctx).inputs@.last()@);
            assert(st_of(*final(ctx)) =~~= bool_l2r(st_of(*old(ctx))));
        }
    }
}

/// Moves a script value into the heap table and hands the guest its handle.
pub struct LuauExternRefToRust;

impl LuauExternRefToRust {
    pub fn get_inputs(&self) -> (r: usize)
        ensures
            r == 1,
    {
        1
    }

    pub fn get_outputs(&self) -> (r: usize)
        ensures
            r == 1,
    {
        1
    }

    pub fn render(&self, ctx: &mut InstructionContext)
        requires
            old(ctx).wf(),
            old(ctx).out.new_line,
            old(ctx).inputs@.len() >= 1,
            clean_stack(old(ctx).inputs@),
        ensures
            final(ctx).wf(),
            final(ctx).out.new_line,
            final(ctx).out.indent == old(ctx).out.indent,
            final(ctx).intrinsics == old(ctx).intrinsics,
            final(ctx).vars.scopes() == old(ctx).vars.scopes().drop_last().push(
                spec_bump(old(ctx).vars.top(), "heap"@),
            ),
            final(ctx).text() == old(ctx).text() + tabs(old(ctx).out.indent as nat)
                + "HEAP_ID += 1"@ + seq!['\n'] + tabs(old(ctx).out.indent as nat) + "local "@
                + fresh_name("heap"@, spec_count(old(ctx).vars.top(), "heap"@))
                + " = HEAP_ID"@ + seq!['\n'] + tabs(old(ctx).out.indent as nat)
                + "HEAP[HEAP_ID] = "@ + old(ctx).inputs@.last()@ + seq!['\n'],
            final(ctx).inputs@.len() == old(ctx).inputs@.len(),
            final(ctx).inputs@.drop_last() == old(ctx).inputs@.drop_last(),
            final(ctx).inputs@.last()@ == fresh_name(
                "heap"@,
                spec_count(old(ctx).vars.top(), "heap"@),
            ),
            clean_stack(final(ctx).inputs@),
            st_of(*final(ctx)) == extern_l2r(st_of(*old(ctx))),
    {
        let heap = ctx.vars.next("heap");
        proof {
            reveal_strlit("heap");
            reveal_strlit("HEAP_ID += 1");
            lemma_fresh_name_ident("heap"@, spec_count(old(ctx).vars.top(), "heap"@));
            assert(ctx.vars.scopes() =~~= old(ctx).vars.scopes().drop_last().push(
                spec_bump(old(ctx).vars.top(), "heap"@),
            ));
        }
        let value = ctx.pop();
        ctx.out.writeln("HEAP_ID += 1");
        let mut line2 = String::from_str("local ");
        line2.append(heap.as_str());
        line2.append(" = HEAP_ID");
        proof {
            reveal_strlit("local ");
            reveal_strlit(" = HEAP_ID");
            lemma_clean_concat("local "@, heap@);
            lemma_clean_concat("local "@ + heap@, " = HEAP_ID"@);
        }
        ctx.out.writeln(line2.as_str());
        let mut line3 = String::from_str("HEAP[HEAP_ID] = ");
        line3.append(value.as_str());
        proof {
            reveal_strlit("HEAP[HEAP_ID] = ");
            assert(clean_str(old(ctx).inputs@.last()@));
            lemma_clean_concat("HEAP[HEAP_ID] = "@, value@);
        }
        ctx.out.writeln(line3.as_str());
        ctx.push(heap);
        proof {
            assert(final(ctx).inputs@.drop_last() =~= old(ctx).inputs@.drop_last());
            assert(final(ctx).text() =~= old(ctx).text() + tabs(old(ctx).out.indent as nat)
                + "HEAP_ID += 1"@ + seq!['\n'] + tabs(old(ctx).out.indent as nat) + "local "@
                + fresh_name("heap"@, spec_count(old(ctx).vars.top(), "heap"@))
                + " = HEAP_ID"@ + seq!['\n'] + tabs(old(ctx).out.indent as nat)
                + "HEAP[HEAP_ID] = "@ + old(ctx).inputs@.last()@ + seq!['\n']);
            assert(stack_view(old(ctx).inputs@).last() == old(ctx).inputs@.last()@);
            assert(st_of(*final(ctx)) =~~= extern_l2r(st_of(*old(ctx))));
        }
    }
}

/// Copies a script string into guest memory through `alloc`, producing the
/// (pointer, length) pair.
pub struct LuauStringToRust;

impl LuauStringToRust {
    pub fn get_inputs(&self) -> (r: usize)
        ensures
            r == 1,
    {
        1
    }

    pub fn get_outputs(&self) -> (r: usize)
        ensures
            r == 2,
    {
        2
    }

    #[verifier::rlimit(80)]
    pub fn render(&self, ctx: &mut InstructionContext)
        requires
            old(ctx).wf(),
            old(ctx).out.new_line,
            old(ctx).inputs@.len() >= 1,
            clean_stack(old(ctx).inputs@),
            find_intrinsic(old(ctx).intrinsics.list(), "alloc"@) is Some,
        ensures
            frame_kept(*old(ctx), *final(ctx)),
            stack_shifted(old(ctx).inputs@, final(ctx).inputs@, 1, 2),
            clean_stack(final(ctx).inputs@),
            final(ctx).inputs@.last()@ == seq!['#'] + hoist_name(
                old(ctx).vars.top(),
                old(ctx).inputs@.last()@,
            ),
            final(ctx).inputs@[final(ctx).inputs@.len() - 2]@ == fresh_name(
                "string"@,
                spec_count(
                    hoist_scope(old(ctx).vars.top(), old(ctx).inputs@.last()@),
                    "string"@,
                ),
            ),
            st_of(*final(ctx)) == string_l2r(st_of(*old(ctx)), old(ctx).intrinsics.list()),
    {
        proof {
            assert(clean_str(old(ctx).inputs@.last()@));
        }
        let value = ctx.pop_complex();
        let result = ctx.vars.next("string");
        let alloc = match ctx.intrinsics.get("alloc") {
            Some(a) => a,
            None => vstd::pervasive::unreached(),
        };
        proof {
            reveal_strlit("string");
            reveal_strlit("prereq");
            lemma_fresh_name_ident("prereq"@, spec_count(old(ctx).vars.top(), "prereq"@));
            lemma_fresh_name_ident(
                "string"@,
                spec_count(
                    hoist_scope(old(ctx).vars.top(), old(ctx).inputs@.last()@),
                    "string"@,
                ),
            );
            lemma_find_intrinsic_clean(old(ctx).intrinsics.list(), "alloc"@);
        }
        let mut line1 = String::from_str("local ");
        line1.append(result.as_str());
        line1.append(" = ");
        line1.append(alloc.as_str());
        line1.append("(#");
        line1.append(value.as_str());
        line1.append(", 1)");
        proof {
            reveal_strlit("local ");
            reveal_strlit(" = ");
            reveal_strlit("(#");
            reveal_strlit(", 1)");
            lemma_clean_concat("local "@, result@);
            lemma_clean_concat("local "@ + result@, " = "@);
            lemma_clean_concat("local "@ + result@ + " = "@, alloc@);
            lemma_clean_concat("local "@ + result@ + " = "@ + alloc@, "(#"@);
            lemma_clean_concat("local "@ + result@ + " = "@ + alloc@ + "(#"@, value@);
            lemma_clean_concat(
                "local "@ + result@ + " = "@ + alloc@ + "(#"@ + value@,
                ", 1)"@,
            );
        }
        ctx.out.writeln(line1.as_str());
        let mut line2 = String::from_str("buffer.writestring(MEMORY.data, ");
        line2.append(result.as_str());
        line2.append(", ");
        line2.append(value.as_str());
        line2.append(")");
        proof {
            reveal_strlit("buffer.writestring(MEMORY.data, ");
            reveal_strlit(", ");
            reveal_strlit(")");
            lemma_clean_concat("buffer.writestring(MEMORY.data, "@, result@);
            lemma_clean_concat("buffer.writestring(MEMORY.data, "@ + result@, ", "@);
            lemma_clean_concat(
                "buffer.writestring(MEMORY.data, "@ + result@ + ", "@,
                value@,
            );
            lemma_clean_concat(
                "buffer.writestring(MEMORY.data, "@ + result@ + ", "@ + value@,
                ")"@,
            );
        }
        ctx.out.writeln(line2.as_str());
        ctx.push(result);
        let mut len_expr = String::from_str("#");
        len_expr.append(value.as_str());
        proof {
            reveal_strlit("#");
            lemma_clean_concat("#"@, value@);
        }
        ctx.push(len_expr);
        proof {
            assert(final(ctx).inputs@.subrange(0, old(ctx).inputs@.len() - 1)
                =~= old(ctx).inputs@.subrange(0, old(ctx).inputs@.len() - 1));
            lemma_prefix_concat(
                old(ctx).text(),
                final(ctx).text().skip(old(ctx).text().len() as int),
            );
            assert(old(ctx).text() + final(ctx).text().skip(old(ctx).text().len() as int)
                =~= final(ctx).text());
            assert(final(ctx).inputs@.last()@ =~= seq!['#'] + hoist_name(
                old(ctx).vars.top(),
                old(ctx).inputs@.last()@,
            ));
            assert(stack_view(old(ctx).inputs@).last() == old(ctx).inputs@.last()@);
            assert(st_of(*final(ctx)) =~~= string_l2r(
                st_of(*old(ctx)),
                old(ctx).intrinsics.list(),
            ));
        }
    }
}

/// Copies a script array into freshly allocated guest memory, one element
/// at a time, producing the (pointer, length) pair.
pub struct LuauVecToRust<'a> {
    pub ty: &'a Describe,
}

impl<'a> LuauVecToRust<'a> {
    pub fn get_inputs(&self) -> (r: usize)
        ensures
            r == 1,
    {
        1
    }

    pub fn get_outputs(&self) -> (r: usize)
        ensures
            r == 2,
    {
        2
    }

    #[verifier::rlimit(80)]
    pub fn render(&self, ctx: &mut InstructionContext)
        requires
            old(ctx).wf(),
            old(ctx).out.new_line,
            old(ctx).inputs@.len() >= 1,
            clean_stack(old(ctx).inputs@),
            self.ty.l2r_ok(),
            self.ty.sizes_ok(),
            find_intrinsic(old(ctx).intrinsics.list(), "alloc"@) is Some,
            old(ctx).out.indent + 1 + self.ty.height() <= usize::MAX,
        ensures
            frame_kept(*old(ctx), *final(ctx)),
            stack_shifted(old(ctx).inputs@, final(ctx).inputs@, 1, 2),
            clean_stack(final(ctx).inputs@),
            st_of(*final(ctx)) == vec_l2r(
                *self.ty,
                st_of(*old(ctx)),
                old(ctx).intrinsics.list(),
            ),
        decreases *self.ty, 1int,
    {
        let ghost st0 = st_of(*old(ctx));
        let ghost glist = old(ctx).intrinsics.list();
        let ghost gv = st_hoisted(st0);
        proof {
            assert(clean_str(old(ctx).inputs@.last()@));
            lemma_l2r_ok_no_function(*self.ty);
            assert(stack_view(old(ctx).inputs@).last() == old(ctx).inputs@.last()@);
        }
        let vec = ctx.pop_complex();
        let ghost s1 = st_pop_complex(st0);
        proof {
            prefix_step(old(ctx).text(), old(ctx).text(), ctx.text());
            assert(vec@ == gv);
            assert(st_of(*ctx) =~~= s1);
        }
        let var = ctx.vars.next("vec");
        let alloc = match ctx.intrinsics.get("alloc") {
            Some(a) => a,
            None => vstd::pervasive::unreached(),
        };
        let size = self.ty.memory_size();
        let primitives = self.ty.primitive_values();
        let size_str = crate::strutil::dec_string_usize(size);
        let ghost s2 = st_use(st_next(s1, "vec"@), "alloc"@);
        proof {
            reveal_strlit("vec");
            reveal_strlit("prereq");
            lemma_fresh_name_ident("prereq"@, spec_count(old(ctx).vars.top(), "prereq"@));
            lemma_fresh_name_ident(
                "vec"@,
                spec_count(
                    hoist_scope(old(ctx).vars.top(), old(ctx).inputs@.last()@),
                    "vec"@,
                ),
            );
            lemma_find_intrinsic_clean(old(ctx).intrinsics.list(), "alloc"@);
            lemma_dec_clean(size as nat);
            assert(var@ == st_name(s1, "vec"@));
            assert(alloc@ == intr_name(glist, "alloc"@));
            assert(st_of(*ctx) =~~= s2);
        }
        let mut line1 = String::from_str("local ");
        line1.append(var.as_str());
        line1.append(" = ");
        line1.append(alloc.as_str());
        line1.append("(#");
        line1.append(vec.as_str());
        line1.append(" * ");
        line1.append(size_str.as_str());
        line1.append(", 4)");
        proof {
            reveal_strlit("local ");
            reveal_strlit(" = ");
            reveal_strlit("(#");
            reveal_strlit(" * ");
            reveal_strlit(", 4)");
            lemma_clean_concat("local "@, var@);
            lemma_clean_concat("local "@ + var@, " = "@);
            lemma_clean_concat("local "@ + var@ + " = "@, alloc@);
            lemma_clean_concat("local "@ + var@ + " = "@ + alloc@, "(#"@);
            lemma_clean_concat("local "@ + var@ + " = "@ + alloc@ + "(#"@, vec@);
            lemma_clean_concat("local "@ + var@ + " = "@ + alloc@ + "(#"@ + vec@, " * "@);
            lemma_clean_concat(
                "local "@ + var@ + " = "@ + alloc@ + "(#"@ + vec@ + " * "@,
                size_str@,
            );
            lemma_clean_concat(
                "local "@ + var@ + " = "@ + alloc@ + "(#"@ + vec@ + " * "@ + size_str@,
                ", 4)"@,
            );
        }
        let ghost g1 = *ctx;
        ctx.out.writeln(line1.as_str());
        let ghost s3 = st_line(
            s2,
            "local "@ + st_name(s1, "vec"@) + " = "@ + intr_name(glist, "alloc"@) + "(#"@ + gv
                + " * "@ + spec_dec(self.ty.spec_memory_size()) + ", 4)"@,
        );
        proof {
            prefix_step(old(ctx).text(), g1.text(), ctx.text());
            assert(line1@ =~= "local "@ + st_name(s1, "vec"@) + " = "@ + intr_name(
                glist,
                "alloc"@,
            ) + "(#"@ + gv + " * "@ + spec_dec(self.ty.spec_memory_size()) + ", 4)"@);
            assert(st_of(*ctx) =~~= s3);
        }
        let mut forline = String::from_str("for i, v in ipairs(");
        forline.append(vec.as_str());
        forline.append(") do");
        proof {
            reveal_strlit("for i, v in ipairs(");
            reveal_strlit(") do");
            lemma_clean_concat("for i, v in ipairs("@, vec@);
            lemma_clean_concat("for i, v in ipairs("@ + vec@, ") do"@);
        }
        let ghost g2 = *ctx;
        ctx.out.writeln(forline.as_str());
        ctx.out.up();
        let ghost s4 = st_indent(
            st_line(s3, "for i, v in ipairs("@ + gv + ") do"@),
            st0.indent + 1,
        );
        proof {
            prefix_step(old(ctx).text(), g2.text(), ctx.text());
            assert(st_of(*ctx) =~~= s4);
        }
        ctx.push(String::from_str("v"));
        let ghost s5 = st_push(s4, "v"@);
        proof {
            reveal_strlit("v");
            assert(clean_stack(ctx.inputs@));
            assert(ctx.inputs@.subrange(0, old(ctx).inputs@.len() - 1)
                =~= old(ctx).inputs@.subrange(0, old(ctx).inputs@.len() - 1));
            assert(st_of(*ctx) =~~= s5);
        }
        let ghost before_conv = *ctx;
        LuauToRust { ty: self.ty }.render(ctx);
        let ghost s6 = l2r_emit(*self.ty, s5, glist);
        proof {
            assert(ctx.inputs@.subrange(0, old(ctx).inputs@.len() - 1) =~= old(
                ctx,
            ).inputs@.subrange(0, old(ctx).inputs@.len() - 1));
            lemma_prefix_trans(old(ctx).text(), before_conv.text(), ctx.text());
            lemma_prefix_trans(
                old(ctx).intrinsics.used_view(),
                before_conv.intrinsics.used_view(),
                ctx.intrinsics.used_view(),
            );
            assert(before_conv.intrinsics.list() == glist);
            assert(st_of(before_conv) == s5);
            assert(st_of(*ctx) == s6);
        }
        let mut elem_ptr = String::from_str("");
        elem_ptr.append(var.as_str());
        elem_ptr.append(" + (i - 1) * ");
        elem_ptr.append(size_str.as_str());
        proof {
            reveal_strlit("");
            reveal_strlit(" + (i - 1) * ");
            lemma_clean_concat(""@ + var@, " + (i - 1) * "@);
            lemma_clean_concat(""@ + var@ + " + (i - 1) * "@, size_str@);
        }
        ctx.push(elem_ptr);
        let ghost s7 = st_push(
            s6,
            st_name(s1, "vec"@) + " + (i - 1) * "@ + spec_dec(self.ty.spec_memory_size()),
        );
        proof {
            lemma_value_count_primitives(*self.ty);
            lemma_memory_size_ge_layout(*self.ty);
            if self.ty.spec_primitives().len() == 0 {
                assert(crate::describe::layout_size(self.ty.spec_primitives(), 0) == 0);
            }
            assert(elem_ptr@ =~= st_name(s1, "vec"@) + " + (i - 1) * "@ + spec_dec(
                self.ty.spec_memory_size(),
            ));
            assert(st_of(*ctx) =~~= s7);
        }
        let ghost before_wm = *ctx;
        WriteMemory { primitives: primitives.as_slice() }.render(ctx);
        let ghost s8 = st_wm(s7, self.ty.spec_primitives());
        proof {
            assert(ctx.inputs@ =~= before_wm.inputs@.subrange(
                0,
                before_wm.inputs@.len() - (1 + primitives@.len()),
            ));
            assert(ctx.inputs@ =~= old(ctx).inputs@.drop_last());
            prefix_step(old(ctx).text(), before_wm.text(), ctx.text());
            assert(st_of(before_wm) == s7);
            assert(st_of(*ctx) == s8);
        }
        ctx.out.down();
        proof {
            reveal_strlit("end");
        }
        let ghost g3 = *ctx;
        ctx.out.writeln("end");
        let ghost s9 = st_line(st_indent(s8, st0.indent), "end"@);
        proof {
            prefix_step(old(ctx).text(), g3.text(), ctx.text());
            assert(st_of(*ctx) =~~= s9);
        }
        ctx.push(var);
        let mut len_expr = String::from_str("#");
        len_expr.append(vec.as_str());
        proof {
            reveal_strlit("#");
            lemma_clean_concat("#"@, vec@);
        }
        ctx.push(len_expr);
        proof {
            assert(final(ctx).inputs@.subrange(0, old(ctx).inputs@.len() - 1)
                =~= old(ctx).inputs@.subrange(0, old(ctx).inputs@.len() - 1));
            assert(st_of(*final(ctx)) =~~= st_push(st_push(s9, st_name(s1, "vec"@)), seq![
                '#',
            ] + gv));
            assert(st_of(*final(ctx)) =~~= vec_l2r(*self.ty, st0, glist));
        }
    }
}

/// Converts an optional script value: a discriminant slot, then the payload
/// slots, all zero when the value is nil.
pub struct LuauOptionToRust<'a> {
    pub ty: &'a Describe,
}

impl<'a> LuauOptionToRust<'a> {
    pub fn get_inputs(&self) -> (r: usize)
        ensures
            r == 1,
    {
        1
    }

    pub fn get_outputs(&self) -> (r: usize)
        requires
            self.ty.l2r_ok(),
            self.ty.sizes_ok(),
            self.ty.spec_value_count() < usize::MAX,
        ensures
            r == 1 + self.ty.spec_value_count(),
    {
        proof {
            lemma_l2r_ok_no_function(*self.ty);
        }
        1 + self.ty.value_count()
    }

    #[verifier::rlimit(80)]
    pub fn render(&self, ctx: &mut InstructionContext)
        requires
            old(ctx).wf(),
            old(ctx).out.new_line,
            clean_stack(old(ctx).inputs@),
            old(ctx).inputs@.len() >= 1,
            self.ty.l2r_ok(),
            self.ty.sizes_ok(),
            self.ty.spec_value_count() < usize::MAX,
            (self.ty.l2r_needs_alloc() ==> find_intrinsic(old(ctx).intrinsics.list(), "alloc"@)
                is Some),
            old(ctx).out.indent + 1 + self.ty.height() <= usize::MAX,
        ensures
            frame_kept(*old(ctx), *final(ctx)),
            stack_shifted(
                old(ctx).inputs@,
                final(ctx).inputs@,
                1,
                1 + self.ty.spec_value_count(),
            ),
            clean_stack(final(ctx).inputs@),
            st_of(*final(ctx)) == option_l2r(
                *self.ty,
                st_of(*old(ctx)),
                old(ctx).intrinsics.list(),
            ),
        decreases *self.ty, 1int,
    {
        let ghost st0 = st_of(*old(ctx));
        let ghost glist = old(ctx).intrinsics.list();
        let ghost gv = st_hoisted(st0);
        proof {
            assert(clean_str(old(ctx).inputs@.last()@));
            lemma_l2r_ok_no_function(*self.ty);
            assert(stack_view(old(ctx).inputs@).last() == old(ctx).inputs@.last()@);
        }
        let value = ctx.pop_complex();
        let ghost s1 = st_pop_complex(st0);
        proof {
            prefix_step(old(ctx).text(), old(ctx).text(), ctx.text());
            assert(value@ == gv);
            assert(st_of(*ctx) =~~= s1);
        }
        let existance_name = ctx.vars.next("option");
        let ghost gex = st_name(s1, "option"@);
        let ghost s2 = st_next(s1, "option"@);
        let ghost sc_after_exist = ctx.vars.top();
        let count = self.ty.value_count();
        let output_names = ctx.vars.many(count, "option");
        let ghost gnames = names_n(s2.scope, "option"@, count as nat);
        let ghost s3 = EmitState { scope: bump_n(s2.scope, "option"@, count as nat), ..s2 };
        proof {
            reveal_strlit("option");
            reveal_strlit("prereq");
            lemma_fresh_name_ident("prereq"@, spec_count(old(ctx).vars.top(), "prereq"@));
            lemma_fresh_name_ident(
                "option"@,
                spec_count(
                    hoist_scope(old(ctx).vars.top(), old(ctx).inputs@.last()@),
                    "option"@,
                ),
            );
            lemma_names_n_clean(sc_after_exist, "option"@, count as nat);
            crate::emitter::lemma_names_n_len(sc_after_exist, "option"@, count as nat);
            assert forall|j: int| 0 <= j < output_names@.len() implies clean_str(
                (#[trigger] output_names@[j])@,
            ) by {
                assert(output_names.deep_view()[j] == output_names@[j]@);
            }
            assert(output_names@.len() == count);
            assert(existance_name@ == gex);
            assert(sc_after_exist == s2.scope);
            assert(output_names.deep_view() == gnames);
            assert(st_of(*ctx) =~~= s3);
        }
        let ghost pre_lines = *ctx;
        zero_local(ctx, &existance_name);
        let ghost s4 = st_line(s3, "local "@ + gex + " = 0"@);
        proof {
            prefix_step(pre_lines.text(), pre_lines.text(), ctx.text());
            assert(st_of(*ctx) =~~= s4);
            assert(zero_lines(gnames.take(0), st0.indent) =~= Seq::<char>::empty());
            assert(ctx.text() =~= s4.text + zero_lines(gnames.take(0), st0.indent));
        }
        let mut k: usize = 0;
        while k < output_names.len()
            invariant
                0 <= k <= output_names@.len(),
                gnames.len() == output_names@.len(),
                forall|j: int|
                    0 <= j < output_names@.len() ==> (#[trigger] output_names@[j])@
                        == gnames[j],
                ctx.wf(),
                ctx.out.new_line,
                ctx.out.indent == pre_lines.out.indent,
                st0.indent == pre_lines.out.indent,
                ctx.vars == pre_lines.vars,
                ctx.intrinsics == pre_lines.intrinsics,
                ctx.inputs == pre_lines.inputs,
                pre_lines.text().is_prefix_of(ctx.text()),
                ctx.text() == s4.text + zero_lines(gnames.take(k as int), st0.indent),
                forall|j: int|
                    0 <= j < output_names@.len() ==> clean_str(
                        (#[trigger] output_names@[j])@,
                    ),
            decreases output_names@.len() - k,
        {
            let ghost it = *ctx;
            zero_local(ctx, &output_names[k]);
            k = k + 1;
            proof {
                prefix_step(it.text(), it.text(), ctx.text());
                lemma_prefix_trans(pre_lines.text(), it.text(), ctx.text());
                lemma_zero_lines_take(gnames, st0.indent, k as int);
                assert(ctx.text() =~= s4.text + zero_lines(gnames.take(k as int), st0.indent));
            }
        }
        let ghost s5 = EmitState { text: s4.text + zero_lines(gnames, st0.indent), ..s4 };
        proof {
            lemma_prefix_trans(old(ctx).text(), pre_lines.text(), ctx.text());
            assert(gnames.take(gnames.len() as int) =~= gnames);
            assert(st_of(*ctx) =~~= s5);
        }
        let mut ifline = String::from_str("if ");
        ifline.append(value.as_str());
        ifline.append(" ~= nil then");
        proof {
            reveal_strlit("if ");
            reveal_strlit(" ~= nil then");
            lemma_clean_concat("if "@, value@);
            lemma_clean_concat("if "@ + value@, " ~= nil then"@);
        }
        let ghost g1 = *ctx;
        ctx.out.writeln(ifline.as_str());
        ctx.out.up();
        let ghost s6 = st_indent(st_line(s5, "if "@ + gv + " ~= nil then"@), st0.indent + 1);
        proof {
            prefix_step(old(ctx).text(), g1.text(), ctx.text());
            assert(st_of(*ctx) =~~= s6);
        }
        let mut setline = String::from_str("");
        setline.append(existance_name.as_str());
        setline.append(" = 1");
        proof {
            reveal_strlit("");
            reveal_strlit(" = 1");
            lemma_clean_concat(""@ + existance_name@, " = 1"@);
            assert(setline@ =~= gex + " = 1"@);
        }
        let ghost g2 = *ctx;
        ctx.out.writeln(setline.as_str());
        let ghost s7 = st_line(s6, gex + " = 1"@);
        proof {
            prefix_step(old(ctx).text(), g2.text(), ctx.text());
            assert(st_of(*ctx) =~~= s7);
        }
        let ghost mid = *ctx;
        ctx.push(value.clone());
        let ghost s8 = st_push(s7, gv);
        proof {
            assert(clean_stack(ctx.inputs@));
            assert(ctx.inputs@.subrange(0, old(ctx).inputs@.len() - 1)
                =~= old(ctx).inputs@.subrange(0, old(ctx).inputs@.len() - 1));
            assert(st_of(*ctx) =~~= s8);
        }
        let ghost before_conv = *ctx;
        LuauToRust { ty: self.ty }.render(ctx);
        let ghost s9 = l2r_emit(*self.ty, s8, glist);
        proof {
            assert(ctx.inputs@.subrange(0, old(ctx).inputs@.len() - 1) =~= old(
                ctx,
            ).inputs@.subrange(0, old(ctx).inputs@.len() - 1));
            lemma_prefix_trans(old(ctx).text(), before_conv.text(), ctx.text());
            lemma_prefix_trans(
                old(ctx).intrinsics.used_view(),
                before_conv.intrinsics.used_view(),
                ctx.intrinsics.used_view(),
            );
            assert(before_conv.intrinsics.list() == glist);
            assert(st_of(before_conv) == s8);
            assert(st_of(*ctx) == s9);
        }
        let ghost after_conv = *ctx;
        let output_exprs = ctx.pop_many(count);
        let ghost gexprs = s9.stack.subrange(
            s9.stack.len() - count,
            s9.stack.len() as int,
        );
        let ghost s10 = st_drop(s9, count as nat);
        proof {
            assert(ctx.inputs@ =~= old(ctx).inputs@.drop_last());
            assert(st_of(*ctx) =~~= s10);
            assert forall|j: int| 0 <= j < output_exprs@.len() implies (
            #[trigger] output_exprs@[j])@ == gexprs[j] by {
                assert(output_exprs@[j] == after_conv.inputs@[after_conv.inputs@.len() - count
                    + j]);
                assert(stack_view(after_conv.inputs@)[after_conv.inputs@.len() - count + j]
                    == after_conv.inputs@[after_conv.inputs@.len() - count + j]@);
            }
        }
        let ghost post_conv = *ctx;
        proof {
            lemma_prefix_refl(post_conv.text());
            assert forall|j: int| 0 <= j < output_exprs@.len() implies clean_str(
                (#[trigger] output_exprs@[j])@,
            ) by {
                assert(output_exprs@[j] == after_conv.inputs@[after_conv.inputs@.len() - count
                    + j]);
            }
            assert(assign_lines(gnames.take(0), gexprs.take(0), st0.indent + 1)
                =~= Seq::<char>::empty());
            assert(ctx.text() =~= s10.text + assign_lines(
                gnames.take(0),
                gexprs.take(0),
                st0.indent + 1,
            ));
        }
        let mut k2: usize = 0;
        while k2 < count
            invariant
                0 <= k2 <= count,
                count == output_names@.len(),
                count == output_exprs@.len(),
                gnames.len() == count,
                gexprs.len() == count,
                forall|j: int|
                    0 <= j < output_names@.len() ==> (#[trigger] output_names@[j])@
                        == gnames[j],
                forall|j: int|
                    0 <= j < output_exprs@.len() ==> (#[trigger] output_exprs@[j])@
                        == gexprs[j],
                ctx.wf(),
                ctx.out.new_line,
                ctx.out.indent == post_conv.out.indent,
                st0.indent + 1 == post_conv.out.indent,
                ctx.vars == post_conv.vars,
                ctx.intrinsics == post_conv.intrinsics,
                ctx.inputs == post_conv.inputs,
                post_conv.text().is_prefix_of(ctx.text()),
                ctx.text() == s10.text + assign_lines(
                    gnames.take(k2 as int),
                    gexprs.take(k2 as int),
                    st0.indent + 1,
                ),
                forall|j: int|
                    0 <= j < output_names@.len() ==> clean_str(
                        (#[trigger] output_names@[j])@,
                    ),
                forall|j: int|
                    0 <= j < output_exprs@.len() ==> clean_str(
                        (#[trigger] output_exprs@[j])@,
                    ),
            decreases count - k2,
        {
            let ghost it = *ctx;
            let mut assign = String::from_str("");
            assign.append(output_names[k2].as_str());
            assign.append(" = ");
            assign.append(output_exprs[k2].as_str());
            proof {
                reveal_strlit("");
                reveal_strlit(" = ");
                lemma_clean_concat(""@ + output_names@[k2 as int]@, " = "@);
                lemma_clean_concat(
                    ""@ + output_names@[k2 as int]@ + " = "@,
                    output_exprs@[k2 as int]@,
                );
                assert(assign@ =~= gnames[k2 as int] + " = "@ + gexprs[k2 as int]);
            }
            ctx.out.writeln(assign.as_str());
            k2 = k2 + 1;
            proof {
                prefix_step(it.text(), it.text(), ctx.text());
                lemma_prefix_trans(post_conv.text(), it.text(), ctx.text());
                lemma_assign_lines_take(gnames, gexprs, st0.indent + 1, k2 as int);
                assert(ctx.text() =~= s10.text + assign_lines(
                    gnames.take(k2 as int),
                    gexprs.take(k2 as int),
                    st0.indent + 1,
                ));
            }
        }
        let ghost s11 = EmitState {
            text: s10.text + assign_lines(gnames, gexprs, st0.indent + 1),
            ..s10
        };
        proof {
            lemma_prefix_trans(old(ctx).text(), post_conv.text(), ctx.text());
            assert(gnames.take(count as int) =~= gnames);
            assert(gexprs.take(count as int) =~= gexprs);
            assert(st_of(*ctx) =~~= s11);
        }
        ctx.out.down();
        proof {
            reveal_strlit("end");
        }
        let ghost g3 = *ctx;
        ctx.out.writeln("end");
        let ghost s12 = st_line(st_indent(s11, st0.indent), "end"@);
        proof {
            prefix_step(old(ctx).text(), g3.text(), ctx.text());
            assert(st_of(*ctx) =~~= s12);
        }
        ctx.push(existance_name);
        let ghost pre_push = *ctx;
        proof {
            assert(ctx.inputs@ =~= pre_push.inputs@ + output_names@.take(0));
        }
        let mut k3: usize = 0;
        while k3 < count
            invariant
                0 <= k3 <= count,
                count == output_names@.len(),
                ctx.wf(),
                ctx.out == pre_push.out,
                ctx.vars == pre_push.vars,
                ctx.intrinsics == pre_push.intrinsics,
                ctx.inputs@ == pre_push.inputs@ + output_names@.take(k3 as int),
                forall|j: int|
                    0 <= j < output_names@.len() ==> clean_str(
                        (#[trigger] output_names@[j])@,
                    ),
            decreases count - k3,
        {
            ctx.push(output_names[k3].clone());
            k3 = k3 + 1;
            proof {
                assert(ctx.inputs@ =~= pre_push.inputs@ + output_names@.take(k3 as int));
            }
        }
        proof {
            assert(output_names@.take(count as int) =~= output_names@);
            assert(final(ctx).inputs@.subrange(0, old(ctx).inputs@.len() - 1)
                =~= old(ctx).inputs@.subrange(0, old(ctx).inputs@.len() - 1));
            assert(clean_stack(final(ctx).inputs@));
            assert(st_of(pre_push) =~~= st_push(s12, gex));
            assert forall|j: int| 0 <= j < gnames.len() implies #[trigger] gnames[j]
                == output_names.deep_view()[j] by {}
            assert(stack_view(final(ctx).inputs@) =~~= s12.stack.push(gex) + gnames);
            assert(st_of(*final(ctx)) =~~= option_l2r(*self.ty, st0, glist));
        }
    }
}

/// `b` extends to `c` by appending, and `a` was already a prefix of `b`; so
/// `a` is a prefix of `c`.
pub proof fn prefix_step(a: Seq<char>, b: Seq<char>, c: Seq<char>)
    requires
        a.len() <= b.len(),
        forall|i: int| 0 <= i < a.len() ==> a[i] == b[i],
        b.len() <= c.len(),
        forall|i: int| 0 <= i < b.len() ==> b[i] == c[i],
    ensures
        a.is_prefix_of(c),
{
    assert(a =~= c.subrange(0, a.len() as int));
}


/// Writes `local <name> = 0`.
fn zero_local(ctx: &mut InstructionContext, name: &String)
    requires
        old(ctx).wf(),
        old(ctx).out.new_line,
        clean_str(name@),
    ensures
        final(ctx).wf(),
        final(ctx).out.new_line,
        final(ctx).out.indent == old(ctx).out.indent,
        final(ctx).vars == old(ctx).vars,
        final(ctx).intrinsics == old(ctx).intrinsics,
        final(ctx).inputs == old(ctx).inputs,
        final(ctx).text() == old(ctx).text() + tabs(old(ctx).out.indent as nat) + "local "@
            + name@ + " = 0"@ + seq!['\n'],
{
    let mut line = String::from_str("local ");
    line.append(name.as_str());
    line.append(" = 0");
    proof {
        reveal_strlit("local ");
        reveal_strlit(" = 0");
        lemma_clean_concat("local "@, name@);
        lemma_clean_concat("local "@ + name@, " = 0"@);
    }
    ctx.out.writeln(line.as_str());
    proof {
        assert(final(ctx).text() =~= old(ctx).text() + tabs(old(ctx).out.indent as nat)
            + "local "@ + name@ + " = 0"@ + seq!['\n']);
    }
}

} // verus!
