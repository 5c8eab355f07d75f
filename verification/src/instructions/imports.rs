//! Import-side instructions: the pieces that build a guest-facing entry
//! dispatching into scripted code, and the memory writer that spills return
//! slots through an out-pointer.

use vstd::prelude::*;

use crate::describe::{
    layout_size, lemma_layout_props, lemma_memory_size_ge_layout, lemma_round_up,
    lemma_value_count_primitives, round_up, Describe, Primitive,
};
use crate::emitter::{
    find_intrinsic, lemma_names_n_clean, lemma_names_n_len, tabs, InstructionContext,
};
use crate::instructions::luau_to_rust::{l2r_emit, prefix_step, LuauToRust};
use crate::instructions::rust_to_lua::{r2l_emit, RustToLuau};
use crate::strutil::spec_join_comma;
use crate::instructions::{
    all_r2l, clean_stack, frame_kept, lemma_max_height_at, lemma_prefix_concat,
    lemma_prefix_refl, lemma_prefix_trans, lemma_sum_vc_split, lemma_sum_vc_take_step,
    max_height, splat, st_name, st_of, st_push, stack_shifted, stack_view, sum_vc,
    total_slots, EmitState,
};
use crate::strutil::{
    clean_str, join_comma, lemma_clean_concat, lemma_join_comma_clean, spec_dec,
};
use crate::strutil::lemma_dec_clean;

verus! {

/// One spilled store: `buffer.write<kind>(MEMORY.data, <mem> + <offset>, <expr>)`.
pub open spec fn write_line(
    prim: Primitive,
    mem: Seq<char>,
    expr: Seq<char>,
    indent: nat,
    offset: nat,
) -> Seq<char> {
    tabs(indent) + "buffer.write"@ + prim.spec_buffer_name() + "(MEMORY.data, "@ + mem + " + "@
        + spec_dec(round_up(offset, prim.spec_byte_size())) + ", "@ + expr + ")"@ + seq!['\n']
}

/// The stores for `prims` from `offset` on, one value per primitive, each at
/// its self-aligned offset.
pub open spec fn write_lines(
    prims: Seq<Primitive>,
    mem: Seq<char>,
    exprs: Seq<Seq<char>>,
    indent: nat,
    offset: nat,
) -> Seq<char>
    decreases prims.len(),
{
    if prims.len() == 0 {
        Seq::empty()
    } else {
        write_line(prims[0], mem, exprs[0], indent, offset) + write_lines(
            prims.drop_first(),
            mem,
            exprs.drop_first(),
            indent,
            round_up(offset, prims[0].spec_byte_size()) + prims[0].spec_byte_size(),
        )
    }
}

/// The state after spilling: the pointer and one value per primitive leave
/// the stack, and the aligned stores are written.
pub open spec fn st_wm(st: EmitState, prims: Seq<Primitive>) -> EmitState {
    EmitState {
        text: st.text + write_lines(
            prims,
            st.stack.last(),
            st.stack.subrange(st.stack.len() - 1 - prims.len(), st.stack.len() - 1),
            st.indent,
            0,
        ),
        stack: st.stack.subrange(0, st.stack.len() - (1 + prims.len())),
        ..st
    }
}

/// Takes a base pointer plus one value per primitive off the stack and
/// writes each value at its aligned offset.
pub struct WriteMemory<'a> {
    pub primitives: &'a [Primitive],
}

impl<'a> WriteMemory<'a> {
    pub fn get_inputs(&self) -> (r: usize)
        requires
            self.primitives@.len() < usize::MAX,
        ensures
            r == 1 + self.primitives@.len(),
    {
        1 + self.primitives.len()
    }

    pub fn get_outputs(&self) -> (r: usize)
        ensures
            r == 0,
    {
        0
    }

    #[verifier::rlimit(60)]
    pub fn render(&self, ctx: &mut InstructionContext)
        requires
            old(ctx).wf(),
            old(ctx).out.new_line,
            crate::instructions::clean_stack(old(ctx).inputs@),
            old(ctx).inputs@.len() >= 1 + self.primitives@.len(),
            layout_size(self.primitives@, 0) <= usize::MAX,
        ensures
            final(ctx).wf(),
            final(ctx).out.new_line,
            final(ctx).out.indent == old(ctx).out.indent,
            final(ctx).vars == old(ctx).vars,
            final(ctx).intrinsics == old(ctx).intrinsics,
            final(ctx).inputs@ == old(ctx).inputs@.subrange(
                0,
                old(ctx).inputs@.len() - (1 + self.primitives@.len()),
            ),
            crate::instructions::clean_stack(final(ctx).inputs@),
            final(ctx).text() == old(ctx).text() + write_lines(
                self.primitives@,
                old(ctx).inputs@.last()@,
                old(ctx).inputs@.subrange(
                    old(ctx).inputs@.len() - 1 - self.primitives@.len(),
                    old(ctx).inputs@.len() - 1,
                ).map_values(|s: String| s@),
                old(ctx).out.indent as nat,
                0,
            ),
            st_of(*final(ctx)) == st_wm(st_of(*old(ctx)), self.primitives@),
    {
        let memory = ctx.pop();
        let n = self.primitives.len();
        let ty_exprs = ctx.pop_many(n);
        let ghost gexprs = ty_exprs@.map_values(|s: String| s@);
        proof {
            assert(clean_str(memory@)) by {
                assert(old(ctx).inputs@.last() == old(ctx).inputs@[old(ctx).inputs@.len() - 1]);
            }
            assert forall|k: int| 0 <= k < gexprs.len() implies clean_str(
                #[trigger] gexprs[k],
            ) by {
                assert(ty_exprs@[k] == old(ctx).inputs@[old(ctx).inputs@.len() - 1 - n + k]);
            }
        }
        proof {
            assert(self.primitives@.skip(0) =~= self.primitives@);
        }
        write_values(ctx, self.primitives, &ty_exprs, &memory, 0, 0);
        proof {
            assert(final(ctx).inputs@ =~= old(ctx).inputs@.subrange(
                0,
                old(ctx).inputs@.len() - (1 + n),
            ));
            assert(gexprs =~~= old(ctx).inputs@.subrange(
                old(ctx).inputs@.len() - 1 - n,
                old(ctx).inputs@.len() - 1,
            ).map_values(|s: String| s@));
            assert(self.primitives@.skip(0) =~= self.primitives@);
            assert(ty_exprs@.map_values(|s: String| s@).skip(0) =~= gexprs);
            assert(final(ctx).text() =~= old(ctx).text() + write_lines(
                self.primitives@,
                old(ctx).inputs@.last()@,
                gexprs,
                old(ctx).out.indent as nat,
                0,
            ));
            assert(stack_view(old(ctx).inputs@).last() == old(ctx).inputs@.last()@);
            assert(stack_view(old(ctx).inputs@).subrange(
                old(ctx).inputs@.len() - 1 - n,
                old(ctx).inputs@.len() - 1,
            ) =~~= gexprs);
            assert(st_of(*final(ctx)).text == st_wm(st_of(*old(ctx)), self.primitives@).text);
            assert(st_of(*final(ctx)) =~~= st_wm(st_of(*old(ctx)), self.primitives@));
        }
    }
}

/// Emits the stores for `prims[i..]`, the running `offset` already laid out.
#[verifier::rlimit(100)]
#[verifier::spinoff_prover]
fn write_values(
    ctx: &mut InstructionContext,
    prims: &[Primitive],
    exprs: &Vec<String>,
    mem: &String,
    i: usize,
    offset: usize,
)
    requires
        old(ctx).wf(),
        old(ctx).out.new_line,
        i <= prims@.len(),
        exprs@.len() == prims@.len(),
        clean_str(mem@),
        forall|k: int| 0 <= k < exprs@.len() ==> clean_str((#[trigger] exprs@[k])@),
        layout_size(prims@.skip(i as int), offset as nat) <= usize::MAX,
    ensures
        final(ctx).wf(),
        final(ctx).out.new_line,
        final(ctx).out.indent == old(ctx).out.indent,
        final(ctx).vars == old(ctx).vars,
        final(ctx).intrinsics == old(ctx).intrinsics,
        final(ctx).inputs == old(ctx).inputs,
        final(ctx).text() == old(ctx).text() + write_lines(
            prims@.skip(i as int),
            mem@,
            exprs@.map_values(|s: String| s@).skip(i as int),
            old(ctx).out.indent as nat,
            offset as nat,
        ),
    decreases prims@.len() - i,
{
    if i == prims.len() {
        proof {
            assert(prims@.skip(i as int).len() == 0);
            assert(final(ctx).text() =~= old(ctx).text() + write_lines(
                prims@.skip(i as int),
                mem@,
                exprs@.map_values(|s: String| s@).skip(i as int),
                old(ctx).out.indent as nat,
                offset as nat,
            ));
        }
        return ;
    }
    let prim = prims[i];
    proof {
        assert(prims@.skip(i as int)[0] == prims@[i as int]);
        lemma_layout_props(
            prims@.skip(i as int + 1),
            round_up(offset as nat, prim.spec_byte_size()) + prim.spec_byte_size(),
        );
        assert(prims@.skip(i as int).drop_first() =~= prims@.skip(i as int + 1));
        lemma_round_up(offset as nat, prim.spec_byte_size());
    }
    let byte_size = prim.byte_size();
    let aligned = prim.next_align(offset);
    let off_str = crate::strutil::dec_string_usize(aligned);
    let mut line = String::from_str("buffer.write");
    line.append(prim.buffer_name());
    line.append("(MEMORY.data, ");
    line.append(mem.as_str());
    line.append(" + ");
    line.append(off_str.as_str());
    line.append(", ");
    line.append(exprs[i].as_str());
    line.append(")");
    proof {
        reveal_strlit("buffer.write");
        reveal_strlit("(MEMORY.data, ");
        reveal_strlit(" + ");
        reveal_strlit(", ");
        reveal_strlit(")");
        assert(clean_str(prim.spec_buffer_name())) by {
            reveal_strlit("f32");
            reveal_strlit("f64");
            reveal_strlit("i8");
            reveal_strlit("i16");
            reveal_strlit("i32");
            reveal_strlit("u8");
            reveal_strlit("u16");
            reveal_strlit("u32");
        }
        lemma_dec_clean(aligned as nat);
        lemma_clean_concat("buffer.write"@, prim.spec_buffer_name());
        lemma_clean_concat("buffer.write"@ + prim.spec_buffer_name(), "(MEMORY.data, "@);
        lemma_clean_concat(
            "buffer.write"@ + prim.spec_buffer_name() + "(MEMORY.data, "@,
            mem@,
        );
        lemma_clean_concat(
            "buffer.write"@ + prim.spec_buffer_name() + "(MEMORY.data, "@ + mem@,
            " + "@,
        );
        lemma_clean_concat(
            "buffer.write"@ + prim.spec_buffer_name() + "(MEMORY.data, "@ + mem@ + " + "@,
            off_str@,
        );
        lemma_clean_concat(
            "buffer.write"@ + prim.spec_buffer_name() + "(MEMORY.data, "@ + mem@ + " + "@
                + off_str@,
            ", "@,
        );
        assert(clean_str(exprs@[i as int]@));
        lemma_clean_concat(
            "buffer.write"@ + prim.spec_buffer_name() + "(MEMORY.data, "@ + mem@ + " + "@
                + off_str@ + ", "@,
            exprs@[i as int]@,
        );
        lemma_clean_concat(
            "buffer.write"@ + prim.spec_buffer_name() + "(MEMORY.data, "@ + mem@ + " + "@
                + off_str@ + ", "@ + exprs@[i as int]@,
            ")"@,
        );
    }
    ctx.out.writeln(line.as_str());
    write_values(ctx, prims, exprs, mem, i + 1, aligned + byte_size);
    proof {
        assert(exprs@.map_values(|s: String| s@).skip(i as int)[0] == exprs@[i as int]@);
        assert(exprs@.map_values(|s: String| s@).skip(i as int).drop_first()
            =~= exprs@.map_values(|s: String| s@).skip(i as int + 1));
        assert(final(ctx).text() =~= old(ctx).text() + write_lines(
            prims@.skip(i as int),
            mem@,
            exprs@.map_values(|s: String| s@).skip(i as int),
            old(ctx).out.indent as nat,
            offset as nat,
        ));
    }
}

/// Several expressions pushed in order.
pub open spec fn st_push_all(st: EmitState, es: Seq<Seq<char>>) -> EmitState {
    EmitState { stack: st.stack + es, ..st }
}

/// What calling the user's script function emits: result locals when one is
/// wanted, the call with the consumed arguments in order, and the result
/// names on the stack.
pub open spec fn invoke_luau_emit(
    fname: Seq<char>,
    pcount: nat,
    rcount: nat,
    st: EmitState,
) -> EmitState {
    let names = crate::emitter::names_n(st.scope, "result"@, rcount);
    let args = st.stack.subrange(st.stack.len() - pcount, st.stack.len() as int);
    let prefix = if rcount > 0 {
        "local "@ + spec_join_comma(names) + " = "@
    } else {
        Seq::<char>::empty()
    };
    EmitState {
        text: st.text + tabs(st.indent) + prefix + fname + "("@ + spec_join_comma(args) + ")"@
            + seq!['\n'],
        stack: st.stack.subrange(0, st.stack.len() - pcount) + names,
        scope: crate::emitter::bump_n(st.scope, "result"@, rcount),
        ..st
    }
}

/// The guest-to-script conversions of a parameter list, applied in
/// declaration order to the consumed slot groups.
pub open spec fn r2l_fold(
    tys: Seq<Describe>,
    all: Seq<Seq<char>>,
    off: int,
    st: EmitState,
    list: Seq<(Seq<char>, Seq<char>)>,
) -> EmitState
    decreases tys,
{
    if tys.len() == 0 {
        st
    } else {
        r2l_fold(
            tys.drop_first(),
            all,
            off + tys[0].spec_value_count(),
            r2l_emit(
                tys[0],
                st_push_all(st, all.subrange(off, off + tys[0].spec_value_count())),
                list,
            ),
            list,
        )
    }
}

/// What the import block emits: each parameter's slots converted to one
/// script value in order, the call, and the script return converted back to
/// guest slots.
pub open spec fn import_block_emit(
    tys: Seq<Describe>,
    out_ty: Describe,
    fname: Seq<char>,
    st: EmitState,
    list: Seq<(Seq<char>, Seq<char>)>,
) -> EmitState {
    let total = sum_vc(tys);
    let all = st.stack.subrange(st.stack.len() - total, st.stack.len() as int);
    let st0 = EmitState { stack: st.stack.subrange(0, st.stack.len() - total), ..st };
    let st1 = r2l_fold(tys, all, 0, st0, list);
    let rcount: nat = if out_ty.spec_value_count() == 0 {
        0
    } else {
        1
    };
    let st2 = invoke_luau_emit(fname, tys.len(), rcount, st1);
    if rcount != 0 {
        l2r_emit(out_ty, st2, list)
    } else {
        st2
    }
}

/// The guest-facing parameter names: one `arg<i>_<j>` per ABI slot of each
/// parameter that occupies slots, numbered in declaration order.
pub open spec fn import_defs(tys: Seq<Describe>, argi: nat) -> Seq<Seq<char>>
    decreases tys,
{
    if tys.len() == 0 {
        Seq::empty()
    } else if tys[0].spec_value_count() == 0 {
        import_defs(tys.drop_first(), argi)
    } else {
        crate::instructions::spec_splat(tys[0], "arg"@ + crate::strutil::spec_dec(argi))
            + import_defs(tys.drop_first(), argi + 1)
    }
}

/// What the whole guest-facing entry emits: the `WASM_FUNCS` assignment
/// opening a function over a leading out-pointer (when the return spills)
/// and the per-slot parameters, the import block, the spilled stores or the
/// multi-value return, and the closing `end`. The name scope and the stack
/// come back as they were.
pub open spec fn create_import_emit(
    export_name: Seq<char>,
    tys: Seq<Describe>,
    out_ty: Describe,
    fname: Seq<char>,
    st: EmitState,
    list: Seq<(Seq<char>, Seq<char>)>,
) -> EmitState {
    let spill = out_ty.spec_value_count() > 1;
    let retname = st_name(st, "ret"@);
    let sc1 = if spill {
        crate::emitter::spec_bump(st.scope, "ret"@)
    } else {
        st.scope
    };
    let defs = if spill {
        seq![retname] + import_defs(tys, 0)
    } else {
        import_defs(tys, 0)
    };
    let st1 = EmitState {
        text: st.text + tabs(st.indent) + "WASM_FUNCS['"@ + export_name + "'] = function("@
            + spec_join_comma(defs) + ")"@ + seq!['\n'],
        stack: st.stack + import_defs(tys, 0),
        scope: sc1,
        used: st.used,
        indent: st.indent + 1,
    };
    let st2 = import_block_emit(tys, out_ty, fname, st1, list);
    let st3 = if spill {
        st_wm(st_push(st2, retname), out_ty.spec_primitives())
    } else {
        let outs: nat = if out_ty.spec_value_count() == 0 {
            0
        } else {
            out_ty.spec_value_count()
        };
        let results = st2.stack.subrange(st2.stack.len() - outs, st2.stack.len() as int);
        EmitState {
            text: st2.text + tabs(st.indent + 1) + "return "@ + spec_join_comma(results)
                + seq!['\n'],
            stack: st2.stack.subrange(0, st2.stack.len() - outs),
            ..st2
        }
    };
    EmitState {
        text: st3.text + tabs(st.indent) + "end"@ + seq!['\n'],
        stack: st.stack,
        scope: st.scope,
        used: st3.used,
        indent: st.indent,
    }
}

/// Calls the user's script function with the converted arguments, capturing
/// its results as fresh locals.
pub struct InvokeLuauFunction {
    pub function_name: String,
    pub parameter_count: usize,
    pub result_count: usize,
}

impl InvokeLuauFunction {
    pub fn get_inputs(&self) -> (r: usize)
        ensures
            r == self.parameter_count,
    {
        self.parameter_count
    }

    pub fn get_outputs(&self) -> (r: usize)
        ensures
            r == self.result_count,
    {
        self.result_count
    }

    #[verifier::rlimit(80)]
    pub fn render(&self, ctx: &mut InstructionContext)
        requires
            old(ctx).wf(),
            old(ctx).out.new_line,
            clean_stack(old(ctx).inputs@),
            old(ctx).inputs@.len() >= self.parameter_count,
            clean_str(self.function_name@),
        ensures
            frame_kept(*old(ctx), *final(ctx)),
            stack_shifted(
                old(ctx).inputs@,
                final(ctx).inputs@,
                self.parameter_count as nat,
                self.result_count as nat,
            ),
            clean_stack(final(ctx).inputs@),
            st_of(*final(ctx)) == invoke_luau_emit(
                self.function_name@,
                self.parameter_count as nat,
                self.result_count as nat,
                st_of(*old(ctx)),
            ),
    {
        let ghost st0 = st_of(*old(ctx));
        let ghost gnames = crate::emitter::names_n(
            st0.scope,
            "result"@,
            self.result_count as nat,
        );
        let ghost gargs = st0.stack.subrange(
            st0.stack.len() - self.parameter_count,
            st0.stack.len() as int,
        );
        let ghost tv = ctx.vars.top();
        let mut outputs: Vec<String> = Vec::new();
        if self.result_count > 0 {
            let var_names = ctx.vars.many(self.result_count, "result");
            proof {
                reveal_strlit("result");
                lemma_names_n_clean(tv, "result"@, self.result_count as nat);
                lemma_names_n_len(tv, "result"@, self.result_count as nat);
                assert forall|j: int| 0 <= j < var_names@.len() implies clean_str(
                    (#[trigger] var_names@[j])@,
                ) by {
                    assert(var_names.deep_view()[j] == var_names@[j]@);
                }
            }
            let joined = join_comma(&var_names);
            proof {
                reveal_strlit("local ");
                reveal_strlit(" = ");
                lemma_join_comma_clean(var_names@.map_values(|s: String| s@));
            }
            ctx.out.write("local ");
            ctx.out.write(joined.as_str());
            ctx.out.write(" = ");
            outputs = var_names;
        }
        let args = ctx.pop_many(self.parameter_count);
        proof {
            assert forall|j: int| 0 <= j < args@.len() implies clean_str(
                (#[trigger] args@[j])@,
            ) by {
                assert(args@[j] == old(ctx).inputs@[old(ctx).inputs@.len()
                    - self.parameter_count + j]);
            }
        }
        let arg_list = join_comma(&args);
        proof {
            reveal_strlit("(");
            reveal_strlit(")");
            lemma_join_comma_clean(args@.map_values(|s: String| s@));
        }
        ctx.out.write(self.function_name.as_str());
        ctx.out.write("(");
        ctx.out.write(arg_list.as_str());
        let ghost g1 = *ctx;
        ctx.out.writeln(")");
        proof {
            prefix_step(old(ctx).text(), old(ctx).text(), ctx.text());
        }
        let ghost pre_push = *ctx;
        let mut k: usize = 0;
        while k < outputs.len()
            invariant
                0 <= k <= outputs@.len(),
                ctx.wf(),
                ctx.out == pre_push.out,
                ctx.vars == pre_push.vars,
                ctx.intrinsics == pre_push.intrinsics,
                ctx.inputs@ == pre_push.inputs@ + outputs@.take(k as int),
                forall|j: int|
                    0 <= j < outputs@.len() ==> clean_str((#[trigger] outputs@[j])@),
            decreases outputs@.len() - k,
        {
            ctx.push(outputs[k].clone());
            k = k + 1;
            proof {
                assert(ctx.inputs@ =~= pre_push.inputs@ + outputs@.take(k as int));
            }
        }
        proof {
            assert(outputs@.take(outputs@.len() as int) =~= outputs@);
            assert(final(ctx).inputs@.subrange(
                0,
                old(ctx).inputs@.len() - self.parameter_count,
            ) =~= old(ctx).inputs@.subrange(
                0,
                old(ctx).inputs@.len() - self.parameter_count,
            ));
            assert(clean_stack(final(ctx).inputs@));
            lemma_prefix_refl(old(ctx).intrinsics.used_view());
            assert(outputs.deep_view() =~~= gnames);
            assert(args@.map_values(|x: String| x@) =~~= gargs);
            assert forall|j: int| 0 <= j < outputs@.len() implies #[trigger] stack_view(
                outputs@,
            )[j] == gnames[j] by {
                assert(outputs.deep_view()[j] == outputs@[j]@);
            }
            assert(stack_view(final(ctx).inputs@) =~~= st0.stack.subrange(
                0,
                st0.stack.len() - self.parameter_count,
            ) + gnames);
            if self.result_count == 0 {
                assert(crate::emitter::bump_n(st0.scope, "result"@, 0) == st0.scope);
                assert(gnames =~~= Seq::<Seq<char>>::empty());
            }
            assert(spec_join_comma(args@.map_values(|x: String| x@)) == spec_join_comma(
                gargs,
            ));
            assert(outputs@.map_values(|x: String| x@) =~~= gnames);
            if self.result_count > 0 {
                assert(final(ctx).text() =~= st0.text + tabs(st0.indent) + ("local "@
                    + spec_join_comma(gnames) + " = "@) + self.function_name@ + "("@
                    + spec_join_comma(gargs) + ")"@ + seq!['\n']);
            } else {
                assert(final(ctx).text() =~= st0.text + tabs(st0.indent)
                    + Seq::<char>::empty() + self.function_name@ + "("@ + spec_join_comma(
                    gargs,
                ) + ")"@ + seq!['\n']);
            }
            assert(final(ctx).vars.top() == invoke_luau_emit(
                self.function_name@,
                self.parameter_count as nat,
                self.result_count as nat,
                st0,
            ).scope);
            assert(st_of(*final(ctx)) =~~= invoke_luau_emit(
                self.function_name@,
                self.parameter_count as nat,
                self.result_count as nat,
                st0,
            ));
        }
    }
}

/// Converts each guest-typed input to a script value, runs the call, and
/// converts its result back to guest slots.
pub struct ImportBlock {
    pub inputs: Vec<Describe>,
    pub output: Describe,
    pub body: InvokeLuauFunction,
}

/// The structural agreement between an import block and the call it wraps.
pub open spec fn import_block_wf(b: ImportBlock) -> bool {
    &&& b.body.parameter_count == b.inputs@.len()
    &&& b.body.result_count == (if b.output.spec_value_count() == 0 {
        0int
    } else {
        1int
    })
}

impl ImportBlock {
    pub fn get_inputs(&self) -> (r: usize)
        requires
            all_sized(self.inputs@),
            sum_vc(self.inputs@) <= usize::MAX,
        ensures
            r == sum_vc(self.inputs@),
    {
        total_slots(&self.inputs)
    }

    pub fn get_outputs(&self) -> (r: usize)
        requires
            self.output.no_function(),
            self.output.sizes_ok(),
        ensures
            r == self.output.spec_value_count(),
    {
        self.output.value_count()
    }

    #[verifier::rlimit(80)]
    pub fn render(&self, ctx: &mut InstructionContext)
        requires
            old(ctx).wf(),
            old(ctx).out.new_line,
            clean_stack(old(ctx).inputs@),
            import_block_wf(*self),
            all_r2l(self.inputs@),
            self.output.l2r_ok(),
            self.output.sizes_ok(),
            sum_vc(self.inputs@) <= usize::MAX,
            old(ctx).inputs@.len() >= sum_vc(self.inputs@),
            clean_str(self.body.function_name@),
            (forall|k: int|
                0 <= k < self.inputs@.len() ==> ((#[trigger] self.inputs@[k]).r2l_needs_free()
                    ==> find_intrinsic(old(ctx).intrinsics.list(), "free"@) is Some)),
            (self.output.l2r_needs_alloc() ==> find_intrinsic(
                old(ctx).intrinsics.list(),
                "alloc"@,
            ) is Some),
            old(ctx).out.indent + 1 + max_height(self.inputs@) <= usize::MAX,
            old(ctx).out.indent + 1 + self.output.height() <= usize::MAX,
        ensures
            frame_kept(*old(ctx), *final(ctx)),
            stack_shifted(
                old(ctx).inputs@,
                final(ctx).inputs@,
                sum_vc(self.inputs@),
                self.output.spec_value_count(),
            ),
            clean_stack(final(ctx).inputs@),
            st_of(*final(ctx)) == import_block_emit(
                self.inputs@,
                self.output,
                self.body.function_name@,
                st_of(*old(ctx)),
                old(ctx).intrinsics.list(),
            ),
    {
        let ghost st0 = st_of(*old(ctx));
        let ghost glist = old(ctx).intrinsics.list();
        let ghost gall = st0.stack.subrange(
            st0.stack.len() - sum_vc(self.inputs@),
            st0.stack.len() as int,
        );
        proof {
            assert forall|k: int| 0 <= k < self.inputs@.len() implies (
            #[trigger] self.inputs@[k]).no_function() && self.inputs@[k].sizes_ok() by {
                crate::describe::lemma_r2l_ok_no_function(self.inputs@[k]);
            }
        }
        let total = total_slots(&self.inputs);
        let all = ctx.pop_many(total);
        let all_len = all.len();
        proof {
            assert forall|j: int| 0 <= j < all@.len() implies clean_str(
                (#[trigger] all@[j])@,
            ) by {
                assert(all@[j] == old(ctx).inputs@[old(ctx).inputs@.len() - total + j]);
            }
            assert(ctx.inputs@ =~= old(ctx).inputs@.subrange(
                0,
                old(ctx).inputs@.len() - total,
            ));
            lemma_prefix_refl(old(ctx).text());
            lemma_prefix_refl(old(ctx).intrinsics.used_view());
            assert(self.inputs@.take(0).len() == 0);
            assert(all@.map_values(|x: String| x@) =~~= gall);
        }
        let ghost base = *ctx;
        let ghost base_st = st_of(base);
        proof {
            assert(self.inputs@.skip(0) =~= self.inputs@);
            assert(base_st =~~= EmitState {
                stack: st0.stack.subrange(0, st0.stack.len() - sum_vc(self.inputs@)),
                ..st0
            });
        }
        let mut off: usize = 0;
        let mut k: usize = 0;
        while k < self.inputs.len()
            invariant
                0 <= k <= self.inputs@.len(),
                import_block_wf(*self),
                all_r2l(self.inputs@),
                sum_vc(self.inputs@) <= usize::MAX,
                all@.len() == sum_vc(self.inputs@),
                all_len == all@.len(),
                forall|j: int| 0 <= j < all@.len() ==> clean_str((#[trigger] all@[j])@),
                off == sum_vc(self.inputs@.take(k as int)),
                off <= all@.len(),
                ctx.wf(),
                ctx.out.new_line,
                ctx.out.indent == base.out.indent,
                base.out.indent + 1 + max_height(self.inputs@) <= usize::MAX,
                (forall|j: int|
                    0 <= j < self.inputs@.len() ==> ((
                    #[trigger] self.inputs@[j]).r2l_needs_free() ==> find_intrinsic(
                        base.intrinsics.list(),
                        "free"@,
                    ) is Some)),
                ctx.intrinsics.intrinsics == base.intrinsics.intrinsics,
                base.intrinsics.used_view().is_prefix_of(ctx.intrinsics.used_view()),
                crate::instructions::same_outer_scopes(base.vars, ctx.vars),
                base.text().is_prefix_of(ctx.text()),
                clean_stack(ctx.inputs@),
                ctx.inputs@.len() == base.inputs@.len() + k,
                ctx.inputs@.subrange(0, base.inputs@.len() as int) == base.inputs@,
                glist == base.intrinsics.list(),
                gall.len() == all@.len(),
                forall|q: int| 0 <= q < all@.len() ==> gall[q] == (#[trigger] all@[q])@,
                r2l_fold(self.inputs@.skip(k as int), gall, off as int, st_of(*ctx), glist)
                    == r2l_fold(self.inputs@, gall, 0, base_st, glist),
            decreases self.inputs@.len() - k,
        {
            proof {
                lemma_sum_vc_take_step(self.inputs@, k as int);
                lemma_sum_vc_split(self.inputs@, k as int + 1);
                crate::describe::lemma_r2l_ok_no_function(self.inputs@[k as int]);
                assert(self.inputs@.skip(k as int)[0] == self.inputs@[k as int]);
                assert(self.inputs@.skip(k as int).drop_first() =~= self.inputs@.skip(
                    k as int + 1,
                ));
            }
            let ty = &self.inputs[k];
            let c = ty.value_count();
            let ghost fold_pre = st_of(*ctx);
            let ghost before_push = *ctx;
            proof {
                assert(st_of(before_push) == fold_pre);
                assert(stack_view(before_push.inputs@) == fold_pre.stack);
            }
            let mut j: usize = 0;
            while j < c
                invariant
                    0 <= j <= c,
                    off + c <= all@.len(),
                    all_len == all@.len(),
                    forall|q: int| 0 <= q < all@.len() ==> clean_str((#[trigger] all@[q])@),
                    ctx.wf(),
                    ctx.out == before_push.out,
                    ctx.vars == before_push.vars,
                    ctx.intrinsics == before_push.intrinsics,
                    ctx.inputs@ == before_push.inputs@ + all@.subrange(
                        off as int,
                        off + j,
                    ),
                decreases c - j,
            {
                ctx.push(all[off + j].clone());
                j = j + 1;
                proof {
                    assert(ctx.inputs@ =~= before_push.inputs@ + all@.subrange(
                        off as int,
                        off + j,
                    ));
                }
            }
            proof {
                assert(clean_stack(ctx.inputs@)) by {
                    assert forall|q: int| 0 <= q < ctx.inputs@.len() implies clean_str(
                        (#[trigger] ctx.inputs@[q])@,
                    ) by {
                        if q < before_push.inputs@.len() {
                            assert(ctx.inputs@[q] == before_push.inputs@[q]);
                        } else {
                            assert(ctx.inputs@[q] == all@[off + (q
                                - before_push.inputs@.len())]);
                        }
                    }
                }
                lemma_max_height_at(self.inputs@, k as int);
                assert(ctx.inputs@.len() >= self.inputs@[k as int].spec_value_count());
                assert(gall.len() == all@.len());
                assert(ctx.text() == fold_pre.text);
                assert(ctx.vars.top() == fold_pre.scope);
                assert(ctx.intrinsics.used_view() == fold_pre.used);
                assert(fold_pre.stack.len() == before_push.inputs@.len());
                assert(stack_view(ctx.inputs@).len() == fold_pre.stack.len() + c);
                assert forall|q: int| 0 <= q < ctx.inputs@.len() implies #[trigger] stack_view(
                    ctx.inputs@,
                )[q] == (fold_pre.stack + gall.subrange(off as int, off + c))[q] by {
                    if q < before_push.inputs@.len() {
                        assert(ctx.inputs@[q] == before_push.inputs@[q]);
                        assert(stack_view(before_push.inputs@)[q] == before_push.inputs@[q]@);
                    } else {
                        assert(ctx.inputs@[q] == all@[off + (q - before_push.inputs@.len())]);
                        assert(all@.map_values(|x: String| x@)[off + (q
                            - before_push.inputs@.len())] == all@[off + (q
                            - before_push.inputs@.len())]@);
                    }
                }
                assert(st_of(*ctx) =~~= st_push_all(
                    fold_pre,
                    gall.subrange(off as int, off + c),
                ));
            }
            let ghost before_conv = *ctx;
            RustToLuau { ty }.render(ctx);
            off = off + c;
            k = k + 1;
            proof {
                lemma_prefix_trans(base.text(), before_conv.text(), ctx.text());
                lemma_prefix_trans(
                    base.intrinsics.used_view(),
                    before_conv.intrinsics.used_view(),
                    ctx.intrinsics.used_view(),
                );
                assert(ctx.inputs@.subrange(0, base.inputs@.len() as int) =~= base.inputs@);
                assert(clean_stack(ctx.inputs@));
                assert(before_conv.intrinsics.list() == glist);
                assert(st_of(*ctx) == r2l_emit(
                    self.inputs@[k - 1],
                    st_push_all(fold_pre, gall.subrange(off - c, off as int)),
                    glist,
                ));
            }
        }
        let ghost folded = r2l_fold(self.inputs@, gall, 0, base_st, glist);
        proof {
            assert(self.inputs@.take(self.inputs@.len() as int) =~= self.inputs@);
            assert(self.inputs@.skip(self.inputs@.len() as int).len() == 0);
            assert(st_of(*ctx) == folded);
        }
        let ghost before_call = *ctx;
        self.body.render(ctx);
        let ghost rc: nat = if self.output.spec_value_count() == 0 {
            0
        } else {
            1
        };
        let ghost after_call = invoke_luau_emit(
            self.body.function_name@,
            self.inputs@.len(),
            rc,
            folded,
        );
        proof {
            lemma_prefix_trans(base.text(), before_call.text(), ctx.text());
            lemma_prefix_trans(
                base.intrinsics.used_view(),
                before_call.intrinsics.used_view(),
                ctx.intrinsics.used_view(),
            );
            assert(ctx.inputs@.subrange(0, base.inputs@.len() as int) =~= base.inputs@);
            assert(st_of(*ctx) == after_call);
        }
        if self.body.result_count != 0 {
            let ghost before_out = *ctx;
            LuauToRust { ty: &self.output }.render(ctx);
            proof {
                lemma_prefix_trans(base.text(), before_out.text(), ctx.text());
                lemma_prefix_trans(
                    base.intrinsics.used_view(),
                    before_out.intrinsics.used_view(),
                    ctx.intrinsics.used_view(),
                );
                assert(ctx.inputs@.subrange(0, base.inputs@.len() as int) =~= base.inputs@);
                assert(before_out.intrinsics.list() == glist);
                assert(st_of(*ctx) == l2r_emit(self.output, after_call, glist));
            }
        }
        proof {
            lemma_prefix_trans(old(ctx).text(), base.text(), final(ctx).text());
            assert(final(ctx).inputs@.subrange(
                0,
                old(ctx).inputs@.len() - sum_vc(self.inputs@),
            ) =~= old(ctx).inputs@.subrange(
                0,
                old(ctx).inputs@.len() - sum_vc(self.inputs@),
            ));
            assert(st_of(*final(ctx)) =~~= import_block_emit(
                self.inputs@,
                self.output,
                self.body.function_name@,
                st0,
                glist,
            ));
        }
    }
}

use crate::instructions::all_sized;

/// Pushes the guest-facing per-slot parameter names for a parameter list
/// onto the stack and returns them, numbering the occupied parameters in
/// declaration order.
#[verifier::rlimit(100)]
#[verifier::spinoff_prover]
fn push_arg_defs(ctx: &mut InstructionContext, tys: &Vec<Describe>) -> (defs: Vec<String>)
    requires
        old(ctx).wf(),
        clean_stack(old(ctx).inputs@),
        all_r2l(tys@),
        sum_vc(tys@) <= usize::MAX,
    ensures
        final(ctx).wf(),
        final(ctx).out == old(ctx).out,
        final(ctx).vars == old(ctx).vars,
        final(ctx).intrinsics == old(ctx).intrinsics,
        final(ctx).inputs@.len() == old(ctx).inputs@.len() + sum_vc(tys@),
        final(ctx).inputs@.subrange(0, old(ctx).inputs@.len() as int) == old(ctx).inputs@,
        stack_view(final(ctx).inputs@) == stack_view(old(ctx).inputs@) + import_defs(tys@, 0),
        defs@.map_values(|x: String| x@) == import_defs(tys@, 0),
        clean_stack(final(ctx).inputs@),
        forall|q: int| 0 <= q < defs@.len() ==> clean_str((#[trigger] defs@[q])@),
{
    let ghost st0stack = stack_view(old(ctx).inputs@);
    let ghost gdefs = import_defs(tys@, 0);
    let mut defs: Vec<String> = Vec::new();
    let mut argi: usize = 0;
    let mut k: usize = 0;
    proof {
        assert(tys@.skip(0) =~= tys@);
        assert(stack_view(ctx.inputs@).skip(old(ctx).inputs@.len() as int)
            =~= Seq::<Seq<char>>::empty());
        assert(gdefs =~~= stack_view(ctx.inputs@).skip(old(ctx).inputs@.len() as int)
            + import_defs(tys@.skip(0), 0));
        assert(defs@ =~= ctx.inputs@.skip(old(ctx).inputs@.len() as int));
        assert(tys@.take(0).len() == 0);
    }
    while k < tys.len()
        invariant
            0 <= k <= tys@.len(),
            all_r2l(tys@),
            sum_vc(tys@) <= usize::MAX,
            ctx.wf(),
            ctx.out == old(ctx).out,
            ctx.vars == old(ctx).vars,
            ctx.intrinsics == old(ctx).intrinsics,
            argi <= k,
            ctx.inputs@.len() == old(ctx).inputs@.len() + sum_vc(tys@.take(k as int)),
            ctx.inputs@.subrange(0, old(ctx).inputs@.len() as int) == old(ctx).inputs@,
            clean_stack(ctx.inputs@),
            gdefs == import_defs(tys@, 0),
            gdefs == stack_view(ctx.inputs@).skip(old(ctx).inputs@.len() as int)
                + import_defs(tys@.skip(k as int), argi as nat),
            defs@ == ctx.inputs@.skip(old(ctx).inputs@.len() as int),
            forall|q: int| 0 <= q < defs@.len() ==> clean_str((#[trigger] defs@[q])@),
        decreases tys@.len() - k,
    {
        proof {
            lemma_sum_vc_take_step(tys@, k as int);
            lemma_sum_vc_split(tys@, k as int + 1);
            crate::describe::lemma_r2l_ok_no_function(tys@[k as int]);
            assert(tys@.skip(k as int)[0] == tys@[k as int]);
            assert(tys@.skip(k as int).drop_first() =~= tys@.skip(k as int + 1));
        }
        let ty = &tys[k];
        let c = ty.value_count();
        if c != 0 {
            let mut prefix = String::from_str("arg");
            let d = crate::strutil::dec_string_usize(argi);
            prefix.append(d.as_str());
            proof {
                reveal_strlit("arg");
                lemma_dec_clean(argi as nat);
                lemma_clean_concat("arg"@, d@);
                assert(prefix@ =~= "arg"@ + spec_dec(argi as nat));
            }
            let names = splat(ty, prefix.as_str());
            proof {
                assert(names.deep_view().len() == names@.len());
                assert(names.deep_view().len() == crate::instructions::spec_splat(
                    *ty,
                    prefix@,
                ).len());
                assert forall|j: int| 0 <= j < names@.len() implies clean_str(
                    (#[trigger] names@[j])@,
                ) by {
                    assert(names.deep_view()[j] == names@[j]@);
                    assert(names.deep_view()[j] == crate::instructions::spec_splat(
                        *ty,
                        prefix@,
                    )[j]);
                    assert(names@[j]@ == prefix@ + seq!['_'] + spec_dec((j + 1) as nat));
                    lemma_dec_clean((j + 1) as nat);
                    assert(clean_str(seq!['_'])) by {
                        assert(seq!['_'][0] == '_');
                    }
                    lemma_clean_concat(prefix@, seq!['_']);
                    lemma_clean_concat(prefix@ + seq!['_'], spec_dec((j + 1) as nat));
                }
                assert(names@.len() == tys@[k as int].spec_value_count());
            }
            let ghost before_push = *ctx;
            let ghost defs_before = defs@;
            proof {
                assert(defs_before == before_push.inputs@.skip(
                    old(ctx).inputs@.len() as int,
                ));
            }
            let mut j: usize = 0;
            while j < names.len()
                invariant
                    0 <= j <= names@.len(),
                    ctx.wf(),
                    ctx.out == before_push.out,
                    ctx.vars == before_push.vars,
                    ctx.intrinsics == before_push.intrinsics,
                    ctx.inputs@ == before_push.inputs@ + names@.take(j as int),
                    defs@ == defs_before + names@.take(j as int),
                    forall|q: int|
                        0 <= q < names@.len() ==> clean_str((#[trigger] names@[q])@),
                decreases names@.len() - j,
            {
                ctx.push(names[j].clone());
                defs.push(names[j].clone());
                j = j + 1;
                proof {
                    assert(ctx.inputs@ =~= before_push.inputs@ + names@.take(j as int));
                    assert(defs@ =~= defs_before + names@.take(j as int));
                }
            }
            argi = argi + 1;
            proof {
                assert(names@.take(names@.len() as int) =~= names@);
                assert(ctx.inputs@.subrange(0, old(ctx).inputs@.len() as int) =~= old(
                    ctx,
                ).inputs@);
                assert(clean_stack(ctx.inputs@)) by {
                    assert forall|q: int| 0 <= q < ctx.inputs@.len() implies clean_str(
                        (#[trigger] ctx.inputs@[q])@,
                    ) by {
                        if q < before_push.inputs@.len() {
                            assert(ctx.inputs@[q] == before_push.inputs@[q]);
                        } else {
                            assert(ctx.inputs@[q] == names@[q - before_push.inputs@.len()]);
                        }
                    }
                }
                assert forall|q: int| 0 <= q < defs@.len() implies clean_str(
                    (#[trigger] defs@[q])@,
                ) by {
                    if q < defs_before.len() {
                        assert(defs@[q] == defs_before[q]);
                    } else {
                        assert(defs@[q] == names@[q - defs_before.len()]);
                    }
                }
                assert(names.deep_view() =~~= crate::instructions::spec_splat(
                    tys@[k as int],
                    "arg"@ + spec_dec((argi - 1) as nat),
                ));
                assert(stack_view(ctx.inputs@).skip(old(ctx).inputs@.len() as int)
                    =~~= stack_view(before_push.inputs@).skip(old(ctx).inputs@.len() as int)
                    + names.deep_view()) by {
                    assert forall|q: int|
                        0 <= q < ctx.inputs@.len() - old(ctx).inputs@.len() implies #[trigger]
                    stack_view(ctx.inputs@).skip(old(ctx).inputs@.len() as int)[q] == (
                    stack_view(before_push.inputs@).skip(old(ctx).inputs@.len() as int)
                        + names.deep_view())[q] by {
                        if q < before_push.inputs@.len() - old(ctx).inputs@.len() {
                            assert(ctx.inputs@[old(ctx).inputs@.len() + q]
                                == before_push.inputs@[old(ctx).inputs@.len() + q]);
                        } else {
                            assert(ctx.inputs@[old(ctx).inputs@.len() + q] == names@[old(
                                ctx,
                            ).inputs@.len() + q - before_push.inputs@.len()]);
                            assert(names.deep_view()[old(ctx).inputs@.len() + q
                                - before_push.inputs@.len()] == names@[old(ctx).inputs@.len()
                                + q - before_push.inputs@.len()]@);
                        }
                    }
                }
                assert(defs@ =~= ctx.inputs@.skip(old(ctx).inputs@.len() as int)) by {
                    assert forall|q: int| 0 <= q < defs@.len() implies #[trigger] defs@[q]
                        == ctx.inputs@.skip(old(ctx).inputs@.len() as int)[q] by {
                        if q < defs_before.len() {
                            assert(defs@[q] == defs_before[q]);
                            assert(defs_before[q] == before_push.inputs@.skip(
                                old(ctx).inputs@.len() as int,
                            )[q]);
                            assert(ctx.inputs@[old(ctx).inputs@.len() + q]
                                == before_push.inputs@[old(ctx).inputs@.len() + q]);
                        } else {
                            assert(defs@[q] == names@[q - defs_before.len()]);
                            assert(ctx.inputs@[old(ctx).inputs@.len() + q] == names@[old(
                                ctx,
                            ).inputs@.len() + q - before_push.inputs@.len()]);
                        }
                    }
                }
                assert(gdefs =~~= stack_view(ctx.inputs@).skip(old(ctx).inputs@.len() as int)
                    + import_defs(tys@.skip(k as int + 1), argi as nat));
            }
        } else {
            proof {
                assert(gdefs =~~= stack_view(ctx.inputs@).skip(old(ctx).inputs@.len() as int)
                    + import_defs(tys@.skip(k as int + 1), argi as nat));
                assert(defs@ =~= ctx.inputs@.skip(old(ctx).inputs@.len() as int));
            }
        }
        k = k + 1;
    }
    proof {
        assert(tys@.take(tys@.len() as int) =~= tys@);
        assert(tys@.skip(tys@.len() as int).len() == 0);
        assert(import_defs(tys@.skip(tys@.len() as int), argi as nat)
            =~= Seq::<Seq<char>>::empty());
        assert(defs@.map_values(|x: String| x@) =~~= stack_view(ctx.inputs@).skip(
            old(ctx).inputs@.len() as int,
        )) by {
            assert forall|q: int| 0 <= q < defs@.len() implies #[trigger] stack_view(
                defs@,
            )[q] == stack_view(ctx.inputs@).skip(old(ctx).inputs@.len() as int)[q] by {
                assert(defs@[q] == ctx.inputs@.skip(old(ctx).inputs@.len() as int)[q]);
            }
            assert(defs@.map_values(|x: String| x@) == stack_view(defs@));
        }
        assert(stack_view(final(ctx).inputs@) =~~= stack_view(old(ctx).inputs@)
            + import_defs(tys@, 0)) by {
            assert(gdefs =~~= stack_view(ctx.inputs@).skip(old(ctx).inputs@.len() as int));
            assert forall|q: int| 0 <= q < ctx.inputs@.len() implies #[trigger] stack_view(
                ctx.inputs@,
            )[q] == (stack_view(old(ctx).inputs@) + import_defs(tys@, 0))[q] by {
                if q < old(ctx).inputs@.len() {
                    assert(ctx.inputs@[q] == old(ctx).inputs@[q]) by {
                        assert(ctx.inputs@.subrange(0, old(ctx).inputs@.len() as int)[q]
                            == ctx.inputs@[q]);
                    }
                } else {
                    assert(stack_view(ctx.inputs@).skip(old(ctx).inputs@.len() as int)[q
                        - old(ctx).inputs@.len()] == stack_view(ctx.inputs@)[q]);
                }
            }
        }
    }
    defs
}

/// Opens the guest-facing entry in the function table, with one parameter
/// per guest ABI slot and a leading out-pointer when the return spills.
pub struct WasmCreateImport {
    pub export_name: String,
    pub body: ImportBlock,
}

impl WasmCreateImport {
    pub fn get_inputs(&self) -> (r: usize)
        ensures
            r == 0,
    {
        0
    }

    pub fn get_outputs(&self) -> (r: usize)
        ensures
            r == 0,
    {
        0
    }

    #[verifier::rlimit(100)]
    pub fn render(&self, ctx: &mut InstructionContext)
        requires
            old(ctx).wf(),
            old(ctx).out.new_line,
            clean_stack(old(ctx).inputs@),
            import_block_wf(self.body),
            all_r2l(self.body.inputs@),
            self.body.output.l2r_ok(),
            self.body.output.sizes_ok(),
            sum_vc(self.body.inputs@) <= usize::MAX,
            clean_str(self.export_name@),
            clean_str(self.body.body.function_name@),
            (forall|k: int|
                0 <= k < self.body.inputs@.len() ==> ((
                #[trigger] self.body.inputs@[k]).r2l_needs_free() ==> find_intrinsic(
                    old(ctx).intrinsics.list(),
                    "free"@,
                ) is Some)),
            (self.body.output.l2r_needs_alloc() ==> find_intrinsic(
                old(ctx).intrinsics.list(),
                "alloc"@,
            ) is Some),
            old(ctx).out.indent + 2 + max_height(self.body.inputs@) <= usize::MAX,
            old(ctx).out.indent + 2 + self.body.output.height() <= usize::MAX,
        ensures
            final(ctx).wf(),
            final(ctx).out.new_line,
            final(ctx).out.indent == old(ctx).out.indent,
            final(ctx).vars.scopes() == old(ctx).vars.scopes(),
            final(ctx).intrinsics.intrinsics == old(ctx).intrinsics.intrinsics,
            old(ctx).intrinsics.used_view().is_prefix_of(final(ctx).intrinsics.used_view()),
            old(ctx).text().is_prefix_of(final(ctx).text()),
            final(ctx).inputs@ == old(ctx).inputs@,
            clean_stack(final(ctx).inputs@),
            st_of(*final(ctx)) == create_import_emit(
                self.export_name@,
                self.body.inputs@,
                self.body.output,
                self.body.body.function_name@,
                st_of(*old(ctx)),
                old(ctx).intrinsics.list(),
            ),
    {
        let ghost st0 = st_of(*old(ctx));
        let ghost glist = old(ctx).intrinsics.list();
        let ghost gret = st_name(st0, "ret"@);
        let ghost gdefs = import_defs(self.body.inputs@, 0);
        ctx.vars.scope();
        let ghost scoped = *ctx;
        proof {
            assert(st_of(*ctx) =~~= st0);
        }
        let needs_spill = if self.body.output.is_no_function() {
            self.body.output.value_count() > 1
        } else {
            false
        };
        proof {
            crate::describe::lemma_l2r_ok_no_function(self.body.output);
            assert(needs_spill == (self.body.output.spec_value_count() > 1));
        }
        let ghost tv = ctx.vars.top();
        let mut parameter_defs: Vec<String> = Vec::new();
        let mut out_param: Option<String> = None;
        if needs_spill {
            let ret = ctx.vars.next("ret");
            proof {
                reveal_strlit("ret");
                crate::emitter::lemma_fresh_name_ident(
                    "ret"@,
                    crate::emitter::spec_count(tv, "ret"@),
                );
                assert(ret@ == gret);
            }
            parameter_defs.push(ret.clone());
            out_param = Some(ret);
        }
        let ghost sc1 = if needs_spill {
            crate::emitter::spec_bump(st0.scope, "ret"@)
        } else {
            st0.scope
        };
        let ghost after_ret = *ctx;
        proof {
            assert(after_ret.vars.top() == sc1);
            assert(after_ret.text() == st0.text);
            assert(after_ret.intrinsics.used_view() == st0.used);
            assert(ctx.inputs@ =~= old(ctx).inputs@);
            assert(stack_view(after_ret.inputs@) =~~= st0.stack);
            assert(parameter_defs@.map_values(|x: String| x@) =~~= (if needs_spill {
                seq![gret]
            } else {
                Seq::<Seq<char>>::empty()
            }));
            assert(forall|q: int|
                0 <= q < parameter_defs@.len() ==> clean_str(
                    (#[trigger] parameter_defs@[q])@,
                ));
        }
        let mut arg_defs = push_arg_defs(ctx, &self.body.inputs);
        proof {
            assert(stack_view(ctx.inputs@) == st0.stack + gdefs);
            assert(ctx.inputs@.subrange(0, old(ctx).inputs@.len() as int) =~= old(
                ctx,
            ).inputs@) by {
                assert forall|q: int| 0 <= q < old(ctx).inputs@.len() implies ctx.inputs@.subrange(
                    0,
                    old(ctx).inputs@.len() as int,
                )[q] == old(ctx).inputs@[q] by {
                    assert(ctx.inputs@[q] == after_ret.inputs@[q]);
                }
            }
        }
        let ghost defs_pre = parameter_defs@;
        parameter_defs.append(&mut arg_defs);
        proof {
            assert(stack_view(parameter_defs@) =~~= (if needs_spill {
                seq![gret]
            } else {
                Seq::<Seq<char>>::empty()
            }) + gdefs) by {
                assert forall|q: int| 0 <= q < parameter_defs@.len() implies #[trigger]
                stack_view(parameter_defs@)[q] == ((if needs_spill {
                    seq![gret]
                } else {
                    Seq::<Seq<char>>::empty()
                }) + gdefs)[q] by {
                    if q < defs_pre.len() {
                        assert(parameter_defs@[q] == defs_pre[q]);
                        assert(stack_view(defs_pre)[q] == defs_pre[q]@);
                    } else {
                        assert(stack_view(parameter_defs@)[q] == parameter_defs@[q]@);
                    }
                }
            }
            assert(forall|q: int|
                0 <= q < parameter_defs@.len() ==> clean_str(
                    (#[trigger] parameter_defs@[q])@,
                )) by {
                assert forall|q: int| 0 <= q < parameter_defs@.len() implies clean_str(
                    (#[trigger] parameter_defs@[q])@,
                ) by {
                    if q < defs_pre.len() {
                        assert(parameter_defs@[q] == defs_pre[q]);
                    }
                }
            }
            assert(clean_stack(ctx.inputs@));
        }
        let defs_joined = join_comma(&parameter_defs);
        proof {
            reveal_strlit("WASM_FUNCS['");
            reveal_strlit("'] = function(");
            reveal_strlit(")");
            lemma_join_comma_clean(parameter_defs@.map_values(|s: String| s@));
        }
        ctx.out.write("WASM_FUNCS['");
        ctx.out.write(self.export_name.as_str());
        ctx.out.write("'] = function(");
        ctx.out.write(defs_joined.as_str());
        ctx.out.writeln(")");
        ctx.out.up();
        let ghost gdefs_all = if needs_spill {
            seq![gret] + gdefs
        } else {
            gdefs
        };
        let ghost s1 = EmitState {
            text: st0.text + tabs(st0.indent) + "WASM_FUNCS['"@ + self.export_name@
                + "'] = function("@ + spec_join_comma(gdefs_all) + ")"@ + seq!['\n'],
            stack: st0.stack + gdefs,
            scope: sc1,
            used: st0.used,
            indent: st0.indent + 1,
        };
        proof {
            prefix_step(old(ctx).text(), old(ctx).text(), ctx.text());
            assert(stack_view(parameter_defs@) =~~= gdefs_all);
            assert(defs_joined@ == spec_join_comma(gdefs_all)) by {
                assert(parameter_defs@.map_values(|x: String| x@) == stack_view(
                    parameter_defs@,
                ));
            }
            assert(st_of(*ctx) =~~= s1);
        }
        let ghost before_block = *ctx;
        self.body.render(ctx);
        let ghost s2 = import_block_emit(
            self.body.inputs@,
            self.body.output,
            self.body.body.function_name@,
            s1,
            glist,
        );
        proof {
            lemma_prefix_trans(old(ctx).text(), before_block.text(), ctx.text());
            assert(ctx.inputs@ =~= old(ctx).inputs@ + ctx.inputs@.skip(
                old(ctx).inputs@.len() as int,
            ));
            assert(ctx.inputs@.subrange(0, old(ctx).inputs@.len() as int) =~= old(
                ctx,
            ).inputs@);
            assert(before_block.intrinsics.list() == glist);
            assert(st_of(before_block) == s1);
            assert(st_of(*ctx) == s2);
        }
        match out_param {
            Some(ptr) => {
                proof {
                    lemma_value_count_primitives(self.body.output);
                    lemma_memory_size_ge_layout(self.body.output);
                    assert(clean_str(ptr@));
                }
                let primitives = self.body.output.primitive_values();
                ctx.push(ptr);
                proof {
                    assert(st_of(*ctx) =~~= st_push(s2, gret));
                }
                let ghost before_wm = *ctx;
                WriteMemory { primitives: primitives.as_slice() }.render(ctx);
                proof {
                    assert(ctx.inputs@ =~= old(ctx).inputs@);
                    lemma_prefix_concat(
                        before_wm.text(),
                        ctx.text().skip(before_wm.text().len() as int),
                    );
                    assert(before_wm.text() + ctx.text().skip(
                        before_wm.text().len() as int,
                    ) =~= ctx.text());
                    lemma_prefix_trans(old(ctx).text(), before_wm.text(), ctx.text());
                    assert(st_of(before_wm) == st_push(s2, gret));
                    assert(st_of(*ctx) == st_wm(
                        st_push(s2, gret),
                        self.body.output.spec_primitives(),
                    ));
                }
            },
            None => {
                let outs = if self.body.body.result_count != 0 {
                    self.body.output.value_count()
                } else {
                    0
                };
                let ghost before_pop = *ctx;
                let results = ctx.pop_many(outs);
                proof {
                    assert forall|j: int| 0 <= j < results@.len() implies clean_str(
                        (#[trigger] results@[j])@,
                    ) by {
                        assert(results@[j] == before_pop.inputs@[before_pop.inputs@.len()
                            - outs + j]);
                    }
                    assert(ctx.inputs@ =~= old(ctx).inputs@);
                }
                let res_joined = join_comma(&results);
                proof {
                    reveal_strlit("return ");
                    lemma_join_comma_clean(results@.map_values(|s: String| s@));
                }
                ctx.out.write("return ");
                ctx.out.write(res_joined.as_str());
                let ghost g2 = *ctx;
                proof {
                    reveal_strlit("");
                }
                ctx.out.writeln("");
                proof {
                    prefix_step(old(ctx).text(), g2.text(), ctx.text());
                    assert(results@.map_values(|x: String| x@) =~~= s2.stack.subrange(
                        s2.stack.len() - outs,
                        s2.stack.len() as int,
                    )) by {
                        assert forall|j: int| 0 <= j < results@.len() implies #[trigger]
                        stack_view(results@)[j] == s2.stack.subrange(
                            s2.stack.len() - outs,
                            s2.stack.len() as int,
                        )[j] by {
                            assert(results@[j] == before_pop.inputs@[before_pop.inputs@.len()
                                - outs + j]);
                            assert(stack_view(before_pop.inputs@)[before_pop.inputs@.len()
                                - outs + j] == before_pop.inputs@[before_pop.inputs@.len()
                                - outs + j]@);
                        }
                        assert(results@.map_values(|x: String| x@) == stack_view(results@));
                    }
                    assert(st_of(*ctx) =~~= EmitState {
                        text: s2.text + tabs(st0.indent + 1) + "return "@ + spec_join_comma(
                            s2.stack.subrange(s2.stack.len() - outs, s2.stack.len() as int),
                        ) + seq!['\n'],
                        stack: s2.stack.subrange(0, s2.stack.len() - outs),
                        ..s2
                    });
                }
            },
        }
        ctx.out.down();
        proof {
            reveal_strlit("end");
        }
        let ghost g3 = *ctx;
        ctx.out.writeln("end");
        ctx.vars.unscope();
        proof {
            prefix_step(old(ctx).text(), g3.text(), ctx.text());
            assert(final(ctx).vars.scopes() =~~= old(ctx).vars.scopes());
            assert(final(ctx).inputs@ =~= old(ctx).inputs@);
            lemma_prefix_trans(
                old(ctx).intrinsics.used_view(),
                before_block.intrinsics.used_view(),
                final(ctx).intrinsics.used_view(),
            );
            assert(st_of(*final(ctx)) =~~= create_import_emit(
                self.export_name@,
                self.body.inputs@,
                self.body.output,
                self.body.body.function_name@,
                st0,
                glist,
            ));
        }
    }
}

} // verus!
