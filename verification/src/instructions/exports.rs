//! Export-side instructions: the pieces that build a script-facing function
//! dispatching into the guest, and the memory reader that collects spilled
//! return slots.

use vstd::prelude::*;

use crate::describe::{
    layout_size, lemma_layout_props, lemma_memory_size_ge_layout, lemma_round_up,
    lemma_value_count_primitives, round_up, Describe, Primitive,
};
use crate::emitter::{
    find_intrinsic, lemma_names_n_clean, lemma_names_n_len, spec_count, tabs,
    InstructionContext,
};
use crate::instructions::luau_to_rust::{l2r_emit, prefix_step, LuauToRust};
use crate::instructions::rust_to_lua::{r2l_emit, RustToLuau};
use crate::strutil::spec_join_comma;
use crate::instructions::{
    all_l2r, all_sized, clean_stack, frame_kept, hoist_name, hoist_scope, hoist_text,
    hoist_text_at, lemma_max_height_at, lemma_prefix_refl, lemma_prefix_trans,
    lemma_sum_vc_split, lemma_sum_vc_take_step, max_height, st_drop, st_hoisted, st_line,
    st_name, st_of, st_push, stack_shifted, stack_view, sum_vc, total_slots, EmitState,
};
use crate::strutil::{
    clean_str, join_comma, lemma_clean_concat, lemma_dec_clean, lemma_join_comma_clean,
    spec_dec, spec_simple_ident,
};

verus! {

/// One spilled load: `buffer.read<kind>(MEMORY.data, <ptr> + <offset>)`.
pub open spec fn pull_expr(prim: Primitive, ptr: Seq<char>, offset: nat) -> Seq<char> {
    "buffer.read"@ + prim.spec_buffer_name() + "(MEMORY.data, "@ + ptr + " + "@ + spec_dec(
        round_up(offset, prim.spec_byte_size()),
    ) + ")"@
}

/// The loads for `prims` from `offset` on, each at its self-aligned offset.
pub open spec fn pull_exprs(prims: Seq<Primitive>, ptr: Seq<char>, offset: nat) -> Seq<
    Seq<char>,
>
    decreases prims.len(),
{
    if prims.len() == 0 {
        Seq::empty()
    } else {
        seq![pull_expr(prims[0], ptr, offset)] + pull_exprs(
            prims.drop_first(),
            ptr,
            round_up(offset, prims[0].spec_byte_size()) + prims[0].spec_byte_size(),
        )
    }
}

/// There is one load expression per primitive.
pub proof fn lemma_pull_exprs_len(prims: Seq<Primitive>, ptr: Seq<char>, offset: nat)
    ensures
        pull_exprs(prims, ptr, offset).len() == prims.len(),
    decreases prims.len(),
{
    if prims.len() > 0 {
        lemma_pull_exprs_len(
            prims.drop_first(),
            ptr,
            round_up(offset, prims[0].spec_byte_size()) + prims[0].spec_byte_size(),
        );
    }
}

/// The state after collecting a spilled value: the pointer leaves the
/// stack (hoisted once when several loads will interpolate it) and one load
/// expression per primitive arrives, in declaration order.
pub open spec fn st_pull(st: EmitState, prims: Seq<Primitive>) -> EmitState {
    if prims.len() > 1 {
        EmitState {
            text: st.text + hoist_text_at(st.indent, st.scope, st.stack.last()),
            stack: st.stack.drop_last() + pull_exprs(prims, st_hoisted(st), 0),
            scope: hoist_scope(st.scope, st.stack.last()),
            ..st
        }
    } else {
        EmitState { stack: st.stack.drop_last() + pull_exprs(prims, st.stack.last(), 0), ..st }
    }
}

/// Takes a base pointer off the stack and pushes one load expression per
/// primitive, in declaration order, at aligned offsets.
pub struct PullMemory<'a> {
    pub primitives: &'a [Primitive],
}

impl<'a> PullMemory<'a> {
    pub fn get_inputs(&self) -> (r: usize)
        ensures
            r == 1,
    {
        1
    }

    pub fn get_outputs(&self) -> (r: usize)
        ensures
            r == self.primitives@.len(),
    {
        self.primitives.len()
    }

    #[verifier::rlimit(60)]
    pub fn render(&self, ctx: &mut InstructionContext)
        requires
            old(ctx).wf(),
            old(ctx).out.new_line,
            clean_stack(old(ctx).inputs@),
            old(ctx).inputs@.len() >= 1,
            layout_size(self.primitives@, 0) <= usize::MAX,
        ensures
            final(ctx).wf(),
            final(ctx).out.new_line,
            final(ctx).out.indent == old(ctx).out.indent,
            final(ctx).intrinsics == old(ctx).intrinsics,
            clean_stack(final(ctx).inputs@),
            final(ctx).inputs@.len() == old(ctx).inputs@.len() - 1 + self.primitives@.len(),
            final(ctx).inputs@.subrange(0, old(ctx).inputs@.len() - 1) == old(
                ctx,
            ).inputs@.subrange(0, old(ctx).inputs@.len() - 1),
            self.primitives@.len() > 1 ==> {
                &&& final(ctx).inputs@.map_values(|s: String| s@) == old(
                    ctx,
                ).inputs@.map_values(|s: String| s@).drop_last() + pull_exprs(
                    self.primitives@,
                    hoist_name(old(ctx).vars.top(), old(ctx).inputs@.last()@),
                    0,
                )
                &&& final(ctx).text() == old(ctx).text() + hoist_text(
                    old(ctx).out,
                    old(ctx).vars.top(),
                    old(ctx).inputs@.last()@,
                )
                &&& final(ctx).vars.scopes() == old(ctx).vars.scopes().drop_last().push(
                    hoist_scope(old(ctx).vars.top(), old(ctx).inputs@.last()@),
                )
            },
            self.primitives@.len() <= 1 ==> {
                &&& final(ctx).inputs@.map_values(|s: String| s@) == old(
                    ctx,
                ).inputs@.map_values(|s: String| s@).drop_last() + pull_exprs(
                    self.primitives@,
                    old(ctx).inputs@.last()@,
                    0,
                )
                &&& final(ctx).text() == old(ctx).text()
                &&& final(ctx).vars == old(ctx).vars
            },
            st_of(*final(ctx)) == st_pull(st_of(*old(ctx)), self.primitives@),
    {
        proof {
            assert(clean_str(old(ctx).inputs@.last()@));
        }
        let n = self.primitives.len();
        let ptr: String;
        if n > 1 {
            ptr = ctx.pop_complex();
            proof {
                reveal_strlit("prereq");
                crate::emitter::lemma_fresh_name_ident(
                    "prereq"@,
                    spec_count(old(ctx).vars.top(), "prereq"@),
                );
                if !spec_simple_ident(old(ctx).inputs@.last()@) {
                    assert(ctx.vars.scopes() =~~= old(ctx).vars.scopes().drop_last().push(
                        hoist_scope(old(ctx).vars.top(), old(ctx).inputs@.last()@),
                    ));
                }
            }
        } else {
            ptr = ctx.pop();
        }
        proof {
            assert(clean_str(ptr@));
            assert(crate::instructions::clean_stack(ctx.inputs@)) by {
                assert forall|k: int| 0 <= k < ctx.inputs@.len() implies clean_str(
                    (#[trigger] ctx.inputs@[k])@,
                ) by {
                    assert(ctx.inputs@[k] == old(ctx).inputs@[k]);
                }
            }
            if self.primitives@.len() > 1 && spec_simple_ident(old(ctx).inputs@.last()@) {
                assert(ctx.vars.scopes() =~~= old(ctx).vars.scopes().drop_last().push(
                    hoist_scope(old(ctx).vars.top(), old(ctx).inputs@.last()@),
                ));
            }
        }
        proof {
            assert(self.primitives@.skip(0) =~= self.primitives@);
        }
        push_reads(ctx, self.primitives, &ptr, 0, 0);
        proof {
            assert(final(ctx).inputs@.map_values(|s: String| s@) =~~= old(
                ctx,
            ).inputs@.map_values(|s: String| s@).drop_last() + pull_exprs(
                self.primitives@,
                ptr@,
                0,
            ));
            if self.primitives@.len() > 1 {
                if spec_simple_ident(old(ctx).inputs@.last()@) {
                    assert(final(ctx).text() =~= old(ctx).text() + hoist_text(
                        old(ctx).out,
                        old(ctx).vars.top(),
                        old(ctx).inputs@.last()@,
                    ));
                } else {
                    assert(final(ctx).text() =~= old(ctx).text() + hoist_text(
                        old(ctx).out,
                        old(ctx).vars.top(),
                        old(ctx).inputs@.last()@,
                    ));
                }
            }
            assert(st_of(*final(ctx)) =~~= st_pull(st_of(*old(ctx)), self.primitives@));
        }
    }
}

/// Pushes the loads for `prims[i..]`, the running `offset` already laid out.
#[verifier::rlimit(60)]
fn push_reads(
    ctx: &mut InstructionContext,
    prims: &[Primitive],
    ptr: &String,
    i: usize,
    offset: usize,
)
    requires
        old(ctx).wf(),
        i <= prims@.len(),
        clean_str(ptr@),
        clean_stack(old(ctx).inputs@),
        layout_size(prims@.skip(i as int), offset as nat) <= usize::MAX,
    ensures
        final(ctx).wf(),
        final(ctx).out == old(ctx).out,
        final(ctx).vars == old(ctx).vars,
        final(ctx).intrinsics == old(ctx).intrinsics,
        final(ctx).inputs@.map_values(|s: String| s@) == old(ctx).inputs@.map_values(
            |s: String| s@,
        ) + pull_exprs(prims@.skip(i as int), ptr@, offset as nat),
        final(ctx).inputs@.len() == old(ctx).inputs@.len() + prims@.len() - i,
        final(ctx).inputs@.subrange(0, old(ctx).inputs@.len() as int) == old(ctx).inputs@,
        clean_stack(final(ctx).inputs@),
    decreases prims@.len() - i,
{
    if i == prims.len() {
        proof {
            assert(final(ctx).inputs@.map_values(|s: String| s@) =~~= old(
                ctx,
            ).inputs@.map_values(|s: String| s@) + pull_exprs(
                prims@.skip(i as int),
                ptr@,
                offset as nat,
            ));
            assert(final(ctx).inputs@.subrange(0, old(ctx).inputs@.len() as int) =~= old(
                ctx,
            ).inputs@);
        }
        return ;
    }
    let prim = prims[i];
    proof {
        assert(prims@.skip(i as int)[0] == prims@[i as int]);
        lemma_layout_props(
            prims@.skip(i as int + 1),
            round_up(offset as nat, prim.spec_byte_size()) + prim.spec_byte_size(),
        );
        assert(prims@.skip(i as int).drop_first() =~= prims@.skip(i as int + 1));
        lemma_round_up(offset as nat, prim.spec_byte_size());
    }
    let byte_size = prim.byte_size();
    let aligned = prim.next_align(offset);
    let off_str = crate::strutil::dec_string_usize(aligned);
    let mut e = String::from_str("buffer.read");
    e.append(prim.buffer_name());
    e.append("(MEMORY.data, ");
    e.append(ptr.as_str());
    e.append(" + ");
    e.append(off_str.as_str());
    e.append(")");
    proof {
        reveal_strlit("buffer.read");
        reveal_strlit("(MEMORY.data, ");
        reveal_strlit(" + ");
        reveal_strlit(")");
        assert(clean_str(prim.spec_buffer_name())) by {
            reveal_strlit("f32");
            reveal_strlit("f64");
            reveal_strlit("i8");
            reveal_strlit("i16");
            reveal_strlit("i32");
            reveal_strlit("u8");
            reveal_strlit("u16");
            reveal_strlit("u32");
        }
        lemma_dec_clean(aligned as nat);
        lemma_clean_concat("buffer.read"@, prim.spec_buffer_name());
        lemma_clean_concat("buffer.read"@ + prim.spec_buffer_name(), "(MEMORY.data, "@);
        lemma_clean_concat("buffer.read"@ + prim.spec_buffer_name() + "(MEMORY.data, "@, ptr@);
        lemma_clean_concat(
            "buffer.read"@ + prim.spec_buffer_name() + "(MEMORY.data, "@ + ptr@,
            " + "@,
        );
        lemma_clean_concat(
            "buffer.read"@ + prim.spec_buffer_name() + "(MEMORY.data, "@ + ptr@ + " + "@,
            off_str@,
        );
        lemma_clean_concat(
            "buffer.read"@ + prim.spec_buffer_name() + "(MEMORY.data, "@ + ptr@ + " + "@
                + off_str@,
            ")"@,
        );
        assert(e@ =~= pull_expr(prims@[i as int], ptr@, offset as nat));
    }
    ctx.push(e);
    push_reads(ctx, prims, ptr, i + 1, aligned + byte_size);
    proof {
        assert(pull_exprs(prims@.skip(i as int), ptr@, offset as nat).drop_first()
            =~= pull_exprs(
            prims@.skip(i as int + 1),
            ptr@,
            round_up(offset as nat, prim.spec_byte_size()) + prim.spec_byte_size(),
        ));
        assert(final(ctx).inputs@.map_values(|s: String| s@) =~~= old(
            ctx,
        ).inputs@.map_values(|s: String| s@) + pull_exprs(
            prims@.skip(i as int),
            ptr@,
            offset as nat,
        ));
        lemma_pull_exprs_len(prims@.skip(i as int), ptr@, offset as nat);
        assert(final(ctx).inputs@.subrange(0, old(ctx).inputs@.len() as int) =~= old(
            ctx,
        ).inputs@);
    }
}

/// The `local <name> = <expr>` lines binding spilled reads to their output
/// locals.
pub open spec fn local_lines(
    names: Seq<Seq<char>>,
    exprs: Seq<Seq<char>>,
    indent: nat,
) -> Seq<char>
    decreases names.len(),
{
    if names.len() == 0 {
        Seq::empty()
    } else {
        tabs(indent) + "local "@ + names[0] + " = "@ + exprs[0] + seq!['\n'] + local_lines(
            names.drop_first(),
            exprs.drop_first(),
            indent,
        )
    }
}

/// Taking the binding lines one pair further.
pub proof fn lemma_local_lines_take(
    names: Seq<Seq<char>>,
    exprs: Seq<Seq<char>>,
    indent: nat,
    i: int,
)
    requires
        1 <= i <= names.len(),
        names.len() <= exprs.len(),
    ensures
        local_lines(names.take(i), exprs.take(i), indent) == local_lines(
            names.take(i - 1),
            exprs.take(i - 1),
            indent,
        ) + (tabs(indent) + "local "@ + names[i - 1] + " = "@ + exprs[i - 1] + seq!['\n']),
    decreases i,
{
    if i == 1 {
        assert(names.take(1)[0] == names[0]);
        assert(exprs.take(1)[0] == exprs[0]);
        assert(names.take(1).drop_first() =~= names.take(0));
        assert(exprs.take(1).drop_first() =~= exprs.take(0));
        assert(local_lines(names.take(1), exprs.take(1), indent) =~= local_lines(
            names.take(0),
            exprs.take(0),
            indent,
        ) + (tabs(indent) + "local "@ + names[0] + " = "@ + exprs[0] + seq!['\n']));
    } else {
        lemma_local_lines_take(names.drop_first(), exprs.drop_first(), indent, i - 1);
        assert(names.take(i).drop_first() =~= names.drop_first().take(i - 1));
        assert(names.take(i - 1).drop_first() =~= names.drop_first().take(i - 2));
        assert(exprs.take(i).drop_first() =~= exprs.drop_first().take(i - 1));
        assert(exprs.take(i - 1).drop_first() =~= exprs.drop_first().take(i - 2));
        assert(names.take(i)[0] == names[0]);
        assert(exprs.take(i)[0] == exprs[0]);
        assert(names.take(i - 1)[0] == names[0]);
        assert(exprs.take(i - 1)[0] == exprs[0]);
        assert(names.drop_first()[i - 2] == names[i - 1]);
        assert(exprs.drop_first()[i - 2] == exprs[i - 1]);
        assert(local_lines(names.take(i), exprs.take(i), indent) =~= local_lines(
            names.take(i - 1),
            exprs.take(i - 1),
            indent,
        ) + (tabs(indent) + "local "@ + names[i - 1] + " = "@ + exprs[i - 1] + seq!['\n']));
    }
}

/// What the guest call emits: for a multi-slot return, a shadow-stack
/// allocation whose pointer leads the arguments, the call, the aligned
/// reads into fresh output locals and the stack-pointer restore; for at
/// most one slot, the call bound directly to its output local. The output
/// names stay on the stack.
pub open spec fn invoke_rust_emit(
    fname: Seq<char>,
    tys: Seq<Describe>,
    out_ty: Describe,
    st: EmitState,
) -> EmitState {
    let outc = out_ty.spec_value_count();
    let osize = spec_dec(out_ty.spec_memory_size());
    let spill = outc > 1;
    let spillname = st_name(st, "spill"@);
    let sc1 = if spill {
        crate::emitter::spec_bump(st.scope, "spill"@)
    } else {
        st.scope
    };
    let total = sum_vc(tys);
    let args = st.stack.subrange(st.stack.len() - total, st.stack.len() as int);
    let call_args = if spill {
        seq![spillname] + args
    } else {
        args
    };
    let outnames = crate::emitter::names_n(sc1, "output"@, outc);
    let sc2 = crate::emitter::bump_n(sc1, "output"@, outc);
    let pre_text = if outc != 0 && spill {
        tabs(st.indent) + "local "@ + spillname + " = WASM_STACK.value - "@ + osize + seq![
            '\n',
        ] + tabs(st.indent) + "WASM_STACK.value = "@ + spillname + seq!['\n']
    } else {
        Seq::<char>::empty()
    };
    let call_prefix = if outc != 0 && !spill {
        "local "@ + spec_join_comma(outnames) + " = "@
    } else {
        Seq::<char>::empty()
    };
    let st_a = EmitState {
        text: st.text + pre_text + tabs(st.indent) + call_prefix + "WASM.func_list."@ + fname
            + "("@ + spec_join_comma(call_args) + ")"@ + seq!['\n'],
        stack: st.stack.subrange(0, st.stack.len() - total) + outnames,
        scope: sc2,
        used: st.used,
        indent: st.indent,
    };
    if spill {
        let st_b = st_pull(st_push(st_a, spillname), out_ty.spec_primitives());
        let exprs = st_b.stack.subrange(st_b.stack.len() - outc, st_b.stack.len() as int);
        let st_c = st_drop(st_b, outc);
        let st_d = EmitState {
            text: st_c.text + local_lines(outnames, exprs, st.indent),
            ..st_c
        };
        st_line(st_d, "WASM_STACK.value = "@ + spillname + " + "@ + osize)
    } else {
        st_a
    }
}

/// The script-to-guest conversions of a parameter list, each script value
/// pushed and converted in declaration order.
pub open spec fn l2r_fold(
    tys: Seq<Describe>,
    params: Seq<Seq<char>>,
    k: int,
    st: EmitState,
    list: Seq<(Seq<char>, Seq<char>)>,
) -> EmitState
    decreases tys,
{
    if tys.len() == 0 {
        st
    } else {
        l2r_fold(
            tys.drop_first(),
            params,
            k + 1,
            l2r_emit(tys[0], st_push(st, params[k]), list),
            list,
        )
    }
}

/// What the export block emits: each script argument converted to its guest
/// slots in order, the guest call, and its slots converted to the returned
/// script value.
pub open spec fn export_block_emit(
    tys: Seq<Describe>,
    out_ty: Describe,
    fname: Seq<char>,
    st: EmitState,
    list: Seq<(Seq<char>, Seq<char>)>,
) -> EmitState {
    let n = tys.len();
    let params = st.stack.subrange(st.stack.len() - n, st.stack.len() as int);
    let st0 = EmitState { stack: st.stack.subrange(0, st.stack.len() - n), ..st };
    let st1 = l2r_fold(tys, params, 0, st0, list);
    let st2 = invoke_rust_emit(fname, tys, out_ty, st1);
    if out_ty.spec_value_count() != 0 {
        r2l_emit(out_ty, st2, list)
    } else {
        st2
    }
}

/// What the whole script-facing export emits: the `WASM_EXPORTS` assignment
/// opening a function with one named parameter per declared argument, the
/// export block, the `return` of the converted value unless the return type
/// is the unit type, and the closing `end`. The name scope and the stack
/// come back as they were.
pub open spec fn create_export_emit(
    luau_name: Seq<char>,
    tys: Seq<Describe>,
    out_ty: Describe,
    fname: Seq<char>,
    st: EmitState,
    list: Seq<(Seq<char>, Seq<char>)>,
) -> EmitState {
    let n = tys.len();
    let params = crate::emitter::names_n(st.scope, "param"@, n);
    let st1 = EmitState {
        text: st.text + tabs(st.indent) + "WASM_EXPORTS[\""@ + luau_name
            + "\"] = function("@ + spec_join_comma(params) + ")"@ + seq!['\n'],
        stack: st.stack + params,
        scope: crate::emitter::bump_n(st.scope, "param"@, n),
        used: st.used,
        indent: st.indent + 1,
    };
    let st2 = export_block_emit(tys, out_ty, fname, st1, list);
    let st3 = if out_ty.spec_value_count() != 0 {
        st_line(st_drop(st2, 1), "return "@ + st2.stack.last())
    } else {
        st2
    };
    EmitState {
        text: st3.text + tabs(st.indent) + "end"@ + seq!['\n'],
        stack: st.stack,
        scope: st.scope,
        used: st3.used,
        indent: st.indent,
    }
}

/// Calls the guest function, spilling a multi-slot return through the
/// shadow stack and reading it back at aligned offsets.
pub struct InvokeRustFunction {
    pub function_name: String,
    pub parameters: Vec<Describe>,
    pub output_type: Describe,
}

impl InvokeRustFunction {
    pub fn get_inputs(&self) -> (r: usize)
        requires
            all_sized(self.parameters@),
            sum_vc(self.parameters@) <= usize::MAX,
        ensures
            r == sum_vc(self.parameters@),
    {
        total_slots(&self.parameters)
    }

    pub fn get_outputs(&self) -> (r: usize)
        requires
            self.output_type.no_function(),
            self.output_type.sizes_ok(),
        ensures
            r == self.output_type.spec_value_count(),
    {
        self.output_type.value_count()
    }

    #[verifier::rlimit(100)]
    pub fn render(&self, ctx: &mut InstructionContext)
        requires
            old(ctx).wf(),
            old(ctx).out.new_line,
            clean_stack(old(ctx).inputs@),
            all_sized(self.parameters@),
            self.output_type.no_function(),
            self.output_type.sizes_ok(),
            sum_vc(self.parameters@) <= usize::MAX,
            old(ctx).inputs@.len() >= sum_vc(self.parameters@),
            clean_str(self.function_name@),
        ensures
            frame_kept(*old(ctx), *final(ctx)),
            stack_shifted(
                old(ctx).inputs@,
                final(ctx).inputs@,
                sum_vc(self.parameters@),
                self.output_type.spec_value_count(),
            ),
            clean_stack(final(ctx).inputs@),
            st_of(*final(ctx)) == invoke_rust_emit(
                self.function_name@,
                self.parameters@,
                self.output_type,
                st_of(*old(ctx)),
            ),
    {
        let ghost st0 = st_of(*old(ctx));
        let ghost gspillname = st_name(st0, "spill"@);
        let ghost gargs = st0.stack.subrange(
            st0.stack.len() - sum_vc(self.parameters@),
            st0.stack.len() as int,
        );
        let output_size = self.output_type.memory_size();
        let output_count = self.output_type.value_count();
        let size_str = crate::strutil::dec_string_usize(output_size);
        let ghost tv0 = ctx.vars.top();
        let mut inputs_vec: Vec<String> = Vec::new();
        let mut spill_ptr: Option<String> = None;
        if output_count > 1 {
            let var = ctx.vars.next("spill");
            proof {
                reveal_strlit("spill");
                crate::emitter::lemma_fresh_name_ident(
                    "spill"@,
                    spec_count(tv0, "spill"@),
                );
                assert(var@ == gspillname);
            }
            inputs_vec.push(var.clone());
            spill_ptr = Some(var);
        }
        let ghost sc1 = if self.output_type.spec_value_count() > 1 {
            crate::emitter::spec_bump(st0.scope, "spill"@)
        } else {
            st0.scope
        };
        let ghost gcall_args = if self.output_type.spec_value_count() > 1 {
            seq![gspillname] + gargs
        } else {
            gargs
        };
        let total = total_slots(&self.parameters);
        let ghost before_pop = *ctx;
        let popped = ctx.pop_many(total);
        proof {
            assert forall|j: int| 0 <= j < popped@.len() implies clean_str(
                (#[trigger] popped@[j])@,
            ) by {
                assert(popped@[j] == before_pop.inputs@[before_pop.inputs@.len() - total
                    + j]);
            }
            assert(ctx.inputs@ =~= old(ctx).inputs@.subrange(
                0,
                old(ctx).inputs@.len() - total,
            ));
            assert(forall|q: int|
                0 <= q < inputs_vec@.len() ==> clean_str((#[trigger] inputs_vec@[q])@));
            assert(popped@.map_values(|x: String| x@) =~~= gargs) by {
                assert forall|j: int| 0 <= j < popped@.len() implies #[trigger] stack_view(
                    popped@,
                )[j] == gargs[j] by {
                    assert(popped@[j] == before_pop.inputs@[before_pop.inputs@.len() - total
                        + j]);
                    assert(stack_view(before_pop.inputs@)[before_pop.inputs@.len() - total
                        + j] == before_pop.inputs@[before_pop.inputs@.len() - total + j]@);
                }
                assert(popped@.map_values(|x: String| x@) == stack_view(popped@));
            }
        }
        let mut p: usize = 0;
        let ghost base_defs = inputs_vec@;
        proof {
            assert(stack_view(base_defs) =~~= if self.output_type.spec_value_count() > 1 {
                seq![gspillname]
            } else {
                Seq::<Seq<char>>::empty()
            });
        }
        while p < popped.len()
            invariant
                0 <= p <= popped@.len(),
                inputs_vec@ == base_defs + popped@.take(p as int),
                forall|q: int|
                    0 <= q < popped@.len() ==> clean_str((#[trigger] popped@[q])@),
                forall|q: int|
                    0 <= q < base_defs.len() ==> clean_str((#[trigger] base_defs[q])@),
            decreases popped@.len() - p,
        {
            inputs_vec.push(popped[p].clone());
            p = p + 1;
            proof {
                assert(inputs_vec@ =~= base_defs + popped@.take(p as int));
            }
        }
        proof {
            assert(inputs_vec@ =~= base_defs + popped@);
            assert(stack_view(inputs_vec@) =~~= gcall_args) by {
                assert forall|q: int| 0 <= q < inputs_vec@.len() implies #[trigger]
                stack_view(inputs_vec@)[q] == gcall_args[q] by {
                    if q < base_defs.len() {
                        assert(inputs_vec@[q] == base_defs[q]);
                        assert(stack_view(base_defs)[q] == base_defs[q]@);
                    } else {
                        assert(inputs_vec@[q] == popped@[q - base_defs.len()]);
                        assert(stack_view(popped@)[q - base_defs.len()] == popped@[q
                            - base_defs.len()]@);
                        assert(popped@.map_values(|x: String| x@) == stack_view(popped@));
                    }
                }
            }
            assert forall|q: int| 0 <= q < inputs_vec@.len() implies clean_str(
                (#[trigger] inputs_vec@[q])@,
            ) by {
                if q < base_defs.len() {
                    assert(inputs_vec@[q] == base_defs[q]);
                } else {
                    assert(inputs_vec@[q] == popped@[q - base_defs.len()]);
                }
            }
        }
        let ghost tv1 = ctx.vars.top();
        let output_names = ctx.vars.many(output_count, "output");
        let ghost goutnames = crate::emitter::names_n(sc1, "output"@, output_count as nat);
        proof {
            reveal_strlit("output");
            lemma_names_n_clean(tv1, "output"@, output_count as nat);
            lemma_names_n_len(tv1, "output"@, output_count as nat);
            assert forall|j: int| 0 <= j < output_names@.len() implies clean_str(
                (#[trigger] output_names@[j])@,
            ) by {
                assert(output_names.deep_view()[j] == output_names@[j]@);
            }
            assert(output_names@.len() == output_count);
            assert(tv1 == sc1);
            assert(output_names.deep_view() == goutnames);
            assert forall|j: int| 0 <= j < output_names@.len() implies #[trigger] stack_view(
                output_names@,
            )[j] == goutnames[j] by {
                assert(output_names.deep_view()[j] == output_names@[j]@);
            }
        }
        let ghost before_emit = *ctx;
        if output_count != 0 {
            let ghost pre_ext = *ctx;
            let mut e: usize = 0;
            while e < output_names.len()
                invariant
                    0 <= e <= output_names@.len(),
                    ctx.wf(),
                    ctx.out == pre_ext.out,
                    ctx.vars == pre_ext.vars,
                    ctx.intrinsics == pre_ext.intrinsics,
                    ctx.inputs@ == pre_ext.inputs@ + output_names@.take(e as int),
                    forall|j: int|
                        0 <= j < output_names@.len() ==> clean_str(
                            (#[trigger] output_names@[j])@,
                        ),
                decreases output_names@.len() - e,
            {
                ctx.push(output_names[e].clone());
                e = e + 1;
                proof {
                    assert(ctx.inputs@ =~= pre_ext.inputs@ + output_names@.take(e as int));
                }
            }
            proof {
                assert(output_names@.take(output_names@.len() as int) =~= output_names@);
                assert(clean_stack(ctx.inputs@));
            }
            match &spill_ptr {
                Some(sp) => {
                    proof {
                        reveal_strlit("local ");
                        reveal_strlit(" = WASM_STACK.value - ");
                        reveal_strlit("WASM_STACK.value = ");
                        lemma_dec_clean(output_size as nat);
                        lemma_clean_concat("local "@, sp@);
                        lemma_clean_concat("local "@ + sp@, " = WASM_STACK.value - "@);
                        lemma_clean_concat(
                            "local "@ + sp@ + " = WASM_STACK.value - "@,
                            size_str@,
                        );
                        lemma_clean_concat("WASM_STACK.value = "@, sp@);
                    }
                    let mut l1 = String::from_str("local ");
                    l1.append(sp.as_str());
                    l1.append(" = WASM_STACK.value - ");
                    l1.append(size_str.as_str());
                    let ghost g1 = *ctx;
                    ctx.out.writeln(l1.as_str());
                    let mut l2 = String::from_str("WASM_STACK.value = ");
                    l2.append(sp.as_str());
                    ctx.out.writeln(l2.as_str());
                    proof {
                        prefix_step(old(ctx).text(), g1.text(), ctx.text());
                    }
                },
                None => {
                    let joined = join_comma(&output_names);
                    proof {
                        reveal_strlit("local ");
                        reveal_strlit(" = ");
                        lemma_join_comma_clean(
                            output_names@.map_values(|s: String| s@),
                        );
                    }
                    ctx.out.write("local ");
                    ctx.out.write(joined.as_str());
                    ctx.out.write(" = ");
                },
            }
        }
        let arg_list = join_comma(&inputs_vec);
        proof {
            reveal_strlit("WASM.func_list.");
            reveal_strlit("(");
            reveal_strlit(")");
            lemma_join_comma_clean(inputs_vec@.map_values(|s: String| s@));
        }
        ctx.out.write("WASM.func_list.");
        ctx.out.write(self.function_name.as_str());
        ctx.out.write("(");
        ctx.out.write(arg_list.as_str());
        let ghost g2 = *ctx;
        ctx.out.writeln(")");
        let ghost st_a = EmitState {
            text: st0.text + (if output_count != 0 && output_count > 1 {
                tabs(st0.indent) + "local "@ + gspillname + " = WASM_STACK.value - "@
                    + spec_dec(self.output_type.spec_memory_size()) + seq!['\n'] + tabs(
                    st0.indent,
                ) + "WASM_STACK.value = "@ + gspillname + seq!['\n']
            } else {
                Seq::<char>::empty()
            }) + tabs(st0.indent) + (if output_count != 0 && output_count <= 1 {
                "local "@ + spec_join_comma(goutnames) + " = "@
            } else {
                Seq::<char>::empty()
            }) + "WASM.func_list."@ + self.function_name@ + "("@ + spec_join_comma(
                gcall_args,
            ) + ")"@ + seq!['\n'],
            stack: st0.stack.subrange(0, st0.stack.len() - sum_vc(self.parameters@))
                + goutnames,
            scope: crate::emitter::bump_n(sc1, "output"@, output_count as nat),
            used: st0.used,
            indent: st0.indent,
        };
        proof {
            prefix_step(old(ctx).text(), old(ctx).text(), ctx.text());
            assert(arg_list@ == spec_join_comma(gcall_args)) by {
                assert(inputs_vec@.map_values(|x: String| x@) == stack_view(inputs_vec@));
            }
            assert(st_of(*ctx) =~~= st_a);
        }
        match &spill_ptr {
            Some(sp) => {
                proof {
                    lemma_value_count_primitives(self.output_type);
                    lemma_memory_size_ge_layout(self.output_type);
                    assert(clean_str(sp@));
                }
                let primitives = self.output_type.primitive_values();
                ctx.push(sp.clone());
                proof {
                    assert(st_of(*ctx) =~~= st_push(st_a, gspillname));
                }
                let ghost before_pull = *ctx;
                PullMemory { primitives: primitives.as_slice() }.render(ctx);
                let ghost st_b = st_pull(
                    st_push(st_a, gspillname),
                    self.output_type.spec_primitives(),
                );
                proof {
                    prefix_step(old(ctx).text(), before_pull.text(), ctx.text());
                    assert(st_of(before_pull) == st_push(st_a, gspillname));
                    assert(st_of(*ctx) == st_b);
                }
                let ghost gexprs = st_b.stack.subrange(
                    st_b.stack.len() - output_count,
                    st_b.stack.len() as int,
                );
                let ghost before_reads = *ctx;
                let exprs = ctx.pop_many(output_count);
                proof {
                    assert forall|j: int| 0 <= j < exprs@.len() implies clean_str(
                        (#[trigger] exprs@[j])@,
                    ) by {
                        assert(exprs@[j] == before_reads.inputs@[before_reads.inputs@.len()
                            - output_count + j]);
                    }
                    assert forall|j: int| 0 <= j < exprs@.len() implies (
                    #[trigger] exprs@[j])@ == gexprs[j] by {
                        assert(exprs@[j] == before_reads.inputs@[before_reads.inputs@.len()
                            - output_count + j]);
                        assert(stack_view(before_reads.inputs@)[before_reads.inputs@.len()
                            - output_count + j] == before_reads.inputs@[
                        before_reads.inputs@.len() - output_count + j]@);
                    }
                    assert(st_of(*ctx) =~~= st_drop(st_b, output_count as nat));
                }
                let ghost st_c = st_drop(st_b, output_count as nat);
                let ghost pre_zip = *ctx;
                proof {
                    assert(local_lines(
                        goutnames.take(0),
                        gexprs.take(0),
                        st0.indent,
                    ) =~= Seq::<char>::empty());
                    assert(ctx.text() =~= st_c.text + local_lines(
                        goutnames.take(0),
                        gexprs.take(0),
                        st0.indent,
                    ));
                }
                let mut z: usize = 0;
                while z < output_count
                    invariant
                        0 <= z <= output_count,
                        output_count == output_names@.len(),
                        output_count == exprs@.len(),
                        goutnames.len() == output_count,
                        gexprs.len() == output_count,
                        st0.indent == pre_zip.out.indent,
                        forall|j: int|
                            0 <= j < output_names@.len() ==> (#[trigger] output_names@[j])@
                                == goutnames[j],
                        forall|j: int|
                            0 <= j < exprs@.len() ==> (#[trigger] exprs@[j])@ == gexprs[j],
                        ctx.wf(),
                        ctx.out.new_line,
                        ctx.out.indent == pre_zip.out.indent,
                        ctx.vars == pre_zip.vars,
                        ctx.intrinsics == pre_zip.intrinsics,
                        ctx.inputs == pre_zip.inputs,
                        pre_zip.text().is_prefix_of(ctx.text()),
                        ctx.text() == st_c.text + local_lines(
                            goutnames.take(z as int),
                            gexprs.take(z as int),
                            st0.indent,
                        ),
                        forall|j: int|
                            0 <= j < output_names@.len() ==> clean_str(
                                (#[trigger] output_names@[j])@,
                            ),
                        forall|j: int|
                            0 <= j < exprs@.len() ==> clean_str(
                                (#[trigger] exprs@[j])@,
                            ),
                    decreases output_count - z,
                {
                    let ghost it = *ctx;
                    let mut l = String::from_str("local ");
                    l.append(output_names[z].as_str());
                    l.append(" = ");
                    l.append(exprs[z].as_str());
                    proof {
                        reveal_strlit("local ");
                        reveal_strlit(" = ");
                        lemma_clean_concat("local "@, output_names@[z as int]@);
                        lemma_clean_concat(
                            "local "@ + output_names@[z as int]@,
                            " = "@,
                        );
                        lemma_clean_concat(
                            "local "@ + output_names@[z as int]@ + " = "@,
                            exprs@[z as int]@,
                        );
                    }
                    ctx.out.writeln(l.as_str());
                    z = z + 1;
                    proof {
                        prefix_step(it.text(), it.text(), ctx.text());
                        lemma_prefix_trans(pre_zip.text(), it.text(), ctx.text());
                        lemma_local_lines_take(goutnames, gexprs, st0.indent, z as int);
                        assert(ctx.text() =~= st_c.text + local_lines(
                            goutnames.take(z as int),
                            gexprs.take(z as int),
                            st0.indent,
                        ));
                    }
                }
                let ghost st_d = EmitState {
                    text: st_c.text + local_lines(goutnames, gexprs, st0.indent),
                    ..st_c
                };
                proof {
                    lemma_prefix_trans(old(ctx).text(), pre_zip.text(), ctx.text());
                    assert(goutnames.take(output_count as int) =~= goutnames);
                    assert(gexprs.take(output_count as int) =~= gexprs);
                    assert(st_of(*ctx) =~~= st_d);
                }
                let mut l3 = String::from_str("WASM_STACK.value = ");
                l3.append(sp.as_str());
                l3.append(" + ");
                l3.append(size_str.as_str());
                proof {
                    reveal_strlit("WASM_STACK.value = ");
                    reveal_strlit(" + ");
                    lemma_dec_clean(output_size as nat);
                    lemma_clean_concat("WASM_STACK.value = "@, sp@);
                    lemma_clean_concat("WASM_STACK.value = "@ + sp@, " + "@);
                    lemma_clean_concat(
                        "WASM_STACK.value = "@ + sp@ + " + "@,
                        size_str@,
                    );
                }
                let ghost g4 = *ctx;
                ctx.out.writeln(l3.as_str());
                proof {
                    prefix_step(old(ctx).text(), g4.text(), ctx.text());
                    assert(st_of(*ctx) =~~= st_line(
                        st_d,
                        "WASM_STACK.value = "@ + gspillname + " + "@ + spec_dec(
                            self.output_type.spec_memory_size(),
                        ),
                    ));
                }
            },
            None => {},
        }
        proof {
            assert(final(ctx).inputs@.subrange(
                0,
                old(ctx).inputs@.len() - sum_vc(self.parameters@),
            ) =~= old(ctx).inputs@.subrange(
                0,
                old(ctx).inputs@.len() - sum_vc(self.parameters@),
            ));
            assert(clean_stack(final(ctx).inputs@));
            lemma_prefix_refl(old(ctx).intrinsics.used_view());
            assert(st_of(*final(ctx)) =~~= invoke_rust_emit(
                self.function_name@,
                self.parameters@,
                self.output_type,
                st0,
            ));
        }
    }
}

/// Converts each script-typed input to guest slots, runs the guest call,
/// and converts its slots back to one script value.
pub struct ExportBlock {
    pub body: InvokeRustFunction,
}

impl ExportBlock {
    pub fn get_inputs(&self) -> (r: usize)
        ensures
            r == self.body.parameters@.len(),
    {
        self.body.parameters.len()
    }

    pub fn get_outputs(&self) -> (r: usize)
        requires
            self.body.output_type.no_function(),
            self.body.output_type.sizes_ok(),
        ensures
            r == (if self.body.output_type.spec_value_count() == 0 {
                0int
            } else {
                1int
            }),
    {
        if self.body.output_type.value_count() == 0 {
            0
        } else {
            1
        }
    }

    #[verifier::rlimit(100)]
    pub fn render(&self, ctx: &mut InstructionContext)
        requires
            old(ctx).wf(),
            old(ctx).out.new_line,
            clean_stack(old(ctx).inputs@),
            all_l2r(self.body.parameters@),
            self.body.output_type.r2l_ok(),
            self.body.output_type.sizes_ok(),
            sum_vc(self.body.parameters@) <= usize::MAX,
            old(ctx).inputs@.len() >= self.body.parameters@.len(),
            clean_str(self.body.function_name@),
            (forall|k: int|
                0 <= k < self.body.parameters@.len() ==> ((
                #[trigger] self.body.parameters@[k]).l2r_needs_alloc() ==> find_intrinsic(
                    old(ctx).intrinsics.list(),
                    "alloc"@,
                ) is Some)),
            (self.body.output_type.r2l_needs_free() ==> find_intrinsic(
                old(ctx).intrinsics.list(),
                "free"@,
            ) is Some),
            old(ctx).out.indent + 1 + max_height(self.body.parameters@) <= usize::MAX,
            old(ctx).out.indent + 1 + self.body.output_type.height() <= usize::MAX,
        ensures
            frame_kept(*old(ctx), *final(ctx)),
            stack_shifted(
                old(ctx).inputs@,
                final(ctx).inputs@,
                self.body.parameters@.len(),
                if self.body.output_type.spec_value_count() == 0 {
                    0nat
                } else {
                    1nat
                },
            ),
            clean_stack(final(ctx).inputs@),
            st_of(*final(ctx)) == export_block_emit(
                self.body.parameters@,
                self.body.output_type,
                self.body.function_name@,
                st_of(*old(ctx)),
                old(ctx).intrinsics.list(),
            ),
    {
        let ghost st0 = st_of(*old(ctx));
        let ghost glist = old(ctx).intrinsics.list();
        let ghost gparams = st0.stack.subrange(
            st0.stack.len() - self.body.parameters@.len(),
            st0.stack.len() as int,
        );
        proof {
            assert forall|k: int| 0 <= k < self.body.parameters@.len() implies (
            #[trigger] self.body.parameters@[k]).no_function() && self.body.parameters@[k].sizes_ok() by {
                crate::describe::lemma_l2r_ok_no_function(self.body.parameters@[k]);
            }
            assert(all_sized(self.body.parameters@));
            crate::describe::lemma_r2l_ok_no_function(self.body.output_type);
        }
        let n = self.body.parameters.len();
        let ghost before_pop = *ctx;
        let params = ctx.pop_many(n);
        proof {
            assert forall|j: int| 0 <= j < params@.len() implies clean_str(
                (#[trigger] params@[j])@,
            ) by {
                assert(params@[j] == before_pop.inputs@[before_pop.inputs@.len() - n + j]);
            }
            assert(ctx.inputs@ =~= old(ctx).inputs@.subrange(
                0,
                old(ctx).inputs@.len() - n,
            ));
            lemma_prefix_refl(old(ctx).text());
            lemma_prefix_refl(old(ctx).intrinsics.used_view());
            assert(self.body.parameters@.take(0).len() == 0);
            assert forall|j: int| 0 <= j < params@.len() implies (#[trigger] params@[j])@
                == gparams[j] by {
                assert(params@[j] == before_pop.inputs@[before_pop.inputs@.len() - n + j]);
                assert(stack_view(before_pop.inputs@)[before_pop.inputs@.len() - n + j]
                    == before_pop.inputs@[before_pop.inputs@.len() - n + j]@);
            }
        }
        let ghost base = *ctx;
        let ghost base_st = st_of(base);
        proof {
            assert(self.body.parameters@.skip(0) =~= self.body.parameters@);
            assert(base_st =~~= EmitState {
                stack: st0.stack.subrange(
                    0,
                    st0.stack.len() - self.body.parameters@.len(),
                ),
                ..st0
            });
        }
        let mut k: usize = 0;
        while k < n
            invariant
                0 <= k <= n,
                n == self.body.parameters@.len(),
                n == params@.len(),
                all_l2r(self.body.parameters@),
                sum_vc(self.body.parameters@) <= usize::MAX,
                forall|j: int| 0 <= j < params@.len() ==> clean_str((#[trigger] params@[j])@),
                ctx.wf(),
                ctx.out.new_line,
                ctx.out.indent == base.out.indent,
                base.out.indent + 1 + max_height(self.body.parameters@) <= usize::MAX,
                (forall|j: int|
                    0 <= j < self.body.parameters@.len() ==> ((
                    #[trigger] self.body.parameters@[j]).l2r_needs_alloc() ==> find_intrinsic(
                        base.intrinsics.list(),
                        "alloc"@,
                    ) is Some)),
                ctx.intrinsics.intrinsics == base.intrinsics.intrinsics,
                base.intrinsics.used_view().is_prefix_of(ctx.intrinsics.used_view()),
                crate::instructions::same_outer_scopes(base.vars, ctx.vars),
                base.text().is_prefix_of(ctx.text()),
                clean_stack(ctx.inputs@),
                ctx.inputs@.len() == base.inputs@.len() + sum_vc(self.body.parameters@.take(k as int)),
                ctx.inputs@.subrange(0, base.inputs@.len() as int) == base.inputs@,
                glist == base.intrinsics.list(),
                gparams.len() == params@.len(),
                forall|j: int|
                    0 <= j < params@.len() ==> (#[trigger] params@[j])@ == gparams[j],
                l2r_fold(
                    self.body.parameters@.skip(k as int),
                    gparams,
                    k as int,
                    st_of(*ctx),
                    glist,
                ) == l2r_fold(self.body.parameters@, gparams, 0, base_st, glist),
            decreases n - k,
        {
            proof {
                lemma_sum_vc_take_step(self.body.parameters@, k as int);
                lemma_sum_vc_split(self.body.parameters@, k as int + 1);
                lemma_max_height_at(self.body.parameters@, k as int);
                assert(self.body.parameters@.skip(k as int)[0] == self.body.parameters@[
                k as int]);
                assert(self.body.parameters@.skip(k as int).drop_first()
                    =~= self.body.parameters@.skip(k as int + 1));
            }
            let ghost fold_pre = st_of(*ctx);
            ctx.push(params[k].clone());
            proof {
                assert(clean_stack(ctx.inputs@));
                assert(st_of(*ctx) =~~= st_push(fold_pre, gparams[k as int]));
            }
            let ghost before_conv = *ctx;
            LuauToRust { ty: &self.body.parameters[k] }.render(ctx);
            k = k + 1;
            proof {
                lemma_prefix_trans(base.text(), before_conv.text(), ctx.text());
                lemma_prefix_trans(
                    base.intrinsics.used_view(),
                    before_conv.intrinsics.used_view(),
                    ctx.intrinsics.used_view(),
                );
                assert(ctx.inputs@.subrange(0, base.inputs@.len() as int) =~= base.inputs@);
                assert(before_conv.intrinsics.list() == glist);
                assert(st_of(*ctx) == l2r_emit(
                    self.body.parameters@[k - 1],
                    st_push(fold_pre, gparams[k - 1]),
                    glist,
                ));
            }
        }
        let ghost folded = l2r_fold(self.body.parameters@, gparams, 0, base_st, glist);
        proof {
            assert(self.body.parameters@.take(n as int) =~= self.body.parameters@);
            assert(self.body.parameters@.skip(n as int).len() == 0);
            assert(st_of(*ctx) == folded);
        }
        let ghost before_call = *ctx;
        self.body.render(ctx);
        let ghost after_call = invoke_rust_emit(
            self.body.function_name@,
            self.body.parameters@,
            self.body.output_type,
            folded,
        );
        proof {
            lemma_prefix_trans(base.text(), before_call.text(), ctx.text());
            lemma_prefix_trans(
                base.intrinsics.used_view(),
                before_call.intrinsics.used_view(),
                ctx.intrinsics.used_view(),
            );
            assert(ctx.inputs@.subrange(0, base.inputs@.len() as int) =~= base.inputs@);
            assert(st_of(before_call) == folded);
            assert(st_of(*ctx) == after_call);
        }
        if self.body.output_type.value_count() != 0 {
            let ghost before_out = *ctx;
            RustToLuau { ty: &self.body.output_type }.render(ctx);
            proof {
                lemma_prefix_trans(base.text(), before_out.text(), ctx.text());
                lemma_prefix_trans(
                    base.intrinsics.used_view(),
                    before_out.intrinsics.used_view(),
                    ctx.intrinsics.used_view(),
                );
                assert(ctx.inputs@.subrange(0, base.inputs@.len() as int) =~= base.inputs@);
                assert(before_out.intrinsics.list() == glist);
                assert(st_of(*ctx) == r2l_emit(self.body.output_type, after_call, glist));
            }
        }
        proof {
            lemma_prefix_trans(old(ctx).text(), base.text(), final(ctx).text());
            assert(final(ctx).inputs@.subrange(0, old(ctx).inputs@.len() - n) =~= old(
                ctx,
            ).inputs@.subrange(0, old(ctx).inputs@.len() - n));
            assert(st_of(*final(ctx)) =~~= export_block_emit(
                self.body.parameters@,
                self.body.output_type,
                self.body.function_name@,
                st0,
                glist,
            ));
        }
    }
}

/// Opens the script-facing export: a named function with one parameter per
/// declared argument, returning the converted guest result.
pub struct WasmCreateExport {
    pub luau_name: String,
    pub body: ExportBlock,
}

impl WasmCreateExport {
    pub fn get_inputs(&self) -> (r: usize)
        ensures
            r == 0,
    {
        0
    }

    pub fn get_outputs(&self) -> (r: usize)
        ensures
            r == 0,
    {
        0
    }

    #[verifier::rlimit(100)]
    pub fn render(&self, ctx: &mut InstructionContext)
        requires
            old(ctx).wf(),
            old(ctx).out.new_line,
            clean_stack(old(ctx).inputs@),
            all_l2r(self.body.body.parameters@),
            self.body.body.output_type.r2l_ok(),
            self.body.body.output_type.sizes_ok(),
            sum_vc(self.body.body.parameters@) <= usize::MAX,
            clean_str(self.luau_name@),
            clean_str(self.body.body.function_name@),
            (forall|k: int|
                0 <= k < self.body.body.parameters@.len() ==> ((
                #[trigger] self.body.body.parameters@[k]).l2r_needs_alloc() ==> find_intrinsic(
                    old(ctx).intrinsics.list(),
                    "alloc"@,
                ) is Some)),
            (self.body.body.output_type.r2l_needs_free() ==> find_intrinsic(
                old(ctx).intrinsics.list(),
                "free"@,
            ) is Some),
            old(ctx).out.indent + 2 + max_height(self.body.body.parameters@) <= usize::MAX,
            old(ctx).out.indent + 2 + self.body.body.output_type.height() <= usize::MAX,
        ensures
            final(ctx).wf(),
            final(ctx).out.new_line,
            final(ctx).out.indent == old(ctx).out.indent,
            final(ctx).vars.scopes() == old(ctx).vars.scopes(),
            final(ctx).intrinsics.intrinsics == old(ctx).intrinsics.intrinsics,
            old(ctx).intrinsics.used_view().is_prefix_of(final(ctx).intrinsics.used_view()),
            old(ctx).text().is_prefix_of(final(ctx).text()),
            final(ctx).inputs@ == old(ctx).inputs@,
            clean_stack(final(ctx).inputs@),
            st_of(*final(ctx)) == create_export_emit(
                self.luau_name@,
                self.body.body.parameters@,
                self.body.body.output_type,
                self.body.body.function_name@,
                st_of(*old(ctx)),
                old(ctx).intrinsics.list(),
            ),
    {
        let ghost st0 = st_of(*old(ctx));
        let ghost glist = old(ctx).intrinsics.list();
        let ghost gparams = crate::emitter::names_n(
            st0.scope,
            "param"@,
            self.body.body.parameters@.len() as nat,
        );
        ctx.vars.scope();
        proof {
            assert(st_of(*ctx) =~~= st0);
        }
        let ghost tv = ctx.vars.top();
        let parameters = ctx.vars.many(self.body.body.parameters.len(), "param");
        proof {
            reveal_strlit("param");
            lemma_names_n_clean(tv, "param"@, self.body.body.parameters@.len() as nat);
            lemma_names_n_len(tv, "param"@, self.body.body.parameters@.len() as nat);
            assert forall|j: int| 0 <= j < parameters@.len() implies clean_str(
                (#[trigger] parameters@[j])@,
            ) by {
                assert(parameters.deep_view()[j] == parameters@[j]@);
            }
            assert(parameters@.len() == self.body.body.parameters@.len());
            assert(tv == st0.scope);
            assert(parameters.deep_view() == gparams);
            assert forall|j: int| 0 <= j < parameters@.len() implies #[trigger] stack_view(
                parameters@,
            )[j] == gparams[j] by {
                assert(parameters.deep_view()[j] == parameters@[j]@);
            }
        }
        let joined = join_comma(&parameters);
        proof {
            reveal_strlit("WASM_EXPORTS[\"");
            reveal_strlit("\"] = function(");
            reveal_strlit(")");
            lemma_join_comma_clean(parameters@.map_values(|s: String| s@));
        }
        ctx.out.write("WASM_EXPORTS[\"");
        ctx.out.write(self.luau_name.as_str());
        ctx.out.write("\"] = function(");
        ctx.out.write(joined.as_str());
        ctx.out.writeln(")");
        ctx.out.up();
        let ghost s1 = EmitState {
            text: st0.text + tabs(st0.indent) + "WASM_EXPORTS[\""@ + self.luau_name@
                + "\"] = function("@ + spec_join_comma(gparams) + ")"@ + seq!['\n'],
            stack: st0.stack + gparams,
            scope: crate::emitter::bump_n(
                st0.scope,
                "param"@,
                self.body.body.parameters@.len() as nat,
            ),
            used: st0.used,
            indent: st0.indent + 1,
        };
        proof {
            prefix_step(old(ctx).text(), old(ctx).text(), ctx.text());
            assert(joined@ == spec_join_comma(gparams)) by {
                assert(parameters@.map_values(|x: String| x@) == stack_view(parameters@));
                assert(stack_view(parameters@) =~~= gparams);
            }
        }
        let ghost pre_ext = *ctx;
        let mut e: usize = 0;
        while e < parameters.len()
            invariant
                0 <= e <= parameters@.len(),
                ctx.wf(),
                ctx.out == pre_ext.out,
                ctx.vars == pre_ext.vars,
                ctx.intrinsics == pre_ext.intrinsics,
                ctx.inputs@ == pre_ext.inputs@ + parameters@.take(e as int),
                forall|j: int|
                    0 <= j < parameters@.len() ==> clean_str(
                        (#[trigger] parameters@[j])@,
                    ),
            decreases parameters@.len() - e,
        {
            ctx.push(parameters[e].clone());
            e = e + 1;
            proof {
                assert(ctx.inputs@ =~= pre_ext.inputs@ + parameters@.take(e as int));
            }
        }
        proof {
            assert(parameters@.take(parameters@.len() as int) =~= parameters@);
            assert(clean_stack(ctx.inputs@)) by {
                assert forall|q: int| 0 <= q < ctx.inputs@.len() implies clean_str(
                    (#[trigger] ctx.inputs@[q])@,
                ) by {
                    if q < pre_ext.inputs@.len() {
                        assert(ctx.inputs@[q] == pre_ext.inputs@[q]);
                    } else {
                        assert(ctx.inputs@[q] == parameters@[q - pre_ext.inputs@.len()]);
                    }
                }
            }
            assert(ctx.inputs@.subrange(0, old(ctx).inputs@.len() as int) =~= old(
                ctx,
            ).inputs@);
            assert(st_of(*ctx) =~~= s1) by {
                assert forall|q: int| 0 <= q < ctx.inputs@.len() implies #[trigger]
                stack_view(ctx.inputs@)[q] == (st0.stack + gparams)[q] by {
                    if q < pre_ext.inputs@.len() {
                        assert(ctx.inputs@[q] == pre_ext.inputs@[q]);
                        assert(stack_view(pre_ext.inputs@)[q] == pre_ext.inputs@[q]@);
                    } else {
                        assert(ctx.inputs@[q] == parameters@[q - pre_ext.inputs@.len()]);
                        assert(stack_view(parameters@)[q - pre_ext.inputs@.len()]
                            == parameters@[q - pre_ext.inputs@.len()]@);
                    }
                }
            }
        }
        let ghost before_block = *ctx;
        self.body.render(ctx);
        let ghost s2 = export_block_emit(
            self.body.body.parameters@,
            self.body.body.output_type,
            self.body.body.function_name@,
            s1,
            glist,
        );
        proof {
            lemma_prefix_trans(old(ctx).text(), before_block.text(), ctx.text());
            assert(ctx.inputs@.subrange(0, old(ctx).inputs@.len() as int) =~= old(
                ctx,
            ).inputs@);
            assert(before_block.intrinsics.list() == glist);
            assert(st_of(before_block) == s1);
            assert(st_of(*ctx) == s2);
        }
        proof {
            crate::describe::lemma_r2l_ok_no_function(self.body.body.output_type);
        }
        if self.body.body.output_type.value_count() != 0 {
            let value = ctx.pop();
            let ghost gvalue = s2.stack.last();
            proof {
                assert(clean_str(value@));
                assert(value@ == gvalue);
            }
            let mut ret = String::from_str("return ");
            ret.append(value.as_str());
            proof {
                reveal_strlit("return ");
                lemma_clean_concat("return "@, value@);
            }
            let ghost g1 = *ctx;
            ctx.out.writeln(ret.as_str());
            proof {
                prefix_step(old(ctx).text(), g1.text(), ctx.text());
                assert(ctx.inputs@ =~= old(ctx).inputs@);
                assert(st_of(*ctx) =~~= st_line(st_drop(s2, 1), "return "@ + gvalue));
            }
        } else {
            proof {
                assert(ctx.inputs@ =~= old(ctx).inputs@);
                assert(st_of(*ctx) == s2);
            }
        }
        ctx.out.down();
        proof {
            reveal_strlit("end");
        }
        let ghost g2 = *ctx;
        ctx.out.writeln("end");
        ctx.vars.unscope();
        proof {
            prefix_step(old(ctx).text(), g2.text(), ctx.text());
            assert(final(ctx).vars.scopes() =~~= old(ctx).vars.scopes());
            assert(final(ctx).inputs@ =~= old(ctx).inputs@);
            lemma_prefix_trans(
                old(ctx).intrinsics.used_view(),
                before_block.intrinsics.used_view(),
                final(ctx).intrinsics.used_view(),
            );
            assert(st_of(*final(ctx)) =~~= create_export_emit(
                self.luau_name@,
                self.body.body.parameters@,
                self.body.body.output_type,
                self.body.body.function_name@,
                st0,
                glist,
            ));
        }
    }
}

} // verus!
