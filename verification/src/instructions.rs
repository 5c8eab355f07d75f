//! The instruction layer: every code-emitting step declares how many input
//! stack slots it consumes and how many it produces, and its `render`
//! contract pins that stack discipline together with what it writes.

pub mod exports;
pub mod headers;
pub mod imports;
pub mod luau_to_rust;
pub mod rust_to_lua;

use vstd::prelude::*;

use crate::describe::Describe;
use crate::emitter::{
    fresh_name, spec_bump, spec_count, tabs, IndentedWriter, InstructionContext, Vars,
};
use crate::strutil::{clean_str, dec_string_usize, spec_dec, spec_simple_ident};

verus! {

/// The slot names `{prefix}_1` .. `{prefix}_{value_count}` for a type.
pub open spec fn spec_splat(ty: Describe, prefix: Seq<char>) -> Seq<Seq<char>> {
    Seq::new(ty.spec_value_count(), |i: int| prefix + seq!['_'] + spec_dec((i + 1) as nat))
}

/// Names one stack slot per ABI slot of `ty`, numbered from one.
pub fn splat(ty: &Describe, prefix: &str) -> (r: Vec<String>)
    requires
        ty.no_function(),
        ty.spec_value_count() <= usize::MAX,
    ensures
        r.deep_view() == spec_splat(*ty, prefix@),
{
    let count = ty.value_count();
    let mut r: Vec<String> = Vec::new();
    let mut i: usize = 0;
    while i < count
        invariant
            0 <= i <= count,
            count == ty.spec_value_count(),
            r@.len() == i,
            forall|k: int|
                0 <= k < i ==> (#[trigger] r@[k])@ == prefix@ + seq!['_'] + spec_dec(
                    (k + 1) as nat,
                ),
        decreases count - i,
    {
        let mut name = String::from_str(prefix);
        name.append("_");
        let d = dec_string_usize(i + 1);
        name.append(d.as_str());
        proof {
            reveal_strlit("_");
            assert(name@ =~= prefix@ + seq!['_'] + spec_dec((i + 1) as nat));
        }
        r.push(name);
        i = i + 1;
    }
    proof {
        assert(r.deep_view() =~~= spec_splat(*ty, prefix@));
    }
    r
}

/// Every stack entry is free of newlines.
pub open spec fn clean_stack(s: Seq<String>) -> bool {
    forall|k: int| 0 <= k < s.len() ==> clean_str((#[trigger] s[k])@)
}

/// The allocator scopes other than the innermost one are untouched, and the
/// scope count is preserved.
pub open spec fn same_outer_scopes(pre: Vars, post: Vars) -> bool {
    &&& post.scopes().len() == pre.scopes().len()
    &&& forall|k: int| 0 <= k < pre.scopes().len() - 1 ==> post.scopes()[k] == pre.scopes()[k]
}

/// What every conversion keeps of the context: well-formedness, the
/// indentation level and line state, the outer name scopes, the intrinsic
/// list, and all text and use records already made.
pub open spec fn frame_kept(pre: InstructionContext, post: InstructionContext) -> bool {
    &&& post.wf()
    &&& post.out.indent == pre.out.indent
    &&& post.out.new_line == pre.out.new_line
    &&& same_outer_scopes(pre.vars, post.vars)
    &&& post.intrinsics.intrinsics == pre.intrinsics.intrinsics
    &&& pre.intrinsics.used_view().is_prefix_of(post.intrinsics.used_view())
    &&& pre.text().is_prefix_of(post.text())
}

/// The stack lost `pops` entries, gained `pushes`, and everything below the
/// consumed entries is untouched.
pub open spec fn stack_shifted(
    pre: Seq<String>,
    post: Seq<String>,
    pops: nat,
    pushes: nat,
) -> bool {
    &&& pre.len() >= pops
    &&& post.len() == pre.len() - pops + pushes
    &&& post.subrange(0, pre.len() - pops) == pre.subrange(0, pre.len() - pops)
}

/// The expression a hoisting pop hands back: the expression itself when it
/// is a plain identifier, else the fresh `prereq` local.
pub open spec fn hoist_name(vars_top: Seq<(Seq<char>, usize)>, expr: Seq<char>) -> Seq<char> {
    if spec_simple_ident(expr) {
        expr
    } else {
        fresh_name("prereq"@, spec_count(vars_top, "prereq"@))
    }
}

/// The name scope after a hoisting pop.
pub open spec fn hoist_scope(vars_top: Seq<(Seq<char>, usize)>, expr: Seq<char>) -> Seq<
    (Seq<char>, usize),
> {
    if spec_simple_ident(expr) {
        vars_top
    } else {
        spec_bump(vars_top, "prereq"@)
    }
}

/// The line a hoisting pop writes, empty when no hoist happens; the writer
/// must stand at a line start.
pub open spec fn hoist_text(
    w: IndentedWriter,
    vars_top: Seq<(Seq<char>, usize)>,
    expr: Seq<char>,
) -> Seq<char> {
    if spec_simple_ident(expr) {
        Seq::empty()
    } else {
        tabs(w.indent as nat) + "local "@ + hoist_name(vars_top, expr) + " = "@ + expr + seq![
            '\n',
        ]
    }
}

/// The line a hoisting pop writes at a given indentation, empty when no
/// hoist happens.
pub open spec fn hoist_text_at(
    indent: nat,
    vars_top: Seq<(Seq<char>, usize)>,
    expr: Seq<char>,
) -> Seq<char> {
    if spec_simple_ident(expr) {
        Seq::empty()
    } else {
        tabs(indent) + "local "@ + hoist_name(vars_top, expr) + " = "@ + expr + seq!['\n']
    }
}

/// Everything of the emitter that the code-generating instructions read and
/// change: the text written so far, the input stack, the innermost name
/// scope, the referenced intrinsics and the indentation level. Each render's
/// contract pins its whole effect as a function of this state.
#[verifier::ext_equal]
pub struct EmitState {
    pub text: Seq<char>,
    pub stack: Seq<Seq<char>>,
    pub scope: Seq<(Seq<char>, usize)>,
    pub used: Seq<Seq<char>>,
    pub indent: nat,
}

/// The stack's entries at the character level.
pub open spec fn stack_view(s: Seq<String>) -> Seq<Seq<char>> {
    s.map_values(|x: String| x@)
}

/// The emitter state a context is in.
pub open spec fn st_of(ctx: InstructionContext) -> EmitState {
    EmitState {
        text: ctx.text(),
        stack: stack_view(ctx.inputs@),
        scope: ctx.vars.top(),
        used: ctx.intrinsics.used_view(),
        indent: ctx.out.indent as nat,
    }
}

/// One full line written at the state's indentation.
pub open spec fn st_line(st: EmitState, line: Seq<char>) -> EmitState {
    EmitState { text: st.text + tabs(st.indent) + line + seq!['\n'], ..st }
}

/// One expression pushed.
pub open spec fn st_push(st: EmitState, e: Seq<char>) -> EmitState {
    EmitState { stack: st.stack.push(e), ..st }
}

/// The top `n` expressions dropped.
pub open spec fn st_drop(st: EmitState, n: nat) -> EmitState {
    EmitState { stack: st.stack.subrange(0, st.stack.len() - n), ..st }
}

/// One indentation level opened or closed.
pub open spec fn st_indent(st: EmitState, indent: nat) -> EmitState {
    EmitState { indent, ..st }
}

/// The state after a hoisting pop of the top expression.
pub open spec fn st_pop_complex(st: EmitState) -> EmitState {
    EmitState {
        text: st.text + hoist_text_at(st.indent, st.scope, st.stack.last()),
        stack: st.stack.drop_last(),
        scope: hoist_scope(st.scope, st.stack.last()),
        ..st
    }
}

/// The name a hoisting pop of the top expression hands back.
pub open spec fn st_hoisted(st: EmitState) -> Seq<char> {
    hoist_name(st.scope, st.stack.last())
}

/// The next fresh name for a stem in the state's scope.
pub open spec fn st_name(st: EmitState, stem: Seq<char>) -> Seq<char> {
    fresh_name(stem, spec_count(st.scope, stem))
}

/// The state after claiming one fresh name for a stem.
pub open spec fn st_next(st: EmitState, stem: Seq<char>) -> EmitState {
    EmitState { scope: spec_bump(st.scope, stem), ..st }
}

/// The state after referencing an intrinsic by its logical name.
pub open spec fn st_use(st: EmitState, name: Seq<char>) -> EmitState {
    EmitState {
        used: if crate::emitter::contains_str(st.used, name) {
            st.used
        } else {
            st.used.push(name)
        },
        ..st
    }
}

/// The export symbol an intrinsic reference resolves to.
pub open spec fn intr_name(
    list: Seq<(Seq<char>, Seq<char>)>,
    name: Seq<char>,
) -> Seq<char> {
    crate::emitter::find_intrinsic(list, name)->Some_0
}

/// The combined slot count of a parameter list.
pub open spec fn sum_vc(s: Seq<Describe>) -> nat
    decreases s.len(),
{
    if s.len() == 0 {
        0
    } else {
        s[0].spec_value_count() + sum_vc(s.drop_first())
    }
}

/// The slot count splits across any cut of the list.
pub proof fn lemma_sum_vc_split(s: Seq<Describe>, i: int)
    requires
        0 <= i <= s.len(),
    ensures
        sum_vc(s) == sum_vc(s.take(i)) + sum_vc(s.skip(i)),
    decreases i,
{
    if i == 0 {
        assert(s.take(0).len() == 0);
        assert(s.skip(0) =~= s);
    } else {
        lemma_sum_vc_split(s.drop_first(), i - 1);
        assert(s.drop_first().take(i - 1) =~= s.take(i).drop_first());
        assert(s.drop_first().skip(i - 1) =~= s.skip(i));
        assert(s.take(i)[0] == s[0]);
        assert(sum_vc(s.take(i)) == s[0].spec_value_count() + sum_vc(s.take(i).drop_first()));
    }
}

/// One step of the running slot total.
pub proof fn lemma_sum_vc_take_step(s: Seq<Describe>, i: int)
    requires
        0 <= i < s.len(),
    ensures
        sum_vc(s.take(i + 1)) == sum_vc(s.take(i)) + s[i].spec_value_count(),
{
    lemma_sum_vc_split(s, i);
    lemma_sum_vc_split(s, i + 1);
    assert(s.skip(i)[0] == s[i]);
    assert(s.skip(i).drop_first() =~= s.skip(i + 1));
}

/// Every listed type can stand in a value position with machine-sized
/// layout.
pub open spec fn all_sized(s: Seq<Describe>) -> bool {
    forall|k: int|
        0 <= k < s.len() ==> (#[trigger] s[k]).no_function() && s[k].sizes_ok()
}

/// Every listed type converts from script to guest.
pub open spec fn all_l2r(s: Seq<Describe>) -> bool {
    forall|k: int| 0 <= k < s.len() ==> (#[trigger] s[k]).l2r_ok() && s[k].sizes_ok()
}

/// Every listed type converts from guest to script.
pub open spec fn all_r2l(s: Seq<Describe>) -> bool {
    forall|k: int| 0 <= k < s.len() ==> (#[trigger] s[k]).r2l_ok() && s[k].sizes_ok()
}

/// The deepest nesting among the listed types.
pub open spec fn max_height(s: Seq<Describe>) -> nat
    decreases s.len(),
{
    if s.len() == 0 {
        0
    } else {
        let rest = max_height(s.drop_first());
        if s[0].height() > rest {
            s[0].height()
        } else {
            rest
        }
    }
}

/// The height of any listed type is bounded by the maximum.
pub proof fn lemma_max_height_at(s: Seq<Describe>, i: int)
    requires
        0 <= i < s.len(),
    ensures
        s[i].height() <= max_height(s),
    decreases s.len(),
{
    if i > 0 {
        lemma_max_height_at(s.drop_first(), i - 1);
        assert(s.drop_first()[i - 1] == s[i]);
    }
}

/// A common bound on every listed height bounds the maximum.
pub proof fn lemma_max_height_bound(s: Seq<Describe>, b: nat)
    requires
        forall|k: int| 0 <= k < s.len() ==> (#[trigger] s[k]).height() <= b,
    ensures
        max_height(s) <= b,
    decreases s.len(),
{
    if s.len() > 0 {
        assert forall|k: int| 0 <= k < s.drop_first().len() implies (
        #[trigger] s.drop_first()[k]).height() <= b by {
            assert(s.drop_first()[k] == s[k + 1]);
        }
        lemma_max_height_bound(s.drop_first(), b);
    }
}

/// Counts the combined ABI slots of a parameter list.
pub fn total_slots(params: &Vec<Describe>) -> (r: usize)
    requires
        all_sized(params@),
        sum_vc(params@) <= usize::MAX,
    ensures
        r == sum_vc(params@),
{
    let mut total: usize = 0;
    let mut k: usize = 0;
    proof {
        assert(params@.take(0).len() == 0);
    }
    while k < params.len()
        invariant
            0 <= k <= params@.len(),
            all_sized(params@),
            sum_vc(params@) <= usize::MAX,
            total == sum_vc(params@.take(k as int)),
        decreases params@.len() - k,
    {
        proof {
            lemma_sum_vc_take_step(params@, k as int);
            lemma_sum_vc_split(params@, k as int + 1);
            crate::describe::lemma_layout_props(Seq::<crate::describe::Primitive>::empty(), 0);
        }
        let c = params[k].value_count();
        total = total + c;
        k = k + 1;
    }
    proof {
        assert(params@.take(params@.len() as int) =~= params@);
    }
    total
}

/// A sequence is a prefix of itself.
pub proof fn lemma_prefix_refl<T>(a: Seq<T>)
    ensures
        a.is_prefix_of(a),
{
    assert(a =~= a.subrange(0, a.len() as int));
}

/// A sequence is a prefix of itself followed by anything.
pub proof fn lemma_prefix_concat<T>(a: Seq<T>, b: Seq<T>)
    ensures
        a.is_prefix_of(a + b),
{
    assert(a =~= (a + b).subrange(0, a.len() as int));
}

/// Being a prefix is transitive.
pub proof fn lemma_prefix_trans<T>(a: Seq<T>, b: Seq<T>, c: Seq<T>)
    requires
        a.is_prefix_of(b),
        b.is_prefix_of(c),
    ensures
        a.is_prefix_of(c),
{
    assert(a =~= c.subrange(0, a.len() as int));
}

/// Pushes one fixed expression; consumes nothing.
pub struct PushConst {
    pub value: String,
}

impl PushConst {
    pub fn new(value: &str) -> (r: PushConst)
        ensures
            r.value@ == value@,
    {
        PushConst { value: String::from_str(value) }
    }

    pub fn get_inputs(&self) -> (r: usize)
        ensures
            r == 0,
    {
        0
    }

    pub fn get_outputs(&self) -> (r: usize)
        ensures
            r == 1,
    {
        1
    }

    pub fn render(&self, ctx: &mut InstructionContext)
        ensures
            final(ctx).inputs@ == old(ctx).inputs@.push(self.value),
            final(ctx).out == old(ctx).out,
            final(ctx).vars == old(ctx).vars,
            final(ctx).intrinsics == old(ctx).intrinsics,
    {
        ctx.push(self.value.clone());
    }
}

} // verus!
