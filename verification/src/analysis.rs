//! The module analyser and rewrite planner: interprets describe functions,
//! classifies the declared bindings, renders the runtime script, and decides
//! which exports the rewritten module must lose.

use vstd::prelude::*;

use crate::describe::{
    lemma_args_tags_le, lemma_height_le_tags, lemma_sizes_ok_from_tags, lemma_sum_args_vc,
    spec_parse, spec_parse_end, Describe,
};
use crate::emitter::{contains_str, find_intrinsic, lemma_contains_push, InstructionContext};
use crate::instructions::exports::{
    create_export_emit, ExportBlock, InvokeRustFunction, WasmCreateExport,
};
use crate::instructions::headers::{
    header_text, tail_text, CreateRuntimeHeader, CreateRuntimeTail,
};
use crate::instructions::imports::{
    create_import_emit, ImportBlock, InvokeLuauFunction, WasmCreateImport,
};
use crate::instructions::{
    lemma_max_height_bound, lemma_prefix_concat, lemma_prefix_refl, lemma_prefix_trans,
    max_height, st_of, sum_vc, EmitState,
};
use crate::shared_context::{
    SharedContext, SharedExportFunction, SharedImportFunction, SharedIntrinsic,
};
use crate::strutil::{clean_str, is_clean};

verus! {

/// One instruction of a describe function's body, as far as the analyser
/// reads it: a constant push, a call of the `describe` import, or anything
/// else, which the build refuses.
#[derive(Debug)]
pub enum DescInstr {
    ConstI32(u32),
    CallDescribe,
    Unsupported,
}

/// A module export that names a local function, with that function's body.
#[derive(Debug)]
pub struct ModuleFunctionExport {
    pub name: String,
    pub body: Vec<DescInstr>,
}

/// What the analyser reads of the module: its function exports with bodies,
/// the names of its function imports and of all its exports, and whether the
/// stack-pointer global and the main function table exist.
#[derive(Debug)]
pub struct ModuleInfo {
    pub function_exports: Vec<ModuleFunctionExport>,
    pub import_names: Vec<String>,
    pub export_names: Vec<String>,
    pub has_stack_pointer: bool,
    pub has_function_table: bool,
}

/// Why a build aborts.
#[derive(Debug)]
pub enum BuildError {
    BadSymbol,
    UnsupportedInstruction { symbol: String },
    BadDescriptor { symbol: String },
    OversizedDescriptor { symbol: String },
    UnsupportedType { symbol: String },
    MissingIntrinsic { name: String },
    MissingIntrinsicExport { name: String },
}

/// The diagnostic line each abort carries: a fixed phrase naming the
/// offending symbol when there is one.
pub open spec fn spec_message(e: BuildError) -> Seq<char> {
    match e {
        BuildError::BadSymbol => "a metadata symbol holds a line break"@,
        BuildError::UnsupportedInstruction { symbol } =>
            "unexpected instruction in description function "@ + symbol@,
        BuildError::BadDescriptor { symbol } => "malformed type description in "@ + symbol@,
        BuildError::OversizedDescriptor { symbol } => "type description too large in "@
            + symbol@,
        BuildError::UnsupportedType { symbol } => "type not yet supported in "@ + symbol@,
        BuildError::MissingIntrinsic { name } => "unknown intrinsic "@ + name@,
        BuildError::MissingIntrinsicExport { name } => "intrinsic export missing for "@
            + name@,
    }
}

impl BuildError {
    /// A single diagnostic line naming the offending symbol when possible.
    pub fn message(&self) -> (m: String)
        ensures
            m@ == spec_message(*self),
    {
        let mut m: String;
        match self {
            BuildError::BadSymbol => {
                m = String::from_str("a metadata symbol holds a line break");
            },
            BuildError::UnsupportedInstruction { symbol } => {
                m = String::from_str("unexpected instruction in description function ");
                m.append(symbol.as_str());
            },
            BuildError::BadDescriptor { symbol } => {
                m = String::from_str("malformed type description in ");
                m.append(symbol.as_str());
            },
            BuildError::OversizedDescriptor { symbol } => {
                m = String::from_str("type description too large in ");
                m.append(symbol.as_str());
            },
            BuildError::UnsupportedType { symbol } => {
                m = String::from_str("type not yet supported in ");
                m.append(symbol.as_str());
            },
            BuildError::MissingIntrinsic { name } => {
                m = String::from_str("unknown intrinsic ");
                m.append(name.as_str());
            },
            BuildError::MissingIntrinsicExport { name } => {
                m = String::from_str("intrinsic export missing for ");
                m.append(name.as_str());
            },
        }
        proof {
            reveal_strlit("a metadata symbol holds a line break");
            reveal_strlit("unexpected instruction in description function ");
            reveal_strlit("malformed type description in ");
            reveal_strlit("type description too large in ");
            reveal_strlit("type not yet supported in ");
            reveal_strlit("unknown intrinsic ");
            reveal_strlit("intrinsic export missing for ");
        }
        m
    }
}

/// What the tag stream of a describe body is: every constant sets the
/// register, every call of the describe import emits it, and any other
/// instruction poisons the body.
pub open spec fn spec_interpret(s: Seq<DescInstr>, reg: u32) -> Option<Seq<u32>>
    decreases s.len(),
{
    if s.len() == 0 {
        Option::Some(Seq::empty())
    } else {
        match s[0] {
            DescInstr::ConstI32(i) => spec_interpret(s.drop_first(), i),
            DescInstr::CallDescribe => match spec_interpret(s.drop_first(), reg) {
                Option::Some(rest) => Option::Some(seq![reg] + rest),
                Option::None => Option::None,
            },
            DescInstr::Unsupported => Option::None,
        }
    }
}

/// Interprets a describe function's body into its tag stream.
pub fn interpret_describe(instrs: &Vec<DescInstr>) -> (r: Option<Vec<u32>>)
    ensures
        match r {
            Option::Some(tags) => spec_interpret(instrs@, 0) == Option::Some(tags@),
            Option::None => spec_interpret(instrs@, 0) is None,
        },
{
    let mut out: Vec<u32> = Vec::new();
    let mut reg: u32 = 0;
    let mut i: usize = 0;
    proof {
        if spec_interpret(instrs@, 0) is Some {
            assert(out@ + spec_interpret(instrs@, 0)->Some_0 =~= spec_interpret(
                instrs@,
                0,
            )->Some_0);
        }
        assert(instrs@.skip(0) =~= instrs@);
    }
    while i < instrs.len()
        invariant
            0 <= i <= instrs@.len(),
            match spec_interpret(instrs@.skip(i as int), reg) {
                Option::Some(rest) => spec_interpret(instrs@, 0) == Option::Some(out@ + rest),
                Option::None => spec_interpret(instrs@, 0) is None,
            },
        decreases instrs@.len() - i,
    {
        proof {
            assert(instrs@.skip(i as int)[0] == instrs@[i as int]);
            assert(instrs@.skip(i as int).drop_first() =~= instrs@.skip(i as int + 1));
        }
        match instrs[i] {
            DescInstr::ConstI32(c) => {
                reg = c;
            },
            DescInstr::CallDescribe => {
                let ghost o0 = out@;
                out.push(reg);
                proof {
                    if spec_interpret(instrs@.skip(i as int + 1), reg) is Some {
                        assert((o0 + seq![reg]) + spec_interpret(
                            instrs@.skip(i as int + 1),
                            reg,
                        )->Some_0 =~= o0 + (seq![reg] + spec_interpret(
                            instrs@.skip(i as int + 1),
                            reg,
                        )->Some_0));
                    }
                }
            },
            DescInstr::Unsupported => {
                return Option::None;
            },
        }
        i = i + 1;
    }
    proof {
        assert(instrs@.skip(instrs@.len() as int).len() == 0);
        if spec_interpret(instrs@, 0) is Some {
            assert(out@ + Seq::<u32>::empty() =~= out@);
        }
    }
    Option::Some(out)
}

/// What the driver decides: the rendered runtime script, the exports the
/// module loses, the intrinsics the generated code referenced, and the two
/// canonical re-exports.
#[derive(Debug)]
pub struct BuildPlan {
    pub runtime_script: String,
    pub delete_describe_exports: Vec<String>,
    pub delete_intrinsic_exports: Vec<String>,
    pub used_intrinsics: Vec<String>,
    pub export_stack_pointer: bool,
    pub export_func_table: bool,
}

/// Some module export names a local function whose export name views as
/// `name`.
pub open spec fn has_fn_export(info: ModuleInfo, name: Seq<char>) -> bool {
    exists|j: int|
        0 <= j < info.function_exports@.len() && (
        #[trigger] info.function_exports@[j]).name@ == name
}

/// Every symbol the generated script quotes is free of line breaks.
pub open spec fn clean_metadata(c: SharedContext) -> bool {
    &&& forall|k: int|
        0 <= k < c.imports@.len() ==> clean_str((#[trigger] c.imports@[k]).luau_name@)
            && clean_str(c.imports@[k].export_name@) && clean_str(c.imports@[k].describe_name@)
    &&& forall|k: int|
        0 <= k < c.exports@.len() ==> clean_str((#[trigger] c.exports@[k]).luau_name@)
            && clean_str(c.exports@[k].export_name@) && clean_str(c.exports@[k].describe_name@)
    &&& forall|k: int| 0 <= k < c.main_fns@.len() ==> clean_str((#[trigger] c.main_fns@[k])@)
    &&& forall|k: int|
        0 <= k < c.intrinsics@.len() ==> clean_str((#[trigger] c.intrinsics@[k]).name@)
            && clean_str(c.intrinsics@[k].export_name@)
}

fn check_metadata(c: &SharedContext) -> (b: bool)
    ensures
        b == clean_metadata(*c),
{
    let mut k: usize = 0;
    while k < c.imports.len()
        invariant
            0 <= k <= c.imports@.len(),
            forall|j: int|
                0 <= j < k ==> clean_str((#[trigger] c.imports@[j]).luau_name@) && clean_str(
                    c.imports@[j].export_name@,
                ) && clean_str(c.imports@[j].describe_name@),
        decreases c.imports@.len() - k,
    {
        let f = &c.imports[k];
        if !is_clean(f.luau_name.as_str()) || !is_clean(f.export_name.as_str()) || !is_clean(
            f.describe_name.as_str(),
        ) {
            return false;
        }
        k = k + 1;
    }
    let mut k2: usize = 0;
    while k2 < c.exports.len()
        invariant
            0 <= k2 <= c.exports@.len(),
            forall|j: int|
                0 <= j < c.imports@.len() ==> clean_str(
                    (#[trigger] c.imports@[j]).luau_name@,
                ) && clean_str(c.imports@[j].export_name@) && clean_str(
                    c.imports@[j].describe_name@,
                ),
            forall|j: int|
                0 <= j < k2 ==> clean_str((#[trigger] c.exports@[j]).luau_name@) && clean_str(
                    c.exports@[j].export_name@,
                ) && clean_str(c.exports@[j].describe_name@),
        decreases c.exports@.len() - k2,
    {
        let f = &c.exports[k2];
        if !is_clean(f.luau_name.as_str()) || !is_clean(f.export_name.as_str()) || !is_clean(
            f.describe_name.as_str(),
        ) {
            return false;
        }
        k2 = k2 + 1;
    }
    let mut k3: usize = 0;
    while k3 < c.main_fns.len()
        invariant
            0 <= k3 <= c.main_fns@.len(),
            forall|j: int|
                0 <= j < c.imports@.len() ==> clean_str(
                    (#[trigger] c.imports@[j]).luau_name@,
                ) && clean_str(c.imports@[j].export_name@) && clean_str(
                    c.imports@[j].describe_name@,
                ),
            forall|j: int|
                0 <= j < c.exports@.len() ==> clean_str(
                    (#[trigger] c.exports@[j]).luau_name@,
                ) && clean_str(c.exports@[j].export_name@) && clean_str(
                    c.exports@[j].describe_name@,
                ),
            forall|j: int| 0 <= j < k3 ==> clean_str((#[trigger] c.main_fns@[j])@),
        decreases c.main_fns@.len() - k3,
    {
        if !is_clean(c.main_fns[k3].as_str()) {
            return false;
        }
        k3 = k3 + 1;
    }
    let mut k4: usize = 0;
    while k4 < c.intrinsics.len()
        invariant
            0 <= k4 <= c.intrinsics@.len(),
            forall|j: int|
                0 <= j < c.imports@.len() ==> clean_str(
                    (#[trigger] c.imports@[j]).luau_name@,
                ) && clean_str(c.imports@[j].export_name@) && clean_str(
                    c.imports@[j].describe_name@,
                ),
            forall|j: int|
                0 <= j < c.exports@.len() ==> clean_str(
                    (#[trigger] c.exports@[j]).luau_name@,
                ) && clean_str(c.exports@[j].export_name@) && clean_str(
                    c.exports@[j].describe_name@,
                ),
            forall|j: int| 0 <= j < c.main_fns@.len() ==> clean_str((#[trigger] c.main_fns@[j])@),
            forall|j: int|
                0 <= j < k4 ==> clean_str((#[trigger] c.intrinsics@[j]).name@) && clean_str(
                    c.intrinsics@[j].export_name@,
                ),
        decreases c.intrinsics@.len() - k4,
    {
        let f = &c.intrinsics[k4];
        if !is_clean(f.name.as_str()) || !is_clean(f.export_name.as_str()) {
            return false;
        }
        k4 = k4 + 1;
    }
    true
}

/// Finds the first module function export with the given name.
fn find_fn_export(info: &ModuleInfo, name: &String) -> (r: Option<usize>)
    ensures
        match r {
            Option::Some(i) => i < info.function_exports@.len()
                && info.function_exports@[i as int].name@ == name@,
            Option::None => !has_fn_export(*info, name@),
        },
{
    let len = info.function_exports.len();
    let mut i: usize = 0;
    let mut found = len;
    while i < len
        invariant
            0 <= i <= len,
            len == info.function_exports@.len(),
            found <= len,
            found < len ==> i == len,
            found == len ==> forall|k: int|
                0 <= k < i ==> (#[trigger] info.function_exports@[k]).name@ != name@,
            found < len ==> info.function_exports@[found as int].name@ == name@,
        decreases len - i,
    {
        if info.function_exports[i].name.eq(name) {
            found = i;
            i = len;
        } else {
            i = i + 1;
        }
    }
    if found < len {
        Option::Some(found)
    } else {
        Option::None
    }
}

/// Whether some string in the list views as `name`.
pub fn contains_name(v: &Vec<String>, name: &String) -> (b: bool)
    ensures
        b == contains_str(v@.map_values(|s: String| s@), name@),
{
    let ghost gv = v@.map_values(|s: String| s@);
    let len = v.len();
    let mut i: usize = 0;
    let mut found = len;
    while i < len
        invariant
            0 <= i <= len,
            len == v@.len(),
            found <= len,
            found < len ==> i == len,
            found == len ==> forall|k: int| 0 <= k < i ==> (#[trigger] v@[k])@ != name@,
            found < len ==> v@[found as int]@ == name@ && forall|k: int|
                0 <= k < found ==> (#[trigger] v@[k])@ != name@,
        decreases len - i,
    {
        if v[i].eq(name) {
            found = i;
            i = len;
        } else {
            i = i + 1;
        }
    }
    proof {
        assert forall|k: int| 0 <= k < gv.len() implies #[trigger] gv[k] == v@[k]@ by {}
        lemma_contains_str_witness(gv, name@, found as int);
    }
    found < len
}

proof fn lemma_contains_str_witness(s: Seq<Seq<char>>, name: Seq<char>, found: int)
    requires
        0 <= found <= s.len(),
        forall|k: int| 0 <= k < found ==> s[k] != name,
        found < s.len() ==> s[found] == name,
        found == s.len() ==> forall|k: int| 0 <= k < s.len() ==> s[k] != name,
    ensures
        contains_str(s, name) == (found < s.len()),
    decreases s.len(),
{
    if s.len() > 0 {
        if s[0] == name {
        } else {
            if found < s.len() {
                assert(found >= 1);
                assert forall|k: int|
                    0 <= k < found - 1 implies s.drop_first()[k] != name by {
                    assert(s.drop_first()[k] == s[k + 1]);
                }
                assert(s.drop_first()[found - 1] == s[found]);
                lemma_contains_str_witness(s.drop_first(), name, found - 1);
            } else {
                assert forall|k: int|
                    0 <= k < s.drop_first().len() implies s.drop_first()[k] != name by {
                    assert(s.drop_first()[k] == s[k + 1]);
                }
                lemma_contains_str_witness(
                    s.drop_first(),
                    name,
                    s.drop_first().len() as int,
                );
            }
        }
    }
}

/// Whether any listed type's guest-to-script conversion frees memory.
fn any_needs_free(args: &Vec<Describe>) -> (b: bool)
    ensures
        b == exists|k: int|
            0 <= k < args@.len() && (#[trigger] args@[k]).r2l_needs_free(),
{
    let mut i: usize = 0;
    while i < args.len()
        invariant
            0 <= i <= args@.len(),
            forall|k: int| 0 <= k < i ==> !(#[trigger] args@[k]).r2l_needs_free(),
        decreases args@.len() - i,
    {
        if args[i].check_r2l_needs_free() {
            return true;
        }
        i = i + 1;
    }
    false
}

/// Whether any listed type's script-to-guest conversion allocates memory.
fn any_needs_alloc(args: &Vec<Describe>) -> (b: bool)
    ensures
        b == exists|k: int|
            0 <= k < args@.len() && (#[trigger] args@[k]).l2r_needs_alloc(),
{
    let mut i: usize = 0;
    while i < args.len()
        invariant
            0 <= i <= args@.len(),
            forall|k: int| 0 <= k < i ==> !(#[trigger] args@[k]).l2r_needs_alloc(),
        decreases args@.len() - i,
    {
        if args[i].check_l2r_needs_alloc() {
            return true;
        }
        i = i + 1;
    }
    false
}

/// Whether every listed type converts from guest to script.
fn all_args_r2l(args: &Vec<Describe>) -> (b: bool)
    ensures
        b == forall|k: int| 0 <= k < args@.len() ==> (#[trigger] args@[k]).r2l_ok(),
{
    let mut i: usize = 0;
    while i < args.len()
        invariant
            0 <= i <= args@.len(),
            forall|k: int| 0 <= k < i ==> (#[trigger] args@[k]).r2l_ok(),
        decreases args@.len() - i,
    {
        if !args[i].check_r2l() {
            return false;
        }
        i = i + 1;
    }
    true
}

/// Whether every listed type converts from script to guest.
fn all_args_l2r(args: &Vec<Describe>) -> (b: bool)
    ensures
        b == forall|k: int| 0 <= k < args@.len() ==> (#[trigger] args@[k]).l2r_ok(),
{
    let mut i: usize = 0;
    while i < args.len()
        invariant
            0 <= i <= args@.len(),
            forall|k: int| 0 <= k < i ==> (#[trigger] args@[k]).l2r_ok(),
        decreases args@.len() - i,
    {
        if !args[i].check_l2r() {
            return false;
        }
        i = i + 1;
    }
    true
}

/// Copies a list of names.
fn clone_names(v: &Vec<String>) -> (r: Vec<String>)
    ensures
        r@.map_values(|s: String| s@) == v@.map_values(|s: String| s@),
        r@.len() == v@.len(),
        forall|k: int| 0 <= k < v@.len() ==> (#[trigger] r@[k])@ == v@[k]@,
{
    let mut r: Vec<String> = Vec::new();
    let mut i: usize = 0;
    while i < v.len()
        invariant
            0 <= i <= v@.len(),
            r@.len() == i,
            forall|k: int| 0 <= k < i ==> (#[trigger] r@[k])@ == v@[k]@,
        decreases v@.len() - i,
    {
        r.push(v[i].clone());
        i = i + 1;
    }
    proof {
        assert(r@.map_values(|s: String| s@) =~= v@.map_values(|s: String| s@));
    }
    r
}

/// Copies the intrinsic list.
fn clone_intrinsics(v: &Vec<SharedIntrinsic>) -> (r: Vec<SharedIntrinsic>)
    ensures
        r@.len() == v@.len(),
        forall|k: int|
            0 <= k < v@.len() ==> (#[trigger] r@[k]).name@ == v@[k].name@
                && r@[k].export_name@ == v@[k].export_name@,
{
    let mut r: Vec<SharedIntrinsic> = Vec::new();
    let mut i: usize = 0;
    while i < v.len()
        invariant
            0 <= i <= v@.len(),
            r@.len() == i,
            forall|k: int|
                0 <= k < i ==> (#[trigger] r@[k]).name@ == v@[k].name@
                    && r@[k].export_name@ == v@[k].export_name@,
        decreases v@.len() - i,
    {
        let f = &v[i];
        r.push(SharedIntrinsic { name: f.name.clone(), export_name: f.export_name.clone() });
        i = i + 1;
    }
    r
}

/// The character-level view of a name list.
pub open spec fn names_view(v: Seq<String>) -> Seq<Seq<char>> {
    v.map_values(|s: String| s@)
}

/// Some import record carries this description symbol, and the module really
/// imports the bound function, so the planner must realise the record.
pub open spec fn live_import(info: ModuleInfo, shared: SharedContext, sym: Seq<char>) -> bool {
    exists|j: int|
        0 <= j < shared.imports@.len() && (#[trigger] shared.imports@[j]).describe_name@ == sym
            && contains_str(names_view(info.import_names@), shared.imports@[j].export_name@)
}

/// Some export record carries this description symbol.
pub open spec fn live_export(shared: SharedContext, sym: Seq<char>) -> bool {
    exists|j: int|
        0 <= j < shared.exports@.len() && (#[trigger] shared.exports@[j]).describe_name@ == sym
}

/// A record the planner must realise carries this description symbol.
pub open spec fn live_record(info: ModuleInfo, shared: SharedContext, sym: Seq<char>) -> bool {
    live_import(info, shared, sym) || live_export(shared, sym)
}

/// The module exports a description function under this name whose body
/// interprets to the stated tag stream (`None`: interpretation fails).
pub open spec fn body_interp(info: ModuleInfo, sym: Seq<char>, t: Option<Seq<u32>>) -> bool {
    exists|i: int|
        0 <= i < info.function_exports@.len() && (
        #[trigger] info.function_exports@[i]).name@ == sym && spec_interpret(
            info.function_exports@[i].body@,
            0,
        ) == t
}

/// The intrinsic table the metadata declares, as logical-name and export-name
/// pairs in declaration order.
pub open spec fn intrinsic_list(c: SharedContext) -> Seq<(Seq<char>, Seq<char>)> {
    c.intrinsics@.map_values(|s: SharedIntrinsic| (s.name@, s.export_name@))
}

/// The descriptor refuses the direction its record needs: it does not
/// describe a function, or some argument or the result lies outside the
/// convertible types for that direction.
pub open spec fn sig_refused(d: Describe, import: bool) -> bool {
    match d {
        Describe::Function { args, return_type } => if import {
            !((forall|k: int| 0 <= k < args@.len() ==> (#[trigger] args@[k]).r2l_ok())
                && (*return_type).l2r_ok())
        } else {
            !((forall|k: int| 0 <= k < args@.len() ==> (#[trigger] args@[k]).l2r_ok())
                && (*return_type).r2l_ok())
        },
        _ => false,
    }
}

/// Behind the symbol stands a descriptor that parses to a function signature
/// refusing the direction of a record that carries the symbol.
pub open spec fn unsupported_type_cause(
    info: ModuleInfo,
    shared: SharedContext,
    sym: Seq<char>,
) -> bool {
    exists|tags: Seq<u32>, d: Describe|
        #![trigger body_interp(info, sym, Option::Some(tags)), d.tags_of()]
        body_interp(info, sym, Option::Some(tags)) && spec_parse(tags, 0) is Some
            && d.tags_of() == tags.subrange(0, spec_parse_end(tags, 0)) && ((live_import(
            info,
            shared,
            sym,
        ) && sig_refused(d, true)) || (live_export(shared, sym) && sig_refused(d, false)))
}

/// The emitter state the runtime header leaves behind: its text alone, at
/// top level, with nothing pushed, named or referenced yet.
pub open spec fn header_state() -> EmitState {
    EmitState {
        text: header_text(0),
        stack: Seq::empty(),
        scope: Seq::empty(),
        used: Seq::empty(),
        indent: 0,
    }
}

/// Why the planner may pass a record over without a stub and without
/// aborting: the module exports no description function under its symbol,
/// the record is not live, or the descriptor describes a plain value rather
/// than a function.
pub open spec fn skip_cause(info: ModuleInfo, describe_name: Seq<char>, live: bool) -> bool {
    ||| !has_fn_export(info, describe_name)
    ||| !live
    ||| exists|tags: Seq<u32>, d: Describe|
        #![trigger body_interp(info, describe_name, Option::Some(tags)), d.tags_of()]
        body_interp(info, describe_name, Option::Some(tags)) && spec_parse(tags, 0) is Some
            && d.tags_of() == tags.subrange(0, spec_parse_end(tags, 0)) && !(d is Function)
}

/// The planner adopted this argument list and result for the symbol: a
/// description function under it interprets and parses to a function
/// signature with exactly these types, accepted for the record's direction.
pub open spec fn sig_adopted(
    info: ModuleInfo,
    describe_name: Seq<char>,
    args: Seq<Describe>,
    ret: Describe,
    import: bool,
) -> bool {
    exists|tags: Seq<u32>, d: Describe|
        #![trigger body_interp(info, describe_name, Option::Some(tags)), d.tags_of()]
        body_interp(info, describe_name, Option::Some(tags)) && tags.len() <= usize::MAX / 64
            && spec_parse(tags, 0) is Some && d.tags_of() == tags.subrange(
            0,
            spec_parse_end(tags, 0),
        ) && (d matches Describe::Function { args: av, return_type: rv } && av@ == args
            && *rv == ret) && !sig_refused(d, import)
}

/// One signature choice per metadata record: the argument and result types
/// of its stub, or nothing where the record is passed over. A stub is only
/// chosen when the intrinsics its conversions call are declared.
pub open spec fn import_choice_ok(
    info: ModuleInfo,
    shared: SharedContext,
    r: SharedImportFunction,
    c: Option<(Seq<Describe>, Describe)>,
) -> bool {
    let live = contains_str(names_view(info.import_names@), r.export_name@);
    match c {
        Option::Some(sig) => live && sig_adopted(info, r.describe_name@, sig.0, sig.1, true)
            && ((exists|q: int| 0 <= q < sig.0.len() && (#[trigger] sig.0[q]).r2l_needs_free())
            ==> find_intrinsic(intrinsic_list(shared), "free"@) is Some) && (
        sig.1.l2r_needs_alloc() ==> find_intrinsic(intrinsic_list(shared), "alloc"@) is Some),
        Option::None => skip_cause(info, r.describe_name@, live),
    }
}

/// As `import_choice_ok`, for an export record, which is always live.
pub open spec fn export_choice_ok(
    info: ModuleInfo,
    shared: SharedContext,
    r: SharedExportFunction,
    c: Option<(Seq<Describe>, Describe)>,
) -> bool {
    match c {
        Option::Some(sig) => sig_adopted(info, r.describe_name@, sig.0, sig.1, false) && ((
        exists|q: int| 0 <= q < sig.0.len() && (#[trigger] sig.0[q]).l2r_needs_alloc())
            ==> find_intrinsic(intrinsic_list(shared), "alloc"@) is Some) && (
        sig.1.r2l_needs_free() ==> find_intrinsic(intrinsic_list(shared), "free"@) is Some),
        Option::None => skip_cause(info, r.describe_name@, true),
    }
}

/// The record forces no abort: some legitimate choice exists for it.
pub open spec fn import_record_ok(
    info: ModuleInfo,
    shared: SharedContext,
    r: SharedImportFunction,
) -> bool {
    exists|c: Option<(Seq<Describe>, Describe)>| #[trigger] import_choice_ok(info, shared, r, c)
}

/// As `import_record_ok`, for an export record.
pub open spec fn export_record_ok(
    info: ModuleInfo,
    shared: SharedContext,
    r: SharedExportFunction,
) -> bool {
    exists|c: Option<(Seq<Describe>, Describe)>| #[trigger] export_choice_ok(info, shared, r, c)
}

/// The emitter state the import records drive the planner through: each
/// record whose choice holds a signature appends its stub, in order.
#[verifier::opaque]
pub open spec fn import_fold(
    recs: Seq<SharedImportFunction>,
    choices: Seq<Option<(Seq<Describe>, Describe)>>,
    list: Seq<(Seq<char>, Seq<char>)>,
    st: EmitState,
) -> EmitState
    decreases recs.len(),
{
    if recs.len() == 0 || choices.len() != recs.len() {
        st
    } else {
        let mid = import_fold(recs.drop_last(), choices.drop_last(), list, st);
        match choices.last() {
            Option::Some(sig) => create_import_emit(
                recs.last().export_name@,
                sig.0,
                sig.1,
                recs.last().luau_name@,
                mid,
                list,
            ),
            Option::None => mid,
        }
    }
}

/// As `import_fold`, for the export records.
#[verifier::opaque]
pub open spec fn export_fold(
    recs: Seq<SharedExportFunction>,
    choices: Seq<Option<(Seq<Describe>, Describe)>>,
    list: Seq<(Seq<char>, Seq<char>)>,
    st: EmitState,
) -> EmitState
    decreases recs.len(),
{
    if recs.len() == 0 || choices.len() != recs.len() {
        st
    } else {
        let mid = export_fold(recs.drop_last(), choices.drop_last(), list, st);
        match choices.last() {
            Option::Some(sig) => create_export_emit(
                recs.last().luau_name@,
                sig.0,
                sig.1,
                recs.last().export_name@,
                mid,
                list,
            ),
            Option::None => mid,
        }
    }
}

/// The runtime script the planner owes on success: the header, then one
/// stub per realised import record and per realised export record in
/// metadata order, then the tail, for signature choices that agree with the
/// module's description functions.
pub open spec fn script_shape(info: ModuleInfo, shared: SharedContext, script: Seq<char>) -> bool {
    exists|
        ic: Seq<Option<(Seq<Describe>, Describe)>>,
        ec: Seq<Option<(Seq<Describe>, Describe)>>,
    |
        #![trigger ic.len(), ec.len()]
        ic.len() == shared.imports@.len() && ec.len() == shared.exports@.len() && (forall|j: int|
            0 <= j < ic.len() ==> import_choice_ok(
                info,
                shared,
                shared.imports@[j],
                #[trigger] ic[j],
            )) && (forall|j: int|
            0 <= j < ec.len() ==> export_choice_ok(
                info,
                shared,
                shared.exports@[j],
                #[trigger] ec[j],
            ))
            && script == export_fold(
            shared.exports@,
            ec,
            intrinsic_list(shared),
            import_fold(shared.imports@, ic, intrinsic_list(shared), header_state()),
        ).text + tail_text(names_view(shared.main_fns@), 0)
}

/// Ties each abort to the fault that raises it: the planner returns this
/// error only when the matching fault is present in the module and metadata.
pub open spec fn abort_cause(info: ModuleInfo, shared: SharedContext, e: BuildError) -> bool {
    match e {
        BuildError::BadSymbol => !clean_metadata(shared),
        BuildError::UnsupportedInstruction { symbol } => live_record(info, shared, symbol@)
            && body_interp(info, symbol@, Option::<Seq<u32>>::None),
        BuildError::OversizedDescriptor { symbol } => live_record(info, shared, symbol@)
            && exists|tags: Seq<u32>|
                #[trigger] body_interp(info, symbol@, Option::Some(tags)) && tags.len()
                    > usize::MAX / 64,
        BuildError::BadDescriptor { symbol } => live_record(info, shared, symbol@)
            && exists|tags: Seq<u32>|
                #[trigger] body_interp(info, symbol@, Option::Some(tags)) && spec_parse(
                    tags,
                    0,
                ) is None,
        BuildError::UnsupportedType { symbol } => unsupported_type_cause(info, shared, symbol@),
        BuildError::MissingIntrinsic { name } => (name@ == "free"@ || name@ == "alloc"@)
            && find_intrinsic(intrinsic_list(shared), name@) is None,
        BuildError::MissingIntrinsicExport { name } => exists|j: int|
            0 <= j < shared.intrinsics@.len() && (#[trigger] shared.intrinsics@[j]).name@ == name@
                && !contains_str(
                names_view(info.export_names@),
                shared.intrinsics@[j].export_name@,
            ),
    }
}

/// One import record's step of the fold, unfolded at the tail.
proof fn lemma_import_fold_push(
    recs: Seq<SharedImportFunction>,
    k: int,
    choices: Seq<Option<(Seq<Describe>, Describe)>>,
    c: Option<(Seq<Describe>, Describe)>,
    list: Seq<(Seq<char>, Seq<char>)>,
    st: EmitState,
)
    requires
        0 <= k < recs.len(),
        choices.len() == k,
    ensures
        import_fold(recs.take(k + 1), choices.push(c), list, st) == (match c {
            Option::Some(sig) => create_import_emit(
                recs[k].export_name@,
                sig.0,
                sig.1,
                recs[k].luau_name@,
                import_fold(recs.take(k), choices, list, st),
                list,
            ),
            Option::None => import_fold(recs.take(k), choices, list, st),
        }),
{
    reveal(import_fold);
    assert(recs.take(k + 1).drop_last() =~= recs.take(k));
    assert(choices.push(c).drop_last() =~= choices);
    assert(recs.take(k + 1).last() == recs[k]);
    assert(choices.push(c).last() == c);
}

/// A fold over no records leaves the state alone.
proof fn lemma_import_fold_nil(
    recs: Seq<SharedImportFunction>,
    list: Seq<(Seq<char>, Seq<char>)>,
    st: EmitState,
)
    ensures
        import_fold(recs.take(0), Seq::empty(), list, st) == st,
{
    reveal(import_fold);
}

/// One export record's step of the fold, unfolded at the tail.
proof fn lemma_export_fold_push(
    recs: Seq<SharedExportFunction>,
    k: int,
    choices: Seq<Option<(Seq<Describe>, Describe)>>,
    c: Option<(Seq<Describe>, Describe)>,
    list: Seq<(Seq<char>, Seq<char>)>,
    st: EmitState,
)
    requires
        0 <= k < recs.len(),
        choices.len() == k,
    ensures
        export_fold(recs.take(k + 1), choices.push(c), list, st) == (match c {
            Option::Some(sig) => create_export_emit(
                recs[k].luau_name@,
                sig.0,
                sig.1,
                recs[k].export_name@,
                export_fold(recs.take(k), choices, list, st),
                list,
            ),
            Option::None => export_fold(recs.take(k), choices, list, st),
        }),
{
    reveal(export_fold);
    assert(recs.take(k + 1).drop_last() =~= recs.take(k));
    assert(choices.push(c).drop_last() =~= choices);
    assert(recs.take(k + 1).last() == recs[k]);
    assert(choices.push(c).last() == c);
}

/// A fold over no records leaves the state alone.
proof fn lemma_export_fold_nil(
    recs: Seq<SharedExportFunction>,
    list: Seq<(Seq<char>, Seq<char>)>,
    st: EmitState,
)
    ensures
        export_fold(recs.take(0), Seq::empty(), list, st) == st,
{
    reveal(export_fold);
}

/// Runs the whole planning pipeline: renders the runtime script in canonical
/// order and decides the deletions. On success, every describe function
/// found in the module is marked for deletion, every intrinsic that the
/// generation never referenced has its export marked for deletion, and the
/// two canonical re-exports follow the module's artefacts.
#[verifier::rlimit(100)]
#[verifier::spinoff_prover]
pub fn build_plan(info: &ModuleInfo, shared: &SharedContext) -> (r: Result<
    BuildPlan,
    BuildError,
>)
    ensures
        (r matches Err(BuildError::BadSymbol)) <==> !clean_metadata(*shared),
        r matches Err(e) ==> abort_cause(*info, *shared, e),
        r matches Ok(plan) ==> {
            &&& script_shape(*info, *shared, plan.runtime_script@)
            &&& header_text(0).is_prefix_of(plan.runtime_script@)
            &&& tail_text(names_view(shared.main_fns@), 0).is_suffix_of(plan.runtime_script@)
            &&& plan.runtime_script@.len() >= header_text(0).len() + tail_text(
                names_view(shared.main_fns@),
                0,
            ).len()
            &&& forall|j: int|
                0 <= j < shared.imports@.len() && has_fn_export(
                    *info,
                    (#[trigger] shared.imports@[j]).describe_name@,
                ) ==> contains_str(
                    names_view(plan.delete_describe_exports@),
                    shared.imports@[j].describe_name@,
                )
            &&& forall|j: int|
                0 <= j < shared.exports@.len() && has_fn_export(
                    *info,
                    (#[trigger] shared.exports@[j]).describe_name@,
                ) ==> contains_str(
                    names_view(plan.delete_describe_exports@),
                    shared.exports@[j].describe_name@,
                )
            &&& forall|j: int|
                0 <= j < shared.intrinsics@.len() && !contains_str(
                    names_view(plan.used_intrinsics@),
                    (#[trigger] shared.intrinsics@[j]).name@,
                ) ==> contains_str(
                    names_view(plan.delete_intrinsic_exports@),
                    shared.intrinsics@[j].export_name@,
                )
            &&& forall|j: int|
                0 <= j < shared.imports@.len() ==> import_record_ok(
                    *info,
                    *shared,
                    #[trigger] shared.imports@[j],
                )
            &&& forall|j: int|
                0 <= j < shared.exports@.len() ==> export_record_ok(
                    *info,
                    *shared,
                    #[trigger] shared.exports@[j],
                )
            &&& forall|j: int|
                0 <= j < shared.intrinsics@.len() ==> contains_str(
                    names_view(plan.used_intrinsics@),
                    (#[trigger] shared.intrinsics@[j]).name@,
                ) || contains_str(
                    names_view(info.export_names@),
                    shared.intrinsics@[j].export_name@,
                )
            &&& plan.export_stack_pointer == info.has_stack_pointer
            &&& plan.export_func_table == info.has_function_table
        },
{
    if !check_metadata(shared) {
        return Err(BuildError::BadSymbol);
    }
    let intr_copy = clone_intrinsics(&shared.intrinsics);
    proof {
        assert forall|k: int| 0 <= k < intr_copy@.len() implies clean_str(
            (#[trigger] intr_copy@[k]).export_name@,
        ) by {}
    }
    let ghost gcopy = intr_copy@;
    let mut ctx = InstructionContext::new(intr_copy);
    CreateRuntimeHeader.render(&mut ctx);
    let ghost base_intr = ctx.intrinsics.intrinsics;
    proof {
        assert forall|q: int| 0 <= q < gcopy.len() implies ctx.intrinsics.list()[q]
            == intrinsic_list(*shared)[q] by {
            assert(gcopy[q].name@ == shared.intrinsics@[q].name@);
            assert(gcopy[q].export_name@ == shared.intrinsics@[q].export_name@);
        }
        assert(ctx.intrinsics.list() =~= intrinsic_list(*shared));
        assert(ctx.text() =~= header_text(0));
        lemma_prefix_refl(header_text(0));
        assert(st_of(ctx) =~~= header_state());
    }
    let ghost mut ic: Seq<Option<(Seq<Describe>, Describe)>> = Seq::empty();
    proof {
        lemma_import_fold_nil(shared.imports@, intrinsic_list(*shared), header_state());
    }
    let mut dels: Vec<String> = Vec::new();
    let mut k: usize = 0;
    while k < shared.imports.len()
        invariant
            0 <= k <= shared.imports@.len(),
            clean_metadata(*shared),
            ctx.wf(),
            ctx.out.new_line,
            ctx.out.indent == 0,
            ctx.inputs@.len() == 0,
            ctx.intrinsics.intrinsics == base_intr,
            ctx.intrinsics.list() == intrinsic_list(*shared),
            header_text(0).is_prefix_of(ctx.text()),
            ic.len() == k as int,
            forall|j: int|
                0 <= j < k ==> import_choice_ok(
                    *info,
                    *shared,
                    shared.imports@[j],
                    #[trigger] ic[j],
                ),
            st_of(ctx) == import_fold(
                shared.imports@.take(k as int),
                ic,
                intrinsic_list(*shared),
                header_state(),
            ),
            forall|j: int|
                0 <= j < k && has_fn_export(
                    *info,
                    (#[trigger] shared.imports@[j]).describe_name@,
                ) ==> contains_str(names_view(dels@), shared.imports@[j].describe_name@),
        decreases shared.imports@.len() - k,
    {
        let imp = &shared.imports[k];
        match find_fn_export(info, &imp.describe_name) {
            Option::None => {
                proof {
                    lemma_import_fold_push(
                        shared.imports@,
                        k as int,
                        ic,
                        Option::None,
                        intrinsic_list(*shared),
                        header_state(),
                    );
                    ic = ic.push(Option::None);
                }
            },
            Option::Some(idx) => {
                let ghost dv0 = names_view(dels@);
                dels.push(imp.describe_name.clone());
                proof {
                    assert(names_view(dels@) =~= dv0.push(imp.describe_name@));
                    assert forall|j: int|
                        0 <= j < k + 1 && has_fn_export(
                            *info,
                            (#[trigger] shared.imports@[j]).describe_name@,
                        ) implies contains_str(
                        names_view(dels@),
                        shared.imports@[j].describe_name@,
                    ) by {
                        lemma_contains_push(
                            dv0,
                            shared.imports@[j].describe_name@,
                            imp.describe_name@,
                        );
                    }
                }
                if contains_name(&info.import_names, &imp.export_name) {
                    proof {
                        assert(names_view(info.import_names@) =~= info.import_names@.map_values(
                            |s: String| s@,
                        ));
                        assert(shared.imports@[k as int].describe_name@ == imp.describe_name@);
                        assert(contains_str(
                            names_view(info.import_names@),
                            shared.imports@[k as int].export_name@,
                        ));
                        assert(live_import(*info, *shared, imp.describe_name@));
                    }
                    let tags = match interpret_describe(&info.function_exports[idx].body) {
                        Option::Some(t) => t,
                        Option::None => {
                            proof {
                                assert(info.function_exports@[idx as int].name@
                                    == imp.describe_name@);
                                assert(body_interp(
                                    *info,
                                    imp.describe_name@,
                                    Option::<Seq<u32>>::None,
                                ));
                            }
                            return Err(
                                BuildError::UnsupportedInstruction {
                                    symbol: imp.describe_name.clone(),
                                },
                            );
                        },
                    };
                    let ghost gtags = tags@;
                    proof {
                        assert(info.function_exports@[idx as int].name@ == imp.describe_name@);
                        assert(body_interp(*info, imp.describe_name@, Option::Some(tags@)));
                    }
                    if tags.len() > usize::MAX / 64 {
                        proof {
                            assert(exists|t2: Seq<u32>|
                                #[trigger] body_interp(
                                    *info,
                                    imp.describe_name@,
                                    Option::Some(t2),
                                ) && t2.len() > usize::MAX / 64) by {
                                assert(body_interp(
                                    *info,
                                    imp.describe_name@,
                                    Option::Some(tags@),
                                ) && tags@.len() > usize::MAX / 64);
                            }
                        }
                        return Err(
                            BuildError::OversizedDescriptor {
                                symbol: imp.describe_name.clone(),
                            },
                        );
                    }
                    let parsed = match Describe::parse(tags.as_slice()) {
                        Option::Some(d) => d,
                        Option::None => {
                            return Err(
                                BuildError::BadDescriptor {
                                    symbol: imp.describe_name.clone(),
                                },
                            );
                        },
                    };
                    let ghost gd = parsed;
                    match parsed {
                        Describe::Function { args, return_type } => {
                            let ret = *return_type;
                            if !all_args_r2l(&args) {
                                proof {
                                    assert(sig_refused(gd, true));
                                    assert(unsupported_type_cause(
                                        *info,
                                        *shared,
                                        imp.describe_name@,
                                    ));
                                }
                                return Err(
                                    BuildError::UnsupportedType {
                                        symbol: imp.describe_name.clone(),
                                    },
                                );
                            }
                            if !ret.check_l2r() {
                                proof {
                                    assert(sig_refused(gd, true));
                                    assert(unsupported_type_cause(
                                        *info,
                                        *shared,
                                        imp.describe_name@,
                                    ));
                                }
                                return Err(
                                    BuildError::UnsupportedType {
                                        symbol: imp.describe_name.clone(),
                                    },
                                );
                            }
                            if any_needs_free(&args) {
                                match ctx.intrinsics.lookup("free") {
                                    Option::Some(_) => {},
                                    Option::None => {
                                        return Err(
                                            BuildError::MissingIntrinsic {
                                                name: String::from_str("free"),
                                            },
                                        );
                                    },
                                }
                            }
                            if ret.check_l2r_needs_alloc() {
                                match ctx.intrinsics.lookup("alloc") {
                                    Option::Some(_) => {},
                                    Option::None => {
                                        return Err(
                                            BuildError::MissingIntrinsic {
                                                name: String::from_str("alloc"),
                                            },
                                        );
                                    },
                                }
                            }
                            proof {
                                lemma_descriptor_bounds(gd, tags@, args@, ret);
                                crate::describe::lemma_l2r_ok_no_function(ret);
                            }
                            let retvc = ret.value_count();
                            let invoke = InvokeLuauFunction {
                                function_name: imp.luau_name.clone(),
                                parameter_count: args.len(),
                                result_count: if retvc == 0 {
                                    0
                                } else {
                                    1
                                },
                            };
                            let ghost gargs = args@;
                            let block = ImportBlock { inputs: args, output: ret, body: invoke };
                            let instr = WasmCreateImport {
                                export_name: imp.export_name.clone(),
                                body: block,
                            };
                            let ghost pre_txt = ctx.text();
                            instr.render(&mut ctx);
                            proof {
                                lemma_prefix_trans(header_text(0), pre_txt, ctx.text());
                                assert(sig_adopted(
                                    *info,
                                    imp.describe_name@,
                                    gargs,
                                    ret,
                                    true,
                                )) by {
                                    assert(body_interp(
                                        *info,
                                        imp.describe_name@,
                                        Option::Some(gtags),
                                    ) && gtags.len() <= usize::MAX / 64 && spec_parse(
                                        gtags,
                                        0,
                                    ) is Some && gd.tags_of() == gtags.subrange(
                                        0,
                                        spec_parse_end(gtags, 0),
                                    ) && (gd matches Describe::Function {
                                        args: av,
                                        return_type: rv,
                                    } && av@ == gargs && *rv == ret) && !sig_refused(gd, true));
                                }
                                lemma_import_fold_push(
                                    shared.imports@,
                                    k as int,
                                    ic,
                                    Option::Some((gargs, ret)),
                                    intrinsic_list(*shared),
                                    header_state(),
                                );
                                ic = ic.push(Option::Some((gargs, ret)));
                            }
                        },
                        _ => {
                            proof {
                                assert(exists|tags2: Seq<u32>, d2: Describe|
                                    #![trigger body_interp(
                                        *info,
                                        imp.describe_name@,
                                        Option::Some(tags2),
                                    ), d2.tags_of()]
                                    body_interp(*info, imp.describe_name@, Option::Some(tags2))
                                        && spec_parse(tags2, 0) is Some && d2.tags_of()
                                        == tags2.subrange(0, spec_parse_end(tags2, 0)) && !(d2
                                    is Function)) by {
                                    assert(body_interp(
                                        *info,
                                        imp.describe_name@,
                                        Option::Some(gtags),
                                    ) && spec_parse(gtags, 0) is Some && gd.tags_of()
                                        == gtags.subrange(0, spec_parse_end(gtags, 0)) && !(gd
                                    is Function));
                                }
                                lemma_import_fold_push(
                                    shared.imports@,
                                    k as int,
                                    ic,
                                    Option::None,
                                    intrinsic_list(*shared),
                                    header_state(),
                                );
                                ic = ic.push(Option::None);
                            }
                        },
                    }
                } else {
                    proof {
                        assert(names_view(info.import_names@) =~= info.import_names@.map_values(
                            |s: String| s@,
                        ));
                        lemma_import_fold_push(
                            shared.imports@,
                            k as int,
                            ic,
                            Option::None,
                            intrinsic_list(*shared),
                            header_state(),
                        );
                        ic = ic.push(Option::None);
                    }
                }
            },
        }
        k = k + 1;
    }
    let ghost imports_done = names_view(dels@);
    let ghost st_imports = st_of(ctx);
    let ghost mut ec: Seq<Option<(Seq<Describe>, Describe)>> = Seq::empty();
    proof {
        assert(shared.imports@.take(shared.imports@.len() as int) =~= shared.imports@);
        assert(st_imports == import_fold(
            shared.imports@,
            ic,
            intrinsic_list(*shared),
            header_state(),
        ));
        lemma_export_fold_nil(shared.exports@, intrinsic_list(*shared), st_imports);
    }
    let mut k2: usize = 0;
    while k2 < shared.exports.len()
        invariant
            0 <= k2 <= shared.exports@.len(),
            clean_metadata(*shared),
            ctx.wf(),
            ctx.out.new_line,
            ctx.out.indent == 0,
            ctx.inputs@.len() == 0,
            ctx.intrinsics.intrinsics == base_intr,
            ctx.intrinsics.list() == intrinsic_list(*shared),
            header_text(0).is_prefix_of(ctx.text()),
            ic.len() == shared.imports@.len(),
            forall|j: int|
                0 <= j < ic.len() ==> import_choice_ok(
                    *info,
                    *shared,
                    shared.imports@[j],
                    #[trigger] ic[j],
                ),
            st_imports == import_fold(
                shared.imports@,
                ic,
                intrinsic_list(*shared),
                header_state(),
            ),
            ec.len() == k2 as int,
            forall|j: int|
                0 <= j < k2 ==> export_choice_ok(
                    *info,
                    *shared,
                    shared.exports@[j],
                    #[trigger] ec[j],
                ),
            st_of(ctx) == export_fold(
                shared.exports@.take(k2 as int),
                ec,
                intrinsic_list(*shared),
                st_imports,
            ),
            forall|j: int|
                0 <= j < shared.imports@.len() && has_fn_export(
                    *info,
                    (#[trigger] shared.imports@[j]).describe_name@,
                ) ==> contains_str(names_view(dels@), shared.imports@[j].describe_name@),
            forall|j: int|
                0 <= j < k2 && has_fn_export(
                    *info,
                    (#[trigger] shared.exports@[j]).describe_name@,
                ) ==> contains_str(names_view(dels@), shared.exports@[j].describe_name@),
        decreases shared.exports@.len() - k2,
    {
        let exp = &shared.exports[k2];
        match find_fn_export(info, &exp.describe_name) {
            Option::None => {
                proof {
                    lemma_export_fold_push(
                        shared.exports@,
                        k2 as int,
                        ec,
                        Option::None,
                        intrinsic_list(*shared),
                        st_imports,
                    );
                    ec = ec.push(Option::None);
                }
            },
            Option::Some(idx) => {
                let ghost dv0 = names_view(dels@);
                dels.push(exp.describe_name.clone());
                proof {
                    assert(names_view(dels@) =~= dv0.push(exp.describe_name@));
                    assert forall|j: int|
                        0 <= j < shared.imports@.len() && has_fn_export(
                            *info,
                            (#[trigger] shared.imports@[j]).describe_name@,
                        ) implies contains_str(
                        names_view(dels@),
                        shared.imports@[j].describe_name@,
                    ) by {
                        lemma_contains_push(
                            dv0,
                            shared.imports@[j].describe_name@,
                            exp.describe_name@,
                        );
                    }
                    assert forall|j: int|
                        0 <= j < k2 + 1 && has_fn_export(
                            *info,
                            (#[trigger] shared.exports@[j]).describe_name@,
                        ) implies contains_str(
                        names_view(dels@),
                        shared.exports@[j].describe_name@,
                    ) by {
                        lemma_contains_push(
                            dv0,
                            shared.exports@[j].describe_name@,
                            exp.describe_name@,
                        );
                    }
                }
                proof {
                    assert(shared.exports@[k2 as int].describe_name@ == exp.describe_name@);
                    assert(live_export(*shared, exp.describe_name@));
                }
                let tags = match interpret_describe(&info.function_exports[idx].body) {
                    Option::Some(t) => t,
                    Option::None => {
                        proof {
                            assert(info.function_exports@[idx as int].name@
                                == exp.describe_name@);
                            assert(body_interp(
                                *info,
                                exp.describe_name@,
                                Option::<Seq<u32>>::None,
                            ));
                        }
                        return Err(
                            BuildError::UnsupportedInstruction {
                                symbol: exp.describe_name.clone(),
                            },
                        );
                    },
                };
                let ghost gtags = tags@;
                proof {
                    assert(info.function_exports@[idx as int].name@ == exp.describe_name@);
                    assert(body_interp(*info, exp.describe_name@, Option::Some(tags@)));
                }
                if tags.len() > usize::MAX / 64 {
                    proof {
                        assert(exists|t2: Seq<u32>|
                            #[trigger] body_interp(
                                *info,
                                exp.describe_name@,
                                Option::Some(t2),
                            ) && t2.len() > usize::MAX / 64) by {
                            assert(body_interp(
                                *info,
                                exp.describe_name@,
                                Option::Some(tags@),
                            ) && tags@.len() > usize::MAX / 64);
                        }
                    }
                    return Err(
                        BuildError::OversizedDescriptor { symbol: exp.describe_name.clone() },
                    );
                }
                let parsed = match Describe::parse(tags.as_slice()) {
                    Option::Some(d) => d,
                    Option::None => {
                        proof {
                            assert(exists|t2: Seq<u32>|
                                #[trigger] body_interp(
                                    *info,
                                    exp.describe_name@,
                                    Option::Some(t2),
                                ) && spec_parse(t2, 0) is None) by {
                                assert(body_interp(
                                    *info,
                                    exp.describe_name@,
                                    Option::Some(tags@),
                                ) && spec_parse(tags@, 0) is None);
                            }
                        }
                        return Err(
                            BuildError::BadDescriptor { symbol: exp.describe_name.clone() },
                        );
                    },
                };
                let ghost gd = parsed;
                match parsed {
                    Describe::Function { args, return_type } => {
                        let ret = *return_type;
                        if !all_args_l2r(&args) {
                            proof {
                                assert(sig_refused(gd, false));
                                assert(unsupported_type_cause(
                                    *info,
                                    *shared,
                                    exp.describe_name@,
                                ));
                            }
                            return Err(
                                BuildError::UnsupportedType {
                                    symbol: exp.describe_name.clone(),
                                },
                            );
                        }
                        if !ret.check_r2l() {
                            proof {
                                assert(sig_refused(gd, false));
                                assert(unsupported_type_cause(
                                    *info,
                                    *shared,
                                    exp.describe_name@,
                                ));
                            }
                            return Err(
                                BuildError::UnsupportedType {
                                    symbol: exp.describe_name.clone(),
                                },
                            );
                        }
                        if any_needs_alloc(&args) {
                            match ctx.intrinsics.lookup("alloc") {
                                Option::Some(_) => {},
                                Option::None => {
                                    return Err(
                                        BuildError::MissingIntrinsic {
                                            name: String::from_str("alloc"),
                                        },
                                    );
                                },
                            }
                        }
                        if ret.check_r2l_needs_free() {
                            match ctx.intrinsics.lookup("free") {
                                Option::Some(_) => {},
                                Option::None => {
                                    return Err(
                                        BuildError::MissingIntrinsic {
                                            name: String::from_str("free"),
                                        },
                                    );
                                },
                            }
                        }
                        proof {
                            lemma_descriptor_bounds(gd, tags@, args@, ret);
                            crate::describe::lemma_r2l_ok_no_function(ret);
                        }
                        let ghost gargs = args@;
                        let invoke = InvokeRustFunction {
                            function_name: exp.export_name.clone(),
                            parameters: args,
                            output_type: ret,
                        };
                        let block = ExportBlock { body: invoke };
                        let instr = WasmCreateExport {
                            luau_name: exp.luau_name.clone(),
                            body: block,
                        };
                        let ghost pre_txt = ctx.text();
                        instr.render(&mut ctx);
                        proof {
                            lemma_prefix_trans(header_text(0), pre_txt, ctx.text());
                            assert(sig_adopted(
                                *info,
                                exp.describe_name@,
                                gargs,
                                ret,
                                false,
                            )) by {
                                assert(body_interp(
                                    *info,
                                    exp.describe_name@,
                                    Option::Some(gtags),
                                ) && gtags.len() <= usize::MAX / 64 && spec_parse(
                                    gtags,
                                    0,
                                ) is Some && gd.tags_of() == gtags.subrange(
                                    0,
                                    spec_parse_end(gtags, 0),
                                ) && (gd matches Describe::Function {
                                    args: av,
                                    return_type: rv,
                                } && av@ == gargs && *rv == ret) && !sig_refused(gd, false));
                            }
                            lemma_export_fold_push(
                                shared.exports@,
                                k2 as int,
                                ec,
                                Option::Some((gargs, ret)),
                                intrinsic_list(*shared),
                                st_imports,
                            );
                            ec = ec.push(Option::Some((gargs, ret)));
                        }
                    },
                    _ => {
                        proof {
                            assert(exists|tags2: Seq<u32>, d2: Describe|
                                #![trigger body_interp(
                                    *info,
                                    exp.describe_name@,
                                    Option::Some(tags2),
                                ), d2.tags_of()]
                                body_interp(*info, exp.describe_name@, Option::Some(tags2))
                                    && spec_parse(tags2, 0) is Some && d2.tags_of()
                                    == tags2.subrange(0, spec_parse_end(tags2, 0)) && !(d2
                                is Function)) by {
                                assert(body_interp(
                                    *info,
                                    exp.describe_name@,
                                    Option::Some(gtags),
                                ) && spec_parse(gtags, 0) is Some && gd.tags_of()
                                    == gtags.subrange(0, spec_parse_end(gtags, 0)) && !(gd
                                is Function));
                            }
                            lemma_export_fold_push(
                                shared.exports@,
                                k2 as int,
                                ec,
                                Option::None,
                                intrinsic_list(*shared),
                                st_imports,
                            );
                            ec = ec.push(Option::None);
                        }
                    },
                }
            },
        }
        k2 = k2 + 1;
    }
    let mains = clone_names(&shared.main_fns);
    proof {
        assert forall|j: int| 0 <= j < mains@.len() implies clean_str(
            (#[trigger] mains@[j])@,
        ) by {}
    }
    let tail = CreateRuntimeTail { main_names: mains };
    let ghost pre_tail_txt = ctx.text();
    let ghost mview = names_view(shared.main_fns@);
    tail.render(&mut ctx);
    proof {
        assert(tail.main_names@.map_values(|s: String| s@) =~= mview);
        assert(ctx.text() == pre_tail_txt + tail_text(mview, 0));
        lemma_prefix_concat(pre_tail_txt, tail_text(mview, 0));
        lemma_prefix_trans(header_text(0), pre_tail_txt, ctx.text());
        assert(tail_text(mview, 0) =~= ctx.text().subrange(
            ctx.text().len() - tail_text(mview, 0).len(),
            ctx.text().len() as int,
        ));
        assert(tail_text(mview, 0).is_suffix_of(ctx.text()));
        assert(shared.exports@.take(shared.exports@.len() as int) =~= shared.exports@);
        assert(pre_tail_txt == export_fold(
            shared.exports@,
            ec,
            intrinsic_list(*shared),
            st_imports,
        ).text);
        assert forall|j: int| 0 <= j < shared.imports@.len() implies import_record_ok(
            *info,
            *shared,
            #[trigger] shared.imports@[j],
        ) by {
            assert(import_choice_ok(*info, *shared, shared.imports@[j], ic[j]));
        }
        assert forall|j: int| 0 <= j < shared.exports@.len() implies export_record_ok(
            *info,
            *shared,
            #[trigger] shared.exports@[j],
        ) by {
            assert(export_choice_ok(*info, *shared, shared.exports@[j], ec[j]));
        }
        assert(script_shape(*info, *shared, ctx.text())) by {
            assert(ic.len() == shared.imports@.len() && ec.len() == shared.exports@.len());
            assert(ctx.text() == export_fold(
                shared.exports@,
                ec,
                intrinsic_list(*shared),
                import_fold(shared.imports@, ic, intrinsic_list(*shared), header_state()),
            ).text + tail_text(names_view(shared.main_fns@), 0));
        }
    }
    let mut intr_dels: Vec<String> = Vec::new();
    let mut k3: usize = 0;
    while k3 < shared.intrinsics.len()
        invariant
            0 <= k3 <= shared.intrinsics@.len(),
            clean_metadata(*shared),
            forall|j: int|
                0 <= j < k3 ==> contains_str(
                    names_view(ctx.intrinsics.used@),
                    (#[trigger] shared.intrinsics@[j]).name@,
                ) || contains_str(
                    names_view(info.export_names@),
                    shared.intrinsics@[j].export_name@,
                ),
            forall|j: int|
                0 <= j < k3 && !contains_str(
                    names_view(ctx.intrinsics.used@),
                    (#[trigger] shared.intrinsics@[j]).name@,
                ) ==> contains_str(
                    names_view(intr_dels@),
                    shared.intrinsics@[j].export_name@,
                ),
        decreases shared.intrinsics@.len() - k3,
    {
        let f = &shared.intrinsics[k3];
        if contains_name(&ctx.intrinsics.used, &f.name) {
            proof {
                assert(names_view(ctx.intrinsics.used@) =~= ctx.intrinsics.used@.map_values(
                    |s: String| s@,
                ));
            }
        } else {
            if !contains_name(&info.export_names, &f.export_name) {
                proof {
                    assert(names_view(info.export_names@) =~= info.export_names@.map_values(
                        |s: String| s@,
                    ));
                    assert(shared.intrinsics@[k3 as int].name@ == f.name@);
                    assert(!contains_str(
                        names_view(info.export_names@),
                        shared.intrinsics@[k3 as int].export_name@,
                    ));
                }
                return Err(BuildError::MissingIntrinsicExport { name: f.name.clone() });
            }
            let ghost iv0 = names_view(intr_dels@);
            intr_dels.push(f.export_name.clone());
            proof {
                assert(names_view(intr_dels@) =~= iv0.push(f.export_name@));
                assert forall|j: int|
                    0 <= j < k3 + 1 && !contains_str(
                        names_view(ctx.intrinsics.used@),
                        (#[trigger] shared.intrinsics@[j]).name@,
                    ) implies contains_str(
                    names_view(intr_dels@),
                    shared.intrinsics@[j].export_name@,
                ) by {
                    lemma_contains_push(
                        iv0,
                        shared.intrinsics@[j].export_name@,
                        f.export_name@,
                    );
                }
            }
        }
        k3 = k3 + 1;
    }
    let plan = BuildPlan {
        runtime_script: ctx.out.out,
        delete_describe_exports: dels,
        delete_intrinsic_exports: intr_dels,
        used_intrinsics: ctx.intrinsics.used,
        export_stack_pointer: info.has_stack_pointer,
        export_func_table: info.has_function_table,
    };
    Ok(plan)
}

/// Everything the renders need of a parsed function signature, derived from
/// the one run-time bound on its encoding's length.
proof fn lemma_descriptor_bounds(
    d: Describe,
    tags: Seq<u32>,
    args: Seq<Describe>,
    ret: Describe,
)
    requires
        tags.len() <= usize::MAX / 64,
        exists|e: int|
            0 <= e <= tags.len() && d.tags_of() == tags.subrange(0, e),
        d matches Describe::Function { args: a, return_type: rt } && a@ == args && *rt == ret,
    ensures
        forall|k: int| 0 <= k < args.len() ==> (#[trigger] args[k]).sizes_ok(),
        ret.sizes_ok(),
        sum_vc(args) <= usize::MAX,
        max_height(args) + 2 <= usize::MAX,
        ret.height() + 2 <= usize::MAX,
{
    let e = choose|e: int| 0 <= e <= tags.len() && d.tags_of() == tags.subrange(0, e);
    let dl = d.tags_of().len();
    assert(dl <= tags.len());
    assert(d.tags_of().len() == 2 + crate::describe::args_tags(args).len()
        + ret.tags_of().len());
    assert(usize::MAX / 64 + 2 <= usize::MAX) by {
        vstd::arithmetic::div_mod::lemma_fundamental_div_mod(usize::MAX as int, 64);
        assert(64 * ((usize::MAX as int) / 64) >= (usize::MAX as int) / 64) by (
        nonlinear_arith);
    }
    assert forall|k: int| 0 <= k < args.len() implies (#[trigger] args[k]).sizes_ok() by {
        lemma_args_tags_le(args, k);
        lemma_sizes_ok_from_tags(args[k]);
    }
    lemma_sizes_ok_from_tags(ret);
    lemma_sum_args_vc(args);
    assert forall|k: int| 0 <= k < args.len() implies (#[trigger] args[k]).height()
        <= usize::MAX / 64 by {
        lemma_args_tags_le(args, k);
        lemma_height_le_tags(args[k]);
    }
    lemma_max_height_bound(args, (usize::MAX / 64) as nat);
    lemma_height_le_tags(ret);
}

} // verus!
