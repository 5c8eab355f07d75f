//! The type descriptor: a recursive description of a boundary type, with
//! projections to its ABI slot count, its flattened carrier primitives and
//! its aligned memory footprint.

use vstd::prelude::*;

verus! {

/// Tag code for an unsigned 8-bit integer.
pub const U8: u32 = 0;
/// Tag code for an unsigned 16-bit integer.
pub const U16: u32 = 1;
/// Tag code for an unsigned 32-bit integer.
pub const U32: u32 = 2;
/// Tag code for a signed 8-bit integer.
pub const I8: u32 = 3;
/// Tag code for a signed 16-bit integer.
pub const I16: u32 = 4;
/// Tag code for a signed 32-bit integer.
pub const I32: u32 = 5;
/// Tag code for a boolean.
pub const BOOLEAN: u32 = 6;
/// Tag code for a shared reference.
pub const REF: u32 = 7;
/// Tag code for an exclusive reference.
pub const REF_MUT: u32 = 8;
/// Tag code for a function signature.
pub const FUNCTION: u32 = 9;
/// Tag code for the unit type.
pub const VOID: u32 = 10;
/// Tag code for a 32-bit float.
pub const F32: u32 = 11;
/// Tag code for a 64-bit float.
pub const F64: u32 = 12;
/// Tag code for an optional value.
pub const OPTION: u32 = 13;
/// Tag code for a script-side heap handle.
pub const EXTERNREF: u32 = 14;
/// Tag code for an owned string.
pub const STRING: u32 = 15;
/// Tag code for a borrowed slice.
pub const SLICE: u32 = 16;
/// Tag code for an owned vector.
pub const VECTOR: u32 = 17;

/// A boundary type, as carried by the metadata protocol.
#[derive(Debug)]
pub enum Describe {
    U8,
    U16,
    U32,
    I8,
    I16,
    I32,
    Boolean,
    Void,
    F32,
    F64,
    ExternRef,
    String,
    Vector { ty: Box<Describe> },
    Slice { ty: Box<Describe> },
    Ref { ty: Box<Describe> },
    RefMut { ty: Box<Describe> },
    Function { args: Vec<Describe>, return_type: Box<Describe> },
    Option { ty: Box<Describe> },
}

/// A carrier primitive: one ABI slot as transmitted over the boundary.
#[derive(Debug, Clone, Copy, PartialEq, Eq, Structural)]
pub enum Primitive {
    U8,
    U16,
    U32,
    I8,
    I16,
    I32,
    F32,
    F64,
}

impl Primitive {
    /// The width of this primitive in bytes.
    pub open spec fn spec_byte_size(self) -> nat {
        match self {
            Primitive::U8 => 1,
            Primitive::U16 => 2,
            Primitive::U32 => 4,
            Primitive::I8 => 1,
            Primitive::I16 => 2,
            Primitive::I32 => 4,
            Primitive::F32 => 4,
            Primitive::F64 => 8,
        }
    }

    pub fn byte_size(&self) -> (r: usize)
        ensures
            r == self.spec_byte_size(),
    {
        match self {
            Primitive::U8 => 1,
            Primitive::U16 => 2,
            Primitive::U32 => 4,
            Primitive::I8 => 1,
            Primitive::I16 => 2,
            Primitive::I32 => 4,
            Primitive::F32 => 4,
            Primitive::F64 => 8,
        }
    }

    /// Rounds `offset` up to this primitive's own alignment, which equals its
    /// byte size.
    pub fn next_align(&self, offset: usize) -> (r: usize)
        requires
            round_up(offset as nat, self.spec_byte_size()) <= usize::MAX,
        ensures
            r == round_up(offset as nat, self.spec_byte_size()),
    {
        round_up_usize(offset, self.byte_size())
    }

    /// The suffix of the script-side buffer accessor for this primitive.
    pub open spec fn spec_buffer_name(self) -> Seq<char> {
        match self {
            Primitive::F32 => "f32"@,
            Primitive::F64 => "f64"@,
            Primitive::I8 => "i8"@,
            Primitive::I16 => "i16"@,
            Primitive::I32 => "i32"@,
            Primitive::U8 => "u8"@,
            Primitive::U16 => "u16"@,
            Primitive::U32 => "u32"@,
        }
    }

    pub fn buffer_name(&self) -> (r: &'static str)
        ensures
            r@ == self.spec_buffer_name(),
    {
        match self {
            Primitive::F32 => "f32",
            Primitive::F64 => "f64",
            Primitive::I8 => "i8",
            Primitive::I16 => "i16",
            Primitive::I32 => "i32",
            Primitive::U8 => "u8",
            Primitive::U16 => "u16",
            Primitive::U32 => "u32",
        }
    }
}

/// `offset` rounded up to the next multiple of `size`.
pub open spec fn round_up(offset: nat, size: nat) -> nat {
    ((offset + size - 1) / (size as int) * (size as int)) as nat
}

pub proof fn lemma_round_up(offset: nat, size: nat)
    requires
        size > 0,
    ensures
        round_up(offset, size) as int % (size as int) == 0,
        offset <= round_up(offset, size) < offset + size,
{
    let x = offset + size - 1;
    let s = size as int;
    vstd::arithmetic::div_mod::lemma_fundamental_div_mod(x, s);
    vstd::arithmetic::div_mod::lemma_mod_bound(x, s);
    vstd::arithmetic::div_mod::lemma_mod_multiples_basic(x / s, s);
}

/// Executable rounding that never overflows past the rounded result.
#[verifier::spinoff_prover]
pub fn round_up_usize(offset: usize, size: usize) -> (r: usize)
    requires
        size > 0,
        round_up(offset as nat, size as nat) <= usize::MAX,
    ensures
        r == round_up(offset as nat, size as nat),
{
    proof {
        let o = offset as int;
        let s = size as int;
        let q = o / s;
        let r = o % s;
        lemma_round_up(offset as nat, size as nat);
        vstd::arithmetic::div_mod::lemma_fundamental_div_mod(o, s);
        vstd::arithmetic::div_mod::lemma_mod_bound(o, s);
        if r == 0 {
            vstd::arithmetic::div_mod::lemma_fundamental_div_mod_converse_div(
                o + s - 1,
                s,
                q,
                s - 1,
            );
        } else {
            assert((q + 1) * s == q * s + s) by (nonlinear_arith);
            vstd::arithmetic::div_mod::lemma_fundamental_div_mod_converse_div(
                o + s - 1,
                s,
                q + 1,
                r - 1,
            );
        }
    }
    if offset % size == 0 {
        offset
    } else {
        offset / size * size + size
    }
}

/// The total size of primitives laid out in order starting at `acc`, each at
/// its self-aligned offset.
pub open spec fn layout_size(prims: Seq<Primitive>, acc: nat) -> nat
    decreases prims.len(),
{
    if prims.len() == 0 {
        acc
    } else {
        layout_size(
            prims.drop_first(),
            round_up(acc, prims[0].spec_byte_size()) + prims[0].spec_byte_size(),
        )
    }
}

/// The largest byte size among `prims`.
pub open spec fn max_byte_size(prims: Seq<Primitive>) -> nat
    decreases prims.len(),
{
    if prims.len() == 0 {
        0
    } else {
        let rest = max_byte_size(prims.drop_first());
        if prims[0].spec_byte_size() > rest {
            prims[0].spec_byte_size()
        } else {
            rest
        }
    }
}

impl Describe {
    /// Holds when the descriptor mentions no function signature, so that it
    /// can stand in a value position.
    pub open spec fn no_function(self) -> bool
        decreases self,
    {
        match self {
            Describe::Function { .. } => false,
            Describe::Option { ty } => ty.no_function(),
            Describe::Ref { ty } => ty.no_function(),
            Describe::RefMut { ty } => ty.no_function(),
            Describe::Slice { ty } => ty.no_function(),
            Describe::Vector { ty } => ty.no_function(),
            _ => true,
        }
    }

    pub fn is_no_function(&self) -> (b: bool)
        ensures
            b == self.no_function(),
        decreases *self,
    {
        match self {
            Describe::Function { .. } => false,
            Describe::Option { ty } => ty.is_no_function(),
            Describe::Ref { ty } => ty.is_no_function(),
            Describe::RefMut { ty } => ty.is_no_function(),
            Describe::Slice { ty } => ty.is_no_function(),
            Describe::Vector { ty } => ty.is_no_function(),
            _ => true,
        }
    }

    /// How many ABI slots a value of this type occupies.
    pub open spec fn spec_value_count(self) -> nat
        decreases self,
    {
        match self {
            Describe::Void => 0,
            Describe::U8 => 1,
            Describe::U16 => 1,
            Describe::U32 => 1,
            Describe::I8 => 1,
            Describe::I16 => 1,
            Describe::I32 => 1,
            Describe::F32 => 1,
            Describe::F64 => 1,
            Describe::Boolean => 1,
            Describe::ExternRef => 1,
            Describe::Function { .. } => 0,
            Describe::Option { ty } => 1 + ty.spec_value_count(),
            Describe::Ref { ty } => ty.spec_value_count(),
            Describe::RefMut { ty } => ty.spec_value_count(),
            Describe::Slice { .. } => 2,
            Describe::Vector { .. } => 2,
            Describe::String => 2,
        }
    }

    pub fn value_count(&self) -> (r: usize)
        requires
            self.no_function(),
            self.spec_value_count() <= usize::MAX,
        ensures
            r == self.spec_value_count(),
        decreases *self,
    {
        match self {
            Describe::Void => 0,
            Describe::U8
            | Describe::U16
            | Describe::U32
            | Describe::I8
            | Describe::I16
            | Describe::I32
            | Describe::F32
            | Describe::F64
            | Describe::Boolean
            | Describe::ExternRef => 1,
            Describe::Function { .. } => 0,
            Describe::Option { ty } => 1 + ty.value_count(),
            Describe::Ref { ty } => ty.value_count(),
            Describe::RefMut { ty } => ty.value_count(),
            Describe::Slice { .. } => 2,
            Describe::Vector { .. } => 2,
            Describe::String => 2,
        }
    }

    /// The flattened carrier primitives of this type, in declaration order.
    pub open spec fn spec_primitives(self) -> Seq<Primitive>
        decreases self,
    {
        match self {
            Describe::U8 => seq![Primitive::U8],
            Describe::U16 => seq![Primitive::U16],
            Describe::U32 => seq![Primitive::U32],
            Describe::I8 => seq![Primitive::I8],
            Describe::I16 => seq![Primitive::I16],
            Describe::I32 => seq![Primitive::I32],
            Describe::Boolean => seq![Primitive::U32],
            Describe::ExternRef => seq![Primitive::U32],
            Describe::Void => Seq::empty(),
            Describe::F32 => seq![Primitive::F32],
            Describe::F64 => seq![Primitive::F64],
            Describe::String => seq![Primitive::U32, Primitive::U32],
            Describe::Vector { .. } => seq![Primitive::U32, Primitive::U32],
            Describe::Slice { .. } => seq![Primitive::U32, Primitive::U32],
            Describe::Function { .. } => Seq::empty(),
            Describe::Ref { ty } => ty.spec_primitives(),
            Describe::RefMut { ty } => ty.spec_primitives(),
            Describe::Option { ty } => seq![Primitive::U8] + ty.spec_primitives(),
        }
    }

    pub fn primitive_values(&self) -> (v: Vec<Primitive>)
        requires
            self.no_function(),
        ensures
            v@ == self.spec_primitives(),
    {
        let mut v = Vec::new();
        self._primitive_values(&mut v);
        proof {
            assert(v@ =~= self.spec_primitives());
        }
        v
    }

    fn _primitive_values(&self, out: &mut Vec<Primitive>)
        requires
            self.no_function(),
        ensures
            final(out)@ == old(out)@ + self.spec_primitives(),
        decreases *self,
    {
        match self {
            Describe::U8 => out.push(Primitive::U8),
            Describe::U16 => out.push(Primitive::U16),
            Describe::U32 => out.push(Primitive::U32),
            Describe::I8 => out.push(Primitive::I8),
            Describe::I16 => out.push(Primitive::I16),
            Describe::I32 => out.push(Primitive::I32),
            Describe::Boolean => out.push(Primitive::U32),
            Describe::ExternRef => out.push(Primitive::U32),
            Describe::Void => {},
            Describe::F32 => out.push(Primitive::F32),
            Describe::F64 => out.push(Primitive::F64),
            Describe::String => {
                out.push(Primitive::U32);
                out.push(Primitive::U32);
            },
            Describe::Vector { .. } => {
                out.push(Primitive::U32);
                out.push(Primitive::U32);
            },
            Describe::Slice { .. } => {
                out.push(Primitive::U32);
                out.push(Primitive::U32);
            },
            Describe::Function { .. } => {},
            Describe::Ref { ty } => ty._primitive_values(out),
            Describe::RefMut { ty } => ty._primitive_values(out),
            Describe::Option { ty } => {
                out.push(Primitive::U8);
                ty._primitive_values(out);
            },
        }
        proof {
            assert(final(out)@ =~= old(out)@ + self.spec_primitives());
        }
    }

    /// The aligned layout size of this type's primitives: each primitive at
    /// its self-aligned offset, the total padded to the largest alignment.
    pub open spec fn spec_memory_size(self) -> nat {
        let prims = self.spec_primitives();
        if prims.len() == 0 {
            0
        } else {
            round_up(layout_size(prims, 0), max_byte_size(prims))
        }
    }

    pub fn memory_size(&self) -> (r: usize)
        requires
            self.no_function(),
            self.spec_memory_size() <= usize::MAX,
        ensures
            r == self.spec_memory_size(),
    {
        let prims = self.primitive_values();
        let ghost gp = prims@;
        let mut size: usize = 0;
        let mut align: usize = 0;
        let mut i: usize = 0;
        proof {
            lemma_layout_props(gp, 0);
            assert(gp.skip(0) =~= gp);
            assert(gp.take(0) =~= Seq::<Primitive>::empty());
        }
        while i < prims.len()
            invariant
                0 <= i <= gp.len(),
                prims@ == gp,
                gp == self.spec_primitives(),
                self.spec_memory_size() <= usize::MAX,
                layout_size(gp.skip(i as int), size as nat) == layout_size(gp, 0),
                align == max_byte_size(gp.take(i as int)),
                size <= layout_size(gp, 0),
                i < gp.len() ==> gp.len() > 0,
            decreases gp.len() - i,
        {
            let prim = prims[i];
            proof {
                assert(gp.skip(i as int)[0] == gp[i as int]);
                assert(gp.skip(i as int).drop_first() =~= gp.skip(i + 1));
                lemma_layout_props(
                    gp.skip(i + 1),
                    round_up(size as nat, prim.spec_byte_size()) + prim.spec_byte_size(),
                );
                lemma_round_up(size as nat, prim.spec_byte_size());
                lemma_memory_size_ge_layout(*self);
            }
            let byte_size = prim.byte_size();
            size = prim.next_align(size) + byte_size;
            if byte_size > align {
                align = byte_size;
            }
            proof {
                assert(gp.take(i + 1).drop_last() =~= gp.take(i as int));
                lemma_max_byte_size_last(gp.take(i + 1));
            }
            i += 1;
        }
        if prims.len() == 0 {
            0
        } else {
            proof {
                assert(gp.skip(gp.len() as int) =~= Seq::<Primitive>::empty());
                assert(layout_size(gp, 0) == size as nat);
                assert(gp.take(gp.len() as int) =~= gp);
                lemma_max_byte_size_pos(gp);
            }
            round_up_usize(size, align)
        }
    }
}

impl Describe {
    /// A type whose script and guest representations coincide, so that its
    /// conversions pass the value through untouched.
    pub open spec fn passthrough(self) -> bool {
        match self {
            Describe::U8 => true,
            Describe::U16 => true,
            Describe::U32 => true,
            Describe::I8 => true,
            Describe::I16 => true,
            Describe::I32 => true,
            Describe::F32 => true,
            Describe::F64 => true,
            _ => false,
        }
    }

    /// Nesting depth of the descriptor, which bounds how many blocks a
    /// conversion may open.
    pub open spec fn height(self) -> nat
        decreases self,
    {
        match self {
            Describe::Option { ty } => 1 + ty.height(),
            Describe::Ref { ty } => 1 + ty.height(),
            Describe::RefMut { ty } => 1 + ty.height(),
            Describe::Slice { ty } => 1 + ty.height(),
            Describe::Vector { ty } => 1 + ty.height(),
            Describe::Function { .. } => 1,
            _ => 1,
        }
    }

    /// Machine bounds under which slot counts and layout sizes of this type
    /// and its components fit in an index.
    pub open spec fn sizes_ok(self) -> bool
        decreases self,
    {
        &&& self.spec_value_count() <= usize::MAX
        &&& self.spec_memory_size() <= usize::MAX
        &&& match self {
            Describe::Option { ty } => ty.sizes_ok(),
            Describe::Ref { ty } => ty.sizes_ok(),
            Describe::RefMut { ty } => ty.sizes_ok(),
            Describe::Slice { ty } => ty.sizes_ok(),
            Describe::Vector { ty } => ty.sizes_ok(),
            _ => true,
        }
    }

    /// The types the script-to-guest conversion accepts.
    pub open spec fn l2r_ok(self) -> bool
        decreases self,
    {
        match self {
            Describe::Void => true,
            Describe::Boolean => true,
            Describe::ExternRef => true,
            Describe::String => true,
            Describe::Option { ty } => ty.l2r_ok(),
            Describe::Vector { ty } => ty.l2r_ok(),
            Describe::Ref { .. } => false,
            Describe::RefMut { .. } => false,
            Describe::Slice { .. } => false,
            Describe::Function { .. } => false,
            _ => true,
        }
    }

    /// Whether the script-to-guest conversion calls the `alloc` intrinsic.
    pub open spec fn l2r_needs_alloc(self) -> bool
        decreases self,
    {
        match self {
            Describe::String => true,
            Describe::Vector { .. } => true,
            Describe::Option { ty } => ty.l2r_needs_alloc(),
            _ => false,
        }
    }

    /// The types the guest-to-script conversion accepts.
    pub open spec fn r2l_ok(self) -> bool
        decreases self,
    {
        match self {
            Describe::Void => true,
            Describe::Boolean => true,
            Describe::ExternRef => true,
            Describe::String => true,
            Describe::Option { ty } => ty.r2l_ok(),
            Describe::Vector { ty } => ty.r2l_ok(),
            Describe::Ref { ty } => ty.ref_target_ok(),
            Describe::RefMut { .. } => false,
            Describe::Slice { .. } => false,
            Describe::Function { .. } => false,
            _ => true,
        }
    }

    /// The types a borrowed reference may stand around when crossing from
    /// guest to script.
    pub open spec fn ref_target_ok(self) -> bool {
        match self {
            Describe::String => true,
            Describe::ExternRef => true,
            Describe::Slice { ty: elem } => elem.no_function() && elem.spec_primitives().len()
                == 1,
            _ => false,
        }
    }

    /// Whether the guest-to-script conversion calls the `free` intrinsic.
    pub open spec fn r2l_needs_free(self) -> bool
        decreases self,
    {
        match self {
            Describe::String => true,
            Describe::Vector { .. } => true,
            Describe::Option { ty } => ty.r2l_needs_free(),
            _ => false,
        }
    }

    pub fn is_passthrough(&self) -> (b: bool)
        ensures
            b == self.passthrough(),
    {
        match self {
            Describe::U8
            | Describe::U16
            | Describe::U32
            | Describe::I8
            | Describe::I16
            | Describe::I32
            | Describe::F32
            | Describe::F64 => true,
            _ => false,
        }
    }

    pub fn check_l2r(&self) -> (b: bool)
        ensures
            b == self.l2r_ok(),
        decreases *self,
    {
        match self {
            Describe::Void => true,
            Describe::Boolean => true,
            Describe::ExternRef => true,
            Describe::String => true,
            Describe::Option { ty } => ty.check_l2r(),
            Describe::Vector { ty } => ty.check_l2r(),
            Describe::Ref { .. } => false,
            Describe::RefMut { .. } => false,
            Describe::Slice { .. } => false,
            Describe::Function { .. } => false,
            _ => true,
        }
    }

    pub fn check_r2l(&self) -> (b: bool)
        ensures
            b == self.r2l_ok(),
        decreases *self,
    {
        match self {
            Describe::Void => true,
            Describe::Boolean => true,
            Describe::ExternRef => true,
            Describe::String => true,
            Describe::Option { ty } => ty.check_r2l(),
            Describe::Vector { ty } => ty.check_r2l(),
            Describe::Ref { ty } => match &**ty {
                Describe::String => true,
                Describe::ExternRef => true,
                Describe::Slice { ty: elem } => {
                    if elem.is_no_function() {
                        let prims = elem.primitive_values();
                        prims.len() == 1
                    } else {
                        false
                    }
                },
                _ => false,
            },
            Describe::RefMut { .. } => false,
            Describe::Slice { .. } => false,
            Describe::Function { .. } => false,
            _ => true,
        }
    }

    pub fn check_l2r_needs_alloc(&self) -> (b: bool)
        ensures
            b == self.l2r_needs_alloc(),
        decreases *self,
    {
        match self {
            Describe::String => true,
            Describe::Vector { .. } => true,
            Describe::Option { ty } => ty.check_l2r_needs_alloc(),
            _ => false,
        }
    }

    pub fn check_r2l_needs_free(&self) -> (b: bool)
        ensures
            b == self.r2l_needs_free(),
        decreases *self,
    {
        match self {
            Describe::String => true,
            Describe::Vector { .. } => true,
            Describe::Option { ty } => ty.check_r2l_needs_free(),
            _ => false,
        }
    }

}

/// Every descriptor occupies exactly as many ABI slots as it has flattened
/// carrier primitives.
pub proof fn lemma_value_count_primitives(d: Describe)
    ensures
        d.spec_value_count() == d.spec_primitives().len(),
    decreases d,
{
    match d {
        Describe::Option { ty } => lemma_value_count_primitives(*ty),
        Describe::Ref { ty } => lemma_value_count_primitives(*ty),
        Describe::RefMut { ty } => lemma_value_count_primitives(*ty),
        _ => {},
    }
}

/// A type the script-to-guest conversion accepts never mentions a function
/// signature.
pub proof fn lemma_l2r_ok_no_function(d: Describe)
    ensures
        d.l2r_ok() ==> d.no_function(),
    decreases d,
{
    match d {
        Describe::Option { ty } => lemma_l2r_ok_no_function(*ty),
        Describe::Vector { ty } => lemma_l2r_ok_no_function(*ty),
        _ => {},
    }
}

/// A type the guest-to-script conversion accepts never mentions a function
/// signature.
pub proof fn lemma_r2l_ok_no_function(d: Describe)
    ensures
        d.r2l_ok() ==> d.no_function(),
    decreases d,
{
    match d {
        Describe::Option { ty } => lemma_r2l_ok_no_function(*ty),
        Describe::Vector { ty } => lemma_r2l_ok_no_function(*ty),
        Describe::Ref { ty } => {
            if d.r2l_ok() {
                match *ty {
                    Describe::Slice { ty: elem } => {
                        assert(elem.no_function());
                        assert(ty.no_function());
                    },
                    _ => {
                        assert(ty.no_function());
                    },
                }
            }
        },
        _ => {},
    }
}

/// `layout_size` never falls below its accumulator, and each byte size is at
/// least one.
pub proof fn lemma_layout_props(prims: Seq<Primitive>, acc: nat)
    ensures
        layout_size(prims, acc) >= acc,
    decreases prims.len(),
{
    if prims.len() > 0 {
        lemma_round_up(acc, prims[0].spec_byte_size());
        lemma_layout_props(
            prims.drop_first(),
            round_up(acc, prims[0].spec_byte_size()) + prims[0].spec_byte_size(),
        );
    }
}

proof fn lemma_max_byte_size_pos(prims: Seq<Primitive>)
    requires
        prims.len() > 0,
    ensures
        max_byte_size(prims) >= 1,
        max_byte_size(prims) <= 8,
    decreases prims.len(),
{
    lemma_byte_size_bounds(prims[0]);
    if prims.len() > 1 {
        lemma_max_byte_size_pos(prims.drop_first());
    } else {
        assert(prims.drop_first().len() == 0);
        assert(max_byte_size(prims.drop_first()) == 0);
    }
}

pub proof fn lemma_byte_size_bounds(p: Primitive)
    ensures
        1 <= p.spec_byte_size() <= 8,
{
    match p {
        Primitive::U8 => {},
        Primitive::U16 => {},
        Primitive::U32 => {},
        Primitive::I8 => {},
        Primitive::I16 => {},
        Primitive::I32 => {},
        Primitive::F32 => {},
        Primitive::F64 => {},
    }
}

/// Extending a sequence by one primitive takes the maximum with its size.
proof fn lemma_max_byte_size_last(prims: Seq<Primitive>)
    requires
        prims.len() > 0,
    ensures
        max_byte_size(prims) == if prims.last().spec_byte_size() > max_byte_size(
            prims.drop_last(),
        ) {
            prims.last().spec_byte_size()
        } else {
            max_byte_size(prims.drop_last())
        },
    decreases prims.len(),
{
    if prims.len() == 1 {
        assert(prims.drop_last() =~= Seq::<Primitive>::empty());
        assert(prims.drop_first() =~= Seq::<Primitive>::empty());
    } else {
        lemma_max_byte_size_last(prims.drop_first());
        assert(prims.drop_first().drop_last() =~= prims.drop_last().drop_first());
        assert(prims.drop_first().last() == prims.last());
        assert(prims.drop_last()[0] == prims[0]);
    }
}

pub proof fn lemma_memory_size_ge_layout(d: Describe)
    ensures
        d.spec_primitives().len() > 0 ==> layout_size(d.spec_primitives(), 0)
            <= d.spec_memory_size(),
{
    let prims = d.spec_primitives();
    if prims.len() > 0 {
        lemma_max_byte_size_pos(prims);
        lemma_round_up(layout_size(prims, 0), max_byte_size(prims));
    }
}

impl Describe {
    /// The compact wire encoding of this descriptor: its tag, then the tags
    /// of its components.
    pub open spec fn tags_of(self) -> Seq<u32>
        decreases self,
    {
        match self {
            Describe::U8 => seq![U8],
            Describe::U16 => seq![U16],
            Describe::U32 => seq![U32],
            Describe::I8 => seq![I8],
            Describe::I16 => seq![I16],
            Describe::I32 => seq![I32],
            Describe::Boolean => seq![BOOLEAN],
            Describe::Void => seq![VOID],
            Describe::F32 => seq![F32],
            Describe::F64 => seq![F64],
            Describe::ExternRef => seq![EXTERNREF],
            Describe::String => seq![STRING],
            Describe::Vector { ty } => seq![VECTOR] + ty.tags_of(),
            Describe::Slice { ty } => seq![SLICE] + ty.tags_of(),
            Describe::Ref { ty } => seq![REF] + ty.tags_of(),
            Describe::RefMut { ty } => seq![REF_MUT] + ty.tags_of(),
            Describe::Function { args, return_type } => seq![FUNCTION, args@.len() as u32]
                + args_tags(args@) + return_type.tags_of(),
            Describe::Option { ty } => seq![OPTION] + ty.tags_of(),
        }
    }
}

/// The concatenated encodings of an argument list.
pub open spec fn args_tags(s: Seq<Describe>) -> Seq<u32>
    decreases s,
{
    if s.len() == 0 {
        Seq::empty()
    } else {
        s[0].tags_of() + args_tags(s.drop_first())
    }
}

/// One parsing step of the compact wire encoding: reads one descriptor at
/// `pos`, returning it with the position just past its tags. A function
/// signature's argument list is some vector holding the parsed arguments;
/// only what the vector holds is determined, which is all any caller reads.
pub open spec fn spec_parse(s: Seq<u32>, pos: int) -> Option<(Describe, int)>
    decreases s.len() - pos, 0int, 0int,
{
    if pos < 0 || pos >= s.len() {
        Option::None
    } else {
        let tag = s[pos];
        if tag == U8 {
            Option::Some((Describe::U8, pos + 1))
        } else if tag == U16 {
            Option::Some((Describe::U16, pos + 1))
        } else if tag == U32 {
            Option::Some((Describe::U32, pos + 1))
        } else if tag == I8 {
            Option::Some((Describe::I8, pos + 1))
        } else if tag == I16 {
            Option::Some((Describe::I16, pos + 1))
        } else if tag == I32 {
            Option::Some((Describe::I32, pos + 1))
        } else if tag == BOOLEAN {
            Option::Some((Describe::Boolean, pos + 1))
        } else if tag == VOID {
            Option::Some((Describe::Void, pos + 1))
        } else if tag == F32 {
            Option::Some((Describe::F32, pos + 1))
        } else if tag == F64 {
            Option::Some((Describe::F64, pos + 1))
        } else if tag == EXTERNREF {
            Option::Some((Describe::ExternRef, pos + 1))
        } else if tag == STRING {
            Option::Some((Describe::String, pos + 1))
        } else if tag == VECTOR {
            match spec_parse(s, pos + 1) {
                Option::Some((t, e)) => Option::Some(
                    (Describe::Vector { ty: Box::new(t) }, e),
                ),
                Option::None => Option::None,
            }
        } else if tag == SLICE {
            match spec_parse(s, pos + 1) {
                Option::Some((t, e)) => Option::Some(
                    (Describe::Slice { ty: Box::new(t) }, e),
                ),
                Option::None => Option::None,
            }
        } else if tag == REF {
            match spec_parse(s, pos + 1) {
                Option::Some((t, e)) => Option::Some((Describe::Ref { ty: Box::new(t) }, e)),
                Option::None => Option::None,
            }
        } else if tag == REF_MUT {
            match spec_parse(s, pos + 1) {
                Option::Some((t, e)) => Option::Some(
                    (Describe::RefMut { ty: Box::new(t) }, e),
                ),
                Option::None => Option::None,
            }
        } else if tag == OPTION {
            match spec_parse(s, pos + 1) {
                Option::Some((t, e)) => Option::Some(
                    (Describe::Option { ty: Box::new(t) }, e),
                ),
                Option::None => Option::None,
            }
        } else if tag == FUNCTION {
            if pos + 1 >= s.len() {
                Option::None
            } else {
                match spec_parse_args(s, pos + 2, s[pos + 1] as nat) {
                    Option::Some((args, e)) => if pos + 2 <= e <= s.len() {
                        match spec_parse(s, e) {
                            Option::Some((rt, e2)) => Option::Some(
                                (
                                    Describe::Function {
                                        args: (choose|v: Vec<Describe>| v@ == args),
                                        return_type: Box::new(rt),
                                    },
                                    e2,
                                ),
                            ),
                            Option::None => Option::None,
                        }
                    } else {
                        Option::None
                    },
                    Option::None => Option::None,
                }
            }
        } else {
            Option::None
        }
    }
}

/// Reads `n` descriptors in sequence starting at `pos`.
pub open spec fn spec_parse_args(s: Seq<u32>, pos: int, n: nat) -> Option<(Seq<Describe>, int)>
    decreases s.len() - pos, 1int, n,
{
    if n == 0 {
        Option::Some((Seq::empty(), pos))
    } else if pos < 0 || pos >= s.len() {
        Option::None
    } else {
        match spec_parse(s, pos) {
            Option::Some((d, e)) => if pos < e <= s.len() {
                match spec_parse_args(s, e, (n - 1) as nat) {
                    Option::Some((rest, e2)) => Option::Some((seq![d] + rest, e2)),
                    Option::None => Option::None,
                }
            } else {
                Option::None
            },
            Option::None => Option::None,
        }
    }
}

/// Where parsing one descriptor at `pos` ends.
pub open spec fn spec_parse_end(s: Seq<u32>, pos: int) -> int {
    spec_parse(s, pos)->Some_0.1
}

/// Where parsing `n` descriptors at `pos` ends.
pub open spec fn spec_parse_args_end(s: Seq<u32>, pos: int, n: nat) -> int {
    spec_parse_args(s, pos, n)->Some_0.1
}

/// Every argument list in the descriptor is short enough for its count to
/// ride in one tag word.
pub open spec fn bounded_args(d: Describe) -> bool
    decreases d,
{
    match d {
        Describe::Function { args, return_type } => args@.len() <= u32::MAX
            && all_bounded_args(args@) && bounded_args(*return_type),
        Describe::Option { ty } => bounded_args(*ty),
        Describe::Ref { ty } => bounded_args(*ty),
        Describe::RefMut { ty } => bounded_args(*ty),
        Describe::Slice { ty } => bounded_args(*ty),
        Describe::Vector { ty } => bounded_args(*ty),
        _ => true,
    }
}

pub open spec fn all_bounded_args(s: Seq<Describe>) -> bool
    decreases s,
{
    if s.len() == 0 {
        true
    } else {
        bounded_args(s[0]) && all_bounded_args(s.drop_first())
    }
}

impl Describe {
    /// Parses one descriptor from the front of the tag stream; trailing tags
    /// are ignored, and a malformed stream yields nothing. What came out is
    /// pinned by its own encoding: it re-encodes to exactly the tags read.
    pub fn parse(value: &[u32]) -> (r: Option<Describe>)
        ensures
            (r is Some <==> spec_parse(value@, 0) is Some),
            r matches Option::Some(d) ==> {
                &&& 0 < spec_parse_end(value@, 0) <= value@.len()
                &&& d.tags_of() == value@.subrange(0, spec_parse_end(value@, 0))
                &&& bounded_args(d)
            },
    {
        match Describe::_parse(value, 0) {
            Option::Some((d, _)) => Option::Some(d),
            Option::None => Option::None,
        }
    }

    fn _parse(value: &[u32], pos: usize) -> (r: Option<(Describe, usize)>)
        ensures
            (r is Some <==> spec_parse(value@, pos as int) is Some),
            r matches Option::Some(p) ==> {
                &&& pos < p.1 <= value@.len()
                &&& p.1 == spec_parse_end(value@, pos as int)
                &&& p.0.tags_of() == value@.subrange(pos as int, p.1 as int)
                &&& bounded_args(p.0)
            },
        decreases value@.len() - pos, 0int, 0int,
    {
        if pos >= value.len() {
            return Option::None;
        }
        let tag = value[pos];
        if tag == FUNCTION {
            if pos + 1 >= value.len() {
                return Option::None;
            }
            let arg_count = value[pos + 1];
            match Describe::_parse_args(value, pos + 2, arg_count) {
                Option::Some((args, e)) => {
                    match Describe::_parse(value, e) {
                        Option::Some((rt, e2)) => {
                            let r = Describe::Function { args, return_type: Box::new(rt) };
                            proof {
                                assert(r.tags_of() =~= value@.subrange(
                                    pos as int,
                                    e2 as int,
                                )) by {
                                    assert(value@.subrange(pos as int, e2 as int)
                                        =~= value@.subrange(pos as int, pos + 2)
                                        + value@.subrange(pos + 2, e as int)
                                        + value@.subrange(e as int, e2 as int));
                                    assert(value@.subrange(pos as int, pos + 2)
                                        =~= seq![FUNCTION, value@[pos + 1]]);
                                }
                            }
                            Option::Some((r, e2))
                        },
                        Option::None => Option::None,
                    }
                },
                Option::None => Option::None,
            }
        } else if tag == U8 {
            Option::Some((Describe::U8, pos + 1))
        } else if tag == U16 {
            Option::Some((Describe::U16, pos + 1))
        } else if tag == U32 {
            Option::Some((Describe::U32, pos + 1))
        } else if tag == I8 {
            Option::Some((Describe::I8, pos + 1))
        } else if tag == I16 {
            Option::Some((Describe::I16, pos + 1))
        } else if tag == I32 {
            Option::Some((Describe::I32, pos + 1))
        } else if tag == BOOLEAN {
            Option::Some((Describe::Boolean, pos + 1))
        } else if tag == VOID {
            Option::Some((Describe::Void, pos + 1))
        } else if tag == F32 {
            Option::Some((Describe::F32, pos + 1))
        } else if tag == F64 {
            Option::Some((Describe::F64, pos + 1))
        } else if tag == EXTERNREF {
            Option::Some((Describe::ExternRef, pos + 1))
        } else if tag == STRING {
            Option::Some((Describe::String, pos + 1))
        } else if tag == VECTOR {
            match Describe::_parse(value, pos + 1) {
                Option::Some((t, e)) => {
                    let r = Describe::Vector { ty: Box::new(t) };
                    proof {
                        lemma_tag_then_rest(value@, pos as int, e as int, VECTOR);
                    }
                    Option::Some((r, e))
                },
                Option::None => Option::None,
            }
        } else if tag == SLICE {
            match Describe::_parse(value, pos + 1) {
                Option::Some((t, e)) => {
                    let r = Describe::Slice { ty: Box::new(t) };
                    proof {
                        lemma_tag_then_rest(value@, pos as int, e as int, SLICE);
                    }
                    Option::Some((r, e))
                },
                Option::None => Option::None,
            }
        } else if tag == REF {
            match Describe::_parse(value, pos + 1) {
                Option::Some((t, e)) => {
                    let r = Describe::Ref { ty: Box::new(t) };
                    proof {
                        lemma_tag_then_rest(value@, pos as int, e as int, REF);
                    }
                    Option::Some((r, e))
                },
                Option::None => Option::None,
            }
        } else if tag == REF_MUT {
            match Describe::_parse(value, pos + 1) {
                Option::Some((t, e)) => {
                    let r = Describe::RefMut { ty: Box::new(t) };
                    proof {
                        lemma_tag_then_rest(value@, pos as int, e as int, REF_MUT);
                    }
                    Option::Some((r, e))
                },
                Option::None => Option::None,
            }
        } else if tag == OPTION {
            match Describe::_parse(value, pos + 1) {
                Option::Some((t, e)) => {
                    let r = Describe::Option { ty: Box::new(t) };
                    proof {
                        lemma_tag_then_rest(value@, pos as int, e as int, OPTION);
                    }
                    Option::Some((r, e))
                },
                Option::None => Option::None,
            }
        } else {
            Option::None
        }
    }

    fn _parse_args(value: &[u32], pos: usize, n: u32) -> (r: Option<(Vec<Describe>, usize)>)
        requires
            pos <= value@.len(),
        ensures
            (r is Some <==> spec_parse_args(value@, pos as int, n as nat) is Some),
            r matches Option::Some(p) ==> {
                &&& pos <= p.1 <= value@.len()
                &&& p.1 == spec_parse_args_end(value@, pos as int, n as nat)
                &&& args_tags(p.0@) == value@.subrange(pos as int, p.1 as int)
                &&& p.0@.len() == n
                &&& all_bounded_args(p.0@)
            },
        decreases value@.len() - pos, 1int, n,
    {
        if n == 0 {
            let r: Vec<Describe> = Vec::new();
            proof {
                assert(r@ =~= Seq::<Describe>::empty());
                assert(args_tags(r@) =~= value@.subrange(pos as int, pos as int));
            }
            return Option::Some((r, pos));
        }
        if pos >= value.len() {
            return Option::None;
        }
        match Describe::_parse(value, pos) {
            Option::Some((d, e)) => {
                match Describe::_parse_args(value, e, n - 1) {
                    Option::Some((rest0, e2)) => {
                        let mut out: Vec<Describe> = Vec::new();
                        out.push(d);
                        let mut rest = rest0;
                        out.append(&mut rest);
                        proof {
                            assert(out@.drop_first() =~= out@.subrange(1, out@.len() as int));
                            assert(out@[0].tags_of() + args_tags(out@.drop_first())
                                =~= value@.subrange(pos as int, e2 as int)) by {
                                assert(out@.drop_first() =~= rest0@);
                                assert(value@.subrange(pos as int, e2 as int)
                                    =~= value@.subrange(pos as int, e as int)
                                    + value@.subrange(e as int, e2 as int));
                            }
                            assert(all_bounded_args(out@)) by {
                                assert(out@.drop_first() =~= rest0@);
                                assert(out@[0] == d);
                            }
                        }
                        Option::Some((out, e2))
                    },
                    Option::None => Option::None,
                }
            },
            Option::None => Option::None,
        }
    }
}

/// A wrapper descriptor's tags are its tag word followed by its component's
/// tags, so a parsed component yields the wrapper's subrange.
proof fn lemma_tag_then_rest(s: Seq<u32>, pos: int, e: int, tag: u32)
    requires
        0 <= pos < pos + 1 <= e <= s.len(),
        s[pos] == tag,
    ensures
        seq![tag] + s.subrange(pos + 1, e) =~= s.subrange(pos, e),
{
}

/// Every descriptor's encoding is at least one tag long.
pub proof fn lemma_tags_len_pos(d: Describe)
    ensures
        d.tags_of().len() >= 1,
    decreases d,
{
}

/// Parsing from a well-formed encoding succeeds and consumes exactly the
/// encoding: the parser inverts `tags_of`.
pub proof fn lemma_parse_encoding(s: Seq<u32>, pos: int, d: Describe)
    requires
        0 <= pos,
        pos + d.tags_of().len() <= s.len(),
        s.subrange(pos, pos + d.tags_of().len()) == d.tags_of(),
        bounded_args(d),
    ensures
        spec_parse(s, pos) is Some,
        spec_parse_end(s, pos) == pos + d.tags_of().len(),
    decreases d, 0int,
{
    lemma_tags_len_pos(d);
    let tlen = d.tags_of().len() as int;
    assert(s[pos] == d.tags_of()[0]) by {
        assert(s.subrange(pos, pos + tlen)[0] == s[pos]);
    }
    match d {
        Describe::Vector { ty } => {
            lemma_wrapper_step(s, pos, d.tags_of(), ty.tags_of());
            lemma_parse_encoding(s, pos + 1, *ty);
        },
        Describe::Slice { ty } => {
            lemma_wrapper_step(s, pos, d.tags_of(), ty.tags_of());
            lemma_parse_encoding(s, pos + 1, *ty);
        },
        Describe::Ref { ty } => {
            lemma_wrapper_step(s, pos, d.tags_of(), ty.tags_of());
            lemma_parse_encoding(s, pos + 1, *ty);
        },
        Describe::RefMut { ty } => {
            lemma_wrapper_step(s, pos, d.tags_of(), ty.tags_of());
            lemma_parse_encoding(s, pos + 1, *ty);
        },
        Describe::Option { ty } => {
            lemma_wrapper_step(s, pos, d.tags_of(), ty.tags_of());
            lemma_parse_encoding(s, pos + 1, *ty);
        },
        Describe::Function { args, return_type } => {
            let atags = args_tags(args@);
            let rtags = return_type.tags_of();
            assert(s[pos + 1] == d.tags_of()[1]) by {
                assert(s.subrange(pos, pos + tlen)[1] == s[pos + 1]);
            }
            assert(s[pos + 1] == args@.len() as u32);
            assert(s.subrange(pos + 2, pos + 2 + atags.len()) =~= atags) by {
                assert forall|i: int| 0 <= i < atags.len() implies s.subrange(
                    pos + 2,
                    pos + 2 + atags.len(),
                )[i] == atags[i] by {
                    assert(s.subrange(pos, pos + tlen)[2 + i] == s[pos + 2 + i]);
                    assert(d.tags_of()[2 + i] == atags[i]);
                }
            }
            lemma_parse_args_encoding(s, pos + 2, args@);
            let e = pos + 2 + atags.len();
            assert(s.subrange(e, e + rtags.len()) =~= rtags) by {
                assert forall|i: int| 0 <= i < rtags.len() implies s.subrange(
                    e,
                    e + rtags.len(),
                )[i] == rtags[i] by {
                    assert(s.subrange(pos, pos + tlen)[2 + atags.len() + i] == s[e + i]);
                    assert(d.tags_of()[2 + atags.len() + i] == rtags[i]);
                }
            }
            lemma_parse_encoding(s, e, *return_type);
        },
        _ => {},
    }
}

/// Positions the component encoding of a one-tag wrapper.
proof fn lemma_wrapper_step(s: Seq<u32>, pos: int, wtags: Seq<u32>, itags: Seq<u32>)
    requires
        0 <= pos,
        pos + wtags.len() <= s.len(),
        s.subrange(pos, pos + wtags.len()) == wtags,
        wtags.len() == 1 + itags.len(),
        forall|i: int| 0 <= i < itags.len() ==> wtags[1 + i] == itags[i],
    ensures
        s.subrange(pos + 1, pos + 1 + itags.len()) == itags,
{
    assert(s.subrange(pos + 1, pos + 1 + itags.len()) =~= itags) by {
        assert forall|i: int| 0 <= i < itags.len() implies s.subrange(
            pos + 1,
            pos + 1 + itags.len(),
        )[i] == itags[i] by {
            assert(s.subrange(pos, pos + wtags.len())[1 + i] == s[pos + 1 + i]);
        }
    }
}

/// Parsing a well-formed argument-list encoding reads every argument.
pub proof fn lemma_parse_args_encoding(s: Seq<u32>, pos: int, args: Seq<Describe>)
    requires
        0 <= pos,
        pos + args_tags(args).len() <= s.len(),
        s.subrange(pos, pos + args_tags(args).len()) == args_tags(args),
        all_bounded_args(args),
    ensures
        spec_parse_args(s, pos, args.len()) is Some,
        spec_parse_args_end(s, pos, args.len()) == pos + args_tags(args).len(),
    decreases args, 0int,
{
    if args.len() > 0 {
        let head = args[0];
        let htags = head.tags_of();
        let rest = args.drop_first();
        let rtags = args_tags(rest);
        lemma_tags_len_pos(head);
        assert(s.subrange(pos, pos + htags.len()) =~= htags) by {
            assert forall|i: int| 0 <= i < htags.len() implies s.subrange(
                pos,
                pos + htags.len(),
            )[i] == htags[i] by {
                assert(s.subrange(pos, pos + args_tags(args).len())[i] == s[pos + i]);
                assert(args_tags(args)[i] == htags[i]);
            }
        }
        lemma_parse_encoding(s, pos, head);
        let e = pos + htags.len();
        assert(s.subrange(e, e + rtags.len()) =~= rtags) by {
            assert forall|i: int| 0 <= i < rtags.len() implies s.subrange(
                e,
                e + rtags.len(),
            )[i] == rtags[i] by {
                assert(s.subrange(pos, pos + args_tags(args).len())[htags.len() + i] == s[e
                    + i]);
                assert(args_tags(args)[htags.len() + i] == rtags[i]);
            }
        }
        lemma_parse_args_encoding(s, e, rest);
    }
}

/// The descriptor codec round trip: a well-formed encoding, with anything
/// after it, parses, and exactly the encoding is consumed.
pub proof fn lemma_parse_round_trip(d: Describe, rest: Seq<u32>)
    requires
        bounded_args(d),
    ensures
        spec_parse(d.tags_of() + rest, 0) is Some,
        spec_parse_end(d.tags_of() + rest, 0) == d.tags_of().len(),
{
    let s = d.tags_of() + rest;
    assert(s.subrange(0, d.tags_of().len() as int) =~= d.tags_of());
    lemma_parse_encoding(s, 0, d);
}

/// The bytes the primitives of a descriptor occupy, padding aside.
pub open spec fn sum_byte_sizes(prims: Seq<Primitive>) -> nat
    decreases prims.len(),
{
    if prims.len() == 0 {
        0
    } else {
        prims[0].spec_byte_size() + sum_byte_sizes(prims.drop_first())
    }
}

/// The self-aligned offset at which primitive `i` of the layout is placed.
pub open spec fn aligned_offset(prims: Seq<Primitive>, i: int) -> nat {
    round_up(layout_size(prims.take(i), 0), prims[i].spec_byte_size())
}

proof fn lemma_layout_ge_sum(prims: Seq<Primitive>, acc: nat)
    ensures
        layout_size(prims, acc) >= acc + sum_byte_sizes(prims),
    decreases prims.len(),
{
    if prims.len() > 0 {
        lemma_round_up(acc, prims[0].spec_byte_size());
        lemma_layout_ge_sum(
            prims.drop_first(),
            round_up(acc, prims[0].spec_byte_size()) + prims[0].spec_byte_size(),
        );
    }
}

/// The aligned layout law: the memory footprint covers every primitive's
/// bytes, and each primitive sits at an offset that is a multiple of its own
/// byte size.
pub proof fn lemma_memory_layout(d: Describe)
    ensures
        d.spec_memory_size() >= sum_byte_sizes(d.spec_primitives()),
        forall|i: int|
            0 <= i < d.spec_primitives().len() ==> #[trigger] aligned_offset(
                d.spec_primitives(),
                i,
            ) as int % (d.spec_primitives()[i].spec_byte_size() as int) == 0,
{
    let prims = d.spec_primitives();
    lemma_layout_ge_sum(prims, 0);
    if prims.len() > 0 {
        lemma_max_byte_size_pos(prims);
        lemma_round_up(layout_size(prims, 0), max_byte_size(prims));
    }
    assert forall|i: int| 0 <= i < prims.len() implies #[trigger] aligned_offset(prims, i) as int
        % (prims[i].spec_byte_size() as int) == 0 by {
        lemma_byte_size_bounds(prims[i]);
        lemma_round_up(layout_size(prims.take(i), 0), prims[i].spec_byte_size());
    }
}

/// The nesting depth never exceeds the encoding's length.
pub proof fn lemma_height_le_tags(d: Describe)
    ensures
        d.height() <= d.tags_of().len(),
    decreases d,
{
    match d {
        Describe::Option { ty } => lemma_height_le_tags(*ty),
        Describe::Ref { ty } => lemma_height_le_tags(*ty),
        Describe::RefMut { ty } => lemma_height_le_tags(*ty),
        Describe::Slice { ty } => lemma_height_le_tags(*ty),
        Describe::Vector { ty } => lemma_height_le_tags(*ty),
        _ => {},
    }
}

/// The slot count never exceeds twice the encoding's length.
pub proof fn lemma_vc_le_tags(d: Describe)
    ensures
        d.spec_value_count() <= 2 * d.tags_of().len(),
    decreases d,
{
    match d {
        Describe::Option { ty } => lemma_vc_le_tags(*ty),
        Describe::Ref { ty } => lemma_vc_le_tags(*ty),
        Describe::RefMut { ty } => lemma_vc_le_tags(*ty),
        _ => {
            lemma_tags_len_pos(d);
        },
    }
}

/// Each primitive contributes at most fifteen bytes to the aligned layout:
/// up to seven bytes of padding and up to eight of payload.
pub proof fn lemma_layout_le(prims: Seq<Primitive>, acc: nat)
    ensures
        layout_size(prims, acc) <= acc + 15 * prims.len(),
    decreases prims.len(),
{
    if prims.len() > 0 {
        lemma_byte_size_bounds(prims[0]);
        lemma_round_up(acc, prims[0].spec_byte_size());
        lemma_layout_le(
            prims.drop_first(),
            round_up(acc, prims[0].spec_byte_size()) + prims[0].spec_byte_size(),
        );
    }
}

/// The aligned memory size never exceeds thirty times the encoding's length,
/// plus final padding.
pub proof fn lemma_mem_le_tags(d: Describe)
    ensures
        d.spec_memory_size() <= 30 * d.tags_of().len() + 7,
{
    let prims = d.spec_primitives();
    if prims.len() > 0 {
        lemma_layout_le(prims, 0);
        lemma_max_byte_size_pos(prims);
        lemma_round_up(layout_size(prims, 0), max_byte_size(prims));
        lemma_value_count_primitives(d);
        lemma_vc_le_tags(d);
    }
}

/// One bound to check at run time: an encoding short enough leaves every
/// size of the descriptor, and of its components, within machine range.
pub proof fn lemma_sizes_ok_from_tags(d: Describe)
    requires
        d.tags_of().len() <= usize::MAX / 64,
    ensures
        d.sizes_ok(),
    decreases d,
{
    lemma_vc_le_tags(d);
    lemma_mem_le_tags(d);
    match d {
        Describe::Option { ty } => {
            lemma_tags_len_pos(*ty);
            lemma_sizes_ok_from_tags(*ty);
        },
        Describe::Ref { ty } => {
            lemma_tags_len_pos(*ty);
            lemma_sizes_ok_from_tags(*ty);
        },
        Describe::RefMut { ty } => {
            lemma_tags_len_pos(*ty);
            lemma_sizes_ok_from_tags(*ty);
        },
        Describe::Slice { ty } => {
            lemma_tags_len_pos(*ty);
            lemma_sizes_ok_from_tags(*ty);
        },
        Describe::Vector { ty } => {
            lemma_tags_len_pos(*ty);
            lemma_sizes_ok_from_tags(*ty);
        },
        _ => {},
    }
}

/// Each argument's encoding sits inside the list's encoding.
pub proof fn lemma_args_tags_le(s: Seq<Describe>, k: int)
    requires
        0 <= k < s.len(),
    ensures
        s[k].tags_of().len() <= args_tags(s).len(),
    decreases s,
{
    if k > 0 {
        lemma_args_tags_le(s.drop_first(), k - 1);
        assert(s.drop_first()[k - 1] == s[k]);
    }
}

/// The combined slot count of a list never exceeds twice its encoding.
pub proof fn lemma_sum_args_vc(s: Seq<Describe>)
    ensures
        crate::instructions::sum_vc(s) <= 2 * args_tags(s).len(),
    decreases s,
{
    if s.len() > 0 {
        lemma_vc_le_tags(s[0]);
        lemma_sum_args_vc(s.drop_first());
    }
}

} // verus!
