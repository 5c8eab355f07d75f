//! The metadata carried from compile time to build time: the lists of
//! described imports, exports, main functions and intrinsics that the
//! annotation front end records in the module's custom section.

use vstd::prelude::*;

use vstd::bytes::{spec_u64_from_le_bytes, spec_u64_to_le_bytes};
use vstd::utf8::{decode_utf8, encode_utf8, valid_utf8};

verus! {

/// Everything one translation unit contributes to the custom section.
#[derive(Debug)]
pub struct SharedContext {
    pub imports: Vec<SharedImportFunction>,
    pub exports: Vec<SharedExportFunction>,
    pub main_fns: Vec<String>,
    pub intrinsics: Vec<SharedIntrinsic>,
}

/// A foreign declaration the guest wants resolved against script code.
#[derive(Debug)]
pub struct SharedImportFunction {
    pub rust_name: String,
    pub luau_name: String,
    pub describe_name: String,
    pub export_name: String,
}

/// A guest function the script side should be able to call.
#[derive(Debug)]
pub struct SharedExportFunction {
    pub rust_name: String,
    pub luau_name: String,
    pub export_name: String,
    pub describe_name: String,
}

/// A guest helper the generated trampolines may call, such as the allocator.
#[derive(Debug)]
pub struct SharedIntrinsic {
    pub name: String,
    pub export_name: String,
}

/// A described import as plain character sequences: rust name, script name,
/// describe symbol, trampoline symbol.
pub open spec fn import_view(f: SharedImportFunction) -> (
    Seq<char>,
    Seq<char>,
    Seq<char>,
    Seq<char>,
) {
    (f.rust_name@, f.luau_name@, f.describe_name@, f.export_name@)
}

/// A described export as plain character sequences: rust name, script name,
/// trampoline symbol, describe symbol.
pub open spec fn export_view(f: SharedExportFunction) -> (
    Seq<char>,
    Seq<char>,
    Seq<char>,
    Seq<char>,
) {
    (f.rust_name@, f.luau_name@, f.export_name@, f.describe_name@)
}

/// An intrinsic as plain character sequences: logical name, export symbol.
pub open spec fn intrinsic_view(i: SharedIntrinsic) -> (Seq<char>, Seq<char>) {
    (i.name@, i.export_name@)
}

impl SharedContext {
    pub open spec fn imports_view(self) -> Seq<(Seq<char>, Seq<char>, Seq<char>, Seq<char>)> {
        self.imports@.map_values(|f: SharedImportFunction| import_view(f))
    }

    pub open spec fn exports_view(self) -> Seq<(Seq<char>, Seq<char>, Seq<char>, Seq<char>)> {
        self.exports@.map_values(|f: SharedExportFunction| export_view(f))
    }

    pub open spec fn mains_view(self) -> Seq<Seq<char>> {
        self.main_fns@.map_values(|s: String| s@)
    }

    pub open spec fn intrinsics_view(self) -> Seq<(Seq<char>, Seq<char>)> {
        self.intrinsics@.map_values(|i: SharedIntrinsic| intrinsic_view(i))
    }
}

/// A length prefix: eight little-endian bytes.
pub open spec fn enc_len(n: nat) -> Seq<u8> {
    spec_u64_to_le_bytes(n as u64)
}

/// A string on the wire: its byte length, then its UTF-8 bytes.
pub open spec fn enc_str(s: Seq<char>) -> Seq<u8> {
    enc_len(encode_utf8(s).len()) + encode_utf8(s)
}

/// A four-string record on the wire: the fields in order.
pub open spec fn enc_rec4(v: (Seq<char>, Seq<char>, Seq<char>, Seq<char>)) -> Seq<u8> {
    enc_str(v.0) + enc_str(v.1) + enc_str(v.2) + enc_str(v.3)
}

/// A two-string record on the wire.
pub open spec fn enc_rec2(v: (Seq<char>, Seq<char>)) -> Seq<u8> {
    enc_str(v.0) + enc_str(v.1)
}

pub open spec fn enc_rec4_items(s: Seq<(Seq<char>, Seq<char>, Seq<char>, Seq<char>)>) -> Seq<
    u8,
>
    decreases s.len(),
{
    if s.len() == 0 {
        Seq::empty()
    } else {
        enc_rec4(s[0]) + enc_rec4_items(s.drop_first())
    }
}

pub open spec fn enc_rec2_items(s: Seq<(Seq<char>, Seq<char>)>) -> Seq<u8>
    decreases s.len(),
{
    if s.len() == 0 {
        Seq::empty()
    } else {
        enc_rec2(s[0]) + enc_rec2_items(s.drop_first())
    }
}

pub open spec fn enc_str_items(s: Seq<Seq<char>>) -> Seq<u8>
    decreases s.len(),
{
    if s.len() == 0 {
        Seq::empty()
    } else {
        enc_str(s[0]) + enc_str_items(s.drop_first())
    }
}

/// A whole record on the wire: each list is its count, then its items.
pub open spec fn enc_ctx(c: SharedContext) -> Seq<u8> {
    enc_len(c.imports@.len()) + enc_rec4_items(c.imports_view()) + enc_len(c.exports@.len())
        + enc_rec4_items(c.exports_view()) + enc_len(c.main_fns@.len()) + enc_str_items(
        c.mains_view(),
    ) + enc_len(c.intrinsics@.len()) + enc_rec2_items(c.intrinsics_view())
}

fn push_u64(out: &mut Vec<u8>, n: u64)
    ensures
        final(out)@ == old(out)@ + spec_u64_to_le_bytes(n),
{
    let mut bytes = vstd::bytes::u64_to_le_bytes(n);
    out.append(&mut bytes);
}

fn push_str(out: &mut Vec<u8>, s: &String)
    ensures
        final(out)@ == old(out)@ + enc_str(s@),
{
    let bytes = s.as_str().as_bytes();
    push_u64(out, bytes.len() as u64);
    let mut byte_vec = vstd::slice::slice_to_vec(bytes);
    out.append(&mut byte_vec);
    proof {
        assert(final(out)@ =~= old(out)@ + enc_str(s@));
    }
}

/// Encodes the metadata record in the custom section's wire layout.
#[verifier::rlimit(100)]
#[verifier::spinoff_prover]
pub fn encode(context: &SharedContext) -> (r: Vec<u8>)
    ensures
        r@ == enc_ctx(*context),
{
    let mut out: Vec<u8> = Vec::new();
    push_u64(&mut out, context.imports.len() as u64);
    let ghost iv = context.imports_view();
    let mut i: usize = 0;
    while i < context.imports.len()
        invariant
            0 <= i <= context.imports@.len(),
            iv == context.imports_view(),
            out@ == enc_len(context.imports@.len() as nat) + enc_rec4_items(
                iv.take(i as int),
            ),
        decreases context.imports@.len() - i,
    {
        let f = &context.imports[i];
        push_str(&mut out, &f.rust_name);
        push_str(&mut out, &f.luau_name);
        push_str(&mut out, &f.describe_name);
        push_str(&mut out, &f.export_name);
        i = i + 1;
        proof {
            lemma_rec4_items_take(iv, i as int);
            assert(out@ =~= enc_len(context.imports@.len() as nat) + enc_rec4_items(
                iv.take(i as int),
            ));
        }
    }
    proof {
        assert(iv.take(iv.len() as int) =~= iv);
    }
    push_u64(&mut out, context.exports.len() as u64);
    let ghost ev = context.exports_view();
    let ghost out1 = out@;
    let mut i2: usize = 0;
    while i2 < context.exports.len()
        invariant
            0 <= i2 <= context.exports@.len(),
            ev == context.exports_view(),
            out@ == out1 + enc_rec4_items(ev.take(i2 as int)),
        decreases context.exports@.len() - i2,
    {
        let f = &context.exports[i2];
        push_str(&mut out, &f.rust_name);
        push_str(&mut out, &f.luau_name);
        push_str(&mut out, &f.export_name);
        push_str(&mut out, &f.describe_name);
        i2 = i2 + 1;
        proof {
            lemma_rec4_items_take(ev, i2 as int);
            assert(out@ =~= out1 + enc_rec4_items(ev.take(i2 as int)));
        }
    }
    proof {
        assert(ev.take(ev.len() as int) =~= ev);
    }
    push_u64(&mut out, context.main_fns.len() as u64);
    let ghost mv = context.mains_view();
    let ghost out2 = out@;
    let mut i3: usize = 0;
    while i3 < context.main_fns.len()
        invariant
            0 <= i3 <= context.main_fns@.len(),
            mv == context.mains_view(),
            out@ == out2 + enc_str_items(mv.take(i3 as int)),
        decreases context.main_fns@.len() - i3,
    {
        push_str(&mut out, &context.main_fns[i3]);
        i3 = i3 + 1;
        proof {
            lemma_str_items_take(mv, i3 as int);
            assert(out@ =~= out2 + enc_str_items(mv.take(i3 as int)));
        }
    }
    proof {
        assert(mv.take(mv.len() as int) =~= mv);
    }
    push_u64(&mut out, context.intrinsics.len() as u64);
    let ghost nv = context.intrinsics_view();
    let ghost out3 = out@;
    let mut i4: usize = 0;
    while i4 < context.intrinsics.len()
        invariant
            0 <= i4 <= context.intrinsics@.len(),
            nv == context.intrinsics_view(),
            out@ == out3 + enc_rec2_items(nv.take(i4 as int)),
        decreases context.intrinsics@.len() - i4,
    {
        let f = &context.intrinsics[i4];
        push_str(&mut out, &f.name);
        push_str(&mut out, &f.export_name);
        i4 = i4 + 1;
        proof {
            lemma_rec2_items_take(nv, i4 as int);
            assert(out@ =~= out3 + enc_rec2_items(nv.take(i4 as int)));
        }
    }
    proof {
        assert(nv.take(nv.len() as int) =~= nv);
        assert(out@ =~= enc_ctx(*context));
    }
    out
}

proof fn lemma_rec4_items_take(s: Seq<(Seq<char>, Seq<char>, Seq<char>, Seq<char>)>, i: int)
    requires
        1 <= i <= s.len(),
    ensures
        enc_rec4_items(s.take(i)) == enc_rec4_items(s.take(i - 1)) + enc_rec4(s[i - 1]),
    decreases i,
{
    if i == 1 {
        assert(s.take(1)[0] == s[0]);
        assert(s.take(1).drop_first() =~= s.take(0));
        assert(enc_rec4_items(s.take(1)) =~= enc_rec4_items(s.take(0)) + enc_rec4(s[0]));
    } else {
        lemma_rec4_items_take(s.drop_first(), i - 1);
        assert(s.take(i).drop_first() =~= s.drop_first().take(i - 1));
        assert(s.take(i - 1).drop_first() =~= s.drop_first().take(i - 2));
        assert(s.take(i)[0] == s[0]);
        assert(s.take(i - 1)[0] == s[0]);
        assert(s.drop_first()[i - 2] == s[i - 1]);
        assert(enc_rec4_items(s.take(i)) =~= enc_rec4_items(s.take(i - 1)) + enc_rec4(
            s[i - 1],
        ));
    }
}

proof fn lemma_rec2_items_take(s: Seq<(Seq<char>, Seq<char>)>, i: int)
    requires
        1 <= i <= s.len(),
    ensures
        enc_rec2_items(s.take(i)) == enc_rec2_items(s.take(i - 1)) + enc_rec2(s[i - 1]),
    decreases i,
{
    if i == 1 {
        assert(s.take(1)[0] == s[0]);
        assert(s.take(1).drop_first() =~= s.take(0));
        assert(enc_rec2_items(s.take(1)) =~= enc_rec2_items(s.take(0)) + enc_rec2(s[0]));
    } else {
        lemma_rec2_items_take(s.drop_first(), i - 1);
        assert(s.take(i).drop_first() =~= s.drop_first().take(i - 1));
        assert(s.take(i - 1).drop_first() =~= s.drop_first().take(i - 2));
        assert(s.take(i)[0] == s[0]);
        assert(s.take(i - 1)[0] == s[0]);
        assert(s.drop_first()[i - 2] == s[i - 1]);
        assert(enc_rec2_items(s.take(i)) =~= enc_rec2_items(s.take(i - 1)) + enc_rec2(
            s[i - 1],
        ));
    }
}

proof fn lemma_str_items_take(s: Seq<Seq<char>>, i: int)
    requires
        1 <= i <= s.len(),
    ensures
        enc_str_items(s.take(i)) == enc_str_items(s.take(i - 1)) + enc_str(s[i - 1]),
    decreases i,
{
    if i == 1 {
        assert(s.take(1)[0] == s[0]);
        assert(s.take(1).drop_first() =~= s.take(0));
        assert(enc_str_items(s.take(1)) =~= enc_str_items(s.take(0)) + enc_str(s[0]));
    } else {
        lemma_str_items_take(s.drop_first(), i - 1);
        assert(s.take(i).drop_first() =~= s.drop_first().take(i - 1));
        assert(s.take(i - 1).drop_first() =~= s.drop_first().take(i - 2));
        assert(s.take(i)[0] == s[0]);
        assert(s.take(i - 1)[0] == s[0]);
        assert(s.drop_first()[i - 2] == s[i - 1]);
        assert(enc_str_items(s.take(i)) =~= enc_str_items(s.take(i - 1)) + enc_str(
            s[i - 1],
        ));
    }
}

/// One length prefix read.
pub open spec fn dec_len(s: Seq<u8>, pos: int) -> Option<(u64, int)> {
    if pos < 0 || pos + 8 > s.len() {
        Option::None
    } else {
        Option::Some((spec_u64_from_le_bytes(s.subrange(pos, pos + 8)), pos + 8))
    }
}

/// One string read: its length, then that many bytes, which must be UTF-8.
pub open spec fn dec_str(s: Seq<u8>, pos: int) -> Option<(Seq<char>, int)> {
    match dec_len(s, pos) {
        Option::Some((n, p)) => if p + n <= s.len() && valid_utf8(s.subrange(p, p + n)) {
            Option::Some((decode_utf8(s.subrange(p, p + n)), p + n))
        } else {
            Option::None
        },
        Option::None => Option::None,
    }
}

/// One four-string record read.
pub open spec fn dec_rec4(s: Seq<u8>, pos: int) -> Option<
    ((Seq<char>, Seq<char>, Seq<char>, Seq<char>), int),
> {
    match dec_str(s, pos) {
        Option::Some((a, p1)) => match dec_str(s, p1) {
            Option::Some((b, p2)) => match dec_str(s, p2) {
                Option::Some((c, p3)) => match dec_str(s, p3) {
                    Option::Some((d, p4)) => Option::Some(((a, b, c, d), p4)),
                    Option::None => Option::None,
                },
                Option::None => Option::None,
            },
            Option::None => Option::None,
        },
        Option::None => Option::None,
    }
}

/// One two-string record read.
pub open spec fn dec_rec2(s: Seq<u8>, pos: int) -> Option<((Seq<char>, Seq<char>), int)> {
    match dec_str(s, pos) {
        Option::Some((a, p1)) => match dec_str(s, p1) {
            Option::Some((b, p2)) => Option::Some(((a, b), p2)),
            Option::None => Option::None,
        },
        Option::None => Option::None,
    }
}

pub open spec fn dec_rec4_items(s: Seq<u8>, pos: int, n: nat) -> Option<
    (Seq<(Seq<char>, Seq<char>, Seq<char>, Seq<char>)>, int),
>
    decreases n,
{
    if n == 0 {
        Option::Some((Seq::empty(), pos))
    } else {
        match dec_rec4(s, pos) {
            Option::Some((v, p)) => match dec_rec4_items(s, p, (n - 1) as nat) {
                Option::Some((rest, e)) => Option::Some((seq![v] + rest, e)),
                Option::None => Option::None,
            },
            Option::None => Option::None,
        }
    }
}

pub open spec fn dec_rec2_items(s: Seq<u8>, pos: int, n: nat) -> Option<
    (Seq<(Seq<char>, Seq<char>)>, int),
>
    decreases n,
{
    if n == 0 {
        Option::Some((Seq::empty(), pos))
    } else {
        match dec_rec2(s, pos) {
            Option::Some((v, p)) => match dec_rec2_items(s, p, (n - 1) as nat) {
                Option::Some((rest, e)) => Option::Some((seq![v] + rest, e)),
                Option::None => Option::None,
            },
            Option::None => Option::None,
        }
    }
}

pub open spec fn dec_str_items(s: Seq<u8>, pos: int, n: nat) -> Option<(Seq<Seq<char>>, int)>
    decreases n,
{
    if n == 0 {
        Option::Some((Seq::empty(), pos))
    } else {
        match dec_str(s, pos) {
            Option::Some((v, p)) => match dec_str_items(s, p, (n - 1) as nat) {
                Option::Some((rest, e)) => Option::Some((seq![v] + rest, e)),
                Option::None => Option::None,
            },
            Option::None => Option::None,
        }
    }
}

/// One whole record read: the four lists, each its count then its items.
pub open spec fn dec_record(s: Seq<u8>, pos: int) -> Option<
    (
        (
            Seq<(Seq<char>, Seq<char>, Seq<char>, Seq<char>)>,
            Seq<(Seq<char>, Seq<char>, Seq<char>, Seq<char>)>,
            Seq<Seq<char>>,
            Seq<(Seq<char>, Seq<char>)>,
        ),
        int,
    ),
> {
    match dec_len(s, pos) {
        Option::Some((n1, p1)) => match dec_rec4_items(s, p1, n1 as nat) {
            Option::Some((imports, p2)) => match dec_len(s, p2) {
                Option::Some((n2, p3)) => match dec_rec4_items(s, p3, n2 as nat) {
                    Option::Some((exports, p4)) => match dec_len(s, p4) {
                        Option::Some((n3, p5)) => match dec_str_items(s, p5, n3 as nat) {
                            Option::Some((mains, p6)) => match dec_len(s, p6) {
                                Option::Some((n4, p7)) => match dec_rec2_items(
                                    s,
                                    p7,
                                    n4 as nat,
                                ) {
                                    Option::Some((intr, p8)) => Option::Some(
                                        ((imports, exports, mains, intr), p8),
                                    ),
                                    Option::None => Option::None,
                                },
                                Option::None => Option::None,
                            },
                            Option::None => Option::None,
                        },
                        Option::None => Option::None,
                    },
                    Option::None => Option::None,
                },
                Option::None => Option::None,
            },
            Option::None => Option::None,
        },
        Option::None => Option::None,
    }
}

/// Every record from `pos` to the first malformed one, their lists
/// catenated in order.
pub open spec fn dec_all(s: Seq<u8>, pos: int) -> (
    Seq<(Seq<char>, Seq<char>, Seq<char>, Seq<char>)>,
    Seq<(Seq<char>, Seq<char>, Seq<char>, Seq<char>)>,
    Seq<Seq<char>>,
    Seq<(Seq<char>, Seq<char>)>,
)
    decreases s.len() - pos,
{
    match dec_record(s, pos) {
        Option::Some((r, p)) => if pos < p <= s.len() {
            let rest = dec_all(s, p);
            (r.0 + rest.0, r.1 + rest.1, r.2 + rest.2, r.3 + rest.3)
        } else {
            r
        },
        Option::None => (Seq::empty(), Seq::empty(), Seq::empty(), Seq::empty()),
    }
}

/// Relies on str::from_utf8: it succeeds exactly on UTF-8 input, and the
/// resulting string's characters re-encode to the given bytes.
#[verifier::external_body]
fn bytes_to_string(v: &[u8]) -> (r: Option<String>)
    ensures
        r is Some <==> valid_utf8(v@),
        r matches Option::Some(s) ==> encode_utf8(s@) == v@,
{
    match std::str::from_utf8(v) {
        Ok(s) => Option::Some(s.to_owned()),
        Err(_) => Option::None,
    }
}

fn read_u64(content: &[u8], pos: usize) -> (r: Option<(u64, usize)>)
    ensures
        match r {
            Option::Some(p) => dec_len(content@, pos as int) == Option::Some((p.0, p.1 as int))
                && pos < p.1 <= content@.len(),
            Option::None => dec_len(content@, pos as int) is None,
        },
{
    if content.len() < 8 || pos > content.len() - 8 {
        return Option::None;
    }
    let bytes = vstd::slice::slice_subrange(content, pos, pos + 8);
    let n = vstd::bytes::u64_from_le_bytes(bytes);
    Option::Some((n, pos + 8))
}

fn read_str(content: &[u8], pos: usize) -> (r: Option<(String, usize)>)
    ensures
        match r {
            Option::Some(p) => dec_str(content@, pos as int) == Option::Some(
                (p.0@, p.1 as int),
            ) && pos < p.1 <= content@.len(),
            Option::None => dec_str(content@, pos as int) is None,
        },
{
    let (n, p) = match read_u64(content, pos) {
        Option::Some(x) => x,
        Option::None => {
            return Option::None;
        },
    };
    if n > (content.len() - p) as u64 {
        return Option::None;
    }
    let nn = n as usize;
    let bytes = vstd::slice::slice_subrange(content, p, p + nn);
    match bytes_to_string(bytes) {
        Option::Some(st) => {
            proof {
                vstd::utf8::encode_utf8_decode_utf8(st@);
            }
            Option::Some((st, p + nn))
        },
        Option::None => Option::None,
    }
}

fn read_import(content: &[u8], pos: usize) -> (r: Option<(SharedImportFunction, usize)>)
    ensures
        match r {
            Option::Some(p) => dec_rec4(content@, pos as int) == Option::Some(
                (import_view(p.0), p.1 as int),
            ) && pos < p.1 <= content@.len(),
            Option::None => dec_rec4(content@, pos as int) is None,
        },
{
    let (rust_name, p1) = match read_str(content, pos) {
        Option::Some(x) => x,
        Option::None => {
            return Option::None;
        },
    };
    let (luau_name, p2) = match read_str(content, p1) {
        Option::Some(x) => x,
        Option::None => {
            return Option::None;
        },
    };
    let (describe_name, p3) = match read_str(content, p2) {
        Option::Some(x) => x,
        Option::None => {
            return Option::None;
        },
    };
    let (export_name, p4) = match read_str(content, p3) {
        Option::Some(x) => x,
        Option::None => {
            return Option::None;
        },
    };
    Option::Some(
        (SharedImportFunction { rust_name, luau_name, describe_name, export_name }, p4),
    )
}

fn read_export(content: &[u8], pos: usize) -> (r: Option<(SharedExportFunction, usize)>)
    ensures
        match r {
            Option::Some(p) => dec_rec4(content@, pos as int) == Option::Some(
                (export_view(p.0), p.1 as int),
            ) && pos < p.1 <= content@.len(),
            Option::None => dec_rec4(content@, pos as int) is None,
        },
{
    let (rust_name, p1) = match read_str(content, pos) {
        Option::Some(x) => x,
        Option::None => {
            return Option::None;
        },
    };
    let (luau_name, p2) = match read_str(content, p1) {
        Option::Some(x) => x,
        Option::None => {
            return Option::None;
        },
    };
    let (export_name, p3) = match read_str(content, p2) {
        Option::Some(x) => x,
        Option::None => {
            return Option::None;
        },
    };
    let (describe_name, p4) = match read_str(content, p3) {
        Option::Some(x) => x,
        Option::None => {
            return Option::None;
        },
    };
    Option::Some(
        (SharedExportFunction { rust_name, luau_name, export_name, describe_name }, p4),
    )
}

fn read_intrinsic(content: &[u8], pos: usize) -> (r: Option<(SharedIntrinsic, usize)>)
    ensures
        match r {
            Option::Some(p) => dec_rec2(content@, pos as int) == Option::Some(
                (intrinsic_view(p.0), p.1 as int),
            ) && pos < p.1 <= content@.len(),
            Option::None => dec_rec2(content@, pos as int) is None,
        },
{
    let (name, p1) = match read_str(content, pos) {
        Option::Some(x) => x,
        Option::None => {
            return Option::None;
        },
    };
    let (export_name, p2) = match read_str(content, p1) {
        Option::Some(x) => x,
        Option::None => {
            return Option::None;
        },
    };
    Option::Some((SharedIntrinsic { name, export_name }, p2))
}

fn read_imports(content: &[u8], pos: usize, n: u64) -> (r: Option<
    (Vec<SharedImportFunction>, usize),
>)
    requires
        pos <= content@.len(),
    ensures
        match r {
            Option::Some(p) => dec_rec4_items(content@, pos as int, n as nat) == Option::Some(
                (p.0@.map_values(|f: SharedImportFunction| import_view(f)), p.1 as int),
            ) && pos <= p.1 <= content@.len(),
            Option::None => dec_rec4_items(content@, pos as int, n as nat) is None,
        },
{
    let mut acc: Vec<SharedImportFunction> = Vec::new();
    let mut p = pos;
    let mut i: u64 = 0;
    proof {
        assert(acc@.map_values(|f: SharedImportFunction| import_view(f)) =~= Seq::<
            (Seq<char>, Seq<char>, Seq<char>, Seq<char>),
        >::empty());
        if dec_rec4_items(content@, pos as int, n as nat) is Some {
            assert(acc@.map_values(|f: SharedImportFunction| import_view(f))
                + dec_rec4_items(content@, pos as int, n as nat)->Some_0.0
                =~= dec_rec4_items(content@, pos as int, n as nat)->Some_0.0);
        }
    }
    while i < n
        invariant
            0 <= i <= n,
            pos <= p <= content@.len(),
            match dec_rec4_items(content@, p as int, (n - i) as nat) {
                Option::Some(q) => dec_rec4_items(content@, pos as int, n as nat)
                    == Option::Some(
                    (
                        acc@.map_values(|f: SharedImportFunction| import_view(f)) + q.0,
                        q.1,
                    ),
                ),
                Option::None => dec_rec4_items(content@, pos as int, n as nat) is None,
            },
        decreases n - i,
    {
        match read_import(content, p) {
            Option::Some((f, p2)) => {
                let ghost accv = acc@.map_values(|g: SharedImportFunction| import_view(g));
                acc.push(f);
                proof {
                    assert(acc@.map_values(|g: SharedImportFunction| import_view(g))
                        =~= accv + seq![import_view(f)]);
                    if dec_rec4_items(content@, p2 as int, (n - i - 1) as nat) is Some {
                        assert((accv + seq![import_view(f)]) + dec_rec4_items(
                            content@,
                            p2 as int,
                            (n - i - 1) as nat,
                        )->Some_0.0 =~= accv + (seq![import_view(f)] + dec_rec4_items(
                            content@,
                            p2 as int,
                            (n - i - 1) as nat,
                        )->Some_0.0));
                    }
                }
                p = p2;
                i = i + 1;
            },
            Option::None => {
                return Option::None;
            },
        }
    }
    proof {
        if dec_rec4_items(content@, pos as int, n as nat) is Some {
            assert(acc@.map_values(|f: SharedImportFunction| import_view(f))
                + Seq::<(Seq<char>, Seq<char>, Seq<char>, Seq<char>)>::empty()
                =~= acc@.map_values(|f: SharedImportFunction| import_view(f)));
        }
    }
    Option::Some((acc, p))
}

fn read_exports(content: &[u8], pos: usize, n: u64) -> (r: Option<
    (Vec<SharedExportFunction>, usize),
>)
    requires
        pos <= content@.len(),
    ensures
        match r {
            Option::Some(p) => dec_rec4_items(content@, pos as int, n as nat) == Option::Some(
                (p.0@.map_values(|f: SharedExportFunction| export_view(f)), p.1 as int),
            ) && pos <= p.1 <= content@.len(),
            Option::None => dec_rec4_items(content@, pos as int, n as nat) is None,
        },
{
    let mut acc: Vec<SharedExportFunction> = Vec::new();
    let mut p = pos;
    let mut i: u64 = 0;
    proof {
        assert(acc@.map_values(|f: SharedExportFunction| export_view(f)) =~= Seq::<
            (Seq<char>, Seq<char>, Seq<char>, Seq<char>),
        >::empty());
        if dec_rec4_items(content@, pos as int, n as nat) is Some {
            assert(acc@.map_values(|f: SharedExportFunction| export_view(f))
                + dec_rec4_items(content@, pos as int, n as nat)->Some_0.0
                =~= dec_rec4_items(content@, pos as int, n as nat)->Some_0.0);
        }
    }
    while i < n
        invariant
            0 <= i <= n,
            pos <= p <= content@.len(),
            match dec_rec4_items(content@, p as int, (n - i) as nat) {
                Option::Some(q) => dec_rec4_items(content@, pos as int, n as nat)
                    == Option::Some(
                    (
                        acc@.map_values(|f: SharedExportFunction| export_view(f)) + q.0,
                        q.1,
                    ),
                ),
                Option::None => dec_rec4_items(content@, pos as int, n as nat) is None,
            },
        decreases n - i,
    {
        match read_export(content, p) {
            Option::Some((f, p2)) => {
                let ghost accv = acc@.map_values(|g: SharedExportFunction| export_view(g));
                acc.push(f);
                proof {
                    assert(acc@.map_values(|g: SharedExportFunction| export_view(g))
                        =~= accv + seq![export_view(f)]);
                    if dec_rec4_items(content@, p2 as int, (n - i - 1) as nat) is Some {
                        assert((accv + seq![export_view(f)]) + dec_rec4_items(
                            content@,
                            p2 as int,
                            (n - i - 1) as nat,
                        )->Some_0.0 =~= accv + (seq![export_view(f)] + dec_rec4_items(
                            content@,
                            p2 as int,
                            (n - i - 1) as nat,
                        )->Some_0.0));
                    }
                }
                p = p2;
                i = i + 1;
            },
            Option::None => {
                return Option::None;
            },
        }
    }
    proof {
        if dec_rec4_items(content@, pos as int, n as nat) is Some {
            assert(acc@.map_values(|f: SharedExportFunction| export_view(f))
                + Seq::<(Seq<char>, Seq<char>, Seq<char>, Seq<char>)>::empty()
                =~= acc@.map_values(|f: SharedExportFunction| export_view(f)));
        }
    }
    Option::Some((acc, p))
}

fn read_mains(content: &[u8], pos: usize, n: u64) -> (r: Option<(Vec<String>, usize)>)
    requires
        pos <= content@.len(),
    ensures
        match r {
            Option::Some(p) => dec_str_items(content@, pos as int, n as nat) == Option::Some(
                (p.0@.map_values(|f: String| f@), p.1 as int),
            ) && pos <= p.1 <= content@.len(),
            Option::None => dec_str_items(content@, pos as int, n as nat) is None,
        },
{
    let mut acc: Vec<String> = Vec::new();
    let mut p = pos;
    let mut i: u64 = 0;
    proof {
        assert(acc@.map_values(|f: String| f@) =~= Seq::<Seq<char>>::empty());
        if dec_str_items(content@, pos as int, n as nat) is Some {
            assert(acc@.map_values(|f: String| f@) + dec_str_items(
                content@,
                pos as int,
                n as nat,
            )->Some_0.0 =~= dec_str_items(content@, pos as int, n as nat)->Some_0.0);
        }
    }
    while i < n
        invariant
            0 <= i <= n,
            pos <= p <= content@.len(),
            match dec_str_items(content@, p as int, (n - i) as nat) {
                Option::Some(q) => dec_str_items(content@, pos as int, n as nat)
                    == Option::Some((acc@.map_values(|f: String| f@) + q.0, q.1)),
                Option::None => dec_str_items(content@, pos as int, n as nat) is None,
            },
        decreases n - i,
    {
        match read_str(content, p) {
            Option::Some((f, p2)) => {
                let ghost accv = acc@.map_values(|g: String| g@);
                let ghost fv = f@;
                acc.push(f);
                proof {
                    assert(acc@.map_values(|g: String| g@) =~= accv + seq![fv]);
                    if dec_str_items(content@, p2 as int, (n - i - 1) as nat) is Some {
                        assert((accv + seq![fv]) + dec_str_items(
                            content@,
                            p2 as int,
                            (n - i - 1) as nat,
                        )->Some_0.0 =~= accv + (seq![fv] + dec_str_items(
                            content@,
                            p2 as int,
                            (n - i - 1) as nat,
                        )->Some_0.0));
                    }
                }
                p = p2;
                i = i + 1;
            },
            Option::None => {
                return Option::None;
            },
        }
    }
    proof {
        if dec_str_items(content@, pos as int, n as nat) is Some {
            assert(acc@.map_values(|f: String| f@) + Seq::<Seq<char>>::empty()
                =~= acc@.map_values(|f: String| f@));
        }
    }
    Option::Some((acc, p))
}

fn read_intrinsics(content: &[u8], pos: usize, n: u64) -> (r: Option<
    (Vec<SharedIntrinsic>, usize),
>)
    requires
        pos <= content@.len(),
    ensures
        match r {
            Option::Some(p) => dec_rec2_items(content@, pos as int, n as nat) == Option::Some(
                (p.0@.map_values(|f: SharedIntrinsic| intrinsic_view(f)), p.1 as int),
            ) && pos <= p.1 <= content@.len(),
            Option::None => dec_rec2_items(content@, pos as int, n as nat) is None,
        },
{
    let mut acc: Vec<SharedIntrinsic> = Vec::new();
    let mut p = pos;
    let mut i: u64 = 0;
    proof {
        assert(acc@.map_values(|f: SharedIntrinsic| intrinsic_view(f)) =~= Seq::<
            (Seq<char>, Seq<char>),
        >::empty());
        if dec_rec2_items(content@, pos as int, n as nat) is Some {
            assert(acc@.map_values(|f: SharedIntrinsic| intrinsic_view(f))
                + dec_rec2_items(content@, pos as int, n as nat)->Some_0.0
                =~= dec_rec2_items(content@, pos as int, n as nat)->Some_0.0);
        }
    }
    while i < n
        invariant
            0 <= i <= n,
            pos <= p <= content@.len(),
            match dec_rec2_items(content@, p as int, (n - i) as nat) {
                Option::Some(q) => dec_rec2_items(content@, pos as int, n as nat)
                    == Option::Some(
                    (
                        acc@.map_values(|f: SharedIntrinsic| intrinsic_view(f)) + q.0,
                        q.1,
                    ),
                ),
                Option::None => dec_rec2_items(content@, pos as int, n as nat) is None,
            },
        decreases n - i,
    {
        match read_intrinsic(content, p) {
            Option::Some((f, p2)) => {
                let ghost accv = acc@.map_values(|g: SharedIntrinsic| intrinsic_view(g));
                acc.push(f);
                proof {
                    assert(acc@.map_values(|g: SharedIntrinsic| intrinsic_view(g))
                        =~= accv + seq![intrinsic_view(f)]);
                    if dec_rec2_items(content@, p2 as int, (n - i - 1) as nat) is Some {
                        assert((accv + seq![intrinsic_view(f)]) + dec_rec2_items(
                            content@,
                            p2 as int,
                            (n - i - 1) as nat,
                        )->Some_0.0 =~= accv + (seq![intrinsic_view(f)] + dec_rec2_items(
                            content@,
                            p2 as int,
                            (n - i - 1) as nat,
                        )->Some_0.0));
                    }
                }
                p = p2;
                i = i + 1;
            },
            Option::None => {
                return Option::None;
            },
        }
    }
    proof {
        if dec_rec2_items(content@, pos as int, n as nat) is Some {
            assert(acc@.map_values(|f: SharedIntrinsic| intrinsic_view(f))
                + Seq::<(Seq<char>, Seq<char>)>::empty()
                =~= acc@.map_values(|f: SharedIntrinsic| intrinsic_view(f)));
        }
    }
    Option::Some((acc, p))
}

fn read_record(content: &[u8], pos: usize) -> (r: Option<(SharedContext, usize)>)
    requires
        pos <= content@.len(),
    ensures
        match r {
            Option::Some(p) => dec_record(content@, pos as int) == Option::Some(
                (
                    (
                        p.0.imports_view(),
                        p.0.exports_view(),
                        p.0.mains_view(),
                        p.0.intrinsics_view(),
                    ),
                    p.1 as int,
                ),
            ) && pos < p.1 <= content@.len(),
            Option::None => dec_record(content@, pos as int) is None,
        },
{
    let (n1, p1) = match read_u64(content, pos) {
        Option::Some(x) => x,
        Option::None => {
            return Option::None;
        },
    };
    let (imports, p2) = match read_imports(content, p1, n1) {
        Option::Some(x) => x,
        Option::None => {
            return Option::None;
        },
    };
    let (n2, p3) = match read_u64(content, p2) {
        Option::Some(x) => x,
        Option::None => {
            return Option::None;
        },
    };
    let (exports, p4) = match read_exports(content, p3, n2) {
        Option::Some(x) => x,
        Option::None => {
            return Option::None;
        },
    };
    let (n3, p5) = match read_u64(content, p4) {
        Option::Some(x) => x,
        Option::None => {
            return Option::None;
        },
    };
    let (main_fns, p6) = match read_mains(content, p5, n3) {
        Option::Some(x) => x,
        Option::None => {
            return Option::None;
        },
    };
    let (n4, p7) = match read_u64(content, p6) {
        Option::Some(x) => x,
        Option::None => {
            return Option::None;
        },
    };
    let (intrinsics, p8) = match read_intrinsics(content, p7, n4) {
        Option::Some(x) => x,
        Option::None => {
            return Option::None;
        },
    };
    Option::Some((SharedContext { imports, exports, main_fns, intrinsics }, p8))
}

/// Decodes the custom section payload: a stream of records, their lists
/// catenated in order, stopping at the first malformed record.
pub fn decode(content: &[u8]) -> (r: SharedContext)
    ensures
        r.imports_view() == dec_all(content@, 0).0,
        r.exports_view() == dec_all(content@, 0).1,
        r.mains_view() == dec_all(content@, 0).2,
        r.intrinsics_view() == dec_all(content@, 0).3,
{
    let mut imports: Vec<SharedImportFunction> = Vec::new();
    let mut exports: Vec<SharedExportFunction> = Vec::new();
    let mut main_fns: Vec<String> = Vec::new();
    let mut intrinsics: Vec<SharedIntrinsic> = Vec::new();
    let mut pos: usize = 0;
    let mut done = false;
    while !done
        invariant
            0 <= pos <= content@.len(),
            done ==> dec_record(content@, pos as int) is None,
            dec_all(content@, 0).0 =~= imports@.map_values(
                |f: SharedImportFunction| import_view(f),
            ) + dec_all(content@, pos as int).0,
            dec_all(content@, 0).1 =~= exports@.map_values(
                |f: SharedExportFunction| export_view(f),
            ) + dec_all(content@, pos as int).1,
            dec_all(content@, 0).2 =~= main_fns@.map_values(|f: String| f@) + dec_all(
                content@,
                pos as int,
            ).2,
            dec_all(content@, 0).3 =~= intrinsics@.map_values(
                |f: SharedIntrinsic| intrinsic_view(f),
            ) + dec_all(content@, pos as int).3,
        decreases content@.len() - pos, (if done {
            0int
        } else {
            1int
        }),
    {
        match read_record(content, pos) {
            Option::Some((mut c, p2)) => {
                let ghost iv = imports@.map_values(|f: SharedImportFunction| import_view(f));
                let ghost ev = exports@.map_values(|f: SharedExportFunction| export_view(f));
                let ghost mv = main_fns@.map_values(|f: String| f@);
                let ghost nv = intrinsics@.map_values(
                    |f: SharedIntrinsic| intrinsic_view(f),
                );
                let ghost cv = (c.imports_view(), c.exports_view(), c.mains_view(),
                c.intrinsics_view());
                imports.append(&mut c.imports);
                exports.append(&mut c.exports);
                main_fns.append(&mut c.main_fns);
                intrinsics.append(&mut c.intrinsics);
                proof {
                    assert(imports@.map_values(|f: SharedImportFunction| import_view(f))
                        =~= iv + cv.0);
                    assert(exports@.map_values(|f: SharedExportFunction| export_view(f))
                        =~= ev + cv.1);
                    assert(main_fns@.map_values(|f: String| f@) =~= mv + cv.2);
                    assert(intrinsics@.map_values(|f: SharedIntrinsic| intrinsic_view(f))
                        =~= nv + cv.3);
                    assert(dec_all(content@, pos as int).0 =~= cv.0 + dec_all(
                        content@,
                        p2 as int,
                    ).0);
                    assert(dec_all(content@, pos as int).1 =~= cv.1 + dec_all(
                        content@,
                        p2 as int,
                    ).1);
                    assert(dec_all(content@, pos as int).2 =~= cv.2 + dec_all(
                        content@,
                        p2 as int,
                    ).2);
                    assert(dec_all(content@, pos as int).3 =~= cv.3 + dec_all(
                        content@,
                        p2 as int,
                    ).3);
                }
                pos = p2;
            },
            Option::None => {
                done = true;
            },
        }
    }
    proof {
        assert(dec_all(content@, pos as int).0 =~= Seq::<
            (Seq<char>, Seq<char>, Seq<char>, Seq<char>),
        >::empty());
        assert(dec_all(content@, pos as int).1 =~= Seq::<
            (Seq<char>, Seq<char>, Seq<char>, Seq<char>),
        >::empty());
        assert(dec_all(content@, pos as int).2 =~= Seq::<Seq<char>>::empty());
        assert(dec_all(content@, pos as int).3 =~= Seq::<(Seq<char>, Seq<char>)>::empty());
    }
    let r = SharedContext { imports, exports, main_fns, intrinsics };
    proof {
        assert(r.imports_view() =~= dec_all(content@, 0).0);
        assert(r.exports_view() =~= dec_all(content@, 0).1);
        assert(r.mains_view() =~= dec_all(content@, 0).2);
        assert(r.intrinsics_view() =~= dec_all(content@, 0).3);
    }
    r
}

/// A character sequence whose UTF-8 bytes fit behind one length prefix.
pub open spec fn str_bounded(x: Seq<char>) -> bool {
    encode_utf8(x).len() <= u64::MAX
}

/// Every string of the record fits behind its length prefix, and every list
/// count fits in one tag word.
pub open spec fn ctx_bounded(c: SharedContext) -> bool {
    &&& c.imports@.len() <= u64::MAX
    &&& c.exports@.len() <= u64::MAX
    &&& c.main_fns@.len() <= u64::MAX
    &&& c.intrinsics@.len() <= u64::MAX
    &&& forall|k: int|
        0 <= k < c.imports@.len() ==> rec4_bounded(#[trigger] c.imports_view()[k])
    &&& forall|k: int|
        0 <= k < c.exports@.len() ==> rec4_bounded(#[trigger] c.exports_view()[k])
    &&& forall|k: int| 0 <= k < c.main_fns@.len() ==> str_bounded(#[trigger] c.mains_view()[k])
    &&& forall|k: int|
        0 <= k < c.intrinsics@.len() ==> rec2_bounded(#[trigger] c.intrinsics_view()[k])
}

pub open spec fn rec4_bounded(v: (Seq<char>, Seq<char>, Seq<char>, Seq<char>)) -> bool {
    str_bounded(v.0) && str_bounded(v.1) && str_bounded(v.2) && str_bounded(v.3)
}

pub open spec fn rec2_bounded(v: (Seq<char>, Seq<char>)) -> bool {
    str_bounded(v.0) && str_bounded(v.1)
}

/// A length prefix laid down by the encoder reads back as itself.
proof fn lemma_dec_len_enc(n: u64, s: Seq<u8>, pos: int)
    requires
        0 <= pos,
        pos + 8 <= s.len(),
        s.subrange(pos, pos + 8) == spec_u64_to_le_bytes(n),
    ensures
        dec_len(s, pos) == Option::Some((n, pos + 8)),
{
    vstd::bytes::lemma_auto_spec_u64_to_from_le_bytes();
}

/// A string laid down by the encoder reads back as itself.
proof fn lemma_dec_str_enc(x: Seq<char>, s: Seq<u8>, pos: int)
    requires
        0 <= pos,
        str_bounded(x),
        pos + enc_str(x).len() <= s.len(),
        s.subrange(pos, pos + enc_str(x).len()) == enc_str(x),
    ensures
        dec_str(s, pos) == Option::Some((x, pos + enc_str(x).len())),
{
    vstd::bytes::lemma_auto_spec_u64_to_from_le_bytes();
    let bytes = encode_utf8(x);
    let bl = bytes.len() as int;
    assert(s.subrange(pos, pos + 8) =~= spec_u64_to_le_bytes(bytes.len() as u64)) by {
        assert forall|i: int| 0 <= i < 8 implies (#[trigger] s.subrange(pos, pos + 8)[i])
            == spec_u64_to_le_bytes(bytes.len() as u64)[i] by {
            assert(s.subrange(pos, pos + enc_str(x).len() as int)[i] == s[pos + i]);
        }
    }
    lemma_dec_len_enc(bytes.len() as u64, s, pos);
    assert(s.subrange(pos + 8, pos + 8 + bl) =~= bytes) by {
        assert forall|i: int| 0 <= i < bl implies s.subrange(pos + 8, pos + 8 + bl)[i]
            == bytes[i] by {
            assert(s.subrange(pos, pos + enc_str(x).len() as int)[8 + i] == s[pos + 8 + i]);
            assert(enc_str(x)[8 + i] == bytes[i]);
        }
    }
    vstd::utf8::encode_utf8_valid_utf8(x);
    vstd::utf8::encode_utf8_decode_utf8(x);
}

/// A four-string record laid down by the encoder reads back as itself.
proof fn lemma_dec_rec4_enc(
    v: (Seq<char>, Seq<char>, Seq<char>, Seq<char>),
    s: Seq<u8>,
    pos: int,
)
    requires
        0 <= pos,
        rec4_bounded(v),
        pos + enc_rec4(v).len() <= s.len(),
        s.subrange(pos, pos + enc_rec4(v).len()) == enc_rec4(v),
    ensures
        dec_rec4(s, pos) == Option::Some((v, pos + enc_rec4(v).len())),
{
    let e0 = enc_str(v.0);
    let e1 = enc_str(v.1);
    let e2 = enc_str(v.2);
    let e3 = enc_str(v.3);
    lemma_subpiece(s, pos, enc_rec4(v), 0, e0.len() as int);
    assert(enc_rec4(v).subrange(0, e0.len() as int) =~= e0);
    lemma_dec_str_enc(v.0, s, pos);
    lemma_subpiece(s, pos, enc_rec4(v), e0.len() as int, (e0.len() + e1.len()) as int);
    assert(enc_rec4(v).subrange(e0.len() as int, (e0.len() + e1.len()) as int) =~= e1);
    lemma_dec_str_enc(v.1, s, pos + e0.len());
    lemma_subpiece(
        s,
        pos,
        enc_rec4(v),
        (e0.len() + e1.len()) as int,
        (e0.len() + e1.len() + e2.len()) as int,
    );
    assert(enc_rec4(v).subrange(
        (e0.len() + e1.len()) as int,
        (e0.len() + e1.len() + e2.len()) as int,
    ) =~= e2);
    lemma_dec_str_enc(v.2, s, pos + e0.len() + e1.len());
    lemma_subpiece(
        s,
        pos,
        enc_rec4(v),
        (e0.len() + e1.len() + e2.len()) as int,
        enc_rec4(v).len() as int,
    );
    assert(enc_rec4(v).subrange(
        (e0.len() + e1.len() + e2.len()) as int,
        enc_rec4(v).len() as int,
    ) =~= e3);
    lemma_dec_str_enc(v.3, s, pos + e0.len() + e1.len() + e2.len());
}

/// A two-string record laid down by the encoder reads back as itself.
proof fn lemma_dec_rec2_enc(v: (Seq<char>, Seq<char>), s: Seq<u8>, pos: int)
    requires
        0 <= pos,
        rec2_bounded(v),
        pos + enc_rec2(v).len() <= s.len(),
        s.subrange(pos, pos + enc_rec2(v).len()) == enc_rec2(v),
    ensures
        dec_rec2(s, pos) == Option::Some((v, pos + enc_rec2(v).len())),
{
    let e0 = enc_str(v.0);
    lemma_subpiece(s, pos, enc_rec2(v), 0, e0.len() as int);
    assert(enc_rec2(v).subrange(0, e0.len() as int) =~= e0);
    lemma_dec_str_enc(v.0, s, pos);
    lemma_subpiece(s, pos, enc_rec2(v), e0.len() as int, enc_rec2(v).len() as int);
    assert(enc_rec2(v).subrange(e0.len() as int, enc_rec2(v).len() as int) =~= enc_str(v.1));
    lemma_dec_str_enc(v.1, s, pos + e0.len());
}

/// A piece of an encoding that sits inside `s` sits at its own offsets.
proof fn lemma_subpiece(s: Seq<u8>, pos: int, whole: Seq<u8>, lo: int, hi: int)
    requires
        0 <= pos,
        0 <= lo <= hi <= whole.len(),
        pos + whole.len() <= s.len(),
        s.subrange(pos, pos + whole.len()) == whole,
    ensures
        s.subrange(pos + lo, pos + hi) == whole.subrange(lo, hi),
{
    assert(s.subrange(pos + lo, pos + hi) =~= whole.subrange(lo, hi)) by {
        assert forall|i: int| 0 <= i < hi - lo implies s.subrange(pos + lo, pos + hi)[i]
            == whole.subrange(lo, hi)[i] by {
            assert(s.subrange(pos, pos + whole.len() as int)[lo + i] == s[pos + lo + i]);
        }
    }
}

proof fn lemma_dec_rec4_items_enc(
    items: Seq<(Seq<char>, Seq<char>, Seq<char>, Seq<char>)>,
    s: Seq<u8>,
    pos: int,
)
    requires
        0 <= pos,
        items.len() <= u64::MAX,
        forall|k: int| 0 <= k < items.len() ==> rec4_bounded(#[trigger] items[k]),
        pos + enc_rec4_items(items).len() <= s.len(),
        s.subrange(pos, pos + enc_rec4_items(items).len()) == enc_rec4_items(items),
    ensures
        dec_rec4_items(s, pos, items.len()) == Option::Some(
            (items, pos + enc_rec4_items(items).len()),
        ),
    decreases items.len(),
{
    if items.len() > 0 {
        let head = enc_rec4(items[0]);
        lemma_subpiece(s, pos, enc_rec4_items(items), 0, head.len() as int);
        assert(enc_rec4_items(items).subrange(0, head.len() as int) =~= head);
        lemma_dec_rec4_enc(items[0], s, pos);
        lemma_subpiece(
            s,
            pos,
            enc_rec4_items(items),
            head.len() as int,
            enc_rec4_items(items).len() as int,
        );
        assert(enc_rec4_items(items).subrange(
            head.len() as int,
            enc_rec4_items(items).len() as int,
        ) =~= enc_rec4_items(items.drop_first()));
        assert forall|k: int| 0 <= k < items.drop_first().len() implies rec4_bounded(
            #[trigger] items.drop_first()[k],
        ) by {
            assert(items.drop_first()[k] == items[k + 1]);
        }
        lemma_dec_rec4_items_enc(items.drop_first(), s, pos + head.len());
        assert(seq![items[0]] + items.drop_first() =~= items);
    }
}

proof fn lemma_dec_rec2_items_enc(items: Seq<(Seq<char>, Seq<char>)>, s: Seq<u8>, pos: int)
    requires
        0 <= pos,
        items.len() <= u64::MAX,
        forall|k: int| 0 <= k < items.len() ==> rec2_bounded(#[trigger] items[k]),
        pos + enc_rec2_items(items).len() <= s.len(),
        s.subrange(pos, pos + enc_rec2_items(items).len()) == enc_rec2_items(items),
    ensures
        dec_rec2_items(s, pos, items.len()) == Option::Some(
            (items, pos + enc_rec2_items(items).len()),
        ),
    decreases items.len(),
{
    if items.len() > 0 {
        let head = enc_rec2(items[0]);
        lemma_subpiece(s, pos, enc_rec2_items(items), 0, head.len() as int);
        assert(enc_rec2_items(items).subrange(0, head.len() as int) =~= head);
        lemma_dec_rec2_enc(items[0], s, pos);
        lemma_subpiece(
            s,
            pos,
            enc_rec2_items(items),
            head.len() as int,
            enc_rec2_items(items).len() as int,
        );
        assert(enc_rec2_items(items).subrange(
            head.len() as int,
            enc_rec2_items(items).len() as int,
        ) =~= enc_rec2_items(items.drop_first()));
        assert forall|k: int| 0 <= k < items.drop_first().len() implies rec2_bounded(
            #[trigger] items.drop_first()[k],
        ) by {
            assert(items.drop_first()[k] == items[k + 1]);
        }
        lemma_dec_rec2_items_enc(items.drop_first(), s, pos + head.len());
        assert(seq![items[0]] + items.drop_first() =~= items);
    }
}

proof fn lemma_dec_str_items_enc(items: Seq<Seq<char>>, s: Seq<u8>, pos: int)
    requires
        0 <= pos,
        items.len() <= u64::MAX,
        forall|k: int| 0 <= k < items.len() ==> str_bounded(#[trigger] items[k]),
        pos + enc_str_items(items).len() <= s.len(),
        s.subrange(pos, pos + enc_str_items(items).len()) == enc_str_items(items),
    ensures
        dec_str_items(s, pos, items.len()) == Option::Some(
            (items, pos + enc_str_items(items).len()),
        ),
    decreases items.len(),
{
    if items.len() > 0 {
        let head = enc_str(items[0]);
        lemma_subpiece(s, pos, enc_str_items(items), 0, head.len() as int);
        assert(enc_str_items(items).subrange(0, head.len() as int) =~= head);
        lemma_dec_str_enc(items[0], s, pos);
        lemma_subpiece(
            s,
            pos,
            enc_str_items(items),
            head.len() as int,
            enc_str_items(items).len() as int,
        );
        assert(enc_str_items(items).subrange(
            head.len() as int,
            enc_str_items(items).len() as int,
        ) =~= enc_str_items(items.drop_first()));
        assert forall|k: int| 0 <= k < items.drop_first().len() implies str_bounded(
            #[trigger] items.drop_first()[k],
        ) by {
            assert(items.drop_first()[k] == items[k + 1]);
        }
        lemma_dec_str_items_enc(items.drop_first(), s, pos + head.len());
        assert(seq![items[0]] + items.drop_first() =~= items);
    }
}

/// A whole record laid down by the encoder reads back as itself, with
/// anything after it untouched.
#[verifier::rlimit(100)]
#[verifier::spinoff_prover]
pub proof fn lemma_dec_record_enc(c: SharedContext, s: Seq<u8>, pos: int)
    requires
        0 <= pos,
        ctx_bounded(c),
        pos + enc_ctx(c).len() <= s.len(),
        s.subrange(pos, pos + enc_ctx(c).len()) == enc_ctx(c),
    ensures
        dec_record(s, pos) == Option::Some(
            (
                (c.imports_view(), c.exports_view(), c.mains_view(), c.intrinsics_view()),
                pos + enc_ctx(c).len(),
            ),
        ),
{
    let whole = enc_ctx(c);
    let l1 = enc_len(c.imports@.len() as nat);
    let i1 = enc_rec4_items(c.imports_view());
    let l2 = enc_len(c.exports@.len() as nat);
    let i2 = enc_rec4_items(c.exports_view());
    let l3 = enc_len(c.main_fns@.len() as nat);
    let i3 = enc_str_items(c.mains_view());
    let l4 = enc_len(c.intrinsics@.len() as nat);
    let i4 = enc_rec2_items(c.intrinsics_view());
    let p0 = pos;
    let p1 = p0 + 8;
    let p2 = p1 + i1.len();
    let p3 = p2 + 8;
    let p4 = p3 + i2.len();
    let p5 = p4 + 8;
    let p6 = p5 + i3.len();
    let p7 = p6 + 8;
    let p8 = p7 + i4.len();
    vstd::bytes::lemma_auto_spec_u64_to_from_le_bytes();
    lemma_subpiece(s, pos, whole, 0, 8);
    assert(whole.subrange(0, 8) =~= l1);
    lemma_dec_len_enc(c.imports@.len() as u64, s, p0);
    lemma_subpiece(s, pos, whole, 8, (8 + i1.len()) as int);
    assert(whole.subrange(8, (8 + i1.len()) as int) =~= i1);
    lemma_dec_rec4_items_enc(c.imports_view(), s, p1);
    lemma_subpiece(s, pos, whole, (p2 - pos) as int, (p3 - pos) as int);
    assert(whole.subrange((p2 - pos) as int, (p3 - pos) as int) =~= l2);
    lemma_dec_len_enc(c.exports@.len() as u64, s, p2);
    lemma_subpiece(s, pos, whole, (p3 - pos) as int, (p4 - pos) as int);
    assert(whole.subrange((p3 - pos) as int, (p4 - pos) as int) =~= i2);
    lemma_dec_rec4_items_enc(c.exports_view(), s, p3);
    lemma_subpiece(s, pos, whole, (p4 - pos) as int, (p5 - pos) as int);
    assert(whole.subrange((p4 - pos) as int, (p5 - pos) as int) =~= l3);
    lemma_dec_len_enc(c.main_fns@.len() as u64, s, p4);
    lemma_subpiece(s, pos, whole, (p5 - pos) as int, (p6 - pos) as int);
    assert(whole.subrange((p5 - pos) as int, (p6 - pos) as int) =~= i3);
    lemma_dec_str_items_enc(c.mains_view(), s, p5);
    lemma_subpiece(s, pos, whole, (p6 - pos) as int, (p7 - pos) as int);
    assert(whole.subrange((p6 - pos) as int, (p7 - pos) as int) =~= l4);
    lemma_dec_len_enc(c.intrinsics@.len() as u64, s, p6);
    lemma_subpiece(s, pos, whole, (p7 - pos) as int, (p8 - pos) as int);
    assert(whole.subrange((p7 - pos) as int, (p8 - pos) as int) =~= i4);
    lemma_dec_rec2_items_enc(c.intrinsics_view(), s, p7);
}

/// The metadata codec round trip: what one record encodes, the stream
/// decoder reads back whole.
pub proof fn lemma_codec_round_trip(c: SharedContext)
    requires
        ctx_bounded(c),
    ensures
        dec_all(enc_ctx(c), 0) == (
            c.imports_view(),
            c.exports_view(),
            c.mains_view(),
            c.intrinsics_view(),
        ),
{
    let s = enc_ctx(c);
    vstd::bytes::lemma_auto_spec_u64_to_from_le_bytes();
    assert(s.len() >= 8);
    assert(s.subrange(0, s.len() as int) =~= s);
    lemma_dec_record_enc(c, s, 0);
    let e = s.len() as int;
    assert(dec_record(s, e) is None);
    assert(dec_all(s, e) == (
        Seq::<(Seq<char>, Seq<char>, Seq<char>, Seq<char>)>::empty(),
        Seq::<(Seq<char>, Seq<char>, Seq<char>, Seq<char>)>::empty(),
        Seq::<Seq<char>>::empty(),
        Seq::<(Seq<char>, Seq<char>)>::empty(),
    ));
    assert(c.imports_view() + dec_all(s, e).0 =~= c.imports_view());
    assert(c.exports_view() + dec_all(s, e).1 =~= c.exports_view());
    assert(c.mains_view() + dec_all(s, e).2 =~= c.mains_view());
    assert(c.intrinsics_view() + dec_all(s, e).3 =~= c.intrinsics_view());
}

} // verus!
