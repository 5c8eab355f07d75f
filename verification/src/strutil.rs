//! Small string-building helpers shared by the code emitter: decimal and
//! hexadecimal rendering of integers, and the identifier test that decides
//! whether an expression must be hoisted into a local.

use vstd::prelude::*;

verus! {

/// The character for a single digit below sixteen, lower case.
pub open spec fn digit_char(d: nat) -> char {
    if d == 0 {
        '0'
    } else if d == 1 {
        '1'
    } else if d == 2 {
        '2'
    } else if d == 3 {
        '3'
    } else if d == 4 {
        '4'
    } else if d == 5 {
        '5'
    } else if d == 6 {
        '6'
    } else if d == 7 {
        '7'
    } else if d == 8 {
        '8'
    } else if d == 9 {
        '9'
    } else if d == 10 {
        'a'
    } else if d == 11 {
        'b'
    } else if d == 12 {
        'c'
    } else if d == 13 {
        'd'
    } else if d == 14 {
        'e'
    } else {
        'f'
    }
}

/// The decimal rendering of `n`, most significant digit first.
pub open spec fn spec_dec(n: nat) -> Seq<char>
    decreases n,
{
    if n < 10 {
        seq![digit_char(n)]
    } else {
        spec_dec(n / 10) + seq![digit_char(n % 10)]
    }
}

/// The hexadecimal rendering of `n`, most significant digit first, lower
/// case, no prefix.
pub open spec fn spec_hex(n: nat) -> Seq<char>
    decreases n,
{
    if n < 16 {
        seq![digit_char(n)]
    } else {
        spec_hex(n / 16) + seq![digit_char(n % 16)]
    }
}

fn digit_str(d: u64) -> (r: &'static str)
    requires
        d < 16,
    ensures
        r@ == seq![digit_char(d as nat)],
        r@.len() == 1,
{
    let r = if d == 0 {
        "0"
    } else if d == 1 {
        "1"
    } else if d == 2 {
        "2"
    } else if d == 3 {
        "3"
    } else if d == 4 {
        "4"
    } else if d == 5 {
        "5"
    } else if d == 6 {
        "6"
    } else if d == 7 {
        "7"
    } else if d == 8 {
        "8"
    } else if d == 9 {
        "9"
    } else if d == 10 {
        "a"
    } else if d == 11 {
        "b"
    } else if d == 12 {
        "c"
    } else if d == 13 {
        "d"
    } else if d == 14 {
        "e"
    } else {
        "f"
    };
    proof {
        reveal_strlit("0");
        reveal_strlit("1");
        reveal_strlit("2");
        reveal_strlit("3");
        reveal_strlit("4");
        reveal_strlit("5");
        reveal_strlit("6");
        reveal_strlit("7");
        reveal_strlit("8");
        reveal_strlit("9");
        reveal_strlit("a");
        reveal_strlit("b");
        reveal_strlit("c");
        reveal_strlit("d");
        reveal_strlit("e");
        reveal_strlit("f");
        assert(r@ =~= seq![digit_char(d as nat)]);
    }
    r
}

/// Renders `n` in decimal.
pub fn dec_string(n: u64) -> (s: String)
    ensures
        s@ == spec_dec(n as nat),
    decreases n,
{
    if n < 10 {
        let mut s = String::new();
        s.append(digit_str(n));
        proof {
            assert(s@ =~= spec_dec(n as nat));
        }
        s
    } else {
        let mut s = dec_string(n / 10);
        s.append(digit_str(n % 10));
        proof {
            assert(s@ =~= spec_dec(n as nat));
        }
        s
    }
}

/// Renders `n` in decimal, for index arithmetic on this machine.
pub fn dec_string_usize(n: usize) -> (s: String)
    ensures
        s@ == spec_dec(n as nat),
{
    dec_string(n as u64)
}

/// Renders `n` in lower-case hexadecimal without a prefix.
pub fn hex_string(n: u64) -> (s: String)
    ensures
        s@ == spec_hex(n as nat),
    decreases n,
{
    if n < 16 {
        let mut s = String::new();
        s.append(digit_str(n));
        proof {
            assert(s@ =~= spec_hex(n as nat));
        }
        s
    } else {
        let mut s = hex_string(n / 16);
        s.append(digit_str(n % 16));
        proof {
            assert(s@ =~= spec_hex(n as nat));
        }
        s
    }
}

/// Holds when `s` contains no newline, so that it may stand inside one
/// emitted line.
pub open spec fn clean_str(s: Seq<char>) -> bool {
    forall|i: int| 0 <= i < s.len() ==> s[i] != '\n'
}

/// Joining two newline-free pieces yields a newline-free piece.
pub proof fn lemma_clean_concat(a: Seq<char>, b: Seq<char>)
    requires
        clean_str(a),
        clean_str(b),
    ensures
        clean_str(a + b),
{
    assert forall|i: int| 0 <= i < (a + b).len() implies (a + b)[i] != '\n' by {
        if i < a.len() {
            assert((a + b)[i] == a[i]);
        } else {
            assert((a + b)[i] == b[i - a.len()]);
        }
    }
}

/// Decides `clean_str` on a string.
pub fn is_clean(s: &str) -> (b: bool)
    ensures
        b == clean_str(s@),
{
    let len = s.unicode_len();
    let mut i: usize = 0;
    while i < len
        invariant
            0 <= i <= len,
            len == s@.len(),
            forall|j: int| 0 <= j < i ==> s@[j] != '\n',
        decreases len - i,
    {
        let c = s.get_char(i);
        if c == '\n' {
            return false;
        }
        i += 1;
    }
    true
}

/// A decimal rendering holds digits only, so it is newline-free.
pub proof fn lemma_dec_clean(n: nat)
    ensures
        clean_str(spec_dec(n)),
    decreases n,
{
    if n < 10 {
        assert forall|i: int| 0 <= i < spec_dec(n).len() implies spec_dec(n)[i] != '\n' by {
            assert(spec_dec(n)[i] == digit_char(n));
        }
    } else {
        lemma_dec_clean(n / 10);
        assert forall|i: int| 0 <= i < spec_dec(n).len() implies spec_dec(n)[i] != '\n' by {
            if i < spec_dec(n / 10).len() {
                assert(spec_dec(n)[i] == spec_dec(n / 10)[i]);
            } else {
                assert(spec_dec(n)[i] == digit_char(n % 10));
            }
        }
    }
}

/// The pieces joined with a comma and a space between each pair.
pub open spec fn spec_join_comma(s: Seq<Seq<char>>) -> Seq<char>
    decreases s.len(),
{
    if s.len() == 0 {
        Seq::empty()
    } else if s.len() == 1 {
        s[0]
    } else {
        s[0] + ", "@ + spec_join_comma(s.drop_first())
    }
}

/// Joining newline-free pieces with commas yields a newline-free piece.
pub proof fn lemma_join_comma_clean(s: Seq<Seq<char>>)
    requires
        forall|k: int| 0 <= k < s.len() ==> clean_str(#[trigger] s[k]),
    ensures
        clean_str(spec_join_comma(s)),
    decreases s.len(),
{
    reveal_strlit(", ");
    if s.len() > 1 {
        assert forall|k: int| 0 <= k < s.drop_first().len() implies clean_str(
            #[trigger] s.drop_first()[k],
        ) by {
            assert(s.drop_first()[k] == s[k + 1]);
        }
        lemma_join_comma_clean(s.drop_first());
        lemma_clean_concat(s[0], ", "@);
        lemma_clean_concat(s[0] + ", "@, spec_join_comma(s.drop_first()));
    }
}

/// Joins the strings with `", "` between each pair.
pub fn join_comma(v: &Vec<String>) -> (r: String)
    ensures
        r@ == spec_join_comma(v@.map_values(|s: String| s@)),
{
    proof {
        assert(v@.map_values(|s: String| s@).skip(0) =~= v@.map_values(|s: String| s@));
    }
    join_comma_from(v, 0)
}

fn join_comma_from(v: &Vec<String>, i: usize) -> (r: String)
    requires
        i <= v@.len(),
    ensures
        r@ == spec_join_comma(v@.map_values(|s: String| s@).skip(i as int)),
    decreases v@.len() - i,
{
    let ghost gv = v@.map_values(|s: String| s@);
    if i == v.len() {
        let r = String::new();
        proof {
            assert(gv.skip(i as int).len() == 0);
        }
        r
    } else if i + 1 == v.len() {
        let r = v[i].clone();
        proof {
            assert(gv.skip(i as int).len() == 1);
            assert(gv.skip(i as int)[0] == gv[i as int]);
        }
        r
    } else {
        let mut r = v[i].clone();
        r.append(", ");
        let rest = join_comma_from(v, i + 1);
        r.append(rest.as_str());
        proof {
            reveal_strlit(", ");
            assert(gv.skip(i as int)[0] == gv[i as int]);
            assert(gv.skip(i as int).drop_first() =~= gv.skip(i as int + 1));
            assert(r@ =~= spec_join_comma(gv.skip(i as int)));
        }
        r
    }
}

/// A character that may stand in a plain identifier: ASCII letters, digits
/// and the underscore.
pub open spec fn is_ident_char(c: char) -> bool {
    ('a' <= c && c <= 'z') || ('A' <= c && c <= 'Z') || ('0' <= c && c <= '9') || c == '_'
}

/// Holds when every character of `s` may stand in a plain identifier, so
/// that interpolating `s` twice cannot duplicate a side effect.
pub open spec fn spec_simple_ident(s: Seq<char>) -> bool {
    forall|i: int| 0 <= i < s.len() ==> is_ident_char(#[trigger] s[i])
}

/// Decides `spec_simple_ident` on a string.
pub fn is_simple_ident(s: &str) -> (b: bool)
    ensures
        b == spec_simple_ident(s@),
{
    let len = s.unicode_len();
    let mut i: usize = 0;
    while i < len
        invariant
            0 <= i <= len,
            len == s@.len(),
            forall|j: int| 0 <= j < i ==> is_ident_char(#[trigger] s@[j]),
        decreases len - i,
    {
        let c = s.get_char(i);
        if !((('a' <= c && c <= 'z')) || (('A' <= c && c <= 'Z')) || (('0' <= c && c <= '9')) || c
            == '_') {
            return false;
        }
        i += 1;
    }
    true
}

} // verus!
