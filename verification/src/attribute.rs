//! What the annotation front end reads out of a binding attribute, and the
//! symbol names it mints for the generated describe and trampoline
//! functions.

use vstd::prelude::*;

use crate::strutil::{hex_string, spec_hex};
use vstd::string::StringSliceAdditionalSpecFns;

verus! {

/// A value given to an attribute key.
#[derive(Debug)]
pub enum AttributeValue {
    String(String),
    Boolean(bool),
}

/// The recognised binding attributes: an import namespace, a script-side
/// name, and the main-function marker.
#[derive(Debug)]
pub struct ParsedAttributes {
    pub namespace: Option<String>,
    pub name: Option<String>,
    pub main: Option<bool>,
}

/// An optional string at the character level.
pub open spec fn opt_view(o: Option<String>) -> Option<Seq<char>> {
    match o {
        Option::Some(s) => Option::Some(s@),
        Option::None => Option::None,
    }
}

/// Applies attribute pairs in order over the given state: a recognised key
/// with a value of the right kind overwrites its slot; anything else is
/// refused.
pub open spec fn spec_apply_attrs(
    pairs: Seq<(String, AttributeValue)>,
    ns: Option<Seq<char>>,
    nm: Option<Seq<char>>,
    mn: Option<bool>,
) -> Option<(Option<Seq<char>>, Option<Seq<char>>, Option<bool>)>
    decreases pairs.len(),
{
    if pairs.len() == 0 {
        Option::Some((ns, nm, mn))
    } else {
        let key = pairs[0].0@;
        if key == "namespace"@ {
            match pairs[0].1 {
                AttributeValue::String(v) => spec_apply_attrs(
                    pairs.drop_first(),
                    Option::Some(v@),
                    nm,
                    mn,
                ),
                AttributeValue::Boolean(_) => Option::None,
            }
        } else if key == "name"@ {
            match pairs[0].1 {
                AttributeValue::String(v) => spec_apply_attrs(
                    pairs.drop_first(),
                    ns,
                    Option::Some(v@),
                    mn,
                ),
                AttributeValue::Boolean(_) => Option::None,
            }
        } else if key == "main"@ {
            match pairs[0].1 {
                AttributeValue::Boolean(b) => spec_apply_attrs(
                    pairs.drop_first(),
                    ns,
                    nm,
                    Option::Some(b),
                ),
                AttributeValue::String(_) => Option::None,
            }
        } else {
            Option::None
        }
    }
}

impl ParsedAttributes {
    /// Folds a list of (key, value) pairs into the attribute set; an
    /// unrecognised key, or a recognised key with a value of the wrong
    /// kind, refuses the whole list with a diagnostic.
    pub fn parse(pairs: Vec<(String, AttributeValue)>) -> (r: Result<ParsedAttributes, String>)
        ensures
            match r {
                Ok(a) => spec_apply_attrs(pairs@, Option::None, Option::None, Option::None)
                    == Option::Some((opt_view(a.namespace), opt_view(a.name), a.main)),
                Err(_) => spec_apply_attrs(pairs@, Option::None, Option::None, Option::None)
                    is None,
            },
    {
        let key_namespace = String::from_str("namespace");
        let key_name = String::from_str("name");
        let key_main = String::from_str("main");
        let mut namespace: Option<String> = None;
        let mut name: Option<String> = None;
        let mut main: Option<bool> = None;
        let mut i: usize = 0;
        proof {
            assert(pairs@.skip(0) =~= pairs@);
        }
        while i < pairs.len()
            invariant
                0 <= i <= pairs@.len(),
                key_namespace@ == "namespace"@,
                key_name@ == "name"@,
                key_main@ == "main"@,
                spec_apply_attrs(
                    pairs@.skip(i as int),
                    opt_view(namespace),
                    opt_view(name),
                    main,
                ) == spec_apply_attrs(pairs@, Option::None, Option::None, Option::None),
            decreases pairs@.len() - i,
        {
            proof {
                assert(pairs@.skip(i as int)[0] == pairs@[i as int]);
                assert(pairs@.skip(i as int).drop_first() =~= pairs@.skip(i as int + 1));
            }
            let pair = &pairs[i];
            if pair.0.eq(&key_namespace) {
                match &pair.1 {
                    AttributeValue::String(v) => {
                        namespace = Some(v.clone());
                    },
                    AttributeValue::Boolean(_) => {
                        return Err(
                            String::from_str("invalid value type, expected String"),
                        );
                    },
                }
            } else if pair.0.eq(&key_name) {
                match &pair.1 {
                    AttributeValue::String(v) => {
                        name = Some(v.clone());
                    },
                    AttributeValue::Boolean(_) => {
                        return Err(
                            String::from_str("invalid value type, expected String"),
                        );
                    },
                }
            } else if pair.0.eq(&key_main) {
                match &pair.1 {
                    AttributeValue::Boolean(b) => {
                        main = Some(*b);
                    },
                    AttributeValue::String(_) => {
                        return Err(
                            String::from_str("invalid value type, expected Boolean"),
                        );
                    },
                }
            } else {
                return Err(String::from_str("attribute name not recognized"));
            }
            i = i + 1;
        }
        proof {
            assert(pairs@.skip(pairs@.len() as int).len() == 0);
        }
        Ok(ParsedAttributes { namespace, name, main })
    }
}

/// The running product of the symbol hash: xor the next byte in, then one
/// wrapping multiply by the prime.
pub open spec fn symbol_hash(bytes: Seq<u8>, h: u64) -> u64
    decreases bytes.len(),
{
    if bytes.len() == 0 {
        h
    } else {
        symbol_hash(
            bytes.drop_first(),
            vstd::wrapping::u64_specs::wrapping_mul(h ^ (bytes[0] as u64), 0x100000001b3),
        )
    }
}

/// The hash a symbol gets: the name's bytes, then the allocation counter's
/// eight little-endian bytes, folded from the standard offset basis.
pub open spec fn spec_symbol_hash(name: Seq<u8>, id: u64) -> u64 {
    symbol_hash(
        name + vstd::bytes::spec_u64_to_le_bytes(id),
        0xcbf29ce484222325,
    )
}

/// Mints a deterministic, collision-resistant symbol: the given stem, an
/// underscore, and the hexadecimal hash of the stem with the running
/// allocation counter.
pub fn new_symbol_name(name: &str, id: u64) -> (r: String)
    ensures
        r@ == name@ + seq!['_'] + spec_hex(spec_symbol_hash(name.spec_bytes(), id) as nat),
{
    let bytes = name.as_bytes();
    let mut h: u64 = 0xcbf29ce484222325;
    let ghost all = name.spec_bytes() + vstd::bytes::spec_u64_to_le_bytes(id);
    let mut i: usize = 0;
    proof {
        assert(all.skip(0) =~= all);
    }
    while i < bytes.len()
        invariant
            0 <= i <= bytes@.len(),
            bytes@ == name.spec_bytes(),
            all == name.spec_bytes() + vstd::bytes::spec_u64_to_le_bytes(id),
            symbol_hash(all.skip(i as int), h) == symbol_hash(all, 0xcbf29ce484222325),
        decreases bytes@.len() - i,
    {
        proof {
            assert(all.skip(i as int)[0] == all[i as int]);
            assert(all[i as int] == bytes@[i as int]);
            assert(all.skip(i as int).drop_first() =~= all.skip(i as int + 1));
        }
        h = (h ^ (bytes[i] as u64)).wrapping_mul(0x100000001b3);
        i = i + 1;
    }
    let id_bytes = vstd::bytes::u64_to_le_bytes(id);
    let mut j: usize = 0;
    proof {
        vstd::bytes::lemma_auto_spec_u64_to_from_le_bytes();
    }
    while j < id_bytes.len()
        invariant
            0 <= j <= id_bytes@.len(),
            id_bytes@ == vstd::bytes::spec_u64_to_le_bytes(id),
            all == name.spec_bytes() + vstd::bytes::spec_u64_to_le_bytes(id),
            id_bytes@.len() == 8,
            symbol_hash(all.skip(name.spec_bytes().len() + j), h) == symbol_hash(
                all,
                0xcbf29ce484222325,
            ),
        decreases id_bytes@.len() - j,
    {
        proof {
            assert(all.skip(name.spec_bytes().len() + j)[0] == all[name.spec_bytes().len()
                + j]);
            assert(all[name.spec_bytes().len() + j] == id_bytes@[j as int]);
            assert(all.skip(name.spec_bytes().len() + j).drop_first() =~= all.skip(
                name.spec_bytes().len() + j + 1,
            ));
        }
        h = (h ^ (id_bytes[j] as u64)).wrapping_mul(0x100000001b3);
        j = j + 1;
    }
    proof {
        assert(all.skip(all.len() as int).len() == 0);
    }
    let mut r = String::from_str(name);
    r.append("_");
    let hx = hex_string(h);
    r.append(hx.as_str());
    proof {
        reveal_strlit("_");
        assert(r@ =~= name@ + seq!['_'] + spec_hex(
            spec_symbol_hash(name.spec_bytes(), id) as nat,
        ));
    }
    r
}

} // verus!
