//! Resolution of type tokens into type descriptors.
use vstd::prelude::*;
use vstd::string::*;

use crate::error::{error_view, ErrorView, ParserError};
use crate::text::{
    chars_of, find, find_exec, lemma_find_bounds, starts_with, starts_with_exec, strip_end, strip_exec, strip_start,
    trim, trim_end, trim_exec, trim_start,
};

verus! {

/// A normalized type: a primitive, or a map from a key type to a value type.
#[derive(Debug, PartialEq, Eq)]
pub enum CairoType {
    Felt252,
    ContractAddress,
    U8,
    U16,
    U32,
    U64,
    U128,
    U256,
    LegacyMap(Box<CairoType>, Box<CairoType>),
}

/// The literal that opens a map type token.
pub open spec fn map_marker() -> Seq<char> {
    "LegacyMap"@
}

/// The primitive that a token names exactly, if any.
pub open spec fn primitive_of(t: Seq<char>) -> Option<CairoType> {
    if t == "felt252"@ {
        Some(CairoType::Felt252)
    } else if t == "ContractAddress"@ {
        Some(CairoType::ContractAddress)
    } else if t == "u8"@ {
        Some(CairoType::U8)
    } else if t == "u16"@ {
        Some(CairoType::U16)
    } else if t == "u32"@ {
        Some(CairoType::U32)
    } else if t == "u64"@ {
        Some(CairoType::U64)
    } else if t == "u128"@ {
        Some(CairoType::U128)
    } else if t == "u256"@ {
        Some(CairoType::U256)
    } else {
        None
    }
}

/// What stands between the angle brackets of a trimmed map token `u`:
/// the text after the marker, trimmed, without its leading `<` and trailing `>`.
pub open spec fn map_inner(u: Seq<char>) -> Seq<char> {
    strip_end(strip_start(trim(u.subrange(map_marker().len() as int, u.len() as int)), '<'), '>')
}

/// The key and value parts of a map's inner text, split at its first comma.
pub open spec fn map_parts(inner: Seq<char>) -> Option<(Seq<char>, Seq<char>)> {
    match find(inner, seq![',']) {
        Some(k) => Some((inner.subrange(0, k), inner.subrange(k + 1, inner.len() as int))),
        None => None,
    }
}

/// The type that a token resolves to, or `None` where it names no type.
/// The token is trimmed first; a map's key and value are resolved in turn.
pub open spec fn resolve(t: Seq<char>) -> Option<CairoType>
    decreases t.len(),
    via resolve_decreases
{
    let u = trim(t);
    if primitive_of(u) is Some {
        primitive_of(u)
    } else if starts_with(u, map_marker()) {
        match map_parts(map_inner(u)) {
            Some((k, v)) => match (resolve(k), resolve(v)) {
                (Some(a), Some(b)) => Some(CairoType::LegacyMap(Box::new(a), Box::new(b))),
                _ => None,
            },
            None => None,
        }
    } else {
        None
    }
}

proof fn lemma_trim_start_len(s: Seq<char>)
    ensures
        trim_start(s).len() <= s.len(),
    decreases s.len(),
{
    if s.len() > 0 && crate::text::is_ws(s[0]) {
        lemma_trim_start_len(s.drop_first());
    }
}

proof fn lemma_trim_end_len(s: Seq<char>)
    ensures
        trim_end(s).len() <= s.len(),
    decreases s.len(),
{
    if s.len() > 0 && crate::text::is_ws(s.last()) {
        lemma_trim_end_len(s.drop_last());
    }
}

proof fn lemma_strip_start_len(s: Seq<char>, c: char)
    ensures
        strip_start(s, c).len() <= s.len(),
    decreases s.len(),
{
    if s.len() > 0 && s[0] == c {
        lemma_strip_start_len(s.drop_first(), c);
    }
}

proof fn lemma_strip_end_len(s: Seq<char>, c: char)
    ensures
        strip_end(s, c).len() <= s.len(),
    decreases s.len(),
{
    if s.len() > 0 && s.last() == c {
        lemma_strip_end_len(s.drop_last(), c);
    }
}

/// The inner text of a map token is shorter than the token.
proof fn lemma_map_inner_len(t: Seq<char>)
    requires
        starts_with(trim(t), map_marker()),
    ensures
        map_inner(trim(t)).len() < t.len(),
{
    reveal_strlit("LegacyMap");
    let u = trim(t);
    let rest = u.subrange(map_marker().len() as int, u.len() as int);
    lemma_trim_start_len(t);
    lemma_trim_end_len(trim_start(t));
    lemma_trim_start_len(rest);
    lemma_trim_end_len(trim_start(rest));
    lemma_strip_start_len(trim(rest), '<');
    lemma_strip_end_len(strip_start(trim(rest), '<'), '>');
}

#[via_fn]
proof fn resolve_decreases(t: Seq<char>) {
    let u = trim(t);
    if primitive_of(u) is None && starts_with(u, map_marker()) {
        lemma_map_inner_len(t);
        lemma_find_bounds(map_inner(u), seq![',']);
    }
}

/// The token that a failed resolution names: the trimmed token itself, or,
/// for a map, the token of the key (or else of the value) that fails.
pub open spec fn failing_token(t: Seq<char>) -> Seq<char>
    decreases t.len(),
    via failing_token_decreases
{
    let u = trim(t);
    if primitive_of(u) is None && starts_with(u, map_marker()) {
        match map_parts(map_inner(u)) {
            Some((k, v)) => if resolve(k) is None {
                failing_token(k)
            } else {
                failing_token(v)
            },
            None => u,
        }
    } else {
        u
    }
}

#[via_fn]
proof fn failing_token_decreases(t: Seq<char>) {
    let u = trim(t);
    if primitive_of(u) is None && starts_with(u, map_marker()) {
        lemma_map_inner_len(t);
        lemma_find_bounds(map_inner(u), seq![',']);
    }
}

/// The GraphQL scalar that a type is rendered as.
pub open spec fn graphql_of(t: CairoType) -> Seq<char>
    decreases t,
{
    match t {
        CairoType::U8 | CairoType::U16 | CairoType::U32 => "Int!"@,
        CairoType::LegacyMap(k, v) => "Map!("@ + graphql_of(*k) + ", "@ + graphql_of(*v) + ")"@,
        _ => "String!"@,
    }
}

/// Whether two strings hold the same characters.
fn same_text(a: &str, b: &str) -> (r: bool)
    ensures
        r == (a@ == b@),
{
    if a.unicode_len() != b.unicode_len() {
        return false;
    }
    assert(a@.subrange(0, b@.len() as int) =~= a@);
    starts_with_exec(a, b)
}

impl CairoType {
    /// Resolves a type token: an exact primitive name, or a `LegacyMap<K, V>`
    /// whose key and value resolve in turn. Anything else is an error.
    pub fn from_token(token: &str) -> (r: Result<CairoType, ParserError>)
        ensures
            match r {
                Ok(t) => resolve(token@) == Some(t),
                Err(e) => resolve(token@) is None && error_view(e) == ErrorView::UnknownType(
                    failing_token(token@),
                ),
            },
        decreases token@.len(),
    {
        let u = trim_exec(token);
        if same_text(u, "felt252") {
            return Ok(CairoType::Felt252);
        }
        if same_text(u, "ContractAddress") {
            return Ok(CairoType::ContractAddress);
        }
        if same_text(u, "u8") {
            return Ok(CairoType::U8);
        }
        if same_text(u, "u16") {
            return Ok(CairoType::U16);
        }
        if same_text(u, "u32") {
            return Ok(CairoType::U32);
        }
        if same_text(u, "u64") {
            return Ok(CairoType::U64);
        }
        if same_text(u, "u128") {
            return Ok(CairoType::U128);
        }
        if same_text(u, "u256") {
            return Ok(CairoType::U256);
        }
        let marker = "LegacyMap";
        if !starts_with_exec(u, marker) {
            return Err(ParserError::UnknownType(u.to_owned()));
        }
        proof {
            lemma_map_inner_len(token@);
        }
        let rest = u.substring_char(marker.unicode_len(), u.unicode_len());
        let inner = strip_exec(trim_exec(rest), '<', '>');
        let iv = chars_of(inner);
        let comma = vec![','];
        assert(comma@ =~= seq![',']);
        proof {
            lemma_find_bounds(inner@, comma@);
        }
        match find_exec(&iv, &comma) {
            None => Err(ParserError::UnknownType(u.to_owned())),
            Some(k) => {
                let n = inner.unicode_len();
                let key = inner.substring_char(0, k);
                let value = inner.substring_char(k + 1, n);
                let kt = CairoType::from_token(key)?;
                let vt = CairoType::from_token(value)?;
                Ok(CairoType::LegacyMap(Box::new(kt), Box::new(vt)))
            },
        }
    }

    /// The GraphQL scalar this type is rendered as.
    pub fn to_string(&self) -> (r: String)
        ensures
            r@ == graphql_of(*self),
        decreases self,
    {
        match self {
            CairoType::U8 | CairoType::U16 | CairoType::U32 => "Int!".to_owned(),
            CairoType::LegacyMap(k, v) => {
                let mut s = "Map!(".to_owned();
                s.append(k.to_string().as_str());
                s.append(", ");
                s.append(v.to_string().as_str());
                s.append(")");
                s
            },
            _ => "String!".to_owned(),
        }
    }
}

} // verus!
