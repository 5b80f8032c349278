//! The grammar of the ListInfo text, over its UTF-8 bytes.
//!
//! ```text
//! Document   := (OptWS Fragment)* OptWS
//! Fragment   := OptWS Key OptWS '(' (SubEntry | KeyValue)* OptWS ')'
//! SubEntry   := OptWS Key ' ' OptWS '(' KeyValue+ OptWS ')'
//! KeyValue   := OptWS Key ' ' (QuotedString | BareToken)
//! QuotedString := '"' [^"]* '"'
//! BareToken  := one or more bytes other than space and line breaks
//! Key        := one or more bytes other than space, line breaks and '"',
//!               not starting with ')'
//! OptWS      := zero or more spaces, tabs and line breaks
//! ```
//!
//! A line break is LF or CR. Alternatives are tried in the order written,
//! and a repetition ends at the first item that does not parse. A key is
//! separated from its value by exactly one space. A key never starts with
//! `)`: a `)` where a key could start closes the block. A bare token runs to
//! the next space or line break, so it may hold parentheses, such as
//! `name(v).bin`. Sub-entries do not nest: a key inside a sub-entry followed
//! by the bare token `(` opens a block, and the fragment fails to parse.
use crate::elements::{DataModel, FragmentModel};
use crate::group::build_nodes;
use vstd::prelude::*;

verus! {

pub const SPACE: u8 = 0x20;

pub const TAB: u8 = 0x09;

pub const LF: u8 = 0x0A;

pub const CR: u8 = 0x0D;

pub const QUOTE: u8 = 0x22;

pub const OPEN: u8 = 0x28;

pub const CLOSE: u8 = 0x29;

pub open spec fn is_line_break(c: u8) -> bool {
    c == LF || c == CR
}

pub open spec fn is_ws(c: u8) -> bool {
    c == SPACE || c == TAB || is_line_break(c)
}

/// A byte that ends a bare token.
pub open spec fn ends_token(c: u8) -> bool {
    c == SPACE || is_line_break(c)
}

/// A byte that ends a key.
pub open spec fn ends_key(c: u8) -> bool {
    ends_token(c) || c == QUOTE
}

/// The first position at or after `i` that holds no whitespace.
pub open spec fn skip_ws(s: Seq<u8>, i: int) -> int
    decreases s.len() - i,
{
    if i < 0 || i >= s.len() || !is_ws(s[i]) {
        i
    } else {
        skip_ws(s, i + 1)
    }
}

/// The first position at or after `i` that ends a key.
pub open spec fn key_end(s: Seq<u8>, i: int) -> int
    decreases s.len() - i,
{
    if i < 0 || i >= s.len() || ends_key(s[i]) {
        i
    } else {
        key_end(s, i + 1)
    }
}

/// The first position at or after `i` that ends a bare token.
pub open spec fn token_end(s: Seq<u8>, i: int) -> int
    decreases s.len() - i,
{
    if i < 0 || i >= s.len() || ends_token(s[i]) {
        i
    } else {
        token_end(s, i + 1)
    }
}

/// The first position at or after `i` that holds a quote.
pub open spec fn quote_end(s: Seq<u8>, i: int) -> int
    decreases s.len() - i,
{
    if i < 0 || i >= s.len() || s[i] == QUOTE {
        i
    } else {
        quote_end(s, i + 1)
    }
}

/// A key runs from `a` to `b`: it is not empty and does not start with `)`.
pub open spec fn is_key(s: Seq<u8>, a: int, b: int) -> bool {
    0 <= a < b <= s.len() && s[a] != CLOSE
}

/// `KeyValue` at `i`: the key, the value and the position after it.
pub open spec fn key_value(s: Seq<u8>, i: int) -> Option<(Seq<u8>, Seq<u8>, int)> {
    let a = skip_ws(s, i);
    let b = key_end(s, a);
    if !is_key(s, a, b) || b >= s.len() || s[b] != SPACE {
        None
    } else {
        let v = b + 1;
        let q = quote_end(s, v + 1);
        if v < s.len() && s[v] == QUOTE && q < s.len() {
            Some((s.subrange(a, b), s.subrange(v + 1, q), q + 1))
        } else {
            let t = token_end(s, v);
            if t == v {
                None
            } else {
                Some((s.subrange(a, b), s.subrange(v, t), t))
            }
        }
    }
}

/// At `i` a key is followed by the bare token `(`: a block opens there.
pub open spec fn opens_block(s: Seq<u8>, i: int) -> bool {
    let a = skip_ws(s, i);
    let b = key_end(s, a);
    &&& is_key(s, a, b)
    &&& b + 1 < s.len()
    &&& s[b] == SPACE
    &&& s[b + 1] == OPEN
    &&& (b + 2 == s.len() || ends_token(s[b + 2]))
}

/// `KeyValue*` at `i` inside a sub-entry: the pairs and the position after
/// them. The pairs end where a block opens.
pub open spec fn key_values(s: Seq<u8>, i: int) -> (Seq<(Seq<u8>, Seq<u8>)>, int)
    decreases s.len() - i,
{
    if opens_block(s, i) {
        (seq![], i)
    } else {
        match key_value(s, i) {
        Some((k, v, e)) => if i < e <= s.len() {
            (seq![(k, v)] + key_values(s, e).0, key_values(s, e).1)
        } else {
            (seq![], i)
        },
        None => (seq![], i),
    }
    }
}

/// What stands at a position where a sub-entry may start.
pub enum SubScan {
    /// A sub-entry: its key, its pairs and the position after it.
    Found(Seq<u8>, Seq<(Seq<u8>, Seq<u8>)>, int),
    /// No sub-entry.
    Absent,
    /// A sub-entry whose body opens a further block.
    Nested,
}

/// `SubEntry` at `i`: the key, the pairs of the block and the position
/// after it.
pub open spec fn sub_entry(s: Seq<u8>, i: int) -> SubScan {
    let a = skip_ws(s, i);
    let b = key_end(s, a);
    if !is_key(s, a, b) || b >= s.len() || s[b] != SPACE {
        SubScan::Absent
    } else {
        let c = skip_ws(s, b + 1);
        if c >= s.len() || s[c] != OPEN {
            SubScan::Absent
        } else {
            let e = key_values(s, c + 1).1;
            let d = skip_ws(s, e);
            if opens_block(s, e) {
                SubScan::Nested
            } else if key_values(s, c + 1).0.len() == 0 || d >= s.len() || s[d] != CLOSE {
                SubScan::Absent
            } else {
                SubScan::Found(s.subrange(a, b), key_values(s, c + 1).0, d + 1)
            }
        }
    }
}

/// `SubEntry | KeyValue` at `i`: the key, the value and the position after.
/// A nested block is no item.
pub open spec fn item(s: Seq<u8>, i: int) -> Option<(Seq<u8>, DataModel, int)> {
    match sub_entry(s, i) {
        SubScan::Found(k, kvs, e) => Some((k, DataModel::SubEntry(build_nodes(kvs)), e)),
        SubScan::Nested => None,
        SubScan::Absent => match key_value(s, i) {
            Some((k, v, e)) => Some((k, DataModel::Scalar(v), e)),
            None => None,
        },
    }
}

/// `(SubEntry | KeyValue)*` at `i`: the fields and the position after them.
pub open spec fn items(s: Seq<u8>, i: int) -> (Seq<(Seq<u8>, DataModel)>, int)
    decreases s.len() - i,
{
    match item(s, i) {
        Some((k, d, e)) => if i < e <= s.len() {
            (seq![(k, d)] + items(s, e).0, items(s, e).1)
        } else {
            (seq![], i)
        },
        None => (seq![], i),
    }
}

/// The outcome of parsing a fragment or a document.
pub enum Parsed<T> {
    /// The value and the position after it.
    Done(T, int),
    /// The text ended where the grammar needed more.
    Incomplete,
    /// The text holds something that the grammar does not allow there.
    Mismatch,
}

/// `Fragment` at `i`: its key and its fields, grouped by key.
pub open spec fn fragment(s: Seq<u8>, i: int) -> Parsed<(Seq<u8>, FragmentModel)> {
    let a = skip_ws(s, i);
    let b = key_end(s, a);
    if a >= s.len() {
        Parsed::Incomplete
    } else if !is_key(s, a, b) {
        Parsed::Mismatch
    } else {
        let c = skip_ws(s, b);
        if c >= s.len() {
            Parsed::Incomplete
        } else if s[c] != OPEN {
            Parsed::Mismatch
        } else {
            let e = items(s, c + 1).1;
            let d = skip_ws(s, e);
            if sub_entry(s, e) is Nested {
                Parsed::Mismatch
            } else if d >= s.len() {
                Parsed::Incomplete
            } else if s[d] != CLOSE {
                Parsed::Mismatch
            } else {
                Parsed::Done((s.subrange(a, b), build_nodes(items(s, c + 1).0)), d + 1)
            }
        }
    }
}

/// `Document` from `i` to the end of the text: its fragments with their keys.
pub open spec fn document(s: Seq<u8>, i: int) -> Parsed<Seq<(Seq<u8>, FragmentModel)>>
    decreases s.len() - i,
{
    let a = skip_ws(s, i);
    if a < 0 || a >= s.len() {
        Parsed::Done(seq![], a)
    } else {
        match fragment(s, a) {
            Parsed::Done(f, e) => if i < e <= s.len() {
                match document(s, e) {
                    Parsed::Done(fs, end) => Parsed::Done(seq![f] + fs, end),
                    Parsed::Incomplete => Parsed::Incomplete,
                    Parsed::Mismatch => Parsed::Mismatch,
                }
            } else {
                Parsed::Mismatch
            },
            Parsed::Incomplete => Parsed::Incomplete,
            Parsed::Mismatch => Parsed::Mismatch,
        }
    }
}

} // verus!
