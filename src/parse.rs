//! Parsing of ListInfo DAT text, following the grammar of `grammar`.
//!
//! `parse_document` parses a whole text; `parse_fragment` parses the single
//! fragment at the start of a text. A "fragment" is one top-level record.
//! A text that ends where the grammar needs more of it fails with
//! `Error::UnknownError`; any other mismatch fails with `Error::ParseError`,
//! whose message names what was expected. No partial tree is returned.
use crate::elements::{
    data_node_model, fragments_model, scalar_node_model, DatDocument, EntryData, EntryFragment,
    FragmentModel, Node, SubEntry,
};
use crate::error::Error;
use crate::grammar::{
    document, ends_key, ends_token, fragment, is_ws, item, items, key_end, key_value, key_values,
    opens_block, quote_end, skip_ws, sub_entry, token_end, Parsed, SubScan, CLOSE, CR, LF, OPEN,
    QUOTE, SPACE, TAB,
};
use crate::group::{
    add_to_group, build_nodes, group, insert_node, lemma_build_nodes_push, lemma_build_nodes_wf,
    lemma_group_wf, lemma_key_index, lemma_key_index_push, lemma_key_index_same_keys, push_node,
    NodeModel,
};
use crate::maps::{
    field_entries, field_map_insert, field_map_new, group_entries, group_map_insert,
    group_map_new, scalar_entries, scalar_map_insert, scalar_map_new,
};
use crate::text::{slice, text};
use indexmap::IndexMap;
use vstd::prelude::*;

verus! {

/// A position where the parser may stand: the start or end of the text,
/// right after an ASCII byte, or on whitespace.
pub open spec fn at_break(s: Seq<u8>, i: int) -> bool {
    ||| i == 0
    ||| i == s.len()
    ||| (0 < i < s.len() && (s[i - 1] < 0x80 || is_ws(s[i])))
}

fn is_ws_byte(c: u8) -> (r: bool)
    ensures
        r == is_ws(c),
{
    c == SPACE || c == TAB || c == LF || c == CR
}

fn ends_token_byte(c: u8) -> (r: bool)
    ensures
        r == ends_token(c),
{
    c == SPACE || c == LF || c == CR
}

fn skip_ws_at(b: &[u8], i: usize) -> (r: usize)
    requires
        i <= b@.len(),
    ensures
        r == skip_ws(b@, i as int),
        i <= r <= b@.len(),
        r > i ==> is_ws(b@[r - 1]),
        r < b@.len() ==> !is_ws(b@[r as int]),
{
    let mut j = i;
    while j < b.len() && is_ws_byte(b[j])
        invariant
            i <= j <= b@.len(),
            skip_ws(b@, i as int) == skip_ws(b@, j as int),
            j > i ==> is_ws(b@[j - 1]),
        decreases b@.len() - j,
    {
        j = j + 1;
    }
    j
}

fn key_end_at(b: &[u8], i: usize) -> (r: usize)
    requires
        i <= b@.len(),
    ensures
        r == key_end(b@, i as int),
        i <= r <= b@.len(),
        r < b@.len() ==> ends_key(b@[r as int]),
{
    let mut j = i;
    while j < b.len() && !(ends_token_byte(b[j]) || b[j] == QUOTE)
        invariant
            i <= j <= b@.len(),
            key_end(b@, i as int) == key_end(b@, j as int),
        decreases b@.len() - j,
    {
        j = j + 1;
    }
    j
}

fn token_end_at(b: &[u8], i: usize) -> (r: usize)
    requires
        i <= b@.len(),
    ensures
        r == token_end(b@, i as int),
        i <= r <= b@.len(),
        r < b@.len() ==> ends_token(b@[r as int]),
{
    let mut j = i;
    while j < b.len() && !ends_token_byte(b[j])
        invariant
            i <= j <= b@.len(),
            token_end(b@, i as int) == token_end(b@, j as int),
        decreases b@.len() - j,
    {
        j = j + 1;
    }
    j
}

fn quote_end_at(b: &[u8], i: usize) -> (r: usize)
    requires
        i <= b@.len(),
    ensures
        r == quote_end(b@, i as int),
        i <= r <= b@.len(),
        r < b@.len() ==> b@[r as int] == QUOTE,
{
    let mut j = i;
    while j < b.len() && b[j] != QUOTE
        invariant
            i <= j <= b@.len(),
            quote_end(b@, i as int) == quote_end(b@, j as int),
        decreases b@.len() - j,
    {
        j = j + 1;
    }
    j
}

/// Whether a key followed by the bare token `(` stands at `i`.
fn opens_block_at(b: &[u8], i: usize) -> (r: bool)
    requires
        i <= b@.len(),
    ensures
        r == opens_block(b@, i as int),
{
    let a = skip_ws_at(b, i);
    let k_end = key_end_at(b, a);
    k_end > a && b[a] != CLOSE && k_end < b.len() && b.len() - k_end > 1 && b[k_end] == SPACE
        && b[k_end + 1] == OPEN && (b.len() - k_end == 2 || ends_token_byte(b[k_end + 2]))
}

/// What `parse_sub_entry` found.
enum SubEntryScan<'a> {
    Found(&'a str, SubEntry<'a>, usize),
    Absent,
    Nested,
}

/// Parses `KeyValue` at `i`.
fn parse_key_value<'a>(s: &'a str, b: &[u8], i: usize) -> (r: Option<(&'a str, &'a str, usize)>)
    requires
        b@ == text(s),
        i <= b@.len(),
        at_break(b@, i as int),
    ensures
        match key_value(b@, i as int) {
            Some((k, v, e)) => (r matches Some((kk, vv, ee)) && text(kk) == k && text(vv) == v
                && ee == e),
            None => r is None,
        },
        r matches Some((_, _, e)) ==> i < e <= b@.len() && at_break(b@, e as int),
{
    let a = skip_ws_at(b, i);
    let k_end = key_end_at(b, a);
    if k_end == a || b[a] == CLOSE || k_end >= b.len() || b[k_end] != SPACE {
        return None;
    }
    let key = slice(s, a, k_end);
    let v = k_end + 1;
    if v < b.len() && b[v] == QUOTE {
        let q = quote_end_at(b, v + 1);
        if q < b.len() {
            let value = slice(s, v + 1, q);
            return Some((key, value, q + 1));
        }
    }
    let t = token_end_at(b, v);
    if t == v {
        return None;
    }
    let value = slice(s, v, t);
    Some((key, value, t))
}

/// Stores one more value under a key of a sub-entry's map.
fn add_value<'a>(map: &mut IndexMap<&'a str, Node<&'a str>>, key: &'a str, value: &'a str)
    ensures
        scalar_entries(*final(map)) == insert_node(
            scalar_entries(*old(map)),
            text(key),
            text(value),
        ),
{
    let ghost before = scalar_entries(*map);
    proof {
        lemma_key_index(before, text(key));
    }
    match scalar_map_insert(map, key, Node::Unique(value)) {
        None => {},
        Some(prev) => {
            let ghost mid = scalar_entries(*map);
            let ghost i = crate::group::key_index(before, text(key))->0;
            let merged = match prev {
                Node::Unique(p) => Node::Many(vec![p, value]),
                Node::Many(ps) => {
                    let mut ps = ps;
                    ps.push(value);
                    Node::Many(ps)
                },
            };
            proof {
                assert forall|j: int| 0 <= j < mid.len() implies (#[trigger] mid[j]).0
                    == before[j].0 by {}
                lemma_key_index_same_keys(mid, before, text(key));
                assert(scalar_node_model(merged) == push_node(before[i].1, text(value))) by {
                    match prev {
                        Node::Unique(p) => {
                            assert(scalar_node_model(merged)->Many_0 =~= seq![text(p), text(value)]);
                        },
                        Node::Many(ps) => {
                            assert(scalar_node_model(merged)->Many_0 =~= ps@.map_values(
                                |t: &str| text(t),
                            ).push(text(value)));
                        },
                    }
                }
            }
            scalar_map_insert(map, key, merged);
        },
    }
}

/// Parses `SubEntry` at `i`.
fn parse_sub_entry<'a>(s: &'a str, b: &[u8], i: usize) -> (r: SubEntryScan<'a>)
    requires
        b@ == text(s),
        i <= b@.len(),
        at_break(b@, i as int),
    ensures
        match sub_entry(b@, i as int) {
            SubScan::Found(k, kvs, e) => (r matches SubEntryScan::Found(kk, se, ee) && text(kk)
                == k && se@ == build_nodes(kvs) && ee == e),
            SubScan::Absent => r is Absent,
            SubScan::Nested => r is Nested,
        },
        r matches SubEntryScan::Found(_, _, e) ==> i < e <= b@.len() && at_break(b@, e as int),
{
    let a = skip_ws_at(b, i);
    let k_end = key_end_at(b, a);
    if k_end == a || b[a] == CLOSE || k_end >= b.len() || b[k_end] != SPACE {
        return SubEntryScan::Absent;
    }
    let c = skip_ws_at(b, k_end + 1);
    if c >= b.len() || b[c] != OPEN {
        return SubEntryScan::Absent;
    }
    let mut map = scalar_map_new();
    let ghost mut acc: Seq<(Seq<u8>, Seq<u8>)> = seq![];
    let mut pos = c + 1;
    let mut any = false;
    loop
        invariant
            b@ == text(s),
            c + 1 <= pos <= b@.len(),
            at_break(b@, pos as int),
            key_values(b@, c + 1) == (acc + key_values(b@, pos as int).0, key_values(
                b@,
                pos as int,
            ).1),
            scalar_entries(map) == build_nodes(acc),
            any == (acc.len() > 0),
        ensures
            key_values(b@, c + 1) == (acc, pos as int),
        decreases b@.len() - pos,
    {
        if opens_block_at(b, pos) {
            proof {
                assert(acc + key_values(b@, pos as int).0 =~= acc);
            }
            break ;
        }
        match parse_key_value(s, b, pos) {
            Some((k, v, e)) => {
                add_value(&mut map, k, v);
                proof {
                    lemma_build_nodes_push(acc, text(k), text(v));
                    assert(acc + key_values(b@, pos as int).0 =~= acc.push((text(k), text(v)))
                        + key_values(b@, e as int).0);
                    acc = acc.push((text(k), text(v)));
                }
                pos = e;
                any = true;
            },
            None => {
                proof {
                    assert(acc + key_values(b@, pos as int).0 =~= acc);
                }
                break ;
            },
        }
    }
    if opens_block_at(b, pos) {
        return SubEntryScan::Nested;
    }
    let d = skip_ws_at(b, pos);
    if !any || d >= b.len() || b[d] != CLOSE {
        return SubEntryScan::Absent;
    }
    proof {
        lemma_build_nodes_wf(acc);
    }
    let key = slice(s, a, k_end);
    SubEntryScan::Found(key, SubEntry::new(map), d + 1)
}

/// What `parse_item` found.
enum ItemScan<'a> {
    Item(&'a str, EntryData<'a>, usize),
    Nested,
    End,
}

/// Parses `SubEntry | KeyValue` at `i`.
fn parse_item<'a>(s: &'a str, b: &[u8], i: usize) -> (r: ItemScan<'a>)
    requires
        b@ == text(s),
        i <= b@.len(),
        at_break(b@, i as int),
    ensures
        match item(b@, i as int) {
            Some((k, d, e)) => (r matches ItemScan::Item(kk, dd, ee) && text(kk) == k && dd@ == d
                && ee == e),
            None => (r is Nested <==> sub_entry(b@, i as int) is Nested) && r !is Item,
        },
        r matches ItemScan::Item(_, _, e) ==> i < e <= b@.len() && at_break(b@, e as int),
{
    match parse_sub_entry(s, b, i) {
        SubEntryScan::Found(k, se, e) => ItemScan::Item(k, EntryData::SubEntry(se), e),
        SubEntryScan::Nested => ItemScan::Nested,
        SubEntryScan::Absent => match parse_key_value(s, b, i) {
            Some((k, v, e)) => ItemScan::Item(k, EntryData::Scalar(v), e),
            None => ItemScan::End,
        },
    }
}

/// Stores one more value under a key of a fragment's map.
fn add_field<'a>(map: &mut IndexMap<&'a str, Node<EntryData<'a>>>, key: &'a str, value: EntryData<'a>)
    ensures
        field_entries(*final(map)) == insert_node(field_entries(*old(map)), text(key), value@),
{
    let ghost before = field_entries(*map);
    proof {
        lemma_key_index(before, text(key));
    }
    match field_map_insert(map, key, Node::Unique(EntryData::Scalar(key))) {
        None => {
            proof {
                let mid = field_entries(*map);
                lemma_key_index_push(before, mid.last(), text(key));
            }
            field_map_insert(map, key, Node::Unique(value));
            proof {
                assert(field_entries(*map) =~= before.push((text(key), NodeModel::Unique(value@))));
            }
        },
        Some(prev) => {
            let ghost mid = field_entries(*map);
            let ghost i = crate::group::key_index(before, text(key))->0;
            let merged = match prev {
                Node::Unique(p) => Node::Many(vec![p, value]),
                Node::Many(ps) => {
                    let mut ps = ps;
                    ps.push(value);
                    Node::Many(ps)
                },
            };
            proof {
                assert forall|j: int| 0 <= j < mid.len() implies (#[trigger] mid[j]).0
                    == before[j].0 by {}
                lemma_key_index_same_keys(mid, before, text(key));
            }
            proof {
                assert(data_node_model(merged) == push_node(before[i].1, value@)) by {
                    match prev {
                        Node::Unique(p) => {
                            assert(data_node_model(merged)->Many_0 =~= seq![p@, value@]);
                        },
                        Node::Many(ps) => {
                            assert(data_node_model(merged)->Many_0 =~= ps@.map_values(
                                |d: EntryData| d@,
                            ).push(value@));
                        },
                    }
                }
            }
            field_map_insert(map, key, merged);
            proof {
                assert(field_entries(*map) =~= insert_node(before, text(key), value@));
            }
        },
    }
}

/// Parses `Fragment` at `i`.
fn parse_fragment_at<'a>(s: &'a str, b: &[u8], i: usize) -> (r: Result<(&'a str, EntryFragment<'a>, usize), Error>)
    requires
        b@ == text(s),
        i <= b@.len(),
        at_break(b@, i as int),
    ensures
        match fragment(b@, i as int) {
            Parsed::Done((k, f), e) => (r matches Ok((kk, ff, ee)) && text(kk) == k && ff@ == f
                && ee == e),
            Parsed::Incomplete => (r matches Err(Error::UnknownError)),
            Parsed::Mismatch => (r matches Err(Error::ParseError(_))),
        },
        r matches Ok((_, _, e)) ==> i < e <= b@.len() && at_break(b@, e as int),
{
    let a = skip_ws_at(b, i);
    if a >= b.len() {
        return Err(Error::UnknownError);
    }
    let k_end = key_end_at(b, a);
    if k_end == a || b[a] == CLOSE {
        return Err(Error::ParseError("expected a key".to_string()));
    }
    let c = skip_ws_at(b, k_end);
    if c >= b.len() {
        return Err(Error::UnknownError);
    }
    if b[c] != OPEN {
        return Err(Error::ParseError("expected '('".to_string()));
    }
    let mut map = field_map_new();
    let ghost mut acc: Seq<(Seq<u8>, crate::elements::DataModel)> = seq![];
    let mut pos = c + 1;
    loop
        invariant
            b@ == text(s),
            c + 1 <= pos <= b@.len(),
            at_break(b@, pos as int),
            items(b@, c + 1) == (acc + items(b@, pos as int).0, items(b@, pos as int).1),
            a == skip_ws(b@, i as int),
            k_end == key_end(b@, a as int),
            a < k_end <= b@.len(),
            b@[a as int] != CLOSE,
            c == skip_ws(b@, k_end as int),
            c < b@.len(),
            b@[c as int] == OPEN,
            field_entries(map) == build_nodes(acc),
        ensures
            items(b@, c + 1) == (acc, pos as int),
        decreases b@.len() - pos,
    {
        match parse_item(s, b, pos) {
            ItemScan::Item(k, d, e) => {
                let ghost dm = d@;
                add_field(&mut map, k, d);
                proof {
                    lemma_build_nodes_push(acc, text(k), dm);
                    assert(acc + items(b@, pos as int).0 =~= acc.push((text(k), dm)) + items(
                        b@,
                        e as int,
                    ).0);
                    acc = acc.push((text(k), dm));
                }
                pos = e;
            },
            ItemScan::Nested => {
                proof {
                    assert(items(b@, pos as int) == (Seq::<(Seq<u8>, crate::elements::DataModel)>::empty(), pos as int));
                }
                return Err(Error::ParseError("a sub-entry holds a nested block".to_string()));
            },
            ItemScan::End => {
                proof {
                    assert(acc + items(b@, pos as int).0 =~= acc);
                }
                break ;
            },
        }
    }
    let d = skip_ws_at(b, pos);
    if d >= b.len() {
        return Err(Error::UnknownError);
    }
    if b[d] != CLOSE {
        return Err(Error::ParseError("expected ')'".to_string()));
    }
    proof {
        lemma_build_nodes_wf(acc);
    }
    let key = slice(s, a, k_end);
    Ok((key, EntryFragment::new(map), d + 1))
}

/// Parses the single ListInfo fragment at the start of `input`, returning
/// its key and the fragment; what follows the fragment is not read.
pub fn parse_fragment<'a>(input: &'a str) -> (r: Result<(&'a str, EntryFragment<'a>), Error>)
    ensures
        match fragment(text(input), 0) {
            Parsed::Done((k, f), _) => (r matches Ok((kk, ff)) && text(kk) == k && ff@ == f),
            Parsed::Incomplete => (r matches Err(Error::UnknownError)),
            Parsed::Mismatch => (r matches Err(Error::ParseError(_))),
        },
{
    let b = input.as_bytes();
    match parse_fragment_at(input, b, 0) {
        Ok((k, f, _)) => Ok((k, f)),
        Err(e) => Err(e),
    }
}

/// Stores one more fragment under a key of a document's map.
fn add_fragment<'a>(map: &mut IndexMap<&'a str, Vec<EntryFragment<'a>>>, key: &'a str, frag: EntryFragment<'a>)
    ensures
        group_entries(*final(map)) == add_to_group(group_entries(*old(map)), text(key), frag@),
{
    let ghost before = group_entries(*map);
    proof {
        lemma_key_index(before, text(key));
    }
    match group_map_insert(map, key, Vec::new()) {
        None => {
            proof {
                let mid = group_entries(*map);
                lemma_key_index_push(before, mid.last(), text(key));
            }
            let ghost fm = frag@;
            let v = vec![frag];
            proof {
                assert(fragments_model(v@) =~= seq![fm]);
            }
            group_map_insert(map, key, v);
            proof {
                assert(group_entries(*map) =~= before.push((text(key), seq![fm])));
            }
        },
        Some(prev) => {
            let ghost mid = group_entries(*map);
            let ghost i = crate::group::key_index(before, text(key))->0;
            let ghost fm = frag@;
            let mut v = prev;
            v.push(frag);
            proof {
                assert forall|j: int| 0 <= j < mid.len() implies (#[trigger] mid[j]).0
                    == before[j].0 by {}
                lemma_key_index_same_keys(mid, before, text(key));
                assert(fragments_model(v@) =~= before[i].1.push(fm));
            }
            group_map_insert(map, key, v);
            proof {
                assert(group_entries(*map) =~= add_to_group(before, text(key), fm));
            }
        },
    }
}

/// Parses a whole ListInfo text as a document: its fragments grouped by
/// key, in order of first appearance. Only whitespace may follow the last
/// fragment.
pub fn parse_document<'a>(input: &'a str) -> (r: Result<DatDocument<'a>, Error>)
    ensures
        match document(text(input), 0) {
            Parsed::Done(fs, _) => (r matches Ok(d) && d@ == group(fs)),
            Parsed::Incomplete => (r matches Err(Error::UnknownError)),
            Parsed::Mismatch => (r matches Err(Error::ParseError(_))),
        },
{
    let b = input.as_bytes();
    let mut map = group_map_new();
    let ghost mut frags: Seq<(Seq<u8>, FragmentModel)> = seq![];
    let mut pos: usize = 0;
    loop
        invariant
            b@ == text(input),
            pos <= b@.len(),
            at_break(b@, pos as int),
            group_entries(map) == group(frags),
            match document(b@, pos as int) {
                Parsed::Done(rest, e) => document(b@, 0) == Parsed::Done(frags + rest, e),
                Parsed::Incomplete => document(b@, 0) is Incomplete,
                Parsed::Mismatch => document(b@, 0) is Mismatch,
            },
        decreases b@.len() - pos,
    {
        let a = skip_ws_at(b, pos);
        if a >= b.len() {
            proof {
                lemma_group_wf(frags);
                assert(frags + seq![] =~= frags);
            }
            return Ok(DatDocument::new(map));
        }
        match parse_fragment_at(input, b, a) {
            Ok((k, f, e)) => {
                let ghost fm = f@;
                add_fragment(&mut map, k, f);
                proof {
                    let x = (text(k), fm);
                    assert(frags.push(x).drop_last() =~= frags);
                    match document(b@, e as int) {
                        Parsed::Done(rest, _) => {
                            assert(frags + (seq![x] + rest) =~= frags.push(x) + rest);
                        },
                        _ => {},
                    }
                    frags = frags.push(x);
                }
                pos = e;
            },
            Err(err) => {
                return Err(err);
            },
        }
    }
}

} // verus!
