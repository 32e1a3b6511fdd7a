//! A character-level JSON subset: strings, arrays of strings, and the
//! punctuation around them.
//!
//! The container's manifest and the marker file are JSON texts of a fixed
//! shape, so the engine carries its own serialiser and parser for exactly the
//! pieces those shapes use. Every executable function mirrors a spec-level
//! parser function exactly, and the lemmas at the end show that parsing a
//! serialised string or array gives back the original value.

use vstd::prelude::*;

use crate::text::{char_from_scalar, chars_to_string, string_to_chars};

verus! {

/// JSON insignificant whitespace.
pub open spec fn is_ws(c: char) -> bool {
    c == ' ' || c == '\t' || c == '\n' || c == '\r'
}

/// The first position at or after `i` that does not hold whitespace.
pub open spec fn skip_ws(s: Seq<char>, i: int) -> int
    decreases s.len() - i,
{
    if 0 <= i && i < s.len() && is_ws(s[i]) {
        skip_ws(s, i + 1)
    } else {
        i
    }
}

/// Skipping whitespace stays inside the text and never moves backwards.
pub proof fn lemma_skip_ws_bounds(s: Seq<char>, i: int)
    requires
        0 <= i <= s.len(),
    ensures
        i <= skip_ws(s, i) <= s.len(),
    decreases s.len() - i,
{
    if i < s.len() && is_ws(s[i]) {
        lemma_skip_ws_bounds(s, i + 1);
    }
}

/// Expects the single character `c` after optional whitespace.
pub open spec fn parse_sym(s: Seq<char>, i: int, c: char) -> Option<int> {
    let j = skip_ws(s, i);
    if j < s.len() && s[j] == c && !is_ws(c) {
        Some(j + 1)
    } else {
        None
    }
}

/// Expects the literal text `lit` after optional whitespace.
pub open spec fn parse_lit(s: Seq<char>, i: int, lit: Seq<char>) -> Option<int> {
    let j = skip_ws(s, i);
    if lit.len() > 0 && !is_ws(lit[0]) && j + lit.len() <= s.len() && s.subrange(
        j,
        j + lit.len(),
    ) == lit {
        Some(j + lit.len())
    } else {
        None
    }
}

/// The numeric value of a hexadecimal digit.
pub open spec fn hex_val(c: char) -> Option<u32> {
    if '0' <= c && c <= '9' {
        Some((((c as u32) - ('0' as u32)) as u32))
    } else if 'a' <= c && c <= 'f' {
        Some((((c as u32) - ('a' as u32) + 10) as u32))
    } else if 'A' <= c && c <= 'F' {
        Some((((c as u32) - ('A' as u32) + 10) as u32))
    } else {
        None
    }
}

/// The character an escape sequence names, with the position after it.
/// `i` points just past the backslash. A `\u` escape either names a scalar
/// of the basic plane directly, or opens a surrogate pair whose second half
/// follows as another `\u` escape; a lone surrogate half is rejected.
pub open spec fn parse_escape(s: Seq<char>, i: int) -> Option<(char, int)> {
    if !(0 <= i && i < s.len()) {
        None
    } else if s[i] == '"' {
        Some(('"', i + 1))
    } else if s[i] == '\\' {
        Some(('\\', i + 1))
    } else if s[i] == '/' {
        Some(('/', i + 1))
    } else if s[i] == 'b' {
        Some(('\u{0008}', i + 1))
    } else if s[i] == 'f' {
        Some(('\u{000c}', i + 1))
    } else if s[i] == 'n' {
        Some(('\n', i + 1))
    } else if s[i] == 'r' {
        Some(('\r', i + 1))
    } else if s[i] == 't' {
        Some(('\t', i + 1))
    } else if s[i] == 'u' && i + 5 <= s.len() {
        match (hex_val(s[i + 1]), hex_val(s[i + 2]), hex_val(s[i + 3]), hex_val(s[i + 4])) {
            (Some(h1), Some(h2), Some(h3), Some(h4)) => {
                let v = ((h1 * 4096 + h2 * 256 + h3 * 16 + h4) as u32);
                if 0xD800 <= v && v < 0xDC00 {
                    parse_low_surrogate(s, i + 5, v)
                } else if 0xDC00 <= v && v < 0xE000 {
                    None
                } else {
                    Some(((v as char), i + 5))
                }
            },
            _ => None,
        }
    } else {
        None
    }
}

/// The second half of a surrogate pair: a `\uXXXX` escape at `i` holding a
/// low surrogate, combined with the high surrogate `hi` into one scalar
/// beyond the basic plane.
pub open spec fn parse_low_surrogate(s: Seq<char>, i: int, hi: u32) -> Option<(char, int)> {
    if i + 6 <= s.len() && s[i] == '\\' && s[i + 1] == 'u' {
        match (hex_val(s[i + 2]), hex_val(s[i + 3]), hex_val(s[i + 4]), hex_val(s[i + 5])) {
            (Some(l1), Some(l2), Some(l3), Some(l4)) => {
                let w = ((l1 * 4096 + l2 * 256 + l3 * 16 + l4) as u32);
                if 0xDC00 <= w && w < 0xE000 {
                    let cp = ((0x10000 + (hi - 0xD800) * 0x400 + (w - 0xDC00)) as u32);
                    Some(((cp as char), i + 6))
                } else {
                    None
                }
            },
            _ => None,
        }
    } else {
        None
    }
}

/// The characters of a string literal from just after the opening quote,
/// with the position after the closing quote.
pub open spec fn parse_string_body(s: Seq<char>, i: int) -> Option<(Seq<char>, int)>
    decreases s.len() - i,
{
    if !(0 <= i && i < s.len()) {
        None
    } else if s[i] == '"' {
        Some((Seq::empty(), i + 1))
    } else if s[i] == '\\' {
        match parse_escape(s, i + 1) {
            Some((c, j)) => if j <= s.len() {
                match parse_string_body(s, j) {
                    Some((t, e)) => Some((seq![c] + t, e)),
                    None => None,
                }
            } else {
                None
            },
            None => None,
        }
    } else if (s[i] as u32) < 0x20 {
        None
    } else {
        match parse_string_body(s, i + 1) {
            Some((t, e)) => Some((seq![s[i]] + t, e)),
            None => None,
        }
    }
}

/// A JSON string literal after optional whitespace: its characters and the
/// position after the closing quote.
pub open spec fn parse_string(s: Seq<char>, i: int) -> Option<(Seq<char>, int)> {
    let j = skip_ws(s, i);
    if j < s.len() && s[j] == '"' {
        parse_string_body(s, j + 1)
    } else {
        None
    }
}

/// A successful string-body parse ends past where it started, inside the text.
pub proof fn lemma_parse_string_body_advances(s: Seq<char>, i: int)
    requires
        parse_string_body(s, i) is Some,
    ensures
        i < parse_string_body(s, i).unwrap().1 <= s.len(),
    decreases s.len() - i,
{
    if s[i] == '"' {
    } else if s[i] == '\\' {
        let (c, j) = parse_escape(s, i + 1).unwrap();
        lemma_parse_string_body_advances(s, j);
    } else {
        lemma_parse_string_body_advances(s, i + 1);
    }
}

/// A successful string parse ends past where it started, inside the text.
pub proof fn lemma_parse_string_advances(s: Seq<char>, i: int)
    requires
        0 <= i <= s.len(),
        parse_string(s, i) is Some,
    ensures
        i < parse_string(s, i).unwrap().1 <= s.len(),
{
    lemma_skip_ws_bounds(s, i);
    let j = skip_ws(s, i);
    lemma_parse_string_body_advances(s, j + 1);
}

/// The items of a string array from the position after `[`, expecting at
/// least one item, up to and including the closing `]`.
pub open spec fn parse_items(s: Seq<char>, i: int) -> Option<(Seq<Seq<char>>, int)>
    decreases s.len() - i,
    when 0 <= i <= s.len()
{
    match parse_string(s, i) {
        None => None,
        Some((v0, j)) => {
            let k = skip_ws(s, j);
            if k < s.len() && s[k] == ',' {
                proof {
                    lemma_parse_string_advances(s, i);
                    lemma_skip_ws_bounds(s, j);
                }
                match parse_items(s, k + 1) {
                    None => None,
                    Some((vs, e)) => Some((seq![v0] + vs, e)),
                }
            } else if k < s.len() && s[k] == ']' {
                Some((seq![v0], k + 1))
            } else {
                None
            }
        },
    }
}

/// A JSON array of string literals after optional whitespace: its items and
/// the position after the closing bracket.
pub open spec fn parse_string_array(s: Seq<char>, i: int) -> Option<(Seq<Seq<char>>, int)> {
    if !(0 <= i <= s.len()) {
        None
    } else {
        let j = skip_ws(s, i);
        if j < s.len() && s[j] == '[' {
            let k = skip_ws(s, j + 1);
            if k < s.len() && s[k] == ']' {
                Some((Seq::empty(), k + 1))
            } else {
                parse_items(s, j + 1)
            }
        } else {
            None
        }
    }
}

/// A successful items parse ends past where it started, inside the text.
pub proof fn lemma_parse_items_advances(s: Seq<char>, i: int)
    requires
        0 <= i <= s.len(),
        parse_items(s, i) is Some,
    ensures
        i < parse_items(s, i).unwrap().1 <= s.len(),
    decreases s.len() - i,
{
    let (v0, j) = parse_string(s, i).unwrap();
    lemma_parse_string_advances(s, i);
    let k = skip_ws(s, j);
    lemma_skip_ws_bounds(s, j);
    if k < s.len() && s[k] == ',' {
        lemma_parse_items_advances(s, k + 1);
    }
}

/// The lowercase hexadecimal digit for a value below sixteen.
pub open spec fn hex_digit(v: u32) -> char {
    if v == 0 {
        '0'
    } else if v == 1 {
        '1'
    } else if v == 2 {
        '2'
    } else if v == 3 {
        '3'
    } else if v == 4 {
        '4'
    } else if v == 5 {
        '5'
    } else if v == 6 {
        '6'
    } else if v == 7 {
        '7'
    } else if v == 8 {
        '8'
    } else if v == 9 {
        '9'
    } else if v == 10 {
        'a'
    } else if v == 11 {
        'b'
    } else if v == 12 {
        'c'
    } else if v == 13 {
        'd'
    } else if v == 14 {
        'e'
    } else {
        'f'
    }
}

/// How a single character is written inside a JSON string literal: quote and
/// backslash are escaped, control characters become `\u00XX`, everything
/// else stands as itself.
pub open spec fn escape_char(c: char) -> Seq<char> {
    if c == '"' {
        seq!['\\', '"']
    } else if c == '\\' {
        seq!['\\', '\\']
    } else if (c as u32) < 0x20 {
        seq!['\\', 'u', '0', '0', hex_digit((c as u32) / 16), hex_digit((c as u32) % 16)]
    } else {
        seq![c]
    }
}

/// The escaped body of a JSON string literal.
pub open spec fn escape_string(s: Seq<char>) -> Seq<char>
    decreases s.len(),
{
    if s.len() == 0 {
        Seq::empty()
    } else {
        escape_char(s[0]) + escape_string(s.drop_first())
    }
}

/// A full JSON string literal, quotes included.
pub open spec fn json_string(s: Seq<char>) -> Seq<char> {
    seq!['"'] + escape_string(s) + seq!['"']
}

/// The comma-separated items of a non-empty string array.
pub open spec fn items_text(vs: Seq<Seq<char>>) -> Seq<char>
    decreases vs.len(),
{
    if vs.len() == 0 {
        Seq::empty()
    } else if vs.len() == 1 {
        json_string(vs[0])
    } else {
        json_string(vs[0]) + seq![','] + items_text(vs.drop_first())
    }
}

/// A full JSON array of string literals, brackets included.
pub open spec fn json_string_array(vs: Seq<Seq<char>>) -> Seq<char> {
    seq!['['] + items_text(vs) + seq![']']
}

/// Escaping distributes over appending one character.
pub proof fn lemma_escape_push(s: Seq<char>, c: char)
    ensures
        escape_string(s.push(c)) == escape_string(s) + escape_char(c),
    decreases s.len(),
{
    if s.len() == 0 {
        assert(s.push(c)[0] == c);
        assert(s.push(c).drop_first() =~= Seq::<char>::empty());
        assert(escape_string(s.push(c)) == escape_char(s.push(c)[0]) + escape_string(
            s.push(c).drop_first(),
        ));
        assert(escape_string(s.push(c)) =~= escape_string(s) + escape_char(c));
    } else {
        assert(s.push(c)[0] == s[0]);
        assert(s.push(c).drop_first() =~= s.drop_first().push(c));
        lemma_escape_push(s.drop_first(), c);
        assert(escape_string(s.push(c)) =~= escape_string(s) + escape_char(c));
    }
}

/// The item text of an array grows at its end when an item is appended.
pub proof fn lemma_items_push(vs: Seq<Seq<char>>, v: Seq<char>)
    requires
        vs.len() > 0,
    ensures
        items_text(vs.push(v)) == items_text(vs) + seq![','] + json_string(v),
    decreases vs.len(),
{
    if vs.len() == 1 {
        assert(vs.push(v)[0] == vs[0]);
        assert(vs.push(v).drop_first() =~= seq![v]);
        assert(vs.push(v).len() == 2);
        assert(items_text(vs.push(v)) == json_string(vs.push(v)[0]) + seq![','] + items_text(
            vs.push(v).drop_first(),
        ));
        assert(items_text(vs.push(v).drop_first()) == json_string(v));
        assert(items_text(vs.push(v)) =~= items_text(vs) + seq![','] + json_string(v));
    } else {
        assert(vs.push(v)[0] == vs[0]);
        assert(vs.push(v).drop_first() =~= vs.drop_first().push(v));
        lemma_items_push(vs.drop_first(), v);
        assert(items_text(vs.push(v)) == json_string(vs.push(v)[0]) + seq![','] + items_text(
            vs.push(v).drop_first(),
        ));
        assert(items_text(vs.push(v)) =~= items_text(vs) + seq![','] + json_string(v));
    }
}

/// Expects a quoted object key and its colon, each after optional
/// whitespace.
pub open spec fn parse_key(s: Seq<char>, i: int, key: Seq<char>) -> Option<int> {
    match parse_lit(s, i, key) {
        None => None,
        Some(j) => parse_sym(s, j, ':'),
    }
}

/// Reads a quoted object key and its colon, mirroring `parse_key`.
pub fn parse_key_x(v: &Vec<char>, i: usize, key: &Vec<char>) -> (r: Option<usize>)
    requires
        i <= v@.len(),
        key@.len() > 0,
        !is_ws(key@[0]),
    ensures
        match r {
            Some(j) => parse_key(v@, i as int, key@) == Some(j as int) && i < j <= v@.len(),
            None => parse_key(v@, i as int, key@) is None,
        },
{
    match parse_lit_x(v, i, key) {
        None => None,
        Some(j) => parse_sym_x(v, j, ':'),
    }
}

/// A hexadecimal digit reads back as the value it was written from.
pub proof fn lemma_hex_round(v: u32)
    requires
        v < 16,
    ensures
        hex_val(hex_digit(v)) == Some(v),
{
}

/// An escaped character (two- or six-character escape) reads back as itself.
pub proof fn lemma_parse_escape_of(c: char, s: Seq<char>, i: int)
    requires
        c == '"' || c == '\\' || (c as u32) < 0x20,
        0 <= i,
        i + escape_char(c).len() <= s.len(),
        s.subrange(i, i + escape_char(c).len()) == escape_char(c),
    ensures
        s[i] == '\\',
        parse_escape(s, i + 1) == Some((c, i + escape_char(c).len())),
{
    assert(s[i] == escape_char(c)[0]);
    if c == '"' || c == '\\' {
        assert(s[i + 1] == escape_char(c)[1]);
    } else {
        let u = c as u32;
        assert(s[i + 1] == 'u');
        assert(s[i + 2] == '0');
        assert(s[i + 3] == '0');
        assert(s[i + 4] == hex_digit(u / 16));
        assert(s[i + 5] == hex_digit(u % 16));
        assert(u / 16 < 2);
        lemma_hex_round(u / 16);
        lemma_hex_round(u % 16);
        assert((u / 16) * 16 + u % 16 == u) by (nonlinear_arith)
            requires
                u < 0x20,
        ;
        assert(0 * 4096 + 0 * 256 + (u / 16) * 16 + u % 16 == u);
        vstd::utf8::char_u32_cast(c, u);
        assert(parse_escape(s, i + 1) == Some((c, i + 6)));
    }
}

/// The escaped body of a string literal, followed by a closing quote, reads
/// back as the original characters.
pub proof fn lemma_parse_body_of(v: Seq<char>, s: Seq<char>, i: int)
    requires
        0 <= i,
        i + escape_string(v).len() + 1 <= s.len(),
        s.subrange(i, i + escape_string(v).len()) == escape_string(v),
        s[i + escape_string(v).len()] == '"',
    ensures
        parse_string_body(s, i) == Some((v, i + escape_string(v).len() + 1)),
    decreases v.len(),
{
    if v.len() == 0 {
        assert(s[i] == '"');
    } else {
        let c = v[0];
        let rest = v.drop_first();
        let ec = escape_char(c);
        let es = escape_string(v);
        assert(es == ec + escape_string(rest));
        assert(s.subrange(i, i + ec.len()) =~= ec) by {
            assert forall|x: int| 0 <= x < ec.len() implies s.subrange(i, i + ec.len())[x] == ec[x] by {
                assert(s.subrange(i, i + es.len())[x] == es[x]);
            }
        }
        let j = i + ec.len();
        assert(s.subrange(j, j + escape_string(rest).len()) =~= escape_string(rest)) by {
            assert forall|x: int| 0 <= x < escape_string(rest).len() implies s.subrange(
                j,
                j + escape_string(rest).len(),
            )[x] == escape_string(rest)[x] by {
                assert(s.subrange(i, i + es.len())[ec.len() + x] == es[ec.len() + x]);
            }
        }
        assert(s[j + escape_string(rest).len()] == '"');
        lemma_parse_body_of(rest, s, j);
        if c == '"' || c == '\\' || (c as u32) < 0x20 {
            lemma_parse_escape_of(c, s, i);
            assert(parse_string_body(s, i) == Some((seq![c] + rest, i + es.len() + 1)));
        } else {
            assert(s[i] == ec[0]);
            assert(s[i] == c);
            assert(parse_string_body(s, i) == Some((seq![c] + rest, i + es.len() + 1)));
        }
        assert(seq![c] + rest =~= v);
    }
}

/// A serialised string literal reads back as the original characters.
pub proof fn lemma_parse_string_of(v: Seq<char>, s: Seq<char>, i: int)
    requires
        0 <= i,
        i + json_string(v).len() <= s.len(),
        s.subrange(i, i + json_string(v).len()) == json_string(v),
    ensures
        parse_string(s, i) == Some((v, i + json_string(v).len())),
{
    let es = escape_string(v);
    assert(s[i] == json_string(v)[0]);
    assert(s[i] == '"');
    assert(skip_ws(s, i) == i);
    assert(s.subrange(i + 1, i + 1 + es.len()) =~= es) by {
        assert forall|x: int| 0 <= x < es.len() implies s.subrange(i + 1, i + 1 + es.len())[x]
            == es[x] by {
            assert(s.subrange(i, i + json_string(v).len())[1 + x] == json_string(v)[1 + x]);
            assert(json_string(v)[1 + x] == es[x]);
        }
    }
    assert(s[i + 1 + es.len()] == json_string(v)[1 + es.len() as int]);
    assert(s[i + 1 + es.len()] == '"');
    lemma_parse_body_of(v, s, i + 1);
}

/// The serialised items of a non-empty array, followed by the closing
/// bracket, read back as the original items.
pub proof fn lemma_parse_items_of(vs: Seq<Seq<char>>, s: Seq<char>, i: int)
    requires
        vs.len() > 0,
        0 <= i,
        i + items_text(vs).len() + 1 <= s.len(),
        s.subrange(i, i + items_text(vs).len()) == items_text(vs),
        s[i + items_text(vs).len()] == ']',
    ensures
        parse_items(s, i) == Some((vs, i + items_text(vs).len() + 1)),
    decreases vs.len(),
{
    let it = items_text(vs);
    let js = json_string(vs[0]);
    if vs.len() == 1 {
        assert(it == js);
        lemma_parse_string_of(vs[0], s, i);
        let j = i + js.len();
        assert(s[j] == ']');
        assert(skip_ws(s, j) == j);
        assert(seq![vs[0]] =~= vs);
        assert(parse_items(s, i) == Some((vs, j + 1)));
    } else {
        let rest = vs.drop_first();
        assert(it == js + seq![','] + items_text(rest));
        assert(s.subrange(i, i + js.len()) =~= js) by {
            assert forall|x: int| 0 <= x < js.len() implies s.subrange(i, i + js.len())[x]
                == js[x] by {
                assert(s.subrange(i, i + it.len())[x] == it[x]);
                assert(it[x] == js[x]);
            }
        }
        lemma_parse_string_of(vs[0], s, i);
        let j = i + js.len();
        assert(s[j] == it[js.len() as int]);
        assert(s[j] == ',');
        assert(skip_ws(s, j) == j);
        assert(s.subrange(j + 1, j + 1 + items_text(rest).len()) =~= items_text(rest)) by {
            assert forall|x: int| 0 <= x < items_text(rest).len() implies s.subrange(
                j + 1,
                j + 1 + items_text(rest).len(),
            )[x] == items_text(rest)[x] by {
                assert(s.subrange(i, i + it.len())[js.len() + 1 + x] == it[js.len() + 1 + x]);
                assert(it[js.len() + 1 + x] == items_text(rest)[x]);
            }
        }
        assert(s[j + 1 + items_text(rest).len()] == ']');
        lemma_parse_items_of(rest, s, j + 1);
        assert(parse_items(s, i) == Some((seq![vs[0]] + rest, i + it.len() + 1)));
        assert(seq![vs[0]] + rest =~= vs);
    }
}

/// A serialised array of string literals reads back as the original items.
pub proof fn lemma_parse_array_of(vs: Seq<Seq<char>>, s: Seq<char>, i: int)
    requires
        0 <= i,
        i + json_string_array(vs).len() <= s.len(),
        s.subrange(i, i + json_string_array(vs).len()) == json_string_array(vs),
    ensures
        parse_string_array(s, i) == Some((vs, i + json_string_array(vs).len())),
{
    let arr = json_string_array(vs);
    let it = items_text(vs);
    assert(s[i] == arr[0]);
    assert(s[i] == '[');
    assert(skip_ws(s, i) == i);
    if vs.len() == 0 {
        assert(s[i + 1] == arr[1]);
        assert(s[i + 1] == ']');
        assert(skip_ws(s, i + 1) == i + 1);
        assert(parse_string_array(s, i) == Some((Seq::<Seq<char>>::empty(), i + 2)));
        assert(Seq::<Seq<char>>::empty() =~= vs);
    } else {
        assert(s.subrange(i + 1, i + 1 + it.len()) =~= it) by {
            assert forall|x: int| 0 <= x < it.len() implies s.subrange(i + 1, i + 1 + it.len())[x]
                == it[x] by {
                assert(s.subrange(i, i + arr.len())[1 + x] == arr[1 + x]);
                assert(arr[1 + x] == it[x]);
            }
        }
        assert(s[i + 1 + it.len()] == arr[1 + it.len() as int]);
        assert(s[i + 1 + it.len()] == ']');
        lemma_parse_items_of(vs, s, i + 1);
        assert(it[0] == json_string(vs[0])[0]);
        assert(s[i + 1] == it[0]);
        assert(s[i + 1] == '"');
        assert(skip_ws(s, i + 1) == i + 1);
        assert(parse_string_array(s, i) == Some((vs, i + arr.len())));
    }
}

/// A single punctuation character reads back from where it stands.
pub proof fn lemma_parse_sym_of(s: Seq<char>, i: int, c: char)
    requires
        0 <= i < s.len(),
        s[i] == c,
        !is_ws(c),
    ensures
        parse_sym(s, i, c) == Some(i + 1),
{
    assert(skip_ws(s, i) == i);
}

/// A literal text reads back from where it stands.
pub proof fn lemma_parse_lit_of(s: Seq<char>, i: int, lit: Seq<char>)
    requires
        lit.len() > 0,
        !is_ws(lit[0]),
        0 <= i,
        i + lit.len() <= s.len(),
        s.subrange(i, i + lit.len()) == lit,
    ensures
        parse_lit(s, i, lit) == Some(i + lit.len()),
{
    assert(s[i] == s.subrange(i, i + lit.len())[0]);
    assert(s[i] == lit[0]);
    assert(skip_ws(s, i) == i);
}

/// A quoted key with its colon reads back from where it stands.
pub proof fn lemma_parse_key_of(s: Seq<char>, i: int, key: Seq<char>)
    requires
        key.len() > 0,
        !is_ws(key[0]),
        0 <= i,
        i + key.len() + 1 <= s.len(),
        s.subrange(i, i + key.len()) == key,
        s[i + key.len()] == ':',
    ensures
        parse_key(s, i, key) == Some(i + key.len() + 1),
{
    lemma_parse_lit_of(s, i, key);
    lemma_parse_sym_of(s, i + key.len(), ':');
}

/// Skips whitespace, mirroring `skip_ws`.
pub fn skip_ws_x(v: &Vec<char>, i: usize) -> (r: usize)
    requires
        i <= v@.len(),
    ensures
        r as int == skip_ws(v@, i as int),
        i <= r <= v@.len(),
{
    let mut j: usize = i;
    while j < v.len() && (v[j] == ' ' || v[j] == '\t' || v[j] == '\n' || v[j] == '\r')
        invariant
            i <= j <= v@.len(),
            skip_ws(v@, i as int) == skip_ws(v@, j as int),
        decreases v@.len() - j,
    {
        j = j + 1;
    }
    j
}

/// Expects one punctuation character, mirroring `parse_sym`.
pub fn parse_sym_x(v: &Vec<char>, i: usize, c: char) -> (r: Option<usize>)
    requires
        i <= v@.len(),
        !is_ws(c),
    ensures
        match r {
            Some(j) => parse_sym(v@, i as int, c) == Some(j as int) && i < j <= v@.len(),
            None => parse_sym(v@, i as int, c) is None,
        },
{
    let j = skip_ws_x(v, i);
    if j < v.len() && v[j] == c {
        Some(j + 1)
    } else {
        None
    }
}

/// Expects a literal text, mirroring `parse_lit`.
#[verifier::loop_isolation(false)]
pub fn parse_lit_x(v: &Vec<char>, i: usize, lit: &Vec<char>) -> (r: Option<usize>)
    requires
        i <= v@.len(),
        lit@.len() > 0,
        !is_ws(lit@[0]),
    ensures
        match r {
            Some(j) => parse_lit(v@, i as int, lit@) == Some(j as int) && i < j <= v@.len(),
            None => parse_lit(v@, i as int, lit@) is None,
        },
{
    let j = skip_ws_x(v, i);
    if v.len() - j < lit.len() {
        proof {
            assert(parse_lit(v@, i as int, lit@) is None);
        }
        return None;
    }
    let mut k: usize = 0;
    while k < lit.len()
        invariant
            0 <= k <= lit@.len(),
            j + lit@.len() <= v@.len(),
            j == skip_ws(v@, i as int),
            i <= j,
            forall|x: int| 0 <= x < k ==> v@[j + x] == lit@[x],
        decreases lit@.len() - k,
    {
        if !(v[j + k] == lit[k]) {
            proof {
                assert(v@.subrange(j as int, j + lit@.len())[k as int] != lit@[k as int]);
            }
            return None;
        }
        k = k + 1;
    }
    proof {
        assert(v@.subrange(j as int, j + lit@.len()) =~= lit@);
    }
    Some(j + lit.len())
}

/// Reads one hexadecimal digit, mirroring `hex_val`.
fn hex_val_x(c: char) -> (r: Option<u32>)
    ensures
        r == hex_val(c),
        r is Some ==> r.unwrap() < 16,
{
    let u = c as u32;
    if 48 <= u && u <= 57 {
        Some(u - 48)
    } else if 97 <= u && u <= 102 {
        Some(u - 97 + 10)
    } else if 65 <= u && u <= 70 {
        Some(u - 65 + 10)
    } else {
        None
    }
}

/// Reads one escape sequence, mirroring `parse_escape`.
fn parse_escape_x(v: &Vec<char>, i: usize) -> (r: Option<(char, usize)>)
    requires
        i <= v@.len(),
    ensures
        match r {
            Some(p) => parse_escape(v@, i as int) == Some((p.0, p.1 as int)) && i < p.1 <= v@.len(),
            None => parse_escape(v@, i as int) is None,
        },
{
    if !(i < v.len()) {
        return None;
    }
    let c = v[i];
    if c == '"' {
        Some(('"', i + 1))
    } else if c == '\\' {
        Some(('\\', i + 1))
    } else if c == '/' {
        Some(('/', i + 1))
    } else if c == 'b' {
        Some(('\u{0008}', i + 1))
    } else if c == 'f' {
        Some(('\u{000c}', i + 1))
    } else if c == 'n' {
        Some(('\n', i + 1))
    } else if c == 'r' {
        Some(('\r', i + 1))
    } else if c == 't' {
        Some(('\t', i + 1))
    } else if c == 'u' {
        if v.len() - i < 5 {
            return None;
        }
        match (hex_val_x(v[i + 1]), hex_val_x(v[i + 2]), hex_val_x(v[i + 3]), hex_val_x(v[i + 4])) {
            (Some(h1), Some(h2), Some(h3), Some(h4)) => {
                let val: u32 = h1 * 4096 + h2 * 256 + h3 * 16 + h4;
                if 0xD800 <= val && val < 0xDC00 {
                    if v.len() - i < 11 {
                        return None;
                    }
                    if !(v[i + 5] == '\\' && v[i + 6] == 'u') {
                        return None;
                    }
                    match (
                        hex_val_x(v[i + 7]),
                        hex_val_x(v[i + 8]),
                        hex_val_x(v[i + 9]),
                        hex_val_x(v[i + 10]),
                    ) {
                        (Some(l1), Some(l2), Some(l3), Some(l4)) => {
                            let low: u32 = l1 * 4096 + l2 * 256 + l3 * 16 + l4;
                            if 0xDC00 <= low && low < 0xE000 {
                                let cp: u32 = 0x10000 + (val - 0xD800) * 0x400 + (low - 0xDC00);
                                Some((char_from_scalar(cp), i + 11))
                            } else {
                                None
                            }
                        },
                        _ => None,
                    }
                } else if 0xDC00 <= val && val < 0xE000 {
                    None
                } else {
                    Some((char_from_scalar(val), i + 5))
                }
            },
            _ => None,
        }
    } else {
        None
    }
}

/// The loop relation of the string-body reader: what remains to be read at
/// `pos`, prefixed by what is already in `acc`, is the whole body at `start`.
spec fn body_rel(s: Seq<char>, start: int, acc: Seq<char>, pos: int) -> bool {
    match parse_string_body(s, pos) {
        Some((t, e)) => parse_string_body(s, start) == Some((acc + t, e)),
        None => parse_string_body(s, start) is None,
    }
}

/// Reads one string literal, mirroring `parse_string`.
#[verifier::loop_isolation(false)]
pub fn parse_string_x(v: &Vec<char>, i: usize) -> (r: Option<(Vec<char>, usize)>)
    requires
        i <= v@.len(),
    ensures
        match r {
            Some(p) => parse_string(v@, i as int) == Some((p.0@, p.1 as int)) && i < p.1
                <= v@.len(),
            None => parse_string(v@, i as int) is None,
        },
{
    let j = skip_ws_x(v, i);
    if !(j < v.len()) {
        return None;
    }
    if !(v[j] == '"') {
        return None;
    }
    let ghost start: int = j + 1;
    let mut pos: usize = j + 1;
    let mut acc: Vec<char> = Vec::new();
    proof {
        if parse_string_body(v@, start) is Some {
            let (t, e) = parse_string_body(v@, start).unwrap();
            assert(Seq::<char>::empty() + t =~= t);
        }
        assert(body_rel(v@, start, acc@, pos as int));
    }
    loop
        invariant
            start <= pos <= v@.len(),
            body_rel(v@, start, acc@, pos as int),
        decreases v@.len() - pos,
    {
        if !(pos < v.len()) {
            return None;
        }
        let c = v[pos];
        if c == '"' {
            proof {
                assert(parse_string_body(v@, pos as int) == Some(
                    (Seq::<char>::empty(), pos + 1 as int),
                ));
                assert(acc@ + Seq::<char>::empty() =~= acc@);
                lemma_parse_string_body_advances(v@, start);
            }
            return Some((acc, pos + 1));
        } else if c == '\\' {
            match parse_escape_x(v, pos + 1) {
                None => {
                    return None;
                },
                Some((ch, np)) => {
                    let ghost acc0 = acc@;
                    acc.push(ch);
                    proof {
                        if parse_string_body(v@, np as int) is Some {
                            let (t, e) = parse_string_body(v@, np as int).unwrap();
                            assert(parse_string_body(v@, pos as int) == Some((seq![ch] + t, e)));
                            assert(acc0 + (seq![ch] + t) =~= acc@ + t);
                        }
                    }
                    pos = np;
                },
            }
        } else if (c as u32) < 0x20 {
            return None;
        } else {
            let ghost acc0 = acc@;
            acc.push(c);
            proof {
                if parse_string_body(v@, pos + 1 as int) is Some {
                    let (t, e) = parse_string_body(v@, pos + 1 as int).unwrap();
                    assert(parse_string_body(v@, pos as int) == Some((seq![c] + t, e)));
                    assert(acc0 + (seq![c] + t) =~= acc@ + t);
                }
            }
            pos = pos + 1;
        }
    }
}

/// The loop relation of the array reader: the items still to be read at
/// `pos`, prefixed by those already in `acc`, are the whole item list.
spec fn items_rel(s: Seq<char>, start: int, acc: Seq<Seq<char>>, pos: int) -> bool {
    match parse_items(s, pos) {
        Some((vs, e)) => parse_items(s, start) == Some((acc + vs, e)),
        None => parse_items(s, start) is None,
    }
}

/// Reads one array of string literals, mirroring `parse_string_array`.
#[verifier::loop_isolation(false)]
pub fn parse_string_array_x(v: &Vec<char>, i: usize) -> (r: Option<(Vec<String>, usize)>)
    requires
        i <= v@.len(),
    ensures
        match r {
            Some(p) => parse_string_array(v@, i as int) == Some((p.0.deep_view(), p.1 as int)) && i
                < p.1 <= v@.len(),
            None => parse_string_array(v@, i as int) is None,
        },
{
    let j = skip_ws_x(v, i);
    if !(j < v.len()) {
        return None;
    }
    if !(v[j] == '[') {
        return None;
    }
    let k = skip_ws_x(v, j + 1);
    if k < v.len() && v[k] == ']' {
        let out: Vec<String> = Vec::new();
        proof {
            assert(out.deep_view() =~= Seq::<Seq<char>>::empty());
        }
        return Some((out, k + 1));
    }
    let ghost start: int = j + 1;
    let mut pos: usize = j + 1;
    let mut out: Vec<String> = Vec::new();
    proof {
        if parse_items(v@, start) is Some {
            let (vs, e) = parse_items(v@, start).unwrap();
            assert(Seq::<Seq<char>>::empty() + vs =~= vs);
        }
        assert(items_rel(v@, start, out.deep_view(), pos as int));
    }
    loop
        invariant
            start <= pos <= v@.len(),
            items_rel(v@, start, out.deep_view(), pos as int),
        decreases v@.len() - pos,
    {
        match parse_string_x(v, pos) {
            None => {
                return None;
            },
            Some((item_chars, np)) => {
                let item = chars_to_string(&item_chars);
                let k2 = skip_ws_x(v, np);
                if k2 < v.len() && v[k2] == ',' {
                    let ghost acc0 = out.deep_view();
                    out.push(item);
                    proof {
                        assert(out.deep_view() =~= acc0.push(item_chars@));
                        if parse_items(v@, k2 + 1 as int) is Some {
                            let (vs, e) = parse_items(v@, k2 + 1 as int).unwrap();
                            assert(parse_items(v@, pos as int) == Some((seq![item_chars@] + vs, e)));
                            assert(acc0 + (seq![item_chars@] + vs) =~= out.deep_view() + vs);
                        }
                    }
                    pos = k2 + 1;
                } else if k2 < v.len() && v[k2] == ']' {
                    let ghost acc0 = out.deep_view();
                    out.push(item);
                    proof {
                        assert(out.deep_view() =~= acc0.push(item_chars@));
                        assert(parse_items(v@, pos as int) == Some(
                            (seq![item_chars@], k2 + 1 as int),
                        ));
                        assert(acc0 + seq![item_chars@] =~= out.deep_view());
                        lemma_parse_items_advances(v@, start);
                    }
                    return Some((out, k2 + 1));
                } else {
                    return None;
                }
            },
        }
    }
}

/// Writes one lowercase hexadecimal digit, mirroring `hex_digit`.
fn hex_digit_x(v: u32) -> (r: char)
    requires
        v < 16,
    ensures
        r == hex_digit(v),
{
    if v == 0 {
        '0'
    } else if v == 1 {
        '1'
    } else if v == 2 {
        '2'
    } else if v == 3 {
        '3'
    } else if v == 4 {
        '4'
    } else if v == 5 {
        '5'
    } else if v == 6 {
        '6'
    } else if v == 7 {
        '7'
    } else if v == 8 {
        '8'
    } else if v == 9 {
        '9'
    } else if v == 10 {
        'a'
    } else if v == 11 {
        'b'
    } else if v == 12 {
        'c'
    } else if v == 13 {
        'd'
    } else if v == 14 {
        'e'
    } else {
        'f'
    }
}

/// Appends the JSON string literal for `s`, quotes and escapes included.
#[verifier::loop_isolation(false)]
pub fn emit_json_string(out: &mut Vec<char>, s: &str)
    ensures
        final(out)@ == old(out)@ + json_string(s@),
{
    let cs = string_to_chars(s);
    out.push('"');
    let mut i: usize = 0;
    while i < cs.len()
        invariant
            i <= cs@.len(),
            cs@ == s@,
            out@ == old(out)@ + seq!['"'] + escape_string(cs@.take(i as int)),
        decreases cs@.len() - i,
    {
        let ghost before = out@;
        let c = cs[i];
        if c == '"' {
            out.push('\\');
            out.push('"');
        } else if c == '\\' {
            out.push('\\');
            out.push('\\');
        } else if (c as u32) < 0x20 {
            out.push('\\');
            out.push('u');
            out.push('0');
            out.push('0');
            out.push(hex_digit_x((c as u32) / 16));
            out.push(hex_digit_x((c as u32) % 16));
        } else {
            out.push(c);
        }
        proof {
            assert(out@ =~= before + escape_char(c));
            lemma_escape_push(cs@.take(i as int), c);
            assert(cs@.take(i + 1) =~= cs@.take(i as int).push(c));
            assert(out@ =~= old(out)@ + seq!['"'] + escape_string(cs@.take(i + 1)));
        }
        i = i + 1;
    }
    out.push('"');
    proof {
        assert(cs@.take(cs@.len() as int) =~= cs@);
        assert(out@ =~= old(out)@ + json_string(s@));
    }
}

/// Appends the JSON array of string literals for `items`.
#[verifier::loop_isolation(false)]
pub fn emit_json_array(out: &mut Vec<char>, items: &Vec<String>)
    ensures
        final(out)@ == old(out)@ + json_string_array(items.deep_view()),
{
    let ghost dv = items.deep_view();
    out.push('[');
    let mut i: usize = 0;
    while i < items.len()
        invariant
            i <= items@.len(),
            dv == items.deep_view(),
            dv.len() == items@.len(),
            forall|x: int| 0 <= x < dv.len() ==> #[trigger] dv[x] == items@[x]@,
            out@ == old(out)@ + seq!['['] + items_text(dv.take(i as int)),
        decreases items@.len() - i,
    {
        let ghost before = out@;
        if i > 0 {
            out.push(',');
        }
        emit_json_string(out, items[i].as_str());
        proof {
            assert(dv.take(i + 1) =~= dv.take(i as int).push(dv[i as int]));
            if i == 0 {
                assert(items_text(dv.take(1)) == json_string(dv[0]));
                assert(out@ =~= old(out)@ + seq!['['] + items_text(dv.take(i + 1)));
            } else {
                lemma_items_push(dv.take(i as int), dv[i as int]);
                assert(out@ =~= old(out)@ + seq!['['] + items_text(dv.take(i + 1)));
            }
        }
        i = i + 1;
    }
    out.push(']');
    proof {
        assert(dv.take(dv.len() as int) =~= dv);
        assert(out@ =~= old(out)@ + json_string_array(items.deep_view()));
    }
}

} // verus!
