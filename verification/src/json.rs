//! A small JSON document model with a verified serializer and parser.
//!
//! The backend replies with JSON text; this module gives the library its own
//! account of that format: `Json` is the document tree, `ser` says exactly
//! which text a tree serializes to, and the parser is specified against a
//! spec-level reference parser over the same grammar.

use vstd::prelude::*;

verus! {

broadcast use vstd::std_specs::vec::group_vec_axioms;

/// The spec-level JSON document: what a `Json` value denotes.
pub enum Jv {
    Null,
    Bool(bool),
    /// A number, kept as its literal text (the library never does arithmetic
    /// on JSON numbers, and keeping the text avoids any loss of precision).
    Num(Seq<char>),
    Str(Seq<char>),
    Arr(Seq<Jv>),
    Obj(Seq<(Seq<char>, Jv)>),
}

/// A JSON document tree. Object members keep their textual order; duplicate
/// keys are kept as written, and lookups take the first match.
#[derive(Debug)]
pub enum Json {
    Null,
    Bool(bool),
    /// A number, kept as its literal text.
    Num(String),
    Str(String),
    Arr(Vec<Json>),
    Obj(Vec<(String, Json)>),
}

pub open spec fn jv_items(items: Seq<Json>) -> Seq<Jv>
    decreases items,
{
    if items.len() == 0 {
        Seq::<Jv>::empty()
    } else {
        seq![jv(items[0])] + jv_items(items.drop_first())
    }
}

pub open spec fn jv_members(members: Seq<(String, Json)>) -> Seq<(Seq<char>, Jv)>
    decreases members,
{
    if members.len() == 0 {
        Seq::<(Seq<char>, Jv)>::empty()
    } else {
        seq![(members[0].0@, jv(members[0].1))] + jv_members(members.drop_first())
    }
}

/// The document denoted by a `Json` value.
pub open spec fn jv(j: Json) -> Jv
    decreases j,
{
    match j {
        Json::Null => Jv::Null,
        Json::Bool(b) => Jv::Bool(b),
        Json::Num(s) => Jv::Num(s@),
        Json::Str(s) => Jv::Str(s@),
        Json::Arr(items) => Jv::Arr(jv_items(items@)),
        Json::Obj(members) => Jv::Obj(jv_members(members@)),
    }
}

impl View for Json {
    type V = Jv;

    open spec fn view(&self) -> Jv {
        jv(*self)
    }
}

/// The lowercase hexadecimal digit for `n` (`0 <= n < 16`).
pub open spec fn hex_digit(n: int) -> char {
    if n < 10 {
        ((48 + n) as u32) as char
    } else {
        ((87 + n) as u32) as char
    }
}

/// How one character of a JSON string is written: itself, a two-character
/// escape, or a `\u00..` escape for the remaining control characters.
pub open spec fn esc_char(c: char) -> Seq<char> {
    if c == '"' {
        seq!['\\', '"']
    } else if c == '\\' {
        seq!['\\', '\\']
    } else if c == '\n' {
        seq!['\\', 'n']
    } else if c == '\r' {
        seq!['\\', 'r']
    } else if c == '\t' {
        seq!['\\', 't']
    } else if (c as u32) < 32 {
        seq!['\\', 'u', '0', '0', hex_digit(c as u32 as int / 16), hex_digit(c as u32 as int % 16)]
    } else {
        seq![c]
    }
}

/// The serialized body of a JSON string, from index `i` on: each character
/// escaped as `esc_char` says, with no surrounding quotes.
pub open spec fn ser_str_body_from(s: Seq<char>, i: int) -> Seq<char>
    decreases s.len() - i,
{
    if i < 0 || i >= s.len() {
        Seq::<char>::empty()
    } else {
        esc_char(s[i]) + ser_str_body_from(s, i + 1)
    }
}

/// The serialization of a JSON string: the escaped body in quotes.
pub open spec fn ser_string(s: Seq<char>) -> Seq<char> {
    seq!['"'] + ser_str_body_from(s, 0) + seq!['"']
}

/// The serialized items of an array, from index `i` on, each but the first
/// preceded by a comma.
pub open spec fn ser_items_from(items: Seq<Jv>, i: int) -> Seq<char>
    decreases items, items.len() - i,
{
    if i < 0 || i >= items.len() {
        Seq::<char>::empty()
    } else {
        (if i > 0 {
            seq![',']
        } else {
            Seq::<char>::empty()
        }) + ser(items[i]) + ser_items_from(items, i + 1)
    }
}

/// The serialized members of an object, from index `i` on: `"key":value`
/// pairs, each but the first preceded by a comma.
pub open spec fn ser_members_from(members: Seq<(Seq<char>, Jv)>, i: int) -> Seq<char>
    decreases members, members.len() - i,
{
    if i < 0 || i >= members.len() {
        Seq::<char>::empty()
    } else {
        (if i > 0 {
            seq![',']
        } else {
            Seq::<char>::empty()
        }) + ser_string(members[i].0) + seq![':'] + ser(members[i].1) + ser_members_from(
            members,
            i + 1,
        )
    }
}

/// The text a JSON document serializes to: no whitespace, object members in
/// their stored order, number literals verbatim.
pub open spec fn ser(v: Jv) -> Seq<char>
    decreases v, 0int,
{
    match v {
        Jv::Null => seq!['n', 'u', 'l', 'l'],
        Jv::Bool(b) => if b {
            seq!['t', 'r', 'u', 'e']
        } else {
            seq!['f', 'a', 'l', 's', 'e']
        },
        Jv::Num(s) => s,
        Jv::Str(s) => ser_string(s),
        Jv::Arr(items) => seq!['['] + ser_items_from(items, 0) + seq![']'],
        Jv::Obj(members) => seq!['{'] + ser_members_from(members, 0) + seq!['}'],
    }
}

/// `jv_items` maps `jv` over the sequence, index by index.
pub proof fn lemma_jv_items(items: Seq<Json>)
    ensures
        jv_items(items).len() == items.len(),
        forall|i: int| 0 <= i < items.len() ==> jv_items(items)[i] == jv(items[i]),
    decreases items.len(),
{
    if items.len() > 0 {
        lemma_jv_items(items.drop_first());
    }
}

/// `jv_members` maps the key view and `jv` over the members, index by index.
pub proof fn lemma_jv_members(members: Seq<(String, Json)>)
    ensures
        jv_members(members).len() == members.len(),
        forall|i: int|
            0 <= i < members.len() ==> jv_members(members)[i] == (
            members[i].0@,
            jv(members[i].1),
            ),
    decreases members.len(),
{
    if members.len() > 0 {
        lemma_jv_members(members.drop_first());
    }
}

/// Relies on `String::push`: appends exactly the given character.
#[verifier::external_body]
fn push_char(out: &mut String, c: char)
    ensures
        final(out)@ == old(out)@ + seq![c],
{
    out.push(c);
}

/// Relies on `char::from_u32`: returns the character with the given code
/// point, and `None` exactly on surrogates and values above the maximum
/// scalar value.
#[verifier::external_body]
fn char_from_u32(v: u32) -> (r: Option<char>)
    ensures
        r is Some <==> (v < 0xD800 || (0xE000 <= v && v <= 0x10FFFF)),
        r matches Some(c) ==> c as u32 == v,
{
    char::from_u32(v)
}

/// The lowercase hexadecimal digit character for `n`.
fn hex_digit_char(n: u32) -> (c: char)
    requires
        n < 16,
    ensures
        c == hex_digit(n as int),
{
    let v: u32 = if n < 10 {
        48 + n
    } else {
        87 + n
    };
    match char_from_u32(v) {
        Some(c) => {
            proof {
                vstd::utf8::char_u32_cast(c, v);
            }
            c
        },
        None => {
            proof {
                assert(false);
            }
            vstd::pervasive::unreached()
        },
    }
}

/// Appends the escape sequence for one character of a JSON string.
fn write_escaped(c: char, out: &mut String)
    ensures
        final(out)@ == old(out)@ + esc_char(c),
{
    if c == '"' {
        push_char(out, '\\');
        push_char(out, '"');
    } else if c == '\\' {
        push_char(out, '\\');
        push_char(out, '\\');
    } else if c == '\n' {
        push_char(out, '\\');
        push_char(out, 'n');
    } else if c == '\r' {
        push_char(out, '\\');
        push_char(out, 'r');
    } else if c == '\t' {
        push_char(out, '\\');
        push_char(out, 't');
    } else if (c as u32) < 32 {
        let v = c as u32;
        push_char(out, '\\');
        push_char(out, 'u');
        push_char(out, '0');
        push_char(out, '0');
        push_char(out, hex_digit_char(v / 16));
        push_char(out, hex_digit_char(v % 16));
        assert(final(out)@ =~= old(out)@ + esc_char(c));
    } else {
        push_char(out, c);
    }
}

/// Appends the serialization of a JSON string: quotes around the escaped body.
fn write_string_literal(s: &str, out: &mut String)
    ensures
        final(out)@ == old(out)@ + ser_string(s@),
{
    push_char(out, '"');
    let n = s.unicode_len();
    let mut i: usize = 0;
    while i < n
        invariant
            n == s@.len(),
            i <= n,
            out@ + ser_str_body_from(s@, i as int) == old(out)@ + seq!['"'] + ser_str_body_from(
                s@,
                0,
            ),
        decreases n - i,
    {
        let c = s.get_char(i);
        write_escaped(c, out);
        proof {
            assert(out@ + ser_str_body_from(s@, i + 1) =~= old(out)@ + seq!['"']
                + ser_str_body_from(s@, 0));
        }
        i += 1;
    }
    push_char(out, '"');
    assert(out@ =~= old(out)@ + ser_string(s@));
}

/// Appends the serialized items of an array, commas included.
fn write_items(items: &Vec<Json>, out: &mut String)
    ensures
        final(out)@ == old(out)@ + ser_items_from(jv_items(items@), 0),
    decreases *items, 1int,
{
    proof {
        lemma_jv_items(items@);
    }
    let ghost elts = jv_items(items@);
    let n = items.len();
    let mut i: usize = 0;
    while i < n
        invariant
            n == items@.len(),
            i <= n,
            elts == jv_items(items@),
            elts.len() == n,
            forall|k: int| 0 <= k < n ==> elts[k] == jv(items@[k]),
            out@ + ser_items_from(elts, i as int) == old(out)@ + ser_items_from(elts, 0),
        decreases n - i,
    {
        if i > 0 {
            push_char(out, ',');
        }
        proof {
            assert(decreases_to!(*items => items@[i as int]));
        }
        write_json(&items[i], out);
        proof {
            assert(out@ + ser_items_from(elts, i + 1) =~= old(out)@ + ser_items_from(elts, 0));
        }
        i += 1;
    }
}

/// Appends the serialized members of an object, commas included.
fn write_members(members: &Vec<(String, Json)>, out: &mut String)
    ensures
        final(out)@ == old(out)@ + ser_members_from(jv_members(members@), 0),
    decreases *members, 1int,
{
    proof {
        lemma_jv_members(members@);
    }
    let ghost elts = jv_members(members@);
    let n = members.len();
    let mut i: usize = 0;
    while i < n
        invariant
            n == members@.len(),
            i <= n,
            elts == jv_members(members@),
            elts.len() == n,
            forall|k: int| 0 <= k < n ==> elts[k] == (members@[k].0@, jv(members@[k].1)),
            out@ + ser_members_from(elts, i as int) == old(out)@ + ser_members_from(elts, 0),
        decreases n - i,
    {
        if i > 0 {
            push_char(out, ',');
        }
        write_string_literal(members[i].0.as_str(), out);
        push_char(out, ':');
        proof {
            assert(decreases_to!(*members => members@[i as int]));
            assert(decreases_to!(members@[i as int] => members@[i as int].1));
        }
        write_json(&members[i].1, out);
        proof {
            assert(out@ + ser_members_from(elts, i + 1) =~= old(out)@ + ser_members_from(elts, 0));
        }
        i += 1;
    }
}

/// Appends the serialization of a JSON document to `out`.
fn write_json(j: &Json, out: &mut String)
    ensures
        final(out)@ == old(out)@ + ser(j@),
    decreases *j, 0int,
{
    match j {
        Json::Null => {
            out.append("null");
            proof {
                reveal_strlit("null");
                assert(out@ =~= old(out)@ + ser(j@));
            }
        },
        Json::Bool(b) => {
            if *b {
                out.append("true");
                proof {
                    reveal_strlit("true");
                    assert(out@ =~= old(out)@ + ser(j@));
                }
            } else {
                out.append("false");
                proof {
                    reveal_strlit("false");
                    assert(out@ =~= old(out)@ + ser(j@));
                }
            }
        },
        Json::Num(s) => {
            out.append(s.as_str());
        },
        Json::Str(s) => {
            write_string_literal(s.as_str(), out);
        },
        Json::Arr(items) => {
            push_char(out, '[');
            write_items(items, out);
            push_char(out, ']');
            assert(out@ =~= old(out)@ + ser(j@));
        },
        Json::Obj(members) => {
            push_char(out, '{');
            write_members(members, out);
            push_char(out, '}');
            assert(out@ =~= old(out)@ + ser(j@));
        },
    }
}

/// JSON insignificant whitespace.
pub open spec fn is_ws(c: char) -> bool {
    c == ' ' || c == '\t' || c == '\n' || c == '\r'
}

/// The index of the first non-whitespace character at or after `i`.
pub open spec fn skip_ws(s: Seq<char>, i: int) -> int
    decreases s.len() - i,
{
    if 0 <= i && i < s.len() && is_ws(s[i]) {
        skip_ws(s, i + 1)
    } else {
        i
    }
}

/// `skip_ws`, clamped into `[i, s.len()]` so that positions always advance;
/// the clamp never changes the value (see `lemma_skip_ws`).
pub open spec fn ws_end(s: Seq<char>, i: int) -> int {
    let j = skip_ws(s, i);
    if j < i {
        i
    } else if j > s.len() {
        s.len() as int
    } else {
        j
    }
}

/// `skip_ws` stays within `[i, s.len()]`, skips only whitespace, and stops
/// at the first non-whitespace character.
pub proof fn lemma_skip_ws(s: Seq<char>, i: int)
    requires
        0 <= i <= s.len(),
    ensures
        i <= skip_ws(s, i) <= s.len(),
        ws_end(s, i) == skip_ws(s, i),
        skip_ws(s, i) < s.len() ==> !is_ws(s[skip_ws(s, i)]),
        forall|k: int| i <= k < skip_ws(s, i) ==> is_ws(s[k]),
    decreases s.len() - i,
{
    if i < s.len() && is_ws(s[i]) {
        lemma_skip_ws(s, i + 1);
    }
}

/// An ASCII decimal digit.
pub open spec fn is_digit(c: char) -> bool {
    48 <= c as u32 && c as u32 <= 57
}

/// The index of the first non-digit character at or after `i`.
pub open spec fn digit_run_end(s: Seq<char>, i: int) -> int
    decreases s.len() - i,
{
    if 0 <= i && i < s.len() && is_digit(s[i]) {
        digit_run_end(s, i + 1)
    } else {
        i
    }
}

/// `digit_run_end` stays within `[i, s.len()]`, passes only digits, and
/// stops at the first non-digit.
pub proof fn lemma_digit_run_end(s: Seq<char>, i: int)
    requires
        0 <= i <= s.len(),
    ensures
        i <= digit_run_end(s, i) <= s.len(),
        digit_run_end(s, i) < s.len() ==> !is_digit(s[digit_run_end(s, i)]),
        forall|k: int| i <= k < digit_run_end(s, i) ==> is_digit(s[k]),
    decreases s.len() - i,
{
    if i < s.len() && is_digit(s[i]) {
        lemma_digit_run_end(s, i + 1);
    }
}

/// The end of a fraction part starting at `i`: either there is none, or a
/// dot followed by at least one digit; `None` on a dot without digits.
pub open spec fn frac_end(s: Seq<char>, i: int) -> Option<int> {
    if 0 <= i && i < s.len() && s[i] == '.' {
        if i + 1 < s.len() && is_digit(s[i + 1]) {
            Some(digit_run_end(s, i + 1))
        } else {
            None
        }
    } else {
        Some(i)
    }
}

/// The end of an exponent part starting at `i`: either there is none, or an
/// `e`/`E`, an optional sign, and at least one digit.
pub open spec fn exp_end(s: Seq<char>, i: int) -> Option<int> {
    if 0 <= i && i < s.len() && (s[i] == 'e' || s[i] == 'E') {
        let j = if i + 1 < s.len() && (s[i + 1] == '+' || s[i + 1] == '-') {
            i + 2
        } else {
            i + 1
        };
        if j < s.len() && is_digit(s[j]) {
            Some(digit_run_end(s, j))
        } else {
            None
        }
    } else {
        Some(i)
    }
}

/// The end of a JSON number starting at `i`: an optional minus sign, an
/// integer part with no leading zero, then optional fraction and exponent.
/// `None` when no number of that grammar starts at `i`.
pub open spec fn number_end(s: Seq<char>, i: int) -> Option<int> {
    let i1 = if 0 <= i && i < s.len() && s[i] == '-' {
        i + 1
    } else {
        i
    };
    if 0 <= i1 && i1 < s.len() && is_digit(s[i1]) {
        let i2 = if s[i1] == '0' {
            i1 + 1
        } else {
            digit_run_end(s, i1)
        };
        match frac_end(s, i2) {
            Option::None => Option::None,
            Option::Some(i3) => exp_end(s, i3),
        }
    } else {
        Option::None
    }
}

/// The value of a hexadecimal digit character, upper or lower case.
pub open spec fn hex_val(c: char) -> Option<int> {
    if 48 <= c as u32 && c as u32 <= 57 {
        Some(c as u32 - 48)
    } else if 97 <= c as u32 && c as u32 <= 102 {
        Some(c as u32 - 87)
    } else if 65 <= c as u32 && c as u32 <= 70 {
        Some(c as u32 - 55)
    } else {
        None
    }
}

/// The value of the four hexadecimal digits at `i`, if they are there.
pub open spec fn hex4(s: Seq<char>, i: int) -> Option<int> {
    if 0 <= i && i + 4 <= s.len() {
        match (hex_val(s[i]), hex_val(s[i + 1]), hex_val(s[i + 2]), hex_val(s[i + 3])) {
            (Some(a), Some(b), Some(c), Some(d)) => Some(a * 4096 + b * 256 + c * 16 + d),
            _ => None,
        }
    } else {
        None
    }
}

/// The character a simple (single-letter) string escape stands for.
pub open spec fn unescape(e: char) -> Option<char> {
    if e == '"' {
        Some('"')
    } else if e == '\\' {
        Some('\\')
    } else if e == '/' {
        Some('/')
    } else if e == 'n' {
        Some('\n')
    } else if e == 't' {
        Some('\t')
    } else if e == 'r' {
        Some('\r')
    } else if e == 'b' {
        Some('\u{0008}')
    } else if e == 'f' {
        Some('\u{000C}')
    } else {
        None
    }
}

/// Parses the body of a JSON string from `i` (the opening quote already
/// consumed) up to and including the closing quote. Simple escapes, `\uXXXX`
/// escapes and surrogate pairs are decoded; unescaped control characters,
/// lone surrogates and an unterminated string give `None`.
pub open spec fn parse_str_body(s: Seq<char>, i: int) -> Option<(Seq<char>, int)>
    decreases s.len() - i,
{
    if !(0 <= i && i < s.len()) {
        None
    } else {
        let c = s[i];
        if c == '"' {
            Some((Seq::<char>::empty(), i + 1))
        } else if c == '\\' {
            if i + 1 >= s.len() {
                None
            } else if s[i + 1] == 'u' {
                match hex4(s, i + 2) {
                    Option::None => None,
                    Option::Some(code) => {
                        if 0xD800 <= code && code < 0xDC00 {
                            if i + 12 <= s.len() && s[i + 6] == '\\' && s[i + 7] == 'u' {
                                match hex4(s, i + 8) {
                                    Option::None => None,
                                    Option::Some(lo) => {
                                        if 0xDC00 <= lo && lo < 0xE000 {
                                            let cp = 0x10000 + (code - 0xD800) * 0x400 + (lo
                                                - 0xDC00);
                                            match parse_str_body(s, i + 12) {
                                                Option::None => None,
                                                Option::Some((t, j)) => Some(
                                                    (seq![(cp as u32) as char] + t, j),
                                                ),
                                            }
                                        } else {
                                            None
                                        }
                                    },
                                }
                            } else {
                                None
                            }
                        } else if 0xDC00 <= code && code < 0xE000 {
                            None
                        } else {
                            match parse_str_body(s, i + 6) {
                                Option::None => None,
                                Option::Some((t, j)) => Some((seq![(code as u32) as char] + t, j)),
                            }
                        }
                    },
                }
            } else {
                match unescape(s[i + 1]) {
                    Option::None => None,
                    Option::Some(c2) => match parse_str_body(s, i + 2) {
                        Option::None => None,
                        Option::Some((t, j)) => Some((seq![c2] + t, j)),
                    },
                }
            }
        } else if (c as u32) < 32 {
            None
        } else {
            match parse_str_body(s, i + 1) {
                Option::None => None,
                Option::Some((t, j)) => Some((seq![c] + t, j)),
            }
        }
    }
}

/// Parses one JSON value starting exactly at `i` (no leading whitespace).
pub open spec fn parse_value(s: Seq<char>, i: int) -> Option<(Jv, int)>
    decreases s.len() - i, 0int,
{
    if !(0 <= i && i < s.len()) {
        None
    } else {
        let c = s[i];
        if c == 'n' {
            if i + 4 <= s.len() && s[i + 1] == 'u' && s[i + 2] == 'l' && s[i + 3] == 'l' {
                Some((Jv::Null, i + 4))
            } else {
                None
            }
        } else if c == 't' {
            if i + 4 <= s.len() && s[i + 1] == 'r' && s[i + 2] == 'u' && s[i + 3] == 'e' {
                Some((Jv::Bool(true), i + 4))
            } else {
                None
            }
        } else if c == 'f' {
            if i + 5 <= s.len() && s[i + 1] == 'a' && s[i + 2] == 'l' && s[i + 3] == 's' && s[i + 4]
                == 'e' {
                Some((Jv::Bool(false), i + 5))
            } else {
                None
            }
        } else if c == '"' {
            match parse_str_body(s, i + 1) {
                Option::None => None,
                Option::Some((t, j)) => Some((Jv::Str(t), j)),
            }
        } else if c == '[' {
            let j = ws_end(s, i + 1);
            if j < s.len() && s[j] == ']' {
                Some((Jv::Arr(Seq::<Jv>::empty()), j + 1))
            } else {
                match parse_items(s, j, Seq::<Jv>::empty()) {
                    Option::None => None,
                    Option::Some((items, k)) => Some((Jv::Arr(items), k)),
                }
            }
        } else if c == '{' {
            let j = ws_end(s, i + 1);
            if j < s.len() && s[j] == '}' {
                Some((Jv::Obj(Seq::<(Seq<char>, Jv)>::empty()), j + 1))
            } else {
                match parse_members(s, j, Seq::<(Seq<char>, Jv)>::empty()) {
                    Option::None => None,
                    Option::Some((members, k)) => Some((Jv::Obj(members), k)),
                }
            }
        } else if c == '-' || is_digit(c) {
            match number_end(s, i) {
                Option::None => None,
                Option::Some(e) => Some((Jv::Num(s.subrange(i, e)), e)),
            }
        } else {
            None
        }
    }
}

/// Parses the items of a non-empty array: a value at `i`, then, after
/// optional whitespace, either `]` (done) or `,` and further items. `acc`
/// holds the items already parsed. Positions are clamped forward as in
/// `ws_end`; the clamps never fire on the positions the parser reaches.
pub open spec fn parse_items(s: Seq<char>, i: int, acc: Seq<Jv>) -> Option<(Seq<Jv>, int)>
    decreases s.len() - i, 1int,
{
    if !(0 <= i && i < s.len()) {
        None
    } else {
        match parse_value(s, i) {
            Option::None => None,
            Option::Some((v, jraw)) => {
                let j = if jraw > i {
                    jraw
                } else {
                    i + 1
                };
                let k0 = ws_end(s, j);
                let k = if k0 > j {
                    k0
                } else {
                    j
                };
                if k < s.len() && s[k] == ']' {
                    Some((acc.push(v), k + 1))
                } else if k < s.len() && s[k] == ',' {
                    parse_items(s, ws_end(s, k + 1), acc.push(v))
                } else {
                    None
                }
            },
        }
    }
}

/// Parses the members of a non-empty object: a `"key": value` pair at `i`,
/// then, after optional whitespace, either `}` (done) or `,` and further
/// members. `acc` holds the members already parsed.
pub open spec fn parse_members(s: Seq<char>, i: int, acc: Seq<(Seq<char>, Jv)>) -> Option<
    (Seq<(Seq<char>, Jv)>, int),
>
    decreases s.len() - i, 1int,
{
    if !(0 <= i && i < s.len() && s[i] == '"') {
        None
    } else {
        match parse_str_body(s, i + 1) {
            Option::None => None,
            Option::Some((key, jraw)) => {
                let j = if jraw > i + 1 {
                    jraw
                } else {
                    i + 2
                };
                let k0 = ws_end(s, j);
                let k = if k0 > j {
                    k0
                } else {
                    j
                };
                if k < s.len() && s[k] == ':' {
                    let m = ws_end(s, k + 1);
                    match parse_value(s, m) {
                        Option::None => None,
                        Option::Some((v, praw)) => {
                            let p = if praw > m {
                                praw
                            } else {
                                m + 1
                            };
                            let q0 = ws_end(s, p);
                            let q = if q0 > p {
                                q0
                            } else {
                                p
                            };
                            if q < s.len() && s[q] == '}' {
                                Some((acc.push((key, v)), q + 1))
                            } else if q < s.len() && s[q] == ',' {
                                parse_members(s, ws_end(s, q + 1), acc.push((key, v)))
                            } else {
                                None
                            }
                        },
                    }
                } else {
                    None
                }
            },
        }
    }
}

/// Parses a complete JSON text: optional whitespace, one value, optional
/// whitespace, end of input. Anything else is `None`.
pub open spec fn parse_text(s: Seq<char>) -> Option<Jv> {
    match parse_value(s, ws_end(s, 0)) {
        Option::None => None,
        Option::Some((v, j)) => {
            if ws_end(s, j) == s.len() {
                Some(v)
            } else {
                None
            }
        },
    }
}

/// `jv_items` distributes over `push`.
pub proof fn lemma_jv_items_push(items: Seq<Json>, x: Json)
    ensures
        jv_items(items.push(x)) == jv_items(items).push(jv(x)),
{
    lemma_jv_items(items);
    lemma_jv_items(items.push(x));
    assert(jv_items(items.push(x)) =~= jv_items(items).push(jv(x)));
}

/// `jv_members` distributes over `push`.
pub proof fn lemma_jv_members_push(members: Seq<(String, Json)>, x: (String, Json))
    ensures
        jv_members(members.push(x)) == jv_members(members).push((x.0@, jv(x.1))),
{
    lemma_jv_members(members);
    lemma_jv_members(members.push(x));
    assert(jv_members(members.push(x)) =~= jv_members(members).push((x.0@, jv(x.1))));
}

/// Turns a character vector into the `String` with the same characters.
fn chars_to_string(v: &Vec<char>) -> (r: String)
    ensures
        r@ == v@,
{
    let mut r = String::new();
    let mut i: usize = 0;
    while i < v.len()
        invariant
            i <= v@.len(),
            r@ == v@.subrange(0, i as int),
        decreases v@.len() - i,
    {
        push_char(&mut r, v[i]);
        proof {
            assert(r@ =~= v@.subrange(0, i + 1));
        }
        i += 1;
    }
    proof {
        assert(r@ =~= v@);
    }
    r
}

/// Collects the characters of a string slice into a vector.
fn str_to_chars(s: &str) -> (r: Vec<char>)
    ensures
        r@ == s@,
{
    let n = s.unicode_len();
    let mut r: Vec<char> = Vec::new();
    let mut i: usize = 0;
    while i < n
        invariant
            n == s@.len(),
            i <= n,
            r@ == s@.subrange(0, i as int),
        decreases n - i,
    {
        r.push(s.get_char(i));
        proof {
            assert(r@ =~= s@.subrange(0, i + 1));
        }
        i += 1;
    }
    proof {
        assert(r@ =~= s@);
    }
    r
}

/// The first non-whitespace position at or after `i`.
fn ws_end_exec(s: &Vec<char>, i: usize) -> (r: usize)
    requires
        i <= s@.len(),
    ensures
        r as int == ws_end(s@, i as int),
        i <= r <= s@.len(),
    decreases s@.len() - i,
{
    let mut r = i;
    while r < s.len() && (s[r] == ' ' || s[r] == '\t' || s[r] == '\n' || s[r] == '\r')
        invariant
            i <= r <= s@.len(),
            skip_ws(s@, i as int) == skip_ws(s@, r as int),
        decreases s@.len() - r,
    {
        r += 1;
    }
    proof {
        lemma_skip_ws(s@, i as int);
    }
    r
}

/// The first non-digit position at or after `i`.
fn digit_run_end_exec(s: &Vec<char>, i: usize) -> (r: usize)
    requires
        i <= s@.len(),
    ensures
        r as int == digit_run_end(s@, i as int),
        i <= r <= s@.len(),
{
    let mut r = i;
    while r < s.len() && is_digit_exec(s[r])
        invariant
            i <= r <= s@.len(),
            digit_run_end(s@, i as int) == digit_run_end(s@, r as int),
        decreases s@.len() - r,
    {
        r += 1;
    }
    r
}

/// Whether `c` is an ASCII decimal digit.
fn is_digit_exec(c: char) -> (r: bool)
    ensures
        r == is_digit(c),
{
    let v = c as u32;
    48 <= v && v <= 57
}

/// The end of a fraction part starting at `i`, as `frac_end` describes it.
fn frac_end_exec(s: &Vec<char>, i: usize) -> (r: Option<usize>)
    requires
        i <= s@.len(),
    ensures
        (r matches Some(e) ==> frac_end(s@, i as int) == Some(e as int) && i <= e <= s@.len()),
        r is None ==> frac_end(s@, i as int) is None,
{
    if i < s.len() && s[i] == '.' {
        if s.len() - i > 1 && is_digit_exec(s[i + 1]) {
            Some(digit_run_end_exec(s, i + 1))
        } else {
            None
        }
    } else {
        Some(i)
    }
}

/// The end of an exponent part starting at `i`, as `exp_end` describes it.
fn exp_end_exec(s: &Vec<char>, i: usize) -> (r: Option<usize>)
    requires
        i <= s@.len(),
    ensures
        (r matches Some(e) ==> exp_end(s@, i as int) == Some(e as int) && i <= e <= s@.len()),
        r is None ==> exp_end(s@, i as int) is None,
{
    if i < s.len() && (s[i] == 'e' || s[i] == 'E') {
        let j = if s.len() - i > 1 && (s[i + 1] == '+' || s[i + 1] == '-') {
            i + 2
        } else {
            i + 1
        };
        if j < s.len() && is_digit_exec(s[j]) {
            Some(digit_run_end_exec(s, j))
        } else {
            None
        }
    } else {
        Some(i)
    }
}

/// The end of a JSON number starting at `i`, as `number_end` describes it.
fn number_end_exec(s: &Vec<char>, i: usize) -> (r: Option<usize>)
    requires
        i <= s@.len(),
    ensures
        (r matches Some(e) ==> number_end(s@, i as int) == Some(e as int) && i < e <= s@.len()),
        r is None ==> number_end(s@, i as int) is None,
{
    let i1 = if i < s.len() && s[i] == '-' {
        i + 1
    } else {
        i
    };
    if i1 < s.len() && is_digit_exec(s[i1]) {
        let i2 = if s[i1] == '0' {
            i1 + 1
        } else {
            proof {
                lemma_digit_run_end(s@, i1 as int + 1);
            }
            digit_run_end_exec(s, i1)
        };
        assert(i2 > i1);
        match frac_end_exec(s, i2) {
            None => None,
            Some(i3) => exp_end_exec(s, i3),
        }
    } else {
        None
    }
}

/// The value of a hexadecimal digit character, as `hex_val` describes it.
fn hex_val_exec(c: char) -> (r: Option<u32>)
    ensures
        (r matches Some(v) ==> hex_val(c) == Some(v as int) && v < 16),
        r is None ==> hex_val(c) is None,
{
    let v = c as u32;
    if 48 <= v && v <= 57 {
        Some(v - 48)
    } else if 97 <= v && v <= 102 {
        Some(v - 87)
    } else if 65 <= v && v <= 70 {
        Some(v - 55)
    } else {
        None
    }
}

/// The value of the four hexadecimal digits at `i`, as `hex4` describes it.
fn hex4_exec(s: &Vec<char>, i: usize) -> (r: Option<u32>)
    requires
        i <= s@.len(),
    ensures
        (r matches Some(v) ==> hex4(s@, i as int) == Some(v as int) && v < 0x10000),
        r is None ==> hex4(s@, i as int) is None,
{
    if s.len() - i >= 4 {
        match (hex_val_exec(s[i]), hex_val_exec(s[i + 1]), hex_val_exec(s[i + 2]), hex_val_exec(
            s[i + 3],
        )) {
            (Some(a), Some(b), Some(c), Some(d)) => Some(a * 4096 + b * 256 + c * 16 + d),
            _ => None,
        }
    } else {
        None
    }
}

/// `r` with `pre` prepended to its character payload.
spec fn prepend_chars(pre: Seq<char>, r: Option<(Seq<char>, int)>) -> Option<
    (Seq<char>, int),
> {
    match r {
        Option::None => None,
        Option::Some((t, j)) => Some((pre + t, j)),
    }
}

/// Parses a string body from `i` on, as `parse_str_body` describes it.
fn parse_str_body_exec(s: &Vec<char>, i: usize) -> (r: Option<(Vec<char>, usize)>)
    requires
        i <= s@.len(),
    ensures
        (r matches Some((t, j)) ==> parse_str_body(s@, i as int) == Some((t@, j as int)) && i < j
            <= s@.len()),
        r is None ==> parse_str_body(s@, i as int) is None,
{
    let mut acc: Vec<char> = Vec::new();
    let mut p = i;
    loop
        invariant
            i <= p <= s@.len(),
            parse_str_body(s@, i as int) == prepend_chars(acc@, parse_str_body(s@, p as int)),
        decreases s@.len() - p,
    {
        if p >= s.len() {
            return None;
        }
        let ghost acc0 = acc@;
        let c = s[p];
        if c == '"' {
            proof {
                assert(parse_str_body(s@, p as int) == Some((Seq::<char>::empty(), p + 1)));
                assert(acc@ + Seq::<char>::empty() =~= acc@);
            }
            return Some((acc, p + 1));
        } else if c == '\\' {
            if s.len() - p < 2 {
                return None;
            }
            let e = s[p + 1];
            if e == 'u' {
                match hex4_exec(s, p + 2) {
                    None => {
                        return None;
                    },
                    Some(code) => {
                        if 0xD800 <= code && code < 0xDC00 {
                            if s.len() - p >= 12 && s[p + 6] == '\\' && s[p + 7] == 'u' {
                                match hex4_exec(s, p + 8) {
                                    None => {
                                        return None;
                                    },
                                    Some(lo) => {
                                        if 0xDC00 <= lo && lo < 0xE000 {
                                            let cp: u32 = 0x10000 + (code - 0xD800) * 0x400 + (lo
                                                - 0xDC00);
                                            match char_from_u32(cp) {
                                                Some(c2) => {
                                                    proof {
                                                        vstd::utf8::char_u32_cast(c2, cp);
                                                        assert(acc@.push(c2) =~= acc@ + seq![c2]);
                                                    }
                                                    acc.push(c2);
                                                    p = p + 12;
                                                },
                                                None => {
                                                    proof {
                                                        assert(false);
                                                    }
                                                    return None;
                                                },
                                            }
                                        } else {
                                            return None;
                                        }
                                    },
                                }
                            } else {
                                return None;
                            }
                        } else if 0xDC00 <= code && code < 0xE000 {
                            return None;
                        } else {
                            match char_from_u32(code) {
                                Some(c2) => {
                                    proof {
                                        vstd::utf8::char_u32_cast(c2, code);
                                        assert(acc@.push(c2) =~= acc@ + seq![c2]);
                                    }
                                    acc.push(c2);
                                    p = p + 6;
                                },
                                None => {
                                    proof {
                                        assert(false);
                                    }
                                    return None;
                                },
                            }
                        }
                    },
                }
            } else {
                let c2opt = if e == '"' {
                    Some('"')
                } else if e == '\\' {
                    Some('\\')
                } else if e == '/' {
                    Some('/')
                } else if e == 'n' {
                    Some('\n')
                } else if e == 't' {
                    Some('\t')
                } else if e == 'r' {
                    Some('\r')
                } else if e == 'b' {
                    Some('\u{0008}')
                } else if e == 'f' {
                    Some('\u{000C}')
                } else {
                    None
                };
                proof {
                    assert(c2opt == unescape(e));
                }
                match c2opt {
                    Some(c2) => {
                        proof {
                            assert(acc@.push(c2) =~= acc@ + seq![c2]);
                        }
                        acc.push(c2);
                        p = p + 2;
                    },
                    None => {
                        return None;
                    },
                }
            }
        } else if (c as u32) < 32 {
            return None;
        } else {
            proof {
                assert(acc@.push(c) =~= acc@ + seq![c]);
            }
            acc.push(c);
            p = p + 1;
        }
        proof {
            lemma_prepend_assoc(acc0, acc@.skip(acc0.len() as int), parse_str_body(s@, p as int));
            assert(acc0 + acc@.skip(acc0.len() as int) =~= acc@);
        }
    }
}

/// Prepending twice is prepending the concatenation.
proof fn lemma_prepend_assoc(pre: Seq<char>, mid: Seq<char>, r: Option<(Seq<char>, int)>)
    ensures
        prepend_chars(pre, prepend_chars(mid, r)) == prepend_chars(pre + mid, r),
{
    match r {
        Option::None => {
        },
        Option::Some((t, j)) => {
            assert(pre + (mid + t) =~= (pre + mid) + t);
        },
    }
}

/// The characters `s[from..to]` as a `String`.
fn chars_range_to_string(s: &Vec<char>, from: usize, to: usize) -> (r: String)
    requires
        from <= to <= s@.len(),
    ensures
        r@ == s@.subrange(from as int, to as int),
{
    let mut r = String::new();
    let mut k = from;
    while k < to
        invariant
            from <= k <= to <= s@.len(),
            r@ == s@.subrange(from as int, k as int),
        decreases to - k,
    {
        push_char(&mut r, s[k]);
        proof {
            assert(r@ =~= s@.subrange(from as int, k + 1));
        }
        k += 1;
    }
    r
}

/// Parses one JSON value at `i`, as `parse_value` describes it.
fn parse_value_exec(s: &Vec<char>, i: usize) -> (r: Option<(Json, usize)>)
    requires
        i <= s@.len(),
    ensures
        (r matches Some((j, p)) ==> parse_value(s@, i as int) == Some((j@, p as int)) && i < p
            <= s@.len()),
        r is None ==> parse_value(s@, i as int) is None,
    decreases s@.len() - i, 0int,
{
    if i >= s.len() {
        return None;
    }
    let c = s[i];
    if c == 'n' {
        if s.len() - i >= 4 && s[i + 1] == 'u' && s[i + 2] == 'l' && s[i + 3] == 'l' {
            Some((Json::Null, i + 4))
        } else {
            None
        }
    } else if c == 't' {
        if s.len() - i >= 4 && s[i + 1] == 'r' && s[i + 2] == 'u' && s[i + 3] == 'e' {
            Some((Json::Bool(true), i + 4))
        } else {
            None
        }
    } else if c == 'f' {
        if s.len() - i >= 5 && s[i + 1] == 'a' && s[i + 2] == 'l' && s[i + 3] == 's' && s[i + 4]
            == 'e' {
            Some((Json::Bool(false), i + 5))
        } else {
            None
        }
    } else if c == '"' {
        match parse_str_body_exec(s, i + 1) {
            None => None,
            Some((t, j)) => {
                let st = chars_to_string(&t);
                Some((Json::Str(st), j))
            },
        }
    } else if c == '[' {
        let j0 = ws_end_exec(s, i + 1);
        if j0 < s.len() && s[j0] == ']' {
            let empty_items: Vec<Json> = Vec::new();
            proof {
                assert(jv_items(empty_items@) =~= Seq::<Jv>::empty());
            }
            Some((Json::Arr(empty_items), j0 + 1))
        } else {
            let mut acc: Vec<Json> = Vec::new();
            let mut cur = j0;
            proof {
                assert(jv_items(acc@) =~= Seq::<Jv>::empty());
            }
            loop
                invariant
                    i + 1 <= cur <= s@.len(),
                    i < s@.len(),
                    s@[i as int] == '[',
                    j0 as int == ws_end(s@, i as int + 1),
                    !(j0 < s@.len() && s@[j0 as int] == ']'),
                    parse_items(s@, cur as int, jv_items(acc@)) == parse_items(
                        s@,
                        j0 as int,
                        Seq::<Jv>::empty(),
                    ),
                decreases s@.len() - cur,
            {
                match parse_value_exec(s, cur) {
                    None => {
                        return None;
                    },
                    Some((v, praw)) => {
                        let j = if praw > cur {
                            praw
                        } else {
                            cur + 1
                        };
                        let k0 = ws_end_exec(s, j);
                        let k = if k0 > j {
                            k0
                        } else {
                            j
                        };
                        if k < s.len() && s[k] == ']' {
                            proof {
                                lemma_jv_items_push(acc@, v);
                            }
                            acc.push(v);
                            return Some((Json::Arr(acc), k + 1));
                        } else if k < s.len() && s[k] == ',' {
                            let nxt = ws_end_exec(s, k + 1);
                            proof {
                                lemma_jv_items_push(acc@, v);
                            }
                            acc.push(v);
                            cur = nxt;
                        } else {
                            return None;
                        }
                    },
                }
            }
        }
    } else if c == '{' {
        let j0 = ws_end_exec(s, i + 1);
        if j0 < s.len() && s[j0] == '}' {
            let empty_members: Vec<(String, Json)> = Vec::new();
            proof {
                assert(jv_members(empty_members@) =~= Seq::<(Seq<char>, Jv)>::empty());
            }
            Some((Json::Obj(empty_members), j0 + 1))
        } else {
            let mut acc: Vec<(String, Json)> = Vec::new();
            let mut cur = j0;
            proof {
                assert(jv_members(acc@) =~= Seq::<(Seq<char>, Jv)>::empty());
            }
            loop
                invariant
                    i + 1 <= cur <= s@.len(),
                    i < s@.len(),
                    s@[i as int] == '{',
                    j0 as int == ws_end(s@, i as int + 1),
                    !(j0 < s@.len() && s@[j0 as int] == '}'),
                    parse_members(s@, cur as int, jv_members(acc@)) == parse_members(
                        s@,
                        j0 as int,
                        Seq::<(Seq<char>, Jv)>::empty(),
                    ),
                decreases s@.len() - cur,
            {
                if !(cur < s.len() && s[cur] == '"') {
                    return None;
                }
                match parse_str_body_exec(s, cur + 1) {
                    None => {
                        return None;
                    },
                    Some((kt, praw)) => {
                        let key = chars_to_string(&kt);
                        let j = if praw > cur + 1 {
                            praw
                        } else {
                            cur + 2
                        };
                        let k0 = ws_end_exec(s, j);
                        let k = if k0 > j {
                            k0
                        } else {
                            j
                        };
                        if k < s.len() && s[k] == ':' {
                            let m = ws_end_exec(s, k + 1);
                            match parse_value_exec(s, m) {
                                None => {
                                    return None;
                                },
                                Some((v, vraw)) => {
                                    let p2 = if vraw > m {
                                        vraw
                                    } else {
                                        m + 1
                                    };
                                    let q0 = ws_end_exec(s, p2);
                                    let q = if q0 > p2 {
                                        q0
                                    } else {
                                        p2
                                    };
                                    if q < s.len() && s[q] == '}' {
                                        proof {
                                            lemma_jv_members_push(acc@, (key, v));
                                        }
                                        acc.push((key, v));
                                        return Some((Json::Obj(acc), q + 1));
                                    } else if q < s.len() && s[q] == ',' {
                                        let nxt = ws_end_exec(s, q + 1);
                                        proof {
                                            lemma_jv_members_push(acc@, (key, v));
                                        }
                                        acc.push((key, v));
                                        cur = nxt;
                                    } else {
                                        return None;
                                    }
                                },
                            }
                        } else {
                            return None;
                        }
                    },
                }
            }
        }
    } else if c == '-' || is_digit_exec(c) {
        match number_end_exec(s, i) {
            None => None,
            Some(e) => {
                let lit = chars_range_to_string(s, i, e);
                Some((Json::Num(lit), e))
            },
        }
    } else {
        None
    }
}

impl Json {
    /// Serializes the document: exactly the text that `ser` describes.
    pub fn to_text(&self) -> (text: String)
        ensures
            text@ == ser(self@),
    {
        let mut out = String::new();
        write_json(self, &mut out);
        out
    }

    /// Parses a complete JSON text, exactly as the spec-level `parse_text`
    /// describes it: `None` on anything that is not one well-formed JSON
    /// value surrounded by optional whitespace.
    pub fn parse(text: &str) -> (r: Option<Json>)
        ensures
            (r matches Some(j) ==> parse_text(text@) == Some(j@)),
            r is None <==> parse_text(text@) is None,
    {
        let s = str_to_chars(text);
        let i = ws_end_exec(&s, 0);
        match parse_value_exec(&s, i) {
            None => None,
            Some((j, p)) => {
                let e = ws_end_exec(&s, p);
                if e == s.len() {
                    Some(j)
                } else {
                    None
                }
            },
        }
    }
}

/// A well-formed number literal: the number grammar matches it exactly,
/// with nothing left over.
pub open spec fn wf_num(s: Seq<char>) -> bool {
    number_end(s, 0) == Some(s.len() as int)
}

/// Well-formedness of the items of an array, from index `k` on.
pub open spec fn wf_items(items: Seq<Jv>, k: int) -> bool
    decreases items, items.len() - k,
{
    k >= items.len() || (0 <= k && wf_jv(items[k]) && wf_items(items, k + 1))
}

/// Well-formedness of the members of an object, from index `k` on.
pub open spec fn wf_members(members: Seq<(Seq<char>, Jv)>, k: int) -> bool
    decreases members, members.len() - k,
{
    k >= members.len() || (0 <= k && wf_jv(members[k].1) && wf_members(members, k + 1))
}

/// A well-formed document: every number literal in it matches the number
/// grammar exactly. Everything else round-trips unconditionally.
pub open spec fn wf_jv(v: Jv) -> bool
    decreases v, 0int,
{
    match v {
        Jv::Null => true,
        Jv::Bool(_) => true,
        Jv::Num(s) => wf_num(s),
        Jv::Str(_) => true,
        Jv::Arr(items) => wf_items(items, 0),
        Jv::Obj(members) => wf_members(members, 0),
    }
}

/// A character that can open a JSON value.
pub open spec fn is_value_start(c: char) -> bool {
    c == 'n' || c == 't' || c == 'f' || c == '"' || c == '[' || c == '{' || c == '-' || is_digit(c)
}

/// A character that may directly follow a serialized value: the list and
/// object closers and the comma.
pub open spec fn is_close_delim(c: char) -> bool {
    c == ',' || c == ']' || c == '}'
}

/// A serialized value is non-empty and starts with a value-start character.
pub proof fn lemma_ser_shape(v: Jv)
    requires
        wf_jv(v),
    ensures
        ser(v).len() >= 1,
        is_value_start(ser(v)[0]),
{
    match v {
        Jv::Num(s) => {
            assert(number_end(s, 0) == Some(s.len() as int));
            if s[0] != '-' {
                assert(is_digit(s[0]));
            }
        },
        _ => {
        },
    }
}

/// A digit run embedded in a larger text scans to the same relative end,
/// provided a run that reaches the end of the literal is not extended by
/// what follows.
proof fn lemma_digit_run_transport(s: Seq<char>, i: int, lit: Seq<char>, k: int)
    requires
        0 <= i,
        i + lit.len() <= s.len(),
        s.subrange(i, i + lit.len()) == lit,
        0 <= k <= lit.len(),
        digit_run_end(lit, k) == lit.len() ==> (i + lit.len() == s.len() || !is_digit(
            s[i + lit.len()],
        )),
    ensures
        digit_run_end(s, i + k) == i + digit_run_end(lit, k),
    decreases lit.len() - k,
{
    if k < lit.len() {
        assert(s[i + k] == s.subrange(i, i + lit.len())[k]);
        if is_digit(lit[k]) {
            lemma_digit_run_transport(s, i, lit, k + 1);
        }
    }
}

/// Whether the character after the embedded literal (if any) can extend a
/// number scan; the transport lemmas require that it cannot.
pub open spec fn number_sealed(s: Seq<char>, i: int, lit: Seq<char>) -> bool {
    i + lit.len() == s.len() || {
        let e = s[i + lit.len()];
        !is_digit(e) && e != '.' && e != 'e' && e != 'E'
    }
}

/// A fraction part embedded in a larger text scans to the same relative end.
proof fn lemma_frac_transport(s: Seq<char>, i: int, lit: Seq<char>, k: int, k3: int)
    requires
        0 <= i,
        i + lit.len() <= s.len(),
        s.subrange(i, i + lit.len()) == lit,
        0 <= k <= lit.len(),
        frac_end(lit, k) == Some(k3),
        number_sealed(s, i, lit),
    ensures
        k <= k3 <= lit.len(),
        frac_end(s, i + k) == Some(i + k3),
{
    lemma_digit_run_end(lit, k);
    if k < lit.len() {
        assert(s[i + k] == s.subrange(i, i + lit.len())[k]);
    }
    if 0 <= k && k < lit.len() && lit[k] == '.' {
        assert(k + 1 < lit.len() && is_digit(lit[k + 1]));
        assert(s[i + k + 1] == s.subrange(i, i + lit.len())[k + 1]);
        lemma_digit_run_end(lit, k + 1);
        lemma_digit_run_transport(s, i, lit, k + 1);
    }
}

/// An exponent part embedded in a larger text scans to the same relative end.
proof fn lemma_exp_transport(s: Seq<char>, i: int, lit: Seq<char>, k: int, k4: int)
    requires
        0 <= i,
        i + lit.len() <= s.len(),
        s.subrange(i, i + lit.len()) == lit,
        0 <= k <= lit.len(),
        exp_end(lit, k) == Some(k4),
        number_sealed(s, i, lit),
    ensures
        k <= k4 <= lit.len(),
        exp_end(s, i + k) == Some(i + k4),
{
    if k < lit.len() {
        assert(s[i + k] == s.subrange(i, i + lit.len())[k]);
    }
    if 0 <= k && k < lit.len() && (lit[k] == 'e' || lit[k] == 'E') {
        let j = if k + 1 < lit.len() && (lit[k + 1] == '+' || lit[k + 1] == '-') {
            k + 2
        } else {
            k + 1
        };
        assert(j < lit.len() && is_digit(lit[j]));
        if k + 1 < lit.len() {
            assert(s[i + k + 1] == s.subrange(i, i + lit.len())[k + 1]);
        }
        assert(s[i + j] == s.subrange(i, i + lit.len())[j]);
        lemma_digit_run_end(lit, j);
        lemma_digit_run_transport(s, i, lit, j);
    }
}

/// A whole well-formed number literal embedded in a larger text is scanned
/// to exactly its own end.
proof fn lemma_number_transport(s: Seq<char>, i: int, lit: Seq<char>)
    requires
        0 <= i,
        i + lit.len() <= s.len(),
        s.subrange(i, i + lit.len()) == lit,
        wf_num(lit),
        number_sealed(s, i, lit),
    ensures
        number_end(s, i) == Some(i + lit.len()),
{
    assert(number_end(lit, 0) == Some(lit.len() as int));
    let i1 = if 0 <= 0 && 0 < lit.len() && lit[0] == '-' {
        1int
    } else {
        0int
    };
    assert(i1 < lit.len() && is_digit(lit[i1]));
    assert(lit.len() >= 1);
    assert(s[i] == s.subrange(i, i + lit.len())[0]);
    if i1 == 1 {
        assert(s[i + 1] == s.subrange(i, i + lit.len())[1]);
    }
    let i2 = if lit[i1] == '0' {
        i1 + 1
    } else {
        digit_run_end(lit, i1)
    };
    if lit[i1] != '0' {
        lemma_digit_run_end(lit, i1);
        lemma_digit_run_transport(s, i, lit, i1);
    }
    lemma_digit_run_end(lit, i1);
    assert(i2 <= lit.len());
    let k3 = match frac_end(lit, i2) {
        Option::Some(x) => x,
        Option::None => 0int,
    };
    assert(frac_end(lit, i2) == Some(k3));
    lemma_frac_transport(s, i, lit, i2, k3);
    assert(exp_end(lit, k3) == Some(lit.len() as int));
    lemma_exp_transport(s, i, lit, k3, lit.len() as int);
}

/// Parsing a serialized string body from character `k` on recovers exactly
/// the remaining characters and stops right after the closing quote.
proof fn lemma_parse_ser_str(s: Seq<char>, i: int, t: Seq<char>, k: int)
    requires
        0 <= i,
        0 <= k <= t.len(),
        i + ser_str_body_from(t, k).len() + 1 <= s.len(),
        s.subrange(i, i + ser_str_body_from(t, k).len() + 1) == ser_str_body_from(t, k) + seq![
            '"',
        ],
    ensures
        parse_str_body(s, i) == Some((t.skip(k), i + ser_str_body_from(t, k).len() + 1)),
    decreases t.len() - k,
{
    let body = ser_str_body_from(t, k);
    let whole = body + seq!['"'];
    assert forall|x: int| 0 <= x < whole.len() implies s[i + x] == #[trigger] whole[x] by {
        assert(s.subrange(i, i + body.len() + 1)[x] == s[i + x]);
    }
    if k == t.len() {
        assert(body =~= Seq::<char>::empty());
        assert(s[i] == whole[0]);
        assert(whole[0] == '"');
        assert(t.skip(k) =~= Seq::<char>::empty());
    } else {
        let c = t[k];
        let e = esc_char(c);
        let rest = ser_str_body_from(t, k + 1);
        assert(body == e + rest);
        assert(e.len() >= 1);
        assert(whole =~= e + (rest + seq!['"']));
        assert forall|x: int| 0 <= x < e.len() implies s[i + x] == #[trigger] e[x] by {
            assert(s[i + x] == whole[x]);
            assert(whole[x] == e[x]);
        }
        assert(s.subrange(i + e.len(), i + e.len() + rest.len() + 1) =~= rest + seq!['"']) by {
            assert forall|x: int|
                0 <= x < rest.len() + 1 implies s.subrange(
                i + e.len(),
                i + e.len() + rest.len() + 1,
            )[x] == (rest + seq!['"'])[x] by {
                assert(s.subrange(i + e.len(), i + e.len() + rest.len() + 1)[x] == s[i + e.len()
                    + x]);
                assert(s[i + e.len() + x] == whole[e.len() + x]);
                assert(whole[e.len() + x] == (rest + seq!['"'])[x]);
            }
        }
        lemma_parse_ser_str(s, i + e.len(), t, k + 1);
        assert(seq![c] + t.skip(k + 1) =~= t.skip(k));
        if c == '"' || c == '\\' || c == '\n' || c == '\r' || c == '\t' {
            assert(s[i] == e[0]);
            assert(s[i + 1] == e[1]);
            assert(e[0] == '\\');
            assert(unescape(e[1]) == Some(c));
            assert(parse_str_body(s, i) == Some((t.skip(k), i + body.len() + 1)));
        } else if (c as u32) < 32 {
            assert(s[i] == e[0] && s[i + 1] == e[1] && s[i + 2] == e[2] && s[i + 3] == e[3] && s[i
                + 4] == e[4] && s[i + 5] == e[5]);
            let hi = c as u32 as int / 16;
            let lo = c as u32 as int % 16;
            assert(e[0] == '\\' && e[1] == 'u' && e[2] == '0' && e[3] == '0' && e[4] == hex_digit(
                hi,
            ) && e[5] == hex_digit(lo));
            assert(hex_val('0') == Some(0int));
            assert(hex_val(hex_digit(hi)) == Some(hi));
            assert(hex_val(hex_digit(lo)) == Some(lo));
            assert(hex4(s, i + 2) == Some(hi * 16 + lo));
            assert(hi * 16 + lo == c as u32 as int);
            assert(((c as u32 as int) as u32) as char == c) by {
                vstd::utf8::char_u32_cast(c, c as u32);
            }
            assert(parse_str_body(s, i) == Some((t.skip(k), i + body.len() + 1)));
        } else {
            assert(e =~= seq![c]);
            assert(s[i] == e[0]);
            assert(s[i] == c);
            assert(c != '"' && c != '\\' && (c as u32) >= 32);
            assert(parse_str_body(s, i) == Some((t.skip(k), i + body.len() + 1)));
        }
    }
}

/// Index-wise reading of an embedded subsequence.
proof fn lemma_embed_index(s: Seq<char>, i: int, t: Seq<char>)
    requires
        0 <= i,
        i + t.len() <= s.len(),
        s.subrange(i, i + t.len()) == t,
    ensures
        forall|x: int| 0 <= x < t.len() ==> s[i + x] == #[trigger] t[x],
{
    assert forall|x: int| 0 <= x < t.len() implies s[i + x] == #[trigger] t[x] by {
        assert(s.subrange(i, i + t.len())[x] == s[i + x]);
    }
}

/// An embedded subsequence embeds its own subranges.
proof fn lemma_embed_sub(s: Seq<char>, i: int, t: Seq<char>, a: int, b: int)
    requires
        0 <= i,
        i + t.len() <= s.len(),
        s.subrange(i, i + t.len()) == t,
        0 <= a <= b <= t.len(),
    ensures
        s.subrange(i + a, i + b) == t.subrange(a, b),
{
    lemma_embed_index(s, i, t);
    assert forall|x: int| 0 <= x < b - a implies s.subrange(i + a, i + b)[x] == t.subrange(
        a,
        b,
    )[x] by {
        assert(s.subrange(i + a, i + b)[x] == s[i + a + x]);
        assert(s[i + a + x] == t[a + x]);
    }
    assert(s.subrange(i + a, i + b) =~= t.subrange(a, b));
}

/// The text of the items of an array from item `k` on, without the comma
/// that precedes item `k` itself.
spec fn tail_items(items: Seq<Jv>, k: int) -> Seq<char> {
    ser(items[k]) + ser_items_from(items, k + 1)
}

/// The text of the members of an object from member `k` on, without the
/// comma that precedes member `k` itself.
spec fn tail_members(members: Seq<(Seq<char>, Jv)>, k: int) -> Seq<char> {
    ser_string(members[k].0) + seq![':'] + ser(members[k].1) + ser_members_from(members, k + 1)
}

/// Parsing the serialization of a well-formed value embedded at `i`, with a
/// closing delimiter or the end of the text after it, yields that value and
/// stops exactly at its end.
#[verifier::rlimit(100)]
#[verifier::spinoff_prover]
proof fn lemma_parse_ser_value(s: Seq<char>, i: int, v: Jv)
    requires
        wf_jv(v),
        0 <= i,
        i + ser(v).len() <= s.len(),
        s.subrange(i, i + ser(v).len()) == ser(v),
        i + ser(v).len() == s.len() || is_close_delim(s[i + ser(v).len()]),
    ensures
        parse_value(s, i) == Some((v, i + ser(v).len())),
    decreases v, 0int,
{
    let sv = ser(v);
    lemma_embed_index(s, i, sv);
    lemma_ser_shape(v);
    match v {
        Jv::Null => {
            assert(s[i] == 'n' && s[i + 1] == 'u' && s[i + 2] == 'l' && s[i + 3] == 'l');
        },
        Jv::Bool(b) => {
            if b {
                assert(s[i] == 't' && s[i + 1] == 'r' && s[i + 2] == 'u' && s[i + 3] == 'e');
            } else {
                assert(s[i] == 'f' && s[i + 1] == 'a' && s[i + 2] == 'l' && s[i + 3] == 's' && s[i
                    + 4] == 'e');
            }
        },
        Jv::Num(lit) => {
            lemma_number_transport(s, i, lit);
            assert(s[i] == lit[0]);
            if lit[0] != '-' {
                assert(is_digit(lit[0]));
            }
            assert(s.subrange(i, i + lit.len()) == lit);
        },
        Jv::Str(t) => {
            assert(s[i] == '"');
            let body = ser_str_body_from(t, 0);
            assert(sv == seq!['"'] + body + seq!['"']);
            lemma_embed_sub(s, i, sv, 1, sv.len() as int);
            assert(sv.subrange(1, sv.len() as int) =~= body + seq!['"']);
            lemma_parse_ser_str(s, i + 1, t, 0);
            assert(t.skip(0) =~= t);
        },
        Jv::Arr(items) => {
            lemma_parse_ser_arr(s, i, items);
        },
        Jv::Obj(members) => {
            lemma_parse_ser_obj(s, i, members);
        },
    }
}

/// The array case of `lemma_parse_ser_value`.
#[verifier::rlimit(60)]
#[verifier::spinoff_prover]
proof fn lemma_parse_ser_arr(s: Seq<char>, i: int, items: Seq<Jv>)
    requires
        wf_jv(Jv::Arr(items)),
        0 <= i,
        i + ser(Jv::Arr(items)).len() <= s.len(),
        s.subrange(i, i + ser(Jv::Arr(items)).len()) == ser(Jv::Arr(items)),
        i + ser(Jv::Arr(items)).len() == s.len() || is_close_delim(
            s[i + ser(Jv::Arr(items)).len()],
        ),
    ensures
        parse_value(s, i) == Some((Jv::Arr(items), i + ser(Jv::Arr(items)).len())),
    decreases items, items.len() + 1,
{
    let v = Jv::Arr(items);
    let sv = ser(v);
    lemma_embed_index(s, i, sv);
    assert(s[i] == sv[0]);
    assert(sv[0] == '[');

    if items.len() == 0 {
        assert(ser_items_from(items, 0) =~= Seq::<char>::empty());
        assert(sv =~= seq!['[', ']']);
        assert(s[i + 1] == sv[1]);
        assert(s[i + 1] == ']');
        assert(skip_ws(s, i + 1) == i + 1);
        assert(ws_end(s, i + 1) == i + 1);
        assert(items =~= Seq::<Jv>::empty());
        assert(parse_value(s, i) == Some((Jv::Arr(Seq::<Jv>::empty()), i + 2)));
    } else {
        let tail = tail_items(items, 0);
        assert(ser_items_from(items, 0) =~= tail);
        assert(sv =~= seq!['['] + tail + seq![']']);
        lemma_embed_sub(s, i, sv, 1, 1 + tail.len() as int);
        assert(sv.subrange(1, 1 + tail.len() as int) =~= tail);
        assert(wf_items(items, 0));
        assert(wf_jv(items[0]));
        lemma_ser_shape(items[0]);
        assert(tail[0] == ser(items[0])[0]);
        assert(s[i + 1] == sv[1]);
        assert(sv[1] == tail[0]);
        assert(is_value_start(s[i + 1]));
        assert(skip_ws(s, i + 1) == i + 1);
        assert(s[i + 1] != ']');
        assert(s[i + 1 + tail.len()] == sv[1 + tail.len() as int]);
        assert(sv[1 + tail.len() as int] == ']');
        lemma_parse_ser_items(s, i + 1, items, 0, Seq::<Jv>::empty());
        assert(Seq::<Jv>::empty() + items.skip(0) =~= items);
        assert(parse_value(s, i) == Some((Jv::Arr(items), i + 1 + tail.len() + 1)));
        assert(i + 1 + tail.len() + 1 == i + sv.len());
    }
}

/// The object case of `lemma_parse_ser_value`.
#[verifier::rlimit(60)]
#[verifier::spinoff_prover]
proof fn lemma_parse_ser_obj(s: Seq<char>, i: int, members: Seq<(Seq<char>, Jv)>)
    requires
        wf_jv(Jv::Obj(members)),
        0 <= i,
        i + ser(Jv::Obj(members)).len() <= s.len(),
        s.subrange(i, i + ser(Jv::Obj(members)).len()) == ser(Jv::Obj(members)),
        i + ser(Jv::Obj(members)).len() == s.len() || is_close_delim(
            s[i + ser(Jv::Obj(members)).len()],
        ),
    ensures
        parse_value(s, i) == Some((Jv::Obj(members), i + ser(Jv::Obj(members)).len())),
    decreases members, members.len() + 1,
{
    let v = Jv::Obj(members);
    let sv = ser(v);
    lemma_embed_index(s, i, sv);
    assert(s[i] == sv[0]);
    assert(sv[0] == '{');

    if members.len() == 0 {
        assert(ser_members_from(members, 0) =~= Seq::<char>::empty());
        assert(sv =~= seq!['{', '}']);
        assert(s[i + 1] == sv[1]);
        assert(s[i + 1] == '}');
        assert(skip_ws(s, i + 1) == i + 1);
        assert(ws_end(s, i + 1) == i + 1);
        assert(members =~= Seq::<(Seq<char>, Jv)>::empty());
        assert(parse_value(s, i) == Some(
            (Jv::Obj(Seq::<(Seq<char>, Jv)>::empty()), i + 2),
        ));
    } else {
        let tail = tail_members(members, 0);
        assert(ser_members_from(members, 0) =~= tail);
        assert(sv =~= seq!['{'] + tail + seq!['}']);
        lemma_embed_sub(s, i, sv, 1, 1 + tail.len() as int);
        assert(sv.subrange(1, 1 + tail.len() as int) =~= tail);
        assert(tail[0] == ser_string(members[0].0)[0]);
        assert(ser_string(members[0].0)[0] == '"');
        assert(s[i + 1] == sv[1]);
        assert(sv[1] == tail[0]);
        assert(skip_ws(s, i + 1) == i + 1);
        assert(s[i + 1] != '}');
        assert(s[i + 1 + tail.len()] == sv[1 + tail.len() as int]);
        assert(sv[1 + tail.len() as int] == '}');
        lemma_parse_ser_members(s, i + 1, members, 0, Seq::<(Seq<char>, Jv)>::empty());
        assert(Seq::<(Seq<char>, Jv)>::empty() + members.skip(0) =~= members);
        assert(parse_value(s, i) == Some((Jv::Obj(members), i + 1 + tail.len() + 1)));
        assert(i + 1 + tail.len() + 1 == i + sv.len());
    }
}

/// Parsing serialized array items from item `k` on, embedded at `i` with the
/// closing bracket after them, appends exactly the remaining items.
proof fn lemma_parse_ser_items(s: Seq<char>, i: int, items: Seq<Jv>, k: int, acc: Seq<Jv>)
    requires
        0 <= k < items.len(),
        wf_items(items, k),
        0 <= i,
        i + tail_items(items, k).len() < s.len(),
        s.subrange(i, i + tail_items(items, k).len()) == tail_items(items, k),
        s[i + tail_items(items, k).len()] == ']',
    ensures
        parse_items(s, i, acc) == Some((acc + items.skip(k), i + tail_items(items, k).len() + 1)),
    decreases items, items.len() - k,
{
    let tail = tail_items(items, k);
    let sv = ser(items[k]);
    let rest = ser_items_from(items, k + 1);
    assert(wf_jv(items[k]));
    lemma_embed_index(s, i, tail);
    lemma_embed_sub(s, i, tail, 0, sv.len() as int);
    assert(tail.subrange(0, sv.len() as int) =~= sv);
    lemma_ser_shape(items[k]);
    let j = i + sv.len();
    if k + 1 < items.len() {
        assert(rest[0] == ',');
        assert(s[j] == tail[sv.len() as int]);
        assert(tail[sv.len() as int] == rest[0]);
        assert(is_close_delim(s[j]));
    } else {
        assert(rest =~= Seq::<char>::empty());
        assert(tail =~= sv);
        assert(s[j] == ']');
    }
    lemma_parse_ser_value(s, i, items[k]);
    assert(j < s.len());
    assert(skip_ws(s, j) == j);
    if k + 1 < items.len() {
        assert(s[j] == ',');
        let tail2 = tail_items(items, k + 1);
        assert(rest =~= seq![','] + tail2);
        assert(tail =~= sv + seq![','] + tail2);
        lemma_embed_sub(s, i, tail, sv.len() as int + 1, tail.len() as int);
        assert(tail.subrange(sv.len() as int + 1, tail.len() as int) =~= tail2);
        assert(wf_items(items, k + 1));
        assert(wf_jv(items[k + 1]));
        lemma_ser_shape(items[k + 1]);
        assert(s[j + 1] == tail[sv.len() as int + 1]);
        assert(tail[sv.len() as int + 1] == tail2[0]);
        assert(tail2[0] == ser(items[k + 1])[0]);
        assert(is_value_start(s[j + 1]));
        assert(skip_ws(s, j + 1) == j + 1);
        assert(s[i + tail.len()] == ']');
        assert(i + tail.len() == j + 1 + tail2.len());
        lemma_parse_ser_items(s, j + 1, items, k + 1, acc.push(items[k]));
        assert(acc.push(items[k]) + items.skip(k + 1) =~= acc + items.skip(k));
        assert(parse_items(s, i, acc) == Some((acc + items.skip(k), i + tail.len() + 1)));
    } else {
        assert(s[j] == ']');
        assert(parse_items(s, i, acc) == Some((acc.push(items[k]), j + 1)));
        assert(acc.push(items[k]) =~= acc + items.skip(k));
        assert(j + 1 == i + tail.len() + 1);
    }
}

/// Parsing serialized object members from member `k` on, embedded at `i`
/// with the closing brace after them, appends exactly the remaining members.
proof fn lemma_parse_ser_members(
    s: Seq<char>,
    i: int,
    members: Seq<(Seq<char>, Jv)>,
    k: int,
    acc: Seq<(Seq<char>, Jv)>,
)
    requires
        0 <= k < members.len(),
        wf_members(members, k),
        0 <= i,
        i + tail_members(members, k).len() < s.len(),
        s.subrange(i, i + tail_members(members, k).len()) == tail_members(members, k),
        s[i + tail_members(members, k).len()] == '}',
    ensures
        parse_members(s, i, acc) == Some(
            (acc + members.skip(k), i + tail_members(members, k).len() + 1),
        ),
    decreases members, members.len() - k,
{
    let tail = tail_members(members, k);
    let key = members[k].0;
    let kv = members[k].1;
    let ks = ser_string(key);
    let sv = ser(kv);
    let rest = ser_members_from(members, k + 1);
    let body = ser_str_body_from(key, 0);
    assert(wf_jv(kv));
    lemma_embed_index(s, i, tail);
    assert(tail[0] == ks[0]);
    assert(ks[0] == '"');
    assert(s[i] == '"');
    assert(ks =~= seq!['"'] + body + seq!['"']);
    assert(tail =~= ks + (seq![':'] + sv + rest));
    lemma_embed_sub(s, i, tail, 1, ks.len() as int);
    assert(tail.subrange(1, ks.len() as int) =~= body + seq!['"']);
    lemma_parse_ser_str(s, i + 1, key, 0);
    assert(key.skip(0) =~= key);
    let j = i + ks.len();
    assert(parse_str_body(s, i + 1) == Some((key, j)));
    assert(s[j] == tail[ks.len() as int]);
    assert(tail[ks.len() as int] == ':');
    assert(j < s.len());
    assert(skip_ws(s, j) == j);
    let m = j + 1;
    lemma_embed_sub(s, i, tail, ks.len() as int + 1, ks.len() as int + 1 + sv.len());
    assert(tail.subrange(ks.len() as int + 1, ks.len() as int + 1 + sv.len()) =~= sv);
    lemma_ser_shape(kv);
    assert(s[m] == tail[ks.len() as int + 1]);
    assert(tail[ks.len() as int + 1] == sv[0]);
    assert(is_value_start(s[m]));
    assert(m < s.len());
    assert(skip_ws(s, m) == m);
    let p = m + sv.len();
    if k + 1 < members.len() {
        assert(rest[0] == ',');
        assert(s[p] == tail[ks.len() as int + 1 + sv.len()]);
        assert(tail[ks.len() as int + 1 + sv.len()] == rest[0]);
        assert(is_close_delim(s[p]));
    } else {
        assert(rest =~= Seq::<char>::empty());
        assert(tail.len() == ks.len() + 1 + sv.len());
        assert(s[p] == '}');
    }
    lemma_parse_ser_value(s, m, kv);
    assert(p < s.len());
    assert(skip_ws(s, p) == p);
    assert((members[k].0, members[k].1) == members[k]);
    if k + 1 < members.len() {
        assert(s[p] == ',');
        let tail2 = tail_members(members, k + 1);
        assert(rest =~= seq![','] + tail2);
        lemma_embed_sub(s, i, tail, ks.len() as int + 1 + sv.len() + 1, tail.len() as int);
        assert(tail.subrange(ks.len() as int + 1 + sv.len() + 1, tail.len() as int) =~= tail2);
        assert(wf_members(members, k + 1));
        assert(wf_jv(members[k + 1].1));
        assert(tail2[0] == ser_string(members[k + 1].0)[0]);
        assert(ser_string(members[k + 1].0)[0] == '"');
        assert(s[p + 1] == tail[ks.len() as int + 1 + sv.len() + 1]);
        assert(tail[ks.len() as int + 1 + sv.len() + 1] == tail2[0]);
        assert(skip_ws(s, p + 1) == p + 1);
        assert(s[i + tail.len()] == '}');
        assert(i + tail.len() == p + 1 + tail2.len());
        lemma_parse_ser_members(s, p + 1, members, k + 1, acc.push(members[k]));
        assert(acc.push(members[k]) + members.skip(k + 1) =~= acc + members.skip(k));
        assert(parse_members(s, i, acc) == Some((acc + members.skip(k), i + tail.len() + 1)));
    } else {
        assert(s[p] == '}');
        assert(parse_members(s, i, acc) == Some((acc.push(members[k]), p + 1)));
        assert(acc.push(members[k]) =~= acc + members.skip(k));
        assert(p + 1 == i + tail.len() + 1);
    }
}

/// The textual round trip: a well-formed document, serialized and parsed
/// back, is recovered exactly.
pub proof fn lemma_text_round_trip(v: Jv)
    requires
        wf_jv(v),
    ensures
        parse_text(ser(v)) == Some(v),
{
    let s = ser(v);
    lemma_ser_shape(v);
    assert(skip_ws(s, 0) == 0);
    assert(s.subrange(0, s.len() as int) =~= s);
    lemma_parse_ser_value(s, 0, v);
    assert(skip_ws(s, s.len() as int) == s.len());
}

} // verus!
