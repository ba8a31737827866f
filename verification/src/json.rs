//! The tagged, JSON-shaped value grammar the wire format is built on,
//! with a verified emitter and parser.
//!
//! The emitter produces a canonical text: no whitespace, object members
//! in the order given, strings with `"` and `\` and control characters
//! escaped, every other character written as itself.  The parser accepts
//! the usual liberal form: any amount of blank space between tokens,
//! the standard escapes including `\uXXXX` (with surrogate pairs),
//! integers with an optional sign.  Numbers with a fraction or exponent,
//! and anything else outside the grammar, are decode errors.

use vstd::prelude::*;
use crate::text::all_digits;
use crate::text::dec_chars_u64;
use crate::text::digits_val;
use crate::text::is_digit;
use crate::text::spec_dec_str;
use crate::text::string_from_chars;

verus! {

/// A failure to decode wire bytes, with a human-readable diagnostic.
#[derive(Debug)]
pub struct DecodeError {
    pub message: String,
}

impl DecodeError {
    /// A new decode error with the given diagnostic text.
    pub fn new(message: &str) -> (e: DecodeError)
        ensures
            e.message@ == message@,
    {
        DecodeError { message: String::from_str(message) }
    }
}

/// The mathematical JSON value: what a `Json` tree means.
pub ghost enum JVal {
    Null,
    Bool(bool),
    Int(i64),
    Str(Seq<char>),
    Arr(Seq<JVal>),
    Obj(Seq<(Seq<char>, JVal)>),
}

/// An in-memory JSON value.  Object members keep their order; numbers
/// are 64-bit integers.
#[derive(Debug)]
pub enum Json {
    Null,
    Bool(bool),
    Int(i64),
    Str(String),
    Arr(Vec<Json>),
    Obj(Vec<(String, Json)>),
}

/// The meaning of an in-memory JSON value.
pub open spec fn jval_of(j: Json) -> JVal
    decreases j, 1int, 0int,
{
    match j {
        Json::Null => JVal::Null,
        Json::Bool(b) => JVal::Bool(b),
        Json::Int(n) => JVal::Int(n),
        Json::Str(s) => JVal::Str(s@),
        Json::Arr(v) => JVal::Arr(jarr_of(v@)),
        Json::Obj(v) => JVal::Obj(jobj_of(v@)),
    }
}

/// The meanings of a sequence of values, elementwise.
pub open spec fn jarr_of(s: Seq<Json>) -> Seq<JVal>
    decreases s, 0int, s.len(),
{
    if s.len() == 0 {
        Seq::empty()
    } else {
        seq![jval_of(s[0])] + jarr_of(s.skip(1))
    }
}

/// The meanings of a sequence of members, elementwise.
pub open spec fn jobj_of(s: Seq<(String, Json)>) -> Seq<(Seq<char>, JVal)>
    decreases s, 0int, s.len(),
{
    if s.len() == 0 {
        Seq::empty()
    } else {
        seq![(s[0].0@, jval_of(s[0].1))] + jobj_of(s.skip(1))
    }
}

/// `jarr_of` maps elementwise.
pub proof fn lemma_jarr_index(s: Seq<Json>)
    ensures
        jarr_of(s).len() == s.len(),
        forall|i: int| 0 <= i < s.len() ==> jarr_of(s)[i] == jval_of(s[i]),
    decreases s.len(),
{
    if s.len() > 0 {
        lemma_jarr_index(s.skip(1));
        assert forall|i: int| 0 <= i < s.len() implies jarr_of(s)[i] == jval_of(s[i]) by {
            if i > 0 {
                assert(jarr_of(s)[i] == jarr_of(s.skip(1))[i - 1]);
                assert(s.skip(1)[i - 1] == s[i]);
            }
        }
    }
}

/// `jobj_of` maps elementwise.
pub proof fn lemma_jobj_index(s: Seq<(String, Json)>)
    ensures
        jobj_of(s).len() == s.len(),
        forall|i: int| 0 <= i < s.len() ==> jobj_of(s)[i] == (s[i].0@, jval_of(s[i].1)),
    decreases s.len(),
{
    if s.len() > 0 {
        lemma_jobj_index(s.skip(1));
        assert forall|i: int| 0 <= i < s.len() implies jobj_of(s)[i] == (s[i].0@, jval_of(
            s[i].1,
        )) by {
            if i > 0 {
                assert(jobj_of(s)[i] == jobj_of(s.skip(1))[i - 1]);
                assert(s.skip(1)[i - 1] == s[i]);
            }
        }
    }
}

impl View for Json {
    type V = JVal;

    open spec fn view(&self) -> JVal {
        jval_of(*self)
    }
}

// ---------------------------------------------------------------------
// Emission
// ---------------------------------------------------------------------
/// The lowercase hexadecimal digit for a value below 16.
pub open spec fn hex_char(d: u32) -> char {
    if d < 10 {
        ((48 + d) as u8) as char
    } else {
        ((97 + (d - 10)) as u8) as char
    }
}

/// How one character is written inside a string literal.
pub open spec fn esc_char(c: char) -> Seq<char> {
    if c == '"' {
        seq!['\\', '"']
    } else if c == '\\' {
        seq!['\\', '\\']
    } else if c == '\u{8}' {
        seq!['\\', 'b']
    } else if c == '\u{9}' {
        seq!['\\', 't']
    } else if c == '\u{a}' {
        seq!['\\', 'n']
    } else if c == '\u{c}' {
        seq!['\\', 'f']
    } else if c == '\u{d}' {
        seq!['\\', 'r']
    } else if (c as u32) < 0x20 {
        seq!['\\', 'u', '0', '0', hex_char((c as u32) >> 4), hex_char((c as u32) & 0xF)]
    } else {
        seq![c]
    }
}

/// The escaped body of a string literal.
pub open spec fn esc_str(s: Seq<char>) -> Seq<char>
    decreases s.len(),
{
    if s.len() == 0 {
        Seq::empty()
    } else {
        esc_char(s[0]) + esc_str(s.skip(1))
    }
}

/// A whole string literal, quotes included.
pub open spec fn emit_string(s: Seq<char>) -> Seq<char> {
    seq!['"'] + esc_str(s) + seq!['"']
}

/// A number literal: a minus sign for negative values, then decimal
/// digits.
pub open spec fn emit_int(n: i64) -> Seq<char> {
    if n < 0 {
        seq!['-'] + spec_dec_str(-(n as int))
    } else {
        spec_dec_str(n as int)
    }
}

/// The canonical text of a value.
pub open spec fn emit(v: JVal) -> Seq<char>
    decreases v, 2int, 0int,
{
    match v {
        JVal::Null => seq!['n', 'u', 'l', 'l'],
        JVal::Bool(b) => if b {
            seq!['t', 'r', 'u', 'e']
        } else {
            seq!['f', 'a', 'l', 's', 'e']
        },
        JVal::Int(n) => emit_int(n),
        JVal::Str(s) => emit_string(s),
        JVal::Arr(a) => seq!['['] + emit_arr(a) + seq![']'],
        JVal::Obj(o) => seq!['{'] + emit_obj(o) + seq!['}'],
    }
}

/// The comma-separated element texts of an array.
pub open spec fn emit_arr(a: Seq<JVal>) -> Seq<char>
    decreases a, 1int, a.len(),
{
    if a.len() == 0 {
        Seq::empty()
    } else if a.len() == 1 {
        emit(a[0])
    } else {
        emit(a[0]) + seq![','] + emit_arr(a.skip(1))
    }
}

/// The comma-separated member texts of an object.
pub open spec fn emit_obj(o: Seq<(Seq<char>, JVal)>) -> Seq<char>
    decreases o, 1int, o.len(),
{
    if o.len() == 0 {
        Seq::empty()
    } else if o.len() == 1 {
        emit_string(o[0].0) + seq![':'] + emit(o[0].1)
    } else {
        emit_string(o[0].0) + seq![':'] + emit(o[0].1) + seq![','] + emit_obj(o.skip(1))
    }
}

fn hex_char_exec(d: u32) -> (c: char)
    requires
        d < 16,
    ensures
        c == hex_char(d),
{
    if d < 10 {
        ((48 + d) as u8) as char
    } else {
        ((97 + (d - 10)) as u8) as char
    }
}

/// Append the escaped body of a string literal.
fn emit_str_body(s: &str, out: &mut Vec<char>)
    ensures
        final(out)@ == old(out)@ + esc_str(s@),
{
    let n = s.unicode_len();
    let mut i: usize = 0;
    proof {
        assert(s@.skip(0) =~= s@);
        assert(old(out)@ + esc_str(s@) == out@ + esc_str(s@.skip(0)));
    }
    while i < n
        invariant
            i <= n,
            n == s@.len(),
            old(out)@ + esc_str(s@) == out@ + esc_str(s@.skip(i as int)),
        decreases n - i,
    {
        let c = s.get_char(i);
        proof {
            assert(s@.skip(i as int)[0] == s@[i as int]);
            assert(s@.skip(i as int).skip(1) =~= s@.skip(i as int + 1));
        }
        let u: u32 = c as u32;
        if c == '"' {
            out.push('\\');
            out.push('"');
        } else if c == '\\' {
            out.push('\\');
            out.push('\\');
        } else if u == 0x8 {
            out.push('\\');
            out.push('b');
        } else if u == 0x9 {
            out.push('\\');
            out.push('t');
        } else if u == 0xa {
            out.push('\\');
            out.push('n');
        } else if u == 0xc {
            out.push('\\');
            out.push('f');
        } else if u == 0xd {
            out.push('\\');
            out.push('r');
        } else if u < 0x20 {
            proof {
                assert(u >> 4 < 16 && u & 0xF < 16) by (bit_vector)
                    requires
                        u < 0x20,
                ;
            }
            out.push('\\');
            out.push('u');
            out.push('0');
            out.push('0');
            out.push(hex_char_exec(u >> 4));
            out.push(hex_char_exec(u & 0xF));
        } else {
            out.push(c);
        }
        proof {
            assert(esc_str(s@.skip(i as int)) == esc_char(c) + esc_str(s@.skip(i as int + 1)));
        }
        i += 1;
        proof {
            assert(old(out)@ + esc_str(s@) =~= out@ + esc_str(s@.skip(i as int)));
        }
    }
    proof {
        assert(esc_str(s@.skip(n as int)) =~= Seq::<char>::empty());
        assert(final(out)@ =~= old(out)@ + esc_str(s@));
    }
}

/// Append a whole string literal.
fn emit_str_into(s: &str, out: &mut Vec<char>)
    ensures
        final(out)@ == old(out)@ + emit_string(s@),
{
    out.push('"');
    emit_str_body(s, out);
    out.push('"');
    proof {
        assert(final(out)@ =~= old(out)@ + emit_string(s@));
    }
}

/// Append a number literal.
fn emit_int_into(n: i64, out: &mut Vec<char>)
    ensures
        final(out)@ == old(out)@ + emit_int(n),
{
    if n < 0 {
        out.push('-');
        let m: u64 = (-(n as i128)) as u64;
        proof {
            assert(m as int == -(n as int));
        }
        let mut digits = dec_chars_u64(m);
        out.append(&mut digits);
        proof {
            assert(final(out)@ =~= old(out)@ + emit_int(n));
        }
    } else {
        let m: u64 = n as u64;
        let mut digits = dec_chars_u64(m);
        out.append(&mut digits);
        proof {
            assert(final(out)@ =~= old(out)@ + emit_int(n));
        }
    }
}

/// Append the canonical text of a value.
fn emit_into(j: &Json, out: &mut Vec<char>)
    ensures
        final(out)@ == old(out)@ + emit(j@),
    decreases *j, 2int, 0int,
{
    match j {
        Json::Null => {
            out.push('n');
            out.push('u');
            out.push('l');
            out.push('l');
            proof {
                assert(final(out)@ =~= old(out)@ + emit(j@));
            }
        },
        Json::Bool(b) => {
            if *b {
                out.push('t');
                out.push('r');
                out.push('u');
                out.push('e');
            } else {
                out.push('f');
                out.push('a');
                out.push('l');
                out.push('s');
                out.push('e');
            }
            proof {
                assert(final(out)@ =~= old(out)@ + emit(j@));
            }
        },
        Json::Int(n) => {
            emit_int_into(*n, out);
        },
        Json::Str(s) => {
            emit_str_into(s.as_str(), out);
        },
        Json::Arr(v) => {
            out.push('[');
            emit_arr_into(v, 0, out);
            out.push(']');
            proof {
                let a = j@->Arr_0;
                assert(a.skip(0) =~= a);
                assert(final(out)@ =~= old(out)@ + emit(j@));
            }
        },
        Json::Obj(v) => {
            out.push('{');
            emit_obj_into(v, 0, out);
            out.push('}');
            proof {
                let o = j@->Obj_0;
                assert(o.skip(0) =~= o);
                assert(final(out)@ =~= old(out)@ + emit(j@));
            }
        },
    }
}

/// Append the element texts of an array from index `k` on.
fn emit_arr_into(v: &Vec<Json>, k: usize, out: &mut Vec<char>)
    requires
        k <= v@.len(),
    ensures
        final(out)@ == old(out)@ + emit_arr(jarr_of(v@).skip(k as int)),
    decreases *v, 1int, v@.len() - k,
{
    let ghost a = jarr_of(v@);
    proof {
        lemma_jarr_index(v@);
    }
    if k == v.len() {
        proof {
            assert(a.skip(k as int) =~= Seq::<JVal>::empty());
            assert(final(out)@ =~= old(out)@ + emit_arr(a.skip(k as int)));
        }
    } else {
        emit_into(&v[k], out);
        proof {
            assert(a.skip(k as int)[0] == a[k as int]);
        }
        if k + 1 == v.len() {
            proof {
                assert(a.skip(k as int).len() == 1);
                assert(final(out)@ =~= old(out)@ + emit_arr(a.skip(k as int)));
            }
        } else {
            out.push(',');
            emit_arr_into(v, k + 1, out);
            proof {
                assert(a.skip(k as int).skip(1) =~= a.skip(k as int + 1));
                assert(a.skip(k as int).len() > 1);
                assert(final(out)@ =~= old(out)@ + emit_arr(a.skip(k as int)));
            }
        }
    }
}

/// Append the member texts of an object from index `k` on.
fn emit_obj_into(v: &Vec<(String, Json)>, k: usize, out: &mut Vec<char>)
    requires
        k <= v@.len(),
    ensures
        final(out)@ == old(out)@ + emit_obj(jobj_of(v@).skip(k as int)),
    decreases *v, 1int, v@.len() - k,
{
    let ghost o = jobj_of(v@);
    proof {
        lemma_jobj_index(v@);
    }
    if k == v.len() {
        proof {
            assert(o.skip(k as int) =~= Seq::<(Seq<char>, JVal)>::empty());
            assert(final(out)@ =~= old(out)@ + emit_obj(o.skip(k as int)));
        }
    } else {
        emit_str_into(v[k].0.as_str(), out);
        out.push(':');
        emit_into(&v[k].1, out);
        proof {
            assert(o.skip(k as int)[0] == o[k as int]);
        }
        if k + 1 == v.len() {
            proof {
                assert(o.skip(k as int).len() == 1);
                assert(final(out)@ =~= old(out)@ + emit_obj(o.skip(k as int)));
            }
        } else {
            out.push(',');
            emit_obj_into(v, k + 1, out);
            proof {
                assert(o.skip(k as int).skip(1) =~= o.skip(k as int + 1));
                assert(o.skip(k as int).len() > 1);
                assert(final(out)@ =~= old(out)@ + emit_obj(o.skip(k as int)));
            }
        }
    }
}

/// Serialize a value to its canonical text.
pub fn json_emit(j: &Json) -> (r: String)
    ensures
        r@ == emit(j@),
{
    let mut out: Vec<char> = Vec::new();
    emit_into(j, &mut out);
    string_from_chars(&out)
}

// ---------------------------------------------------------------------
// Parsing
// ---------------------------------------------------------------------
/// Whether `c` is blank space between tokens.
pub open spec fn is_ws(c: char) -> bool {
    c == ' ' || c == '\t' || c == '\n' || c == '\r'
}

/// The number of blank characters at `i`.
pub open spec fn sp_ws(s: Seq<char>, i: int) -> nat
    decreases s.len() - i,
{
    if i < 0 || i >= s.len() {
        0
    } else if is_ws(s[i]) {
        1 + sp_ws(s, i + 1)
    } else {
        0
    }
}

/// The position after the blank space at `i`, never past the end.
pub open spec fn adv(s: Seq<char>, i: int) -> int {
    let j = i + sp_ws(s, i);
    if j <= s.len() {
        j
    } else {
        s.len() as int
    }
}

/// The value of a hexadecimal digit character.
pub open spec fn hex_val(c: char) -> Option<u32> {
    let u = c as u32;
    if 48 <= u && u <= 57 {
        Some((u - 48) as u32)
    } else if 97 <= u && u <= 102 {
        Some(((u - 97) + 10) as u32)
    } else if 65 <= u && u <= 70 {
        Some(((u - 65) + 10) as u32)
    } else {
        None
    }
}

/// The value of the four hexadecimal digits at `i`.
pub open spec fn hex4(s: Seq<char>, i: int) -> Option<u32> {
    if i < 0 || i + 4 > s.len() {
        None
    } else {
        match (hex_val(s[i]), hex_val(s[i + 1]), hex_val(s[i + 2]), hex_val(s[i + 3])) {
            (Some(a), Some(b), Some(c), Some(d)) => Some(
                ((((a * 16 + b) * 16 + c) * 16) + d) as u32,
            ),
            _ => None,
        }
    }
}

/// The character named by a single-letter escape.
pub open spec fn esc_of(c: char) -> Option<char> {
    if c == '"' {
        Some('"')
    } else if c == '\\' {
        Some('\\')
    } else if c == '/' {
        Some('/')
    } else if c == 'b' {
        Some('\u{8}')
    } else if c == 'f' {
        Some('\u{c}')
    } else if c == 'n' {
        Some('\u{a}')
    } else if c == 'r' {
        Some('\u{d}')
    } else if c == 't' {
        Some('\u{9}')
    } else {
        None
    }
}

/// How a string literal body reads from `i` (just past the opening
/// quote): the content characters and the position after the closing
/// quote.  Unterminated literals, bad escapes, lone surrogates and raw
/// control characters fail.
pub open spec fn sp_str_body(s: Seq<char>, i: int) -> Option<(Seq<char>, int)>
    decreases s.len() - i,
{
    if i < 0 || i >= s.len() {
        None
    } else if s[i] == '"' {
        Some((Seq::empty(), i + 1))
    } else if s[i] == '\\' {
        if i + 1 >= s.len() {
            None
        } else if s[i + 1] == 'u' {
            if i + 5 >= s.len() {
                None
            } else {
                match hex4(s, i + 2) {
                    None => None,
                    Some(h) => if 0xD800 <= h && h < 0xDC00 {
                        if i + 11 >= s.len() {
                            None
                        } else if s[i + 6] == '\\' && s[i + 7] == 'u' {
                            match hex4(s, i + 8) {
                                None => None,
                                Some(l) => if 0xDC00 <= l && l < 0xE000 {
                                    match sp_str_body(s, i + 12) {
                                        None => None,
                                        Some((cs, e)) => Some(
                                            (
                                                seq![
                                                    ((0x10000 + (h - 0xD800) * 0x400 + (l
                                                        - 0xDC00)) as u32) as char,
                                                ] + cs,
                                                e,
                                            ),
                                        ),
                                    }
                                } else {
                                    None
                                },
                            }
                        } else {
                            None
                        }
                    } else if 0xDC00 <= h && h < 0xE000 {
                        None
                    } else {
                        match sp_str_body(s, i + 6) {
                            None => None,
                            Some((cs, e)) => Some((seq![h as char] + cs, e)),
                        }
                    },
                }
            }
        } else {
            match esc_of(s[i + 1]) {
                None => None,
                Some(c) => match sp_str_body(s, i + 2) {
                    None => None,
                    Some((cs, e)) => Some((seq![c] + cs, e)),
                },
            }
        }
    } else if (s[i] as u32) < 0x20 {
        None
    } else {
        match sp_str_body(s, i + 1) {
            None => None,
            Some((cs, e)) => Some((seq![s[i]] + cs, e)),
        }
    }
}

/// How a string literal reads from its opening quote at `i`.
pub open spec fn sp_string(s: Seq<char>, i: int) -> Option<(Seq<char>, int)> {
    if 0 <= i && i < s.len() && s[i] == '"' {
        sp_str_body(s, i + 1)
    } else {
        None
    }
}

/// The number of decimal digits at `i`.
pub open spec fn digit_run(s: Seq<char>, i: int) -> nat
    decreases s.len() - i,
{
    if i < 0 || i >= s.len() {
        0
    } else if is_digit(s[i]) {
        1 + digit_run(s, i + 1)
    } else {
        0
    }
}

/// How a number literal reads from `i`: an optional minus sign and one
/// or more digits, no leading zero, no fraction or exponent, the value
/// fitting in `i64`.
pub open spec fn sp_number(s: Seq<char>, i: int) -> Option<(i64, int)> {
    if i < 0 || i >= s.len() {
        None
    } else {
        let neg = s[i] == '-';
        let j = if neg {
            i + 1
        } else {
            i
        };
        let k = digit_run(s, j);
        if k == 0 {
            None
        } else if k > 1 && s[j] == '0' {
            None
        } else {
            let v = digits_val(s.subrange(j, j + k));
            if v > i64::MAX {
                None
            } else if neg {
                Some(((-v) as i64, j + k))
            } else {
                Some((v as i64, j + k))
            }
        }
    }
}

/// How a value reads from `i` (no leading blanks): the parsed value and
/// the position just past it.
pub open spec fn sp_value(s: Seq<char>, i: int) -> Option<(JVal, int)>
    decreases s.len() - i, 0int,
{
    if i < 0 || i >= s.len() {
        None
    } else {
        let c = s[i];
        if c == '"' {
            match sp_string(s, i) {
                None => None,
                Some((cs, e)) => Some((JVal::Str(cs), e)),
            }
        } else if c == '[' {
            let j = adv(s, i + 1);
            if j < s.len() && s[j] == ']' {
                Some((JVal::Arr(Seq::empty()), j + 1))
            } else {
                match sp_arr_items(s, j) {
                    None => None,
                    Some((items, e)) => Some((JVal::Arr(items), e)),
                }
            }
        } else if c == '{' {
            let j = adv(s, i + 1);
            if j < s.len() && s[j] == '}' {
                Some((JVal::Obj(Seq::empty()), j + 1))
            } else {
                match sp_obj_items(s, j) {
                    None => None,
                    Some((members, e)) => Some((JVal::Obj(members), e)),
                }
            }
        } else if c == 't' {
            if i + 4 <= s.len() && s[i + 1] == 'r' && s[i + 2] == 'u' && s[i + 3] == 'e' {
                Some((JVal::Bool(true), i + 4))
            } else {
                None
            }
        } else if c == 'f' {
            if i + 5 <= s.len() && s[i + 1] == 'a' && s[i + 2] == 'l' && s[i + 3] == 's' && s[i + 4]
                == 'e' {
                Some((JVal::Bool(false), i + 5))
            } else {
                None
            }
        } else if c == 'n' {
            if i + 4 <= s.len() && s[i + 1] == 'u' && s[i + 2] == 'l' && s[i + 3] == 'l' {
                Some((JVal::Null, i + 4))
            } else {
                None
            }
        } else {
            match sp_number(s, i) {
                None => None,
                Some((v, e)) => Some((JVal::Int(v), e)),
            }
        }
    }
}

/// How the elements of a non-empty array read from `i` (at the first
/// element): the elements and the position after the closing bracket.
pub open spec fn sp_arr_items(s: Seq<char>, i: int) -> Option<(Seq<JVal>, int)>
    decreases s.len() - i, 1int,
{
    if i < 0 {
        None
    } else {
        match sp_value(s, i) {
            None => None,
            Some((v, e)) => if e <= i || e > s.len() {
                None
            } else {
                let j = adv(s, e);
                if j < s.len() && s[j] == ',' {
                    let j2 = adv(s, j + 1);
                    match sp_arr_items(s, j2) {
                        None => None,
                        Some((rest, e2)) => Some((seq![v] + rest, e2)),
                    }
                } else if j < s.len() && s[j] == ']' {
                    Some((seq![v], j + 1))
                } else {
                    None
                }
            },
        }
    }
}

/// How the members of a non-empty object read from `i` (at the first
/// key): the members and the position after the closing brace.
pub open spec fn sp_obj_items(s: Seq<char>, i: int) -> Option<(Seq<(Seq<char>, JVal)>, int)>
    decreases s.len() - i, 1int,
{
    if i < 0 {
        None
    } else {
        match sp_string(s, i) {
            None => None,
            Some((k, ek)) => if ek <= i || ek > s.len() {
                None
            } else {
                let j = adv(s, ek);
                if j < s.len() && s[j] == ':' {
                    let j2 = adv(s, j + 1);
                    match sp_value(s, j2) {
                        None => None,
                        Some((v, ev)) => if ev <= j2 || ev > s.len() {
                            None
                        } else {
                            let j3 = adv(s, ev);
                            if j3 < s.len() && s[j3] == ',' {
                                let j4 = adv(s, j3 + 1);
                                match sp_obj_items(s, j4) {
                                    None => None,
                                    Some((rest, e2)) => Some((seq![(k, v)] + rest, e2)),
                                }
                            } else if j3 < s.len() && s[j3] == '}' {
                                Some((seq![(k, v)], j3 + 1))
                            } else {
                                None
                            }
                        },
                    }
                } else {
                    None
                }
            },
        }
    }
}

/// How a whole text reads: blanks, one value, blanks, end of input.
pub open spec fn sp_json(s: Seq<char>) -> Option<JVal> {
    let i = adv(s, 0);
    match sp_value(s, i) {
        None => None,
        Some((v, e)) => if adv(s, e) == s.len() {
            Some(v)
        } else {
            None
        },
    }
}

/// The scalar value for a code point, when there is one.
///
/// Relies on `char::from_u32`: `Some` exactly for values below the
/// surrogate range or between it and the maximum code point, carrying
/// that code point.
#[verifier::external_body]
fn char_from_u32(u: u32) -> (r: Option<char>)
    ensures
        r == if u < 0xD800 || (0xE000 <= u && u <= 0x10FFFF) {
            Some(u as char)
        } else {
            None::<char>
        },
{
    char::from_u32(u)
}

fn is_ws_exec(c: char) -> (r: bool)
    ensures
        r == is_ws(c),
{
    c == ' ' || c == '\t' || c == '\n' || c == '\r'
}

fn is_digit_exec(c: char) -> (r: bool)
    ensures
        r == is_digit(c),
{
    let u: u32 = c as u32;
    48 <= u && u <= 57
}

fn esc_of_exec(c: char) -> (r: Option<char>)
    ensures
        r == esc_of(c),
{
    if c == '"' {
        Some('"')
    } else if c == '\\' {
        Some('\\')
    } else if c == '/' {
        Some('/')
    } else if c == 'b' {
        Some('\u{8}')
    } else if c == 'f' {
        Some('\u{c}')
    } else if c == 'n' {
        Some('\u{a}')
    } else if c == 'r' {
        Some('\u{d}')
    } else if c == 't' {
        Some('\u{9}')
    } else {
        None
    }
}

fn hex_val_exec(c: char) -> (r: Option<u32>)
    ensures
        r == hex_val(c),
{
    let u: u32 = c as u32;
    if 48 <= u && u <= 57 {
        Some(u - 48)
    } else if 97 <= u && u <= 102 {
        Some((u - 97) + 10)
    } else if 65 <= u && u <= 70 {
        Some((u - 65) + 10)
    } else {
        None
    }
}

fn hex4_exec(s: &Vec<char>, i: usize) -> (r: Option<u32>)
    requires
        i + 4 <= s@.len(),
    ensures
        r == hex4(s@, i as int),
{
    let n = s.len();
    let a = match hex_val_exec(s[i]) {
        Some(a) => a,
        None => {
            return None;
        },
    };
    let b = match hex_val_exec(s[i + 1]) {
        Some(b) => b,
        None => {
            return None;
        },
    };
    let c = match hex_val_exec(s[i + 2]) {
        Some(c) => c,
        None => {
            return None;
        },
    };
    let d = match hex_val_exec(s[i + 3]) {
        Some(d) => d,
        None => {
            return None;
        },
    };
    Some((((a * 16 + b) * 16 + c) * 16) + d)
}

/// Move past blank space, returning the position of the next token.
fn skip_ws(s: &Vec<char>, i: usize) -> (r: usize)
    requires
        i <= s@.len(),
    ensures
        i <= r <= s@.len(),
        r as int == adv(s@, i as int),
{
    let n = s.len();
    let mut r = i;
    while r < n && is_ws_exec(s[r])
        invariant
            i <= r <= n,
            n == s@.len(),
            adv(s@, i as int) == adv(s@, r as int),
        decreases n - r,
    {
        r += 1;
    }
    proof {
        assert(sp_ws(s@, r as int) == 0);
    }
    r
}

/// Parse a string literal starting at its opening quote.
#[verifier::rlimit(100)]
fn parse_string(s: &Vec<char>, i: usize) -> (r: Result<(String, usize), DecodeError>)
    requires
        i <= s@.len(),
    ensures
        r matches Ok(p) ==> sp_string(s@, i as int) == Some((p.0@, p.1 as int)) && i < p.1
            <= s@.len(),
        r is Err ==> sp_string(s@, i as int) is None,
{
    let n = s.len();
    if i >= n || s[i] != '"' {
        return Err(DecodeError::new("expected a string"));
    }
    let mut acc: Vec<char> = Vec::new();
    let mut cur: usize = i + 1;
    loop
        invariant
            i < cur <= n,
            n == s@.len(),
            i < n && s@[i as int] == '"',
            match sp_str_body(s@, cur as int) {
                Some(p) => sp_str_body(s@, i + 1) == Some((acc@ + p.0, p.1)),
                None => sp_str_body(s@, i + 1) is None,
            },
        decreases n - cur,
    {
        if cur >= n {
            return Err(DecodeError::new("unterminated string"));
        }
        let c = s[cur];
        let ghost pre = acc@;
        if c == '"' {
            proof {
                assert(pre + Seq::<char>::empty() =~= pre);
            }
            let st = string_from_chars(&acc);
            return Ok((st, cur + 1));
        } else if c == '\\' {
            if n - cur < 2 {
                return Err(DecodeError::new("truncated escape"));
            }
            let e = s[cur + 1];
            if e == 'u' {
                if n - cur < 6 {
                    return Err(DecodeError::new("truncated unicode escape"));
                }
                let h = match hex4_exec(s, cur + 2) {
                    Some(h) => h,
                    None => {
                        return Err(DecodeError::new("bad unicode escape"));
                    },
                };
                if 0xD800 <= h && h < 0xDC00 {
                    if n - cur < 12 {
                        return Err(DecodeError::new("truncated surrogate pair"));
                    }
                    if !(s[cur + 6] == '\\' && s[cur + 7] == 'u') {
                        return Err(DecodeError::new("lone surrogate"));
                    }
                    let l = match hex4_exec(s, cur + 8) {
                        Some(l) => l,
                        None => {
                            return Err(DecodeError::new("bad unicode escape"));
                        },
                    };
                    if !(0xDC00 <= l && l < 0xE000) {
                        return Err(DecodeError::new("lone surrogate"));
                    }
                    let cp: u32 = 0x10000 + (h - 0xD800) * 0x400 + (l - 0xDC00);
                    let ch = match char_from_u32(cp) {
                        Some(ch) => ch,
                        None => {
                            proof {
                                assert(false);
                            }
                            return Err(DecodeError::new("bad code point"));
                        },
                    };
                    acc.push(ch);
                    proof {
                        assert(acc@ =~= pre.push(ch));
                        assert(forall|cs: Seq<char>|
                            pre + (seq![ch] + cs) =~= #[trigger] (pre.push(ch) + cs));
                    }
                    cur += 12;
                } else if 0xDC00 <= h && h < 0xE000 {
                    return Err(DecodeError::new("lone surrogate"));
                } else {
                    let ch = match char_from_u32(h) {
                        Some(ch) => ch,
                        None => {
                            proof {
                                assert(false);
                            }
                            return Err(DecodeError::new("bad code point"));
                        },
                    };
                    acc.push(ch);
                    proof {
                        assert(acc@ =~= pre.push(ch));
                        assert(forall|cs: Seq<char>|
                            pre + (seq![ch] + cs) =~= #[trigger] (pre.push(ch) + cs));
                    }
                    cur += 6;
                }
            } else {
                let ec = match esc_of_exec(e) {
                    Some(c2) => c2,
                    None => {
                        return Err(DecodeError::new("unknown escape"));
                    },
                };
                acc.push(ec);
                proof {
                    assert(acc@ =~= pre.push(ec));
                    assert(forall|cs: Seq<char>|
                        pre + (seq![ec] + cs) =~= #[trigger] (pre.push(ec) + cs));
                }
                cur += 2;
            }
        } else {
            let u: u32 = c as u32;
            if u < 0x20 {
                return Err(DecodeError::new("raw control character in string"));
            }
            acc.push(c);
            proof {
                assert(acc@ =~= pre.push(c));
                assert(forall|cs: Seq<char>|
                    pre + (seq![c] + cs) =~= #[trigger] (pre.push(c) + cs));
            }
            cur += 1;
        }
    }
}

/// Every character of a digit run is a digit, and the run stays inside
/// the sequence.
proof fn lemma_digit_run(s: Seq<char>, i: int)
    requires
        0 <= i <= s.len(),
    ensures
        i + digit_run(s, i) <= s.len(),
        forall|w: int| i <= w < i + digit_run(s, i) ==> is_digit(#[trigger] s[w]),
    decreases s.len() - i,
{
    if i < s.len() && is_digit(s[i]) {
        lemma_digit_run(s, i + 1);
    }
}

/// Parse a number literal.
fn parse_number(s: &Vec<char>, i: usize) -> (r: Result<(i64, usize), DecodeError>)
    requires
        i <= s@.len(),
    ensures
        r matches Ok(p) ==> sp_number(s@, i as int) == Some((p.0, p.1 as int)) && i < p.1
            <= s@.len(),
        r is Err ==> sp_number(s@, i as int) is None,
{
    let n = s.len();
    if i >= n {
        return Err(DecodeError::new("expected a number"));
    }
    let neg = s[i] == '-';
    let j: usize = if neg {
        i + 1
    } else {
        i
    };
    let ghost k = digit_run(s@, j as int);
    proof {
        lemma_digit_run(s@, j as int);
    }
    let mut cur: usize = j;
    let mut acc: i64 = 0;
    while cur < n && is_digit_exec(s[cur])
        invariant
            i < n,
            j <= cur <= n,
            j <= s@.len(),
            n == s@.len(),
            neg == (s@[i as int] == '-'),
            j as int == if neg { i + 1 } else { i as int },
            k == digit_run(s@, j as int),
            j + k <= n,
            digit_run(s@, j as int) == (cur - j) + digit_run(s@, cur as int),
            all_digits(s@.subrange(j as int, cur as int)),
            0 <= acc,
            acc == digits_val(s@.subrange(j as int, cur as int)),
            forall|w: int| j <= w < j + k ==> is_digit(#[trigger] s@[w]),
        decreases n - cur,
    {
        let c = s[cur];
        let d: i64 = ((c as u32) - 48) as i64;
        proof {
            assert(s@.subrange(j as int, cur + 1).drop_last() =~= s@.subrange(
                j as int,
                cur as int,
            ));
            assert(s@.subrange(j as int, cur + 1).last() == s@[cur as int]);
            assert(all_digits(s@.subrange(j as int, cur + 1))) by {
                assert forall|w: int| 0 <= w < cur + 1 - j implies is_digit(
                    #[trigger] s@.subrange(j as int, cur + 1)[w],
                ) by {
                    assert(s@.subrange(j as int, cur + 1)[w] == s@[j + w]);
                    if w < cur - j {
                        assert(s@.subrange(j as int, cur as int)[w] == s@[j + w]);
                    }
                }
            }
            assert(cur - j < k);
            assert(s@.subrange(j as int, j + k).take(cur + 1 - j) =~= s@.subrange(
                j as int,
                cur + 1,
            ));
            assert(all_digits(s@.subrange(j as int, j + k))) by {
                assert forall|w: int| 0 <= w < k implies is_digit(
                    #[trigger] s@.subrange(j as int, j + k)[w],
                ) by {
                    assert(s@.subrange(j as int, j + k)[w] == s@[j + w]);
                }
            }
        }
        let acc10 = match acc.checked_mul(10) {
            Some(v) => v,
            None => {
                proof {
                    assert(digits_val(s@.subrange(j as int, cur + 1)) > i64::MAX);
                    crate::text::lemma_digits_val_prefix_le(
                        s@.subrange(j as int, j + k),
                        cur + 1 - j,
                    );
                }
                return Err(DecodeError::new("number too large"));
            },
        };
        acc = match acc10.checked_add(d) {
            Some(v) => v,
            None => {
                proof {
                    assert(digits_val(s@.subrange(j as int, cur + 1)) > i64::MAX);
                    crate::text::lemma_digits_val_prefix_le(
                        s@.subrange(j as int, j + k),
                        cur + 1 - j,
                    );
                }
                return Err(DecodeError::new("number too large"));
            },
        };
        cur += 1;
    }
    proof {
        assert(digit_run(s@, cur as int) == 0);
        assert(k == cur - j);
    }
    if cur == j {
        return Err(DecodeError::new("expected a digit"));
    }
    if cur - j > 1 && s[j] == '0' {
        return Err(DecodeError::new("leading zero in number"));
    }
    proof {
        assert(s@.subrange(j as int, j + k) =~= s@.subrange(j as int, cur as int));
    }
    if neg {
        Ok((-acc, cur))
    } else {
        Ok((acc, cur))
    }
}

/// Parse one value starting at `i` (no leading blanks).
fn parse_value(s: &Vec<char>, i: usize) -> (r: Result<(Json, usize), DecodeError>)
    requires
        i <= s@.len(),
    ensures
        r matches Ok(p) ==> sp_value(s@, i as int) == Some((p.0@, p.1 as int)) && i < p.1
            <= s@.len(),
        r is Err ==> sp_value(s@, i as int) is None,
    decreases s@.len() - i, 0int,
{
    let n = s.len();
    if i >= n {
        return Err(DecodeError::new("unexpected end of input"));
    }
    let c = s[i];
    if c == '"' {
        match parse_string(s, i) {
            Ok((st, e)) => Ok((Json::Str(st), e)),
            Err(er) => Err(er),
        }
    } else if c == '[' {
        let j = skip_ws(s, i + 1);
        if j < n && s[j] == ']' {
            let items: Vec<Json> = Vec::new();
            proof {
                assert(items@ =~= Seq::<Json>::empty());
                assert(jarr_of(Seq::<Json>::empty()) =~= Seq::<JVal>::empty());
            }
            Ok((Json::Arr(items), j + 1))
        } else {
            match parse_arr_items(s, j) {
                Ok((items, e)) => Ok((Json::Arr(items), e)),
                Err(er) => Err(er),
            }
        }
    } else if c == '{' {
        let j = skip_ws(s, i + 1);
        if j < n && s[j] == '}' {
            let members: Vec<(String, Json)> = Vec::new();
            proof {
                assert(members@ =~= Seq::<(String, Json)>::empty());
                assert(jobj_of(Seq::<(String, Json)>::empty()) =~= Seq::<(Seq<char>, JVal)>::empty());
            }
            Ok((Json::Obj(members), j + 1))
        } else {
            match parse_obj_items(s, j) {
                Ok((members, e)) => Ok((Json::Obj(members), e)),
                Err(er) => Err(er),
            }
        }
    } else if c == 't' {
        if n - i >= 4 && s[i + 1] == 'r' && s[i + 2] == 'u' && s[i + 3] == 'e' {
            Ok((Json::Bool(true), i + 4))
        } else {
            Err(DecodeError::new("unexpected token"))
        }
    } else if c == 'f' {
        if n - i >= 5 && s[i + 1] == 'a' && s[i + 2] == 'l' && s[i + 3] == 's' && s[i + 4] == 'e' {
            Ok((Json::Bool(false), i + 5))
        } else {
            Err(DecodeError::new("unexpected token"))
        }
    } else if c == 'n' {
        if n - i >= 4 && s[i + 1] == 'u' && s[i + 2] == 'l' && s[i + 3] == 'l' {
            Ok((Json::Null, i + 4))
        } else {
            Err(DecodeError::new("unexpected token"))
        }
    } else {
        match parse_number(s, i) {
            Ok((v, e)) => Ok((Json::Int(v), e)),
            Err(er) => Err(er),
        }
    }
}

/// Parse the elements of a non-empty array, starting at the first
/// element, through the closing bracket.
fn parse_arr_items(s: &Vec<char>, i: usize) -> (r: Result<(Vec<Json>, usize), DecodeError>)
    requires
        i <= s@.len(),
    ensures
        r matches Ok(p) ==> sp_arr_items(s@, i as int) == Some((jarr_of(p.0@), p.1 as int)) && i
            < p.1 <= s@.len(),
        r is Err ==> sp_arr_items(s@, i as int) is None,
    decreases s@.len() - i, 1int,
{
    let n = s.len();
    let (v, e) = match parse_value(s, i) {
        Ok(p) => p,
        Err(er) => {
            return Err(er);
        },
    };
    let j = skip_ws(s, e);
    if j < n && s[j] == ',' {
        let j2 = skip_ws(s, j + 1);
        match parse_arr_items(s, j2) {
            Ok((mut rest, e2)) => {
                let ghost tail = rest@;
                rest.insert(0, v);
                proof {
                    assert(rest@ =~= seq![v] + tail);
                    assert((seq![v] + tail).skip(1) =~= tail);
                    assert(jarr_of(rest@) =~= seq![jval_of(v)] + jarr_of(tail));
                }
                Ok((rest, e2))
            },
            Err(er) => Err(er),
        }
    } else if j < n && s[j] == ']' {
        let mut items: Vec<Json> = Vec::new();
        items.push(v);
        proof {
            assert(items@ =~= seq![v]);
            assert((seq![v]).skip(1) =~= Seq::<Json>::empty());
            assert(jarr_of(Seq::<Json>::empty()) =~= Seq::<JVal>::empty());
            assert(jarr_of(items@) =~= seq![jval_of(v)]);
        }
        Ok((items, j + 1))
    } else {
        Err(DecodeError::new("expected a comma or closing bracket"))
    }
}

/// Parse the members of a non-empty object, starting at the first key,
/// through the closing brace.
fn parse_obj_items(s: &Vec<char>, i: usize) -> (r: Result<
    (Vec<(String, Json)>, usize),
    DecodeError,
>)
    requires
        i <= s@.len(),
    ensures
        r matches Ok(p) ==> sp_obj_items(s@, i as int) == Some((jobj_of(p.0@), p.1 as int)) && i
            < p.1 <= s@.len(),
        r is Err ==> sp_obj_items(s@, i as int) is None,
    decreases s@.len() - i, 1int,
{
    let n = s.len();
    let (key, ek) = match parse_string(s, i) {
        Ok(p) => p,
        Err(er) => {
            return Err(er);
        },
    };
    let j = skip_ws(s, ek);
    if j < n && s[j] == ':' {
        let j2 = skip_ws(s, j + 1);
        let (v, ev) = match parse_value(s, j2) {
            Ok(p) => p,
            Err(er) => {
                return Err(er);
            },
        };
        let j3 = skip_ws(s, ev);
        if j3 < n && s[j3] == ',' {
            let j4 = skip_ws(s, j3 + 1);
            match parse_obj_items(s, j4) {
                Ok((mut rest, e2)) => {
                    let ghost tail = rest@;
                    rest.insert(0, (key, v));
                    proof {
                        assert(rest@ =~= seq![(key, v)] + tail);
                        assert((seq![(key, v)] + tail).skip(1) =~= tail);
                        assert(jobj_of(rest@) =~= seq![(key@, jval_of(v))] + jobj_of(tail));
                    }
                    Ok((rest, e2))
                },
                Err(er) => Err(er),
            }
        } else if j3 < n && s[j3] == '}' {
            let mut members: Vec<(String, Json)> = Vec::new();
            members.push((key, v));
            proof {
                assert(members@ =~= seq![(key, v)]);
                assert((seq![(key, v)]).skip(1) =~= Seq::<(String, Json)>::empty());
                assert(jobj_of(Seq::<(String, Json)>::empty()) =~= Seq::<(Seq<char>, JVal)>::empty());
                assert(jobj_of(members@) =~= seq![(key@, jval_of(v))]);
            }
            Ok((members, j3 + 1))
        } else {
            Err(DecodeError::new("expected a comma or closing brace"))
        }
    } else {
        Err(DecodeError::new("expected a colon"))
    }
}

// ---------------------------------------------------------------------
// The emitter and the parser are inverses
// ---------------------------------------------------------------------
/// The values whose canonical text reads back: every value except the
/// one integer whose magnitude the number grammar cannot hold.
pub open spec fn jval_wf(v: JVal) -> bool
    decreases v, 1int, 0int,
{
    match v {
        JVal::Int(n) => n > i64::MIN,
        JVal::Arr(a) => jarr_wf(a),
        JVal::Obj(o) => jobj_wf(o),
        _ => true,
    }
}

/// Every element of the sequence is well formed.
pub open spec fn jarr_wf(a: Seq<JVal>) -> bool
    decreases a, 0int, a.len(),
{
    if a.len() == 0 {
        true
    } else {
        jval_wf(a[0]) && jarr_wf(a.skip(1))
    }
}

/// Every member value of the sequence is well formed.
pub open spec fn jobj_wf(o: Seq<(Seq<char>, JVal)>) -> bool
    decreases o, 0int, o.len(),
{
    if o.len() == 0 {
        true
    } else {
        jval_wf(o[0].1) && jobj_wf(o.skip(1))
    }
}

/// `piece` occurs in `t` starting at `i`.
pub open spec fn piece_at(t: Seq<char>, i: int, piece: Seq<char>) -> bool {
    0 <= i && i + piece.len() <= t.len() && t.subrange(i, i + piece.len()) == piece
}

/// A shorter piece occurs wherever a longer one does.
proof fn lemma_piece_shift(t: Seq<char>, i: int, a: Seq<char>, b: Seq<char>)
    requires
        piece_at(t, i, a + b),
    ensures
        piece_at(t, i, a),
        piece_at(t, i + a.len(), b),
        forall|w: int| 0 <= w < a.len() ==> t[i + w] == a[w],
{
    let ab = a + b;
    assert forall|w: int| 0 <= w < ab.len() implies t[i + w] == ab[w] by {
        assert(t.subrange(i, i + ab.len() as int)[w] == t[i + w]);
    }
    assert forall|w: int| 0 <= w < a.len() implies t.subrange(i, i + a.len() as int)[w] == a[w] by {
        assert(t.subrange(i, i + a.len() as int)[w] == t[i + w]);
        assert(t[i + w] == ab[w]);
    }
    assert(t.subrange(i, i + a.len() as int) =~= a);
    assert forall|w: int|
        0 <= w < b.len() implies t.subrange(i + a.len(), i + a.len() + b.len() as int)[w]
        == b[w] by {
        assert(t.subrange(i + a.len(), i + a.len() + b.len() as int)[w] == t[i + (a.len() + w)]);
        assert(t[i + (a.len() + w)] == ab[a.len() + w]);
        assert(ab[a.len() + w] == b[w]);
    }
    assert(t.subrange(i + a.len(), i + a.len() + b.len()) =~= b);
}

/// The characters of a piece can be read off the containing text.
proof fn lemma_piece_index(t: Seq<char>, i: int, piece: Seq<char>)
    requires
        piece_at(t, i, piece),
    ensures
        forall|w: int| 0 <= w < piece.len() ==> t[i + w] == piece[w],
{
    assert forall|w: int| 0 <= w < piece.len() implies t[i + w] == piece[w] by {
        assert(t.subrange(i, i + piece.len() as int)[w] == t[i + w]);
    }
}

/// Reading back a hexadecimal digit character gives its value.
proof fn lemma_hex_inverse(d: u32)
    requires
        d < 16,
    ensures
        hex_val(hex_char(d)) == Some(d),
{
}

/// An emitted string-literal body reads back to exactly the original
/// characters.
#[verifier::rlimit(100)]
proof fn lemma_str_body_emit(t: Seq<char>, i: int, s: Seq<char>)
    requires
        piece_at(t, i, esc_str(s).push('"')),
    ensures
        sp_str_body(t, i) == Some((s, i + esc_str(s).len() + 1)),
    decreases s.len(),
{
    lemma_piece_index(t, i, esc_str(s).push('"'));
    if s.len() == 0 {
        assert(esc_str(s).push('"')[0] == '"');
        assert(t[i] == '"');
    } else {
        let c = s[0];
        let e0 = esc_char(c);
        assert(esc_str(s) == e0 + esc_str(s.skip(1)));
        assert(esc_str(s).push('"') =~= e0 + esc_str(s.skip(1)).push('"'));
        lemma_piece_shift(t, i, e0, esc_str(s.skip(1)).push('"'));
        lemma_str_body_emit(t, i + e0.len(), s.skip(1));
        let u = c as u32;
        if c == '"' || c == '\\' {
            assert(t[i] == '\\' && t[i + 1] == e0[1]);
            assert(esc_of(e0[1]) == Some(c));
            assert(seq![c] + s.skip(1) =~= s);
        } else if c == '\u{8}' || c == '\u{9}' || c == '\u{a}' || c == '\u{c}' || c == '\u{d}' {
            assert(t[i] == '\\' && t[i + 1] == e0[1]);
            assert(esc_of(e0[1]) == Some(c));
            assert(seq![c] + s.skip(1) =~= s);
        } else if u < 0x20 {
            assert(t[i] == '\\' && t[i + 1] == 'u' && t[i + 2] == '0' && t[i + 3] == '0' && t[i + 4]
                == hex_char(u >> 4) && t[i + 5] == hex_char(u & 0xF));
            assert(u >> 4 < 16 && u & 0xF < 16) by (bit_vector)
                requires
                    u < 0x20,
            ;
            lemma_hex_inverse(u >> 4);
            lemma_hex_inverse(u & 0xF);
            assert(hex_val('0') == Some(0u32));
            assert(hex4(t, i + 2) == Some(((((0u32 * 16 + 0) * 16 + (u >> 4)) * 16) + (u
                & 0xF)) as u32));
            assert(((((0u32 * 16 + 0) * 16 + (u >> 4)) * 16) + (u & 0xF)) as u32 == u) by (bit_vector)
                requires
                    u < 0x20,
            ;
            assert(!(0xD800 <= u && u < 0xDC00) && !(0xDC00 <= u && u < 0xE000));
            vstd::utf8::char_u32_cast(c, u);
            assert((u as char) == c);
            assert(seq![c] + s.skip(1) =~= s);
        } else {
            assert(e0 == seq![c]);
            assert(t[i + 0] == e0[0]);
            assert(t[i] == c);
            assert(c != '"' && c != '\\' && u >= 0x20);
            assert(seq![c] + s.skip(1) =~= s);
        }
    }
}

/// An emitted string literal reads back to exactly the original string.
proof fn lemma_string_emit(t: Seq<char>, i: int, s: Seq<char>)
    requires
        piece_at(t, i, emit_string(s)),
    ensures
        sp_string(t, i) == Some((s, i + emit_string(s).len())),
{
    assert(emit_string(s) =~= seq!['"'] + esc_str(s).push('"'));
    lemma_piece_shift(t, i, seq!['"'], esc_str(s).push('"'));
    assert(t[i + 0] == (seq!['"'])[0]);
    assert(t[i] == '"');
    lemma_str_body_emit(t, i + 1, s);
}

/// The decimal text of a nonnegative integer is all digits, has no
/// leading zero, and reads back to the same value.
proof fn lemma_dec_str_digits(n: int)
    requires
        n >= 0,
    ensures
        spec_dec_str(n).len() >= 1,
        forall|w: int| 0 <= w < spec_dec_str(n).len() ==> is_digit(#[trigger] spec_dec_str(n)[w]),
        digits_val(spec_dec_str(n)) == n,
        spec_dec_str(n).len() > 1 ==> spec_dec_str(n)[0] != '0',
        n >= 10 ==> spec_dec_str(n).len() > 1,
    decreases n,
{
    if n < 10 {
        assert(spec_dec_str(n) == seq![crate::text::digit_char(n)]);
        assert(digits_val(spec_dec_str(n)) == digits_val(spec_dec_str(n).drop_last()) * 10
            + crate::text::digit_val(spec_dec_str(n).last()));
        assert(spec_dec_str(n).drop_last() =~= Seq::<char>::empty());
    } else {
        lemma_dec_str_digits(n / 10);
        let d = spec_dec_str(n);
        assert(d == spec_dec_str(n / 10).push(crate::text::digit_char(n % 10)));
        assert(d.drop_last() =~= spec_dec_str(n / 10));
        assert(d.last() == crate::text::digit_char(n % 10));
        assert(forall|w: int|
            0 <= w < d.len() - 1 ==> #[trigger] d[w] == spec_dec_str(n / 10)[w]);
        assert(d[0] == spec_dec_str(n / 10)[0]);
        if spec_dec_str(n / 10).len() == 1 {
            assert(n / 10 < 10);
            assert(n / 10 >= 1);
            assert(spec_dec_str(n / 10)[0] == crate::text::digit_char(n / 10));
        }
    }
}

/// A run of digits followed by a non-digit has exactly that length.
proof fn lemma_digit_run_exact(t: Seq<char>, i: int, k: int)
    requires
        0 <= i,
        i + k <= t.len(),
        k >= 0,
        forall|w: int| 0 <= w < k ==> is_digit(#[trigger] t[i + w]),
        i + k == t.len() || !is_digit(t[i + k]),
    ensures
        digit_run(t, i) == k,
    decreases k,
{
    if k == 0 {
    } else {
        assert(is_digit(t[i + 0]));
        assert forall|w: int| 0 <= w < k - 1 implies is_digit(#[trigger] t[i + 1 + w]) by {
            assert(is_digit(t[i + (w + 1)]));
        }
        lemma_digit_run_exact(t, i + 1, k - 1);
    }
}

/// An emitted number literal, followed by anything but a digit, reads
/// back to exactly the original value.
proof fn lemma_number_emit(t: Seq<char>, i: int, n: i64)
    requires
        n > i64::MIN,
        piece_at(t, i, emit_int(n)),
        i + emit_int(n).len() == t.len() || !is_digit(t[i + emit_int(n).len()]),
    ensures
        sp_number(t, i) == Some((n, i + emit_int(n).len())),
{
    lemma_piece_index(t, i, emit_int(n));
    if n >= 0 {
        lemma_dec_str_digits(n as int);
        let d = spec_dec_str(n as int);
        assert(forall|w: int| 0 <= w < d.len() ==> #[trigger] t[i + w] == d[w]);
        assert(t[i] == d[0]);
        assert(is_digit(d[0]));
        assert(t[i] != '-') by {
            assert(is_digit(t[i]));
        }
        lemma_digit_run_exact(t, i, d.len() as int);
        assert(t.subrange(i, i + d.len() as int) == d);
        assert(digits_val(t.subrange(i, i + d.len() as int)) == n);
    } else {
        let m = -(n as int);
        lemma_dec_str_digits(m);
        let d = spec_dec_str(m);
        assert(emit_int(n) == seq!['-'] + d);
        lemma_piece_shift(t, i, seq!['-'], d);
        lemma_piece_index(t, i + 1, d);
        assert(t[i + 0] == (seq!['-'])[0]);
        assert(t[i] == '-');
        assert(forall|w: int| 0 <= w < d.len() ==> #[trigger] t[i + 1 + w] == d[w]);
        lemma_digit_run_exact(t, i + 1, d.len() as int);
        assert(t.subrange(i + 1, i + 1 + d.len() as int) == d);
        assert(digits_val(t.subrange(i + 1, i + 1 + d.len() as int)) == m);
        assert(m <= i64::MAX);
    }
}

/// An emitted value begins with a character that is not blank and not a
/// closing or separating token.
proof fn lemma_emit_first(v: JVal)
    ensures
        emit(v).len() > 0,
        !is_ws(emit(v)[0]),
        emit(v)[0] != ']' && emit(v)[0] != '}' && emit(v)[0] != ',' && emit(v)[0] != ':',
{
    match v {
        JVal::Int(n) => {
            if n >= 0 {
                lemma_dec_str_digits(n as int);
                assert(is_digit(emit(v)[0]));
            } else {
                lemma_dec_str_digits(-(n as int));
                assert(emit_int(n)[0] == '-');
            }
        },
        JVal::Str(s) => {
            assert(emit_string(s)[0] == '"');
        },
        JVal::Arr(a) => {
            assert(emit(v)[0] == '[');
        },
        JVal::Obj(o) => {
            assert(emit(v)[0] == '{');
        },
        _ => {},
    }
}

/// An emitted value, followed by anything but a digit, reads back to
/// exactly the original value.
proof fn lemma_value_emit(t: Seq<char>, i: int, v: JVal)
    requires
        jval_wf(v),
        piece_at(t, i, emit(v)),
        i + emit(v).len() == t.len() || !is_digit(t[i + emit(v).len()]),
    ensures
        sp_value(t, i) == Some((v, i + emit(v).len())),
    decreases v, 2int, 0int,
{
    lemma_piece_index(t, i, emit(v));
    lemma_emit_first(v);
    match v {
        JVal::Null => {
            assert(t[i] == 'n' && t[i + 1] == 'u' && t[i + 2] == 'l' && t[i + 3] == 'l');
        },
        JVal::Bool(b) => {
            if b {
                assert(t[i] == 't' && t[i + 1] == 'r' && t[i + 2] == 'u' && t[i + 3] == 'e');
            } else {
                assert(t[i] == 'f' && t[i + 1] == 'a' && t[i + 2] == 'l' && t[i + 3] == 's' && t[i
                    + 4] == 'e');
            }
        },
        JVal::Int(n) => {
            lemma_number_emit(t, i, n);
            if n >= 0 {
                lemma_dec_str_digits(n as int);
                assert(is_digit(t[i]));
            } else {
                assert(t[i] == '-');
            }
        },
        JVal::Str(s) => {
            lemma_string_emit(t, i, s);
            assert(t[i] == '"');
        },
        JVal::Arr(a) => {
            assert(t[i] == '[');
            assert(emit(v) =~= seq!['['] + emit_arr(a).push(']'));
            lemma_piece_shift(t, i, seq!['['], emit_arr(a).push(']'));
            lemma_piece_index(t, i + 1, emit_arr(a).push(']'));
            if a.len() == 0 {
                assert(emit_arr(a).push(']')[0] == ']');
                assert(t[i + 1] == ']');
                assert(sp_ws(t, i + 1) == 0);
                assert(adv(t, i + 1) == i + 1);
                assert(Seq::<JVal>::empty() =~= a);
            } else {
                lemma_emit_first(a[0]);
                assert(emit_arr(a)[0] == emit(a[0])[0]) by {
                    if a.len() == 1 {
                        assert(emit_arr(a) == emit(a[0]));
                    } else {
                        assert(emit_arr(a) == emit(a[0]) + seq![','] + emit_arr(a.skip(1)));
                    }
                }
                assert(emit_arr(a).push(']')[0] == emit_arr(a)[0]);
                assert(t[i + 1 + 0] == emit_arr(a).push(']')[0]);
                assert(t[i + 1] == emit(a[0])[0]);
                assert(!is_ws(t[i + 1]));
                assert(sp_ws(t, i + 1) == 0);
                assert(adv(t, i + 1) == i + 1);
                assert(t[i + 1] != ']');
                lemma_arr_items_emit(t, i + 1, a);
            }
        },
        JVal::Obj(o) => {
            assert(t[i] == '{');
            assert(emit(v) =~= seq!['{'] + emit_obj(o).push('}'));
            lemma_piece_shift(t, i, seq!['{'], emit_obj(o).push('}'));
            lemma_piece_index(t, i + 1, emit_obj(o).push('}'));
            if o.len() == 0 {
                assert(emit_obj(o).push('}')[0] == '}');
                assert(t[i + 1] == '}');
                assert(sp_ws(t, i + 1) == 0);
                assert(adv(t, i + 1) == i + 1);
                assert(Seq::<(Seq<char>, JVal)>::empty() =~= o);
            } else {
                assert(emit_obj(o)[0] == emit_string(o[0].0)[0]) by {
                    if o.len() == 1 {
                        assert(emit_obj(o) == emit_string(o[0].0) + seq![':'] + emit(o[0].1));
                    } else {
                        assert(emit_obj(o) == emit_string(o[0].0) + seq![':'] + emit(o[0].1)
                            + seq![','] + emit_obj(o.skip(1)));
                    }
                    assert(emit_string(o[0].0).len() > 0);
                }
                assert(emit_string(o[0].0)[0] == '"');
                assert(emit_obj(o).push('}')[0] == emit_obj(o)[0]);
                assert(t[i + 1 + 0] == emit_obj(o).push('}')[0]);
                assert(t[i + 1] == '"');
                assert(!is_ws(t[i + 1]));
                assert(sp_ws(t, i + 1) == 0);
                assert(adv(t, i + 1) == i + 1);
                assert(t[i + 1] != '}');
                lemma_obj_items_emit(t, i + 1, o);
            }
        },
    }
}

/// The emitted elements of a non-empty array, followed by the closing
/// bracket, read back to exactly the original elements.
proof fn lemma_arr_items_emit(t: Seq<char>, i: int, a: Seq<JVal>)
    requires
        a.len() > 0,
        jarr_wf(a),
        piece_at(t, i, emit_arr(a).push(']')),
    ensures
        sp_arr_items(t, i) == Some((a, i + emit_arr(a).len() + 1)),
    decreases a, 1int, a.len(),
{
    let e0 = emit(a[0]);
    let e = i + e0.len();
    if a.len() == 1 {
        assert(emit_arr(a) == e0);
        assert(emit_arr(a).push(']') =~= e0 + seq![']']);
        lemma_piece_shift(t, i, e0, seq![']']);
        lemma_piece_index(t, e, seq![']']);
        assert(t[e + 0] == (seq![']'])[0]);
        assert(t[e] == ']');
        lemma_value_emit(t, i, a[0]);
        assert(!is_ws(t[e]));
        assert(sp_ws(t, e) == 0);
        assert(adv(t, e) == e);
        assert(seq![a[0]] =~= a);
    } else {
        let s2 = emit_arr(a.skip(1)).push(']');
        assert(emit_arr(a) == e0 + seq![','] + emit_arr(a.skip(1)));
        assert(emit_arr(a).push(']') =~= e0 + (seq![','] + s2));
        lemma_piece_shift(t, i, e0, seq![','] + s2);
        lemma_piece_index(t, e, seq![','] + s2);
        assert(t[e + 0] == (seq![','] + s2)[0]);
        assert(t[e] == ',');
        lemma_value_emit(t, i, a[0]);
        assert(!is_ws(t[e]));
        assert(sp_ws(t, e) == 0);
        assert(adv(t, e) == e);
        assert(t[e] != ']');
        lemma_piece_shift(t, e, seq![','], s2);
        lemma_piece_index(t, e + 1, s2);
        assert(a.skip(1).len() > 0);
        lemma_emit_first(a.skip(1)[0]);
        assert(emit_arr(a.skip(1))[0] == emit(a.skip(1)[0])[0]) by {
            if a.skip(1).len() == 1 {
                assert(emit_arr(a.skip(1)) == emit(a.skip(1)[0]));
            } else {
                assert(emit_arr(a.skip(1)) == emit(a.skip(1)[0]) + seq![','] + emit_arr(
                    a.skip(1).skip(1),
                ));
            }
        }
        assert(s2[0] == emit_arr(a.skip(1))[0]);
        assert(t[e + 1 + 0] == s2[0]);
        assert(t[e + 1] == emit(a.skip(1)[0])[0]);
        assert(!is_ws(t[e + 1]));
        assert(sp_ws(t, e + 1) == 0);
        assert(adv(t, e + 1) == e + 1);
        lemma_arr_items_emit(t, e + 1, a.skip(1));
        assert(seq![a[0]] + a.skip(1) =~= a);
    }
}

/// The emitted members of a non-empty object, followed by the closing
/// brace, read back to exactly the original members.
proof fn lemma_obj_items_emit(t: Seq<char>, i: int, o: Seq<(Seq<char>, JVal)>)
    requires
        o.len() > 0,
        jobj_wf(o),
        piece_at(t, i, emit_obj(o).push('}')),
    ensures
        sp_obj_items(t, i) == Some((o, i + emit_obj(o).len() + 1)),
    decreases o, 1int, o.len(),
{
    let k0 = emit_string(o[0].0);
    let e0 = emit(o[0].1);
    let ek = i + k0.len();
    let ev = ek + 1 + e0.len();
    if o.len() == 1 {
        let r3: Seq<char> = seq!['}'];
        assert(emit_obj(o) == k0 + seq![':'] + e0);
        assert(emit_obj(o).push('}') =~= k0 + (seq![':'] + (e0 + r3)));
        lemma_piece_shift(t, i, k0, seq![':'] + (e0 + r3));
        lemma_piece_index(t, ek, seq![':'] + (e0 + r3));
        assert(t[ek + 0] == (seq![':'] + (e0 + r3))[0]);
        assert(t[ek] == ':');
        lemma_piece_shift(t, ek, seq![':'], e0 + r3);
        lemma_piece_shift(t, ek + 1, e0, r3);
        lemma_piece_index(t, ev, r3);
        assert(t[ev + 0] == r3[0]);
        assert(t[ev] == '}');
        lemma_string_emit(t, i, o[0].0);
        assert(!is_ws(t[ek]));
        assert(sp_ws(t, ek) == 0);
        assert(adv(t, ek) == ek);
        lemma_emit_first(o[0].1);
        lemma_piece_index(t, ek + 1, e0);
        assert(t[ek + 1 + 0] == e0[0]);
        assert(!is_ws(t[ek + 1]));
        assert(sp_ws(t, ek + 1) == 0);
        assert(adv(t, ek + 1) == ek + 1);
        lemma_value_emit(t, ek + 1, o[0].1);
        assert(!is_ws(t[ev]));
        assert(sp_ws(t, ev) == 0);
        assert(adv(t, ev) == ev);
        assert(seq![(o[0].0, o[0].1)] =~= o);
    } else {
        let s2 = emit_obj(o.skip(1)).push('}');
        let r3 = seq![','] + s2;
        assert(emit_obj(o) == k0 + seq![':'] + e0 + seq![','] + emit_obj(o.skip(1)));
        assert(emit_obj(o).push('}') =~= k0 + (seq![':'] + (e0 + r3)));
        lemma_piece_shift(t, i, k0, seq![':'] + (e0 + r3));
        lemma_piece_index(t, ek, seq![':'] + (e0 + r3));
        assert(t[ek + 0] == (seq![':'] + (e0 + r3))[0]);
        assert(t[ek] == ':');
        lemma_piece_shift(t, ek, seq![':'], e0 + r3);
        lemma_piece_shift(t, ek + 1, e0, r3);
        lemma_piece_index(t, ev, r3);
        assert(t[ev + 0] == r3[0]);
        assert(t[ev] == ',');
        lemma_string_emit(t, i, o[0].0);
        assert(!is_ws(t[ek]));
        assert(sp_ws(t, ek) == 0);
        assert(adv(t, ek) == ek);
        lemma_emit_first(o[0].1);
        lemma_piece_index(t, ek + 1, e0);
        assert(t[ek + 1 + 0] == e0[0]);
        assert(!is_ws(t[ek + 1]));
        assert(sp_ws(t, ek + 1) == 0);
        assert(adv(t, ek + 1) == ek + 1);
        lemma_value_emit(t, ek + 1, o[0].1);
        assert(!is_ws(t[ev]));
        assert(sp_ws(t, ev) == 0);
        assert(adv(t, ev) == ev);
        assert(t[ev] != '}');
        lemma_piece_shift(t, ev, seq![','], s2);
        lemma_piece_index(t, ev + 1, s2);
        assert(o.skip(1).len() > 0);
        assert(emit_obj(o.skip(1))[0] == emit_string(o.skip(1)[0].0)[0]) by {
            if o.skip(1).len() == 1 {
                assert(emit_obj(o.skip(1)) == emit_string(o.skip(1)[0].0) + seq![':'] + emit(
                    o.skip(1)[0].1,
                ));
            } else {
                assert(emit_obj(o.skip(1)) == emit_string(o.skip(1)[0].0) + seq![':'] + emit(
                    o.skip(1)[0].1,
                ) + seq![','] + emit_obj(o.skip(1).skip(1)));
            }
            assert(emit_string(o.skip(1)[0].0).len() > 0);
        }
        assert(emit_string(o.skip(1)[0].0)[0] == '"');
        assert(s2[0] == emit_obj(o.skip(1))[0]);
        assert(t[ev + 1 + 0] == s2[0]);
        assert(t[ev + 1] == '"');
        assert(!is_ws(t[ev + 1]));
        assert(sp_ws(t, ev + 1) == 0);
        assert(adv(t, ev + 1) == ev + 1);
        lemma_obj_items_emit(t, ev + 1, o.skip(1));
        assert(seq![(o[0].0, o[0].1)] + o.skip(1) =~= o);
    }
}

/// The canonical text of a well-formed value parses back to exactly
/// that value: the emitter and the parser are inverses.
pub proof fn lemma_emit_parse_round_trip(v: JVal)
    requires
        jval_wf(v),
    ensures
        sp_json(emit(v)) == Some(v),
{
    let t = emit(v);
    lemma_emit_first(v);
    assert(t.subrange(0, t.len() as int) =~= t);
    assert(piece_at(t, 0, t));
    assert(sp_ws(t, 0) == 0);
    assert(adv(t, 0) == 0);
    lemma_value_emit(t, 0, v);
    assert(sp_ws(t, t.len() as int) == 0);
    assert(adv(t, t.len() as int) == t.len());
}

/// Parse a whole text into a value: blanks, one value, blanks, end of
/// input.
pub fn json_parse(s: &str) -> (r: Result<Json, DecodeError>)
    ensures
        r matches Ok(j) ==> sp_json(s@) == Some(j@),
        r is Err ==> sp_json(s@) is None,
{
    let v = crate::text::chars_of_str(s);
    let i = skip_ws(&v, 0);
    match parse_value(&v, i) {
        Err(er) => Err(er),
        Ok((j, e)) => {
            let f = skip_ws(&v, e);
            if f == v.len() {
                Ok(j)
            } else {
                Err(DecodeError::new("trailing characters after value"))
            }
        },
    }
}

} // verus!
