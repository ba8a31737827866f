//! The reversible text encoding used to embed binary payloads in the wire
//! format: standard base64 with `=` padding to a multiple of four output
//! characters.
//!
//! Decoding accepts the empty string as a zero-length payload, ignores
//! trailing padding, and rejects any character outside the 64-symbol
//! alphabet.  The encode/decode round trip is proved below for every byte
//! sequence, including lengths that are not a multiple of three.

use vstd::prelude::*;

verus! {

/// The alphabet character for a 6-bit value.
pub open spec fn b64_char(v: u8) -> char {
    if v < 26 {
        ((65 + v) as u8) as char  // 'A'..'Z'
    } else if v < 52 {
        ((97 + (v - 26)) as u8) as char  // 'a'..'z'
    } else if v < 62 {
        ((48 + (v - 52)) as u8) as char  // '0'..'9'
    } else if v == 62 {
        '+'
    } else {
        '/'
    }
}

/// The 6-bit value of an alphabet character; `None` outside the alphabet
/// (padding `'='` included).
pub open spec fn b64_val(c: char) -> Option<u8> {
    let u = c as u32;
    if 65 <= u && u <= 90 {
        Some((u - 65) as u8)
    } else if 97 <= u && u <= 122 {
        Some(((u - 97) + 26) as u8)
    } else if 48 <= u && u <= 57 {
        Some(((u - 48) + 52) as u8)
    } else if c == '+' {
        Some(62u8)
    } else if c == '/' {
        Some(63u8)
    } else {
        None
    }
}

/// Reading back an alphabet character gives the encoded 6-bit value.
pub proof fn lemma_b64_char_val(v: u8)
    requires
        v < 64,
    ensures
        b64_val(b64_char(v)) == Some(v),
{
}

/// No 6-bit value encodes to the padding character.
pub proof fn lemma_b64_char_not_pad(v: u8)
    requires
        v < 64,
    ensures
        b64_char(v) != '=',
{
    lemma_b64_char_val(v);
    assert(b64_val('=') is None);
}

/// The four characters encoding one full three-byte group.
pub open spec fn enc_group(b0: u8, b1: u8, b2: u8) -> Seq<char> {
    seq![
        b64_char(b0 >> 2),
        b64_char(((b0 << 4) | (b1 >> 4)) & 0x3F),
        b64_char(((b1 << 2) | (b2 >> 6)) & 0x3F),
        b64_char(b2 & 0x3F),
    ]
}

/// The base64 encoding of a byte sequence, with `=` padding.
pub open spec fn enc64(s: Seq<u8>) -> Seq<char>
    decreases s.len(),
{
    if s.len() == 0 {
        Seq::empty()
    } else if s.len() == 1 {
        seq![b64_char(s[0] >> 2), b64_char((s[0] << 4) & 0x3F), '=', '=']
    } else if s.len() == 2 {
        seq![
            b64_char(s[0] >> 2),
            b64_char(((s[0] << 4) | (s[1] >> 4)) & 0x3F),
            b64_char((s[1] << 2) & 0x3F),
            '=',
        ]
    } else {
        enc_group(s[0], s[1], s[2]) + enc64(s.skip(3))
    }
}

/// The encoding without its padding characters.
pub open spec fn enc64_core(s: Seq<u8>) -> Seq<char>
    decreases s.len(),
{
    if s.len() == 0 {
        Seq::empty()
    } else if s.len() == 1 {
        seq![b64_char(s[0] >> 2), b64_char((s[0] << 4) & 0x3F)]
    } else if s.len() == 2 {
        seq![
            b64_char(s[0] >> 2),
            b64_char(((s[0] << 4) | (s[1] >> 4)) & 0x3F),
            b64_char((s[1] << 2) & 0x3F),
        ]
    } else {
        enc_group(s[0], s[1], s[2]) + enc64_core(s.skip(3))
    }
}

/// `s` with every trailing `'='` removed.
pub open spec fn trim_pad(s: Seq<char>) -> Seq<char>
    decreases s.len(),
{
    if s.len() > 0 && s.last() == '=' {
        trim_pad(s.drop_last())
    } else {
        s
    }
}

/// How a stream of alphabet characters decodes: six bits are shifted into
/// `buf` per character, and each time eight or more bits are available one
/// byte is emitted.
pub open spec fn dec64_loop(s: Seq<char>, buf: u32, bits: u32) -> Option<Seq<u8>>
    decreases s.len(),
{
    if s.len() == 0 {
        Some(Seq::empty())
    } else {
        match b64_val(s[0]) {
            None => None,
            Some(v) => {
                let buf2 = (buf << 6) | (v as u32);
                if bits + 6 >= 8 {
                    let bits2 = ((bits + 6) - 8) as u32;
                    let byte = ((buf2 >> bits2) & 0xFF) as u8;
                    match dec64_loop(s.skip(1), buf2, bits2) {
                        None => None,
                        Some(rest) => Some(seq![byte] + rest),
                    }
                } else {
                    dec64_loop(s.skip(1), buf2, (bits + 6) as u32)
                }
            },
        }
    }
}

/// The decoding of a base64 string: trailing padding is ignored, then the
/// remaining characters are decoded as a bit stream.
pub open spec fn dec64(s: Seq<char>) -> Option<Seq<u8>> {
    dec64_loop(trim_pad(s), 0, 0)
}

fn b64_char_exec(v: u8) -> (c: char)
    requires
        v < 64,
    ensures
        c == b64_char(v),
{
    if v < 26 {
        (65 + v) as char
    } else if v < 52 {
        (97 + (v - 26)) as char
    } else if v < 62 {
        (48 + (v - 52)) as char
    } else if v == 62 {
        '+'
    } else {
        '/'
    }
}

fn b64_val_exec(c: char) -> (r: Option<u8>)
    ensures
        r == b64_val(c),
{
    let u: u32 = c as u32;
    if 65 <= u && u <= 90 {
        Some((u - 65) as u8)
    } else if 97 <= u && u <= 122 {
        Some(((u - 97) + 26) as u8)
    } else if 48 <= u && u <= 57 {
        Some(((u - 48) + 52) as u8)
    } else if c == '+' {
        Some(62)
    } else if c == '/' {
        Some(63)
    } else {
        None
    }
}

/// Appending to a byte sequence whose length is a multiple of three
/// appends to its encoding.
proof fn lemma_enc64_append(a: Seq<u8>, b: Seq<u8>)
    requires
        a.len() % 3 == 0,
    ensures
        enc64(a + b) == enc64(a) + enc64(b),
        enc64_core(a + b) == enc64_core(a) + enc64_core(b),
    decreases a.len(),
{
    if a.len() == 0 {
        assert(a + b =~= b);
        assert(enc64(a) + enc64(b) =~= enc64(b));
        assert(enc64_core(a) + enc64_core(b) =~= enc64_core(b));
    } else {
        let ab = a + b;
        assert(ab.len() >= 3);
        assert(ab[0] == a[0] && ab[1] == a[1] && ab[2] == a[2]);
        assert(ab.skip(3) =~= a.skip(3) + b);
        lemma_enc64_append(a.skip(3), b);
        if a.len() == 3 {
            assert(a.skip(3) =~= Seq::<u8>::empty());
            assert(enc64(a) =~= enc_group(a[0], a[1], a[2]));
            assert(enc64_core(a) =~= enc_group(a[0], a[1], a[2]));
        }
        assert(enc64(ab) =~= enc64(a) + enc64(b));
        assert(enc64_core(ab) =~= enc64_core(a) + enc64_core(b));
    }
}

/// Encode a byte slice as base64 text.
pub fn base64_encode(input: &[u8]) -> (r: String)
    ensures
        r@ == enc64(input@),
{
    let n = input.len();
    let mut out: Vec<char> = Vec::new();
    let mut i: usize = 0;
    proof {
        assert(input@.take(0) =~= Seq::<u8>::empty());
    }
    while 3 <= n - i
        invariant
            i <= n,
            n == input@.len(),
            i % 3 == 0,
            out@ == enc64(input@.take(i as int)),
        decreases n - i,
    {
        let b0 = input[i];
        let b1 = input[i + 1];
        let b2 = input[i + 2];
        proof {
            assert(b0 >> 2 < 64 && ((b0 << 4) | (b1 >> 4)) & 0x3F < 64 && ((b1 << 2) | (b2 >> 6))
                & 0x3F < 64 && b2 & 0x3F < 64) by (bit_vector);
        }
        out.push(b64_char_exec(b0 >> 2));
        out.push(b64_char_exec(((b0 << 4) | (b1 >> 4)) & 0x3F));
        out.push(b64_char_exec(((b1 << 2) | (b2 >> 6)) & 0x3F));
        out.push(b64_char_exec(b2 & 0x3F));
        proof {
            reveal_with_fuel(enc64, 3);
            let a = input@.take(i as int);
            let g = input@.subrange(i as int, i + 3);
            lemma_enc64_append(a, g);
            assert(a + g =~= input@.take(i + 3));
            assert(g.skip(3) =~= Seq::<u8>::empty());
            assert(enc64(g) =~= enc_group(b0, b1, b2));
            assert(out@ =~= enc64(input@.take(i + 3)));
        }
        i += 3;
    }
    if n - i == 1 {
        let b0 = input[i];
        proof {
            assert(b0 >> 2 < 64 && (b0 << 4) & 0x3F < 64) by (bit_vector);
        }
        out.push(b64_char_exec(b0 >> 2));
        out.push(b64_char_exec((b0 << 4) & 0x3F));
        out.push('=');
        out.push('=');
        proof {
            let a = input@.take(i as int);
            let g = input@.subrange(i as int, n as int);
            lemma_enc64_append(a, g);
            assert(a + g =~= input@);
            assert(out@ =~= enc64(input@));
        }
    } else if n - i == 2 {
        let b0 = input[i];
        let b1 = input[i + 1];
        proof {
            assert(b0 >> 2 < 64 && ((b0 << 4) | (b1 >> 4)) & 0x3F < 64 && (b1 << 2) & 0x3F
                < 64) by (bit_vector);
        }
        out.push(b64_char_exec(b0 >> 2));
        out.push(b64_char_exec(((b0 << 4) | (b1 >> 4)) & 0x3F));
        out.push(b64_char_exec((b1 << 2) & 0x3F));
        out.push('=');
        proof {
            let a = input@.take(i as int);
            let g = input@.subrange(i as int, n as int);
            lemma_enc64_append(a, g);
            assert(a + g =~= input@);
            assert(out@ =~= enc64(input@));
        }
    } else {
        proof {
            assert(input@.take(i as int) =~= input@);
        }
    }
    crate::text::string_from_chars(&out)
}

/// Decode base64 text into bytes, rejecting characters outside the
/// alphabet.
pub fn base64_decode(input: &str) -> (r: Result<Vec<u8>, String>)
    ensures
        r matches Ok(v) ==> dec64(input@) == Some(v@),
        r is Err ==> dec64(input@) is None,
{
    let n = input.unicode_len();
    let mut end = n;
    proof {
        assert(input@.take(n as int) =~= input@);
    }
    while end > 0 && input.get_char(end - 1) == '='
        invariant
            end <= n,
            n == input@.len(),
            trim_pad(input@) == trim_pad(input@.take(end as int)),
        decreases end,
    {
        proof {
            let t = input@.take(end as int);
            assert(t.last() == input@[end - 1]);
            assert(t.drop_last() =~= input@.take(end - 1));
        }
        end -= 1;
    }
    let ghost t = trim_pad(input@);
    proof {
        let p = input@.take(end as int);
        if end > 0 {
            assert(p.last() == input@[end - 1]);
        }
        assert(trim_pad(p) == p);
        assert(t == input@.take(end as int));
    }
    let mut out: Vec<u8> = Vec::new();
    let mut buf: u32 = 0;
    let mut bits: u32 = 0;
    let mut i: usize = 0;
    proof {
        assert(t.skip(0) =~= t);
    }
    while i < end
        invariant
            i <= end <= n,
            n == input@.len(),
            t == input@.take(end as int),
            t == trim_pad(input@),
            bits < 8,
            match dec64_loop(t.skip(i as int), buf, bits) {
                Some(rest) => dec64(input@) == Some(out@ + rest),
                None => dec64(input@) is None,
            },
        decreases end - i,
    {
        let c = input.get_char(i);
        proof {
            assert(t.skip(i as int)[0] == t[i as int]);
            assert(t[i as int] == input@[i as int]);
            assert(t.skip(i as int).skip(1) =~= t.skip(i as int + 1));
        }
        let v = match b64_val_exec(c) {
            Some(v) => v,
            None => {
                return Err(String::from_str("invalid base64 character"));
            },
        };
        let ghost old_out = out@;
        buf = (buf << 6) | (v as u32);
        if bits + 6 >= 8 {
            bits = (bits + 6) - 8;
            let byte = #[verifier::truncate] (((buf >> bits) & 0xFF) as u8);
            out.push(byte);
            proof {
                assert(out@ =~= old_out.push(byte));
                assert(forall|rest: Seq<u8>|
                    old_out + (seq![byte] + rest) =~= #[trigger] (old_out.push(byte) + rest));
            }
        } else {
            bits = bits + 6;
        }
        i += 1;
    }
    proof {
        assert(t.skip(end as int) =~= Seq::<char>::empty());
        assert(out@ + Seq::<u8>::empty() =~= out@);
    }
    Ok(out)
}

/// The buffer contents after one full encoded group has been shifted in
/// on top of `buf`.
pub open spec fn group_word(buf: u32, b0: u8, b1: u8, b2: u8) -> u32 {
    let v0 = (b0 >> 2) as u32;
    let v1 = (((b0 << 4) | (b1 >> 4)) & 0x3F) as u32;
    let v2 = ((((b1 << 2) | (b2 >> 6)) & 0x3F)) as u32;
    let v3 = ((b2 & 0x3F)) as u32;
    ((((((buf << 6) | v0) << 6) | v1) << 6 | v2) << 6) | v3
}

/// Feeding one encoded group through the decoding stream at a group
/// boundary yields exactly the three original bytes.
proof fn lemma_dec_group(b0: u8, b1: u8, b2: u8, rest: Seq<char>, buf: u32, s: Seq<u8>)
    requires
        dec64_loop(rest, group_word(buf, b0, b1, b2), 0) == Some(s),
    ensures
        dec64_loop(enc_group(b0, b1, b2) + rest, buf, 0) == Some(seq![b0, b1, b2] + s),
{
    reveal_with_fuel(dec64_loop, 5);
    let c0 = b64_char(b0 >> 2);
    let c1 = b64_char(((b0 << 4) | (b1 >> 4)) & 0x3F);
    let c2 = b64_char(((b1 << 2) | (b2 >> 6)) & 0x3F);
    let c3 = b64_char(b2 & 0x3F);
    let g = enc_group(b0, b1, b2) + rest;
    assert(b0 >> 2 < 64 && ((b0 << 4) | (b1 >> 4)) & 0x3F < 64 && ((b1 << 2) | (b2 >> 6)) & 0x3F
        < 64 && b2 & 0x3F < 64) by (bit_vector);
    lemma_b64_char_val(b0 >> 2);
    lemma_b64_char_val(((b0 << 4) | (b1 >> 4)) & 0x3F);
    lemma_b64_char_val(((b1 << 2) | (b2 >> 6)) & 0x3F);
    lemma_b64_char_val(b2 & 0x3F);
    assert(g[0] == c0 && g[1] == c1 && g[2] == c2 && g[3] == c3);
    assert(g.skip(1).skip(1).skip(1).skip(1) =~= rest);
    assert(g.skip(1)[0] == c1 && g.skip(1).skip(1)[0] == c2 && g.skip(1).skip(1).skip(1)[0] == c3);
    let v0 = (b0 >> 2) as u32;
    let v1 = (((b0 << 4) | (b1 >> 4)) & 0x3F) as u32;
    let v2 = ((((b1 << 2) | (b2 >> 6)) & 0x3F)) as u32;
    let v3 = ((b2 & 0x3F)) as u32;
    let w1 = (buf << 6) | v0;
    let w2 = (w1 << 6) | v1;
    let w3 = (w2 << 6) | v2;
    let w4 = (w3 << 6) | v3;
    assert(w4 == group_word(buf, b0, b1, b2));
    assert(((w2 >> 4) & 0xFF) as u8 == b0 && ((w3 >> 2) & 0xFF) as u8 == b1 && ((w4 >> 0) & 0xFF)
        as u8 == b2) by (bit_vector)
        requires
            v0 == (b0 >> 2) as u32 && v1 == (((b0 << 4) | (b1 >> 4)) & 0x3F) as u32 && v2 == ((((b1
                << 2) | (b2 >> 6)) & 0x3F)) as u32 && v3 == ((b2 & 0x3F)) as u32 && w1 == (buf << 6)
                | v0 && w2 == (w1 << 6) | v1 && w3 == (w2 << 6) | v2 && w4 == (w3 << 6) | v3,
    ;
    assert(seq![b0] + (seq![b1] + (seq![b2] + s)) =~= seq![b0, b1, b2] + s);
}

/// Decoding the unpadded encoding from a fresh bit boundary yields the
/// original bytes, whatever is already in the buffer.
proof fn lemma_dec64_core(s: Seq<u8>, buf: u32)
    ensures
        dec64_loop(enc64_core(s), buf, 0) == Some(s),
    decreases s.len(),
{
    reveal_with_fuel(dec64_loop, 4);
    reveal_with_fuel(enc64_core, 2);
    if s.len() == 0 {
        assert(enc64_core(s) =~= Seq::<char>::empty());
        assert(s =~= Seq::<u8>::empty());
    } else if s.len() == 1 {
        let b0 = s[0];
        let e = enc64_core(s);
        assert(b0 >> 2 < 64 && (b0 << 4) & 0x3F < 64) by (bit_vector);
        lemma_b64_char_val(b0 >> 2);
        lemma_b64_char_val((b0 << 4) & 0x3F);
        assert(e[0] == b64_char(b0 >> 2) && e[1] == b64_char((b0 << 4) & 0x3F));
        assert(e.skip(1)[0] == e[1]);
        assert(e.skip(1).skip(1) =~= Seq::<char>::empty());
        let v0 = (b0 >> 2) as u32;
        let v1 = ((b0 << 4) & 0x3F) as u32;
        let w1 = (buf << 6) | v0;
        let w2 = (w1 << 6) | v1;
        assert(((w2 >> 4) & 0xFF) as u8 == b0) by (bit_vector)
            requires
                v0 == (b0 >> 2) as u32 && v1 == ((b0 << 4) & 0x3F) as u32 && w1 == (buf << 6) | v0
                    && w2 == (w1 << 6) | v1,
        ;
        assert(seq![b0] + Seq::<u8>::empty() =~= s);
    } else if s.len() == 2 {
        let b0 = s[0];
        let b1 = s[1];
        let e = enc64_core(s);
        assert(b0 >> 2 < 64 && ((b0 << 4) | (b1 >> 4)) & 0x3F < 64 && (b1 << 2) & 0x3F
            < 64) by (bit_vector);
        lemma_b64_char_val(b0 >> 2);
        lemma_b64_char_val(((b0 << 4) | (b1 >> 4)) & 0x3F);
        lemma_b64_char_val((b1 << 2) & 0x3F);
        assert(e[0] == b64_char(b0 >> 2) && e[1] == b64_char(((b0 << 4) | (b1 >> 4)) & 0x3F) && e[2]
            == b64_char((b1 << 2) & 0x3F));
        assert(e.skip(1)[0] == e[1] && e.skip(1).skip(1)[0] == e[2]);
        assert(e.skip(1).skip(1).skip(1) =~= Seq::<char>::empty());
        let v0 = (b0 >> 2) as u32;
        let v1 = (((b0 << 4) | (b1 >> 4)) & 0x3F) as u32;
        let v2 = ((b1 << 2) & 0x3F) as u32;
        let w1 = (buf << 6) | v0;
        let w2 = (w1 << 6) | v1;
        let w3 = (w2 << 6) | v2;
        assert(((w2 >> 4) & 0xFF) as u8 == b0 && ((w3 >> 2) & 0xFF) as u8 == b1) by (bit_vector)
            requires
                v0 == (b0 >> 2) as u32 && v1 == (((b0 << 4) | (b1 >> 4)) & 0x3F) as u32 && v2 == ((
                b1 << 2) & 0x3F) as u32 && w1 == (buf << 6) | v0 && w2 == (w1 << 6) | v1 && w3 == (
                w2 << 6) | v2,
        ;
        assert(seq![b0] + (seq![b1] + Seq::<u8>::empty()) =~= s);
    } else {
        let b0 = s[0];
        let b1 = s[1];
        let b2 = s[2];
        let tail = s.skip(3);
        lemma_dec64_core(tail, group_word(buf, b0, b1, b2));
        lemma_dec_group(b0, b1, b2, enc64_core(tail), buf, tail);
        assert(enc64_core(s) =~= enc_group(b0, b1, b2) + enc64_core(tail));
        assert(seq![b0, b1, b2] + tail =~= s);
    }
}

/// Trimming the padding from an encoding leaves the unpadded core.
proof fn lemma_trim_enc64(s: Seq<u8>)
    ensures
        trim_pad(enc64(s)) == enc64_core(s),
    decreases s.len(),
{
    reveal_with_fuel(enc64, 2);
    reveal_with_fuel(enc64_core, 2);
    reveal_with_fuel(trim_pad, 4);
    if s.len() == 0 {
    } else if s.len() == 1 {
        let b0 = s[0];
        let e = enc64(s);
        assert(b0 >> 2 < 64 && (b0 << 4) & 0x3F < 64) by (bit_vector);
        lemma_b64_char_not_pad(b0 >> 2);
        lemma_b64_char_not_pad((b0 << 4) & 0x3F);
        assert(e.last() == '=');
        assert(e.drop_last() =~= seq![b64_char(b0 >> 2), b64_char((b0 << 4) & 0x3F), '=']);
        assert(e.drop_last().last() == '=');
        assert(e.drop_last().drop_last() =~= enc64_core(s));
        assert(enc64_core(s).len() == 2 && enc64_core(s).last() == b64_char((b0 << 4) & 0x3F));
    } else if s.len() == 2 {
        let b0 = s[0];
        let b1 = s[1];
        let e = enc64(s);
        assert(b0 >> 2 < 64 && ((b0 << 4) | (b1 >> 4)) & 0x3F < 64 && (b1 << 2) & 0x3F
            < 64) by (bit_vector);
        lemma_b64_char_not_pad((b1 << 2) & 0x3F);
        assert(e.last() == '=');
        assert(e.drop_last() =~= enc64_core(s));
        assert(enc64_core(s).last() == b64_char((b1 << 2) & 0x3F));
    } else {
        let b2 = s[2];
        let g = enc_group(s[0], s[1], b2);
        let tail = s.skip(3);
        lemma_trim_enc64(tail);
        assert(b2 & 0x3F < 64) by (bit_vector);
        lemma_b64_char_not_pad(b2 & 0x3F);
        if tail.len() == 0 {
            assert(enc64(tail) =~= Seq::<char>::empty());
            assert(enc64(s) =~= g);
            assert(enc64_core(s) =~= g);
            assert(g.last() == b64_char(b2 & 0x3F));
        } else {
            assert(enc64_core(tail).len() > 0);
            lemma_trim_append(g, enc64(tail), enc64_core(tail));
            assert(enc64(s) =~= g + enc64(tail));
            assert(enc64_core(s) =~= g + enc64_core(tail));
        }
    }
}

/// Trimming never crosses into a prefix when the suffix trims to
/// something nonempty.
proof fn lemma_trim_append(a: Seq<char>, b: Seq<char>, bt: Seq<char>)
    requires
        trim_pad(b) == bt,
        bt.len() > 0,
    ensures
        trim_pad(a + b) == a + bt,
    decreases b.len(),
{
    if b.len() == 0 {
    } else if b.last() == '=' {
        assert((a + b).last() == b.last());
        assert((a + b).drop_last() =~= a + b.drop_last());
        lemma_trim_append(a, b.drop_last(), bt);
    } else {
        assert((a + b).last() == b.last());
        assert(trim_pad(b) == b);
        assert(trim_pad(a + b) == a + b);
    }
}

/// Decoding an encoding recovers the original bytes: the encode/decode
/// round trip holds for every byte sequence.
pub proof fn lemma_base64_round_trip(s: Seq<u8>)
    ensures
        dec64(enc64(s)) == Some(s),
{
    lemma_trim_enc64(s);
    lemma_dec64_core(s, 0);
}

} // verus!
