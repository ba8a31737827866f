//! Small verified text utilities shared by the codec and the message
//! helpers: character-level string equality, decimal formatting and
//! parsing, splitting and trimming.

use vstd::prelude::*;

verus! {

/// Compare two string slices character by character.
pub fn str_eq(a: &str, b: &str) -> (r: bool)
    ensures
        r == (a@ == b@),
{
    let na = a.unicode_len();
    let nb = b.unicode_len();
    if na != nb {
        return false;
    }
    let mut i: usize = 0;
    while i < na
        invariant
            na == a@.len(),
            na == b@.len(),
            i <= na,
            forall|j: int| 0 <= j < i ==> a@[j] == b@[j],
        decreases na - i,
    {
        if a.get_char(i) != b.get_char(i) {
            return false;
        }
        i += 1;
    }
    proof {
        assert(a@ =~= b@);
    }
    true
}

/// The characters of a string slice, as an indexable vector.
///
/// Relies on `str::chars` and `Iterator::collect`: the characters of the
/// slice, in order.
#[verifier::external_body]
pub fn chars_of_str(s: &str) -> (v: Vec<char>)
    ensures
        v@ == s@,
{
    s.chars().collect()
}

/// A string made of exactly the given characters, in order.
///
/// Relies on `Iterator::collect` for `String`, which concatenates the
/// characters.
#[verifier::external_body]
pub fn string_from_chars(v: &Vec<char>) -> (s: String)
    ensures
        s@ == v@,
{
    v.iter().collect()
}

/// Whether `c` is a decimal digit.
pub open spec fn is_digit(c: char) -> bool {
    48 <= c as u32 <= 57
}

/// The numeric value of a decimal digit character.
pub open spec fn digit_val(c: char) -> int {
    c as u32 - 48
}

/// The digit character for a value in `0..10`.
pub open spec fn digit_char(d: int) -> char {
    ((48 + d) as u8) as char
}

/// The decimal representation of a nonnegative integer, most significant
/// digit first, with no leading zeros (a single `'0'` for zero).
pub open spec fn spec_dec_str(n: int) -> Seq<char>
    decreases n,
{
    if n < 10 {
        seq![digit_char(if n < 0 { 0 } else { n })]
    } else {
        spec_dec_str(n / 10).push(digit_char(n % 10))
    }
}

/// Format an unsigned integer in decimal.
pub fn u64_to_string(n: u64) -> (s: String)
    ensures
        s@ == spec_dec_str(n as int),
{
    let out = dec_chars_u64(n);
    string_from_chars(&out)
}

/// The decimal digit characters of an unsigned integer.
pub fn dec_chars_u64(n: u64) -> (out: Vec<char>)
    ensures
        out@ == spec_dec_str(n as int),
{
    let mut out: Vec<char> = Vec::new();
    let mut m: u64 = n;
    while m >= 10
        invariant
            spec_dec_str(n as int) =~= spec_dec_str(m as int) + out@,
        decreases m,
    {
        let d: u8 = (m % 10) as u8;
        let c: char = (48 + d) as char;
        let ghost m_old: u64 = m;
        out.insert(0, c);
        m = m / 10;
        proof {
            assert(spec_dec_str(m_old as int) == spec_dec_str(m_old as int / 10).push(
                digit_char(m_old as int % 10),
            ));
            assert(c == digit_char(m_old as int % 10));
            assert(spec_dec_str(n as int) =~= spec_dec_str(m as int) + out@);
        }
    }
    let d: u8 = (m % 10) as u8;
    let c: char = (48 + d) as char;
    out.insert(0, c);
    proof {
        assert(spec_dec_str(m as int) == seq![digit_char(m as int)]);
        assert(c == digit_char(m as int));
        assert(out@ =~= spec_dec_str(n as int));
    }
    out
}

/// The characters a byte buffer holds, when it is valid text.
pub open spec fn bytes_chars(b: Seq<u8>) -> Option<Seq<char>> {
    if vstd::utf8::valid_utf8(b) {
        Some(vstd::utf8::decode_utf8(b))
    } else {
        None
    }
}

/// Borrow a byte slice as text.
///
/// Relies on `core::str::from_utf8`: it accepts exactly the valid UTF-8
/// byte sequences and views the same bytes.
#[verifier::external_body]
pub fn str_from_utf8(b: &[u8]) -> (r: Option<&str>)
    ensures
        r matches Some(s) ==> vstd::utf8::valid_utf8(b@) && s@ == vstd::utf8::decode_utf8(b@),
        r is None ==> !vstd::utf8::valid_utf8(b@),
{
    core::str::from_utf8(b).ok()
}

/// Turn bytes into text, replacing invalid sequences.
///
/// Relies on `String::from_utf8_lossy`: on valid UTF-8 input the result
/// holds exactly the input's characters.
#[verifier::external_body]
pub fn bytes_to_string_lossy(b: &[u8]) -> (s: String)
    ensures
        vstd::utf8::valid_utf8(b@) ==> s@ == vstd::utf8::decode_utf8(b@),
{
    String::from_utf8_lossy(b).into_owned()
}

/// Whether every character of `s` is a decimal digit.
pub open spec fn all_digits(s: Seq<char>) -> bool {
    forall|i: int| 0 <= i < s.len() ==> is_digit(#[trigger] s[i])
}

/// The value of a sequence of decimal digit characters, most significant
/// first.
pub open spec fn digits_val(s: Seq<char>) -> int
    decreases s.len(),
{
    if s.len() == 0 {
        0
    } else {
        digits_val(s.drop_last()) * 10 + digit_val(s.last())
    }
}

/// The value of a digit string never decreases as more digits are taken.
pub proof fn lemma_digits_val_prefix_le(s: Seq<char>, i: int)
    requires
        all_digits(s),
        0 <= i <= s.len(),
    ensures
        0 <= digits_val(s.take(i)) <= digits_val(s),
    decreases s.len() - i,
{
    lemma_digits_val_nonneg(s.take(i));
    if i == s.len() {
        assert(s.take(i) =~= s);
    } else {
        assert(s.take(i + 1).drop_last() =~= s.take(i));
        lemma_digits_val_nonneg(s.take(i));
        assert(digits_val(s.take(i + 1)) == digits_val(s.take(i)) * 10 + digit_val(s.take(
            i + 1,
        ).last()));
        assert(is_digit(s[i]));
        assert(digit_val(s[i]) >= 0);
        lemma_digits_val_prefix_le(s, i + 1);
    }
}

/// Digit strings have nonnegative values.
pub proof fn lemma_digits_val_nonneg(s: Seq<char>)
    requires
        all_digits(s),
    ensures
        digits_val(s) >= 0,
    decreases s.len(),
{
    if s.len() > 0 {
        assert(all_digits(s.drop_last()));
        lemma_digits_val_nonneg(s.drop_last());
        assert(is_digit(s.last()));
    }
}

/// How `parse_usize` reads a string: an optional leading `'+'`, then one
/// or more decimal digits whose value fits in `usize`.
pub open spec fn spec_parse_usize(s: Seq<char>) -> Option<usize> {
    let t = if s.len() > 0 && s[0] == '+' {
        s.skip(1)
    } else {
        s
    };
    if t.len() == 0 || !all_digits(t) {
        None
    } else if digits_val(t) > usize::MAX {
        None
    } else {
        Some(digits_val(t) as usize)
    }
}

/// Parse an unsigned decimal integer, rejecting empty input, non-digit
/// characters, and values that do not fit.
pub fn parse_usize(s: &str) -> (r: Option<usize>)
    ensures
        r == spec_parse_usize(s@),
{
    let n = s.unicode_len();
    let mut i: usize = 0;
    if n > 0 && s.get_char(0) == '+' {
        i = 1;
    }
    let ghost t: Seq<char> = if s@.len() > 0 && s@[0] == '+' {
        s@.skip(1)
    } else {
        s@
    };
    proof {
        assert(t =~= s@.skip(i as int));
        assert(!all_digits(t) ==> spec_parse_usize(s@) is None);
    }
    if i == n {
        return None;
    }
    let start = i;
    let mut acc: usize = 0;
    while i < n
        invariant
            start <= i <= n,
            start <= 1,
            n == s@.len(),
            t =~= s@.skip(start as int),
            t.len() == n - start,
            all_digits(t.take(i - start)),
            acc == digits_val(t.take(i - start)),
            !all_digits(t) ==> spec_parse_usize(s@) is None,
            all_digits(t) && digits_val(t) > usize::MAX ==> spec_parse_usize(s@) is None,
            all_digits(t) && t.len() > 0 && digits_val(t) <= usize::MAX ==> spec_parse_usize(s@)
                == Some(digits_val(t) as usize),
        decreases n - i,
    {
        let c = s.get_char(i);
        let cu: u32 = c as u32;
        if cu < 48 || cu > 57 {
            proof {
                assert(t[i - start] == c);
                assert(!all_digits(t)) by {
                    assert(!is_digit(t[i - start]));
                }
            }
            return None;
        }
        let d: usize = (cu - 48) as usize;
        proof {
            assert(t.take(i - start + 1).drop_last() =~= t.take(i - start));
            assert(t.take(i - start + 1).last() == t[i - start]);
            assert(t[i - start] == c);
            assert(all_digits(t.take(i - start + 1))) by {
                assert forall|j: int| 0 <= j < i - start + 1 implies is_digit(
                    #[trigger] t.take(i - start + 1)[j],
                ) by {
                    if j < i - start {
                        assert(t.take(i - start + 1)[j] == t.take((i - start) as int)[j]);
                    } else {
                        assert(t.take(i - start + 1)[j] == c);
                    }
                }
            }
            assert(digits_val(t.take(i - start + 1)) == digits_val(t.take((i - start) as int)) * 10
                + digit_val(c));
        }
        let acc10 = match acc.checked_mul(10) {
            Some(v) => v,
            None => {
                proof {
                    assert(digits_val(t.take(i - start + 1)) > usize::MAX);
                    lemma_overflow_means_too_big(t, i - start + 1);
                }
                return None;
            },
        };
        acc = match acc10.checked_add(d) {
            Some(v) => v,
            None => {
                proof {
                    assert(digits_val(t.take(i - start + 1)) > usize::MAX);
                    lemma_overflow_means_too_big(t, i - start + 1);
                }
                return None;
            },
        };
        i += 1;
    }
    proof {
        assert(t.take(i - start) =~= t);
    }
    Some(acc)
}

/// If some prefix of a digit string is already too big for `usize`, the
/// whole string is too big, or a later character is not a digit.
proof fn lemma_overflow_means_too_big(t: Seq<char>, i: int)
    requires
        0 < i <= t.len(),
        all_digits(t.take(i)),
        digits_val(t.take(i)) > usize::MAX,
    ensures
        !all_digits(t) || digits_val(t) > usize::MAX,
{
    if all_digits(t) {
        lemma_digits_val_prefix_le(t, i);
    }
}

/// Splitting a character sequence at a separator, scanning left to right
/// with the segment built so far and the finished segments.
pub open spec fn split_acc(s: Seq<char>, sep: char, cur: Seq<char>, acc: Seq<Seq<char>>) -> Seq<
    Seq<char>,
>
    decreases s.len(),
{
    if s.len() == 0 {
        acc.push(cur)
    } else if s[0] == sep {
        split_acc(s.skip(1), sep, Seq::empty(), acc.push(cur))
    } else {
        split_acc(s.skip(1), sep, cur.push(s[0]), acc)
    }
}

/// The segments of `s` between occurrences of `sep`; always at least one
/// segment, and empty segments are kept.
pub open spec fn spec_split(s: Seq<char>, sep: char) -> Seq<Seq<char>> {
    split_acc(s, sep, Seq::empty(), Seq::empty())
}

/// Split a string at every occurrence of a separator character.
pub fn split_string(s: &str, sep: char) -> (r: Vec<String>)
    ensures
        r.deep_view() == spec_split(s@, sep),
{
    let n = s.unicode_len();
    let mut segs: Vec<String> = Vec::new();
    let mut cur: Vec<char> = Vec::new();
    let mut i: usize = 0;
    proof {
        assert(s@.skip(0) =~= s@);
        assert(segs.deep_view() =~= Seq::<Seq<char>>::empty());
    }
    while i < n
        invariant
            i <= n,
            n == s@.len(),
            spec_split(s@, sep) == split_acc(s@.skip(i as int), sep, cur@, segs.deep_view()),
        decreases n - i,
    {
        let c = s.get_char(i);
        let ghost old_segs = segs.deep_view();
        let ghost old_cur = cur@;
        proof {
            assert(s@.skip(i as int)[0] == s@[i as int]);
            assert(s@.skip(i as int).skip(1) =~= s@.skip(i as int + 1));
        }
        if c == sep {
            let seg = string_from_chars(&cur);
            segs.push(seg);
            cur = Vec::new();
            proof {
                assert(segs.deep_view() =~= old_segs.push(old_cur));
                assert(cur@ =~= Seq::<char>::empty());
            }
        } else {
            cur.push(c);
            proof {
                assert(segs.deep_view() =~= old_segs);
                assert(cur@ =~= old_cur.push(c));
            }
        }
        i += 1;
    }
    proof {
        assert(s@.skip(n as int) =~= Seq::<char>::empty());
    }
    let seg = string_from_chars(&cur);
    let ghost old_segs = segs.deep_view();
    segs.push(seg);
    proof {
        assert(segs.deep_view() =~= old_segs.push(cur@));
        assert(segs.deep_view() == spec_split(s@, sep));
    }
    segs
}

/// Whether the characters of `p` are a prefix of `s`.
pub open spec fn spec_starts_with(s: Seq<char>, p: Seq<char>) -> bool {
    s.len() >= p.len() && s.take(p.len() as int) == p
}

/// Test whether `s` starts with `p`.
pub fn str_starts_with(s: &str, p: &str) -> (r: bool)
    ensures
        r == spec_starts_with(s@, p@),
{
    let n = s.unicode_len();
    let m = p.unicode_len();
    if m > n {
        proof {
            assert(!spec_starts_with(s@, p@));
        }
        return false;
    }
    let mut i: usize = 0;
    while i < m
        invariant
            i <= m <= n,
            n == s@.len(),
            m == p@.len(),
            forall|j: int| 0 <= j < i ==> s@[j] == p@[j],
        decreases m - i,
    {
        if s.get_char(i) != p.get_char(i) {
            proof {
                assert(s@.take(m as int)[i as int] != p@[i as int]);
            }
            return false;
        }
        i += 1;
    }
    proof {
        assert(s@.take(m as int) =~= p@);
    }
    true
}

/// Concatenate two string slices into an owned string.
pub fn str_concat(a: &str, b: &str) -> (r: String)
    ensures
        r@ == a@ + b@,
{
    let mut s = String::from_str(a);
    s.append(b);
    s
}

/// Whether `c` is one of the blank characters `trim_chars` removes.
pub open spec fn is_blank(c: char) -> bool {
    c == ' ' || c == '\t' || c == '\r' || c == '\n'
}

/// `s` with leading blanks removed.
pub open spec fn trim_front(s: Seq<char>) -> Seq<char>
    decreases s.len(),
{
    if s.len() > 0 && is_blank(s[0]) {
        trim_front(s.skip(1))
    } else {
        s
    }
}

/// `s` with trailing blanks removed.
pub open spec fn trim_back(s: Seq<char>) -> Seq<char>
    decreases s.len(),
{
    if s.len() > 0 && is_blank(s.last()) {
        trim_back(s.drop_last())
    } else {
        s
    }
}

/// `s` with blanks removed from both ends.
pub open spec fn spec_trim(s: Seq<char>) -> Seq<char> {
    trim_back(trim_front(s))
}

fn is_blank_exec(c: char) -> (r: bool)
    ensures
        r == is_blank(c),
{
    c == ' ' || c == '\t' || c == '\r' || c == '\n'
}

/// Remove blank characters from both ends of a character vector.
pub fn trim_chars(v: &Vec<char>) -> (r: Vec<char>)
    ensures
        r@ == spec_trim(v@),
{
    let n = v.len();
    let mut lo: usize = 0;
    proof {
        assert(v@.skip(0) =~= v@);
    }
    while lo < n && is_blank_exec(v[lo])
        invariant
            lo <= n,
            n == v@.len(),
            trim_front(v@) == trim_front(v@.skip(lo as int)),
        decreases n - lo,
    {
        proof {
            assert(v@.skip(lo as int)[0] == v@[lo as int]);
            assert(v@.skip(lo as int).skip(1) =~= v@.skip(lo as int + 1));
        }
        lo += 1;
    }
    proof {
        if lo < n {
            assert(v@.skip(lo as int)[0] == v@[lo as int]);
        }
        assert(trim_front(v@) =~= v@.skip(lo as int));
    }
    let mut hi: usize = n;
    while hi > lo && is_blank_exec(v[hi - 1])
        invariant
            lo <= hi <= n,
            n == v@.len(),
            trim_front(v@) =~= v@.skip(lo as int),
            trim_back(trim_front(v@)) == trim_back(v@.subrange(lo as int, hi as int)),
        decreases hi,
    {
        proof {
            let seg = v@.subrange(lo as int, hi as int);
            assert(seg.last() == v@[hi as int - 1]);
            assert(seg.drop_last() =~= v@.subrange(lo as int, hi as int - 1));
        }
        hi -= 1;
    }
    proof {
        let seg = v@.subrange(lo as int, hi as int);
        if hi > lo {
            assert(seg.last() == v@[hi as int - 1]);
        }
        assert(trim_back(seg) =~= seg);
    }
    let mut out: Vec<char> = Vec::new();
    let mut i = lo;
    while i < hi
        invariant
            lo <= i <= hi <= n,
            n == v@.len(),
            out@ =~= v@.subrange(lo as int, i as int),
        decreases hi - i,
    {
        out.push(v[i]);
        i += 1;
    }
    proof {
        assert(out@ =~= spec_trim(v@));
    }
    out
}

} // verus!
