//! Characters, UTF-8 byte offsets and slices of `str`.
//!
//! Positions in the input are byte offsets, as in the parser that drives the
//! lexer; the recognition rules are stated over the characters of the input.
//! This module connects the two views.
use vstd::prelude::*;
use vstd::utf8::*;
use vstd::string::StringSliceAdditionalSpecFns;

verus! {

broadcast use vstd::string::group_string_axioms;

/// Number of bytes of the UTF-8 encoding of `c`.
pub open spec fn utf8_width(c: char) -> nat {
    encode_scalar(c as u32).len()
}

/// Number of bytes of the UTF-8 encoding of the characters `s`.
pub open spec fn utf8_len(s: Seq<char>) -> nat {
    encode_utf8(s).len()
}

/// The encoding of a concatenation is the concatenation of the encodings.
pub proof fn lemma_encode_concat(a: Seq<char>, b: Seq<char>)
    ensures
        encode_utf8(a + b) == encode_utf8(a) + encode_utf8(b),
    decreases a.len(),
{
    if a.len() == 0 {
        assert(a + b =~= b);
        assert(encode_utf8(a) =~= Seq::<u8>::empty());
        assert(encode_utf8(a) + encode_utf8(b) =~= encode_utf8(b));
    } else {
        assert((a + b).drop_first() =~= a.drop_first() + b);
        assert((a + b)[0] == a[0]);
        lemma_encode_concat(a.drop_first(), b);
        assert(encode_utf8(a + b) =~= encode_utf8(a) + encode_utf8(b));
    }
}

/// Appending a character adds its width to the encoded length.
pub proof fn lemma_utf8_len_push(a: Seq<char>, c: char)
    ensures
        utf8_len(a.push(c)) == utf8_len(a) + utf8_width(c),
{
    lemma_encode_concat(a, seq![c]);
    assert(a.push(c) =~= a + seq![c]);
    assert(seq![c].drop_first() =~= Seq::<char>::empty());
    assert(encode_utf8(seq![c]) =~= encode_scalar(c as u32) + encode_utf8(Seq::<char>::empty()));
}

/// Encoded length is additive.
pub proof fn lemma_utf8_len_concat(a: Seq<char>, b: Seq<char>)
    ensures
        utf8_len(a + b) == utf8_len(a) + utf8_len(b),
{
    lemma_encode_concat(a, b);
}

/// Every character takes at least one byte.
pub proof fn lemma_chars_le_bytes(s: Seq<char>)
    ensures
        s.len() <= utf8_len(s),
    decreases s.len(),
{
    if s.len() > 0 {
        lemma_utf8_len_push(s.drop_last(), s.last());
        assert(s.drop_last().push(s.last()) =~= s);
        lemma_chars_le_bytes(s.drop_last());
    }
}

/// A prefix is never longer, in bytes, than the whole.
pub proof fn lemma_utf8_len_take(s: Seq<char>, n: int)
    requires
        0 <= n <= s.len(),
    ensures
        utf8_len(s.take(n)) <= utf8_len(s),
        utf8_len(s.take(n)) + utf8_len(s.skip(n)) == utf8_len(s),
{
    assert(s.take(n) + s.skip(n) =~= s);
    lemma_utf8_len_concat(s.take(n), s.skip(n));
}

/// The end of the encoding of a prefix is a character boundary.
pub proof fn lemma_boundary_after_prefix(a: Seq<char>, b: Seq<char>)
    ensures
        is_char_boundary(encode_utf8(a + b), utf8_len(a) as int),
    decreases a.len(),
{
    let bytes = encode_utf8(a + b);
    encode_utf8_valid_utf8(a + b);
    if a.len() == 0 {
    } else {
        let ab = a + b;
        assert(ab.drop_first() =~= a.drop_first() + b);
        encode_utf8_first_scalar(ab);
        lemma_encode_concat(a, b);
        lemma_boundary_after_prefix(a.drop_first(), b);
        let w = encode_scalar(a[0] as u32).len() as int;
        assert(pop_first_scalar(bytes) =~= encode_utf8(ab.drop_first()));
        assert(utf8_len(a) == w + utf8_len(a.drop_first()));
        assert(w >= 1);
    }
}

/// Splitting a string at a character boundary splits its characters.
pub proof fn lemma_split_chars(s: &str, mid: int, a: &str, b: &str)
    requires
        is_char_boundary(s.spec_bytes(), mid),
        a.spec_bytes() =~= s.spec_bytes().subrange(0, mid),
        b.spec_bytes() =~= s.spec_bytes().subrange(mid, s.spec_bytes().len() as int),
    ensures
        s@ == a@ + b@,
        utf8_len(a@) == mid,
        0 <= mid <= utf8_len(s@),
{
    let bytes = s.spec_bytes();
    encode_utf8_valid_utf8(s@);
    encode_utf8_decode_utf8(s@);
    encode_utf8_decode_utf8(a@);
    encode_utf8_decode_utf8(b@);
    decode_utf8_split(bytes, mid);
    lemma_boundary_in_range(bytes, mid);
}

/// A character boundary lies within the byte string.
pub proof fn lemma_boundary_in_range(bytes: Seq<u8>, index: int)
    requires
        valid_utf8(bytes),
        is_char_boundary(bytes, index),
    ensures
        0 <= index <= bytes.len(),
{
}

/// A character boundary of a byte string stays a boundary of any prefix
/// that ends at a later boundary.
pub proof fn lemma_boundary_in_prefix(bytes: Seq<u8>, a: int, b: int)
    requires
        valid_utf8(bytes),
        is_char_boundary(bytes, a),
        is_char_boundary(bytes, b),
        a <= b,
    ensures
        is_char_boundary(bytes.subrange(0, b), a),
{
    lemma_boundary_in_range(bytes, a);
    lemma_boundary_in_range(bytes, b);
    valid_utf8_split(bytes, b);
    let pre = bytes.subrange(0, b);
    if a == b {
        is_char_boundary_start_end_of_seq(pre);
    } else {
        is_char_boundary_iff_not_is_continuation_byte(bytes, a);
        is_char_boundary_iff_not_is_continuation_byte(pre, a);
    }
}

/// The characters of the bytes `a..b` of `s`.
pub open spec fn span_chars(s: Seq<char>, a: int, b: int) -> Seq<char> {
    decode_utf8(encode_utf8(s).subrange(a, b))
}

/// A span of `s` given by two character boundaries `a <= b`.
pub open spec fn valid_span(s: Seq<char>, a: int, b: int) -> bool {
    &&& a <= b
    &&& is_char_boundary(encode_utf8(s), a)
    &&& is_char_boundary(encode_utf8(s), b)
}

/// Returns the bytes `a..b` of `s`; both offsets are character boundaries.
pub fn str_slice(s: &str, a: usize, b: usize) -> (r: &str)
    requires
        valid_span(s@, a as int, b as int),
    ensures
        r.spec_bytes() =~= s.spec_bytes().subrange(a as int, b as int),
        r@ == span_chars(s@, a as int, b as int),
{
    let (x, _) = split_str(s, b);
    proof {
        encode_utf8_valid_utf8(s@);
        lemma_boundary_in_prefix(s.spec_bytes(), a as int, b as int);
        lemma_boundary_in_range(s.spec_bytes(), b as int);
    }
    let (_, y) = split_str(x, a);
    proof {
        lemma_boundary_in_range(s.spec_bytes(), a as int);
        assert(y.spec_bytes() =~= s.spec_bytes().subrange(a as int, b as int));
        encode_utf8_decode_utf8(y@);
    }
    y
}

/// Splits `s` at the byte offset `mid`, which must be a character boundary.
pub fn split_str(s: &str, mid: usize) -> (r: (&str, &str))
    requires
        is_char_boundary(s.spec_bytes(), mid as int),
    ensures
        s@ == r.0@ + r.1@,
        utf8_len(r.0@) == mid,
        r.0.spec_bytes() =~= s.spec_bytes().subrange(0, mid as int),
        r.1.spec_bytes() =~= s.spec_bytes().subrange(mid as int, s.spec_bytes().len() as int),
{
    let r = s.split_at(mid);
    proof {
        lemma_split_chars(s, mid as int, r.0, r.1);
    }
    r
}

/// Returns the number of bytes needed to encode `c` in UTF-8, as
/// `char::len_utf8` does.
pub fn char_len_utf8(c: char) -> (r: usize)
    ensures
        r == utf8_width(c),
{
    proof {
        char_is_scalar(c);
    }
    let u = c as u32;
    if u < 0x80 {
        1
    } else if u < 0x800 {
        2
    } else if u < 0x10000 {
        3
    } else {
        4
    }
}

/// The characters of `s` before the byte offset `p`.
pub open spec fn chars_before(s: &str, p: int) -> Seq<char> {
    decode_utf8(s.spec_bytes().subrange(0, p))
}

/// The characters of `s` from the byte offset `p` on.
pub open spec fn chars_from(s: &str, p: int) -> Seq<char> {
    decode_utf8(s.spec_bytes().subrange(p, s.spec_bytes().len() as int))
}

/// Splitting at a boundary gives the characters before and after it.
pub proof fn lemma_split_views(s: &str, p: int, a: &str, b: &str)
    requires
        a.spec_bytes() =~= s.spec_bytes().subrange(0, p),
        b.spec_bytes() =~= s.spec_bytes().subrange(p, s.spec_bytes().len() as int),
    ensures
        a@ == chars_before(s, p),
        b@ == chars_from(s, p),
{
    encode_utf8_decode_utf8(a@);
    encode_utf8_decode_utf8(b@);
}

/// The character has the Unicode `White_Space` property: U+0009 to U+000D,
/// U+0020, U+0085, U+00A0, U+1680, U+2000 to U+200A, U+2028, U+2029, U+202F,
/// U+205F and U+3000.
pub open spec fn is_whitespace_char(c: char) -> bool {
    let u = c as u32;
    ||| 0x9 <= u <= 0xD
    ||| u == 0x20
    ||| u == 0x85
    ||| u == 0xA0
    ||| u == 0x1680
    ||| 0x2000 <= u <= 0x200A
    ||| u == 0x2028
    ||| u == 0x2029
    ||| u == 0x202F
    ||| u == 0x205F
    ||| u == 0x3000
}

/// Named result of `char::is_alphabetic` on characters outside ASCII: the
/// character has the Unicode `Alphabetic` property.
pub uninterp spec fn is_alphabetic_char(c: char) -> bool;

/// The character has the Unicode `Alphabetic` property. Among ASCII
/// characters those are exactly the letters `a` to `z` and `A` to `Z`; beyond
/// ASCII the property is the named result `is_alphabetic_char`.
pub open spec fn alphabetic(c: char) -> bool {
    if (c as u32) < 0x80 {
        ('a' <= c && c <= 'z') || ('A' <= c && c <= 'Z')
    } else {
        is_alphabetic_char(c)
    }
}

/// Whether `c` is whitespace, as `char::is_whitespace` decides it: whether
/// it has the Unicode `White_Space` property.
pub fn char_is_whitespace(c: char) -> (r: bool)
    ensures
        r == is_whitespace_char(c),
{
    let u = c as u32;
    (0x9 <= u && u <= 0xD) || u == 0x20 || u == 0x85 || u == 0xA0 || u == 0x1680 || (0x2000 <= u
        && u <= 0x200A) || u == 0x2028 || u == 0x2029 || u == 0x202F || u == 0x205F || u == 0x3000
}

/// Calls `char::is_alphabetic`, documented to return whether the character
/// has the Unicode `Alphabetic` property. The contract states what that
/// property is on ASCII characters (the letters `a` to `z` and `A` to `Z`,
/// which is also what the standard library tests first); beyond ASCII the
/// result is named `is_alphabetic_char`.
#[verifier::external_body]
pub(crate) fn char_is_alphabetic(c: char) -> (r: bool)
    ensures
        (c as u32) < 0x80 ==> (r <==> (('a' <= c && c <= 'z') || ('A' <= c && c <= 'Z'))),
        (c as u32) >= 0x80 ==> r == is_alphabetic_char(c),
{
    c.is_alphabetic()
}

/// The last character of `s`, if any. It is read from the bytes after the
/// nearest character boundary before the end, at most four bytes back.
pub fn last_char(s: &str) -> (r: Option<char>)
    ensures
        r == (if s@.len() > 0 { Some(s@.last()) } else { None::<char> }),
{
    let n = str_byte_len(s);
    proof {
        encode_utf8_valid_utf8(s@);
        is_char_boundary_start_end_of_seq(s.spec_bytes());
    }
    if n == 0 {
        proof {
            if s@.len() > 0 {
                lemma_chars_le_bytes(s@);
            }
        }
        return None;
    }
    let mut k: usize = n - 1;
    while k > 0 && n - k < 4 && !s.is_char_boundary(k)
        invariant
            k < n,
            n == s.spec_bytes().len(),
        decreases k,
    {
        k = k - 1;
    }
    if !s.is_char_boundary(k) {
        k = 0;
    }
    let (_, tail) = split_str(s, k);
    let cs = all_chars(tail);
    proof {
        if tail@.len() == 0 {
            assert(encode_utf8(tail@) =~= Seq::<u8>::empty());
        }
    }
    Some(cs[cs.len() - 1])
}

/// The length of `s` in bytes; it is a `usize` value.
pub fn str_byte_len(s: &str) -> (r: usize)
    ensures
        r as nat == s.spec_bytes().len(),
{
    let b = s.as_bytes();
    b.len()
}

/// The number of bytes taken by the first `n` characters of `s`, given a
/// byte count `whole` that they do not exceed (the length of the text they
/// were read from).
pub fn prefix_byte_len(s: &Vec<char>, n: usize, whole: usize) -> (r: usize)
    requires
        n <= s@.len(),
        utf8_len(s@.take(n as int)) <= whole,
    ensures
        r == utf8_len(s@.take(n as int)),
{
    let mut total: usize = 0;
    let mut i: usize = 0;
    while i < n
        invariant
            i <= n,
            n <= s@.len(),
            total == utf8_len(s@.take(i as int)),
            utf8_len(s@.take(n as int)) <= whole,
        decreases n - i,
    {
        proof {
            assert(s@.take(i + 1) =~= s@.take(i as int).push(s@[i as int]));
            lemma_utf8_len_push(s@.take(i as int), s@[i as int]);
            assert(s@.take(n as int).take(i + 1) =~= s@.take(i + 1));
            lemma_utf8_len_take(s@.take(n as int), i + 1);
        }
        total = total + char_len_utf8(s[i]);
        i = i + 1;
    }
    total
}

/// The first `limit` characters of `s` (all of them when `s` is shorter).
pub fn chars_prefix(s: &str, limit: usize) -> (v: Vec<char>)
    ensures
        v@ == s@.take(if limit <= s@.len() { limit as int } else { s@.len() as int }),
{
    let mut v: Vec<char> = Vec::new();
    if limit == 0 {
        return v;
    }
    for c in it: s.chars()
        invariant
            v@ == it.seq().take(it.index()),
            it.seq() == s@,
            v@.len() < limit,
    {
        v.push(c);
        if v.len() >= limit {
            assert(v@ == s@.take(limit as int));
            return v;
        }
    }
    v
}

/// All characters of `s`.
pub fn all_chars(s: &str) -> (v: Vec<char>)
    ensures
        v@ == s@,
{
    let mut v: Vec<char> = Vec::new();
    for c in it: s.chars()
        invariant
            v@ == it.seq().take(it.index()),
            it.seq() == s@,
    {
        v.push(c);
    }
    v
}

/// Splits `s` after its first `n` characters, given those characters.
pub fn split_after_chars<'a>(s: &'a str, head: &Vec<char>, n: usize) -> (r: (&'a str, &'a str))
    requires
        n <= head@.len(),
        head@.len() <= s@.len(),
        head@ == s@.take(head@.len() as int),
    ensures
        r.0@ == s@.take(n as int),
        r.1@ == s@.skip(n as int),
        utf8_len(r.0@) == utf8_len(s@.take(n as int)),
        r.0.spec_bytes() =~= s.spec_bytes().subrange(0, utf8_len(s@.take(n as int)) as int),
        r.1.spec_bytes() =~= s.spec_bytes().subrange(utf8_len(s@.take(n as int)) as int, s.spec_bytes().len() as int),
{
    let whole = str_byte_len(s);
    proof {
        assert(head@.take(n as int) =~= s@.take(n as int));
        lemma_utf8_len_take(s@, n as int);
        assert(s.spec_bytes().len() == utf8_len(s@));
    }
    let m = prefix_byte_len(head, n, whole);
    proof {
        assert(s@.take(n as int) + s@.skip(n as int) =~= s@);
        lemma_boundary_after_prefix(s@.take(n as int), s@.skip(n as int));
    }
    let r = split_str(s, m);
    proof {
        assert(r.0@ + r.1@ == s@);
        lemma_utf8_len_take(s@, n as int);
        // both halves are determined by their encodings
        encode_utf8_decode_utf8(r.0@);
        encode_utf8_decode_utf8(s@.take(n as int));
        lemma_encode_concat(s@.take(n as int), s@.skip(n as int));
        assert(encode_utf8(s@.take(n as int)) =~= s.spec_bytes().subrange(0, m as int));
        assert(r.0@ =~= s@.take(n as int));
        assert(r.1@ =~= s@.skip(n as int));
    }
    r
}

} // verus!
