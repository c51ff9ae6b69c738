//! Properties of the lexer and of the outline that hold for every input.
use vstd::prelude::*;
use vstd::string::StringSliceAdditionalSpecFns;
use vstd::utf8::{encode_utf8, encode_utf8_decode_utf8, encode_utf8_valid_utf8, is_char_boundary};
use crate::actions::{is_line_span, line_span, built_list, is_kept, kept, next_list, type_name_text, unquoted, Element, TypeName};
use crate::lexer::{
    char_at_or_space, comment_line_span, comment_name_span, first_stop, is_id,
    is_word_char, keyword_span, lemma_first_stop, lemma_line_len_from, lemma_ws_run_from, line_len,
    position_after_layout, recognize_spec, skipped, skipped_layout, stops_at, until_span, word_at,
    ws_run, Ctx, TokenKind, ctx_checkable, expected_tokens,
};
use crate::location::{
    advance, advance_fits, bytes_after_last_newline, is_line_based, lemma_advance_by_bytes,
    location_after_spec, newline_byte_count, newline_count, reference_position, SourceLocation,
};
use crate::text::{
    chars_from, lemma_encode_concat, lemma_utf8_len_concat, lemma_utf8_len_take,
    span_chars, utf8_len, is_whitespace_char, alphabetic,
};

verus! {

/// A character that may continue a word: an alphabetic character, `-` or `_`.
pub open spec fn word_character(c: char) -> bool {
    alphabetic(c) || c == '-' || c == '_'
}

/// The word `w` stands at index `j` of `s` (where `prev` is the character
/// before `s`) as a whole word: its characters are there, and when `w` is made
/// of word characters only, neither the character before it nor the one after
/// it (a space past the end) is a word character.
pub open spec fn occurs_whole(w: Seq<char>, prev: char, s: Seq<char>, j: int) -> bool {
    &&& 0 <= j
    &&& j + w.len() <= s.len()
    &&& forall|k: int| 0 <= k < w.len() ==> s[j + k] == w[k]
    &&& (forall|k: int| 0 <= k < w.len() ==> word_character(w[k])) ==> {
        &&& !word_character(if j == 0 { prev } else { s[j - 1] })
        &&& !word_character(if j + w.len() < s.len() { s[j + w.len()] } else { ' ' })
    }
}

/// `word_at` is whole-word occurrence.
proof fn lemma_word_at_is_occurrence(w: Seq<char>, prev: char, s: Seq<char>, j: int)
    ensures
        word_at(w, prev, s, j) <==> occurs_whole(w, prev, s, j),
{
    if 0 <= j && j + w.len() <= s.len() {
        if forall|k: int| 0 <= k < w.len() ==> s[j + k] == w[k] {
            assert(s.subrange(j, j + w.len()) =~= w);
        }
        if s.subrange(j, j + w.len()) == w {
            assert forall|k: int| 0 <= k < w.len() implies s[j + k] == w[k] by {
                assert(s.subrange(j, j + w.len())[k] == s[j + k]);
            }
        }
    }
    assert(is_id(w) <==> (forall|k: int| 0 <= k < w.len() ==> word_character(w[k]))) by {
        if is_id(w) {
            assert forall|k: int| 0 <= k < w.len() implies word_character(w[k]) by {
                assert(is_word_char(w[k]));
            }
        }
        if forall|k: int| 0 <= k < w.len() ==> word_character(w[k]) {
            assert forall|k: int| 0 <= k < w.len() implies is_word_char(#[trigger] w[k]) by {
                assert(word_character(w[k]));
            }
        }
    }
}

/// A keyword or punctuation word is recognized exactly where it stands as a
/// whole word at the start of the text, whatever character precedes it
/// (the start of a line included); its span is the bytes of the word.
pub proof fn law_keyword_span_exact(w: Seq<char>, prev: char, s: Seq<char>)
    ensures
        keyword_span(w, prev, s) == (if occurs_whole(w, prev, s, 0) { Some((0int, utf8_len(w) as int)) } else { None }),
{
    lemma_word_at_is_occurrence(w, prev, s, 0);
    if occurs_whole(w, prev, s, 0) {
        assert(s.take(w.len() as int) =~= w);
    }
}

/// Every keyword and punctuation kind recognizes exactly its own word, as a
/// whole word at the start of the text, with the bytes of the word as span.
pub proof fn law_keyword_kinds(prev: char, s: Seq<char>)
    ensures
        recognize_spec(TokenKind::OBrace, prev, s) == (if occurs_whole("{"@, prev, s, 0) { Some((0int, utf8_len("{"@) as int)) } else { None }),
        recognize_spec(TokenKind::CBrace, prev, s) == (if occurs_whole("}"@, prev, s, 0) { Some((0int, utf8_len("}"@) as int)) } else { None }),
        recognize_spec(TokenKind::ComponentKW, prev, s) == (if occurs_whole("component"@, prev, s, 0) { Some((0int, utf8_len("component"@) as int)) } else { None }),
        recognize_spec(TokenKind::ConfigurationKW, prev, s) == (if occurs_whole("configuration"@, prev, s, 0) { Some((0int, utf8_len("configuration"@) as int)) } else { None }),
        recognize_spec(TokenKind::CodeKW, prev, s) == (if occurs_whole("CODE"@, prev, s, 0) { Some((0int, utf8_len("CODE"@) as int)) } else { None }),
        recognize_spec(TokenKind::EndCodeKW, prev, s) == (if occurs_whole("ENDCODE"@, prev, s, 0) { Some((0int, utf8_len("ENDCODE"@) as int)) } else { None }),
        recognize_spec(TokenKind::ModelKW, prev, s) == (if occurs_whole("model"@, prev, s, 0) { Some((0int, utf8_len("model"@) as int)) } else { None }),
        recognize_spec(TokenKind::LibraryKW, prev, s) == (if occurs_whole("library"@, prev, s, 0) { Some((0int, utf8_len("library"@) as int)) } else { None }),
        recognize_spec(TokenKind::OComment, prev, s) == (if occurs_whole("/*"@, prev, s, 0) { Some((0int, utf8_len("/*"@) as int)) } else { None }),
        recognize_spec(TokenKind::CComment, prev, s) == (if occurs_whole("*/"@, prev, s, 0) { Some((0int, utf8_len("*/"@) as int)) } else { None }),
        recognize_spec(TokenKind::CommentKW, prev, s) == (if occurs_whole("comment"@, prev, s, 0) { Some((0int, utf8_len("comment"@) as int)) } else { None }),
        recognize_spec(TokenKind::StartCommentKW, prev, s) == (if occurs_whole("START"@, prev, s, 0) { Some((0int, utf8_len("START"@) as int)) } else { None }),
        recognize_spec(TokenKind::EndCommentKW, prev, s) == (if occurs_whole("ENDCOMMENT"@, prev, s, 0) { Some((0int, utf8_len("ENDCOMMENT"@) as int)) } else { None }),
{
    law_keyword_span_exact("{"@, prev, s);
    law_keyword_span_exact("}"@, prev, s);
    law_keyword_span_exact("component"@, prev, s);
    law_keyword_span_exact("configuration"@, prev, s);
    law_keyword_span_exact("CODE"@, prev, s);
    law_keyword_span_exact("ENDCODE"@, prev, s);
    law_keyword_span_exact("model"@, prev, s);
    law_keyword_span_exact("library"@, prev, s);
    law_keyword_span_exact("/*"@, prev, s);
    law_keyword_span_exact("*/"@, prev, s);
    law_keyword_span_exact("comment"@, prev, s);
    law_keyword_span_exact("START"@, prev, s);
    law_keyword_span_exact("ENDCOMMENT"@, prev, s);
}

/// Text taken up to stop words ends at the first index where one of the
/// words stands as a whole word, or at the end of the text; it is never empty,
/// and no stop word stands anywhere inside it.
pub proof fn law_until_span_exact(words: Seq<Seq<char>>, prev: char, s: Seq<char>)
    ensures
        until_span(words, prev, s) is None <==> (s.len() == 0 || exists|k: int|
            0 <= k < words.len() && #[trigger] occurs_whole(words[k], prev, s, 0)),
        until_span(words, prev, s) matches Some((a, b)) ==> exists|n: int| {
            &&& 0 < n <= s.len()
            &&& a == 0
            &&& b == utf8_len(#[trigger] s.take(n))
            &&& forall|j: int, k: int| 0 <= j < n && 0 <= k < words.len() ==> !occurs_whole(words[k], prev, s, j)
            &&& (n == s.len() || exists|k: int| 0 <= k < words.len() && occurs_whole(words[k], prev, s, n))
        },
{
    lemma_first_stop(words, prev, s, 0);
    let n = first_stop(words, prev, s, 0);
    assert forall|j: int, k: int| 0 <= j < n && 0 <= k < words.len() implies !occurs_whole(words[k], prev, s, j) by {
        lemma_word_at_is_occurrence(words[k], prev, s, j);
        assert(!stops_at(words, prev, s, j));
    }
    if n < s.len() {
        let k = choose|k: int| 0 <= k < words.len() && word_at(#[trigger] words[k], prev, s, n as int);
        lemma_word_at_is_occurrence(words[k], prev, s, n as int);
    }
    if s.len() > 0 {
        assert forall|k: int| 0 <= k < words.len() && #[trigger] occurs_whole(words[k], prev, s, 0) implies n == 0 by {
            lemma_word_at_is_occurrence(words[k], prev, s, 0);
        }
        if n == 0 {
            let k = choose|k: int| 0 <= k < words.len() && word_at(#[trigger] words[k], prev, s, 0);
            lemma_word_at_is_occurrence(words[k], prev, s, 0);
        }
    }
    if n > 0 {
        let t = s.take(n as int);
        assert(utf8_len(t) == utf8_len(s.take(n as int)));
    }
}

/// Free text (the `Anything` token) runs up to the first whole-word
/// occurrence of a comment opener, a brace, a quote or a keyword, or to the
/// end of the text: none of these words stands anywhere inside it, and every
/// other character is taken.
pub proof fn law_anything_stops_at_first_stop_word(prev: char, s: Seq<char>)
    ensures
        ({
            let words: Seq<Seq<char>> = seq![
                "//"@, "/*"@, "{"@, "}"@, "\""@, "'"@, "component"@, "model"@, "library"@, "CODE"@,
                "ENDCODE"@, "comment"@, "START"@, "ENDCOMMENT"@,
            ];
            &&& recognize_spec(TokenKind::Anything, prev, s) is None <==> (s.len() == 0 || exists|k: int|
                0 <= k < words.len() && #[trigger] occurs_whole(words[k], prev, s, 0))
            &&& recognize_spec(TokenKind::Anything, prev, s) matches Some((a, b)) ==> exists|n: int| {
                &&& 0 < n <= s.len()
                &&& a == 0
                &&& b == utf8_len(#[trigger] s.take(n))
                &&& forall|j: int, k: int| 0 <= j < n && 0 <= k < words.len() ==> !occurs_whole(words[k], prev, s, j)
                &&& (n == s.len() || exists|k: int| 0 <= k < words.len() && occurs_whole(words[k], prev, s, n))
            }
        }),
{
    assert(crate::lexer::anything_words() =~= seq![
                "//"@, "/*"@, "{"@, "}"@, "\""@, "'"@, "component"@, "model"@, "library"@, "CODE"@,
                "ENDCODE"@, "comment"@, "START"@, "ENDCOMMENT"@,
            ]);
    law_until_span_exact(crate::lexer::anything_words(), prev, s);
}

/// The source text of a code handler (the `TillEndCodeKW` token) runs up to
/// the first whole-word `ENDCODE`, or to the end of the text: `ENDCODE` stands
/// nowhere inside it, and every other character (braces and quotes included)
/// is taken.
pub proof fn law_code_runs_to_endcode(prev: char, s: Seq<char>)
    ensures
        ({
            let words: Seq<Seq<char>> = seq!["ENDCODE"@];
            &&& recognize_spec(TokenKind::TillEndCodeKW, prev, s) is None <==> (s.len() == 0 || exists|k: int|
                0 <= k < words.len() && #[trigger] occurs_whole(words[k], prev, s, 0))
            &&& recognize_spec(TokenKind::TillEndCodeKW, prev, s) matches Some((a, b)) ==> exists|n: int| {
                &&& 0 < n <= s.len()
                &&& a == 0
                &&& b == utf8_len(#[trigger] s.take(n))
                &&& forall|j: int, k: int| 0 <= j < n && 0 <= k < words.len() ==> !occurs_whole(words[k], prev, s, j)
                &&& (n == s.len() || exists|k: int| 0 <= k < words.len() && occurs_whole(words[k], prev, s, n))
            }
        }),
{
    assert(crate::lexer::end_code_words() =~= seq!["ENDCODE"@]);
    law_until_span_exact(crate::lexer::end_code_words(), prev, s);
}

/// The text of a comment block (the `TillEndCommentKW` token) runs up to the
/// first whole-word `ENDCOMMENT`, or to the end of the text.
pub proof fn law_comment_runs_to_endcomment(prev: char, s: Seq<char>)
    ensures
        ({
            let words: Seq<Seq<char>> = seq!["ENDCOMMENT"@];
            &&& recognize_spec(TokenKind::TillEndCommentKW, prev, s) is None <==> (s.len() == 0 || exists|k: int|
                0 <= k < words.len() && #[trigger] occurs_whole(words[k], prev, s, 0))
            &&& recognize_spec(TokenKind::TillEndCommentKW, prev, s) matches Some((a, b)) ==> exists|n: int| {
                &&& 0 < n <= s.len()
                &&& a == 0
                &&& b == utf8_len(#[trigger] s.take(n))
                &&& forall|j: int, k: int| 0 <= j < n && 0 <= k < words.len() ==> !occurs_whole(words[k], prev, s, j)
                &&& (n == s.len() || exists|k: int| 0 <= k < words.len() && occurs_whole(words[k], prev, s, n))
            }
        }),
{
    assert(crate::lexer::end_comment_words() =~= seq!["ENDCOMMENT"@]);
    law_until_span_exact(crate::lexer::end_comment_words(), prev, s);
}

/// Text outside comments (the `NotComment` token) runs up to the first `//`,
/// `/*` or `*/`, or to the end of the text.
pub proof fn law_not_comment_stops_at_comment_marks(prev: char, s: Seq<char>)
    ensures
        ({
            let words: Seq<Seq<char>> = seq!["//"@, "/*"@, "*/"@];
            &&& recognize_spec(TokenKind::NotComment, prev, s) is None <==> (s.len() == 0 || exists|k: int|
                0 <= k < words.len() && #[trigger] occurs_whole(words[k], prev, s, 0))
            &&& recognize_spec(TokenKind::NotComment, prev, s) matches Some((a, b)) ==> exists|n: int| {
                &&& 0 < n <= s.len()
                &&& a == 0
                &&& b == utf8_len(#[trigger] s.take(n))
                &&& forall|j: int, k: int| 0 <= j < n && 0 <= k < words.len() ==> !occurs_whole(words[k], prev, s, j)
                &&& (n == s.len() || exists|k: int| 0 <= k < words.len() && occurs_whole(words[k], prev, s, n))
            }
        }),
{
    assert(crate::lexer::not_comment_words() =~= seq!["//"@, "/*"@, "*/"@]);
    law_until_span_exact(crate::lexer::not_comment_words(), prev, s);
}

/// The run-time checks of the lexer accept a context exactly when its
/// position is a character boundary of the input (its end included), its
/// location is line/column based, and adding the input's length in bytes
/// overflows neither its line nor its column.
pub proof fn law_checks_accept_exactly(c: Ctx, input: &str)
    ensures
        ctx_checkable(c, input) <==> {
            &&& is_char_boundary(input.spec_bytes(), c.position as int)
            &&& reference_position(c.location) is LineBased
            &&& reference_position(c.location)->LineBased_0.line + input.spec_bytes().len() <= usize::MAX
            &&& reference_position(c.location)->LineBased_0.column + input.spec_bytes().len() <= usize::MAX
        },
{
}

/// At the end of the input a context with a line/column location whose
/// counters do not overflow is accepted: no layout is skipped, and the end of
/// the input is recognized there as the empty `STOP` token.
pub proof fn law_end_of_input_gives_stop(c: Ctx, input: &str, prev: char)
    requires
        c.position == input.spec_bytes().len(),
        reference_position(c.location) is LineBased,
        reference_position(c.location)->LineBased_0.line + input.spec_bytes().len() <= usize::MAX,
        reference_position(c.location)->LineBased_0.column + input.spec_bytes().len() <= usize::MAX,
    ensures
        ctx_checkable(c, input),
        skipped_layout(input, c.position as int).len() == 0,
        position_after_layout(input, c.position as int) == c.position,
        chars_from(input, c.position as int).len() == 0,
        recognize_spec(TokenKind::STOP, prev, chars_from(input, c.position as int)) == Some((0int, 0int)),
        expected_tokens(seq![(TokenKind::STOP, false)], prev, chars_from(input, c.position as int))
            == seq![(TokenKind::STOP, 0int, 0int)],
{
    let bytes = input.spec_bytes();
    encode_utf8_valid_utf8(input@);
    vstd::utf8::is_char_boundary_start_end_of_seq(bytes);
    let rest = chars_from(input, c.position as int);
    assert(bytes.subrange(bytes.len() as int, bytes.len() as int) =~= Seq::<u8>::empty());
    assert(rest =~= Seq::<char>::empty()) by {
        assert(vstd::utf8::decode_utf8(Seq::<u8>::empty()) =~= Seq::<char>::empty());
    }
    assert(skipped_layout(input, c.position as int) =~= Seq::<char>::empty());
    assert(utf8_len(Seq::<char>::empty()) == 0) by {
        assert(encode_utf8(Seq::<char>::empty()) =~= Seq::<u8>::empty());
    }
    let kinds = seq![(TokenKind::STOP, false)];
    assert(kinds.drop_last() =~= Seq::<(TokenKind, bool)>::empty());
    assert(kinds.last() == (TokenKind::STOP, false));
    assert(expected_tokens(Seq::<(TokenKind, bool)>::empty(), prev, rest) =~= Seq::<(TokenKind, int, int)>::empty());
    assert(recognize_spec(TokenKind::STOP, prev, rest) == Some((0int, 0int)));
    assert(expected_tokens(kinds, prev, rest) =~= seq![(TokenKind::STOP, 0int, 0int)]);
}

/// The characters of the first bytes of `s` that encode its first `n`
/// characters are those characters.
pub proof fn lemma_prefix_span_chars(s: Seq<char>, n: int)
    requires
        0 <= n <= s.len(),
    ensures
        span_chars(s, 0, utf8_len(s.take(n)) as int) == s.take(n),
{
    assert(s.take(n) + s.skip(n) =~= s);
    lemma_encode_concat(s.take(n), s.skip(n));
    assert(encode_utf8(s).subrange(0, utf8_len(s.take(n)) as int) =~= encode_utf8(s.take(n)));
    encode_utf8_decode_utf8(s.take(n));
}

/// Skipping layout is idempotent: right after the layout there is no more
/// layout, so skipping again leaves the position where it is.
pub proof fn law_skip_idempotent(input: &str, p: int)
    requires
        is_char_boundary(input.spec_bytes(), p),
    ensures
        skipped_layout(input, position_after_layout(input, p)).len() == 0,
        position_after_layout(input, position_after_layout(input, p)) == position_after_layout(input, p),
{
    let bytes = input.spec_bytes();
    let rest = chars_from(input, p);
    let m = ws_run(rest) as int;
    let q = position_after_layout(input, p);
    encode_utf8_valid_utf8(input@);
    crate::text::lemma_boundary_in_range(bytes, p);
    lemma_ws_run_from(rest, 0);
    // the bytes from `p` on encode `rest`
    let tail = bytes.subrange(p, bytes.len() as int);
    vstd::utf8::valid_utf8_split(bytes, p);
    vstd::utf8::decode_utf8_encode_utf8(tail);
    assert(encode_utf8(rest) == tail);
    assert(rest.take(m) + rest.skip(m) =~= rest);
    lemma_encode_concat(rest.take(m), rest.skip(m));
    assert(skipped_layout(input, p) == rest.take(m));
    assert(q == p + utf8_len(rest.take(m)));
    let k = utf8_len(rest.take(m)) as int;
    assert(tail.subrange(k, tail.len() as int) =~= encode_utf8(rest.skip(m)));
    assert(bytes.subrange(q, bytes.len() as int) =~= tail.subrange(k, tail.len() as int));
    encode_utf8_decode_utf8(rest.skip(m));
    let rest2 = chars_from(input, q);
    assert(rest2 == rest.skip(m));
    if rest2.len() > 0 {
        assert(rest2[0] == rest[m]);
        assert(!is_whitespace_char(rest2[0]));
    }
    assert(ws_run(rest2) == 0);
    assert(rest2.take(0) =~= Seq::<char>::empty());
}

/// Lexing again right after lexing skips nothing: when `c1` is the context
/// after skipping the layout at `c0`, and `c2` the context after skipping the
/// layout at `c1`, then `c2` stands where `c1` stands, at the same location,
/// with no layout ahead.
pub proof fn law_skipped_twice(c0: Ctx, c1: Ctx, c2: Ctx, input: &str)
    requires
        is_char_boundary(input.spec_bytes(), c0.position as int),
        skipped(c0, c1, input),
        skipped(c1, c2, input),
    ensures
        c2.position == c1.position,
        c2.location == c1.location,
        c2.layout_ahead is None,
{
    law_skip_idempotent(input, c0.position as int);
    assert(skipped_layout(input, c1.position as int) =~= Seq::<char>::empty());
}

proof fn lemma_advance_concat(a: Seq<char>, b: Seq<char>, line: int, column: int)
    ensures
        advance(a + b, line, column) == advance(b, advance(a, line, column).0, advance(a, line, column).1),
    decreases b.len(),
{
    if b.len() == 0 {
        assert(a + b =~= a);
    } else {
        assert((a + b).drop_last() =~= a + b.drop_last());
        lemma_advance_concat(a, b.drop_last(), line, column);
    }
}

proof fn lemma_newline_count_concat(a: Seq<char>, b: Seq<char>)
    ensures
        newline_count(a + b) == newline_count(a) + newline_count(b),
    decreases b.len(),
{
    if b.len() == 0 {
        assert(a + b =~= a);
    } else {
        assert((a + b).drop_last() =~= a + b.drop_last());
        lemma_newline_count_concat(a, b.drop_last());
    }
}

/// Reading two pieces of text one after the other reaches the same location
/// as reading them at once.
pub proof fn law_location_after_composes(a: Seq<char>, b: Seq<char>, loc: crate::location::SourceLocation)
    requires
        is_line_based(loc),
        advance_fits(a + b, loc),
    ensures
        location_after_spec(a + b, loc) == location_after_spec(b, location_after_spec(a, loc)),
{
    let lc = reference_position(loc)->LineBased_0;
    lemma_advance_concat(a, b, lc.line as int, lc.column as int);
    lemma_newline_count_concat(a, b);
    lemma_utf8_len_concat(a, b);
    crate::location::lemma_advance_bounds(a, lc.line as int, lc.column as int);
}

/// The location after a text is what counting over its UTF-8 bytes gives:
/// the line grows by the number of line-feed bytes, and the column is the
/// number of bytes after the last line feed, or grows by the number of bytes
/// when there is none.
pub proof fn law_location_after_counts_bytes(text: Seq<char>, loc: crate::location::SourceLocation)
    requires
        is_line_based(loc),
    ensures
        ({
            let lc = reference_position(loc)->LineBased_0;
            let bytes = encode_utf8(text);
            location_after_spec(text, loc) == crate::location::SourceLocation {
                start: crate::location::Position::LineBased(crate::location::LineColumn {
                    line: (lc.line + newline_byte_count(bytes)) as usize,
                    column: match bytes_after_last_newline(bytes) {
                        Some(k) => k as usize,
                        None => (lc.column + bytes.len()) as usize,
                    },
                }),
                end: None,
            }
        }),
{
    let lc = reference_position(loc)->LineBased_0;
    lemma_advance_by_bytes(text, lc.line as int, lc.column as int);
}

/// A keyword is recognized only at the position itself, its value is exactly
/// the keyword, and an identifier-like keyword is never part of a longer word.
pub proof fn law_keyword_is_whole_word(w: Seq<char>, prev: char, s: Seq<char>)
    ensures
        keyword_span(w, prev, s) matches Some((a, b)) ==> {
            &&& a == 0
            &&& span_chars(s, a, b) == w
            &&& is_id(w) ==> !is_word_char(prev) && !is_word_char(char_at_or_space(s, w.len() as int))
        },
{
    if word_at(w, prev, s, 0) {
        lemma_prefix_span_chars(s, w.len() as int);
        assert(s.subrange(0, w.len() as int) =~= s.take(w.len() as int));
    }
}

/// Text consumed up to a stop word is never empty, contains no stop word at
/// any of its positions, and ends where a stop word starts or at the end of
/// the input.
pub proof fn law_until_stops_at_first_word(words: Seq<Seq<char>>, prev: char, s: Seq<char>)
    ensures
        ({
            let n = first_stop(words, prev, s, 0);
            &&& (until_span(words, prev, s) is Some <==> n > 0)
            &&& (until_span(words, prev, s) matches Some((a, b)) ==> a == 0 && span_chars(s, a, b) == s.take(n as int))
            &&& forall|j: int| 0 <= j < n ==> !stops_at(words, prev, s, j)
            &&& (n == s.len() || stops_at(words, prev, s, n as int))
        }),
{
    lemma_first_stop(words, prev, s, 0);
    let n = first_stop(words, prev, s, 0);
    lemma_prefix_span_chars(s, n as int);
}

/// A comment name is never the word `START`.
pub proof fn law_comment_name_is_not_start(s: Seq<char>)
    ensures
        comment_name_span(s) matches Some((a, b)) ==> span_chars(s, a, b) != "START"@,
{
}

/// The end of the input is recognized exactly when no text is left.
pub proof fn law_stop_at_end(prev: char, s: Seq<char>)
    ensures
        recognize_spec(TokenKind::STOP, prev, s) is Some <==> s.len() == 0,
{
}

/// A line comment starts with `//` and runs to the end of its line, line feed
/// included, or to the end of the input.
pub proof fn law_comment_line_ends_line(s: Seq<char>)
    ensures
        comment_line_span(s) matches Some((a, b)) ==> {
            let v = span_chars(s, a, b);
            &&& a == 0
            &&& v == s.take(line_len(s) as int)
            &&& v.len() >= 2 && v[0] == '/' && v[1] == '/'
            &&& v.len() == s.len() || v.last() == '\n'
            &&& forall|i: int| 0 <= i < v.len() - 1 ==> v[i] != '\n'
        },
{
    lemma_line_len_from(s, 0);
    if s.len() >= 2 && s[0] == '/' && s[1] == '/' {
        let n = line_len(s) as int;
        lemma_prefix_span_chars(s, n);
        assert(n >= 2) by {
            if n < 2 {
                assert(s[0] != '\n');
            }
        }
    }
}

/// Tokens found character by character start at the current position and
/// stay within the rest of the input.
pub proof fn law_char_tokens_start_at_position(kind: TokenKind, prev: char, s: Seq<char>)
    requires
        !(kind is ID || kind is Name || kind is CommentName || kind is ModelProperty
            || kind is ConfigurationProperty || kind is WS || kind is String),
    ensures
        recognize_spec(kind, prev, s) matches Some((a, b)) ==> a == 0 && 0 <= b <= utf8_len(s),
{
    lemma_first_stop(crate::lexer::end_code_words(), prev, s, 0);
    lemma_first_stop(crate::lexer::not_comment_words(), prev, s, 0);
    lemma_first_stop(crate::lexer::anything_words(), prev, s, 0);
    lemma_first_stop(crate::lexer::end_comment_words(), prev, s, 0);
    lemma_line_len_from(s, 0);
    assert forall|k: int| 0 <= k <= s.len() implies utf8_len(#[trigger] s.take(k)) <= utf8_len(s) by {
        lemma_utf8_len_take(s, k);
    }
}

/// The element lists that the actions build keep exactly the components and
/// handlers of the parsed elements, in order: adding an element to the list
/// kept from some elements gives the list kept from them and that element.
pub proof fn law_element_lists_keep_components_and_handlers(es: Seq<Element>, e: Element)
    ensures
        kept(es.push(e)) == if is_kept(e) { kept(es).push(e) } else { kept(es) },
        kept(seq![e]) == if is_kept(e) { seq![e] } else { Seq::<Element>::empty() },
        forall|i: int| 0 <= i < kept(es).len() ==> is_kept(#[trigger] kept(es)[i]),
{
    reveal_with_fuel(Seq::filter, 2);
    assert(es.push(e).drop_last() =~= es);
    assert(seq![e].drop_last() =~= Seq::<Element>::empty());
    broadcast use vstd::seq_lib::group_filter_ensures;
}

/// The element list that the actions build from a non-empty run of elements,
/// starting it with the first and adding each later one, is the list of the
/// components and handlers of the run, in order.
pub proof fn law_built_list_is_kept(elements: Seq<Element>)
    requires
        elements.len() > 0,
    ensures
        built_list(elements) == kept(elements),
    decreases elements.len(),
{
    let f = |list: Seq<Element>, e: Element| next_list(list, e);
    if elements.len() == 1 {
        assert(elements.skip(1) =~= Seq::<Element>::empty());
        assert(elements =~= seq![elements[0]]);
        law_element_lists_keep_components_and_handlers(Seq::<Element>::empty(), elements[0]);
    } else {
        let front = elements.drop_last();
        law_built_list_is_kept(front);
        assert(elements.skip(1).drop_last() =~= front.skip(1));
        assert(front[0] == elements[0]);
        assert(elements.skip(1).last() == elements.last());
        assert(built_list(elements) == f(built_list(front), elements.last()));
        law_element_lists_keep_components_and_handlers(front, elements.last());
        assert(front.push(elements.last()) =~= elements);
    }
}

/// The outline location of a construct is the parser's line/column span,
/// field by field: where it starts and where it ends.
pub proof fn law_line_span_fields(location: SourceLocation)
    requires
        is_line_span(location),
    ensures
        line_span(location).line_start == location.start->LineBased_0.line,
        line_span(location).column_start == location.start->LineBased_0.column,
        line_span(location).line_end == location.end->0->LineBased_0.line,
        line_span(location).column_end == location.end->0->LineBased_0.column,
{
}

/// The text of a component type is the name or identifier it was made from.
pub proof fn law_type_name_text(s: String)
    ensures
        type_name_text(TypeName::Name(s)) == s,
        type_name_text(TypeName::ID(s)) == s,
{
}

/// A quoted name loses exactly its quotes; a name that does not start with a
/// quote is kept as it is.
pub proof fn law_unquoted(s: Seq<char>, q: char)
    requires
        q == '"' || q == '\'',
    ensures
        unquoted(seq![q] + s + seq![q]) == s,
        (s.len() == 0 || (s[0] != '"' && s[0] != '\'')) ==> unquoted(s) == s,
{
    let t = seq![q] + s + seq![q];
    assert(t[0] == q);
    assert(t.subrange(1, t.len() - 1) =~= s);
}

} // verus!
