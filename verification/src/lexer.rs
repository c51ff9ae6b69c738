//! The lexer of the outline grammar: skipping of layout and recognition of
//! every kind of token at the current position.
use vstd::prelude::*;
use vstd::string::StringSliceAdditionalSpecFns;
use vstd::utf8::{encode_utf8_valid_utf8, is_char_boundary};
use crate::location::{
    SourceLocation, Position, advance_fits, is_line_based, location_after, location_after_spec,
    reference_position,
};
use crate::text::{
    all_chars, char_is_whitespace, is_whitespace_char, chars_before, chars_from, last_char,
    lemma_split_views, split_after_chars, split_str,
    chars_prefix, char_is_alphabetic, alphabetic, lemma_utf8_len_take, utf8_len,
    str_byte_len, span_chars, valid_span,
};

verus! {

/// The kinds of tokens of the outline grammar.
#[derive(Clone, Copy, Debug, PartialEq, Eq, Structural)]
pub enum TokenKind {
    STOP,
    OBrace,
    CBrace,
    ComponentKW,
    ConfigurationKW,
    CodeKW,
    EndCodeKW,
    TillEndCodeKW,
    ModelKW,
    LibraryKW,
    ID,
    Name,
    CommentLine,
    CommentName,
    OComment,
    CComment,
    NotComment,
    ModelProperty,
    ConfigurationProperty,
    WS,
    Anything,
    String,
    CommentKW,
    StartCommentKW,
    EndCommentKW,
    TillEndCommentKW,
}

/// A character that may continue an identifier-like keyword.
pub open spec fn is_word_char(c: char) -> bool {
    alphabetic(c) || c == '-' || c == '_'
}

/// All characters of `w` are word characters: `w` only matches on word boundaries.
pub open spec fn is_id(w: Seq<char>) -> bool {
    forall|i: int| 0 <= i < w.len() ==> is_word_char(#[trigger] w[i])
}

/// The character before index `j` of `s`, where `prev` precedes `s`.
pub open spec fn char_before(prev: char, s: Seq<char>, j: int) -> char {
    if j == 0 { prev } else { s[j - 1] }
}

/// The character at index `j` of `s`, or a space past its end.
pub open spec fn char_at_or_space(s: Seq<char>, j: int) -> char {
    if 0 <= j < s.len() { s[j] } else { ' ' }
}

/// The word `w` occurs at index `j` of `s`; an identifier-like word must
/// moreover not be preceded or followed by a word character.
pub open spec fn word_at(w: Seq<char>, prev: char, s: Seq<char>, j: int) -> bool {
    &&& 0 <= j
    &&& j + w.len() <= s.len()
    &&& s.subrange(j, j + w.len()) == w
    &&& (!is_id(w) || (!is_word_char(char_before(prev, s, j)) && !is_word_char(
        char_at_or_space(s, j + w.len()),
    )))
}

/// A word that the lexer looks for, with whether it is identifier-like.
pub struct Word {
    pub chars: Vec<char>,
    pub is_id: bool,
}

impl Word {
    pub open spec fn wf(&self) -> bool {
        self.is_id == is_id(self.chars@)
    }

    /// The word made of the characters of `w`.
    #[verifier::loop_isolation(false)]
    pub fn new(w: &str) -> (r: Word)
        ensures
            r.chars@ == w@,
            r.wf(),
    {
        let chars = all_chars(w);
        let mut i: usize = 0;
        while i < chars.len()
            invariant
                i <= chars@.len(),
                forall|k: int| 0 <= k < i ==> is_word_char(#[trigger] chars@[k]),
            decreases chars@.len() - i,
        {
            let c = chars[i];
            if !(char_is_alphabetic(c) || c == '-' || c == '_') {
                return Word { chars, is_id: false };
            }
            i = i + 1;
        }
        Word { chars, is_id: true }
    }
}

/// `buf` is a prefix of `s`, long enough to decide whether a word of length
/// `len` occurs at index `j`.
pub open spec fn decides(buf: Seq<char>, s: Seq<char>, j: int, len: int) -> bool {
    &&& buf == s.take(buf.len() as int)
    &&& buf.len() <= s.len()
    &&& (buf.len() == s.len() || j + len < buf.len())
}

proof fn lemma_word_at_prefix(w: Seq<char>, prev: char, buf: Seq<char>, s: Seq<char>, j: int)
    requires
        0 <= j,
        decides(buf, s, j, w.len() as int),
    ensures
        word_at(w, prev, buf, j) == word_at(w, prev, s, j),
{
    if buf.len() == s.len() {
        assert(buf =~= s);
    } else {
        if j + w.len() <= buf.len() {
            assert(buf.subrange(j, j + w.len()) =~= s.subrange(j, j + w.len()));
        }
    }
}

/// Whether `w` occurs at index `j` of the text of which `buf` is a long
/// enough prefix.
#[verifier::loop_isolation(false)]
fn word_at_exec(w: &Word, prev: char, buf: &Vec<char>, j: usize, Ghost(s): Ghost<Seq<char>>) -> (r: bool)
    requires
        w.wf(),
        decides(buf@, s, j as int, w.chars@.len() as int),
    ensures
        r == word_at(w.chars@, prev, s, j as int),
{
    proof {
        lemma_word_at_prefix(w.chars@, prev, buf@, s, j as int);
    }
    let n = w.chars.len();
    if j > buf.len() || n > buf.len() - j {
        return false;
    }
    let mut k: usize = 0;
    while k < n
        invariant
            k <= n,
            n == w.chars@.len(),
            j + n <= buf.len(),
            forall|i: int| 0 <= i < k ==> buf@[j + i] == w.chars@[i],
        decreases n - k,
    {
        if buf[j + k] != w.chars[k] {
            assert(buf@.subrange(j as int, j + n)[k as int] != w.chars@[k as int]);
            return false;
        }
        k = k + 1;
    }
    assert(buf@.subrange(j as int, j + n) =~= w.chars@);
    if !w.is_id {
        return true;
    }
    let before = if j == 0 { prev } else { buf[j - 1] };
    let after = if j + n < buf.len() { buf[j + n] } else { ' ' };
    !(char_is_alphabetic(before) || before == '-' || before == '_')
        && !(char_is_alphabetic(after) || after == '-' || after == '_')
}

/// The characters of a list of words.
pub open spec fn word_seqs(words: Seq<Word>) -> Seq<Seq<char>> {
    words.map_values(|w: Word| w.chars@)
}

/// All words of the list are well formed.
pub open spec fn words_wf(words: Seq<Word>) -> bool {
    forall|k: int| 0 <= k < words.len() ==> (#[trigger] words[k]).wf()
}

/// One of `words` occurs at index `j` of `s`.
pub open spec fn stops_at(words: Seq<Seq<char>>, prev: char, s: Seq<char>, j: int) -> bool {
    exists|k: int| 0 <= k < words.len() && word_at(#[trigger] words[k], prev, s, j)
}

/// The first index from `j` on at which one of `words` occurs, or the length of `s`.
pub open spec fn first_stop(words: Seq<Seq<char>>, prev: char, s: Seq<char>, j: nat) -> nat
    decreases s.len() - j,
{
    if j >= s.len() {
        s.len()
    } else if stops_at(words, prev, s, j as int) {
        j
    } else {
        first_stop(words, prev, s, j + 1)
    }
}

/// `first_stop` is the least index at or after `j` where a word occurs.
pub proof fn lemma_first_stop(words: Seq<Seq<char>>, prev: char, s: Seq<char>, j: nat)
    requires
        j <= s.len(),
    ensures
        j <= first_stop(words, prev, s, j) <= s.len(),
        forall|i: int|
            j <= i < first_stop(words, prev, s, j) ==> !stops_at(words, prev, s, i),
        first_stop(words, prev, s, j) == s.len() || stops_at(
            words,
            prev,
            s,
            first_stop(words, prev, s, j) as int,
        ),
    decreases s.len() - j,
{
    if j < s.len() && !stops_at(words, prev, s, j as int) {
        lemma_first_stop(words, prev, s, j + 1);
    }
}

/// Whether one of `words` occurs at index `j` of the text of which `buf` is
/// a long enough prefix.
#[verifier::loop_isolation(false)]
fn stops_at_exec(words: &Vec<Word>, prev: char, buf: &Vec<char>, j: usize, Ghost(s): Ghost<Seq<char>>) -> (r: bool)
    requires
        words_wf(words@),
        forall|k: int| 0 <= k < words@.len() ==> decides(buf@, s, j as int, #[trigger] words@[k].chars@.len() as int),
    ensures
        r == stops_at(word_seqs(words@), prev, s, j as int),
{
    let mut k: usize = 0;
    while k < words.len()
        invariant
            k <= words@.len(),
            forall|i: int| 0 <= i < k ==> !word_at(#[trigger] word_seqs(words@)[i], prev, s, j as int),
        decreases words@.len() - k,
    {
        if word_at_exec(&words[k], prev, buf, j, Ghost(s)) {
            assert(word_seqs(words@)[k as int] == words@[k as int].chars@);
            return true;
        }
        assert(word_seqs(words@)[k as int] == words@[k as int].chars@);
        k = k + 1;
    }
    false
}

/// The number of characters of `rest` before the first occurrence of one of
/// `words` (the whole of `rest` when there is none); `prev` is the character
/// before `rest`.
#[verifier::loop_isolation(false)]
pub fn consume_until(words: &Vec<Word>, prev: char, rest: &str) -> (n: usize)
    requires
        words_wf(words@),
    ensures
        n == first_stop(word_seqs(words@), prev, rest@, 0),
{
    let ghost ws = word_seqs(words@);
    let mut maxw: usize = 0;
    let mut k: usize = 0;
    while k < words.len()
        invariant
            k <= words@.len(),
            forall|i: int| 0 <= i < k ==> (#[trigger] words@[i]).chars@.len() <= maxw,
        decreases words@.len() - k,
    {
        if words[k].chars.len() > maxw {
            maxw = words[k].chars.len();
        }
        k = k + 1;
    }
    let total = str_byte_len(rest);
    proof {
        crate::text::lemma_chars_le_bytes(rest@);
        lemma_first_stop(ws, prev, rest@, 0);
    }
    let mut limit: usize = if total < 64 { total } else { 64 };
    let mut buf = chars_prefix(rest, limit);
    let mut j: usize = 0;
    loop
        invariant
            limit <= total,
            limit > 0 || total == 0,
            total == utf8_len(rest@),
            rest@.len() <= total,
            buf@ == rest@.take(buf@.len() as int),
            buf@.len() == if limit <= rest@.len() { limit as nat } else { rest@.len() },
            j <= buf@.len(),
            first_stop(ws, prev, rest@, j as nat) == first_stop(ws, prev, rest@, 0),
            forall|i: int| 0 <= i < words@.len() ==> (#[trigger] words@[i]).chars@.len() <= maxw,
        decreases rest@.len() - j, rest@.len() - buf@.len() + if buf@.len() < limit || limit >= total { 0int } else { 1int },
    {
        let complete = buf.len() < limit || limit >= total;
        proof {
            if complete {
                assert(buf@ =~= rest@);
            }
        }
        if !complete && (maxw >= buf.len() || j >= buf.len() - maxw) {
            let ghost old_len = buf@.len();
            limit = if total - limit < limit { total } else { limit * 2 };
            buf = chars_prefix(rest, limit);
            proof {
                assert(old_len < limit);
                if buf@.len() == old_len {
                    assert(buf@.len() < limit);
                } else {
                    assert(buf@.len() > old_len);
                }
            }
        } else {
            if j >= buf.len() {
                return j;
            }
            proof {
                assert forall|i: int| 0 <= i < words@.len() implies decides(
                    buf@,
                    rest@,
                    j as int,
                    #[trigger] words@[i].chars@.len() as int,
                ) by {}
            }
            if stops_at_exec(words, prev, &buf, j, Ghost(rest@)) {
                return j;
            }
            j = j + 1;
        }
    }
}

/// The number of whitespace characters at the start of `s`, from index `j` on.
pub open spec fn ws_run_from(s: Seq<char>, j: nat) -> nat
    decreases s.len() - j,
{
    if j >= s.len() {
        s.len()
    } else if !is_whitespace_char(s[j as int]) {
        j
    } else {
        ws_run_from(s, j + 1)
    }
}

/// The number of whitespace characters at the start of `s`.
pub open spec fn ws_run(s: Seq<char>) -> nat {
    ws_run_from(s, 0)
}

/// `ws_run_from` ends at the first character from `j` on that is not whitespace.
pub proof fn lemma_ws_run_from(s: Seq<char>, j: nat)
    requires
        j <= s.len(),
    ensures
        j <= ws_run_from(s, j) <= s.len(),
        forall|i: int| j <= i < ws_run_from(s, j) ==> is_whitespace_char(#[trigger] s[i]),
        ws_run_from(s, j) == s.len() || !is_whitespace_char(s[ws_run_from(s, j) as int]),
    decreases s.len() - j,
{
    if j < s.len() && is_whitespace_char(s[j as int]) {
        lemma_ws_run_from(s, j + 1);
    }
}

/// The whitespace characters at the start of `s`.
pub fn leading_whitespace(s: &str) -> (v: Vec<char>)
    ensures
        v@ == s@.take(ws_run(s@) as int),
{
    let mut v: Vec<char> = Vec::new();
    proof {
        lemma_ws_run_from(s@, 0);
    }
    for c in it: s.chars()
        invariant
            it.seq() == s@,
            v@ == s@.take(it.index()),
            ws_run_from(s@, 0) == ws_run_from(s@, it.index() as nat),
    {
        if !char_is_whitespace(c) {
            return v;
        }
        v.push(c);
    }
    v
}

/// The number of characters of `s` up to and including its first line feed,
/// or all of them when there is none; counting from index `j`.
pub open spec fn line_len_from(s: Seq<char>, j: nat) -> nat
    decreases s.len() - j,
{
    if j >= s.len() {
        s.len()
    } else if s[j as int] == '\n' {
        j + 1
    } else {
        line_len_from(s, j + 1)
    }
}

/// The number of characters of `s` up to and including its first line feed,
/// or all of them when there is none.
pub open spec fn line_len(s: Seq<char>) -> nat {
    line_len_from(s, 0)
}

/// The length of the line at the start of `s`, line feed included.
pub fn line_length(s: &str) -> (n: usize)
    ensures
        n == line_len(s@),
{
    let mut n: usize = 0;
    let total = str_byte_len(s);
    proof {
        crate::text::lemma_chars_le_bytes(s@);
    }
    for c in it: s.chars()
        invariant
            it.seq() == s@,
            n == it.index(),
            s@.len() <= total,
            line_len_from(s@, 0) == line_len_from(s@, n as nat),
    {
        if c == '\n' {
            return n + 1;
        }
        n = n + 1;
    }
    n
}

/// Layout: a run of whitespace.
pub const RE_WS: &'static str = r"^\s+";

/// An identifier: a word character that is not a digit, then word characters.
pub const RE_ID: &'static str = r"^[^\d\W]\w*\b";

/// A name: a double or single quoted string, or a run of word characters, `+` and `-`.
pub const RE_NAME: &'static str = r#"^("(\\"|[^"])*")|^('(\\'|[^'])*')|^(\w|\+|-)+"#;

/// A double or single quoted string.
pub const RE_STRING: &'static str = r#"^(("(\\"|[^"])*")|('(\\'|[^'])*'))"#;

/// The start of a `model =` property.
pub const RE_MODEL_PROPERTY: &'static str = r#"^model\s+="#;

/// The start of a `configuration =` property.
pub const RE_CONFIGURATION_PROPERTY: &'static str = r#"^configuration\s+="#;

/// The patterns of the lexer: every alternative of each is anchored at the
/// start of the text by `^` and matches at least one character.
pub open spec fn anchored_pattern(pattern: Seq<char>) -> bool {
    ||| pattern == RE_WS@
    ||| pattern == RE_ID@
    ||| pattern == RE_NAME@
    ||| pattern == RE_STRING@
    ||| pattern == RE_MODEL_PROPERTY@
    ||| pattern == RE_CONFIGURATION_PROPERTY@
}

/// Named result of a regular expression search: the byte span of the first
/// match of `pattern` in `haystack`, or `None` when there is no match.
pub uninterp spec fn regex_first_match(pattern: Seq<char>, haystack: Seq<char>) -> Option<(usize, usize)>;

/// Compiles `pattern` with `regex::Regex::new` and searches `haystack` with
/// `regex::Regex::find`, returning the start and end byte offsets of the
/// first match.
///
/// The result is named `regex_first_match`. The contract also records what
/// the documentation of `regex::Match` guarantees: the start is not after the
/// end, and both offsets are character boundaries of the haystack. When the
/// pattern does not compile the result is `None`; which patterns compile is
/// not stated. For the lexer's own patterns, whose alternatives all start
/// with `^` (which the `regex` documentation defines as matching only at the
/// beginning of the haystack) and all match at least one character, a match
/// starts at offset 0 and is not empty.
#[verifier::external_body]
fn regex_find(pattern: &str, haystack: &str) -> (r: Option<(usize, usize)>)
    ensures
        r == regex_first_match(pattern@, haystack@),
        r matches Some((a, b)) ==> valid_span(haystack@, a as int, b as int),
        anchored_pattern(pattern@) ==> (r matches Some((a, b)) ==> a == 0 && a < b),
{
    match regex::Regex::new(pattern) {
        Ok(re) => re.find(haystack).map(|m| (m.start(), m.end())),
        Err(_) => None,
    }
}

/// The byte span of the first `n` characters of `s`.
pub open spec fn char_span(s: Seq<char>, n: nat) -> Option<(int, int)> {
    Some((0, utf8_len(s.take(n as int)) as int))
}

/// The span of the word `w` when it occurs at the start of `s`.
pub open spec fn keyword_span(w: Seq<char>, prev: char, s: Seq<char>) -> Option<(int, int)> {
    if word_at(w, prev, s, 0) {
        char_span(s, w.len())
    } else {
        None
    }
}

/// The span of the non-empty text before the first of `words`.
pub open spec fn until_span(words: Seq<Seq<char>>, prev: char, s: Seq<char>) -> Option<(int, int)> {
    let n = first_stop(words, prev, s, 0);
    if n > 0 {
        char_span(s, n)
    } else {
        None
    }
}

/// The span of a line comment: from `//` to the end of the line, line feed included.
pub open spec fn comment_line_span(s: Seq<char>) -> Option<(int, int)> {
    if s.len() >= 2 && s[0] == '/' && s[1] == '/' {
        char_span(s, line_len(s))
    } else {
        None
    }
}

/// The span of the first match of a regular expression.
pub open spec fn regex_span(pattern: &str, s: Seq<char>) -> Option<(int, int)> {
    match regex_first_match(pattern@, s) {
        Some((a, b)) => Some((a as int, b as int)),
        None => None,
    }
}

/// The span of a comment name: an identifier other than `START`.
pub open spec fn comment_name_span(s: Seq<char>) -> Option<(int, int)> {
    comment_name_of(s, regex_span(RE_ID, s))
}

/// The words that end the text of a code block.
pub open spec fn end_code_words() -> Seq<Seq<char>> {
    seq!["ENDCODE"@]
}

/// The words that end text that is not a comment.
pub open spec fn not_comment_words() -> Seq<Seq<char>> {
    seq!["//"@, "/*"@, "*/"@]
}

/// The words that end arbitrary text.
pub open spec fn anything_words() -> Seq<Seq<char>> {
    seq![
        "//"@,
        "/*"@,
        "{"@,
        "}"@,
        "\""@,
        "'"@,
        "component"@,
        "model"@,
        "library"@,
        "CODE"@,
        "ENDCODE"@,
        "comment"@,
        "START"@,
        "ENDCOMMENT"@,
    ]
}

/// The words that end the text of a comment block.
pub open spec fn end_comment_words() -> Seq<Seq<char>> {
    seq!["ENDCOMMENT"@]
}

/// The span of the token of the given kind at the start of `s`, where `prev`
/// is the character before `s` (a space at the start of the input).
pub open spec fn recognize_spec(kind: TokenKind, prev: char, s: Seq<char>) -> Option<(int, int)> {
    match kind {
        TokenKind::STOP => if s.len() == 0 { Some((0, 0)) } else { None },
        TokenKind::OBrace => keyword_span("{"@, prev, s),
        TokenKind::CBrace => keyword_span("}"@, prev, s),
        TokenKind::ComponentKW => keyword_span("component"@, prev, s),
        TokenKind::ConfigurationKW => keyword_span("configuration"@, prev, s),
        TokenKind::CodeKW => keyword_span("CODE"@, prev, s),
        TokenKind::EndCodeKW => keyword_span("ENDCODE"@, prev, s),
        TokenKind::TillEndCodeKW => until_span(end_code_words(), prev, s),
        TokenKind::ModelKW => keyword_span("model"@, prev, s),
        TokenKind::LibraryKW => keyword_span("library"@, prev, s),
        TokenKind::ID => regex_span(RE_ID, s),
        TokenKind::Name => regex_span(RE_NAME, s),
        TokenKind::CommentLine => comment_line_span(s),
        TokenKind::CommentName => comment_name_span(s),
        TokenKind::OComment => keyword_span("/*"@, prev, s),
        TokenKind::CComment => keyword_span("*/"@, prev, s),
        TokenKind::NotComment => until_span(not_comment_words(), prev, s),
        TokenKind::ModelProperty => regex_span(RE_MODEL_PROPERTY, s),
        TokenKind::ConfigurationProperty => regex_span(RE_CONFIGURATION_PROPERTY, s),
        TokenKind::WS => regex_span(RE_WS, s),
        TokenKind::Anything => until_span(anything_words(), prev, s),
        TokenKind::String => regex_span(RE_STRING, s),
        TokenKind::CommentKW => keyword_span("comment"@, prev, s),
        TokenKind::StartCommentKW => keyword_span("START"@, prev, s),
        TokenKind::EndCommentKW => keyword_span("ENDCOMMENT"@, prev, s),
        TokenKind::TillEndCommentKW => until_span(end_comment_words(), prev, s),
    }
}

/// An optional span of machine integers, as mathematical integers.
pub open spec fn span_view(r: Option<(usize, usize)>) -> Option<(int, int)> {
    match r {
        Some((a, b)) => Some((a as int, b as int)),
        None => None,
    }
}

/// The words made of the given strings.
fn make_words(lits: Vec<&str>) -> (r: Vec<Word>)
    ensures
        words_wf(r@),
        word_seqs(r@) == lits@.map_values(|l: &str| l@),
{
    let mut r: Vec<Word> = Vec::new();
    let mut i: usize = 0;
    while i < lits.len()
        invariant
            i <= lits@.len(),
            r@.len() == i,
            words_wf(r@),
            forall|k: int| 0 <= k < i ==> (#[trigger] r@[k]).chars@ == lits@[k]@,
        decreases lits@.len() - i,
    {
        r.push(Word::new(lits[i]));
        i = i + 1;
    }
    assert(word_seqs(r@) =~= lits@.map_values(|l: &str| l@));
    r
}

/// The byte span of the first `n` characters of `rest`.
fn prefix_span(rest: &str, n: usize) -> (r: Option<(usize, usize)>)
    requires
        n <= rest@.len(),
    ensures
        span_view(r) == char_span(rest@, n as nat),
        r matches Some((a, b)) ==> valid_span(rest@, a as int, b as int),
        r matches Some((a, b)) ==> a == 0 && b >= n,
{
    let chars = chars_prefix(rest, n);
    let (head, _) = split_after_chars(rest, &chars, n);
    let b = str_byte_len(head);
    proof {
        crate::text::lemma_chars_le_bytes(rest@.take(n as int));
        assert(rest@.take(n as int) + rest@.skip(n as int) =~= rest@);
        crate::text::lemma_boundary_after_prefix(rest@.take(n as int), rest@.skip(n as int));
        crate::text::lemma_boundary_after_prefix(Seq::<char>::empty(), rest@);
        assert(Seq::<char>::empty() + rest@ =~= rest@);
    }
    Some((0, b))
}

/// The span of the word `lit` at the start of `rest`.
fn keyword(lit: &str, prev: char, rest: &str) -> (r: Option<(usize, usize)>)
    ensures
        span_view(r) == keyword_span(lit@, prev, rest@),
        r matches Some((a, b)) ==> valid_span(rest@, a as int, b as int),
        r matches Some((a, b)) ==> a == 0 && b >= lit@.len(),
{
    let w = Word::new(lit);
    let n = w.chars.len();
    let total = str_byte_len(rest);
    proof {
        crate::text::lemma_chars_le_bytes(rest@);
    }
    let window = if n < total { n + 1 } else { total };
    let buf = chars_prefix(rest, window);
    if word_at_exec(&w, prev, &buf, 0, Ghost(rest@)) {
        prefix_span(rest, n)
    } else {
        None
    }
}

/// The span of the non-empty text of `rest` before the first of the words `lits`.
fn until(lits: Vec<&str>, prev: char, rest: &str) -> (r: Option<(usize, usize)>)
    ensures
        span_view(r) == until_span(lits@.map_values(|l: &str| l@), prev, rest@),
        r matches Some((a, b)) ==> valid_span(rest@, a as int, b as int),
        r matches Some((a, b)) ==> a == 0 && a < b,
{
    let words = make_words(lits);
    let n = consume_until(&words, prev, rest);
    proof {
        lemma_first_stop(word_seqs(words@), prev, rest@, 0);
    }
    if n > 0 {
        prefix_span(rest, n)
    } else {
        None
    }
}

/// `line_len_from` ends just after the first line feed from `j` on, or at the end.
pub proof fn lemma_line_len_from(s: Seq<char>, j: nat)
    requires
        j <= s.len(),
    ensures
        j <= line_len_from(s, j) <= s.len(),
        forall|i: int| j <= i < line_len_from(s, j) - 1 ==> s[i] != '\n',
        line_len_from(s, j) == s.len() || s[line_len_from(s, j) - 1] == '\n',
        line_len_from(s, j) < s.len() ==> line_len_from(s, j) > j,
    decreases s.len() - j,
{
    if j < s.len() && s[j as int] != '\n' {
        lemma_line_len_from(s, j + 1);
    }
}

/// The span of a line comment at the start of `rest`.
fn comment_line(rest: &str) -> (r: Option<(usize, usize)>)
    ensures
        span_view(r) == comment_line_span(rest@),
        r matches Some((a, b)) ==> valid_span(rest@, a as int, b as int),
        r matches Some((a, b)) ==> a == 0 && a < b,
{
    let head = chars_prefix(rest, 2);
    if head.len() == 2 && head[0] == '/' && head[1] == '/' {
        let n = line_length(rest);
        proof {
            lemma_line_len_from(rest@, 0);
        }
        prefix_span(rest, n)
    } else {
        None
    }
}

/// Whether `v` is the word `START`.
fn is_start_word(v: &str) -> (r: bool)
    ensures
        r == (v@ == "START"@),
{
    proof {
        reveal_strlit("START");
    }
    let c = chars_prefix(v, 6);
    let r = c.len() == 5 && c[0] == 'S' && c[1] == 'T' && c[2] == 'A' && c[3] == 'R' && c[4] == 'T';
    proof {
        if c@.len() == 5 {
            assert(c@ =~= v@);
        }
        if r {
            assert(v@ =~= "START"@);
        }
    }
    r
}

/// The span of the first match of `pattern` in `rest`.
fn regex_match(pattern: &str, rest: &str) -> (r: Option<(usize, usize)>)
    ensures
        span_view(r) == regex_span(pattern, rest@),
        r matches Some((a, b)) ==> valid_span(rest@, a as int, b as int),
        anchored_pattern(pattern@) ==> (r matches Some((a, b)) ==> a == 0 && a < b),
{
    regex_find(pattern, rest)
}

/// The span of a comment name, given the span of the identifier that
/// starts `rest`: the identifier is a comment name unless it is `START`.
pub open spec fn comment_name_of(s: Seq<char>, m: Option<(int, int)>) -> Option<(int, int)> {
    match m {
        Some((a, b)) => if span_chars(s, a, b) == "START"@ {
            None
        } else {
            Some((a, b))
        },
        None => None,
    }
}

/// The span of a comment name, given the span `m` of the identifier found at
/// the start of `rest`.
pub fn comment_name_from_match(rest: &str, m: Option<(usize, usize)>) -> (r: Option<(usize, usize)>)
    requires
        m matches Some((a, b)) ==> valid_span(rest@, a as int, b as int),
    ensures
        span_view(r) == comment_name_of(rest@, span_view(m)),
        r == m || r is None,
{
    match m {
        Some((a, b)) => {
            let v = crate::text::str_slice(rest, a, b);
            if is_start_word(v) {
                None
            } else {
                Some((a, b))
            }
        },
        None => None,
    }
}

/// The span of a comment name at the start of `rest`.
fn comment_name(rest: &str) -> (r: Option<(usize, usize)>)
    ensures
        span_view(r) == comment_name_span(rest@),
        r matches Some((a, b)) ==> valid_span(rest@, a as int, b as int),
        r matches Some((a, b)) ==> a == 0 && a < b,
{
    let m = regex_find(RE_ID, rest);
    comment_name_from_match(rest, m)
}

/// The span of the token of kind `kind` at the start of `rest`, where `prev`
/// is the character before `rest`.
pub fn recognize(kind: TokenKind, prev: char, rest: &str) -> (r: Option<(usize, usize)>)
    ensures
        span_view(r) == recognize_spec(kind, prev, rest@),
        r matches Some((a, b)) ==> valid_span(rest@, a as int, b as int),
        r matches Some((a, b)) ==> a == 0 && (kind != TokenKind::STOP ==> a < b),
{
    match kind {
        TokenKind::STOP => {
            if rest.is_empty() {
                proof {
                    vstd::utf8::encode_utf8_valid_utf8(rest@);
                }
                Some((0, 0))
            } else {
                None
            }
        },
        TokenKind::OBrace => {
            proof {
                reveal_strlit("{");
            }
            keyword("{", prev, rest)
        },
        TokenKind::CBrace => {
            proof {
                reveal_strlit("}");
            }
            keyword("}", prev, rest)
        },
        TokenKind::ComponentKW => {
            proof {
                reveal_strlit("component");
            }
            keyword("component", prev, rest)
        },
        TokenKind::ConfigurationKW => {
            proof {
                reveal_strlit("configuration");
            }
            keyword("configuration", prev, rest)
        },
        TokenKind::CodeKW => {
            proof {
                reveal_strlit("CODE");
            }
            keyword("CODE", prev, rest)
        },
        TokenKind::EndCodeKW => {
            proof {
                reveal_strlit("ENDCODE");
            }
            keyword("ENDCODE", prev, rest)
        },
        TokenKind::TillEndCodeKW => {
            let lits = vec!["ENDCODE"];
            let ghost v = lits@;
            let r = until(lits, prev, rest);
            assert(v.map_values(|l: &str| l@) =~= end_code_words());
            r
        },
        TokenKind::ModelKW => {
            proof {
                reveal_strlit("model");
            }
            keyword("model", prev, rest)
        },
        TokenKind::LibraryKW => {
            proof {
                reveal_strlit("library");
            }
            keyword("library", prev, rest)
        },
        TokenKind::ID => regex_match(RE_ID, rest),
        TokenKind::Name => regex_match(RE_NAME, rest),
        TokenKind::CommentLine => comment_line(rest),
        TokenKind::CommentName => comment_name(rest),
        TokenKind::OComment => {
            proof {
                reveal_strlit("/*");
            }
            keyword("/*", prev, rest)
        },
        TokenKind::CComment => {
            proof {
                reveal_strlit("*/");
            }
            keyword("*/", prev, rest)
        },
        TokenKind::NotComment => {
            let lits = vec!["//", "/*", "*/"];
            let ghost v = lits@;
            let r = until(lits, prev, rest);
            assert(v.map_values(|l: &str| l@) =~= not_comment_words());
            r
        },
        TokenKind::ModelProperty => regex_match(RE_MODEL_PROPERTY, rest),
        TokenKind::ConfigurationProperty => regex_match(RE_CONFIGURATION_PROPERTY, rest),
        TokenKind::WS => regex_match(RE_WS, rest),
        TokenKind::Anything => {
            let lits = vec![
                "//",
                "/*",
                "{",
                "}",
                "\"",
                "'",
                "component",
                "model",
                "library",
                "CODE",
                "ENDCODE",
                "comment",
                "START",
                "ENDCOMMENT",
            ];
            let ghost v = lits@;
            let r = until(lits, prev, rest);
            assert(v.map_values(|l: &str| l@) =~= anything_words());
            r
        },
        TokenKind::String => regex_match(RE_STRING, rest),
        TokenKind::CommentKW => {
            proof {
                reveal_strlit("comment");
            }
            keyword("comment", prev, rest)
        },
        TokenKind::StartCommentKW => {
            proof {
                reveal_strlit("START");
            }
            keyword("START", prev, rest)
        },
        TokenKind::EndCommentKW => {
            proof {
                reveal_strlit("ENDCOMMENT");
            }
            keyword("ENDCOMMENT", prev, rest)
        },
        TokenKind::TillEndCommentKW => {
            let lits = vec!["ENDCOMMENT"];
            let ghost v = lits@;
            let r = until(lits, prev, rest);
            assert(v.map_values(|l: &str| l@) =~= end_comment_words());
            r
        },
    }
}

/// The lexing context: where the lexer stands in the input.
pub struct Ctx<'i> {
    /// Byte offset of the current position.
    pub position: usize,
    /// Line/column location of the current position.
    pub location: SourceLocation,
    /// The layout skipped before the token ahead, if any.
    pub layout_ahead: Option<&'i str>,
}

/// A token found in the input.
pub struct Token<'i> {
    pub kind: TokenKind,
    /// The part of the input that the token stands for.
    pub value: &'i str,
    /// Where the token is, by byte offsets.
    pub location: SourceLocation,
}

/// The lexer of the outline grammar.
pub struct OutlinerLexer();

/// The layout at byte offset `p` of `input`: its leading whitespace.
pub open spec fn skipped_layout(input: &str, p: int) -> Seq<char> {
    let rest = chars_from(input, p);
    rest.take(ws_run(rest) as int)
}

/// The byte offset after the layout at `p`.
pub open spec fn position_after_layout(input: &str, p: int) -> int {
    p + utf8_len(skipped_layout(input, p))
}

/// The character before byte offset `p` of `input`, or a space at its start.
pub open spec fn prev_char(input: &str, p: int) -> char {
    let before = chars_before(input, p);
    if before.len() > 0 {
        before.last()
    } else {
        ' '
    }
}

/// The context can be used on `input`: its position is a character boundary,
/// its location is line/column based and reading the layout ahead does not
/// overflow the line or column counters.
pub open spec fn ctx_ready(c: Ctx, input: &str) -> bool {
    &&& is_char_boundary(input.spec_bytes(), c.position as int)
    &&& is_line_based(c.location)
    &&& advance_fits(skipped_layout(input, c.position as int), c.location)
}

/// The context after skipping the layout at its position.
pub open spec fn skipped(before: Ctx, after: Ctx, input: &str) -> bool {
    let p = before.position as int;
    let layout = skipped_layout(input, p);
    let q = position_after_layout(input, p);
    &&& after.position == q
    &&& after.location == location_after_spec(layout, before.location)
    &&& (layout.len() == 0 ==> after.layout_ahead is None)
    &&& (layout.len() > 0 ==> (after.layout_ahead matches Some(l) && l@ == layout
        && l.spec_bytes() == input.spec_bytes().subrange(p, q)))
}

/// The tokens recognized, in the order of `kinds`, with their spans in `rest`.
pub open spec fn expected_tokens(kinds: Seq<(TokenKind, bool)>, prev: char, rest: Seq<char>) -> Seq<(TokenKind, int, int)>
    decreases kinds.len(),
{
    if kinds.len() == 0 {
        seq![]
    } else {
        let e = expected_tokens(kinds.drop_last(), prev, rest);
        let kind = kinds.last().0;
        match recognize_spec(kind, prev, rest) {
            Some((a, b)) => e.push((kind, a, b)),
            None => e,
        }
    }
}

/// The token described by `e` (kind and span) starts at the current position
/// and, unless it is the end of the input, is not empty.
pub open spec fn starts_here(e: (TokenKind, int, int)) -> bool {
    e.1 == 0 && (e.0 != TokenKind::STOP ==> e.1 < e.2)
}

/// `t` is the token described by `e` (kind and span), found at byte offset `p` of `input`.
pub open spec fn token_matches(t: Token, e: (TokenKind, int, int), input: &str, p: int) -> bool {
    &&& t.kind == e.0
    &&& t.value.spec_bytes() == input.spec_bytes().subrange(p + e.1, p + e.2)
    &&& t.value@ == span_chars(chars_from(input, p), e.1, e.2)
    &&& t.location == SourceLocation {
        start: Position::Position(p as usize),
        end: Some(Position::Position((p + e.2 - e.1) as usize)),
    }
}

/// The span of `e` is a span of character boundaries of the text from byte
/// offset `p` of `input` on, and lies inside `input`.
pub open spec fn within_input(e: (TokenKind, int, int), input: &str, p: int) -> bool {
    &&& valid_span(chars_from(input, p), e.1, e.2)
    &&& 0 <= p + e.1
    &&& p + e.2 <= input.spec_bytes().len()
}

/// `r` are the tokens of the kinds `kinds` found at byte offset `p` of
/// `input`, in the order of `kinds`: each starts at `p`, lies inside the
/// input, has as many bytes as its span, and, unless it is the end of the
/// input, is not empty.
pub open spec fn tokens_found(r: Seq<Token>, kinds: Seq<(TokenKind, bool)>, input: &str, p: int) -> bool {
    let e = expected_tokens(kinds, prev_char(input, p), chars_from(input, p));
    &&& r.len() == e.len()
    &&& forall|k: int| 0 <= k < e.len() ==> token_matches(#[trigger] r[k], e[k], input, p)
    &&& forall|k: int| 0 <= k < e.len() ==> starts_here(#[trigger] e[k])
    &&& forall|k: int| 0 <= k < e.len() ==> within_input(#[trigger] e[k], input, p)
    &&& forall|k: int| 0 <= k < e.len() ==> (#[trigger] r[k]).value.spec_bytes().len() == e[k].2 - e[k].1
}

/// The context passes the run-time checks of `next_tokens_checked`: its
/// position is a character boundary of `input`, its location is line/column
/// based, and adding the length of `input` in bytes overflows neither its
/// line nor its column.
pub open spec fn ctx_checkable(c: Ctx, input: &str) -> bool {
    let lc = reference_position(c.location)->LineBased_0;
    &&& is_char_boundary(input.spec_bytes(), c.position as int)
    &&& is_line_based(c.location)
    &&& lc.line + input.spec_bytes().len() <= usize::MAX
    &&& lc.column + input.spec_bytes().len() <= usize::MAX
}

/// A context that passes the run-time checks can be used on the input: the
/// layout ahead has no more line feeds, and no more bytes, than the input.
pub proof fn lemma_ctx_ready(c: Ctx, input: &str)
    requires
        ctx_checkable(c, input),
    ensures
        ctx_ready(c, input),
{
    let bytes = input.spec_bytes();
    let p = c.position as int;
    let rest = chars_from(input, p);
    let layout = skipped_layout(input, p);
    encode_utf8_valid_utf8(input@);
    crate::text::lemma_boundary_in_range(bytes, p);
    let tail = bytes.subrange(p, bytes.len() as int);
    vstd::utf8::valid_utf8_split(bytes, p);
    vstd::utf8::decode_utf8_encode_utf8(tail);
    assert(utf8_len(rest) == tail.len());
    lemma_ws_run_from(rest, 0);
    lemma_utf8_len_take(rest, ws_run(rest) as int);
    crate::text::lemma_chars_le_bytes(layout);
    crate::location::lemma_newline_count_le_len(layout);
}

/// The token of kind `kind` whose value is the bytes `a..b` of `rest`, where
/// `rest` starts at the byte offset `pos` of the input.
pub fn make_token<'i>(kind: TokenKind, rest: &'i str, pos: usize, a: usize, b: usize) -> (t: Token<'i>)
    requires
        valid_span(rest@, a as int, b as int),
        pos + utf8_len(rest@) <= usize::MAX,
    ensures
        t.kind == kind,
        t.value.spec_bytes() =~= rest.spec_bytes().subrange(a as int, b as int),
        t.value@ == span_chars(rest@, a as int, b as int),
        t.location == (SourceLocation {
            start: Position::Position(pos),
            end: Some(Position::Position((pos + b - a) as usize)),
        }),
{
    let value = crate::text::str_slice(rest, a, b);
    proof {
        encode_utf8_valid_utf8(rest@);
        crate::text::lemma_boundary_in_range(rest.spec_bytes(), b as int);
    }
    Token {
        kind,
        value,
        location: SourceLocation {
            start: Position::Position(pos),
            end: Some(Position::Position(pos + (b - a))),
        },
    }
}

impl OutlinerLexer {
    pub fn new() -> Self {
        OutlinerLexer()
    }

    /// Skips the whitespace at the position of `context`, records it as the
    /// layout ahead and moves the position and the location past it.
    fn skip<'i>(&self, context: &mut Ctx<'i>, input: &'i str)
        requires
            ctx_ready(*old(context), input),
        ensures
            skipped(*old(context), *final(context), input),
            is_char_boundary(input.spec_bytes(), final(context).position as int),
    {
        let ghost p = context.position as int;
        let (before, rest) = split_str(input, context.position);
        proof {
            lemma_split_views(input, p, before, rest);
        }
        let ws = leading_whitespace(rest);
        let n = ws.len();
        proof {
            lemma_ws_run_from(rest@, 0);
        }
        let (layout, after) = split_after_chars(rest, &ws, n);
        let skipped_len = str_byte_len(layout);
        let total = str_byte_len(input);
        let remaining = str_byte_len(after);
        proof {
            let layout_chars = rest@.take(n as int);
            assert(input@ == before@ + rest@);
            crate::text::lemma_utf8_len_concat(before@, rest@);
            lemma_utf8_len_take(rest@, n as int);
            encode_utf8_valid_utf8(input@);
            // the new position is the boundary after `before + layout`
            assert(before@ + layout_chars + rest@.skip(n as int) =~= input@);
            assert(before@ + rest@ =~= input@);
            crate::text::lemma_utf8_len_concat(before@, layout_chars);
            crate::text::lemma_boundary_after_prefix(before@ + layout_chars, rest@.skip(n as int));
            assert((before@ + layout_chars) + rest@.skip(n as int) =~= input@);
            crate::text::lemma_encode_concat(before@, rest@);
            assert(layout.spec_bytes() =~= input.spec_bytes().subrange(p, p + skipped_len));
        }
        if skipped_len > 0 {
            context.layout_ahead = Some(layout);
            context.position = total - remaining;
        } else {
            context.layout_ahead = None;
        }
        context.location = location_after(&ws, context.location);
    }

    /// Skips the layout at the position of `c`, then returns the tokens of
    /// the kinds `token_kinds` that are found at the new position, in the
    /// order of `token_kinds`.
    pub fn next_tokens<'i>(&self, c: &mut Ctx<'i>, i: &'i str, token_kinds: Vec<(TokenKind, bool)>) -> (r: Vec<Token<'i>>)
        requires
            ctx_ready(*old(c), i),
        ensures
            skipped(*old(c), *final(c), i),
            is_char_boundary(i.spec_bytes(), final(c).position as int),
            tokens_found(r@, token_kinds@, i, final(c).position as int),
    {
        self.skip(c, i);
        let pos = c.position;
        let (before, rest) = split_str(i, pos);
        proof {
            lemma_split_views(i, pos as int, before, rest);
        }
        let prev = match last_char(before) {
            Some(ch) => ch,
            None => ' ',
        };
        let total = str_byte_len(i);
        proof {
            crate::text::lemma_utf8_len_concat(before@, rest@);
        }
        let ghost kinds = token_kinds@;
        let ghost rest_chars = rest@;
        let mut r: Vec<Token<'i>> = Vec::new();
        let mut k: usize = 0;
        while k < token_kinds.len()
            invariant
                k <= kinds.len(),
                kinds == token_kinds@,
                rest_chars == rest@,
                rest@ == chars_from(i, pos as int),
                prev == prev_char(i, pos as int),
                rest.spec_bytes() =~= i.spec_bytes().subrange(pos as int, i.spec_bytes().len() as int),
                total == i.spec_bytes().len(),
                pos <= total,
                ({
                    let e = expected_tokens(kinds.take(k as int), prev, rest@);
                    &&& r@.len() == e.len()
                    &&& forall|j: int| 0 <= j < e.len() ==> token_matches(#[trigger] r@[j], e[j], i, pos as int)
                    &&& forall|j: int| 0 <= j < e.len() ==> starts_here(#[trigger] e[j])
                    &&& forall|j: int| 0 <= j < e.len() ==> within_input(#[trigger] e[j], i, pos as int)
                    &&& forall|j: int| 0 <= j < e.len() ==> (#[trigger] r@[j]).value.spec_bytes().len() == e[j].2 - e[j].1
                }),
            decreases kinds.len() - k,
        {
            let kind = token_kinds[k].0;
            proof {
                assert(kinds.take(k + 1).drop_last() =~= kinds.take(k as int));
                assert(kinds.take(k + 1).last() == kinds[k as int]);
            }
            match recognize(kind, prev, rest) {
                Some((a, b)) => {
                    let token = make_token(kind, rest, pos, a, b);
                    proof {
                        encode_utf8_valid_utf8(rest@);
                        crate::text::lemma_boundary_in_range(rest.spec_bytes(), b as int);
                        assert(token.value.spec_bytes() =~= i.spec_bytes().subrange(pos + a, pos + b));
                    }
                    let ghost old_r = r@;
                    r.push(token);
                    proof {
                        let e = expected_tokens(kinds.take(k + 1), prev, rest@);
                        let e0 = expected_tokens(kinds.take(k as int), prev, rest@);
                        assert(e == e0.push((kind, a as int, b as int)));
                        assert(token_matches(token, (kind, a as int, b as int), i, pos as int));
                        assert forall|j: int| 0 <= j < e.len() implies token_matches(#[trigger] r@[j], e[j], i, pos as int) by {
                            if j < e0.len() {
                                assert(r@[j] == old_r[j]);
                            }
                        }
                        assert forall|j: int| 0 <= j < e.len() implies starts_here(#[trigger] e[j]) by {
                            if j < e0.len() {
                                assert(e[j] == e0[j]);
                            }
                        }
                        assert forall|j: int| 0 <= j < e.len() implies within_input(#[trigger] e[j], i, pos as int) by {
                            if j < e0.len() {
                                assert(e[j] == e0[j]);
                            }
                        }
                        assert forall|j: int| 0 <= j < e.len() implies (#[trigger] r@[j]).value.spec_bytes().len() == e[j].2 - e[j].1 by {
                            if j < e0.len() {
                                assert(e[j] == e0[j]);
                                assert(r@[j] == old_r[j]);
                            }
                        }
                    }
                },
                None => {},
            }
            k = k + 1;
        }
        proof {
            assert(kinds.take(kinds.len() as int) =~= kinds);
        }
        r
    }

    /// Checks that the context can be used on `i`, then does what
    /// `next_tokens` does. When the position is not a character boundary of
    /// `i`, the location is not line/column based, or adding the length of
    /// `i` could overflow the line or the column, returns `None` and leaves
    /// the context as it is.
    pub fn next_tokens_checked<'i>(&self, c: &mut Ctx<'i>, i: &'i str, token_kinds: Vec<(TokenKind, bool)>) -> (r: Option<Vec<Token<'i>>>)
        ensures
            r is Some <==> ctx_checkable(*old(c), i),
            r is None ==> *final(c) == *old(c),
            r matches Some(ts) ==> skipped(*old(c), *final(c), i) && is_char_boundary(i.spec_bytes(), final(c).position as int)
                && tokens_found(ts@, token_kinds@, i, final(c).position as int),
    {
        let n = str_byte_len(i);
        let reference = match c.location.end {
            Some(e) => e,
            None => c.location.start,
        };
        let fits = match reference {
            Position::LineBased(lc) => lc.line <= usize::MAX - n && lc.column <= usize::MAX - n,
            Position::Position(_) => false,
        };
        if fits && i.is_char_boundary(c.position) {
            proof {
                lemma_ctx_ready(*c, i);
            }
            Some(self.next_tokens(c, i, token_kinds))
        } else {
            None
        }
    }
}

} // verus!
