use typhoondsl_outliner::lexer::{
    comment_name_from_match, make_token, recognize, Ctx, OutlinerLexer, Token, TokenKind,
};
use typhoondsl_outliner::location::{LineColumn, Position, SourceLocation};

fn lc(line: usize, column: usize) -> Position {
    Position::LineBased(LineColumn { line, column })
}

fn ctx_at<'i>(position: usize) -> Ctx<'i> {
    Ctx {
        position,
        location: SourceLocation { start: lc(1, position), end: None },
        layout_ahead: None,
    }
}

fn lex<'i>(input: &'i str, position: usize, kinds: &[TokenKind]) -> (Ctx<'i>, Vec<Token<'i>>) {
    let lexer = OutlinerLexer::new();
    let mut ctx = ctx_at(position);
    let tokens = lexer.next_tokens(&mut ctx, input, kinds.iter().map(|k| (*k, false)).collect());
    (ctx, tokens)
}

fn values<'i>(tokens: &[Token<'i>]) -> Vec<(TokenKind, &'i str)> {
    tokens.iter().map(|t| (t.kind, t.value)).collect()
}

#[test]
fn keyword_after_layout() {
    let (ctx, tokens) = lex("  \n model foo {", 0, &[TokenKind::ModelKW]);
    assert_eq!(ctx.position, 4);
    assert_eq!(ctx.layout_ahead, Some("  \n "));
    assert_eq!(ctx.location, SourceLocation { start: lc(2, 1), end: None });
    assert_eq!(values(&tokens), vec![(TokenKind::ModelKW, "model")]);
    assert_eq!(
        tokens[0].location,
        SourceLocation { start: Position::Position(4), end: Some(Position::Position(9)) }
    );
}

#[test]
fn skip_without_layout_keeps_position() {
    let lexer = OutlinerLexer::new();
    let mut ctx = Ctx {
        position: 0,
        location: SourceLocation { start: lc(1, 0), end: Some(lc(3, 4)) },
        layout_ahead: Some("old"),
    };
    let tokens = lexer.next_tokens(&mut ctx, "x", vec![]);
    assert!(tokens.is_empty());
    assert_eq!(ctx.position, 0);
    assert_eq!(ctx.layout_ahead, None);
    // the location moves to the reference position, its end
    assert_eq!(ctx.location, SourceLocation { start: lc(3, 4), end: None });
}

#[test]
fn skip_counts_bytes_of_wide_whitespace() {
    // U+3000 IDEOGRAPHIC SPACE is whitespace and takes three bytes
    let input = "\u{3000}\u{3000}x";
    let (ctx, tokens) = lex(input, 0, &[TokenKind::ID]);
    assert_eq!(ctx.position, 6);
    assert_eq!(ctx.layout_ahead, Some("\u{3000}\u{3000}"));
    assert_eq!(ctx.location, SourceLocation { start: lc(1, 6), end: None });
    assert_eq!(values(&tokens), vec![(TokenKind::ID, "x")]);
}

#[test]
fn skip_column_after_last_line_feed() {
    let (ctx, _) = lex("\n\n \t x", 0, &[]);
    assert_eq!(ctx.position, 5);
    assert_eq!(ctx.location, SourceLocation { start: lc(3, 3), end: None });
}

#[test]
fn skip_is_idempotent() {
    let lexer = OutlinerLexer::new();
    let input = "   component";
    let mut ctx = ctx_at(0);
    lexer.next_tokens(&mut ctx, input, vec![]);
    assert_eq!(ctx.position, 3);
    let location = ctx.location;
    lexer.next_tokens(&mut ctx, input, vec![]);
    assert_eq!(ctx.position, 3);
    assert_eq!(ctx.layout_ahead, None);
    assert_eq!(ctx.location, location);
}

#[test]
fn stop_only_at_end() {
    let (_, tokens) = lex("   ", 0, &[TokenKind::STOP]);
    assert_eq!(values(&tokens), vec![(TokenKind::STOP, "")]);
    assert_eq!(
        tokens[0].location,
        SourceLocation { start: Position::Position(3), end: Some(Position::Position(3)) }
    );
    let (_, tokens) = lex("  a", 0, &[TokenKind::STOP]);
    assert!(tokens.is_empty());
}

#[test]
fn keywords_match_whole_words_only() {
    let (_, tokens) = lex("models", 0, &[TokenKind::ModelKW]);
    assert!(tokens.is_empty());
    let (_, tokens) = lex("xmodel", 1, &[TokenKind::ModelKW]);
    assert!(tokens.is_empty());
    let (_, tokens) = lex("-model", 1, &[TokenKind::ModelKW]);
    assert!(tokens.is_empty());
    let (_, tokens) = lex("\u{fc}model", 2, &[TokenKind::ModelKW]);
    assert!(tokens.is_empty());
    let (_, tokens) = lex(".model{", 1, &[TokenKind::ModelKW]);
    assert_eq!(values(&tokens), vec![(TokenKind::ModelKW, "model")]);
    assert_eq!(
        tokens[0].location,
        SourceLocation { start: Position::Position(1), end: Some(Position::Position(6)) }
    );
    let (_, tokens) = lex("model", 0, &[TokenKind::ModelKW]);
    assert_eq!(values(&tokens), vec![(TokenKind::ModelKW, "model")]);
}

#[test]
fn punctuation_keywords_need_no_boundary() {
    let (_, tokens) = lex("a{b", 1, &[TokenKind::OBrace, TokenKind::CBrace]);
    assert_eq!(values(&tokens), vec![(TokenKind::OBrace, "{")]);
    let (_, tokens) = lex("x}", 1, &[TokenKind::CBrace]);
    assert_eq!(values(&tokens), vec![(TokenKind::CBrace, "}")]);
    let (_, tokens) = lex("/* c */", 0, &[TokenKind::OComment, TokenKind::CComment]);
    assert_eq!(values(&tokens), vec![(TokenKind::OComment, "/*")]);
    let (_, tokens) = lex("*/", 0, &[TokenKind::CComment]);
    assert_eq!(values(&tokens), vec![(TokenKind::CComment, "*/")]);
}

#[test]
fn all_keywords() {
    let cases = [
        ("component x", TokenKind::ComponentKW, "component"),
        ("configuration {", TokenKind::ConfigurationKW, "configuration"),
        ("CODE on_init", TokenKind::CodeKW, "CODE"),
        ("ENDCODE", TokenKind::EndCodeKW, "ENDCODE"),
        ("library lib", TokenKind::LibraryKW, "library"),
        ("comment c1", TokenKind::CommentKW, "comment"),
        ("START text", TokenKind::StartCommentKW, "START"),
        ("ENDCOMMENT", TokenKind::EndCommentKW, "ENDCOMMENT"),
    ];
    for (input, kind, value) in cases {
        let (_, tokens) = lex(input, 0, &[kind]);
        assert_eq!(values(&tokens), vec![(kind, value)]);
    }
}

#[test]
fn till_end_code() {
    let (_, tokens) = lex("x = 1\ny = 2\nENDCODE", 0, &[TokenKind::TillEndCodeKW]);
    assert_eq!(values(&tokens), vec![(TokenKind::TillEndCodeKW, "x = 1\ny = 2\n")]);
    let (_, tokens) = lex("ENDCODE", 0, &[TokenKind::TillEndCodeKW]);
    assert!(tokens.is_empty());
    // `ENDCODE` inside a word does not stop the text
    let (_, tokens) = lex("xENDCODE y", 0, &[TokenKind::TillEndCodeKW]);
    assert_eq!(values(&tokens), vec![(TokenKind::TillEndCodeKW, "xENDCODE y")]);
}

#[test]
fn till_end_comment() {
    let (_, tokens) = lex("some text ENDCOMMENT", 0, &[TokenKind::TillEndCommentKW]);
    assert_eq!(values(&tokens), vec![(TokenKind::TillEndCommentKW, "some text ")]);
}

#[test]
fn not_comment() {
    let (_, tokens) = lex("abc // c", 0, &[TokenKind::NotComment]);
    assert_eq!(values(&tokens), vec![(TokenKind::NotComment, "abc ")]);
    let (_, tokens) = lex("abc */", 0, &[TokenKind::NotComment]);
    assert_eq!(values(&tokens), vec![(TokenKind::NotComment, "abc ")]);
    let (_, tokens) = lex("/* x", 0, &[TokenKind::NotComment]);
    assert!(tokens.is_empty());
}

#[test]
fn anything_stops_at_its_words() {
    let (_, tokens) = lex("abc { d", 0, &[TokenKind::Anything]);
    assert_eq!(values(&tokens), vec![(TokenKind::Anything, "abc ")]);
    let (_, tokens) = lex("a = \"s\"", 0, &[TokenKind::Anything]);
    assert_eq!(values(&tokens), vec![(TokenKind::Anything, "a = ")]);
    let (_, tokens) = lex("x models y", 0, &[TokenKind::Anything]);
    assert_eq!(values(&tokens), vec![(TokenKind::Anything, "x models y")]);
    // `configuration` is not one of its words
    let (_, tokens) = lex("configuration = 1 }", 0, &[TokenKind::Anything]);
    assert_eq!(values(&tokens), vec![(TokenKind::Anything, "configuration = 1 ")]);
}

#[test]
fn anything_over_long_text() {
    let long = format!("{}{}", "a\u{e9}b ".repeat(100), "}");
    let (_, tokens) = lex(&long, 0, &[TokenKind::Anything]);
    assert_eq!(tokens.len(), 1);
    assert_eq!(tokens[0].value, &long[..long.len() - 1]);
    assert_eq!(
        tokens[0].location,
        SourceLocation { start: Position::Position(0), end: Some(Position::Position(long.len() - 1)) }
    );
    let plain = "word ".repeat(70);
    let (_, tokens) = lex(&plain, 0, &[TokenKind::Anything]);
    assert_eq!(values(&tokens), vec![(TokenKind::Anything, plain.as_str())]);
}

#[test]
fn comment_line() {
    let (_, tokens) = lex("// a comment\nnext", 0, &[TokenKind::CommentLine]);
    assert_eq!(values(&tokens), vec![(TokenKind::CommentLine, "// a comment\n")]);
    let (_, tokens) = lex("// last", 0, &[TokenKind::CommentLine]);
    assert_eq!(values(&tokens), vec![(TokenKind::CommentLine, "// last")]);
    let (_, tokens) = lex("/ not", 0, &[TokenKind::CommentLine]);
    assert!(tokens.is_empty());
}

#[test]
fn identifiers() {
    let (_, tokens) = lex("foo_bar baz", 0, &[TokenKind::ID]);
    assert_eq!(values(&tokens), vec![(TokenKind::ID, "foo_bar")]);
    let (_, tokens) = lex("1abc", 0, &[TokenKind::ID]);
    assert!(tokens.is_empty());
    let (_, tokens) = lex("\u{e9}t\u{e9} x", 0, &[TokenKind::ID]);
    assert_eq!(values(&tokens), vec![(TokenKind::ID, "\u{e9}t\u{e9}")]);
    assert_eq!(
        tokens[0].location,
        SourceLocation { start: Position::Position(0), end: Some(Position::Position(5)) }
    );
}

#[test]
fn comment_names() {
    let (_, tokens) = lex("START", 0, &[TokenKind::CommentName]);
    assert!(tokens.is_empty());
    let (_, tokens) = lex("STARTED x", 0, &[TokenKind::CommentName]);
    assert_eq!(values(&tokens), vec![(TokenKind::CommentName, "STARTED")]);
}

#[test]
fn names_and_strings() {
    let (_, tokens) = lex("\"a name\" rest", 0, &[TokenKind::Name, TokenKind::String]);
    assert_eq!(
        values(&tokens),
        vec![(TokenKind::Name, "\"a name\""), (TokenKind::String, "\"a name\"")]
    );
    let (_, tokens) = lex("a+b-c x", 0, &[TokenKind::Name, TokenKind::String]);
    assert_eq!(values(&tokens), vec![(TokenKind::Name, "a+b-c")]);
    let (_, tokens) = lex("'it' x", 0, &[TokenKind::String]);
    assert_eq!(values(&tokens), vec![(TokenKind::String, "'it'")]);
}

#[test]
fn properties() {
    let (_, tokens) = lex("model  = x", 0, &[TokenKind::ModelProperty, TokenKind::ModelKW]);
    assert_eq!(
        values(&tokens),
        vec![(TokenKind::ModelProperty, "model  ="), (TokenKind::ModelKW, "model")]
    );
    let (_, tokens) = lex("configuration = y", 0, &[TokenKind::ConfigurationProperty]);
    assert_eq!(values(&tokens), vec![(TokenKind::ConfigurationProperty, "configuration =")]);
    let (_, tokens) = lex("model=", 0, &[TokenKind::ModelProperty]);
    assert!(tokens.is_empty());
}

#[test]
fn whitespace_token_never_follows_skipping() {
    let (_, tokens) = lex("   x", 0, &[TokenKind::WS]);
    assert!(tokens.is_empty());
}

#[test]
fn tokens_in_order_of_kinds() {
    let (_, tokens) = lex("model x", 0, &[TokenKind::ID, TokenKind::STOP, TokenKind::ModelKW, TokenKind::Name]);
    assert_eq!(
        values(&tokens),
        vec![(TokenKind::ID, "model"), (TokenKind::ModelKW, "model"), (TokenKind::Name, "model")]
    );
}

#[test]
fn recognize_spans() {
    assert_eq!(recognize(TokenKind::ComponentKW, ' ', "component x"), Some((0, 9)));
    assert_eq!(recognize(TokenKind::ComponentKW, 'a', "component x"), None);
    assert_eq!(recognize(TokenKind::Anything, ' ', "\u{e9}\u{e9}{"), Some((0, 4)));
    assert_eq!(recognize(TokenKind::STOP, 'x', ""), Some((0, 0)));
    assert_eq!(recognize(TokenKind::ID, ' ', "abc def"), Some((0, 3)));
}

#[test]
fn make_token_from_span() {
    let rest = "ab\u{e9}cd";
    let t = make_token(TokenKind::Name, rest, 10, 1, 4);
    assert_eq!(t.kind, TokenKind::Name);
    assert_eq!(t.value, "b\u{e9}");
    assert_eq!(
        t.location,
        SourceLocation { start: Position::Position(10), end: Some(Position::Position(13)) }
    );
}

#[test]
fn comment_name_from_given_match() {
    assert_eq!(comment_name_from_match("START x", Some((0, 5))), None);
    assert_eq!(comment_name_from_match("STARTS x", Some((0, 6))), Some((0, 6)));
    assert_eq!(comment_name_from_match("x START", Some((2, 7))), None);
    assert_eq!(comment_name_from_match("abc", None), None);
}

#[test]
fn checked_lexing_matches_unchecked() {
    let lexer = OutlinerLexer::new();
    let mut checked = ctx_at(0);
    let tokens = lexer
        .next_tokens_checked(&mut checked, "  model x", vec![(TokenKind::ModelKW, false), (TokenKind::ID, false)])
        .expect("the context passes the checks");
    let (unchecked, expected) = lex("  model x", 0, &[TokenKind::ModelKW, TokenKind::ID]);
    assert_eq!(values(&tokens), values(&expected));
    assert_eq!(checked.position, unchecked.position);
    assert_eq!(checked.location, unchecked.location);
    assert_eq!(checked.layout_ahead, unchecked.layout_ahead);
}

#[test]
fn checked_lexing_refuses_position_inside_character() {
    let lexer = OutlinerLexer::new();
    let mut ctx = ctx_at(1);
    assert!(lexer.next_tokens_checked(&mut ctx, "\u{e9}x", vec![(TokenKind::ID, false)]).is_none());
    assert_eq!(ctx.position, 1);
    assert_eq!(ctx.location, SourceLocation { start: lc(1, 1), end: None });
    assert_eq!(ctx.layout_ahead, None);
}

#[test]
fn checked_lexing_refuses_offset_location() {
    let lexer = OutlinerLexer::new();
    let mut ctx = Ctx {
        position: 0,
        location: SourceLocation { start: lc(1, 0), end: Some(Position::Position(3)) },
        layout_ahead: Some("old"),
    };
    assert!(lexer.next_tokens_checked(&mut ctx, " x", vec![(TokenKind::ID, false)]).is_none());
    assert_eq!(ctx.layout_ahead, Some("old"));
    assert_eq!(ctx.location.end, Some(Position::Position(3)));
}

#[test]
fn checked_lexing_refuses_counter_overflow() {
    let lexer = OutlinerLexer::new();
    let mut ctx = Ctx {
        position: 0,
        location: SourceLocation { start: lc(usize::MAX, 0), end: None },
        layout_ahead: None,
    };
    assert!(lexer.next_tokens_checked(&mut ctx, "\n x", vec![(TokenKind::ID, false)]).is_none());
    assert_eq!(ctx.position, 0);
    let mut ctx = Ctx {
        position: 0,
        location: SourceLocation { start: lc(1, usize::MAX - 2), end: None },
        layout_ahead: None,
    };
    assert!(lexer.next_tokens_checked(&mut ctx, "ab", vec![(TokenKind::ID, false)]).is_some());
    assert_eq!(ctx.location, SourceLocation { start: lc(1, usize::MAX - 2), end: None });
}

#[test]
fn every_token_starts_at_the_position_and_is_not_empty() {
    let input = "x  model = \"a b\" rest";
    let kinds = [
        TokenKind::ModelKW,
        TokenKind::ModelProperty,
        TokenKind::ID,
        TokenKind::Name,
        TokenKind::NotComment,
    ];
    let (ctx, tokens) = lex(input, 1, &kinds);
    assert_eq!(ctx.position, 3);
    assert_eq!(tokens.len(), 5);
    for t in &tokens {
        assert_eq!(t.location.start, Position::Position(3));
        assert_eq!(t.location.end, Some(Position::Position(3 + t.value.len())));
        assert!(!t.value.is_empty());
        assert!(3 + t.value.len() <= input.len());
        assert!(input[3..].starts_with(t.value));
    }
    assert_eq!(tokens[1].value, "model =");
}

#[test]
fn identifier_keywords_need_word_boundaries() {
    let (_, tokens) = lex("modelX {", 0, &[TokenKind::ModelKW, TokenKind::ID]);
    assert_eq!(values(&tokens), vec![(TokenKind::ID, "modelX")]);
    let (_, tokens) = lex("model-x", 0, &[TokenKind::ModelKW]);
    assert!(tokens.is_empty());
    let (_, tokens) = lex("model{", 0, &[TokenKind::ModelKW]);
    assert_eq!(values(&tokens), vec![(TokenKind::ModelKW, "model")]);
    let (_, tokens) = lex("{x", 0, &[TokenKind::OBrace]);
    assert_eq!(values(&tokens), vec![(TokenKind::OBrace, "{")]);
}
