use lang::scanner::{scan_all, Lexeme, LexemeKind, Scanner};

fn kinds(src: &str) -> Vec<LexemeKind> {
    scan_all(src).iter().map(|l| l.kind).collect()
}

fn texts(src: &str) -> Vec<&str> {
    scan_all(src).iter().map(|l| l.slice).collect()
}

#[test]
fn test_whitespace() {
    let src = "      ";

    let mut scanner = Scanner::new(src);

    let lex = scanner.next().unwrap();
    assert_eq!(lex.slice.len(), 6);
    assert_eq!(scanner.next(), None);
}

#[test]
fn test_tab() {
    let src = "\t\t\t\t\t\t";

    let mut scanner = Scanner::new(src);

    let lex = scanner.next().unwrap();
    assert_eq!(lex.slice.len(), 6);
    assert_eq!(scanner.next(), None);
}

#[test]
fn test_newline() {
    let src = "\n\r\r\n";

    let mut scanner = Scanner::new(src);

    assert_eq!(scanner.next().unwrap().kind, LexemeKind::NewlineLf);
    assert_eq!(scanner.next().unwrap().kind, LexemeKind::NewlineCr);
    assert_eq!(scanner.next().unwrap().kind, LexemeKind::NewlineCrlf);
    assert_eq!(scanner.next(), None);
}

#[test]
fn test_comment() {
    let src = "\n ; hello world\r";

    let mut scanner = Scanner::new(src);

    assert_eq!(scanner.next().unwrap().kind, LexemeKind::NewlineLf);
    assert_eq!(scanner.next().unwrap().kind, LexemeKind::Whitespace);
    let lex = scanner.next().unwrap();
    assert_eq!(lex.slice.len(), 13);
    assert_eq!(lex.kind, LexemeKind::Comment);
    assert_eq!(scanner.next().unwrap().kind, LexemeKind::NewlineCr);
}

#[test]
fn test_int() {
    let src = "123\n00013432500231";

    let mut scanner = Scanner::new(src);

    assert_eq!(scanner.next().unwrap().kind, LexemeKind::IntLit);
    scanner.next();
    assert_eq!(scanner.next().unwrap().kind, LexemeKind::IntLit);
    assert_eq!(scanner.next(), None);
}

#[test]
fn test_float() {
    let src = "0.1234\n0. 123432.0";

    let mut scanner = Scanner::new(src);

    assert_eq!(scanner.next().unwrap().kind, LexemeKind::FloatLit);
    scanner.next();
    assert_eq!(scanner.next().unwrap().kind, LexemeKind::FloatLit);
    scanner.next();
    assert_eq!(scanner.next().unwrap().kind, LexemeKind::FloatLit);
    assert_eq!(scanner.next(), None);
}

#[test]
fn test_string() {
    let src = "\"hello world\"\"hello \\\"frengels\\\"\"   \"hello unterminated";

    let mut scanner = Scanner::new(src);

    println!("{}", scanner.as_str());
    assert_eq!(scanner.next().unwrap().kind, LexemeKind::LString);
    println!("{}", scanner.as_str());
    assert_eq!(scanner.next().unwrap().kind, LexemeKind::StringContent);
    println!("{}", scanner.as_str());
    assert_eq!(scanner.next().unwrap().kind, LexemeKind::RString);
    println!("{}", scanner.as_str());

    assert_eq!(scanner.next().unwrap().kind, LexemeKind::LString);
    println!("{}", scanner.as_str());
    assert_eq!(scanner.next().unwrap().kind, LexemeKind::StringContent);
    assert_eq!(scanner.next().unwrap().kind, LexemeKind::RString);

    scanner.next();

    assert_eq!(scanner.next().unwrap().kind, LexemeKind::LString);
    assert_eq!(scanner.next().unwrap().kind, LexemeKind::StringContent);
    assert_eq!(scanner.next(), None);
}

#[test]
fn test_char() {
    let src = "#\\a #\\space #\\person-in-suit-levitating";

    let mut scanner = Scanner::new(src);

    assert_eq!(scanner.next().unwrap().kind, LexemeKind::CharLit);
    scanner.next();
    assert_eq!(scanner.next().unwrap().kind, LexemeKind::CharLit);
    scanner.next();
    assert_eq!(scanner.next().unwrap().kind, LexemeKind::CharLit);
    assert_eq!(scanner.next(), None);
}

#[test]
fn test_keyword() {
    let src = "#:hello-there #: #:that-was-an-empty-one";

    let mut scanner = Scanner::new(src);

    assert_eq!(scanner.next().unwrap().kind, LexemeKind::KeywordLit);
}

#[test]
fn slices_join_back_to_source() {
    let sources = [
        "",
        "(def (f x) (* x x)) ; square\r\n",
        "\"multi\nline\\\" string\" #t #true -> +12 -3.5x #:k #\\space é ü",
        "\"ends mid escape \\",
        "[{}] 1.2.3 #( 0. \t\t",
    ];
    for src in sources.iter() {
        let joined: String = texts(src).concat();
        assert_eq!(joined, *src);
        for text in texts(src) {
            assert!(!text.is_empty());
        }
    }
}

#[test]
fn scanning_ends_and_stays_ended() {
    let src = "(a b) ; c";
    let mut scanner = Scanner::new(src);
    let mut count = 0;
    while scanner.next().is_some() {
        count += 1;
        assert!(count <= src.len());
    }
    assert_eq!(count, 7);
    assert_eq!(scanner.next(), None);
    assert_eq!(scanner.as_str(), "");
}

#[test]
fn rescanning_gives_same_lexemes() {
    let src = "(print #:out file 5.4) \"s\\\"t\" ; done";
    let first: Vec<Lexeme> = scan_all(src);
    let mut scanner = Scanner::new(src);
    let second = scanner.collect_rest();
    assert_eq!(first, second);
    assert_eq!(first, scan_all(src));
}

#[test]
fn newline_styles_are_told_apart() {
    assert_eq!(
        kinds("\n\r\r\n"),
        vec![LexemeKind::NewlineLf, LexemeKind::NewlineCr, LexemeKind::NewlineCrlf]
    );
}

#[test]
fn comment_stops_before_newline() {
    let lexemes = scan_all("\n ; hello world\r");
    assert_eq!(lexemes.len(), 4);
    assert_eq!(lexemes[2].kind, LexemeKind::Comment);
    assert_eq!(lexemes[2].slice, "; hello world");
    assert_eq!(lexemes[3].kind, LexemeKind::NewlineCr);
}

#[test]
fn number_with_letters_is_one_identifier() {
    assert_eq!(kinds("123abc"), vec![LexemeKind::Identifier]);
    assert_eq!(texts("123abc"), vec!["123abc"]);
    assert_eq!(kinds("1.2x"), vec![LexemeKind::Identifier]);
    assert_eq!(texts("1.2x"), vec!["1.2x"]);
    assert_eq!(texts("1.2.3 x"), vec!["1.2.3", " ", "x"]);
}

#[test]
fn float_and_trailing_dot() {
    assert_eq!(kinds("0.1234"), vec![LexemeKind::FloatLit]);
    assert_eq!(kinds("0. "), vec![LexemeKind::FloatLit, LexemeKind::Whitespace]);
    assert_eq!(texts("0.)"), vec!["0.", ")"]);
    assert_eq!(kinds("0."), vec![LexemeKind::FloatLit]);
}

#[test]
fn escaped_quote_keeps_string_open() {
    let src = "\"hello \\\"frengels\\\"\"";
    assert_eq!(
        kinds(src),
        vec![LexemeKind::LString, LexemeKind::StringContent, LexemeKind::RString]
    );
    assert_eq!(texts(src)[1], "hello \\\"frengels\\\"");
}

#[test]
fn unterminated_string_ends_with_content() {
    assert_eq!(
        kinds("\"hello unterminated"),
        vec![LexemeKind::LString, LexemeKind::StringContent]
    );
    assert_eq!(
        texts("\"ends mid escape \\"),
        vec!["\"", "ends mid escape \\"]
    );
}

#[test]
fn escape_at_start_of_content_protects_quote() {
    assert_eq!(texts("\"\\\"a\""), vec!["\"", "\\\"a", "\""]);
}

#[test]
fn escaped_backslash_then_quote_closes() {
    assert_eq!(texts("\"a\\\\\"b"), vec!["\"", "a\\\\", "\"", "b"]);
    assert_eq!(
        kinds("\"a\\\\\"b"),
        vec![
            LexemeKind::LString,
            LexemeKind::StringContent,
            LexemeKind::RString,
            LexemeKind::Identifier
        ]
    );
}

#[test]
fn newlines_inside_string_are_lexemes() {
    assert_eq!(
        kinds("\"a\r\nb\nc\rd\""),
        vec![
            LexemeKind::LString,
            LexemeKind::StringContent,
            LexemeKind::NewlineCrlf,
            LexemeKind::StringContent,
            LexemeKind::NewlineLf,
            LexemeKind::StringContent,
            LexemeKind::NewlineCr,
            LexemeKind::StringContent,
            LexemeKind::RString
        ]
    );
    assert_eq!(texts("\"a\\\nb\""), vec!["\"", "a\\", "\n", "b", "\""]);
}

#[test]
fn booleans_are_exact() {
    assert_eq!(kinds("#t"), vec![LexemeKind::BoolLit]);
    assert_eq!(kinds("#f)"), vec![LexemeKind::BoolLit, LexemeKind::RParen]);
    assert_eq!(kinds("#true"), vec![LexemeKind::InvalidNumberSign]);
    assert_eq!(texts("#true-ish x"), vec!["#true-ish", " ", "x"]);
}

#[test]
fn empty_keyword() {
    assert_eq!(kinds("#:"), vec![LexemeKind::KeywordLit]);
    assert_eq!(texts("#:"), vec!["#:"]);
    assert_eq!(texts("#: x"), vec!["#:", " ", "x"]);
    assert_eq!(kinds("#:hello-there"), vec![LexemeKind::KeywordLit]);
}

#[test]
fn invalid_number_sign() {
    assert_eq!(kinds("#"), vec![LexemeKind::InvalidNumberSign]);
    assert_eq!(texts("#"), vec!["#"]);
    assert_eq!(texts("#xyz 1"), vec!["#xyz", " ", "1"]);
    assert_eq!(texts("#(a)"), vec!["#", "(", "a", ")"]);
}

#[test]
fn signs() {
    assert_eq!(kinds("+"), vec![LexemeKind::Identifier]);
    assert_eq!(texts("- 1"), vec!["-", " ", "1"]);
    assert_eq!(texts("+)"), vec!["+", ")"]);
    assert_eq!(kinds("-12"), vec![LexemeKind::IntLit]);
    assert_eq!(kinds("+1.5"), vec![LexemeKind::FloatLit]);
    assert_eq!(kinds("->foo"), vec![LexemeKind::Identifier]);
    assert_eq!(texts("-1x y"), vec!["-1x", " ", "y"]);
}

#[test]
fn structural_delimiters() {
    assert_eq!(
        kinds("()[]{}"),
        vec![
            LexemeKind::LParen,
            LexemeKind::RParen,
            LexemeKind::LBracket,
            LexemeKind::RBracket,
            LexemeKind::LBrace,
            LexemeKind::RBrace
        ]
    );
    assert_eq!(kinds(")"), vec![LexemeKind::RParen]);
}

#[test]
fn identifiers_and_non_ascii() {
    assert_eq!(texts("foo-bar(baz"), vec!["foo-bar", "(", "baz"]);
    assert_eq!(texts("é ü"), vec!["é", " ", "ü"]);
    assert_eq!(kinds("é"), vec![LexemeKind::Identifier]);
    assert_eq!(texts("  é"), vec!["  ", "é"]);
    assert_eq!(texts("a;é\nb"), vec!["a", ";é", "\n", "b"]);
}

#[test]
fn empty_source_has_no_lexemes() {
    assert!(scan_all("").is_empty());
    let mut scanner = Scanner::new("");
    assert_eq!(scanner.next(), None);
}

#[test]
fn as_str_shows_the_rest() {
    let mut scanner = Scanner::new("ab cd");
    scanner.next();
    assert_eq!(scanner.as_str(), " cd");
}
