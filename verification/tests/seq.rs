use macro_workshop::seq::{parse_with_answers, try_seq, SeqError, SeqMacro, SynAnswers};
use macro_workshop::syntax::{Delimiter, TokenTree};

fn ident(s: &str) -> TokenTree {
    TokenTree::Ident(s.to_string())
}

fn punct(c: char, joint: bool) -> TokenTree {
    TokenTree::Punct { ch: c, joint }
}

fn lit(s: &str) -> TokenTree {
    TokenTree::Literal(s.to_string())
}

fn body() -> TokenTree {
    // { let x = f (N) ; }
    TokenTree::Group {
        delimiter: Delimiter::Brace,
        stream: vec![
            ident("let"),
            ident("x"),
            punct('=', false),
            ident("f"),
            TokenTree::Group {
                delimiter: Delimiter::Parenthesis,
                stream: vec![ident("N")],
                text: "(N)".to_string(),
            },
            punct(';', false),
        ],
        text: "{ let x = f (N) ; }".to_string(),
    }
}

fn input(range: Vec<TokenTree>) -> Vec<TokenTree> {
    let mut t = vec![ident("N"), ident("in")];
    t.extend(range);
    t.push(body());
    t
}

fn dots() -> Vec<TokenTree> {
    vec![punct('.', true), punct('.', false)]
}

#[test]
fn exclusive_range_repeats_the_body() {
    let mut r = vec![lit("0")];
    r.extend(dots());
    r.push(lit("4"));
    let t = input(r);
    let out = macro_workshop::seq::seq(&t).unwrap();
    assert_eq!(out.len(), 4 * 6);
    match &t[t.len() - 1] {
        TokenTree::Group { stream, .. } => {
            for (k, tok) in out.iter().enumerate() {
                assert!(std::ptr::eq(*tok, &stream[k % 6]));
            }
        }
        _ => unreachable!(),
    }
}

#[test]
fn inclusive_and_negative_ranges() {
    let mut r = vec![lit("0")];
    r.extend(dots());
    r.push(punct('=', false));
    r.push(lit("2"));
    assert_eq!(macro_workshop::seq::seq(&input(r)).unwrap().len(), 3 * 6);
    let mut r = vec![punct('-', false), lit("2")];
    r.extend(dots());
    r.push(lit("1"));
    assert_eq!(macro_workshop::seq::seq(&input(r)).unwrap().len(), 3 * 6);
}

#[test]
fn literal_forms_are_read_by_value() {
    let mut r = vec![lit("0x2")];
    r.extend(dots());
    r.push(lit("4i32"));
    let t = input(r);
    let m = SeqMacro::parse(&t).unwrap();
    assert_eq!((m.start, m.end), (2, 4));
    assert_eq!(m.var, "N");
    assert_eq!(m.block.len(), 6);
}

#[test]
fn empty_range_expands_to_nothing() {
    let mut r = vec![lit("4")];
    r.extend(dots());
    r.push(lit("0"));
    assert!(macro_workshop::seq::seq(&input(r)).unwrap().is_empty());
}

#[test]
fn parse_errors_carry_positions() {
    let ok_range = || {
        let mut r = vec![lit("0")];
        r.extend(dots());
        r.push(lit("2"));
        r
    };
    // a keyword is no loop variable
    let mut t = input(ok_range());
    t[0] = ident("in");
    assert_eq!(macro_workshop::seq::seq(&t).err(), Some(SeqError::ExpectedIdent(0)));
    // `in` missing
    let mut t = input(ok_range());
    t[1] = ident("of");
    assert_eq!(macro_workshop::seq::seq(&t).err(), Some(SeqError::ExpectedIn(1)));
    // a bound that is not an integer literal
    let mut t = input(ok_range());
    t[2] = lit("\"x\"");
    assert_eq!(macro_workshop::seq::seq(&t).err(), Some(SeqError::ExpectedInt(2)));
    // a bound too large for an i32
    let mut t = input(ok_range());
    t[2] = lit("99999999999");
    assert_eq!(macro_workshop::seq::seq(&t).err(), Some(SeqError::IntOutOfRange(2)));
    // `..` missing, or with its dots apart
    let mut t = input(ok_range());
    t[3] = punct('.', false);
    assert_eq!(macro_workshop::seq::seq(&t).err(), Some(SeqError::ExpectedDotDot(3)));
    // a group that is no block
    let mut t = input(ok_range());
    let last = t.len() - 1;
    t[last] = TokenTree::Group { delimiter: Delimiter::Parenthesis, stream: vec![], text: "()".to_string() };
    assert_eq!(macro_workshop::seq::seq(&t).err(), Some(SeqError::ExpectedBlock(6)));
    // a block that does not parse
    let mut t = input(ok_range());
    t[last] = TokenTree::Group { delimiter: Delimiter::Brace, stream: vec![ident("let")], text: "{ let }".to_string() };
    assert_eq!(macro_workshop::seq::seq(&t).err(), Some(SeqError::ExpectedBlock(6)));
    // no block at all
    let mut t = input(ok_range());
    t.pop();
    assert_eq!(macro_workshop::seq::seq(&t).err(), Some(SeqError::ExpectedBlock(6)));
    // a token after the block
    let mut t = input(ok_range());
    t.push(punct(';', false));
    assert_eq!(macro_workshop::seq::seq(&t).err(), Some(SeqError::UnexpectedToken(7)));
}

#[test]
fn inclusive_range_to_the_largest_i32_overflows() {
    let mut r = vec![lit("0")];
    r.extend(dots());
    r.push(punct('=', false));
    r.push(lit("2147483647"));
    assert!(try_seq(&input(r)).is_none());
    let mut r = vec![lit("2147483646")];
    r.extend(dots());
    r.push(lit("2147483647"));
    assert_eq!(try_seq(&input(r)).unwrap().unwrap().len(), 6);
}

#[test]
fn parse_leaves_tokens_after_the_block() {
    let mut r = vec![lit("0")];
    r.extend(dots());
    r.push(lit("2"));
    let mut t = input(r);
    t.push(punct(';', false));
    t.push(ident("f"));
    let m = SeqMacro::parse(&t).unwrap();
    assert_eq!(m.consumed, 7);
    assert_eq!((m.start, m.end), (0, 2));
    assert_eq!(macro_workshop::seq::seq(&t).err(), Some(SeqError::UnexpectedToken(7)));
    assert_eq!(try_seq(&t).unwrap().err(), Some(SeqError::UnexpectedToken(7)));
}

fn invisible(stream: Vec<TokenTree>, text: &str) -> TokenTree {
    TokenTree::Group { delimiter: Delimiter::Invisible, stream, text: text.to_string() }
}

#[test]
fn invisible_groups_are_read_through() {
    // `seq!(N in 0..$n $b)` with `$n:expr` = 4 and `$b:block`
    let t = vec![
        ident("N"),
        ident("in"),
        lit("0"),
        punct('.', true),
        punct('.', false),
        invisible(vec![lit("4")], "4"),
        invisible(vec![body()], "{ let x = f (N) ; }"),
    ];
    let m = SeqMacro::parse(&t).unwrap();
    assert_eq!((m.start, m.end, m.consumed), (0, 4, 7));
    assert_eq!(macro_workshop::seq::seq(&t).unwrap().len(), 4 * 6);
    // an empty invisible group after the block is no token
    let mut u = t;
    u.push(invisible(vec![], ""));
    assert_eq!(macro_workshop::seq::seq(&u).unwrap().len(), 4 * 6);
}

#[test]
fn parse_with_given_answers() {
    let mut r = vec![lit("a")];
    r.extend(dots());
    r.push(lit("b"));
    let t = input(r);
    let refs: Vec<&TokenTree> = t.iter().collect();
    let n = refs.len();
    let mut answers = SynAnswers {
        ident: vec![false; n],
        literal: vec![None; n],
        negated: vec![None; n],
        block: vec![false; n],
    };
    answers.ident[0] = true;
    answers.literal[2] = Some(Some(-1));
    answers.literal[5] = Some(Some(3));
    answers.block[6] = true;
    let p = parse_with_answers(&refs, &answers).unwrap();
    assert_eq!((p.start, p.end, p.inclusive, p.consumed), (-1, 3, false, 7));
    answers.literal[5] = Some(None);
    assert_eq!(parse_with_answers(&refs, &answers).err(), Some(SeqError::IntOutOfRange(5)));
    answers.literal[5] = Some(Some(3));
    answers.block[6] = false;
    assert_eq!(parse_with_answers(&refs, &answers).err(), Some(SeqError::ExpectedBlock(6)));
}
