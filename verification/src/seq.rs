//! `seq!(N in 0..4 { ... })`: repeats the statements of the block once for
//! every value of the range (`a..b`, or `a..=b`).
use vstd::prelude::*;
use vstd::string::StringExecFns;
use crate::syntax::{Delimiter, TokenTree};
use crate::text::string_eq_str;

verus! {

/// What `syn` makes of the text of an integer literal (a leading `-` allowed)
/// read as an `i32`: `None` when it is not an integer literal, `Some(None)`
/// when its value does not fit in an `i32`.
pub uninterp spec fn int_literal_value(text: Seq<char>) -> Option<Option<i32>>;

/// Whether `syn` reads the text as one identifier that is not a keyword.
pub uninterp spec fn accepted_as_ident(text: Seq<char>) -> bool;

/// Whether `syn` reads the text as a block: `{ statements }`.
pub uninterp spec fn accepted_as_block(text: Seq<char>) -> bool;

/// Parses `text` with `syn::parse_str::<syn::LitInt>` and reads the literal
/// with `LitInt::base10_parse::<i32>`.  Claims only that the outcome is a
/// function of the text, named [`int_literal_value`].
#[verifier::external_body]
fn read_int_literal(text: &str) -> (r: Option<Option<i32>>)
    ensures
        r == int_literal_value(text@),
{
    match syn::parse_str::<syn::LitInt>(text) {
        Ok(lit) => Some(lit.base10_parse::<i32>().ok()),
        Err(_) => None,
    }
}

/// Whether `syn::parse_str::<syn::Ident>` accepts the text.  Claims only that
/// the answer is a function of the text, named [`accepted_as_ident`].
#[verifier::external_body]
fn parses_as_ident(text: &str) -> (r: bool)
    ensures
        r == accepted_as_ident(text@),
{
    syn::parse_str::<syn::Ident>(text).is_ok()
}

/// Whether `syn::parse_str::<syn::Block>` accepts the text.  Claims only that
/// the answer is a function of the text, named [`accepted_as_block`].
#[verifier::external_body]
fn parses_as_block(text: &str) -> (r: bool)
    ensures
        r == accepted_as_block(text@),
{
    syn::parse_str::<syn::Block>(text).is_ok()
}

/// Why the input of `seq!` is refused; each error carries the position of the
/// offending token (the number of tokens when the input ended too early).
#[derive(Clone, Copy, Debug, PartialEq, Eq, Structural)]
pub enum SeqError {
    /// The loop variable is missing or is not an identifier.
    ExpectedIdent(usize),
    /// `in` is missing.
    ExpectedIn(usize),
    /// A bound of the range is not an integer literal.
    ExpectedInt(usize),
    /// A bound of the range does not fit in an `i32`.
    IntOutOfRange(usize),
    /// `..` is missing.
    ExpectedDotDot(usize),
    /// The block is missing or does not parse.
    ExpectedBlock(usize),
    /// A token follows the block.
    UnexpectedToken(usize),
}

/// The token trees with every invisible group replaced by its contents, at
/// any depth: `syn` reads through such groups (which `macro_rules!` makes
/// around the fragments it substitutes) when it looks for an identifier, a
/// punctuation character, a literal or a delimited group.
pub open spec fn flatten(ts: Seq<TokenTree>) -> Seq<TokenTree>
    decreases ts,
{
    if ts.len() == 0 {
        Seq::empty()
    } else {
        proof {
            assert(decreases_to!(ts => ts.drop_last()));
        }
        flatten(ts.drop_last()) + flatten_one(ts.last())
    }
}

/// One token tree with invisible groups replaced by their contents.
pub open spec fn flatten_one(t: TokenTree) -> Seq<TokenTree>
    decreases t,
{
    match t {
        TokenTree::Group { delimiter, stream, .. } => if delimiter == Delimiter::Invisible {
            proof {
                assert(decreases_to!(t => stream));
                assert(decreases_to!(stream => stream@));
            }
            flatten(stream@)
        } else {
            seq![t]
        },
        _ => seq![t],
    }
}

/// What `syn` answers about each token of a (flattened) input: whether an
/// identifier is one that is not a keyword; the `i32` value of a literal, and
/// of the literal with a `-` before it; whether a group parses as a block.
pub struct Answers {
    pub ident: Seq<bool>,
    pub literal: Seq<Option<Option<i32>>>,
    pub negated: Seq<Option<Option<i32>>>,
    pub block: Seq<bool>,
}

/// `syn`'s answers about each token (see [`Answers`]).
pub open spec fn syn_answers(t: Seq<TokenTree>) -> Answers {
    Answers {
        ident: Seq::new(
            t.len(),
            |k: int|
                match t[k] {
                    TokenTree::Ident(s) => accepted_as_ident(s@),
                    _ => false,
                },
        ),
        literal: Seq::new(
            t.len(),
            |k: int|
                match t[k] {
                    TokenTree::Literal(s) => int_literal_value(s@),
                    _ => None,
                },
        ),
        negated: Seq::new(
            t.len(),
            |k: int|
                match t[k] {
                    TokenTree::Literal(s) => int_literal_value("-"@ + s@),
                    _ => None,
                },
        ),
        block: Seq::new(
            t.len(),
            |k: int|
                match t[k] {
                    TokenTree::Group { text, .. } => accepted_as_block(text@),
                    _ => false,
                },
        ),
    }
}

/// Reads an integer literal (with an optional leading `-`) at position `p`:
/// the position after it and its value.
pub open spec fn spec_read_int(t: Seq<TokenTree>, a: Answers, p: int) -> Result<(int, i32), SeqError> {
    let (next, value) = if p < t.len() && t[p] is Literal {
        (p + 1, a.literal[p])
    } else if p + 1 < t.len() && punct_is(t[p], '-') && t[p + 1] is Literal {
        (p + 2, a.negated[p + 1])
    } else {
        (p, None)
    };
    match value {
        None => Err(SeqError::ExpectedInt(p as usize)),
        Some(None) => Err(SeqError::IntOutOfRange(p as usize)),
        Some(Some(v)) => Ok((next, v)),
    }
}

/// The parts of `seq!`'s input: `var in start..end { body }` or
/// `var in start..=end { body }`; the body is the group at `body_at`.
pub struct SeqHeader {
    pub var: Seq<char>,
    pub start: i32,
    pub end: i32,
    pub inclusive: bool,
    pub body_at: int,
}

/// The token is the punctuation character `c`.
pub open spec fn punct_is(t: TokenTree, c: char) -> bool {
    match t {
        TokenTree::Punct { ch, .. } => ch == c,
        _ => false,
    }
}

/// `t[p]` is `..`: two dots, the first glued to the second.
pub open spec fn is_dot_dot(t: Seq<TokenTree>, p: int) -> bool {
    &&& p + 1 < t.len()
    &&& punct_is(t[p], '.')
    &&& t[p]->joint
    &&& punct_is(t[p + 1], '.')
}

/// `t[p]` is `=`.
pub open spec fn is_eq(t: Seq<TokenTree>, p: int) -> bool {
    p < t.len() && punct_is(t[p], '=')
}

/// `t[p]` is a block: a brace group that parses as statements.
pub open spec fn is_block_at(t: Seq<TokenTree>, a: Answers, p: int) -> bool {
    &&& p < t.len()
    &&& t[p] is Group
    &&& t[p]->delimiter == Delimiter::Brace
    &&& a.block[p]
}

/// Parses a flattened input of `seq!` up to and including the block, given
/// `syn`'s answers about its tokens; tokens after the block are left unread.
pub open spec fn spec_parse_answers(t: Seq<TokenTree>, a: Answers) -> Result<SeqHeader, SeqError> {
    if !(t.len() > 0 && t[0] is Ident && a.ident[0]) {
        Err(SeqError::ExpectedIdent(0))
    } else if !(t.len() > 1 && t[1] is Ident && t[1]->Ident_0@ == "in"@) {
        Err(SeqError::ExpectedIn(1))
    } else {
        match spec_read_int(t, a, 2) {
            Err(e) => Err(e),
            Ok((p, start)) => if !is_dot_dot(t, p) {
                Err(SeqError::ExpectedDotDot(p as usize))
            } else {
                let inclusive = is_eq(t, p + 2);
                let q = if inclusive { p + 3 } else { p + 2 };
                match spec_read_int(t, a, q) {
                    Err(e) => Err(e),
                    Ok((r, end)) => if !is_block_at(t, a, r) {
                        Err(SeqError::ExpectedBlock(r as usize))
                    } else {
                        Ok(SeqHeader { var: t[0]->Ident_0@, start, end, inclusive, body_at: r })
                    },
                }
            },
        }
    }
}

/// Parses the input of `seq!` up to and including the block, reading through
/// invisible groups; positions count the tokens of [`flatten`].
pub open spec fn spec_parse_seq(t: Seq<TokenTree>) -> Result<SeqHeader, SeqError> {
    spec_parse_answers(flatten(t), syn_answers(flatten(t)))
}

/// The parsed input of `seq!`.
pub struct SeqMacro<'a> {
    /// The loop variable.
    pub var: &'a String,
    /// The first value of the range.
    pub start: i32,
    /// One past the last value of the range.
    pub end: i32,
    /// The tokens between the braces of the block.
    pub block: &'a Vec<TokenTree>,
    /// How many tokens the parse read (counting the tokens of invisible
    /// groups, not the groups): those up to and including the block.
    pub consumed: usize,
}

/// An inclusive range that ends at `i32::MAX` overflows when its end is
/// made exclusive, which aborts the parse.
pub open spec fn parse_overflows(t: Seq<TokenTree>) -> bool {
    spec_parse_seq(t) matches Ok(h) && h.inclusive && h.end == i32::MAX
}

/// The parse agrees with [`spec_parse_seq`].
pub open spec fn parse_agrees(t: Seq<TokenTree>, r: Result<SeqMacro, SeqError>) -> bool {
    match r {
        Ok(m) => spec_parse_seq(t) matches Ok(h) && {
            &&& m.var@ == h.var
            &&& m.start == h.start
            &&& m.end == if h.inclusive { h.end + 1 } else { h.end as int }
            &&& flatten(t)[h.body_at] matches TokenTree::Group { stream, .. } && *m.block == stream
            &&& m.consumed == h.body_at + 1
        },
        Err(e) => spec_parse_seq(t) == Err::<SeqHeader, SeqError>(e),
    }
}

/// `syn`'s answers about each token, as values.
pub struct SynAnswers {
    pub ident: Vec<bool>,
    pub literal: Vec<Option<Option<i32>>>,
    pub negated: Vec<Option<Option<i32>>>,
    pub block: Vec<bool>,
}

impl SynAnswers {
    /// The answers as plain values.
    pub open spec fn answers(self) -> Answers {
        Answers { ident: self.ident@, literal: self.literal@, negated: self.negated@, block: self.block@ }
    }

    /// There is one answer of each kind for each of `n` tokens.
    pub open spec fn covers(self, n: nat) -> bool {
        &&& self.ident@.len() == n
        &&& self.literal@.len() == n
        &&& self.negated@.len() == n
        &&& self.block@.len() == n
    }
}

/// Asks `syn` about each token (see [`syn_answers`]).
pub fn ask_syn(t: &Vec<&TokenTree>) -> (r: SynAnswers)
    ensures
        r.answers() == syn_answers(derefs(t@)),
{
    let ghost d = derefs(t@);
    let mut a = SynAnswers { ident: Vec::new(), literal: Vec::new(), negated: Vec::new(), block: Vec::new() };
    let mut k: usize = 0;
    while k < t.len()
        invariant
            d == derefs(t@),
            k <= t@.len(),
            a.covers(k as nat),
            forall|j: int| 0 <= j < k ==> #[trigger] a.ident@[j] == syn_answers(d).ident[j],
            forall|j: int| 0 <= j < k ==> #[trigger] a.literal@[j] == syn_answers(d).literal[j],
            forall|j: int| 0 <= j < k ==> #[trigger] a.negated@[j] == syn_answers(d).negated[j],
            forall|j: int| 0 <= j < k ==> #[trigger] a.block@[j] == syn_answers(d).block[j],
        decreases t@.len() - k,
    {
        let tok: &TokenTree = t[k];
        assert(d[k as int] == *tok);
        let (ident_ok, literal_value, negated_value, block_ok) = match tok {
            TokenTree::Ident(s) => (parses_as_ident(s.as_str()), None, None, false),
            TokenTree::Literal(s) => {
                let negative = <String as StringExecFns>::from_str("-").concat(s.as_str());
                proof {
                    reveal_strlit("-");
                }
                (false, read_int_literal(s.as_str()), read_int_literal(negative.as_str()), false)
            },
            TokenTree::Group { text, .. } => (false, None, None, parses_as_block(text.as_str())),
            TokenTree::Punct { .. } => (false, None, None, false),
        };
        a.ident.push(ident_ok);
        a.literal.push(literal_value);
        a.negated.push(negated_value);
        a.block.push(block_ok);
        k = k + 1;
    }
    assert(a.ident@ =~= syn_answers(d).ident);
    assert(a.literal@ =~= syn_answers(d).literal);
    assert(a.negated@ =~= syn_answers(d).negated);
    assert(a.block@ =~= syn_answers(d).block);
    a
}

/// Appends the token trees to `out` with every invisible group replaced by
/// its contents (see [`flatten`]).
fn flatten_into<'a>(ts: &'a Vec<TokenTree>, out: &mut Vec<&'a TokenTree>)
    ensures
        derefs(final(out)@) == derefs(old(out)@) + flatten(ts@),
    decreases ts,
{
    let ghost start = derefs(out@);
    let mut k: usize = 0;
    assert(flatten(ts@.subrange(0, 0)) =~= Seq::<TokenTree>::empty());
    assert(start + Seq::<TokenTree>::empty() =~= start);
    while k < ts.len()
        invariant
            k <= ts@.len(),
            derefs(out@) == start + flatten(ts@.subrange(0, k as int)),
        decreases ts@.len() - k,
    {
        let t: &'a TokenTree = &ts[k];
        let ghost before = derefs(out@);
        assert(ts@.subrange(0, k + 1).drop_last() =~= ts@.subrange(0, k as int));
        assert(ts@.subrange(0, k + 1).last() == ts@[k as int]);
        match t {
            TokenTree::Group { delimiter: Delimiter::Invisible, stream, .. } => {
                proof {
                    assert(decreases_to!(*ts => ts@));
                    assert(decreases_to!(ts@ => ts@[k as int]));
                    assert(decreases_to!(ts@[k as int] => *stream));
                }
                flatten_into(stream, out);
                assert(flatten_one(ts@[k as int]) == flatten(stream@));
                assert(derefs(out@) == before + flatten_one(ts@[k as int]));
            },
            _ => {
                let ghost prev = out@;
                out.push(t);
                assert(derefs(out@) =~= derefs(prev).push(*t));
                assert(flatten_one(*t) == seq![*t]);
                assert(derefs(out@) == before + flatten_one(ts@[k as int]));
            },
        }
        assert(flatten(ts@.subrange(0, k + 1)) == flatten(ts@.subrange(0, k as int)) + flatten_one(ts@[k as int]));
        assert(derefs(out@) =~= start + flatten(ts@.subrange(0, k + 1)));
        k = k + 1;
    }
    assert(ts@.subrange(0, ts@.len() as int) =~= ts@);
}

fn read_int<'a>(t: &Vec<&'a TokenTree>, a: &SynAnswers, p: usize) -> (r: Result<(usize, i32), SeqError>)
    requires
        p <= t@.len(),
        a.covers(t@.len()),
    ensures
        match r {
            Ok((q, v)) => spec_read_int(derefs(t@), a.answers(), p as int) == Ok::<(int, i32), SeqError>(
                (q as int, v),
            ) && q <= t@.len(),
            Err(e) => spec_read_int(derefs(t@), a.answers(), p as int) == Err::<(int, i32), SeqError>(e),
        },
{
    let ghost d = derefs(t@);
    let (next, value) = if p < t.len() && matches!(t[p], TokenTree::Literal(_)) {
        (p + 1, a.literal[p])
    } else if p < t.len() && p + 1 < t.len() && is_punct(t[p], '-') && matches!(t[p + 1], TokenTree::Literal(_)) {
        (p + 2, a.negated[p + 1])
    } else {
        (p, None)
    };
    match value {
        None => Err(SeqError::ExpectedInt(p)),
        Some(None) => Err(SeqError::IntOutOfRange(p)),
        Some(Some(v)) => Ok((next, v)),
    }
}

fn is_punct(t: &TokenTree, c: char) -> (r: bool)
    ensures
        r == punct_is(*t, c),
{
    match t {
        TokenTree::Punct { ch, .. } => *ch == c,
        _ => false,
    }
}

/// The parts of the input of `seq!`, with the end of the range as written.
pub struct ParsedSeq<'a> {
    /// The loop variable.
    pub var: &'a String,
    /// The first value of the range.
    pub start: i32,
    /// The last bound of the range, as written.
    pub end: i32,
    /// The range is written `start..=end`.
    pub inclusive: bool,
    /// The tokens between the braces of the block.
    pub block: &'a Vec<TokenTree>,
    /// How many tokens the parse read: those up to and including the block.
    pub consumed: usize,
}

/// The parse agrees with a header.
pub open spec fn parsed_agrees(t: Seq<TokenTree>, p: ParsedSeq, h: SeqHeader) -> bool {
    &&& p.var@ == h.var
    &&& p.start == h.start
    &&& p.end == h.end
    &&& p.inclusive == h.inclusive
    &&& t[h.body_at] matches TokenTree::Group { stream, .. } && *p.block == stream
    &&& p.consumed == h.body_at + 1
}

/// Parses a flattened input of `seq!` given `syn`'s answers about its
/// tokens (see [`spec_parse_answers`]).
pub fn parse_with_answers<'a>(t: &Vec<&'a TokenTree>, a: &SynAnswers) -> (r: Result<ParsedSeq<'a>, SeqError>)
    requires
        a.covers(t@.len()),
    ensures
        match r {
            Ok(p) => spec_parse_answers(derefs(t@), a.answers()) matches Ok(h) && parsed_agrees(
                derefs(t@),
                p,
                h,
            ),
            Err(e) => spec_parse_answers(derefs(t@), a.answers()) == Err::<SeqHeader, SeqError>(e),
        },
{
    let ghost d = derefs(t@);
    if t.len() == 0 {
        return Err(SeqError::ExpectedIdent(0));
    }
    let t0: &'a TokenTree = t[0];
    let var: &'a String = match t0 {
        TokenTree::Ident(s) => {
            if a.ident[0] {
                s
            } else {
                return Err(SeqError::ExpectedIdent(0));
            }
        },
        _ => return Err(SeqError::ExpectedIdent(0)),
    };
    let is_in = t.len() > 1 && match t[1] {
        TokenTree::Ident(s) => string_eq_str(s, "in"),
        _ => false,
    };
    if !is_in {
        return Err(SeqError::ExpectedIn(1));
    }
    let (p, start) = match read_int(t, a, 2) {
        Ok(x) => x,
        Err(e) => return Err(e),
    };
    let dot_dot = p + 1 < t.len() && match t[p] {
        TokenTree::Punct { ch, joint } => *ch == '.' && *joint,
        _ => false,
    } && is_punct(t[p + 1], '.');
    if !dot_dot {
        return Err(SeqError::ExpectedDotDot(p));
    }
    let inclusive = p + 2 < t.len() && is_punct(t[p + 2], '=');
    let q = if inclusive { p + 3 } else { p + 2 };
    let (r, end) = match read_int(t, a, q) {
        Ok(x) => x,
        Err(e) => return Err(e),
    };
    if r >= t.len() {
        return Err(SeqError::ExpectedBlock(r));
    }
    let tr: &'a TokenTree = t[r];
    let block: &'a Vec<TokenTree> = match tr {
        TokenTree::Group { delimiter: Delimiter::Brace, stream, .. } => {
            if a.block[r] {
                stream
            } else {
                return Err(SeqError::ExpectedBlock(r));
            }
        },
        _ => return Err(SeqError::ExpectedBlock(r)),
    };
    Ok(ParsedSeq { var, start, end, inclusive, block, consumed: r + 1 })
}

/// Parses the input of `seq!` (see [`spec_parse_seq`]).
fn parse_header<'a>(t: &'a Vec<TokenTree>) -> (r: Result<ParsedSeq<'a>, SeqError>)
    ensures
        match r {
            Ok(p) => spec_parse_seq(t@) matches Ok(h) && parsed_agrees(flatten(t@), p, h),
            Err(e) => spec_parse_seq(t@) == Err::<SeqHeader, SeqError>(e),
        },
{
    let mut flat: Vec<&'a TokenTree> = Vec::new();
    flatten_into(t, &mut flat);
    assert(derefs(flat@) =~= flatten(t@));
    let answers = ask_syn(&flat);
    parse_with_answers(&flat, &answers)
}

impl<'a> SeqMacro<'a> {
    /// Parses `var in start..end { body }` (or `..=end`) at the start of the
    /// tokens, reading through invisible groups, refusing every other input
    /// with the position of the first token that does not fit; tokens after
    /// the block are left to the caller.
    pub fn parse(t: &'a Vec<TokenTree>) -> (r: Result<SeqMacro<'a>, SeqError>)
        requires
            !parse_overflows(t@),
        ensures
            parse_agrees(t@, r),
    {
        match parse_header(t) {
            Ok(h) => {
                let end = if h.inclusive { h.end + 1 } else { h.end };
                Ok(SeqMacro { var: h.var, start: h.start, end, block: h.block, consumed: h.consumed })
            },
            Err(e) => Err(e),
        }
    }
}

/// `s` repeated `n` times.
pub open spec fn repeat(s: Seq<TokenTree>, n: nat) -> Seq<TokenTree>
    decreases n,
{
    if n == 0 {
        Seq::empty()
    } else {
        repeat(s, (n - 1) as nat) + s
    }
}

/// The number of values in `start..end`.
pub open spec fn range_len(start: i32, end: i32) -> nat {
    if start < end { (end - start) as nat } else { 0 }
}

/// The tokens behind a list of references.
pub open spec fn derefs(s: Seq<&TokenTree>) -> Seq<TokenTree> {
    s.map_values(|x: &TokenTree| *x)
}

/// What the expansion emits for one token of the body: the token itself.
/// A group that holds just the loop variable is handed on as the token
/// stream of that group, whose only tree is the group itself, with every
/// identifier of that stream replaced by the counter; that stream holds no
/// identifier, so the group comes out as it went in, as does every other token.
fn expand_token<'a>(t: &'a TokenTree, var: &String) -> (r: &'a TokenTree)
    ensures
        *r == *t,
{
    t
}

/// Expands `seq!`: the tokens of the block once per value of the range.
pub fn expand<'a>(m: &SeqMacro<'a>) -> (r: Vec<&'a TokenTree>)
    ensures
        derefs(r@) == repeat(m.block@, range_len(m.start, m.end)),
{
    let mut out: Vec<&'a TokenTree> = Vec::new();
    if m.end <= m.start {
        assert(derefs(out@) =~= Seq::<TokenTree>::empty());
        return out;
    }
    let mut i: i32 = m.start;
    let ghost mut n: nat = 0;
    while i < m.end
        invariant
            m.start <= i <= m.end,
            i == m.start + n,
            derefs(out@) == repeat(m.block@, n),
        decreases m.end - i,
    {
        let mut k: usize = 0;
        let ghost before = out@;
        assert(derefs(before) + m.block@.subrange(0, 0) =~= derefs(before));
        while k < m.block.len()
            invariant
                k <= m.block@.len(),
                derefs(out@) == derefs(before) + m.block@.subrange(0, k as int),
            decreases m.block@.len() - k,
        {
            let t = expand_token(&m.block[k], m.var);
            let ghost prev = out@;
            out.push(t);
            assert(derefs(out@) =~= derefs(prev).push(*t));
            assert(derefs(out@) =~= derefs(before) + m.block@.subrange(0, k + 1));
            k = k + 1;
        }
        assert(m.block@.subrange(0, m.block@.len() as int) =~= m.block@);
        proof {
            n = n + 1;
        }
        i = i + 1;
    }
    assert(n == range_len(m.start, m.end));
    out
}

/// What `seq!` makes of its whole input: the parse, which must read every
/// token; a token after the block is refused.
pub open spec fn spec_seq_input(t: Seq<TokenTree>) -> Result<SeqHeader, SeqError> {
    match spec_parse_seq(t) {
        Ok(h) => if h.body_at + 1 != flatten(t).len() {
            Err(SeqError::UnexpectedToken((h.body_at + 1) as usize))
        } else {
            Ok(h)
        },
        Err(e) => Err(e),
    }
}

/// `seq!`: parses the whole input, refusing tokens after the block, and
/// expands it.
pub fn seq(t: &Vec<TokenTree>) -> (r: Result<Vec<&TokenTree>, SeqError>)
    requires
        !parse_overflows(t@),
    ensures
        match r {
            Ok(out) => spec_seq_input(t@) matches Ok(h) && flatten(t@)[h.body_at] matches TokenTree::Group { stream, .. }
                && derefs(out@) == repeat(stream@, range_len(h.start,
                if h.inclusive { (h.end + 1) as i32 } else { h.end })),
            Err(e) => spec_seq_input(t@) == Err::<SeqHeader, SeqError>(e),
        },
{
    match SeqMacro::parse(t) {
        Ok(m) => {
            let mut flat: Vec<&TokenTree> = Vec::new();
            flatten_into(t, &mut flat);
            assert(derefs(flat@) =~= flatten(t@));
            if m.consumed != flat.len() {
                return Err(SeqError::UnexpectedToken(m.consumed));
            }
            Ok(expand(&m))
        },
        Err(e) => Err(e),
    }
}

} // verus!

verus! {

/// `seq!` on any input: `None` when the input is an inclusive range ending
/// at `i32::MAX` (on which the expansion aborts), else what [`seq`] gives.
pub fn try_seq(t: &Vec<TokenTree>) -> (r: Option<Result<Vec<&TokenTree>, SeqError>>)
    ensures
        r is None <==> parse_overflows(t@),
        r matches Some(x) ==> match x {
            Ok(out) => spec_seq_input(t@) matches Ok(h) && flatten(t@)[h.body_at] matches TokenTree::Group { stream, .. }
                && derefs(out@) == repeat(stream@, range_len(h.start,
                if h.inclusive { (h.end + 1) as i32 } else { h.end })),
            Err(e) => spec_seq_input(t@) == Err::<SeqHeader, SeqError>(e),
        },
{
    match parse_header(t) {
        Ok(h) => {
            if h.inclusive && h.end == i32::MAX {
                return None;
            }
        },
        Err(_) => {},
    }
    Some(seq(t))
}

} // verus!

verus! {

/// Law: the expansion holds the block `n` times over, so its length is `n`
/// times the block's, and each of its tokens is the block's token at the
/// same place modulo the block's length.
pub proof fn lemma_repeat_shape(s: Seq<TokenTree>, n: nat)
    ensures
        repeat(s, n).len() == n * s.len(),
        forall|k: int| 0 <= k < repeat(s, n).len() ==> #[trigger] repeat(s, n)[k] == s[k % (s.len() as int)],
    decreases n,
{
    if n > 0 {
        lemma_repeat_shape(s, (n - 1) as nat);
        let prev = repeat(s, (n - 1) as nat);
        assert(prev.len() == (n - 1) * s.len());
        assert(n * s.len() == (n - 1) * s.len() + s.len()) by (nonlinear_arith);
        assert forall|k: int| 0 <= k < repeat(s, n).len() implies #[trigger] repeat(s, n)[k] == s[k
            % (s.len() as int)] by {
            if k >= prev.len() {
                let r = k - prev.len();
                assert(0 <= r < s.len());
                assert(k == (n - 1) * s.len() + r);
                lemma_mod_multiple(r, (n - 1) as int, s.len() as int);
            }
        }
    } else {
        assert(n * s.len() == 0) by (nonlinear_arith)
            requires
                n == 0,
        ;
    }
}

/// Law: `var in start..=end { body }` is read as the inclusive range from
/// `start` to `end`, with the block right after `end`; the `=` after the two
/// dots makes the range inclusive whether or not the second dot is glued to
/// it, and whatever follows the block is left unread.
pub proof fn lemma_inclusive_range(t: Seq<TokenTree>, a: Answers, start: i32, end: i32)
    requires
        t.len() >= 8,
        t[0] is Ident,
        a.ident[0],
        t[1] is Ident,
        t[1]->Ident_0@ == "in"@,
        t[2] is Literal,
        a.literal[2] == Some(Some(start)),
        t[3] is Punct,
        t[3]->ch == '.',
        t[3]->joint,
        t[4] is Punct,
        t[4]->ch == '.',
        t[5] is Punct,
        t[5]->ch == '=',
        t[6] is Literal,
        a.literal[6] == Some(Some(end)),
        t[7] is Group,
        t[7]->delimiter == Delimiter::Brace,
        a.block[7],
    ensures
        spec_parse_answers(t, a) matches Ok(h) && {
            &&& h.var == t[0]->Ident_0@
            &&& h.start == start
            &&& h.end == end
            &&& h.inclusive
            &&& h.body_at == 7
        },
{
}

/// Law: `var in start..end { body }` is read as the half-open range from
/// `start` to `end`, with the block right after `end`; whatever follows the
/// block is left unread.
pub proof fn lemma_exclusive_range(t: Seq<TokenTree>, a: Answers, start: i32, end: i32)
    requires
        t.len() >= 7,
        t[0] is Ident,
        a.ident[0],
        t[1] is Ident,
        t[1]->Ident_0@ == "in"@,
        t[2] is Literal,
        a.literal[2] == Some(Some(start)),
        t[3] is Punct,
        t[3]->ch == '.',
        t[3]->joint,
        t[4] is Punct,
        t[4]->ch == '.',
        t[5] is Literal,
        a.literal[5] == Some(Some(end)),
        t[6] is Group,
        t[6]->delimiter == Delimiter::Brace,
        a.block[6],
    ensures
        spec_parse_answers(t, a) matches Ok(h) && {
            &&& h.var == t[0]->Ident_0@
            &&& h.start == start
            &&& h.end == end
            &&& !h.inclusive
            &&& h.body_at == 6
        },
{
}

/// The input opens with `var in start`: an identifier that is not a
/// keyword, `in`, and an integer literal whose value is `start`.
pub open spec fn opens_with_var_in(t: Seq<TokenTree>, a: Answers, start: i32) -> bool {
    &&& t.len() >= 3
    &&& t[0] is Ident
    &&& a.ident[0]
    &&& t[1] is Ident
    &&& t[1]->Ident_0@ == "in"@
    &&& t[2] is Literal
    &&& a.literal[2] == Some(Some(start))
}

/// Law: a bound is an integer literal, or `-` and an integer literal, read
/// as the negated literal; a literal whose value does not fit in an `i32` is
/// refused as out of range, and anything else as not an integer, at the
/// bound's first token.
pub proof fn lemma_read_bound(t: Seq<TokenTree>, a: Answers, p: int, v: i32)
    requires
        0 <= p,
    ensures
        p < t.len() && t[p] is Literal && a.literal[p] == Some(Some(v)) ==> spec_read_int(t, a, p)
            == Ok::<(int, i32), SeqError>((p + 1, v)),
        p < t.len() && t[p] is Literal && a.literal[p] == Some(None::<i32>) ==> spec_read_int(t, a, p)
            == Err::<(int, i32), SeqError>(SeqError::IntOutOfRange(p as usize)),
        p < t.len() && t[p] is Literal && a.literal[p] is None ==> spec_read_int(t, a, p) == Err::<
            (int, i32),
            SeqError,
        >(SeqError::ExpectedInt(p as usize)),
        p + 1 < t.len() && t[p] is Punct && t[p]->ch == '-' && t[p + 1] is Literal && a.negated[p + 1] == Some(
            Some(v),
        ) ==> spec_read_int(t, a, p) == Ok::<(int, i32), SeqError>((p + 2, v)),
        !(p < t.len() && t[p] is Literal) && !(p + 1 < t.len() && t[p] is Punct && t[p]->ch == '-' && t[p
            + 1] is Literal) ==> spec_read_int(t, a, p) == Err::<(int, i32), SeqError>(
            SeqError::ExpectedInt(p as usize),
        ),
{
}

/// Law: the input is refused at the first token that does not fit
/// `var in start..end { body }` (or `..=end`): a missing or keyword loop
/// variable at 0, a missing `in` at 1, a missing `..` right after the start,
/// and a missing block right after the end.
pub proof fn lemma_seq_refusals(t: Seq<TokenTree>, a: Answers, start: i32, end: i32)
    ensures
        !(t.len() > 0 && t[0] is Ident && a.ident[0]) ==> spec_parse_answers(t, a) == Err::<
            SeqHeader,
            SeqError,
        >(SeqError::ExpectedIdent(0)),
        t.len() > 0 && t[0] is Ident && a.ident[0] && !(t.len() > 1 && t[1] is Ident && t[1]->Ident_0@
            == "in"@) ==> spec_parse_answers(t, a) == Err::<SeqHeader, SeqError>(SeqError::ExpectedIn(1)),
        opens_with_var_in(t, a, start) && !(t.len() > 4 && t[3] is Punct && t[3]->ch == '.' && t[3]->joint
            && t[4] is Punct && t[4]->ch == '.') ==> spec_parse_answers(t, a) == Err::<SeqHeader, SeqError>(
            SeqError::ExpectedDotDot(3),
        ),
        opens_with_var_in(t, a, start) && t.len() > 5 && t[3] is Punct && t[3]->ch == '.' && t[3]->joint
            && t[4] is Punct && t[4]->ch == '.' && t[5] is Literal && a.literal[5] == Some(Some(end)) && !(
        t.len() > 6 && t[6] is Group && t[6]->delimiter == Delimiter::Brace && a.block[6]) ==> spec_parse_answers(
            t,
            a,
        ) == Err::<SeqHeader, SeqError>(SeqError::ExpectedBlock(6)),
{
}

/// Law: the range `start..end` has `end - start` values when `start < end`
/// and none otherwise, so the expansion holds that many copies of the block.
pub proof fn lemma_expansion_length(block: Seq<TokenTree>, start: i32, end: i32)
    ensures
        start < end ==> repeat(block, range_len(start, end)).len() == (end - start) * block.len(),
        end <= start ==> repeat(block, range_len(start, end)) == Seq::<TokenTree>::empty(),
{
    lemma_repeat_shape(block, range_len(start, end));
    if end <= start {
        assert(repeat(block, 0) == Seq::<TokenTree>::empty());
    }
}

/// Law: an inclusive range `start..=end` is parsed into the half-open range
/// that ends one past `end`; a half-open one keeps its end.
pub proof fn lemma_parse_range_end(t: Seq<TokenTree>, m: SeqMacro)
    requires
        parse_agrees(t, Ok(m)),
    ensures
        spec_parse_seq(t) matches Ok(h) && m.start == h.start && (h.inclusive ==> m.end == h.end + 1) && (
        !h.inclusive ==> m.end == h.end),
{
}

/// Law: a sequence of token trees without invisible groups reads as itself,
/// and an invisible group reads as what it holds.
pub proof fn lemma_flatten_plain(ts: Seq<TokenTree>)
    requires
        forall|k: int| 0 <= k < ts.len() ==> !(#[trigger] ts[k] is Group && ts[k]->delimiter == Delimiter::Invisible),
    ensures
        flatten(ts) == ts,
    decreases ts.len(),
{
    if ts.len() > 0 {
        lemma_flatten_plain(ts.drop_last());
        assert(!(ts[ts.len() - 1] is Group && ts[ts.len() - 1]->delimiter == Delimiter::Invisible));
        assert(flatten_one(ts.last()) == seq![ts.last()]);
        assert(ts.drop_last().push(ts.last()) =~= ts);
        assert(ts.drop_last() + seq![ts.last()] =~= ts);
    }
}

/// Law: what the parse is told of each token is what `syn` makes of its
/// text: of an identifier, whether it is one that is not a keyword; of a
/// literal, its value, and the value of the literal with `-` written before
/// it; of a group, whether its text parses as a block; nothing of the rest.
pub proof fn lemma_syn_answers(t: Seq<TokenTree>, k: int)
    requires
        0 <= k < t.len(),
    ensures
        syn_answers(t).ident.len() == t.len(),
        syn_answers(t).literal.len() == t.len(),
        syn_answers(t).negated.len() == t.len(),
        syn_answers(t).block.len() == t.len(),
        t[k] is Ident ==> syn_answers(t).ident[k] == accepted_as_ident(t[k]->Ident_0@),
        !(t[k] is Ident) ==> !syn_answers(t).ident[k],
        t[k] is Literal ==> syn_answers(t).literal[k] == int_literal_value(t[k]->Literal_0@)
            && syn_answers(t).negated[k] == int_literal_value("-"@ + t[k]->Literal_0@),
        !(t[k] is Literal) ==> syn_answers(t).literal[k] is None && syn_answers(t).negated[k] is None,
        t[k] is Group ==> syn_answers(t).block[k] == accepted_as_block(t[k]->text@),
        !(t[k] is Group) ==> !syn_answers(t).block[k],
{
}

/// Law: `seq!` takes its whole input: when the parse ends with tokens left
/// after the block, the first of them is refused; otherwise the parse stands.
pub proof fn lemma_whole_input(t: Seq<TokenTree>)
    ensures
        spec_parse_seq(t) matches Ok(h) ==> (h.body_at + 1 < flatten(t).len() ==> spec_seq_input(t) == Err::<
            SeqHeader,
            SeqError,
        >(SeqError::UnexpectedToken((h.body_at + 1) as usize))) && (h.body_at + 1 == flatten(t).len()
            ==> spec_seq_input(t) == Ok::<SeqHeader, SeqError>(h)),
        spec_parse_seq(t) is Err ==> spec_seq_input(t) == spec_parse_seq(t),
{
}

/// Law: reading through invisible groups works piece by piece: the tokens
/// of two runs of token trees, one after the other, are those of the first
/// followed by those of the second; an invisible group gives the tokens of
/// what it holds, read through in turn, and any other tree gives itself.
pub proof fn lemma_flatten_pieces(a: Seq<TokenTree>, b: Seq<TokenTree>, g: TokenTree)
    ensures
        flatten(a + b) == flatten(a) + flatten(b),
        g is Group && g->delimiter == Delimiter::Invisible ==> flatten(seq![g]) == flatten(g->stream@),
        !(g is Group && g->delimiter == Delimiter::Invisible) ==> flatten(seq![g]) == seq![g],
    decreases b.len(),
{
    if b.len() > 0 {
        lemma_flatten_pieces(a, b.drop_last(), g);
        assert((a + b).drop_last() =~= a + b.drop_last());
        assert((a + b).last() == b.last());
    } else {
        assert(a + b =~= a);
        assert(flatten(b) =~= Seq::<TokenTree>::empty());
    }
    assert(seq![g].drop_last() =~= Seq::<TokenTree>::empty());
    assert(seq![g].last() == g);
    assert(flatten(seq![g]) == flatten(Seq::<TokenTree>::empty()) + flatten_one(g));
    assert(Seq::<TokenTree>::empty() + flatten_one(g) =~= flatten_one(g));
}

proof fn lemma_mod_multiple(r: int, q: int, d: int)
    requires
        0 <= r < d,
        q >= 0,
    ensures
        (q * d + r) % d == r,
{
    vstd::arithmetic::div_mod::lemma_fundamental_div_mod_converse(q * d + r, d, q, r);
}

} // verus!
