//! Properties of scanning and parsing, proved over the models in `lexer` and `parser`.
use vstd::prelude::*;

use crate::lexer::{
    digit_class, digits_value, identifier_class, is_blank, is_digit, is_identifier_char,
    is_identifier_start, keyword_of, optional_token, other_than, scan, scan_from, scan_step, span_while, word_kind, LexError,
    TokenKind, Tokenizer,
};
use crate::parser::{
    additive_operator, is_literal_kind, parse_primary, parse_term, parse_term_rest, parse_tokens,
    Ast, ParseErrorKind,
};

verus! {

/// Three literals joined by `+`/`-` parse as a left fold: `a o1 b o2 c` is
/// `(a o1 b) o2 c`.
pub proof fn lemma_left_fold(a: TokenKind, o1: TokenKind, b: TokenKind, o2: TokenKind, c: TokenKind)
    requires
        is_literal_kind(a),
        is_literal_kind(b),
        is_literal_kind(c),
        additive_operator(o1) is Some,
        additive_operator(o2) is Some,
    ensures
        parse_tokens(seq![a, o1, b, o2, c, TokenKind::EOF]) == Ok::<Ast, (ParseErrorKind, int)>(
            Ast::BinaryOp(
                Box::new(
                    Ast::BinaryOp(
                        Box::new(Ast::Literal(a)),
                        additive_operator(o1)->0,
                        Box::new(Ast::Literal(b)),
                    ),
                ),
                additive_operator(o2)->0,
                Box::new(Ast::Literal(c)),
            ),
        ),
{
    let toks = seq![a, o1, b, o2, c, TokenKind::EOF];
    let ab = Ast::BinaryOp(
        Box::new(Ast::Literal(a)),
        additive_operator(o1)->0,
        Box::new(Ast::Literal(b)),
    );
    let abc = Ast::BinaryOp(Box::new(ab), additive_operator(o2)->0, Box::new(Ast::Literal(c)));
    assert(parse_term_rest(toks, abc, 5) == Ok::<(Ast, int), (ParseErrorKind, int)>((abc, 5)));
    assert(parse_primary(toks, 4) == Ok::<(Ast, int), (ParseErrorKind, int)>((Ast::Literal(c), 5)));
    assert(parse_term_rest(toks, ab, 3) == Ok::<(Ast, int), (ParseErrorKind, int)>((abc, 5)));
    assert(parse_primary(toks, 2) == Ok::<(Ast, int), (ParseErrorKind, int)>((Ast::Literal(b), 3)));
    assert(parse_term_rest(toks, Ast::Literal(a), 1) == Ok::<(Ast, int), (ParseErrorKind, int)>(
        (abc, 5),
    ));
    assert(parse_primary(toks, 0) == Ok::<(Ast, int), (ParseErrorKind, int)>((Ast::Literal(a), 1)));
    assert(parse_term(toks, 0) == Ok::<(Ast, int), (ParseErrorKind, int)>((abc, 5)));
}

/// `span_while` from `i` ends at `e` when every character in between passes `p`
/// and the one at `e` (if any) fails it.
pub proof fn lemma_span_stops(s: Seq<char>, i: int, e: int, p: spec_fn(char) -> bool)
    requires
        0 <= i <= e <= s.len(),
        forall|k: int| i <= k < e ==> #[trigger] p(s[k]),
        e == s.len() || !p(s[e]),
    ensures
        span_while(s, i, p) == e,
    decreases e - i,
{
    if i < e {
        lemma_span_stops(s, i + 1, e, p);
    }
}

/// Text made only of blanks scans to the end-of-input token alone.
pub proof fn lemma_blank_text(s: Seq<char>)
    requires
        forall|k: int| 0 <= k < s.len() ==> is_blank(#[trigger] s[k]),
    ensures
        scan(s) == Ok::<Seq<TokenKind>, LexError>(seq![TokenKind::EOF]),
{
    lemma_blank_suffix(s, 0);
}

proof fn lemma_blank_suffix(s: Seq<char>, i: int)
    requires
        0 <= i <= s.len(),
        forall|k: int| 0 <= k < s.len() ==> is_blank(#[trigger] s[k]),
    ensures
        scan_from(s, i) == Ok::<Seq<TokenKind>, LexError>(seq![TokenKind::EOF]),
    decreases s.len() - i,
{
    if i < s.len() {
        lemma_blank_suffix(s, i + 1);
        assert(seq![] + seq![TokenKind::EOF] =~= seq![TokenKind::EOF]);
    }
}

/// A run of at most ten decimal digits whose value fits in an `i32` scans to one
/// integer literal carrying that value, then end of input.
pub proof fn lemma_digit_run(d: Seq<char>)
    requires
        1 <= d.len() <= 10,
        forall|k: int| 0 <= k < d.len() ==> is_digit(#[trigger] d[k]),
        digits_value(d) <= i32::MAX,
    ensures
        scan(d) == Ok::<Seq<TokenKind>, LexError>(
            seq![TokenKind::LiteralInteger(digits_value(d) as i32), TokenKind::EOF],
        ),
{
    let n = d.len() as int;
    assert forall|k: int| 0 <= k < n implies #[trigger] digit_class()(d[k]) by {}
    lemma_span_stops(d, 0, n, digit_class());
    assert(d.subrange(0, n) =~= d);
    let tok = TokenKind::LiteralInteger(digits_value(d) as i32);
    assert(scan_step(d, 0) == Ok::<(Option<TokenKind>, int), LexError>((Some(tok), n)));
    assert(scan_from(d, n) == Ok::<Seq<TokenKind>, LexError>(seq![TokenKind::EOF]));
    assert(seq![TokenKind::LiteralInteger(digits_value(d) as i32)] + seq![TokenKind::EOF]
        =~= seq![TokenKind::LiteralInteger(digits_value(d) as i32), TokenKind::EOF]);
}

/// A quoted string with no quote of its own kind inside scans to one string
/// literal whose text is what stands between the quotes, then end of input.
pub proof fn lemma_quoted_string(q: char, body: Seq<char>)
    requires
        q == '"' || q == '\'',
        forall|k: int| 0 <= k < body.len() ==> #[trigger] body[k] != q,
    ensures
        scan(seq![q] + body + seq![q]) == Ok::<Seq<TokenKind>, LexError>(
            seq![TokenKind::LiteralString(body), TokenKind::EOF],
        ),
{
    let s = seq![q] + body + seq![q];
    let close = body.len() + 1int;
    assert forall|k: int| 1 <= k < close implies #[trigger] other_than(q)(s[k]) by {
        assert(s[k] == body[k - 1]);
    }
    lemma_span_stops(s, 1, close, other_than(q));
    assert(s.subrange(1, close) =~= body);
    let tok = TokenKind::LiteralString(body);
    assert(scan_step(s, 0) == Ok::<(Option<TokenKind>, int), LexError>((Some(tok), close + 1)));
    assert(scan_from(s, close + 1) == Ok::<Seq<TokenKind>, LexError>(seq![TokenKind::EOF]));
    assert(seq![TokenKind::LiteralString(body)] + seq![TokenKind::EOF]
        =~= seq![TokenKind::LiteralString(body), TokenKind::EOF]);
}

/// A quote with no closing quote of its kind after it is an unterminated string.
pub proof fn lemma_unterminated_string(q: char, body: Seq<char>)
    requires
        q == '"' || q == '\'',
        forall|k: int| 0 <= k < body.len() ==> #[trigger] body[k] != q,
    ensures
        scan(seq![q] + body) == Err::<Seq<TokenKind>, LexError>(
            LexError::UnterminatedString { start: 0 },
        ),
{
    let s = seq![q] + body;
    assert forall|k: int| 1 <= k < s.len() implies #[trigger] other_than(q)(s[k]) by {
        assert(s[k] == body[k - 1]);
    }
    lemma_span_stops(s, 1, s.len() as int, other_than(q));
}

/// An identifier spelling scans to one token: the keyword it spells if the
/// keyword table holds it, and otherwise an identifier carrying the spelling.
pub proof fn lemma_word(w: Seq<char>)
    requires
        w.len() >= 1,
        is_identifier_start(w[0]),
        forall|k: int| 0 <= k < w.len() ==> is_identifier_char(#[trigger] w[k]),
    ensures
        scan(w) == Ok::<Seq<TokenKind>, LexError>(seq![word_kind(w), TokenKind::EOF]),
        keyword_of(w) is Some ==> scan(w) == Ok::<Seq<TokenKind>, LexError>(
            seq![keyword_of(w)->0, TokenKind::EOF],
        ),
        keyword_of(w) is None ==> scan(w) == Ok::<Seq<TokenKind>, LexError>(
            seq![TokenKind::LiteralIdentifier(w), TokenKind::EOF],
        ),
{
    let n = w.len() as int;
    assert forall|k: int| 0 <= k < n implies #[trigger] identifier_class()(w[k]) by {}
    lemma_span_stops(w, 0, n, identifier_class());
    assert(w.subrange(0, n) =~= w);
    assert(scan_step(w, 0) == Ok::<(Option<TokenKind>, int), LexError>((Some(word_kind(w)), n)));
    assert(scan_from(w, n) == Ok::<Seq<TokenKind>, LexError>(seq![TokenKind::EOF]));
    assert(seq![word_kind(w)] + seq![TokenKind::EOF] =~= seq![word_kind(w), TokenKind::EOF]);
}

/// A successful scan ends with exactly one end-of-input token, its last element.
pub proof fn lemma_scan_ends_once(s: Seq<char>)
    ensures
        scan(s) matches Ok(ts) ==> {
            &&& ts.len() >= 1
            &&& ts.last() is EOF
            &&& forall|k: int| 0 <= k < ts.len() - 1 ==> !(#[trigger] ts[k] is EOF)
        },
{
    lemma_scan_from_ends_once(s, 0);
}

proof fn lemma_scan_from_ends_once(s: Seq<char>, i: int)
    ensures
        scan_from(s, i) matches Ok(ts) ==> {
            &&& ts.len() >= 1
            &&& ts.last() is EOF
            &&& forall|k: int| 0 <= k < ts.len() - 1 ==> !(#[trigger] ts[k] is EOF)
        },
    decreases s.len() - i,
{
    if 0 <= i < s.len() {
        if let Ok((t, j)) = scan_step(s, i) {
            if i < j <= s.len() {
                lemma_scan_from_ends_once(s, j);
                if let Ok(rest) = scan_from(s, j) {
                    let ts = optional_token(t) + rest;
                    assert forall|k: int| 0 <= k < ts.len() - 1 implies !(#[trigger] ts[k] is EOF) by {
                        if k >= optional_token(t).len() {
                            assert(ts[k] == rest[k - optional_token(t).len()]);
                        }
                    }
                }
            }
        }
    }
}

/// Scanning has no hidden state: whatever their cursors, two tokenizers over the
/// same text (or one tokenizer scanning twice, which keeps its text) produce the
/// same tokens.
pub proof fn lemma_scan_repeatable(a: &Tokenizer, b: &Tokenizer)
    requires
        a.source_view() == b.source_view(),
    ensures
        scan(a.source_view()) == scan(b.source_view()),
{
}

} // verus!
