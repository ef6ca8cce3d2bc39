//! The scanner: source text to an ordered sequence of tokens.
use vstd::prelude::*;
use vstd::string::StrSliceExecFns;
use vstd::string::StringExecFns;

verus! {

/// The kind of a token, with its payload for literals.
#[derive(Debug, Clone, PartialEq)]
pub enum TokenType {
    // Keywords
    KeywordFunc,
    KeywordIf,
    LiteralTrue,
    LiteralFalse,
    // Literals
    LiteralIdentifier(String),
    LiteralInteger(i32),
    LiteralString(String),
    // Arithmetic operators
    Plus,
    Minus,
    Asterisk,
    Slash,
    // Relational operators
    Equals,
    DoubleEquals,
    // Grouping
    Lparen,
    Rparen,
    // Punctuation
    PunctSemicolon,
    PunctComma,
    // End of input
    EOF,
}

/// Mathematical model of a token kind: text payloads become character sequences.
pub enum TokenKind {
    KeywordFunc,
    KeywordIf,
    LiteralTrue,
    LiteralFalse,
    LiteralIdentifier(Seq<char>),
    LiteralInteger(i32),
    LiteralString(Seq<char>),
    Plus,
    Minus,
    Asterisk,
    Slash,
    Equals,
    DoubleEquals,
    Lparen,
    Rparen,
    PunctSemicolon,
    PunctComma,
    EOF,
}

impl View for TokenType {
    type V = TokenKind;

    open spec fn view(&self) -> TokenKind {
        match self {
            TokenType::KeywordFunc => TokenKind::KeywordFunc,
            TokenType::KeywordIf => TokenKind::KeywordIf,
            TokenType::LiteralTrue => TokenKind::LiteralTrue,
            TokenType::LiteralFalse => TokenKind::LiteralFalse,
            TokenType::LiteralIdentifier(s) => TokenKind::LiteralIdentifier(s@),
            TokenType::LiteralInteger(v) => TokenKind::LiteralInteger(*v),
            TokenType::LiteralString(s) => TokenKind::LiteralString(s@),
            TokenType::Plus => TokenKind::Plus,
            TokenType::Minus => TokenKind::Minus,
            TokenType::Asterisk => TokenKind::Asterisk,
            TokenType::Slash => TokenKind::Slash,
            TokenType::Equals => TokenKind::Equals,
            TokenType::DoubleEquals => TokenKind::DoubleEquals,
            TokenType::Lparen => TokenKind::Lparen,
            TokenType::Rparen => TokenKind::Rparen,
            TokenType::PunctSemicolon => TokenKind::PunctSemicolon,
            TokenType::PunctComma => TokenKind::PunctComma,
            TokenType::EOF => TokenKind::EOF,
        }
    }
}

impl TokenType {
    /// A fresh copy of this kind.
    pub fn duplicate(&self) -> (r: TokenType)
        ensures
            r@ == self@,
    {
        match self {
            TokenType::KeywordFunc => TokenType::KeywordFunc,
            TokenType::KeywordIf => TokenType::KeywordIf,
            TokenType::LiteralTrue => TokenType::LiteralTrue,
            TokenType::LiteralFalse => TokenType::LiteralFalse,
            TokenType::LiteralIdentifier(s) => TokenType::LiteralIdentifier(s.clone()),
            TokenType::LiteralInteger(v) => TokenType::LiteralInteger(*v),
            TokenType::LiteralString(s) => TokenType::LiteralString(s.clone()),
            TokenType::Plus => TokenType::Plus,
            TokenType::Minus => TokenType::Minus,
            TokenType::Asterisk => TokenType::Asterisk,
            TokenType::Slash => TokenType::Slash,
            TokenType::Equals => TokenType::Equals,
            TokenType::DoubleEquals => TokenType::DoubleEquals,
            TokenType::Lparen => TokenType::Lparen,
            TokenType::Rparen => TokenType::Rparen,
            TokenType::PunctSemicolon => TokenType::PunctSemicolon,
            TokenType::PunctComma => TokenType::PunctComma,
            TokenType::EOF => TokenType::EOF,
        }
    }
}

/// A token: its kind, and the payload the kind carries.
#[derive(Debug, Clone, PartialEq)]
pub struct Token {
    pub kind: TokenType,
}

impl View for Token {
    type V = TokenKind;

    open spec fn view(&self) -> TokenKind {
        self.kind@
    }
}

impl Token {
    pub fn new(kind: TokenType) -> (r: Token)
        ensures
            r.kind == kind,
    {
        Token { kind }
    }

    /// A fresh copy of this token.
    pub fn duplicate(&self) -> (r: Token)
        ensures
            r@ == self@,
    {
        Token { kind: self.kind.duplicate() }
    }
}

/// The characters of `s`, in order.
fn chars_of(s: &String) -> (r: Vec<char>)
    ensures
        r@ == s@,
{
    broadcast use vstd::string::group_string_axioms;
    let mut out: Vec<char> = Vec::new();
    for c in it: s.as_str().chars()
        invariant
            out@ == it.seq().take(it.index() as int),
            it.seq() == s@,
    {
        out.push(c);
    }
    out
}


/// A failure of the scanner, with the character position where it happened.
#[derive(Debug, Clone, Copy, PartialEq, Eq, Structural)]
pub enum LexError {
    /// A quote opened at `start` has no closing quote of the same kind.
    UnterminatedString { start: usize },
    /// The character at `position` begins no token.
    UnknownSymbol { symbol: char, position: usize },
    /// The digit run starting at `start` does not fit in a signed 32-bit integer.
    IntegerOverflow { start: usize },
}

pub open spec fn is_digit(c: char) -> bool {
    '0' <= c && c <= '9'
}

pub open spec fn is_identifier_start(c: char) -> bool {
    ('a' <= c && c <= 'z') || ('A' <= c && c <= 'Z') || c == '_'
}

pub open spec fn is_identifier_char(c: char) -> bool {
    is_identifier_start(c) || is_digit(c)
}

pub open spec fn is_blank(c: char) -> bool {
    c == ' ' || c == '\n'
}

/// The first index at or after `i` whose character fails `p` (or the length of `s`).
pub open spec fn span_while(s: Seq<char>, i: int, p: spec_fn(char) -> bool) -> int
    decreases s.len() - i,
{
    if 0 <= i < s.len() && p(s[i]) {
        span_while(s, i + 1, p)
    } else {
        i
    }
}

pub open spec fn other_than(q: char) -> spec_fn(char) -> bool {
    |x: char| x != q
}

pub open spec fn digit_class() -> spec_fn(char) -> bool {
    |x: char| is_digit(x)
}

pub open spec fn identifier_class() -> spec_fn(char) -> bool {
    |x: char| is_identifier_char(x)
}

/// `span_while` stays between its start and the end of the text.
pub proof fn lemma_span_bounds(s: Seq<char>, i: int, p: spec_fn(char) -> bool)
    requires
        0 <= i <= s.len(),
    ensures
        i <= span_while(s, i, p) <= s.len(),
    decreases s.len() - i,
{
    if i < s.len() && p(s[i]) {
        lemma_span_bounds(s, i + 1, p);
    }
}

/// The numeric value of a run of decimal digits.
pub open spec fn digits_value(d: Seq<char>) -> nat
    decreases d.len(),
{
    if d.len() == 0 {
        0
    } else {
        digits_value(d.drop_last()) * 10 + (d.last() as nat - '0' as nat) as nat
    }
}

pub open spec fn spelling_func() -> Seq<char> {
    seq!['f', 'u', 'n', 'c']
}

pub open spec fn spelling_if() -> Seq<char> {
    seq!['i', 'f']
}

pub open spec fn spelling_true() -> Seq<char> {
    seq!['t', 'r', 'u', 'e']
}

pub open spec fn spelling_false() -> Seq<char> {
    seq!['f', 'a', 'l', 's', 'e']
}

/// The keyword table: the reserved spellings and the kind each one stands for.
pub open spec fn keyword_table() -> Seq<(Seq<char>, TokenKind)> {
    seq![
        (spelling_func(), TokenKind::KeywordFunc),
        (spelling_if(), TokenKind::KeywordIf),
        (spelling_true(), TokenKind::LiteralTrue),
        (spelling_false(), TokenKind::LiteralFalse),
    ]
}

/// The keyword kind that `w` spells, if it spells one.
pub open spec fn keyword_of(w: Seq<char>) -> Option<TokenKind> {
    if w == spelling_func() {
        Some(TokenKind::KeywordFunc)
    } else if w == spelling_if() {
        Some(TokenKind::KeywordIf)
    } else if w == spelling_true() {
        Some(TokenKind::LiteralTrue)
    } else if w == spelling_false() {
        Some(TokenKind::LiteralFalse)
    } else {
        None
    }
}

/// The token that an identifier-shaped word becomes: its keyword, or an identifier.
pub open spec fn word_kind(w: Seq<char>) -> TokenKind {
    match keyword_of(w) {
        Some(k) => k,
        None => TokenKind::LiteralIdentifier(w),
    }
}

/// The kind of a character that forms a token on its own.
pub open spec fn single_char_kind(c: char) -> Option<TokenKind> {
    if c == '(' {
        Some(TokenKind::Lparen)
    } else if c == ')' {
        Some(TokenKind::Rparen)
    } else if c == '+' {
        Some(TokenKind::Plus)
    } else if c == '-' {
        Some(TokenKind::Minus)
    } else if c == '*' {
        Some(TokenKind::Asterisk)
    } else if c == '/' {
        Some(TokenKind::Slash)
    } else if c == ';' {
        Some(TokenKind::PunctSemicolon)
    } else if c == ',' {
        Some(TokenKind::PunctComma)
    } else {
        None
    }
}

/// One scanning step at index `i` (with `i < s.len()`): the token read there, if any,
/// and the index just past what was consumed; or the error found there.
pub open spec fn scan_step(s: Seq<char>, i: int) -> Result<(Option<TokenKind>, int), LexError> {
    let c = s[i];
    if single_char_kind(c) is Some {
        Ok((single_char_kind(c), i + 1))
    } else if is_blank(c) {
        Ok((None, i + 1))
    } else if c == '=' {
        if i + 1 < s.len() && s[i + 1] == '=' {
            Ok((Some(TokenKind::DoubleEquals), i + 2))
        } else {
            Ok((Some(TokenKind::Equals), i + 1))
        }
    } else if c == '"' || c == '\'' {
        let close = span_while(s, i + 1, other_than(c));
        if close < s.len() {
            Ok((Some(TokenKind::LiteralString(s.subrange(i + 1, close))), close + 1))
        } else {
            Err(LexError::UnterminatedString { start: i as usize })
        }
    } else if is_digit(c) {
        let end = span_while(s, i, digit_class());
        let v = digits_value(s.subrange(i, end));
        if v <= i32::MAX {
            Ok((Some(TokenKind::LiteralInteger(v as i32)), end))
        } else {
            Err(LexError::IntegerOverflow { start: i as usize })
        }
    } else if is_identifier_start(c) {
        let end = span_while(s, i, identifier_class());
        Ok((Some(word_kind(s.subrange(i, end))), end))
    } else {
        Err(LexError::UnknownSymbol { symbol: c, position: i as usize })
    }
}

/// `prefix` put in front of the tokens of a successful scan; an error passes through.
pub open spec fn prepend(prefix: Seq<TokenKind>, r: Result<Seq<TokenKind>, LexError>) -> Result<
    Seq<TokenKind>,
    LexError,
> {
    match r {
        Ok(rest) => Ok(prefix + rest),
        Err(e) => Err(e),
    }
}

pub open spec fn optional_token(t: Option<TokenKind>) -> Seq<TokenKind> {
    match t {
        Some(k) => seq![k],
        None => seq![],
    }
}

/// Scanning `s` from index `i` to its end: the tokens read, closed by one
/// end-of-input token; or the first error met.
pub open spec fn scan_from(s: Seq<char>, i: int) -> Result<Seq<TokenKind>, LexError>
    decreases s.len() - i,
{
    if i < 0 || i >= s.len() {
        Ok(seq![TokenKind::EOF])
    } else {
        match scan_step(s, i) {
            Err(e) => Err(e),
            Ok((t, j)) => {
                // every step consumes at least one character
                if i < j <= s.len() {
                    prepend(optional_token(t), scan_from(s, j))
                } else {
                    Ok(seq![TokenKind::EOF])
                }
            },
        }
    }
}

/// The result of scanning the whole text `s`.
pub open spec fn scan(s: Seq<char>) -> Result<Seq<TokenKind>, LexError> {
    scan_from(s, 0)
}

/// The kinds of a sequence of tokens.
pub open spec fn kinds(toks: Seq<Token>) -> Seq<TokenKind> {
    toks.map_values(|t: Token| t@)
}

/// The model of a scan result made of tokens.
pub open spec fn scan_result_view(r: Result<Vec<Token>, LexError>) -> Result<Seq<TokenKind>, LexError> {
    match r {
        Ok(v) => Ok(kinds(v@)),
        Err(e) => Err(e),
    }
}


/// The result of one scanning step, with the index the cursor was left at.
pub open spec fn step_view(r: Result<Option<Token>, LexError>, j: int) -> Result<
    (Option<TokenKind>, int),
    LexError,
> {
    match r {
        Ok(Some(t)) => Ok((Some(t@), j)),
        Ok(None) => Ok((None, j)),
        Err(e) => Err(e),
    }
}

/// Converts source text into tokens, one forward pass with a single cursor.
pub struct Tokenizer {
    pub source: String,
    position: usize,
    chars: Vec<char>,
    kw_list: Vec<(String, TokenType)>,
}

impl Tokenizer {
    /// The keyword table holds the reserved spellings, in table order.
    pub closed spec fn kw_ok(&self) -> bool {
        &&& self.kw_list@.len() == keyword_table().len()
        &&& forall|k: int|
            0 <= k < keyword_table().len() ==> (#[trigger] self.kw_list@[k]).0@ == keyword_table()[k].0
                && self.kw_list@[k].1@ == keyword_table()[k].1
    }

    /// The cursor stands within the characters of the source.
    pub closed spec fn wf(&self) -> bool {
        &&& self.kw_ok()
        &&& self.chars@ == self.source@
        &&& self.position <= self.chars.len()
    }

    /// `other` has the same text and keyword table as `self`; only the cursor may differ.
    pub closed spec fn same_text(&self, other: &Self) -> bool {
        &&& self.source == other.source
        &&& self.chars == other.chars
        &&& self.kw_list == other.kw_list
    }

    /// The source text, as characters.
    pub closed spec fn source_view(&self) -> Seq<char> {
        self.source@
    }

    pub closed spec fn cursor(&self) -> int {
        self.position as int
    }

    pub closed spec fn text(&self) -> Seq<char> {
        self.chars@
    }

    pub fn new(source: String) -> (r: Tokenizer)
        ensures
            r.source_view() == source@,
            r.kw_ok(),
            r.wf(),
            r.cursor() == 0,
    {
        let chars = chars_of(&source);
        let mut kw_list: Vec<(String, TokenType)> = Vec::new();
        kw_list.push((String::from_str("func"), TokenType::KeywordFunc));
        kw_list.push((String::from_str("if"), TokenType::KeywordIf));
        kw_list.push((String::from_str("true"), TokenType::LiteralTrue));
        kw_list.push((String::from_str("false"), TokenType::LiteralFalse));
        proof {
            reveal_strlit("func");
            reveal_strlit("if");
            reveal_strlit("true");
            reveal_strlit("false");
            assert(kw_list@[0].0@ =~= spelling_func());
            assert(kw_list@[1].0@ =~= spelling_if());
            assert(kw_list@[2].0@ =~= spelling_true());
            assert(kw_list@[3].0@ =~= spelling_false());
        }
        Tokenizer { source, position: 0, chars, kw_list }
    }

    fn is_at_end(&self) -> (r: bool)
        ensures
            r == (self.position >= self.chars@.len()),
    {
        self.position >= self.chars.len()
    }

    /// The character at index `position` of the source.
    fn get_char(&self, position: usize) -> (c: char)
        requires
            position < self.chars@.len(),
        ensures
            c == self.chars@[position as int],
    {
        self.chars[position]
    }

    /// The character just after the cursor, if there is one.
    fn lookahead(&self) -> (r: Option<char>)
        requires
            self.position < self.chars@.len(),
        ensures
            r == (if self.position + 1 < self.chars@.len() {
                Some(self.chars@[self.position + 1])
            } else {
                None
            }),
    {
        if self.chars.len() - self.position > 1 {
            Some(self.chars[self.position + 1])
        } else {
            None
        }
    }

    fn char_is_digit(c: char) -> (r: bool)
        ensures
            r == is_digit(c),
    {
        '0' <= c && c <= '9'
    }

    /// Whether `c` may begin an identifier.
    fn char_is_identifier_start(c: char) -> (r: bool)
        ensures
            r == is_identifier_start(c),
    {
        ('a' <= c && c <= 'z') || ('A' <= c && c <= 'Z') || c == '_'
    }

    fn char_is_identifier(c: char) -> (r: bool)
        ensures
            r == is_identifier_char(c),
    {
        Self::char_is_identifier_start(c) || Self::char_is_digit(c)
    }

    /// The first index at or after `start` whose character is `q`, or the length of the text.
    fn find_char(&self, start: usize, q: char) -> (r: usize)
        requires
            start <= self.chars@.len(),
        ensures
            r as int == span_while(self.chars@, start as int, other_than(q)),
            start <= r <= self.chars@.len(),
    {
        let mut j = start;
        while j < self.chars.len() && self.chars[j] != q
            invariant
                start <= j <= self.chars@.len(),
                span_while(self.chars@, start as int, other_than(q)) == span_while(
                    self.chars@,
                    j as int,
                    other_than(q),
                ),
            decreases self.chars@.len() - j,
        {
            j = j + 1;
        }
        j
    }

    /// Reads a string literal whose opening quote `quote` is under the cursor.
    /// Returns the text between the quotes and leaves the cursor past the closing
    /// quote; `None`, with the cursor unmoved, where no closing quote follows.
    fn lookahead_string_literal(&mut self, quote: char) -> (r: Option<String>)
        requires
            old(self).wf(),
            old(self).position < old(self).chars@.len(),
        ensures
            final(self).wf(),
            final(self).same_text(old(self)),
            ({
                let s = old(self).chars@;
                let i = old(self).position as int;
                let close = span_while(s, i + 1, other_than(quote));
                if close < s.len() {
                    &&& r is Some
                    &&& r->0@ == s.subrange(i + 1, close)
                    &&& final(self).position == close + 1
                } else {
                    &&& r is None
                    &&& final(self).position == old(self).position
                }
            }),
    {
        let n = self.chars.len();
        let close = self.find_char(self.position + 1, quote);
        if close < n {
            let text = String::from_str(self.source.as_str().substring_char(self.position + 1, close));
            self.position = close + 1;
            Some(text)
        } else {
            None
        }
    }

    /// Reads the identifier that begins under the cursor and leaves the cursor past it.
    fn lookahead_identifier_literal(&mut self) -> (r: String)
        requires
            old(self).wf(),
            old(self).position < old(self).chars@.len(),
            is_identifier_start(old(self).chars@[old(self).position as int]),
        ensures
            final(self).wf(),
            final(self).same_text(old(self)),
            ({
                let s = old(self).chars@;
                let i = old(self).position as int;
                let end = span_while(s, i, identifier_class());
                &&& r@ == s.subrange(i, end)
                &&& final(self).position == end
            }),
    {
        let start = self.position;
        let mut j = start;
        while j < self.chars.len() && Self::char_is_identifier(self.chars[j])
            invariant
                self.wf(),
                start <= j <= self.chars@.len(),
                span_while(self.chars@, start as int, identifier_class()) == span_while(
                    self.chars@,
                    j as int,
                    identifier_class(),
                ),
            decreases self.chars@.len() - j,
        {
            j = j + 1;
        }
        let word = String::from_str(self.source.as_str().substring_char(start, j));
        self.position = j;
        word
    }

    /// Reads the integer literal that begins under the cursor and leaves the cursor
    /// past its digits; fails where its value does not fit in an `i32`.
    fn lookahead_integerliteral(&mut self) -> (r: Result<i32, LexError>)
        requires
            old(self).wf(),
            old(self).position < old(self).chars@.len(),
            is_digit(old(self).chars@[old(self).position as int]),
        ensures
            final(self).wf(),
            final(self).same_text(old(self)),
            ({
                let s = old(self).chars@;
                let i = old(self).position as int;
                let end = span_while(s, i, digit_class());
                let v = digits_value(s.subrange(i, end));
                if v <= i32::MAX {
                    &&& r == Ok::<i32, LexError>(v as i32)
                    &&& final(self).position == end
                } else {
                    r == Err::<i32, LexError>(LexError::IntegerOverflow { start: i as usize })
                }
            }),
    {
        let start = self.position;
        let mut j = start;
        let mut value: u64 = 0;
        let mut overflow = false;
        while j < self.chars.len() && Self::char_is_digit(self.chars[j])
            invariant
                self.wf(),
                start <= j <= self.chars@.len(),
                span_while(self.chars@, start as int, digit_class()) == span_while(
                    self.chars@,
                    j as int,
                    digit_class(),
                ),
                !overflow ==> value == digits_value(self.chars@.subrange(start as int, j as int)),
                !overflow ==> value <= i32::MAX,
                overflow ==> digits_value(self.chars@.subrange(start as int, j as int)) > i32::MAX,
            decreases self.chars@.len() - j,
        {
            let d = (self.chars[j] as u32 - '0' as u32) as u64;
            proof {
                let s = self.chars@;
                assert(s.subrange(start as int, j + 1).drop_last() =~= s.subrange(start as int, j as int));
                let prev = digits_value(s.subrange(start as int, j as int));
                assert(digits_value(s.subrange(start as int, j + 1)) == prev * 10 + d);
                assert(prev * 10 + d >= prev) by (nonlinear_arith);
            }
            if !overflow {
                let next = value * 10 + d;
                if next > i32::MAX as u64 {
                    overflow = true;
                } else {
                    value = next;
                }
            }
            j = j + 1;
        }
        if overflow {
            Err(LexError::IntegerOverflow { start })
        } else {
            self.position = j;
            Ok(value as i32)
        }
    }

    /// Consumes the character after the cursor where it is `c`; tells whether it did.
    fn lookahead_operator_double(&mut self, c: char) -> (r: bool)
        requires
            old(self).wf(),
            old(self).position < old(self).chars@.len(),
        ensures
            final(self).wf(),
            final(self).same_text(old(self)),
            r == (old(self).position + 1 < old(self).chars@.len() && old(self).chars@[old(self).position
                + 1] == c),
            r ==> old(self).position + 1 < old(self).chars@.len(),
            final(self).position == old(self).position + if r {
                1int
            } else {
                0int
            },
    {
        match self.lookahead() {
            Some(next) => {
                if next == c {
                    self.position = self.position + 1;
                    true
                } else {
                    false
                }
            },
            None => false,
        }
    }

    /// The keyword kind that `query` spells, looked up in the keyword table.
    fn match_keywords(&self, query: &String) -> (r: Option<TokenType>)
        requires
            self.kw_ok(),
        ensures
            match r {
                Some(t) => keyword_of(query@) == Some(t@),
                None => keyword_of(query@) is None,
            },
    {
        let mut k: usize = 0;
        while k < self.kw_list.len()
            invariant
                self.kw_ok(),
                k <= self.kw_list@.len(),
                forall|m: int| 0 <= m < k ==> keyword_table()[m].0 != query@,
            decreases self.kw_list@.len() - k,
        {
            if self.kw_list[k].0 == *query {
                assert(self.kw_list@[k as int].0@ == keyword_table()[k as int].0);
                return Some(self.kw_list[k].1.duplicate());
            }
            assert(self.kw_list@[k as int].0@ == keyword_table()[k as int].0);
            k = k + 1;
        }
        assert(keyword_table()[0].0 != query@);
        assert(keyword_table()[1].0 != query@);
        assert(keyword_table()[2].0 != query@);
        assert(keyword_table()[3].0 != query@);
        None
    }

    /// Reads the token under the cursor and leaves the cursor past it. Blanks yield
    /// `None`; a character that begins no token, an unterminated string or an
    /// integer too large for an `i32` yields the error.
    fn next_token(&mut self) -> (r: Result<Option<Token>, LexError>)
        requires
            old(self).wf(),
            old(self).position < old(self).chars@.len(),
        ensures
            final(self).wf(),
            final(self).same_text(old(self)),
            step_view(r, final(self).cursor()) == scan_step(old(self).text(), old(self).cursor()),
            r is Ok ==> final(self).cursor() > old(self).cursor(),
    {
        let start = self.position;
        let c = self.get_char(start);
        proof {
            lemma_span_bounds(self.chars@, start + 1, other_than(c));
            lemma_span_bounds(self.chars@, start + 1, identifier_class());
            lemma_span_bounds(self.chars@, start + 1, digit_class());
        }
        if let Some(kind) = Self::single_char_token(c) {
            self.position = start + 1;
            return Ok(Some(Token::new(kind)));
        }
        if c == ' ' || c == '\n' {
            self.position = start + 1;
            return Ok(None);
        }
        if c == '=' {
            let kind = if self.lookahead_operator_double('=') {
                TokenType::DoubleEquals
            } else {
                TokenType::Equals
            };
            self.position = self.position + 1;
            return Ok(Some(Token::new(kind)));
        }
        if c == '"' || c == '\'' {
            return match self.lookahead_string_literal(c) {
                Some(text) => Ok(Some(Token::new(TokenType::LiteralString(text)))),
                None => Err(LexError::UnterminatedString { start }),
            };
        }
        if Self::char_is_digit(c) {
            return match self.lookahead_integerliteral() {
                Ok(value) => Ok(Some(Token::new(TokenType::LiteralInteger(value)))),
                Err(e) => Err(e),
            };
        }
        if Self::char_is_identifier_start(c) {
            let query = self.lookahead_identifier_literal();
            // A reserved spelling is its keyword; any other word is an identifier.
            let kind = match self.match_keywords(&query) {
                Some(keyword) => keyword,
                None => TokenType::LiteralIdentifier(query),
            };
            return Ok(Some(Token::new(kind)));
        }
        Err(LexError::UnknownSymbol { symbol: c, position: start })
    }

    /// Scans the whole source text from its beginning: the tokens in order, closed
    /// by one end-of-input token, or the first lexical error met.
    pub fn tokenize(&mut self) -> (r: Result<Vec<Token>, LexError>)
        requires
            old(self).kw_ok(),
        ensures
            final(self).kw_ok(),
            final(self).source_view() == old(self).source_view(),
            scan_result_view(r) == scan(old(self).source_view()),
    {
        self.chars = chars_of(&self.source);
        self.position = 0;
        let ghost src = self.chars@;
        let mut tokenlist: Vec<Token> = Vec::new();
        assert(kinds(tokenlist@) + seq![TokenKind::EOF] =~= seq![TokenKind::EOF]);
        while !self.is_at_end()
            invariant
                self.wf(),
                self.text() == src,
                self.source_view() == src,
                old(self).source_view() == src,
                scan(src) == prepend(kinds(tokenlist@), scan_from(src, self.cursor())),
            decreases src.len() - self.cursor(),
        {
            let ghost before = kinds(tokenlist@);
            match self.next_token() {
                Err(e) => {
                    return Err(e);
                },
                Ok(Some(token)) => {
                    tokenlist.push(token);
                    proof {
                        assert(kinds(tokenlist@) =~= before + seq![token@]);
                        match scan_from(src, self.cursor()) {
                            Ok(rest) => {
                                assert(before + (seq![token@] + rest) =~= kinds(tokenlist@) + rest);
                            },
                            Err(_) => {},
                        }
                    }
                },
                Ok(None) => {
                    proof {
                        match scan_from(src, self.cursor()) {
                            Ok(rest) => {
                                assert(seq![] + rest =~= rest);
                            },
                            Err(_) => {},
                        }
                    }
                },
            }
        }
        let ghost before = kinds(tokenlist@);
        assert(scan_from(src, self.cursor()) == Ok::<Seq<TokenKind>, LexError>(seq![TokenKind::EOF]));
        tokenlist.push(Token::new(TokenType::EOF));
        assert(kinds(tokenlist@) =~= before + seq![TokenKind::EOF]);
        Ok(tokenlist)
    }

    /// The kind of a character that forms a token on its own.
    fn single_char_token(c: char) -> (r: Option<TokenType>)
        ensures
            match r {
                Some(t) => single_char_kind(c) == Some(t@),
                None => single_char_kind(c) is None,
            },
    {
        match c {
            '(' => Some(TokenType::Lparen),
            ')' => Some(TokenType::Rparen),
            '+' => Some(TokenType::Plus),
            '-' => Some(TokenType::Minus),
            '*' => Some(TokenType::Asterisk),
            '/' => Some(TokenType::Slash),
            ';' => Some(TokenType::PunctSemicolon),
            ',' => Some(TokenType::PunctComma),
            _ => None,
        }
    }
}

} // verus!
