//! The SQL-like query language: tokens, tokenizer, expressions, queries and
//! the recursive-descent parser.

use vstd::prelude::*;

use crate::text::all_digits;
use crate::text::digits_value;
use crate::text::is_alnum;
use crate::text::is_alnum_char;
use crate::text::is_alpha;
use crate::text::is_alpha_char;
use crate::text::is_digit;
use crate::text::is_digit_char;
use crate::text::is_space;
use crate::text::is_space_char;
use crate::text::eq_ignore_ascii_case;
use crate::text::lemma_digits_value_take_le;
use crate::text::lower_chars;
use crate::Error;

verus! {

// ---------------------------------------------------------------------------
// Tokens
// ---------------------------------------------------------------------------

/// The tokens of the query language.
#[derive(Debug, Clone, PartialEq, Eq)]
pub enum Token {
    Select,
    From,
    Where,
    OrderBy,
    Limit,
    And,
    Or,
    Not,
    Identifier(String),
    Varchar(String),
    Number(i64),
    Comma,
    Semicolon,
    OpenParen,
    CloseParen,
    Equal,
    GreaterThan,
    LessThan,
    EOF,
}

/// The mathematical shape of a token: text as character sequences, numbers as
/// unbounded integers.
pub enum TokenV {
    Select,
    From,
    Where,
    OrderBy,
    Limit,
    And,
    Or,
    Not,
    Identifier(Seq<char>),
    Varchar(Seq<char>),
    Number(int),
    Comma,
    Semicolon,
    OpenParen,
    CloseParen,
    Equal,
    GreaterThan,
    LessThan,
    EOF,
}

impl View for Token {
    type V = TokenV;

    open spec fn view(&self) -> TokenV {
        match self {
            Token::Select => TokenV::Select,
            Token::From => TokenV::From,
            Token::Where => TokenV::Where,
            Token::OrderBy => TokenV::OrderBy,
            Token::Limit => TokenV::Limit,
            Token::And => TokenV::And,
            Token::Or => TokenV::Or,
            Token::Not => TokenV::Not,
            Token::Identifier(s) => TokenV::Identifier(s@),
            Token::Varchar(s) => TokenV::Varchar(s@),
            Token::Number(n) => TokenV::Number(*n as int),
            Token::Comma => TokenV::Comma,
            Token::Semicolon => TokenV::Semicolon,
            Token::OpenParen => TokenV::OpenParen,
            Token::CloseParen => TokenV::CloseParen,
            Token::Equal => TokenV::Equal,
            Token::GreaterThan => TokenV::GreaterThan,
            Token::LessThan => TokenV::LessThan,
            Token::EOF => TokenV::EOF,
        }
    }
}

/// The views of a sequence of tokens.
pub open spec fn token_views(ts: Seq<Token>) -> Seq<TokenV> {
    ts.map_values(|t: Token| t@)
}

// ---------------------------------------------------------------------------
// The tokenizer, specified over the input's characters
// ---------------------------------------------------------------------------

/// First position at or after `i` that does not hold whitespace.
pub open spec fn skip_spaces(s: Seq<char>, i: int) -> int
    decreases s.len() - i,
{
    if 0 <= i < s.len() && is_space_char(s[i]) {
        skip_spaces(s, i + 1)
    } else {
        i
    }
}

/// First position at or after `i` that does not hold a letter or digit.
pub open spec fn scan_alnum_end(s: Seq<char>, i: int) -> int
    decreases s.len() - i,
{
    if 0 <= i < s.len() && is_alnum_char(s[i]) {
        scan_alnum_end(s, i + 1)
    } else {
        i
    }
}

/// First position at or after `i` that does not hold a digit.
pub open spec fn scan_digits_end(s: Seq<char>, i: int) -> int
    decreases s.len() - i,
{
    if 0 <= i < s.len() && is_digit_char(s[i]) {
        scan_digits_end(s, i + 1)
    } else {
        i
    }
}

pub proof fn lemma_skip_spaces(s: Seq<char>, i: int)
    requires
        0 <= i <= s.len(),
    ensures
        i <= skip_spaces(s, i) <= s.len(),
        skip_spaces(s, i) < s.len() ==> !is_space_char(s[skip_spaces(s, i)]),
    decreases s.len() - i,
{
    if i < s.len() && is_space_char(s[i]) {
        lemma_skip_spaces(s, i + 1);
    }
}

pub proof fn lemma_scan_alnum_end(s: Seq<char>, i: int)
    requires
        0 <= i <= s.len(),
    ensures
        i <= scan_alnum_end(s, i) <= s.len(),
        forall|j: int| i <= j < scan_alnum_end(s, i) ==> is_alnum_char(#[trigger] s[j]),
        scan_alnum_end(s, i) < s.len() ==> !is_alnum_char(s[scan_alnum_end(s, i)]),
    decreases s.len() - i,
{
    if i < s.len() && is_alnum_char(s[i]) {
        lemma_scan_alnum_end(s, i + 1);
    }
}

pub proof fn lemma_scan_digits_end(s: Seq<char>, i: int)
    requires
        0 <= i <= s.len(),
    ensures
        i <= scan_digits_end(s, i) <= s.len(),
        forall|j: int| i <= j < scan_digits_end(s, i) ==> is_digit_char(#[trigger] s[j]),
        scan_digits_end(s, i) < s.len() ==> !is_digit_char(s[scan_digits_end(s, i)]),
    decreases s.len() - i,
{
    if i < s.len() && is_digit_char(s[i]) {
        lemma_scan_digits_end(s, i + 1);
    }
}

/// A scanned word is either one of the keywords, compared case-insensitively,
/// or an identifier.
pub open spec fn keyword_token(w: Seq<char>) -> TokenV {
    let l = lower_chars(w);
    if l == "select"@ {
        TokenV::Select
    } else if l == "from"@ {
        TokenV::From
    } else if l == "where"@ {
        TokenV::Where
    } else if l == "orderby"@ {
        TokenV::OrderBy
    } else if l == "limit"@ {
        TokenV::Limit
    } else if l == "and"@ {
        TokenV::And
    } else if l == "or"@ {
        TokenV::Or
    } else if l == "not"@ {
        TokenV::Not
    } else {
        TokenV::Identifier(w)
    }
}

/// The token that starts at or after position `pos`, and the position just
/// past it: keywords and identifiers, numbers within the `i64` range,
/// quote-delimited text literals, and the punctuation characters. `None` is a
/// tokenize error: an unexpected character, an unterminated literal, or a
/// number out of range.
pub open spec fn spec_next_token(s: Seq<char>, pos: int) -> Option<(TokenV, int)> {
    let i = skip_spaces(s, pos);
    if i >= s.len() {
        Some((TokenV::EOF, s.len() as int))
    } else {
        let c = s[i];
        if is_alpha_char(c) {
            let j = scan_alnum_end(s, i);
            Some((keyword_token(s.subrange(i, j)), j))
        } else if is_digit_char(c) {
            let j = scan_digits_end(s, i);
            let v = digits_value(s.subrange(i, j));
            if v <= i64::MAX {
                Some((TokenV::Number(v), j))
            } else {
                None
            }
        } else if c == '\'' {
            let j = scan_alnum_end(s, i + 1);
            if j < s.len() && s[j] == '\'' {
                Some((TokenV::Varchar(s.subrange(i + 1, j)), j + 1))
            } else {
                None
            }
        } else if c == ',' {
            Some((TokenV::Comma, i + 1))
        } else if c == ';' {
            Some((TokenV::Semicolon, i + 1))
        } else if c == '(' {
            Some((TokenV::OpenParen, i + 1))
        } else if c == ')' {
            Some((TokenV::CloseParen, i + 1))
        } else if c == '=' {
            Some((TokenV::Equal, i + 1))
        } else if c == '>' {
            Some((TokenV::GreaterThan, i + 1))
        } else if c == '<' {
            Some((TokenV::LessThan, i + 1))
        } else {
            None
        }
    }
}

/// A successful scan stays within the input and, for every token but the end
/// marker, consumes at least one character.
pub proof fn lemma_next_token_bounds(s: Seq<char>, pos: int)
    requires
        0 <= pos <= s.len(),
    ensures
        match spec_next_token(s, pos) {
            Some((t, p)) => pos <= p <= s.len() && (!(t is EOF) ==> p > pos),
            None => true,
        },
{
    lemma_skip_spaces(s, pos);
    let i = skip_spaces(s, pos);
    if i < s.len() {
        lemma_scan_alnum_end(s, i);
        lemma_scan_digits_end(s, i);
        lemma_scan_alnum_end(s, i + 1);
        let c = s[i];
        if is_alpha_char(c) {
            let j = scan_alnum_end(s, i);
            assert(is_alnum_char(s[i]));
            assert(j > i);
            assert(!(keyword_token(s.subrange(i, j)) is EOF));
        }
    }
}

/// The whole token stream from position `pos` on, ending with the end marker;
/// `None` if any scan fails.
pub open spec fn spec_tokens(s: Seq<char>, pos: int) -> Option<Seq<TokenV>>
    decreases s.len() - pos,
{
    match spec_next_token(s, pos) {
        None => None,
        Some((t, p)) => {
            if t is EOF {
                Some(seq![TokenV::EOF])
            } else if pos < p <= s.len() {
                match spec_tokens(s, p) {
                    None => None,
                    Some(rest) => Some(seq![t] + rest),
                }
            } else {
                None
            }
        },
    }
}

// ---------------------------------------------------------------------------
// The tokenizer, executable
// ---------------------------------------------------------------------------

/// Cursor over the query text; `pos` counts characters.
pub struct Tokenizer<'a> {
    pub input: &'a str,
    pub pos: usize,
}

impl<'a> Tokenizer<'a> {
    /// Position within bounds of the input.
    pub open spec fn wf(&self) -> bool {
        self.pos <= self.input@.len()
    }

    pub fn new(input: &'a str) -> (r: Self)
        ensures
            r.wf(),
            r.input@ == input@,
            r.pos == 0,
    {
        Self { input, pos: 0 }
    }

    /// The character under the cursor.
    fn peek(&self) -> (c: char)
        requires
            self.pos < self.input@.len(),
        ensures
            c == self.input@[self.pos as int],
    {
        self.input.get_char(self.pos)
    }

    /// Move the cursor past any whitespace.
    fn skip_whitespace(&mut self)
        requires
            old(self).wf(),
        ensures
            final(self).wf(),
            final(self).input@ == old(self).input@,
            final(self).pos == skip_spaces(final(self).input@, old(self).pos as int),
            final(self).pos < final(self).input@.len() ==> !is_space_char(final(self).input@[final(self).pos as int]),
    {
        let ghost s = self.input@;
        let n = self.input.unicode_len();
        while self.pos < n && is_space(self.input.get_char(self.pos))
            invariant
                self.pos <= n,
                n == s.len(),
                self.input@ == s,
                skip_spaces(s, old(self).pos as int) == skip_spaces(s, self.pos as int),
            decreases n - self.pos,
        {
            self.pos = self.pos + 1;
        }
    }

    /// Scan a keyword or identifier starting at a letter.
    fn ident(&mut self) -> (t: Token)
        requires
            old(self).wf(),
            old(self).pos < old(self).input@.len(),
            is_alpha_char(old(self).input@[old(self).pos as int]),
        ensures
            final(self).wf(),
            final(self).input@ == old(self).input@,
            final(self).pos == scan_alnum_end(final(self).input@, old(self).pos as int),
            t@ == keyword_token(
                final(self).input@.subrange(old(self).pos as int, final(self).pos as int),
            ),
    {
        let ghost s = self.input@;
        let n = self.input.unicode_len();
        let start = self.pos;
        while self.pos < n && is_alnum(self.input.get_char(self.pos))
            invariant
                start <= self.pos <= n,
                n == s.len(),
                self.input@ == s,
                scan_alnum_end(s, start as int) == scan_alnum_end(s, self.pos as int),
            decreases n - self.pos,
        {
            self.pos = self.pos + 1;
        }
        let word = self.input.substring_char(start, self.pos);
        let ghost w = s.subrange(start as int, self.pos as int);
        if eq_ignore_ascii_case(word, "select") {
            proof {
                lemma_lower_keyword("select"@);
            }
            Token::Select
        } else if eq_ignore_ascii_case(word, "from") {
            proof {
                lemma_lower_keyword("from"@);
            }
            Token::From
        } else if eq_ignore_ascii_case(word, "where") {
            proof {
                lemma_lower_keyword("where"@);
            }
            Token::Where
        } else if eq_ignore_ascii_case(word, "orderby") {
            proof {
                lemma_lower_keyword("orderby"@);
            }
            Token::OrderBy
        } else if eq_ignore_ascii_case(word, "limit") {
            proof {
                lemma_lower_keyword("limit"@);
            }
            Token::Limit
        } else if eq_ignore_ascii_case(word, "and") {
            proof {
                lemma_lower_keyword("and"@);
            }
            Token::And
        } else if eq_ignore_ascii_case(word, "or") {
            proof {
                lemma_lower_keyword("or"@);
            }
            Token::Or
        } else if eq_ignore_ascii_case(word, "not") {
            proof {
                lemma_lower_keyword("not"@);
            }
            Token::Not
        } else {
            proof {
                lemma_lower_keywords_all();
            }
            Token::Identifier(word.to_owned())
        }
    }

    /// Scan a quote-delimited text literal.
    fn varchar(&mut self) -> (r: Result<Token, Error>)
        requires
            old(self).wf(),
            old(self).pos < old(self).input@.len(),
            old(self).input@[old(self).pos as int] == '\'',
        ensures
            final(self).wf(),
            final(self).input@ == old(self).input@,
            ({
                let s = final(self).input@;
                let i = old(self).pos as int;
                let j = scan_alnum_end(s, i + 1);
                if j < s.len() && s[j] == '\'' {
                    r matches Ok(t) && t@ == TokenV::Varchar(s.subrange(i + 1, j)) && final(self).pos
                        == j + 1
                } else {
                    r matches Err(e) && e == Error::ParseError
                }
            }),
    {
        let ghost s = self.input@;
        let n = self.input.unicode_len();
        let start = self.pos + 1;
        self.pos = start;
        while self.pos < n && is_alnum(self.input.get_char(self.pos))
            invariant
                start <= self.pos <= n,
                n == s.len(),
                self.input@ == s,
                scan_alnum_end(s, start as int) == scan_alnum_end(s, self.pos as int),
            decreases n - self.pos,
        {
            self.pos = self.pos + 1;
        }
        if self.pos < n && self.input.get_char(self.pos) == '\'' {
            let word = self.input.substring_char(start, self.pos);
            let t = Token::Varchar(word.to_owned());
            self.pos = self.pos + 1;
            Ok(t)
        } else {
            Err(Error::ParseError)
        }
    }

    /// Scan a decimal number; a value beyond `i64::MAX` is a tokenize error.
    fn number(&mut self) -> (r: Result<Token, Error>)
        requires
            old(self).wf(),
            old(self).pos < old(self).input@.len(),
            is_digit_char(old(self).input@[old(self).pos as int]),
        ensures
            final(self).wf(),
            final(self).input@ == old(self).input@,
            ({
                let s = final(self).input@;
                let i = old(self).pos as int;
                let j = scan_digits_end(s, i);
                let v = digits_value(s.subrange(i, j));
                if v <= i64::MAX {
                    r matches Ok(t) && t@ == TokenV::Number(v) && final(self).pos == j
                } else {
                    r matches Err(e) && e == Error::ParseError
                }
            }),
    {
        let ghost s = self.input@;
        let n = self.input.unicode_len();
        let start = self.pos;
        let ghost j = scan_digits_end(s, start as int);
        let ghost run = s.subrange(start as int, j);
        proof {
            lemma_scan_digits_end(s, start as int);
            assert(all_digits(run));
        }
        let mut mag: u64 = 0;
        while self.pos < n && is_digit(self.input.get_char(self.pos))
            invariant
                s == old(self).input@,
                start == old(self).pos,
                start <= self.pos <= n,
                n == s.len(),
                self.input@ == s,
                j == scan_digits_end(s, start as int),
                run == s.subrange(start as int, j),
                all_digits(run),
                start as int <= j <= n,
                forall|k: int| start <= k < j ==> is_digit_char(#[trigger] s[k]),
                j < n ==> !is_digit_char(s[j as int]),
                self.pos <= j,
                mag == digits_value(s.subrange(start as int, self.pos as int)),
                mag <= i64::MAX,
            decreases n - self.pos,
        {
            let c = self.input.get_char(self.pos);
            let d = (c as u32 - 48) as u64;
            proof {
                assert(self.pos < j) by {
                    if self.pos == j {
                        assert(is_digit_char(s[j as int]));
                    }
                }
                let t = s.subrange(start as int, self.pos + 1);
                assert(t.drop_last() =~= s.subrange(start as int, self.pos as int));
                assert(t.last() == s[self.pos as int]);
                assert(digits_value(t) == mag * 10 + d);
            }
            if mag > 922337203685477580 || (mag == 922337203685477580 && d > 7) {
                proof {
                    let t = s.subrange(start as int, self.pos + 1);
                    assert(digits_value(t) > i64::MAX);
                    assert(t =~= run.take(self.pos + 1 - start));
                    lemma_digits_value_take_le(run, self.pos + 1 - start);
                    assert(digits_value(run) > i64::MAX);
                }
                return Err(Error::ParseError);
            }
            mag = mag * 10 + d;
            self.pos = self.pos + 1;
        }
        proof {
            assert(self.pos == j) by {
                if self.pos < j {
                    assert(is_digit_char(s[self.pos as int]));
                }
            }
            assert(s.subrange(start as int, self.pos as int) =~= run);
        }
        Ok(Token::Number(mag as i64))
    }

    /// Scan the next token.
    pub fn next(&mut self) -> (r: Result<Token, Error>)
        requires
            old(self).wf(),
        ensures
            final(self).wf(),
            final(self).input@ == old(self).input@,
            match spec_next_token(final(self).input@, old(self).pos as int) {
                Some((tv, p)) => r matches Ok(t) && t@ == tv && final(self).pos == p,
                None => r matches Err(e) && e == Error::ParseError,
            },
    {
        self.skip_whitespace();
        let n = self.input.unicode_len();
        if self.pos >= n {
            return Ok(Token::EOF);
        }
        let c = self.peek();
        if is_alpha(c) {
            Ok(self.ident())
        } else if is_digit(c) {
            self.number()
        } else if c == '\'' {
            self.varchar()
        } else if c == ',' {
            self.pos = self.pos + 1;
            Ok(Token::Comma)
        } else if c == ';' {
            self.pos = self.pos + 1;
            Ok(Token::Semicolon)
        } else if c == '(' {
            self.pos = self.pos + 1;
            Ok(Token::OpenParen)
        } else if c == ')' {
            self.pos = self.pos + 1;
            Ok(Token::CloseParen)
        } else if c == '=' {
            self.pos = self.pos + 1;
            Ok(Token::Equal)
        } else if c == '>' {
            self.pos = self.pos + 1;
            Ok(Token::GreaterThan)
        } else if c == '<' {
            self.pos = self.pos + 1;
            Ok(Token::LessThan)
        } else {
            Err(Error::ParseError)
        }
    }

    /// Scan the whole input into a token list ending with the end marker.
    pub fn tokenize(&mut self) -> (r: Result<Vec<Token>, Error>)
        requires
            old(self).wf(),
        ensures
            final(self).wf(),
            match spec_tokens(old(self).input@, old(self).pos as int) {
                Some(ts) => r matches Ok(v) && token_views(v@) == ts,
                None => r matches Err(e) && e == Error::ParseError,
            },
    {
        let ghost s = self.input@;
        let ghost pos0 = self.pos as int;
        let mut out: Vec<Token> = Vec::new();
        loop
            invariant
                s == old(self).input@,
                pos0 == old(self).pos as int,
                self.wf(),
                self.input@ == s,
                match spec_tokens(s, self.pos as int) {
                    Some(rest) => spec_tokens(s, pos0) == Some(token_views(out@) + rest),
                    None => spec_tokens(s, pos0) is None,
                },
            decreases s.len() - self.pos,
        {
            let ghost p_before = self.pos as int;
            let t = match self.next() {
                Ok(t) => t,
                Err(e) => {
                    return Err(e);
                },
            };
            proof {
                lemma_next_token_bounds(s, p_before);
            }
            let is_eof = match t {
                Token::EOF => true,
                _ => false,
            };
            out.push(t);
            if is_eof {
                proof {
                    assert(token_views(out@) =~= token_views(out@.drop_last()) + seq![
                        TokenV::EOF,
                    ]);
                    assert(spec_tokens(s, p_before) == Some(seq![TokenV::EOF]));
                    assert(token_views(out@.drop_last()) + seq![TokenV::EOF] =~= token_views(
                        out@.drop_last(),
                    ) + seq![TokenV::EOF]);
                }
                return Ok(out);
            }
            proof {
                let ghost tv = t@;
                assert(token_views(out@) =~= token_views(out@.drop_last()) + seq![tv]);
                match spec_tokens(s, self.pos as int) {
                    Some(rest) => {
                        assert(spec_tokens(s, p_before) == Some(seq![tv] + rest));
                        assert(token_views(out@.drop_last()) + (seq![tv] + rest) =~= token_views(
                            out@,
                        ) + rest);
                    },
                    None => {},
                }
            }
        }
    }
}

/// Each keyword's characters are already lower case.
proof fn lemma_lower_keyword(w: Seq<char>)
    requires
        w == "select"@ || w == "from"@ || w == "where"@ || w == "orderby"@ || w == "limit"@ || w
            == "and"@ || w == "or"@ || w == "not"@,
    ensures
        lower_chars(w) == w,
{
    reveal_strlit("select");
    reveal_strlit("from");
    reveal_strlit("where");
    reveal_strlit("orderby");
    reveal_strlit("limit");
    reveal_strlit("and");
    reveal_strlit("or");
    reveal_strlit("not");
    assert(lower_chars(w) =~= w);
}

/// All eight keywords at once, for the identifier fall-through.
proof fn lemma_lower_keywords_all()
    ensures
        lower_chars("select"@) == "select"@,
        lower_chars("from"@) == "from"@,
        lower_chars("where"@) == "where"@,
        lower_chars("orderby"@) == "orderby"@,
        lower_chars("limit"@) == "limit"@,
        lower_chars("and"@) == "and"@,
        lower_chars("or"@) == "or"@,
        lower_chars("not"@) == "not"@,
{
    lemma_lower_keyword("select"@);
    lemma_lower_keyword("from"@);
    lemma_lower_keyword("where"@);
    lemma_lower_keyword("orderby"@);
    lemma_lower_keyword("limit"@);
    lemma_lower_keyword("and"@);
    lemma_lower_keyword("or"@);
    lemma_lower_keyword("not"@);
}

} // verus!


verus! {

// ---------------------------------------------------------------------------
// Expressions and queries
// ---------------------------------------------------------------------------

/// A predicate or value expression over one row.
#[derive(Debug, PartialEq, Eq)]
pub enum Expr {
    Column(String),
    Value(i64),
    Varchar(String),
    Comparison(Box<Expr>, String, Box<Expr>),
    And(Box<Expr>, Box<Expr>),
    Or(Box<Expr>, Box<Expr>),
    Not(Box<Expr>),
}

/// The mathematical shape of an expression.
pub enum ExprV {
    Column(Seq<char>),
    Value(int),
    Varchar(Seq<char>),
    Comparison(Box<ExprV>, Seq<char>, Box<ExprV>),
    And(Box<ExprV>, Box<ExprV>),
    Or(Box<ExprV>, Box<ExprV>),
    Not(Box<ExprV>),
}

pub open spec fn expr_view(e: Expr) -> ExprV
    decreases e,
{
    match e {
        Expr::Column(s) => ExprV::Column(s@),
        Expr::Value(v) => ExprV::Value(v as int),
        Expr::Varchar(s) => ExprV::Varchar(s@),
        Expr::Comparison(l, op, r) => ExprV::Comparison(
            Box::new(expr_view(*l)),
            op@,
            Box::new(expr_view(*r)),
        ),
        Expr::And(l, r) => ExprV::And(Box::new(expr_view(*l)), Box::new(expr_view(*r))),
        Expr::Or(l, r) => ExprV::Or(Box::new(expr_view(*l)), Box::new(expr_view(*r))),
        Expr::Not(e0) => ExprV::Not(Box::new(expr_view(*e0))),
    }
}

impl View for Expr {
    type V = ExprV;

    open spec fn view(&self) -> ExprV {
        expr_view(*self)
    }
}

/// The views of a sequence of strings.
pub open spec fn string_views(ss: Seq<String>) -> Seq<Seq<char>> {
    ss.map_values(|s: String| s@)
}

/// A parsed query: the projected columns, the source table, and the optional
/// filter, ordering and limit clauses.
#[derive(Debug, PartialEq, Eq)]
pub enum Query {
    Select {
        columns: Vec<String>,
        table: String,
        filter: Option<Expr>,
        order_by: Option<String>,
        limit: Option<i64>,
    },
}

/// The mathematical shape of a query.
pub struct QueryV {
    pub columns: Seq<Seq<char>>,
    pub table: Seq<char>,
    pub filter: Option<ExprV>,
    pub order_by: Option<Seq<char>>,
    pub limit: Option<int>,
}

pub open spec fn query_view(q: Query) -> QueryV {
    match q {
        Query::Select { columns, table, filter, order_by, limit } => QueryV {
            columns: string_views(columns@),
            table: table@,
            filter: match filter {
                Some(e) => Some(expr_view(e)),
                None => None,
            },
            order_by: match order_by {
                Some(c) => Some(c@),
                None => None,
            },
            limit: match limit {
                Some(n) => Some(n as int),
                None => None,
            },
        },
    }
}

impl View for Query {
    type V = QueryV;

    open spec fn view(&self) -> QueryV {
        query_view(*self)
    }
}

// ---------------------------------------------------------------------------
// The parser, specified over token views
// ---------------------------------------------------------------------------

/// The token at position `p`; past the last token the stream reads as an
/// endless run of end markers.
pub open spec fn tok_at(ts: Seq<TokenV>, p: int) -> TokenV {
    if 0 <= p < ts.len() {
        ts[p]
    } else {
        TokenV::EOF
    }
}

/// The tokens that may continue an expression.
pub open spec fn is_binop_token(t: TokenV) -> bool {
    t is Equal || t is GreaterThan || t is LessThan || t is And || t is Or
}

/// One application of a binary operator, left operand first.
pub open spec fn combine_binop(l: ExprV, t: TokenV, r: ExprV) -> ExprV {
    match t {
        TokenV::And => ExprV::And(Box::new(l), Box::new(r)),
        TokenV::Or => ExprV::Or(Box::new(l), Box::new(r)),
        TokenV::Equal => ExprV::Comparison(Box::new(l), "="@, Box::new(r)),
        TokenV::GreaterThan => ExprV::Comparison(Box::new(l), ">"@, Box::new(r)),
        _ => ExprV::Comparison(Box::new(l), "<"@, Box::new(r)),
    }
}

/// A primary expression: a column name, an integer literal, a text literal,
/// or a parenthesized expression.
pub open spec fn spec_primary(ts: Seq<TokenV>, p: int) -> Option<(ExprV, int)>
    decreases ts.len() - p, 0int,
{
    match tok_at(ts, p) {
        TokenV::Identifier(s) => Some((ExprV::Column(s), p + 1)),
        TokenV::Varchar(s) => Some((ExprV::Varchar(s), p + 1)),
        TokenV::Number(n) => Some((ExprV::Value(n), p + 1)),
        TokenV::OpenParen => {
            if 0 <= p < ts.len() {
                match spec_expr(ts, p + 1) {
                    Some((e, p2)) => {
                        if tok_at(ts, p2) is CloseParen {
                            Some((e, p2 + 1))
                        } else {
                            None
                        }
                    },
                    None => None,
                }
            } else {
                None
            }
        },
        _ => None,
    }
}

/// An expression: a primary followed by any number of binary-operator /
/// primary pairs, applied left to right with no precedence distinction.
pub open spec fn spec_expr(ts: Seq<TokenV>, p: int) -> Option<(ExprV, int)>
    decreases ts.len() - p, 2int,
{
    match spec_primary(ts, p) {
        None => None,
        Some((e, p1)) => {
            if p < p1 <= ts.len() {
                spec_expr_tail(ts, p1, e)
            } else {
                None
            }
        },
    }
}

/// The operator/primary pairs that continue an expression, folded onto the
/// accumulated left operand.
pub open spec fn spec_expr_tail(ts: Seq<TokenV>, p: int, acc: ExprV) -> Option<(ExprV, int)>
    decreases ts.len() - p, 1int,
{
    if is_binop_token(tok_at(ts, p)) {
        match spec_primary(ts, p + 1) {
            None => None,
            Some((r, p2)) => {
                if p + 1 < p2 <= ts.len() {
                    spec_expr_tail(ts, p2, combine_binop(acc, tok_at(ts, p), r))
                } else {
                    None
                }
            },
        }
    } else {
        Some((acc, p))
    }
}

/// The comma-separated column names after SELECT, and the position just past
/// them; the list may be empty.
pub open spec fn spec_columns(ts: Seq<TokenV>, p: int) -> (Seq<Seq<char>>, int)
    decreases ts.len() - p,
{
    match tok_at(ts, p) {
        TokenV::Identifier(s) => {
            if tok_at(ts, p + 1) is Comma && p + 2 <= ts.len() {
                let (rest, p2) = spec_columns(ts, p + 2);
                (seq![s] + rest, p2)
            } else {
                (seq![s], p + 1)
            }
        },
        _ => (Seq::empty(), p),
    }
}

/// The whole query: SELECT, columns, FROM, table, then the optional WHERE,
/// ORDERBY and LIMIT clauses, an optional semicolon, and the end of the
/// input. `None` is a parse error.
pub open spec fn spec_parse_query(ts: Seq<TokenV>) -> Option<QueryV> {
    if !(tok_at(ts, 0) is Select) {
        None
    } else {
        let (cols, p1) = spec_columns(ts, 1);
        if !(tok_at(ts, p1) is From) {
            None
        } else {
            match tok_at(ts, p1 + 1) {
                TokenV::Identifier(table) => spec_parse_clauses(ts, p1 + 2, cols, table),
                _ => None,
            }
        }
    }
}

/// The optional clauses after the table name.
pub open spec fn spec_parse_clauses(
    ts: Seq<TokenV>,
    p: int,
    cols: Seq<Seq<char>>,
    table: Seq<char>,
) -> Option<QueryV> {
    let fr = if tok_at(ts, p) is Where {
        match spec_expr(ts, p + 1) {
            Some((e, p2)) => Some((Some(e), p2)),
            None => None,
        }
    } else {
        Some((None::<ExprV>, p))
    };
    match fr {
        None => None,
        Some((filter, p2)) => {
            let ob = if tok_at(ts, p2) is OrderBy {
                match tok_at(ts, p2 + 1) {
                    TokenV::Identifier(c) => Some((Some(c), p2 + 2)),
                    _ => None,
                }
            } else {
                Some((None::<Seq<char>>, p2))
            };
            match ob {
                None => None,
                Some((order_by, p3)) => {
                    let li = if tok_at(ts, p3) is Limit {
                        match tok_at(ts, p3 + 1) {
                            TokenV::Number(n) => Some((Some(n), p3 + 2)),
                            _ => None,
                        }
                    } else {
                        Some((None::<int>, p3))
                    };
                    match li {
                        None => None,
                        Some((limit, p4)) => {
                            let p5 = if tok_at(ts, p4) is Semicolon {
                                p4 + 1
                            } else {
                                p4
                            };
                            if tok_at(ts, p5) is EOF {
                                Some(QueryV { columns: cols, table, filter, order_by, limit })
                            } else {
                                None
                            }
                        },
                    }
                },
            }
        },
    }
}

} // verus!

verus! {

// ---------------------------------------------------------------------------
// The parser, executable
// ---------------------------------------------------------------------------

/// The shapes a primary expression can start with.
enum PrimaryKind {
    Col(String),
    Txt(String),
    Num(i64),
    Paren,
    Bad,
}

/// The binary operator under the cursor, or the end of an expression.
enum BinOp {
    Cmp(&'static str),
    Conj,
    Disj,
    Stop,
}

/// Recursive-descent parser over a scanned token list.
pub struct Parser {
    pub tokens: Vec<Token>,
    pub pos: usize,
}

impl Parser {
    /// The token views the parser walks over.
    pub open spec fn toks(&self) -> Seq<TokenV> {
        token_views(self.tokens@)
    }

    /// Position within bounds (one past the last token at most).
    pub open spec fn wf(&self) -> bool {
        self.pos <= self.tokens@.len()
    }

    pub fn new(tokens: Vec<Token>) -> (r: Self)
        ensures
            r.wf(),
            r.tokens@ == tokens@,
            r.pos == 0,
    {
        Self { tokens, pos: 0 }
    }

    /// The token under the cursor, or nothing at the end of the list.
    fn current(&self) -> (r: Option<&Token>)
        ensures
            match r {
                Some(t) => self.pos < self.tokens@.len() && *t == self.tokens@[self.pos as int]
                    && t@ == tok_at(self.toks(), self.pos as int),
                None => self.pos >= self.tokens@.len() && tok_at(self.toks(), self.pos as int)
                    is EOF,
            },
    {
        if self.pos < self.tokens.len() {
            Some(&self.tokens[self.pos])
        } else {
            None
        }
    }

    /// Step past the token under the cursor.
    fn next(&mut self)
        requires
            old(self).wf(),
        ensures
            final(self).wf(),
            final(self).tokens == old(self).tokens,
            final(self).pos == if old(self).pos < old(self).tokens@.len() {
                old(self).pos + 1
            } else {
                old(self).pos as int
            },
    {
        if self.pos < self.tokens.len() {
            self.pos = self.pos + 1;
        }
    }

    /// Demand an identifier and step past it.
    fn ident(&mut self) -> (r: Result<String, Error>)
        requires
            old(self).wf(),
        ensures
            final(self).wf(),
            final(self).tokens == old(self).tokens,
            match tok_at(old(self).toks(), old(self).pos as int) {
                TokenV::Identifier(s) => r matches Ok(name) && name@ == s && final(self).pos
                    == old(self).pos + 1,
                _ => r matches Err(e) && e == Error::ParseError,
            },
    {
        let found = match self.current() {
            Some(Token::Identifier(id)) => Some(id.clone()),
            _ => None,
        };
        match found {
            Some(name) => {
                self.next();
                Ok(name)
            },
            None => Err(Error::ParseError),
        }
    }

    /// Demand a number and step past it.
    fn number(&mut self) -> (r: Result<i64, Error>)
        requires
            old(self).wf(),
        ensures
            final(self).wf(),
            final(self).tokens == old(self).tokens,
            match tok_at(old(self).toks(), old(self).pos as int) {
                TokenV::Number(n) => r matches Ok(v) && v as int == n && final(self).pos == old(
                    self,
                ).pos + 1,
                _ => r matches Err(e) && e == Error::ParseError,
            },
    {
        let found = match self.current() {
            Some(Token::Number(n)) => Some(*n),
            _ => None,
        };
        match found {
            Some(v) => {
                self.next();
                Ok(v)
            },
            None => Err(Error::ParseError),
        }
    }

    /// Parse a primary expression: a column name, a literal, or a
    /// parenthesized expression.
    fn primary(&mut self) -> (r: Result<Expr, Error>)
        requires
            old(self).wf(),
        ensures
            final(self).wf(),
            final(self).tokens == old(self).tokens,
            match spec_primary(old(self).toks(), old(self).pos as int) {
                Some((ev, p)) => r matches Ok(e) && e@ == ev && final(self).pos == p && old(
                    self,
                ).pos < final(self).pos,
                None => r matches Err(e) && e == Error::ParseError,
            },
        decreases self.tokens@.len() - self.pos, 0int,
    {
        let kind = match self.current() {
            Some(Token::Identifier(id)) => PrimaryKind::Col(id.clone()),
            Some(Token::Varchar(s)) => PrimaryKind::Txt(s.clone()),
            Some(Token::Number(n)) => PrimaryKind::Num(*n),
            Some(Token::OpenParen) => PrimaryKind::Paren,
            _ => PrimaryKind::Bad,
        };
        match kind {
            PrimaryKind::Col(name) => {
                self.next();
                Ok(Expr::Column(name))
            },
            PrimaryKind::Txt(s) => {
                self.next();
                Ok(Expr::Varchar(s))
            },
            PrimaryKind::Num(n) => {
                self.next();
                Ok(Expr::Value(n))
            },
            PrimaryKind::Paren => {
                self.next();
                let e = self.expr()?;
                let close = match self.current() {
                    Some(Token::CloseParen) => true,
                    _ => false,
                };
                if close {
                    self.next();
                    Ok(e)
                } else {
                    Err(Error::ParseError)
                }
            },
            PrimaryKind::Bad => Err(Error::ParseError),
        }
    }

    /// Parse an expression: a primary followed by binary-operator / primary
    /// pairs, combined left to right.
    pub fn expr(&mut self) -> (r: Result<Expr, Error>)
        requires
            old(self).wf(),
        ensures
            final(self).wf(),
            final(self).tokens == old(self).tokens,
            match spec_expr(old(self).toks(), old(self).pos as int) {
                Some((ev, p)) => r matches Ok(e) && e@ == ev && final(self).pos == p && old(
                    self,
                ).pos < final(self).pos,
                None => r matches Err(e) && e == Error::ParseError,
            },
        decreases self.tokens@.len() - self.pos, 2int,
    {
        let ghost ts = self.toks();
        let ghost pos0 = self.pos as int;
        let mut left = self.primary()?;
        loop
            invariant
                ts == self.toks(),
                ts == old(self).toks(),
                pos0 == old(self).pos as int,
                pos0 < self.pos <= self.tokens@.len(),
                old(self).tokens == self.tokens,
                spec_expr(ts, pos0) == spec_expr_tail(ts, self.pos as int, left@),
            decreases self.tokens@.len() - self.pos,
        {
            let ghost p_loop = self.pos as int;
            let ghost lv = left@;
            let op = match self.current() {
                Some(Token::Equal) => BinOp::Cmp("="),
                Some(Token::GreaterThan) => BinOp::Cmp(">"),
                Some(Token::LessThan) => BinOp::Cmp("<"),
                Some(Token::And) => BinOp::Conj,
                Some(Token::Or) => BinOp::Disj,
                _ => BinOp::Stop,
            };
            let ghost optok = tok_at(ts, p_loop);
            let stop = match op {
                BinOp::Stop => true,
                _ => false,
            };
            if stop {
                proof {
                    assert(!is_binop_token(optok));
                    assert(spec_expr_tail(ts, p_loop, lv) == Some((lv, p_loop)));
                }
                return Ok(left);
            }
            proof {
                assert(is_binop_token(optok));
            }
            self.next();
            let right = self.primary()?;
            let ghost rv = right@;
            left = match op {
                BinOp::Cmp(o) => Expr::Comparison(Box::new(left), o.to_owned(), Box::new(right)),
                BinOp::Conj => Expr::And(Box::new(left), Box::new(right)),
                BinOp::Disj => Expr::Or(Box::new(left), Box::new(right)),
                BinOp::Stop => Expr::Value(0),
            };
            proof {
                assert(left@ == combine_binop(lv, optok, rv));
                assert(spec_expr_tail(ts, p_loop, lv) == spec_expr_tail(
                    ts,
                    self.pos as int,
                    left@,
                ));
            }
        }
    }

    /// Parse the whole token list into a query.
    pub fn parse(&mut self) -> (r: Result<Query, Error>)
        requires
            old(self).wf(),
            old(self).pos == 0,
        ensures
            final(self).wf(),
            final(self).tokens == old(self).tokens,
            match spec_parse_query(old(self).toks()) {
                Some(qv) => r matches Ok(q) && q@ == qv,
                None => r matches Err(e) && e == Error::ParseError,
            },
    {
        let ghost ts = self.toks();
        let is_select = match self.current() {
            Some(Token::Select) => true,
            _ => false,
        };
        if !is_select {
            return Err(Error::ParseError);
        }
        self.next();

        // The projected column names.
        let mut columns: Vec<String> = Vec::new();
        proof {
            assert(string_views(columns@) + spec_columns(ts, 1).0 =~= spec_columns(ts, 1).0);
        }
        loop
            invariant_except_break
                spec_columns(ts, 1).0 == string_views(columns@) + spec_columns(
                    ts,
                    self.pos as int,
                ).0,
                spec_columns(ts, 1).1 == spec_columns(ts, self.pos as int).1,
            invariant
                ts == self.toks(),
                ts == old(self).toks(),
                old(self).tokens == self.tokens,
                self.wf(),
            ensures
                ts == self.toks(),
                ts == old(self).toks(),
                old(self).tokens == self.tokens,
                self.wf(),
                spec_columns(ts, 1).0 == string_views(columns@),
                spec_columns(ts, 1).1 == self.pos as int,
            decreases self.tokens@.len() - self.pos,
        {
            let ghost p_it = self.pos as int;
            let ghost cols0 = columns@;
            let name = match self.current() {
                Some(Token::Identifier(id)) => Some(id.clone()),
                _ => None,
            };
            match name {
                None => {
                    proof {
                        assert(spec_columns(ts, p_it).0 =~= Seq::<Seq<char>>::empty());
                        assert(string_views(columns@) + Seq::<Seq<char>>::empty() =~= string_views(
                            columns@,
                        ));
                    }
                    break;
                },
                Some(nm) => {
                    let ghost nv = nm@;
                    self.next();
                    columns.push(nm);
                    proof {
                        assert(string_views(columns@) =~= string_views(cols0) + seq![nv]);
                    }
                    let comma = match self.current() {
                        Some(Token::Comma) => true,
                        _ => false,
                    };
                    if comma {
                        self.next();
                        proof {
                            let rest = spec_columns(ts, p_it + 2);
                            assert(spec_columns(ts, p_it) == (seq![nv] + rest.0, rest.1));
                            assert((string_views(cols0) + seq![nv]) + rest.0 =~= string_views(
                                cols0,
                            ) + (seq![nv] + rest.0));
                        }
                    } else {
                        proof {
                            assert(spec_columns(ts, p_it) == (seq![nv], p_it + 1));
                            assert(string_views(cols0) + seq![nv] =~= string_views(columns@));
                        }
                        break;
                    }
                },
            }
        }

        let is_from = match self.current() {
            Some(Token::From) => true,
            _ => false,
        };
        if !is_from {
            return Err(Error::ParseError);
        }
        self.next();
        let table = self.ident()?;

        let ghost p2 = self.pos as int;
        let mut filter: Option<Expr> = None;
        let is_where = match self.current() {
            Some(Token::Where) => true,
            _ => false,
        };
        if is_where {
            self.next();
            filter = Some(self.expr()?);
        }

        let ghost p3 = self.pos as int;
        let mut order_by: Option<String> = None;
        let is_order = match self.current() {
            Some(Token::OrderBy) => true,
            _ => false,
        };
        if is_order {
            self.next();
            order_by = Some(self.ident()?);
        }

        let ghost p4 = self.pos as int;
        let mut limit: Option<i64> = None;
        let is_limit = match self.current() {
            Some(Token::Limit) => true,
            _ => false,
        };
        if is_limit {
            self.next();
            limit = Some(self.number()?);
        }

        let is_semi = match self.current() {
            Some(Token::Semicolon) => true,
            _ => false,
        };
        if is_semi {
            self.next();
        }
        let end_ok = match self.current() {
            None => true,
            Some(Token::EOF) => true,
            _ => false,
        };
        if !end_ok {
            return Err(Error::ParseError);
        }
        Ok(Query::Select { columns, table, filter, order_by, limit })
    }
}

} // verus!
