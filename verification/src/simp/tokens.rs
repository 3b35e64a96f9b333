//! The tokens of Simp text.
use vstd::prelude::*;
use vstd::std_specs::iter::IteratorSpec;

use crate::text::{
    debug_quoted, debug_quoted_text, decimal, is_alphanumeric, is_alphanumeric_char, push_decimal,
    text_is,
};

verus! {

/// A token of Simp text.
#[derive(Debug, Clone, PartialEq)]
pub enum Token {
    Ident(String),
    Integer(i64),
    Equals,
    Plus,
    Minus,
    LBrace,
    RBrace,
    Loop,
    Print,
}

/// Mathematical model of a [`Token`].
pub enum TokenModel {
    Ident(Seq<char>),
    Integer(i64),
    Equals,
    Plus,
    Minus,
    LBrace,
    RBrace,
    Loop,
    Print,
}

impl View for Token {
    type V = TokenModel;

    open spec fn view(&self) -> TokenModel {
        match self {
            Token::Ident(s) => TokenModel::Ident(s@),
            Token::Integer(n) => TokenModel::Integer(*n),
            Token::Equals => TokenModel::Equals,
            Token::Plus => TokenModel::Plus,
            Token::Minus => TokenModel::Minus,
            Token::LBrace => TokenModel::LBrace,
            Token::RBrace => TokenModel::RBrace,
            Token::Loop => TokenModel::Loop,
            Token::Print => TokenModel::Print,
        }
    }
}

/// The models of a sequence of tokens.
pub open spec fn tokens_model(s: Seq<Token>) -> Seq<TokenModel> {
    s.map_values(|t: Token| t@)
}

/// The `Debug` text of a token.
pub open spec fn token_text(t: TokenModel) -> Seq<char> {
    match t {
        TokenModel::Ident(s) => "Ident("@ + debug_quoted_text(s) + ")"@,
        TokenModel::Integer(n) => "Integer("@ + decimal(n as int) + ")"@,
        TokenModel::Equals => "Equals"@,
        TokenModel::Plus => "Plus"@,
        TokenModel::Minus => "Minus"@,
        TokenModel::LBrace => "LBrace"@,
        TokenModel::RBrace => "RBrace"@,
        TokenModel::Loop => "Loop"@,
        TokenModel::Print => "Print"@,
    }
}

impl Token {
    /// The `Debug` text of this token.
    pub(crate) fn text(&self) -> (r: String)
        ensures
            r@ == token_text(self@),
    {
        let mut out = String::new();
        match self {
            Token::Ident(s) => {
                out.append("Ident(");
                let q = debug_quoted(s.as_str());
                out.append(q.as_str());
                out.append(")");
            },
            Token::Integer(n) => {
                out.append("Integer(");
                push_decimal(&mut out, *n as i128);
                out.append(")");
            },
            Token::Equals => out.append("Equals"),
            Token::Plus => out.append("Plus"),
            Token::Minus => out.append("Minus"),
            Token::LBrace => out.append("LBrace"),
            Token::RBrace => out.append("RBrace"),
            Token::Loop => out.append("Loop"),
            Token::Print => out.append("Print"),
        }
        assert(out@ =~= token_text(self@));
        out
    }

    /// Whether two tokens are the same.
    pub(crate) fn same_as(&self, other: &Token) -> (r: bool)
        ensures
            r == (self@ == other@),
    {
        match (self, other) {
            (Token::Ident(a), Token::Ident(b)) => *a == *b,
            (Token::Integer(a), Token::Integer(b)) => *a == *b,
            (Token::Equals, Token::Equals) => true,
            (Token::Plus, Token::Plus) => true,
            (Token::Minus, Token::Minus) => true,
            (Token::LBrace, Token::LBrace) => true,
            (Token::RBrace, Token::RBrace) => true,
            (Token::Loop, Token::Loop) => true,
            (Token::Print, Token::Print) => true,
            _ => false,
        }
    }
}

// # Scanning

/// Whether a character is a decimal digit.
pub open spec fn is_digit(c: char) -> bool {
    '0' <= c && c <= '9'
}

/// Whether a character starts a name: an ASCII letter or `_`.
pub open spec fn is_ident_start(c: char) -> bool {
    ('a' <= c && c <= 'z') || ('A' <= c && c <= 'Z') || c == '_'
}

/// Whether a character continues a name: an alphanumeric character or `_`. On ASCII
/// the alphanumeric characters are the letters and digits.
pub open spec fn is_ident_char(c: char) -> bool {
    if (c as u32) < 128 {
        crate::text::is_ascii_alphanumeric_char(c) || c == '_'
    } else {
        is_alphanumeric_char(c) || c == '_'
    }
}

/// Where the run of digits that starts at `i` ends.
pub open spec fn digit_run_end(s: Seq<char>, i: int) -> int
    decreases s.len() - i,
{
    if 0 <= i < s.len() && is_digit(s[i]) {
        digit_run_end(s, i + 1)
    } else {
        i
    }
}

/// Where the run of name characters that starts at `i` ends.
pub open spec fn ident_run_end(s: Seq<char>, i: int) -> int
    decreases s.len() - i,
{
    if 0 <= i < s.len() && is_ident_char(s[i]) {
        ident_run_end(s, i + 1)
    } else {
        i
    }
}

/// The value of a numeral.
pub open spec fn digits_value(d: Seq<char>) -> int
    decreases d.len(),
{
    if d.len() == 0 {
        0
    } else {
        digits_value(d.drop_last()) * 10 + (d.last() as int - '0' as int)
    }
}

/// The token of a word: a keyword, or a name.
pub open spec fn word_token(w: Seq<char>) -> TokenModel {
    if w == "loop"@ {
        TokenModel::Loop
    } else if w == "print"@ {
        TokenModel::Print
    } else {
        TokenModel::Ident(w)
    }
}

/// The tokens of `s` from position `i` on: white space and unknown characters are
/// skipped, digits make an integer, a letter or `_` starts a word. `None` where a
/// numeral is greater than `i64::MAX`, on which the tokenizer aborts.
pub open spec fn tokens_from(s: Seq<char>, i: int) -> Option<Seq<TokenModel>>
    decreases s.len() - i,
{
    if i < 0 || i >= s.len() {
        Some(Seq::empty())
    } else {
        let c = s[i];
        let single = if c == '=' {
            Some(TokenModel::Equals)
        } else if c == '+' {
            Some(TokenModel::Plus)
        } else if c == '-' {
            Some(TokenModel::Minus)
        } else if c == '{' {
            Some(TokenModel::LBrace)
        } else if c == '}' {
            Some(TokenModel::RBrace)
        } else {
            None
        };
        if single is Some {
            match tokens_from(s, i + 1) {
                Some(rest) => Some(seq![single->0] + rest),
                None => None,
            }
        } else if is_digit(c) {
            let j = digit_run_end(s, i + 1);
            let v = digits_value(s.subrange(i, j));
            if j <= i || j > s.len() || v > i64::MAX {
                None
            } else {
                match tokens_from(s, j) {
                    Some(rest) => Some(seq![TokenModel::Integer(v as i64)] + rest),
                    None => None,
                }
            }
        } else if is_ident_start(c) {
            let j = ident_run_end(s, i + 1);
            if j <= i || j > s.len() {
                None
            } else {
                match tokens_from(s, j) {
                    Some(rest) => Some(seq![word_token(s.subrange(i, j))] + rest),
                    None => None,
                }
            }
        } else {
            tokens_from(s, i + 1)
        }
    }
}

/// The characters of a text.
fn chars_of(source: &str) -> (r: Vec<char>)
    ensures
        r@ == source@,
{
    let n = source.unicode_len();
    let mut r: Vec<char> = Vec::new();
    let mut chars = source.chars();
    let mut pos: usize = 0;
    assert(source@.skip(0) =~= source@);
    loop
        invariant
            n == source@.len(),
            pos <= n,
            r@ == source@.take(pos as int),
            chars.remaining() == source@.skip(pos as int),
        ensures
            pos == n,
            r@ == source@.take(pos as int),
        decreases n - pos,
    {
        match chars.next() {
            Some(c) => {
                assert(source@.take(pos + 1) =~= source@.take(pos as int).push(c));
                r.push(c);
                pos = pos + 1;
            },
            None => {
                assert(source@.skip(pos as int).len() == 0);
                break ;
            },
        }
    }
    assert(source@.take(n as int) =~= source@);
    r
}

proof fn lemma_run_bounds(s: Seq<char>, i: int)
    requires
        0 <= i <= s.len(),
    ensures
        i <= digit_run_end(s, i) <= s.len(),
        i <= ident_run_end(s, i) <= s.len(),
    decreases s.len() - i,
{
    if i < s.len() {
        lemma_run_bounds(s, i + 1);
    }
}

proof fn lemma_digit_run_digits(s: Seq<char>, i: int)
    requires
        0 <= i <= s.len(),
    ensures
        forall|k: int| i <= k < digit_run_end(s, i) ==> is_digit(#[trigger] s[k]),
    decreases s.len() - i,
{
    if i < s.len() && is_digit(s[i]) {
        lemma_digit_run_digits(s, i + 1);
    }
}

proof fn lemma_digit_run(s: Seq<char>, i: int, j: int)
    requires
        0 <= i <= j <= s.len(),
        forall|k: int| i <= k < j ==> is_digit(#[trigger] s[k]),
    ensures
        digit_run_end(s, i) == digit_run_end(s, j),
    decreases j - i,
{
    if i < j {
        lemma_digit_run(s, i + 1, j);
    }
}

proof fn lemma_ident_run(s: Seq<char>, i: int, j: int)
    requires
        0 <= i <= j <= s.len(),
        forall|k: int| i <= k < j ==> is_ident_char(#[trigger] s[k]),
    ensures
        ident_run_end(s, i) == ident_run_end(s, j),
    decreases j - i,
{
    if i < j {
        lemma_ident_run(s, i + 1, j);
    }
}

/// The tokens of Simp text, left to right; `None` where a numeral is greater than
/// `i64::MAX`.
pub fn tokenize(source: &str) -> (r: Option<Vec<Token>>)
    ensures
        match tokens_from(source@, 0) {
            Some(t) => r matches Some(v) && tokens_model(v@) == t,
            None => r is None,
        },
{
    let chars = chars_of(source);
    let ghost s = source@;
    let n = chars.len();
    let mut tokens: Vec<Token> = Vec::new();
    let mut i: usize = 0;
    assert(tokens_model(tokens@) =~= Seq::empty());
    assert(Seq::<TokenModel>::empty() + tokens_from(s, 0)->0 =~= tokens_from(s, 0)->0);
    while i < n
        invariant
            s == source@,
            chars@ == s,
            n == s.len(),
            i <= n,
            tokens_from(s, 0) == (match tokens_from(s, i as int) {
                Some(rest) => Some(tokens_model(tokens@) + rest),
                None => None::<Seq<TokenModel>>,
            }),
        decreases n - i,
    {
        let c = chars[i];
        let ghost before = tokens_model(tokens@);
        let single = if c == '=' {
            Some(Token::Equals)
        } else if c == '+' {
            Some(Token::Plus)
        } else if c == '-' {
            Some(Token::Minus)
        } else if c == '{' {
            Some(Token::LBrace)
        } else if c == '}' {
            Some(Token::RBrace)
        } else {
            None
        };
        if let Some(t) = single {
            tokens.push(t);
            i = i + 1;
            proof {
                if let Some(rest) = tokens_from(s, i as int) {
                    assert(tokens_model(tokens@) + rest =~= before + (seq![t@] + rest));
                }
            }
        } else if '0' <= c && c <= '9' {
            let start = i;
            let mut value: i64 = 0;
            i = i + 1;
            value = (c as u32 - '0' as u32) as i64;
            assert(s.subrange(start as int, i as int).drop_last() =~= Seq::<char>::empty());
            assert(s.subrange(start as int, i as int).last() == c);
            assert(digits_value(Seq::<char>::empty()) == 0);
            assert(value == digits_value(s.subrange(start as int, i as int)));
            loop
                invariant
                    s == source@,
                    chars@ == s,
                    n == s.len(),
                    start < i <= n,
                    s[start as int] == c,
                    is_digit(c),
                    tokens_model(tokens@) == before,
                    tokens_from(s, 0) == (match tokens_from(s, start as int) {
                        Some(rest) => Some(before + rest),
                        None => None::<Seq<TokenModel>>,
                    }),
                    forall|k: int| start <= k < i ==> is_digit(#[trigger] s[k]),
                    value == digits_value(s.subrange(start as int, i as int)),
                    value >= 0,
                ensures
                    start < i <= n,
                    forall|k: int| start <= k < i ==> is_digit(#[trigger] s[k]),
                    i == n || !is_digit(s[i as int]),
                    value == digits_value(s.subrange(start as int, i as int)),
                decreases n - i,
            {
                if i >= n {
                    break ;
                }
                let d = chars[i];
                if !('0' <= d && d <= '9') {
                    break ;
                }
                let dv = (d as u32 - '0' as u32) as i64;
                assert(dv == d as int - '0' as int);
                assert(s.subrange(start as int, i + 1).drop_last() =~= s.subrange(
                    start as int,
                    i as int,
                ));
                assert(s.subrange(start as int, i + 1).last() == d);
                assert(digits_value(s.subrange(start as int, i + 1)) == value * 10 + dv);
                let next: i128 = value as i128 * 10 + dv as i128;
                if next > i64::MAX as i128 {
                    proof {
                        lemma_digit_run(s, start + 1, i + 1);
                        lemma_run_bounds(s, i + 1);
                        lemma_digit_run_digits(s, i + 1);
                        lemma_digits_grow(s, start as int, i + 1, digit_run_end(s, i + 1));
                    }
                    return None;
                }
                value = next as i64;
                i = i + 1;
            }
            proof {
                lemma_digit_run(s, start + 1, i as int);
            }
            assert(digit_run_end(s, start + 1) == i);
            tokens.push(Token::Integer(value));
            proof {
                if let Some(rest) = tokens_from(s, i as int) {
                    assert(tokens_model(tokens@) + rest =~= before + (seq![
                        TokenModel::Integer(value),
                    ] + rest));
                }
            }
        } else if ('a' <= c && c <= 'z') || ('A' <= c && c <= 'Z') || c == '_' {
            let start = i;
            i = i + 1;
            loop
                invariant
                    s == source@,
                    chars@ == s,
                    n == s.len(),
                    start < i <= n,
                    s[start as int] == c,
                    is_ident_start(c),
                    tokens_model(tokens@) == before,
                    tokens_from(s, 0) == (match tokens_from(s, start as int) {
                        Some(rest) => Some(before + rest),
                        None => None::<Seq<TokenModel>>,
                    }),
                    forall|k: int| start < k < i ==> is_ident_char(#[trigger] s[k]),
                ensures
                    start < i <= n,
                    forall|k: int| start < k < i ==> is_ident_char(#[trigger] s[k]),
                    i == n || !is_ident_char(s[i as int]),
                decreases n - i,
            {
                if i >= n {
                    break ;
                }
                let d = chars[i];
                if !(is_alphanumeric(d) || d == '_') {
                    break ;
                }
                i = i + 1;
            }
            proof {
                lemma_ident_run(s, start + 1, i as int);
            }
            assert(ident_run_end(s, start + 1) == i);
            let word = source.substring_char(start, i);
            let t = if text_is(&word.to_owned(), "loop") {
                Token::Loop
            } else if text_is(&word.to_owned(), "print") {
                Token::Print
            } else {
                Token::Ident(word.to_owned())
            };
            assert(t@ == word_token(s.subrange(start as int, i as int)));
            tokens.push(t);
            proof {
                if let Some(rest) = tokens_from(s, i as int) {
                    assert(tokens_model(tokens@) + rest =~= before + (seq![t@] + rest));
                }
            }
        } else {
            i = i + 1;
        }
    }
    proof {
        assert(tokens_from(s, n as int) == Some(Seq::<TokenModel>::empty()));
        assert(tokens_model(tokens@) + Seq::<TokenModel>::empty() =~= tokens_model(tokens@));
    }
    Some(tokens)
}

/// A numeral whose prefix is already greater than `i64::MAX` is greater than it.
proof fn lemma_digits_grow(s: Seq<char>, start: int, i: int, j: int)
    requires
        0 <= start < i <= j <= s.len(),
        forall|k: int| start <= k < j ==> is_digit(#[trigger] s[k]),
        digits_value(s.subrange(start, i)) > i64::MAX,
    ensures
        digits_value(s.subrange(start, j)) > i64::MAX,
    decreases j - i,
{
    if i < j {
        assert(s.subrange(start, i + 1).drop_last() =~= s.subrange(start, i));
        lemma_digits_grow(s, start, i + 1, j);
    }
}

} // verus!
