//! Lexical analysis: the token alphabet of the schema language and a
//! tokenizer proved equivalent to a character-level specification.

use vstd::prelude::*;
use vstd::string::StrSliceExecFns;
use vstd::string::StringExecFns;

verus! {

/// Character-for-character equality of two string slices.
pub fn str_eq(a: &str, b: &str) -> (r: bool)
    ensures
        r == (a@ == b@),
{
    let n = a.unicode_len();
    if n != b.unicode_len() {
        return false;
    }
    let mut i: usize = 0;
    while i < n
        invariant
            n == a@.len(),
            n == b@.len(),
            i <= n,
            forall|k: int| 0 <= k < i ==> a@[k] == b@[k],
        decreases n - i,
    {
        if a.get_char(i) != b.get_char(i) {
            return false;
        }
        i += 1;
    }
    proof {
        assert(a@ =~= b@);
    }
    true
}

/// An owned copy of a string slice.
pub fn copy_str(s: &str) -> (r: String)
    ensures
        r@ == s@,
{
    String::from_str(s)
}

/// Ghost form of one token.
pub enum TokenV {
    KwModule,
    KwUse,
    KwType,
    KwMessage,
    KwAs,
    Ident(Seq<char>),
    StrLit(Seq<char>),
    AttrOpen,
    RBracket,
    Equals,
    Semi,
    Colon,
    Comma,
    Question,
    Lt,
    Gt,
    LBrace,
    RBrace,
    Pipe,
    LParen,
    RParen,
    Dot,
    Star,
}

/// One lexical token of the schema language: a keyword, an identifier
/// segment, a quoted string, or a punctuation mark (`#[` is lexed as the
/// single attribute opener).
#[derive(Debug, PartialEq)]
pub enum Token {
    KwModule,
    KwUse,
    KwType,
    KwMessage,
    KwAs,
    Ident(String),
    StrLit(String),
    AttrOpen,
    RBracket,
    Equals,
    Semi,
    Colon,
    Comma,
    Question,
    Lt,
    Gt,
    LBrace,
    RBrace,
    Pipe,
    LParen,
    RParen,
    Dot,
    Star,
}

impl View for Token {
    type V = TokenV;

    open spec fn view(&self) -> TokenV {
        match self {
            Token::KwModule => TokenV::KwModule,
            Token::KwUse => TokenV::KwUse,
            Token::KwType => TokenV::KwType,
            Token::KwMessage => TokenV::KwMessage,
            Token::KwAs => TokenV::KwAs,
            Token::Ident(s) => TokenV::Ident(s@),
            Token::StrLit(s) => TokenV::StrLit(s@),
            Token::AttrOpen => TokenV::AttrOpen,
            Token::RBracket => TokenV::RBracket,
            Token::Equals => TokenV::Equals,
            Token::Semi => TokenV::Semi,
            Token::Colon => TokenV::Colon,
            Token::Comma => TokenV::Comma,
            Token::Question => TokenV::Question,
            Token::Lt => TokenV::Lt,
            Token::Gt => TokenV::Gt,
            Token::LBrace => TokenV::LBrace,
            Token::RBrace => TokenV::RBrace,
            Token::Pipe => TokenV::Pipe,
            Token::LParen => TokenV::LParen,
            Token::RParen => TokenV::RParen,
            Token::Dot => TokenV::Dot,
            Token::Star => TokenV::Star,
        }
    }
}

/// The view of a token sequence.
pub open spec fn tokens_view(ts: Seq<Token>) -> Seq<TokenV> {
    ts.map_values(|t: Token| t@)
}

/// Whitespace between tokens.
pub open spec fn is_space_char(c: char) -> bool {
    c == ' ' || c == '\t' || c == '\r' || c == '\n'
}

/// A character that may open an identifier segment.
pub open spec fn is_ident_start_char(c: char) -> bool {
    ('a' <= c && c <= 'z') || ('A' <= c && c <= 'Z') || c == '_'
}

/// A character that may continue an identifier segment.
pub open spec fn is_ident_char(c: char) -> bool {
    is_ident_start_char(c) || ('0' <= c && c <= '9')
}

fn space_ex(c: char) -> (r: bool)
    ensures
        r == is_space_char(c),
{
    c == ' ' || c == '\t' || c == '\r' || c == '\n'
}

fn ident_start_ex(c: char) -> (r: bool)
    ensures
        r == is_ident_start_char(c),
{
    ('a' <= c && c <= 'z') || ('A' <= c && c <= 'Z') || c == '_'
}

fn ident_char_ex(c: char) -> (r: bool)
    ensures
        r == is_ident_char(c),
{
    ident_start_ex(c) || ('0' <= c && c <= '9')
}

/// The length of the longest identifier-character prefix of `s`.
pub open spec fn ident_run(s: Seq<char>) -> nat
    decreases s.len(),
{
    if s.len() > 0 && is_ident_char(s[0]) {
        (1 + ident_run(s.drop_first())) as nat
    } else {
        0
    }
}

proof fn lemma_ident_run_le(s: Seq<char>)
    ensures
        ident_run(s) <= s.len(),
    decreases s.len(),
{
    if s.len() > 0 && is_ident_char(s[0]) {
        lemma_ident_run_le(s.drop_first());
    }
}

proof fn lemma_ident_run_eq(s: Seq<char>, m: int)
    requires
        0 <= m <= s.len(),
        forall|k: int| 0 <= k < m ==> is_ident_char(#[trigger] s[k]),
        m == s.len() || !is_ident_char(s[m]),
    ensures
        ident_run(s) == m,
    decreases m,
{
    if m == 0 {
    } else {
        assert(is_ident_char(s[0]));
        lemma_ident_run_eq(s.drop_first(), m - 1);
    }
}

/// The position of the first `"` at or after `j`, if any.
pub open spec fn find_quote(s: Seq<char>, j: int) -> Option<int>
    decreases s.len() - j,
{
    if j >= s.len() {
        None
    } else if s[j] == '"' {
        Some(j)
    } else {
        find_quote(s, j + 1)
    }
}

proof fn lemma_find_quote_some(s: Seq<char>, j: int, q: int)
    requires
        0 <= j <= q < s.len(),
        s[q] == '"',
        forall|k: int| j <= k < q ==> #[trigger] s[k] != '"',
    ensures
        find_quote(s, j) == Some(q),
    decreases q - j,
{
    if j < q {
        lemma_find_quote_some(s, j + 1, q);
    }
}

proof fn lemma_find_quote_none(s: Seq<char>, j: int)
    requires
        0 <= j,
        forall|k: int| j <= k < s.len() ==> #[trigger] s[k] != '"',
    ensures
        find_quote(s, j) is None,
    decreases s.len() - j,
{
    if j < s.len() {
        lemma_find_quote_none(s, j + 1);
    }
}

/// Classification of an identifier run: the five keywords are recognised,
/// anything else is an identifier segment.
pub open spec fn word_token(w: Seq<char>) -> TokenV {
    if w == "module"@ {
        TokenV::KwModule
    } else if w == "use"@ {
        TokenV::KwUse
    } else if w == "type"@ {
        TokenV::KwType
    } else if w == "message"@ {
        TokenV::KwMessage
    } else if w == "as"@ {
        TokenV::KwAs
    } else {
        TokenV::Ident(w)
    }
}

/// The token denoted by a single punctuation character, if any.
pub open spec fn punct_token(c: char) -> Option<TokenV> {
    if c == ']' {
        Some(TokenV::RBracket)
    } else if c == '=' {
        Some(TokenV::Equals)
    } else if c == ';' {
        Some(TokenV::Semi)
    } else if c == ':' {
        Some(TokenV::Colon)
    } else if c == ',' {
        Some(TokenV::Comma)
    } else if c == '?' {
        Some(TokenV::Question)
    } else if c == '<' {
        Some(TokenV::Lt)
    } else if c == '>' {
        Some(TokenV::Gt)
    } else if c == '{' {
        Some(TokenV::LBrace)
    } else if c == '}' {
        Some(TokenV::RBrace)
    } else if c == '|' {
        Some(TokenV::Pipe)
    } else if c == '(' {
        Some(TokenV::LParen)
    } else if c == ')' {
        Some(TokenV::RParen)
    } else if c == '.' {
        Some(TokenV::Dot)
    } else if c == '*' {
        Some(TokenV::Star)
    } else {
        None
    }
}

fn punct_ex(c: char) -> (r: Option<Token>)
    ensures
        match r {
            Some(t) => punct_token(c) == Some(t@),
            None => punct_token(c) is None,
        },
{
    if c == ']' {
        Some(Token::RBracket)
    } else if c == '=' {
        Some(Token::Equals)
    } else if c == ';' {
        Some(Token::Semi)
    } else if c == ':' {
        Some(Token::Colon)
    } else if c == ',' {
        Some(Token::Comma)
    } else if c == '?' {
        Some(Token::Question)
    } else if c == '<' {
        Some(Token::Lt)
    } else if c == '>' {
        Some(Token::Gt)
    } else if c == '{' {
        Some(Token::LBrace)
    } else if c == '}' {
        Some(Token::RBrace)
    } else if c == '|' {
        Some(Token::Pipe)
    } else if c == '(' {
        Some(Token::LParen)
    } else if c == ')' {
        Some(Token::RParen)
    } else if c == '.' {
        Some(Token::Dot)
    } else if c == '*' {
        Some(Token::Star)
    } else {
        None
    }
}

/// The token sequence denoted by the character sequence `s`, or `None` when
/// some character fits no token: whitespace separates tokens, an identifier
/// run is as long as possible and keywords are carved out of it, a quoted
/// string runs to the next `"` with no escapes, and `#[` opens an attribute.
pub open spec fn spec_tokenize(s: Seq<char>) -> Option<Seq<TokenV>>
    decreases s.len(),
    via spec_tokenize_decreases
{
    if s.len() == 0 {
        Some(Seq::empty())
    } else if is_space_char(s[0]) {
        spec_tokenize(s.drop_first())
    } else if is_ident_start_char(s[0]) {
        let n = ident_run(s) as int;
        match spec_tokenize(s.skip(n)) {
            Some(rest) => Some(seq![word_token(s.take(n))] + rest),
            None => None,
        }
    } else if s[0] == '"' {
        match find_quote(s, 1) {
            Some(q) => match spec_tokenize(s.skip(q + 1)) {
                Some(rest) => Some(seq![TokenV::StrLit(s.subrange(1, q))] + rest),
                None => None,
            },
            None => None,
        }
    } else if s[0] == '#' {
        if s.len() >= 2 && s[1] == '[' {
            match spec_tokenize(s.skip(2)) {
                Some(rest) => Some(seq![TokenV::AttrOpen] + rest),
                None => None,
            }
        } else {
            None
        }
    } else {
        match punct_token(s[0]) {
            Some(t) => match spec_tokenize(s.drop_first()) {
                Some(rest) => Some(seq![t] + rest),
                None => None,
            },
            None => None,
        }
    }
}

#[via_fn]
proof fn spec_tokenize_decreases(s: Seq<char>)
{
    if s.len() > 0 {
        if is_ident_start_char(s[0]) {
            lemma_ident_run_le(s);
            assert(ident_run(s) >= 1);
        } else if !is_space_char(s[0]) && s[0] == '"' {
            if find_quote(s, 1) is Some {
                lemma_find_quote_in_range(s, 1);
            }
        }
    }
}

proof fn lemma_find_quote_in_range(s: Seq<char>, j: int)
    requires
        0 <= j,
        find_quote(s, j) is Some,
    ensures
        j <= find_quote(s, j)->0 < s.len(),
        s[find_quote(s, j)->0] == '"',
    decreases s.len() - j,
{
    if j < s.len() && s[j] != '"' {
        lemma_find_quote_in_range(s, j + 1);
    }
}

/// Prepends an already-lexed token prefix onto the outcome for the rest of
/// the input.
pub open spec fn tok_join(prefix: Seq<TokenV>, rest: Option<Seq<TokenV>>) -> Option<Seq<TokenV>> {
    match rest {
        Some(r) => Some(prefix + r),
        None => None,
    }
}

/// Splits source text into tokens; fails, reporting the character position
/// reached, exactly when the text fits no tokenization.
pub fn tokenize(s: &str) -> (r: Result<Vec<Token>, usize>)
    ensures
        match r {
            Ok(toks) => spec_tokenize(s@) == Some(tokens_view(toks@)),
            Err(p) => spec_tokenize(s@) is None && p <= s@.len(),
        },
{
    let n = s.unicode_len();
    let mut out: Vec<Token> = Vec::new();
    let mut i: usize = 0;
    proof {
        assert(s@.skip(0) =~= s@);
        assert(tokens_view(out@) =~= Seq::<TokenV>::empty());
    }
    while i < n
        invariant
            n == s@.len(),
            i <= n,
            spec_tokenize(s@) == tok_join(tokens_view(out@), spec_tokenize(s@.skip(i as int))),
        decreases n - i,
    {
        let ghost suf = s@.skip(i as int);
        let ghost pre = tokens_view(out@);
        proof {
            assert(suf.len() == n - i);
            assert(forall|k: int| 0 <= k < suf.len() ==> suf[k] == s@[i + k]);
        }
        let c = s.get_char(i);
        if space_ex(c) {
            proof {
                assert(suf.drop_first() =~= s@.skip(i + 1));
            }
            i += 1;
        } else if ident_start_ex(c) {
            let mut j = i + 1;
            loop
                invariant
                    n == s@.len(),
                    i < j <= n,
                    forall|k: int| i <= k < j ==> is_ident_char(#[trigger] s@[k]),
                ensures
                    i < j <= n,
                    forall|k: int| i <= k < j ==> is_ident_char(#[trigger] s@[k]),
                    j == n || !is_ident_char(s@[j as int]),
                decreases n - j,
            {
                if j >= n {
                    break;
                }
                if !ident_char_ex(s.get_char(j)) {
                    break;
                }
                j += 1;
            }
            proof {
                assert(forall|k: int| 0 <= k < j - i ==> is_ident_char(#[trigger] suf[k]));
                if j < n {
                    assert(suf[j - i] == s@[j as int]);
                }
                lemma_ident_run_eq(suf, j - i);
            }
            let word = s.substring_char(i, j);
            proof {
                assert(word@ =~= suf.take(j - i));
            }
            let tok: Token = if str_eq(word, "module") {
                Token::KwModule
            } else if str_eq(word, "use") {
                Token::KwUse
            } else if str_eq(word, "type") {
                Token::KwType
            } else if str_eq(word, "message") {
                Token::KwMessage
            } else if str_eq(word, "as") {
                Token::KwAs
            } else {
                Token::Ident(String::from_str(word))
            };
            proof {
                assert(tok@ == word_token(suf.take(j - i)));
                assert(suf.skip(j - i) =~= s@.skip(j as int));
                assert(tokens_view(out@.push(tok)) =~= pre + seq![tok@]);
                match spec_tokenize(s@.skip(j as int)) {
                    Some(rest) => {
                        assert(spec_tokenize(suf) == Some(seq![tok@] + rest));
                        assert(pre + (seq![tok@] + rest) =~= (pre + seq![tok@]) + rest);
                    },
                    None => {},
                }
            }
            out.push(tok);
            i = j;
        } else if c == '"' {
            let mut j = i + 1;
            loop
                invariant
                    n == s@.len(),
                    i < j <= n,
                    forall|k: int| i + 1 <= k < j ==> #[trigger] s@[k] != '"',
                ensures
                    i < j <= n,
                    j == n || s@[j as int] == '"',
                    forall|k: int| i + 1 <= k < j ==> #[trigger] s@[k] != '"',
                decreases n - j,
            {
                if j >= n {
                    break;
                }
                if s.get_char(j) == '"' {
                    break;
                }
                j += 1;
            }
            if j >= n {
                proof {
                    assert(forall|k: int| 1 <= k < suf.len() ==> #[trigger] suf[k] == s@[i + k]
                        && s@[i + k] != '"');
                    lemma_find_quote_none(suf, 1);
                    assert(spec_tokenize(suf) is None);
                }
                return Err(i);
            }
            proof {
                assert(forall|k: int| 1 <= k < j - i ==> #[trigger] suf[k] != '"');
                assert(suf[j - i] == s@[j as int]);
                lemma_find_quote_some(suf, 1, j - i);
            }
            let value = s.substring_char(i + 1, j);
            let tok = Token::StrLit(String::from_str(value));
            proof {
                assert(tok@ == TokenV::StrLit(suf.subrange(1, j - i))) by {
                    assert(value@ =~= suf.subrange(1, j - i));
                }
                assert(suf.skip(j - i + 1) =~= s@.skip(j + 1));
                assert(tokens_view(out@.push(tok)) =~= pre + seq![tok@]);
                match spec_tokenize(s@.skip(j + 1)) {
                    Some(rest) => {
                        assert(spec_tokenize(suf) == Some(seq![tok@] + rest));
                        assert(pre + (seq![tok@] + rest) =~= (pre + seq![tok@]) + rest);
                    },
                    None => {},
                }
            }
            out.push(tok);
            i = j + 1;
        } else if c == '#' {
            if i + 1 < n && s.get_char(i + 1) == '[' {
                let tok = Token::AttrOpen;
                proof {
                    assert(suf.len() >= 2 && suf[1] == '[');
                    assert(suf.skip(2) =~= s@.skip(i + 2));
                    assert(tokens_view(out@.push(tok)) =~= pre + seq![tok@]);
                    match spec_tokenize(s@.skip(i + 2)) {
                        Some(rest) => {
                            assert(spec_tokenize(suf) == Some(seq![tok@] + rest));
                            assert(pre + (seq![tok@] + rest) =~= (pre + seq![tok@]) + rest);
                        },
                        None => {},
                    }
                }
                out.push(tok);
                i += 2;
            } else {
                proof {
                    if i + 1 < n {
                        assert(suf[1] == s@[i + 1]);
                    }
                }
                return Err(i);
            }
        } else {
            match punct_ex(c) {
                Some(tok) => {
                    proof {
                        assert(suf.drop_first() =~= s@.skip(i + 1));
                        assert(tokens_view(out@.push(tok)) =~= pre + seq![tok@]);
                        match spec_tokenize(s@.skip(i + 1)) {
                            Some(rest) => {
                                assert(spec_tokenize(suf) == Some(seq![tok@] + rest));
                                assert(pre + (seq![tok@] + rest) =~= (pre + seq![tok@]) + rest);
                            },
                            None => {},
                        }
                    }
                    out.push(tok);
                    i += 1;
                },
                None => {
                    return Err(i);
                },
            }
        }
    }
    proof {
        assert(s@.skip(n as int) =~= Seq::<char>::empty());
        assert(spec_tokenize(s@) == Some(tokens_view(out@) + Seq::<TokenV>::empty()));
        assert(tokens_view(out@) + Seq::<TokenV>::empty() =~= tokens_view(out@));
    }
    Ok(out)
}

} // verus!
