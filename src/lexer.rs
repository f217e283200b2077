//! Splitting declaration text into tokens.
//!
//! Blanks separate tokens. An identifier starts with a letter or `_` and
//! runs over letters, digits and `_`. `=>`, `+=`, `-=`, `*=` and `/=` are
//! single tokens; any other character is a token of its own.
use vstd::prelude::*;

verus! {

/// The kinds of tokens.
#[derive(Clone, Copy, Debug, PartialEq, Eq, Structural)]
pub enum TokenKind {
    Ident,
    Eq,
    FatArrow,
    Semi,
    Comma,
    Plus,
    Minus,
    Star,
    Slash,
    PlusEq,
    MinusEq,
    StarEq,
    SlashEq,
    LBracket,
    RBracket,
    Other,
}

/// A token as the lexer defines it: its kind and the characters
/// `[start, end)` of the text that it covers.
pub struct Tok {
    pub kind: TokenKind,
    pub start: nat,
    pub end: nat,
}

/// A token of a text, with the characters it covers.
pub struct Token {
    pub kind: TokenKind,
    pub start: usize,
    pub end: usize,
    pub text: String,
}

impl View for Token {
    type V = Tok;

    open spec fn view(&self) -> Tok {
        Tok { kind: self.kind, start: self.start as nat, end: self.end as nat }
    }
}

pub open spec fn is_blank(c: char) -> bool {
    c == ' ' || c == '\t' || c == '\n' || c == '\r'
}

pub open spec fn is_ident_start(c: char) -> bool {
    ('a' <= c && c <= 'z') || ('A' <= c && c <= 'Z') || c == '_'
}

pub open spec fn is_ident_char(c: char) -> bool {
    is_ident_start(c) || ('0' <= c && c <= '9')
}

/// Where the identifier characters that run from `i` end.
pub open spec fn ident_end(s: Seq<char>, i: nat) -> nat
    decreases s.len() - i,
{
    if i < s.len() && is_ident_char(s[i as int]) {
        ident_end(s, i + 1)
    } else {
        i
    }
}

/// The kind and length of the punctuation token at `i`.
pub open spec fn punct(s: Seq<char>, i: nat) -> (TokenKind, nat) {
    let c = s[i as int];
    let eq_next = i + 1 < s.len() && s[i + 1int] == '=';
    if c == '=' {
        if i + 1 < s.len() && s[i + 1int] == '>' {
            (TokenKind::FatArrow, 2)
        } else {
            (TokenKind::Eq, 1)
        }
    } else if c == '+' {
        if eq_next { (TokenKind::PlusEq, 2) } else { (TokenKind::Plus, 1) }
    } else if c == '-' {
        if eq_next { (TokenKind::MinusEq, 2) } else { (TokenKind::Minus, 1) }
    } else if c == '*' {
        if eq_next { (TokenKind::StarEq, 2) } else { (TokenKind::Star, 1) }
    } else if c == '/' {
        if eq_next { (TokenKind::SlashEq, 2) } else { (TokenKind::Slash, 1) }
    } else if c == ';' {
        (TokenKind::Semi, 1)
    } else if c == ',' {
        (TokenKind::Comma, 1)
    } else if c == '[' {
        (TokenKind::LBracket, 1)
    } else if c == ']' {
        (TokenKind::RBracket, 1)
    } else {
        (TokenKind::Other, 1)
    }
}

/// The tokens of `s` from position `i` on, after those in `acc`.
pub open spec fn lex_from(s: Seq<char>, i: nat, acc: Seq<Tok>) -> Seq<Tok>
    decreases s.len() - i,
{
    if i >= s.len() {
        acc
    } else if is_blank(s[i as int]) {
        lex_from(s, i + 1, acc)
    } else if is_ident_start(s[i as int]) {
        let e = ident_end(s, i + 1);
        if i < e <= s.len() {
            lex_from(s, e, acc.push(Tok { kind: TokenKind::Ident, start: i, end: e }))
        } else {
            acc
        }
    } else {
        let (k, l) = punct(s, i);
        lex_from(s, i + l, acc.push(Tok { kind: k, start: i, end: i + l }))
    }
}

/// The tokens of `s`.
pub open spec fn lex(s: Seq<char>) -> Seq<Tok> {
    lex_from(s, 0, Seq::empty())
}

/// `toks` are the tokens of `s`, each with the text it covers.
pub open spec fn tokens_of(s: Seq<char>, toks: Seq<Token>) -> bool {
    &&& toks.map_values(|t: Token| t@) == lex(s)
    &&& forall|i: int|
        0 <= i < toks.len() ==> (#[trigger] toks[i]).start <= toks[i].end <= s.len()
            && toks[i].text@ == s.subrange(toks[i].start as int, toks[i].end as int)
}

proof fn lemma_ident_end(s: Seq<char>, i: nat)
    requires
        i <= s.len(),
    ensures
        i <= ident_end(s, i) <= s.len(),
    decreases s.len() - i,
{
    if i < s.len() && is_ident_char(s[i as int]) {
        lemma_ident_end(s, i + 1);
    }
}

fn is_blank_char(c: char) -> (r: bool)
    ensures
        r == is_blank(c),
{
    c == ' ' || c == '\t' || c == '\n' || c == '\r'
}

fn is_ident_start_char(c: char) -> (r: bool)
    ensures
        r == is_ident_start(c),
{
    ('a' <= c && c <= 'z') || ('A' <= c && c <= 'Z') || c == '_'
}

fn is_ident_char_char(c: char) -> (r: bool)
    ensures
        r == is_ident_char(c),
{
    is_ident_start_char(c) || ('0' <= c && c <= '9')
}

fn punct_at(s: &Vec<char>, i: usize) -> (r: (TokenKind, usize))
    requires
        i < s@.len(),
    ensures
        r.0 == punct(s@, i as nat).0,
        r.1 == punct(s@, i as nat).1,
{
    let c = s[i];
    let eq_next = s.len() - i > 1 && s[i + 1] == '=';
    if c == '=' {
        if s.len() - i > 1 && s[i + 1] == '>' {
            (TokenKind::FatArrow, 2)
        } else {
            (TokenKind::Eq, 1)
        }
    } else if c == '+' {
        if eq_next { (TokenKind::PlusEq, 2) } else { (TokenKind::Plus, 1) }
    } else if c == '-' {
        if eq_next { (TokenKind::MinusEq, 2) } else { (TokenKind::Minus, 1) }
    } else if c == '*' {
        if eq_next { (TokenKind::StarEq, 2) } else { (TokenKind::Star, 1) }
    } else if c == '/' {
        if eq_next { (TokenKind::SlashEq, 2) } else { (TokenKind::Slash, 1) }
    } else if c == ';' {
        (TokenKind::Semi, 1)
    } else if c == ',' {
        (TokenKind::Comma, 1)
    } else if c == '[' {
        (TokenKind::LBracket, 1)
    } else if c == ']' {
        (TokenKind::RBracket, 1)
    } else {
        (TokenKind::Other, 1)
    }
}

/// The characters of `src`.
pub fn chars_of(src: &str) -> (r: Vec<char>)
    ensures
        r@ == src@,
{
    let n = src.unicode_len();
    let mut r: Vec<char> = Vec::new();
    let mut i: usize = 0;
    while i < n
        invariant
            n == src@.len(),
            i <= n,
            r@ == src@.subrange(0, i as int),
        decreases n - i,
    {
        r.push(src.get_char(i));
        i = i + 1;
        assert(r@ =~= src@.subrange(0, i as int));
    }
    assert(r@ =~= src@);
    r
}

/// The tokens of `src`.
pub fn tokenize(src: &str) -> (r: Vec<Token>)
    ensures
        tokens_of(src@, r@),
{
    let s = chars_of(src);
    let n = s.len();
    let mut toks: Vec<Token> = Vec::new();
    let mut i: usize = 0;
    assert(toks@.map_values(|t: Token| t@) =~= Seq::<Tok>::empty());
    while i < n
        invariant
            n == s@.len(),
            s@ == src@,
            i <= n,
            lex(s@) == lex_from(s@, i as nat, toks@.map_values(|t: Token| t@)),
            forall|j: int|
                0 <= j < toks@.len() ==> (#[trigger] toks@[j]).start <= toks@[j].end <= n
                    && toks@[j].text@ == s@.subrange(toks@[j].start as int, toks@[j].end as int),
        decreases n - i,
    {
        let c = s[i];
        let ghost before = toks@;
        if is_blank_char(c) {
            i = i + 1;
        } else if is_ident_start_char(c) {
            let mut e: usize = i + 1;
            while e < n && is_ident_char_char(s[e])
                invariant
                    n == s@.len(),
                    i < e <= n,
                    ident_end(s@, (i + 1) as nat) == ident_end(s@, e as nat),
                decreases n - e,
            {
                e = e + 1;
            }
            proof {
                lemma_ident_end(s@, (i + 1) as nat);
            }
            let text = src.substring_char(i, e).to_owned();
            toks.push(Token { kind: TokenKind::Ident, start: i, end: e, text });
            assert(toks@.map_values(|t: Token| t@) =~= before.map_values(|t: Token| t@).push(
                Tok { kind: TokenKind::Ident, start: i as nat, end: e as nat },
            ));
            i = e;
        } else {
            let (k, l) = punct_at(&s, i);
            let text = src.substring_char(i, i + l).to_owned();
            toks.push(Token { kind: k, start: i, end: i + l, text });
            assert(toks@.map_values(|t: Token| t@) =~= before.map_values(|t: Token| t@).push(
                Tok { kind: k, start: i as nat, end: (i + l) as nat },
            ));
            i = i + l;
        }
    }
    toks
}

} // verus!
