use vstd::prelude::*;
use crate::text::{is_space, spec_is_space};

verus! {

/// A unit of a program, as produced by [`tokenize`].
///
/// `N` is the number type of the machine; the library never inspects a number,
/// it only carries it from the parser to the arithmetic and formatting functions
/// that the caller supplies.
#[derive(Debug, Clone, PartialEq)]
pub enum Token<N> {
    Number(N),
    String(String),
    Word(String),
    Boolean(bool),
}

/// The mathematical value of a [`Token`]: texts are seen as sequences of characters.
pub enum TokenView<N> {
    Number(N),
    String(Seq<char>),
    Word(Seq<char>),
    Boolean(bool),
}

impl<N> View for Token<N> {
    type V = TokenView<N>;

    open spec fn view(&self) -> TokenView<N> {
        match self {
            Token::Number(n) => TokenView::Number(*n),
            Token::String(s) => TokenView::String(s@),
            Token::Word(w) => TokenView::Word(w@),
            Token::Boolean(b) => TokenView::Boolean(*b),
        }
    }
}

/// A lexeme: a stretch of source text before classification.
pub enum Lexeme {
    /// The interior of a double-quoted string.
    Quoted(Seq<char>),
    /// A maximal run of non-whitespace characters not opened by a quote.
    Bare(Seq<char>),
}

/// Index of the first `"` at or after `k`, or `s.len()` when there is none.
pub open spec fn quote_end(s: Seq<char>, k: int) -> int
    decreases s.len() - k,
{
    if k >= s.len() {
        s.len() as int
    } else if s[k] == '"' {
        k
    } else {
        quote_end(s, k + 1)
    }
}

/// Index of the first whitespace character at or after `k`, or `s.len()`.
pub open spec fn word_end(s: Seq<char>, k: int) -> int
    decreases s.len() - k,
{
    if k >= s.len() {
        s.len() as int
    } else if spec_is_space(s[k]) {
        k
    } else {
        word_end(s, k + 1)
    }
}

pub(crate) proof fn lemma_quote_end_bounds(s: Seq<char>, k: int)
    requires
        0 <= k <= s.len(),
    ensures
        k <= quote_end(s, k) <= s.len(),
        quote_end(s, k) < s.len() ==> s[quote_end(s, k)] == '"',
        forall|m: int| k <= m < quote_end(s, k) ==> s[m] != '"',
    decreases s.len() - k,
{
    if k < s.len() && s[k] != '"' {
        lemma_quote_end_bounds(s, k + 1);
    }
}

pub(crate) proof fn lemma_word_end_bounds(s: Seq<char>, k: int)
    requires
        0 <= k <= s.len(),
    ensures
        k <= word_end(s, k) <= s.len(),
        word_end(s, k) < s.len() ==> spec_is_space(s[word_end(s, k)]),
        forall|m: int| k <= m < word_end(s, k) ==> !spec_is_space(s[m]),
    decreases s.len() - k,
{
    if k < s.len() && !spec_is_space(s[k]) {
        lemma_word_end_bounds(s, k + 1);
    }
}

/// The lexemes of `s` from position `i` on, in order.
pub open spec fn lexemes_from(s: Seq<char>, i: int) -> Seq<Lexeme>
    decreases s.len() - i,
    via lexemes_from_decreases
{
    if i < 0 || i >= s.len() {
        Seq::empty()
    } else if spec_is_space(s[i]) {
        lexemes_from(s, i + 1)
    } else if s[i] == '"' {
        let j = quote_end(s, i + 1);
        let next = if j < s.len() { j + 1 } else { j };
        seq![Lexeme::Quoted(s.subrange(i + 1, j))] + lexemes_from(s, next)
    } else {
        let j = word_end(s, i);
        seq![Lexeme::Bare(s.subrange(i, j))] + lexemes_from(s, j)
    }
}

#[via_fn]
proof fn lexemes_from_decreases(s: Seq<char>, i: int) {
    if 0 <= i < s.len() && !spec_is_space(s[i]) {
        lemma_quote_end_bounds(s, i + 1);
        lemma_word_end_bounds(s, i + 1);
    }
}

/// The lexemes of a whole source text.
pub open spec fn lexemes(s: Seq<char>) -> Seq<Lexeme> {
    lexemes_from(s, 0)
}

} // verus!

verus! {

/// The boolean that `w` spells, as `bool`'s `FromStr` reads it: exactly `true` or `false`.
pub open spec fn spec_bool_literal(w: Seq<char>) -> Option<bool> {
    if w == "true"@ {
        Some(true)
    } else if w == "false"@ {
        Some(false)
    } else {
        None
    }
}

/// The token that the bare word `w` becomes, given what the number parser made of it:
/// a number first, else a boolean literal, else a word.
pub open spec fn spec_classify<N>(w: Seq<char>, number: Option<N>) -> TokenView<N> {
    match number {
        Some(n) => TokenView::Number(n),
        None => match spec_bool_literal(w) {
            Some(b) => TokenView::Boolean(b),
            None => TokenView::Word(w),
        },
    }
}

/// Whether `t` is a token that the lexeme `lx` may become when bare words are
/// handed to the number parser `parse`.
pub open spec fn lexeme_token<N, F: Fn(&str) -> Option<N>>(
    parse: F,
    lx: Lexeme,
    t: TokenView<N>,
) -> bool {
    match lx {
        Lexeme::Quoted(q) => t == TokenView::<N>::String(q),
        Lexeme::Bare(w) => exists|x: &str, r: Option<N>|
            x@ == w && #[trigger] parse.ensures((x,), r) && t == spec_classify(w, r),
    }
}

/// Whether `toks` are the tokens of the source text `s` when bare words are handed
/// to the number parser `parse`.
pub open spec fn tokens_of<N, F: Fn(&str) -> Option<N>>(
    parse: F,
    s: Seq<char>,
    toks: Seq<TokenView<N>>,
) -> bool {
    &&& toks.len() == lexemes(s).len()
    &&& forall|k: int|
        0 <= k < toks.len() ==> lexeme_token(parse, lexemes(s)[k], #[trigger] toks[k])
}

/// Turns a bare word into a token, given what the number parser made of it.
pub fn classify<N>(word: String, number: Option<N>) -> (t: Token<N>)
    ensures
        t@ == spec_classify(word@, number),
{
    match number {
        Some(n) => Token::Number(n),
        None => {
            if word == String::from_str("true") {
                Token::Boolean(true)
            } else if word == String::from_str("false") {
                Token::Boolean(false)
            } else {
                Token::Word(word)
            }
        },
    }
}

/// Splits `input` into tokens, reading bare words as numbers with `parse_number`.
///
/// Never fails: an unterminated string runs to the end of the input.
pub fn tokenize<N, F: Fn(&str) -> Option<N>>(input: &str, parse_number: F) -> (tokens: Vec<
    Token<N>,
>)
    requires
        forall|x: &str| parse_number.requires((x,)),
    ensures
        tokens_of(parse_number, input@, tokens@.map_values(|t: Token<N>| t@)),
{
    let ghost s = input@;
    let len = input.unicode_len();
    let mut tokens: Vec<Token<N>> = Vec::new();
    let ghost mut done: Seq<Lexeme> = Seq::empty();
    let mut i: usize = 0;
    while i < len
        invariant
            s == input@,
            len == s.len(),
            i <= len,
            lexemes(s) == done + lexemes_from(s, i as int),
            tokens@.len() == done.len(),
            forall|k: int|
                0 <= k < tokens@.len() ==> lexeme_token(
                    parse_number,
                    done[k],
                    #[trigger] tokens@[k]@,
                ),
            forall|x: &str| parse_number.requires((x,)),
        decreases len - i,
    {
        let c = input.get_char(i);
        if is_space(c) {
            i = i + 1;
        } else if c == '"' {
            let mut j: usize = i + 1;
            while j < len && input.get_char(j) != '"'
                invariant
                    s == input@,
                    len == s.len(),
                    i < j <= len,
                    quote_end(s, i + 1) == quote_end(s, j as int),
                decreases len - j,
            {
                j = j + 1;
            }
            let body = String::from_str(input.substring_char(i + 1, j));
            let ghost lx = Lexeme::Quoted(s.subrange(i + 1, j as int));
            let next = if j < len { j + 1 } else { j };
            assert(lexemes_from(s, i as int) == seq![lx] + lexemes_from(s, next as int));
            tokens.push(Token::String(body));
            proof {
                assert(done.push(lx) + lexemes_from(s, next as int) =~= done + (seq![lx]
                    + lexemes_from(s, next as int)));
                done = done.push(lx);
            }
            i = next;
        } else {
            let mut j: usize = i + 1;
            while j < len && !is_space(input.get_char(j))
                invariant
                    s == input@,
                    len == s.len(),
                    i < j <= len,
                    word_end(s, i as int) == word_end(s, j as int),
                decreases len - j,
            {
                j = j + 1;
            }
            let word = String::from_str(input.substring_char(i, j));
            let ghost lx = Lexeme::Bare(s.subrange(i as int, j as int));
            let w = word.as_str();
            let number = parse_number(w);
            assert(parse_number.ensures((w,), number));
            let token = classify(word, number);
            assert(lexeme_token(parse_number, lx, token@));
            assert(lexemes_from(s, i as int) == seq![lx] + lexemes_from(s, j as int));
            tokens.push(token);
            proof {
                assert(done.push(lx) + lexemes_from(s, j as int) =~= done + (seq![lx]
                    + lexemes_from(s, j as int)));
                done = done.push(lx);
            }
            i = j;
        }
    }
    assert(lexemes_from(s, i as int) == Seq::<Lexeme>::empty());
    assert(done =~= lexemes(s));
    tokens
}

} // verus!
