use vstd::prelude::*;
use vstd::std_specs::iter::IteratorSpec;
use vstd::string::StrSliceExecFns;

verus! {

/// One lexical token.
#[derive(PartialEq, Eq, Debug)]
pub enum Token {
    LParen,
    RParen,
    Symbol(String),
    IntLiteral(i32),
}

pub enum TokenView {
    LParen,
    RParen,
    Symbol(Seq<char>),
    IntLiteral(i32),
}

impl View for Token {
    type V = TokenView;

    open spec fn view(&self) -> TokenView {
        match self {
            Token::LParen => TokenView::LParen,
            Token::RParen => TokenView::RParen,
            Token::Symbol(s) => TokenView::Symbol(s@),
            Token::IntLiteral(n) => TokenView::IntLiteral(*n),
        }
    }
}

/// The position at which the source stopped forming tokens.
#[derive(PartialEq, Eq, Debug)]
pub struct LexError {
    pub pos: usize,
}

pub open spec fn is_space(c: char) -> bool {
    c == ' ' || c == '\t' || c == '\n' || c == '\r'
}

pub open spec fn is_symbol_char(c: char) -> bool {
    !(c == '(' || c == ')' || c == '"' || is_space(c))
}

pub open spec fn is_digit(c: char) -> bool {
    '0' <= c <= '9'
}

/// The end of the comment that starts at `i`: the next newline, or the end.
pub open spec fn line_end(s: Seq<char>, i: int) -> int
    decreases s.len() - i,
{
    if i >= s.len() || s[i] == '\n' {
        i
    } else {
        line_end(s, i + 1)
    }
}

/// The position after the whitespace and `;` comments that start at `i`.
pub open spec fn skip(s: Seq<char>, i: int) -> int
    decreases s.len() - i,
{
    if 0 <= i < s.len() && is_space(s[i]) {
        skip(s, i + 1)
    } else if 0 <= i < s.len() && s[i] == ';' && i < line_end(s, i + 1) <= s.len() {
        skip(s, line_end(s, i + 1))
    } else {
        i
    }
}

/// The end of the run of characters from `i` on that satisfy `digits`
/// (decimal digits) or else symbol characters.
pub open spec fn run_end(s: Seq<char>, i: int, digits: bool) -> int
    decreases s.len() - i,
{
    if 0 <= i < s.len() && (if digits { is_digit(s[i]) } else { is_symbol_char(s[i]) }) {
        run_end(s, i + 1, digits)
    } else {
        i
    }
}

/// The decimal value of the digits `s[i..j]`.
pub open spec fn digits_value(s: Seq<char>, i: int, j: int) -> int
    decreases j - i,
{
    if j <= i {
        0
    } else {
        digits_value(s, i, j - 1) * 10 + (s[j - 1] as int - '0' as int)
    }
}

/// An integer at `i`: an optional sign, then at least one digit, whose value
/// fits in 32 bits; with the position after it.
pub open spec fn number_at(s: Seq<char>, i: int) -> Option<(i32, int)> {
    let signed = s[i] == '+' || s[i] == '-';
    let d0 = if signed { i + 1 } else { i };
    let d1 = run_end(s, d0, true);
    let v = if s[i] == '-' { -digits_value(s, d0, d1) } else { digits_value(s, d0, d1) };
    if d1 > d0 && i32::MIN <= v <= i32::MAX {
        Some((v as i32, d1))
    } else {
        None
    }
}

/// The token that starts at `i < s.len()`, with the position after it.
pub open spec fn token_at(s: Seq<char>, i: int) -> Option<(TokenView, int)> {
    if s[i] == '(' {
        Some((TokenView::LParen, i + 1))
    } else if s[i] == ')' {
        Some((TokenView::RParen, i + 1))
    } else {
        match number_at(s, i) {
            Some((n, k)) => Some((TokenView::IntLiteral(n), k)),
            None => if run_end(s, i, false) > i {
                Some((TokenView::Symbol(s.subrange(i, run_end(s, i, false))), run_end(s, i, false)))
            } else {
                None
            },
        }
    }
}

/// The tokens of `s[i..]`, or `None` when a character there starts no token.
pub open spec fn lex_from(s: Seq<char>, i: int) -> Option<Seq<TokenView>>
    decreases s.len() - i,
{
    let j = skip(s, i);
    if i < 0 || j < i || j >= s.len() {
        Some(Seq::empty())
    } else {
        match token_at(s, j) {
            Some((t, k)) => if j < k <= s.len() {
                match lex_from(s, k) {
                    Some(rest) => Some(seq![t] + rest),
                    None => None,
                }
            } else {
                None
            },
            None => None,
        }
    }
}

pub open spec fn tokens_view(v: Seq<Token>) -> Seq<TokenView> {
    v.map_values(|t: Token| t@)
}

fn chars_of(s: &str) -> (r: Vec<char>)
    ensures
        r@ == s@,
{
    let mut out: Vec<char> = Vec::new();
    let mut it = s.chars();
    loop
        invariant
            out.len() <= s@.len(),
            out@ == s@.subrange(0, out.len() as int),
            it.remaining() == s@.subrange(out.len() as int, s@.len() as int),
        decreases s@.len() - out.len(),
    {
        match it.next() {
            Some(c) => out.push(c),
            None => {
                assert(out@ =~= s@);
                return out;
            },
        }
    }
}

fn is_space_exec(c: char) -> (r: bool)
    ensures
        r == is_space(c),
{
    c == ' ' || c == '\t' || c == '\n' || c == '\r'
}

fn skip_exec(s: &Vec<char>, i: usize) -> (r: usize)
    requires
        i <= s@.len(),
    ensures
        r == skip(s@, i as int),
        i <= r <= s@.len(),
{
    let mut j = i;
    while j < s.len() && (is_space_exec(s[j]) || s[j] == ';')
        invariant
            i <= j <= s@.len(),
            skip(s@, i as int) == skip(s@, j as int),
        decreases s@.len() - j,
    {
        if s[j] == ';' {
            let mut e = j + 1;
            while e < s.len() && s[e] != '\n'
                invariant
                    j < e <= s@.len(),
                    line_end(s@, j + 1) == line_end(s@, e as int),
                decreases s@.len() - e,
            {
                e = e + 1;
            }
            j = e;
        } else {
            j = j + 1;
        }
    }
    j
}

/// Whether `c` can stand in a symbol: anything but parentheses, `"` and
/// whitespace.
pub fn is_symbol(c: char) -> (r: bool)
    ensures
        r == is_symbol_char(c),
{
    !(c == '(' || c == ')' || c == '"' || is_space_exec(c))
}

fn in_run(c: char, digits: bool) -> (r: bool)
    ensures
        r == (if digits { is_digit(c) } else { is_symbol_char(c) }),
{
    if digits {
        '0' <= c && c <= '9'
    } else {
        is_symbol(c)
    }
}

fn run_end_exec(s: &Vec<char>, i: usize, digits: bool) -> (r: usize)
    requires
        i <= s@.len(),
    ensures
        r == run_end(s@, i as int, digits),
        i <= r <= s@.len(),
{
    let mut j = i;
    while j < s.len() && in_run(s[j], digits)
        invariant
            i <= j <= s@.len(),
            run_end(s@, i as int, digits) == run_end(s@, j as int, digits),
        decreases s@.len() - j,
    {
        j = j + 1;
    }
    j
}

proof fn lemma_digits_grow(s: Seq<char>, i: int, j: int)
    requires
        i <= j,
        forall|k: int| i <= k < j ==> is_digit(s[k]),
    ensures
        digits_value(s, i, j) >= 0,
    decreases j - i,
{
    if j > i {
        lemma_digits_grow(s, i, j - 1);
    }
}

fn number_exec(s: &Vec<char>, i: usize) -> (r: Option<(i32, usize)>)
    requires
        i < s@.len(),
    ensures
        r is None <==> number_at(s@, i as int) is None,
        r matches Some((n, k)) ==> number_at(s@, i as int) == Some((n, k as int)) && i < k
            <= s@.len(),
{
    let len = s.len();
    let signed = s[i] == '+' || s[i] == '-';
    let negative = s[i] == '-';
    let d0 = if signed { i + 1 } else { i };
    let d1 = run_end_exec(s, d0, true);
    if d1 == d0 {
        return None;
    }
    proof {
        lemma_run_digits(s@, d0 as int);
    }
    // The magnitude read so far, while it stays at most 2^31.
    let mut v: u64 = 0;
    let mut over = false;
    let mut k = d0;
    while k < d1
        invariant
            d0 <= k <= d1,
            d1 == run_end(s@, d0 as int, true),
            d1 <= s@.len(),
            forall|j: int| d0 <= j < d1 ==> is_digit(s@[j]),
            !over ==> v == digits_value(s@, d0 as int, k as int),
            !over ==> v <= 2147483648,
            over ==> digits_value(s@, d0 as int, k as int) > 2147483648,
        decreases d1 - k,
    {
        proof {
            lemma_digits_grow(s@, d0 as int, k as int);
        }
        let d = (s[k] as u32 - '0' as u32) as u64;
        if !over {
            v = v * 10 + d;
            if v > 2147483648 {
                over = true;
            }
        }
        k = k + 1;
    }
    if over {
        return None;
    }
    if negative {
        Some(((0 - v as i64) as i32, d1))
    } else if v <= 2147483647 {
        Some((v as i32, d1))
    } else {
        None
    }
}

proof fn lemma_run_digits(s: Seq<char>, i: int)
    requires
        0 <= i <= s.len(),
    ensures
        forall|k: int| i <= k < run_end(s, i, true) ==> is_digit(s[k]),
        i <= run_end(s, i, true) <= s.len(),
    decreases s.len() - i,
{
    if i < s.len() && is_digit(s[i]) {
        lemma_run_digits(s, i + 1);
    }
}

/// Splits `source` into tokens: parentheses, integers (an optional sign and
/// decimal digits that fit in 32 bits) and symbols (runs of characters other
/// than parentheses, `"` and whitespace), with whitespace and `;` comments
/// between them. Fails at the first character that starts no token.
pub fn lex(source: &str) -> (r: Result<Vec<Token>, LexError>)
    ensures
        match lex_from(source@, 0) {
            Some(t) => r matches Ok(v) && tokens_view(v@) == t,
            None => r is Err,
        },
{
    let s = chars_of(source);
    let n = s.len();
    let mut toks: Vec<Token> = Vec::new();
    let mut i: usize = 0;
    while i < n
        invariant
            n == s@.len(),
            s@ == source@,
            i <= n,
            lex_from(s@, 0) == (match lex_from(s@, i as int) {
                Some(rest) => Some(tokens_view(toks@) + rest),
                None => None::<Seq<TokenView>>,
            }),
        decreases n - i,
    {
        let j = skip_exec(&s, i);
        if j >= n {
            assert(lex_from(s@, i as int) == Some(Seq::<TokenView>::empty()));
            assert(lex_from(s@, n as int) == Some(Seq::<TokenView>::empty()));
            i = n;
        } else {
            let (t, k): (Token, usize) = if s[j] == '(' {
                (Token::LParen, j + 1)
            } else if s[j] == ')' {
                (Token::RParen, j + 1)
            } else {
                match number_exec(&s, j) {
                    Some((v, k)) => {
                        assert(token_at(s@, j as int) == Some((TokenView::IntLiteral(v), k as int)));
                        (Token::IntLiteral(v), k)
                    },
                    None => {
                        let e = run_end_exec(&s, j, false);
                        if e == j {
                            assert(token_at(s@, j as int) is None);
                            assert(lex_from(s@, i as int) is None);
                            return Err(LexError { pos: j });
                        }
                        let text = source.substring_char(j, e).to_owned();
                        assert(text@ == s@.subrange(j as int, e as int));
                        assert(token_at(s@, j as int) == Some((TokenView::Symbol(text@), e as int)));
                        (Token::Symbol(text), e)
                    },
                }
            };
            assert(token_at(s@, j as int) == Some((t@, k as int)));
            let ghost before = toks@;
            toks.push(t);
            assert(tokens_view(toks@) =~= tokens_view(before) + seq![t@]);
            proof {
                match lex_from(s@, k as int) {
                    Some(rest) => {
                        assert(tokens_view(toks@) + rest =~= tokens_view(before) + (seq![t@] + rest));
                    },
                    None => {},
                }
            }
            i = k;
        }
    }
    assert(lex_from(s@, n as int) == Some(Seq::<TokenView>::empty()));
    assert(tokens_view(toks@) + Seq::<TokenView>::empty() =~= tokens_view(toks@));
    Ok(toks)
}

} // verus!
