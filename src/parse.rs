use vstd::prelude::*;
use crate::ast::Expr;
use crate::lex::{Token, TokenView, tokens_view};

verus! {

/// Why a token sequence does not form a program.
#[derive(PartialEq, Eq, Debug)]
pub enum ParseError {
    /// A `)` with no open list; the index of that token.
    UnmatchedClose(usize),
    /// The tokens ended inside an open list.
    Unclosed,
}

/// The tokens an expression is written with.
pub open spec fn flatten(e: Expr) -> Seq<TokenView>
    decreases e, 0nat,
{
    match e {
        Expr::Symbol(s) => seq![TokenView::Symbol(s@)],
        Expr::IntLiteral(n) => seq![TokenView::IntLiteral(n)],
        Expr::List(items) => seq![TokenView::LParen] + flatten_seq(items, items.len() as int) + seq![
            TokenView::RParen,
        ],
    }
}

/// The tokens of the first `k` expressions of `items`, in order.
pub open spec fn flatten_seq(items: Vec<Expr>, k: int) -> Seq<TokenView>
    decreases items, k,
{
    if k <= 0 || k > items.len() {
        Seq::empty()
    } else {
        flatten_seq(items, k - 1) + flatten(items[k - 1])
    }
}

/// How many lists are open after the first `i` tokens.
pub open spec fn depth(t: Seq<TokenView>, i: int) -> int
    decreases i,
{
    if i <= 0 || i > t.len() {
        0
    } else {
        depth(t, i - 1) + match t[i - 1] {
            TokenView::LParen => 1int,
            TokenView::RParen => -1int,
            _ => 0int,
        }
    }
}

/// Every `)` closes an open list, and every list is closed.
pub open spec fn balanced(t: Seq<TokenView>) -> bool {
    &&& forall|i: int| 0 <= i <= t.len() ==> depth(t, i) >= 0
    &&& depth(t, t.len() as int) == 0
}

/// The tokens of a parse stack: the finished expressions of each level, each
/// level but the outermost opened by a `(`.
pub open spec fn stack_flat(st: Seq<Vec<Expr>>, n: int) -> Seq<TokenView>
    decreases n,
{
    if n <= 0 {
        Seq::empty()
    } else {
        stack_flat(st, n - 1) + (if n - 1 > 0 {
            seq![TokenView::LParen]
        } else {
            Seq::empty()
        }) + flatten_seq(st[n - 1], st[n - 1].len() as int)
    }
}

proof fn lemma_flatten_prefix(v: Vec<Expr>, w: Vec<Expr>, k: int)
    requires
        0 <= k <= v.len(),
        k <= w.len(),
        forall|j: int| 0 <= j < k ==> v@[j] == w@[j],
    ensures
        flatten_seq(v, k) == flatten_seq(w, k),
    decreases k,
{
    if k > 0 {
        lemma_flatten_prefix(v, w, k - 1);
    }
}

proof fn lemma_flatten_push(v: Vec<Expr>, w: Vec<Expr>, e: Expr)
    requires
        w@ == v@.push(e),
    ensures
        flatten_seq(w, w.len() as int) == flatten_seq(v, v.len() as int) + flatten(e),
{
    lemma_flatten_prefix(v, w, v.len() as int);
}

proof fn lemma_stack_prefix(st: Seq<Vec<Expr>>, st2: Seq<Vec<Expr>>, k: int)
    requires
        0 <= k <= st.len(),
        k <= st2.len(),
        forall|j: int| 0 <= j < k ==> st[j] == st2[j],
    ensures
        stack_flat(st, k) == stack_flat(st2, k),
    decreases k,
{
    if k > 0 {
        lemma_stack_prefix(st, st2, k - 1);
    }
}

proof fn lemma_empty_flat(v: Vec<Expr>)
    requires
        v.len() == 0,
    ensures
        flatten_seq(v, 0) == Seq::<TokenView>::empty(),
{
}

/// Builds the program that `tokens` spell: symbols and integers stand for
/// themselves, and each `(` ... `)` encloses a list. Succeeds exactly when
/// the parentheses balance, with a program whose tokens are `tokens`.
pub fn parse_tokens(tokens: &Vec<Token>) -> (r: Result<Vec<Expr>, ParseError>)
    ensures
        r is Ok <==> balanced(tokens_view(tokens@)),
        r matches Ok(p) ==> flatten_seq(p, p.len() as int) == tokens_view(tokens@),
{
    let ghost tv = tokens_view(tokens@);
    let mut stack: Vec<Vec<Expr>> = Vec::new();
    let first: Vec<Expr> = Vec::new();
    assert(first@.len() == 0);
    stack.push(first);
    assert(flatten_seq(stack@[0], 0) == Seq::<TokenView>::empty());
    assert(stack_flat(stack@, 0) == Seq::<TokenView>::empty());
    assert(stack_flat(stack@, 1) =~= tv.subrange(0, 0));
    let n = tokens.len();
    let mut i: usize = 0;
    while i < n
        invariant
            n == tokens@.len(),
            tv == tokens_view(tokens@),
            i <= n,
            stack@.len() >= 1,
            stack@.len() - 1 == depth(tv, i as int),
            forall|j: int| 0 <= j <= i ==> depth(tv, j) >= 0,
            stack_flat(stack@, stack@.len() as int) == tv.subrange(0, i as int),
        decreases n - i,
    {
        let ghost st = stack@;
        let ghost sn = stack@.len() as int;
        assert(tv.subrange(0, i + 1) =~= tv.subrange(0, i as int).push(tv[i as int]));
        match &tokens[i] {
            Token::LParen => {
                stack.push(Vec::new());
                proof {
                    lemma_stack_prefix(st, stack@, sn);
                    assert(stack_flat(stack@, sn + 1) =~= tv.subrange(0, i + 1));
                }
            },
            Token::RParen => {
                if stack.len() == 1 {
                    assert(depth(tv, i + 1) == -1);
                    return Err(ParseError::UnmatchedClose(i));
                }
                let items = stack.pop().unwrap();
                let mut parent = stack.pop().unwrap();
                let ghost old_parent = parent;
                assert(items == st[sn - 1]);
                assert(old_parent == st[sn - 2]);
                assert(stack_flat(st, sn) == stack_flat(st, sn - 1) + seq![TokenView::LParen]
                    + flatten_seq(items, items.len() as int));
                let e = Expr::List(items);
                assert(flatten(e) == seq![TokenView::LParen] + flatten_seq(items, items.len() as int)
                    + seq![TokenView::RParen]);
                parent.push(e);
                stack.push(parent);
                proof {
                    lemma_flatten_push(old_parent, parent, e);
                    lemma_stack_prefix(st, stack@, sn - 2);
                    assert(stack_flat(stack@, sn - 1) =~= tv.subrange(0, i + 1));
                }
            },
            Token::Symbol(s) => {
                let mut top = stack.pop().unwrap();
                let ghost old_top = top;
                let e = Expr::Symbol(s.clone());
                top.push(e);
                stack.push(top);
                proof {
                    lemma_flatten_push(old_top, top, e);
                    lemma_stack_prefix(st, stack@, sn - 1);
                    assert(stack_flat(stack@, sn) =~= tv.subrange(0, i + 1));
                }
            },
            Token::IntLiteral(v) => {
                let mut top = stack.pop().unwrap();
                let ghost old_top = top;
                let e = Expr::IntLiteral(*v);
                top.push(e);
                stack.push(top);
                proof {
                    lemma_flatten_push(old_top, top, e);
                    lemma_stack_prefix(st, stack@, sn - 1);
                    assert(stack_flat(stack@, sn) =~= tv.subrange(0, i + 1));
                }
            },
        }
        i = i + 1;
    }
    if stack.len() != 1 {
        return Err(ParseError::Unclosed);
    }
    let ghost st = stack@;
    let p = stack.pop().unwrap();
    assert(p == st[0]);
    assert(stack_flat(st, 0) == Seq::<TokenView>::empty());
    assert(stack_flat(st, 1) =~= flatten_seq(p, p.len() as int));
    assert(tv.subrange(0, n as int) =~= tv);
    Ok(p)
}

} // verus!
