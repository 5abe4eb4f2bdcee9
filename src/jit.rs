use vstd::prelude::*;
use vstd::string::StrSliceExecFns;
use gccjit::{Context, Function, Parameter, RValue, Type};
use crate::code::{Code, CodeView, Instr, InstrView, Linkage};

verus! {

#[verifier::external_type_specification]
#[verifier::external_body]
pub struct ExContext<'ctx>(gccjit::Context<'ctx>);

#[verifier::external_type_specification]
#[verifier::external_body]
pub struct ExType<'ctx>(gccjit::Type<'ctx>);

#[verifier::external_type_specification]
#[verifier::external_body]
pub struct ExFunction<'ctx>(gccjit::Function<'ctx>);

#[verifier::external_type_specification]
#[verifier::external_body]
pub struct ExParameter<'ctx>(gccjit::Parameter<'ctx>);

#[verifier::external_type_specification]
#[verifier::external_body]
pub struct ExRValue<'ctx>(gccjit::RValue<'ctx>);

/// Why code could not be handed to the backend.
#[derive(PartialEq, Eq, Structural, Clone, Copy, Debug)]
pub enum LowerError {
    /// An operand that is out of order or unit-valued, a call whose arity
    /// differs from its callee's, a function or parameter name that is not a
    /// C identifier, two functions of one name, more parameters than an `i32`
    /// counts, a function without a return value, or a value that mixes the
    /// parameters of two functions or returns the parameters of another
    /// function.
    Unlowerable,
}

pub open spec fn is_identifier_char(c: char) -> bool {
    ('a' <= c <= 'z') || ('A' <= c <= 'Z') || ('0' <= c <= '9') || c == '_'
}

/// A name the backend accepts for a function: a C identifier.
pub open spec fn is_identifier(s: Seq<char>) -> bool {
    &&& s.len() > 0
    &&& !('0' <= s[0] <= '9')
    &&& forall|i: int| 0 <= i < s.len() ==> is_identifier_char(#[trigger] s[i])
}

pub open spec fn is_nil(c: CodeView, i: int) -> bool {
    c.values[i] is Nil
}

/// Combines the functions whose parameters two values use.
pub open spec fn join(x: Option<usize>, y: Option<usize>) -> Option<Option<usize>> {
    if x is None {
        Some(y)
    } else if y is None || y == x {
        Some(x)
    } else {
        None
    }
}

pub open spec fn join_all(own: Seq<Option<usize>>, args: Seq<usize>) -> Option<Option<usize>>
    decreases args.len(),
{
    if args.len() == 0 {
        Some(None)
    } else {
        match join_all(own, args.drop_last()) {
            Some(o) => join(o, own[args.last() as int]),
            None => None,
        }
    }
}

/// The function whose parameters value `i` uses (`Some(None)`: none), given
/// those of the values before it; `None` when `i` cannot be lowered.
pub open spec fn owner_of(c: CodeView, own: Seq<Option<usize>>, i: int) -> Option<Option<usize>> {
    match c.values[i] {
        InstrView::Int(_) => Some(None),
        InstrView::Nil => Some(None),
        InstrView::Param { func, index } => if func < c.functions.len() && index
            < c.functions[func as int].params.len() {
            Some(Some(func))
        } else {
            None
        },
        InstrView::Add(a, b) => if a < i && b < i && !is_nil(c, a as int) && !is_nil(c, b as int) {
            join(own[a as int], own[b as int])
        } else {
            None
        },
        InstrView::Call(f, args) => if f < c.functions.len() && args.len()
            == c.functions[f as int].params.len() && forall|k: int|
            0 <= k < args.len() ==> args[k] < i && !is_nil(c, args[k] as int) {
            join_all(own, args)
        } else {
            None
        },
    }
}

/// The owners of the first `n` values, when each of them can be lowered.
pub open spec fn owners(c: CodeView, n: int) -> Option<Seq<Option<usize>>>
    decreases n,
{
    if n <= 0 {
        Some(Seq::empty())
    } else {
        match owners(c, n - 1) {
            Some(own) => match owner_of(c, own, n - 1) {
                Some(o) => Some(own.push(o)),
                None => None,
            },
            None => None,
        }
    }
}

pub open spec fn function_lowerable(c: CodeView, own: Seq<Option<usize>>, f: int) -> bool {
    let d = c.functions[f];
    &&& is_identifier(d.name)
    &&& d.params.len() <= i32::MAX
    &&& forall|k: int| 0 <= k < d.params.len() ==> is_identifier(#[trigger] d.params[k])
    &&& d.ret matches Some(v) && v < c.values.len() && !is_nil(c, v as int) && (own[v as int] is None
        || own[v as int] == Some(f as usize))
}

/// No two functions of `c` share a name.
pub open spec fn distinct_names(c: CodeView) -> bool {
    forall|f: int, g: int|
        0 <= f < c.functions.len() && 0 <= g < c.functions.len() && f != g ==> #[trigger] c.functions[f].name
            != #[trigger] c.functions[g].name
}

/// Whether the backend can be given `c` without an error of its own.
pub open spec fn lowerable(c: CodeView) -> bool {
    &&& owners(c, c.values.len() as int) matches Some(own)
    &&& forall|f: int| 0 <= f < c.functions.len() ==> function_lowerable(c, own, f)
    &&& distinct_names(c)
}

/// An expression as declared in the backend.
pub enum Lowered {
    Int(i32),
    /// Parameter `1` of function `0`.
    Param(usize, usize),
    Add(Box<Lowered>, Box<Lowered>),
    Call(usize, Seq<Lowered>),
}

/// A function as declared in the backend: its name, linkage, number of
/// integer parameters, and the expression its single block returns.
pub struct DeclaredFn {
    pub name: Seq<char>,
    pub linkage: Linkage,
    pub arity: nat,
    pub ret: Option<Lowered>,
}

/// Whether `e` uses no parameter of a function other than `f`.
pub open spec fn uses_only_params_of(e: Lowered, f: usize) -> bool
    decreases e,
{
    match e {
        Lowered::Int(_) => true,
        Lowered::Param(g, _) => g == f,
        Lowered::Add(l, r) => uses_only_params_of(*l, f) && uses_only_params_of(*r, f),
        Lowered::Call(_, args) => forall|k: int|
            0 <= k < args.len() ==> uses_only_params_of(#[trigger] args[k], f),
    }
}

/// A backend context together with a model of what has been declared in it.
pub struct Backend<'a> {
    ctx: &'a Context<'static>,
    ty: Type<'a>,
    declared: Ghost<Seq<DeclaredFn>>,
}

/// A parameter not yet given to a function.
pub struct JitParam<'a> {
    handle: Parameter<'a>,
}

/// A declared function and its parameters.
pub struct JitFunction<'a> {
    handle: Function<'a>,
    params: Vec<Parameter<'a>>,
    index: Ghost<nat>,
}

/// A backend value and the expression it stands for.
#[derive(Clone, Copy)]
pub struct JitValue<'a> {
    handle: RValue<'a>,
    expr: Ghost<Lowered>,
}

impl<'a> JitFunction<'a> {
    /// The position of the function among the backend's declarations.
    pub closed spec fn index(&self) -> nat {
        self.index@
    }

    pub closed spec fn arity(&self) -> nat {
        self.params@.len()
    }
}

impl<'a> JitValue<'a> {
    pub closed spec fn expr(&self) -> Lowered {
        self.expr@
    }
}

pub open spec fn exprs_of<'a>(vs: Seq<JitValue<'a>>) -> Seq<Lowered> {
    vs.map_values(|v: JitValue<'a>| v.expr())
}

/// Relies on gccjit::Context::new_type: the backend's 32-bit signed integer type.
#[verifier::external_body]
fn int_type<'a>(ctx: &'a Context<'static>) -> Type<'a> {
    ctx.new_type::<i32>()
}

impl<'a> Backend<'a> {
    /// What has been declared so far.
    pub closed spec fn declared(&self) -> Seq<DeclaredFn> {
        self.declared@
    }

    /// A backend over `ctx` in which nothing has been declared.
    pub fn new(ctx: &'a Context<'static>) -> (r: Backend<'a>)
        ensures
            r.declared() == Seq::<DeclaredFn>::empty(),
    {
        Backend { ctx, ty: int_type(ctx), declared: Ghost(Seq::empty()) }
    }

    /// Relies on gccjit::Context::new_parameter, which panics on a NUL in the
    /// name, and on any error that libgccjit reports: a fresh integer
    /// parameter, named by a C identifier.
    #[verifier::external_body]
    fn new_parameter(&self, name: &String) -> (r: JitParam<'a>)
        requires
            is_identifier(name@),
    {
        JitParam { handle: self.ctx.new_parameter(None, self.ty, name) }
    }

    /// Relies on gccjit::Context::new_function, which panics on a NUL in the
    /// name, and on any error that libgccjit reports, as for a function name
    /// that is not a C identifier: declares a function with the given fresh
    /// parameters and an integer result.
    #[verifier::external_body]
    fn declare_function(&mut self, linkage: Linkage, name: &String, params: Vec<JitParam<'a>>) -> (r:
        JitFunction<'a>)
        requires
            is_identifier(name@),
            params.len() <= i32::MAX,
            forall|g: int| 0 <= g < old(self).declared().len() ==> old(self).declared()[g].name != name@,
        ensures
            r.index() == old(self).declared().len(),
            r.arity() == params.len(),
            final(self).declared() == old(self).declared().push(
                DeclaredFn { name: name@, linkage, arity: params.len() as nat, ret: None },
            ),
    {
        let kind = match linkage {
            Linkage::Exported => gccjit::FunctionType::Exported,
            Linkage::Internal => gccjit::FunctionType::Internal,
        };
        let ps: Vec<Parameter<'a>> = params.into_iter().map(|p| p.handle).collect();
        let handle = self.ctx.new_function(None, kind, self.ty, &ps, name, false);
        JitFunction { handle, params: ps, index: Ghost(self.declared@.len()) }
    }

    /// Relies on gccjit::Context::new_rvalue_from_int: an integer constant.
    #[verifier::external_body]
    fn int_value(&self, n: i32) -> (r: JitValue<'a>)
        ensures
            r.expr() == Lowered::Int(n),
    {
        JitValue { handle: self.ctx.new_rvalue_from_int(self.ty, n), expr: Ghost(Lowered::Int(n)) }
    }

    /// Relies on gccjit's ToRValue for Parameter: a reference to parameter
    /// `index` of `f`.
    #[verifier::external_body]
    fn param_value(&self, f: &JitFunction<'a>, index: usize) -> (r: JitValue<'a>)
        requires
            index < f.arity(),
        ensures
            r.expr() == Lowered::Param(f.index() as usize, index),
    {
        let handle = gccjit::ToRValue::to_rvalue(&f.params[index]);
        JitValue { handle, expr: Ghost(Lowered::Param(f.index@ as usize, index)) }
    }

    /// Relies on gccjit::Context::new_binary_op with BinaryOp::Plus: integer
    /// addition.
    #[verifier::external_body]
    fn add_values(&self, l: &JitValue<'a>, r: &JitValue<'a>) -> (v: JitValue<'a>)
        ensures
            v.expr() == Lowered::Add(Box::new(l.expr()), Box::new(r.expr())),
    {
        let handle = self.ctx.new_binary_op(None, gccjit::BinaryOp::Plus, self.ty, l.handle, r.handle);
        JitValue { handle, expr: Ghost(Lowered::Add(Box::new(l.expr@), Box::new(r.expr@))) }
    }

    /// Relies on gccjit::Context::new_call: a call of `f` on `args`,
    /// positionally, as many as `f` has parameters.
    #[verifier::external_body]
    fn call_value(&self, f: &JitFunction<'a>, args: &Vec<JitValue<'a>>) -> (r: JitValue<'a>)
        requires
            args.len() == f.arity(),
        ensures
            r.expr() == Lowered::Call(f.index() as usize, exprs_of(args@)),
    {
        let vals: Vec<RValue<'a>> = args.iter().map(|v| v.handle).collect();
        let handle = self.ctx.new_call(None, f.handle, &vals);
        JitValue { handle, expr: Ghost(Lowered::Call(f.index@ as usize, exprs_of(args@))) }
    }

    /// Relies on gccjit::Function::new_block and gccjit::Block::end_with_return:
    /// the single block of `f` returns `v`, which uses no other function's
    /// parameters.
    #[verifier::external_body]
    fn return_value(&mut self, f: &JitFunction<'a>, v: &JitValue<'a>)
        requires
            f.index() < old(self).declared().len(),
            old(self).declared()[f.index() as int].ret is None,
            uses_only_params_of(v.expr(), f.index() as usize),
        ensures
            final(self).declared() == old(self).declared().update(
                f.index() as int,
                DeclaredFn { ret: Some(v.expr()), ..old(self).declared()[f.index() as int] },
            ),
    {
        f.handle.new_block("body").end_with_return(None, v.handle)
    }
}

proof fn lemma_join_all_none(own: Seq<Option<usize>>, s: Seq<usize>, j: int)
    requires
        0 <= j <= s.len(),
        join_all(own, s.subrange(0, j)) is None,
    ensures
        join_all(own, s) is None,
    decreases s.len() - j,
{
    if j < s.len() {
        assert(s.subrange(0, j + 1).drop_last() =~= s.subrange(0, j));
        lemma_join_all_none(own, s, j + 1);
    } else {
        assert(s.subrange(0, j) =~= s);
    }
}

proof fn lemma_owners_none(c: CodeView, j: int, n: int)
    requires
        0 <= j <= n,
        owners(c, j) is None,
    ensures
        owners(c, n) is None,
    decreases n - j,
{
    if j < n {
        lemma_owners_none(c, j, n - 1);
    }
}

fn join_exec(x: Option<usize>, y: Option<usize>) -> (r: Option<Option<usize>>)
    ensures
        r == join(x, y),
{
    match x {
        None => Some(y),
        Some(a) => match y {
            None => Some(x),
            Some(b) => if a == b {
                Some(x)
            } else {
                None
            },
        },
    }
}

fn is_identifier_exec(s: &String) -> (r: bool)
    ensures
        r == is_identifier(s@),
{
    let t = s.as_str();
    let n = t.unicode_len();
    if n == 0 {
        return false;
    }
    let c0 = t.get_char(0);
    if '0' <= c0 && c0 <= '9' {
        return false;
    }
    let mut i: usize = 0;
    while i < n
        invariant
            n == t@.len(),
            t@ == s@,
            i <= n,
            forall|j: int| 0 <= j < i ==> is_identifier_char(#[trigger] t@[j]),
        decreases n - i,
    {
        let c = t.get_char(i);
        if !(('a' <= c && c <= 'z') || ('A' <= c && c <= 'Z') || ('0' <= c && c <= '9') || c == '_') {
            return false;
        }
        i = i + 1;
    }
    true
}

fn is_nil_value(code: &Code, i: usize) -> (r: bool)
    requires
        i < code@.values.len(),
    ensures
        r == is_nil(code@, i as int),
{
    match &code.values[i] {
        Instr::Nil => true,
        _ => false,
    }
}

/// The owners of every value, when each value can be lowered.
fn value_owners(code: &Code) -> (r: Option<Vec<Option<usize>>>)
    ensures
        match owners(code@, code@.values.len() as int) {
            Some(o) => r matches Some(v) && v@ == o,
            None => r is None,
        },
{
    let n = code.values.len();
    let mut own: Vec<Option<usize>> = Vec::new();
    let mut i: usize = 0;
    while i < n
        invariant
            n == code@.values.len(),
            i <= n,
            own@.len() == i,
            owners(code@, i as int) == Some(own@),
        decreases n - i,
    {
        let ghost c = code@;
        let o: Option<Option<usize>> = match &code.values[i] {
            Instr::Int(_) => Some(None),
            Instr::Nil => Some(None),
            Instr::Param { func, index } => {
                if *func < code.functions.len() && *index < code.functions[*func].params.len() {
                    Some(Some(*func))
                } else {
                    None
                }
            },
            Instr::Add(a, b) => {
                if *a < i && *b < i && !is_nil_value(code, *a) && !is_nil_value(code, *b) {
                    join_exec(own[*a], own[*b])
                } else {
                    None
                }
            },
            Instr::Call(f, args) => {
                if *f >= code.functions.len() || args.len() != code.functions[*f].params.len() {
                    None
                } else {
                    let mut ok = true;
                    let mut k: usize = 0;
                    while k < args.len()
                        invariant
                            k <= args.len(),
                            i < n,
                            n == code@.values.len(),
                            ok ==> forall|j: int| 0 <= j < k ==> args@[j] < i && !is_nil(c, args@[j] as int),
                            !ok ==> exists|j: int| 0 <= j < args.len() && !(args@[j] < i && !is_nil(c, args@[j] as int)),
                            c == code@,
                        decreases args.len() - k,
                    {
                        if ok && (args[k] >= i || is_nil_value(code, args[k])) {
                            ok = false;
                        }
                        k = k + 1;
                    }
                    if !ok {
                        None
                    } else {
                        let mut acc: Option<usize> = None;
                        let mut fine = true;
                        k = 0;
                        assert(args@.subrange(0, 0) =~= Seq::<usize>::empty());
                        while k < args.len()
                            invariant
                                k <= args.len(),
                                i < n,
                                n == code@.values.len(),
                                own@.len() == i,
                                forall|j: int| 0 <= j < args.len() ==> args@[j] < i,
                                fine ==> join_all(own@, args@.subrange(0, k as int)) == Some(acc),
                                !fine ==> join_all(own@, args@) is None,
                            decreases args.len() - k,
                        {
                            if fine {
                                let ghost pre = args@.subrange(0, k as int);
                                assert(args@.subrange(0, k + 1).drop_last() =~= pre);
                                match join_exec(acc, own[args[k]]) {
                                    Some(o) => acc = o,
                                    None => {
                                        fine = false;
                                        proof {
                                            lemma_join_all_none(own@, args@, k + 1);
                                        }
                                    },
                                }
                            }
                            k = k + 1;
                        }
                        assert(args@.subrange(0, args.len() as int) =~= args@);
                        if fine {
                            Some(acc)
                        } else {
                            None
                        }
                    }
                }
            },
        };
        assert(o == owner_of(code@, own@, i as int));
        match o {
            Some(x) => own.push(x),
            None => {
                proof {
                    lemma_owners_none(code@, i + 1, n as int);
                }
                return None;
            },
        }
        i = i + 1;
    }
    Some(own)
}

/// Whether `code` can be handed to the backend.
pub fn can_lower(code: &Code) -> (r: bool)
    ensures
        r == lowerable(code@),
{
    let own = match value_owners(code) {
        Some(o) => o,
        None => return false,
    };
    proof {
        lemma_owners_len(code@, code@.values.len() as int);
    }
    let n = code.functions.len();
    let mut f: usize = 0;
    while f < n
        invariant
            n == code@.functions.len(),
            f <= n,
            owners(code@, code@.values.len() as int) == Some(own@),
            own@.len() == code@.values.len(),
            forall|g: int| 0 <= g < f ==> function_lowerable(code@, own@, g),
        decreases n - f,
    {
        let d = &code.functions[f];
        assert(d@ == code@.functions[f as int]);
        if !is_identifier_exec(&d.name) || d.params.len() > 2147483647 {
            proof { lemma_not_lowerable(code@, own@, f as int); }
            return false;
        }
        let mut k: usize = 0;
        while k < d.params.len()
            invariant
                k <= d.params.len(),
                f < n,
                n == code@.functions.len(),
                owners(code@, code@.values.len() as int) == Some(own@),
                d@ == code@.functions[f as int],
                forall|j: int| 0 <= j < k ==> is_identifier(#[trigger] d@.params[j]),
            decreases d.params.len() - k,
        {
            if !is_identifier_exec(&d.params[k]) {
                assert(!is_identifier(d@.params[k as int]));
                proof { lemma_not_lowerable(code@, own@, f as int); }
                return false;
            }
            k = k + 1;
        }
        match d.ret {
            Some(v) => {
                if v >= code.values.len() || is_nil_value(code, v) {
                    proof { lemma_not_lowerable(code@, own@, f as int); }
                    return false;
                }
                match own[v] {
                    Some(g) => if g != f {
                        proof { lemma_not_lowerable(code@, own@, f as int); }
                        return false;
                    },
                    None => {},
                }
            },
            None => {
                proof { lemma_not_lowerable(code@, own@, f as int); }
                return false;
            },
        }
        f = f + 1;
    }
    let mut x: usize = 0;
    while x < n
        invariant
            n == code@.functions.len(),
            x <= n,
            forall|p: int, q: int| 0 <= p < x && 0 <= q < n && p != q ==> #[trigger] code@.functions[p].name
                != #[trigger] code@.functions[q].name,
        decreases n - x,
    {
        let mut y: usize = 0;
        while y < n
            invariant
                n == code@.functions.len(),
                x < n,
                y <= n,
                forall|p: int, q: int| 0 <= p < x && 0 <= q < n && p != q ==> #[trigger] code@.functions[p].name
                    != #[trigger] code@.functions[q].name,
                forall|q: int| 0 <= q < y && q != x ==> code@.functions[x as int].name != #[trigger] code@.functions[q].name,
            decreases n - y,
        {
            assert(code@.functions[x as int].name == code.functions@[x as int].name@);
            assert(code@.functions[y as int].name == code.functions@[y as int].name@);
            if y != x && code.functions[x].name == code.functions[y].name {
                assert(code@.functions[x as int].name == code.functions@[x as int].name@);
                assert(code@.functions[y as int].name == code.functions@[y as int].name@);
                assert(code@.functions[x as int].name == code@.functions[y as int].name);
                assert(!distinct_names(code@));
                return false;
            }
            y = y + 1;
        }
        x = x + 1;
    }
    true
}

/// The expression that value `i` of `c` stands for.
pub open spec fn tree(c: CodeView, i: int) -> Lowered
    decreases i, 1nat, 0int,
{
    if i < 0 || i >= c.values.len() {
        Lowered::Int(0)
    } else {
        match c.values[i] {
            InstrView::Int(n) => Lowered::Int(n),
            InstrView::Nil => Lowered::Int(0),
            InstrView::Param { func, index } => Lowered::Param(func, index),
            InstrView::Add(a, b) => if a < i && b < i {
                Lowered::Add(Box::new(tree(c, a as int)), Box::new(tree(c, b as int)))
            } else {
                Lowered::Int(0)
            },
            InstrView::Call(f, args) => Lowered::Call(f, tree_args(c, args, i, args.len() as int)),
        }
    }
}

/// The expressions of the first `k` arguments of value `i`.
pub open spec fn tree_args(c: CodeView, args: Seq<usize>, i: int, k: int) -> Seq<Lowered>
    decreases i, 0nat, k,
{
    if i < 0 || k <= 0 || k > args.len() {
        Seq::empty()
    } else {
        tree_args(c, args, i, k - 1).push(
            if args[k - 1] < i {
                tree(c, args[k - 1] as int)
            } else {
                Lowered::Int(0)
            },
        )
    }
}

/// Function `f` of `c` as declared, before its block returns.
pub open spec fn declared_unreturned(c: CodeView, f: int) -> DeclaredFn {
    DeclaredFn {
        name: c.functions[f].name,
        linkage: c.functions[f].linkage,
        arity: c.functions[f].params.len(),
        ret: None,
    }
}

/// What declaring `c` in a fresh backend leaves there: each function with its
/// name, linkage and parameter count, returning the expression of its value.
pub open spec fn lowered(c: CodeView) -> Seq<DeclaredFn> {
    Seq::new(
        c.functions.len(),
        |f: int|
            DeclaredFn {
                name: c.functions[f].name,
                linkage: c.functions[f].linkage,
                arity: c.functions[f].params.len(),
                ret: Some(tree(c, c.functions[f].ret->0 as int)),
            },
    )
}

/// Declares `code` in the fresh backend `b`: each function with its linkage,
/// name and integer parameters, and each function's single block returning
/// its value. Fails, before any declaration, exactly when the code is not
/// lowerable.
pub fn lower<'a>(b: &mut Backend<'a>, code: &Code) -> (r: Result<(), LowerError>)
    requires
        old(b).declared() == Seq::<DeclaredFn>::empty(),
    ensures
        r is Ok <==> lowerable(code@),
        r is Ok ==> final(b).declared() == lowered(code@),
        r is Err ==> final(b).declared() == old(b).declared(),
{
    if !can_lower(code) {
        return Err(LowerError::Unlowerable);
    }
    let ghost c = code@;
    let ghost own = owners(c, c.values.len() as int)->Some_0;
    proof {
        lemma_owners_len(c, c.values.len() as int);
    }
    let nf = code.functions.len();
    let mut funcs: Vec<JitFunction<'a>> = Vec::new();
    let mut f: usize = 0;
    while f < nf
        invariant
            c == code@,
            nf == c.functions.len(),
            f <= nf,
            lowerable(c),
            own == owners(c, c.values.len() as int)->Some_0,
            funcs@.len() == f,
            forall|g: int| 0 <= g < f ==> #[trigger] funcs@[g].index() == g,
            forall|g: int| 0 <= g < f ==> #[trigger] funcs@[g].arity() == c.functions[g].params.len(),
            b.declared().len() == f,
            forall|g: int| 0 <= g < f ==> #[trigger] b.declared()[g] == declared_unreturned(c, g),
        decreases nf - f,
    {
        let d = &code.functions[f];
        assert(function_lowerable(c, own, f as int));
        let mut ps: Vec<JitParam<'a>> = Vec::new();
        let mut k: usize = 0;
        while k < d.params.len()
            invariant
                k <= d.params.len(),
                ps@.len() == k,
                d@ == c.functions[f as int],
                function_lowerable(c, own, f as int),
            decreases d.params.len() - k,
        {
            assert(is_identifier(d@.params[k as int]));
            ps.push(b.new_parameter(&d.params[k]));
            k = k + 1;
        }
        assert(distinct_names(c));
        assert forall|g: int| 0 <= g < b.declared().len() implies b.declared()[g].name != d@.name by {
            assert(c.functions[g].name != c.functions[f as int].name);
        }
        let h = b.declare_function(d.linkage, &d.name, ps);
        funcs.push(h);
        f = f + 1;
    }
    let nv = code.values.len();
    let mut rv: Vec<Option<JitValue<'a>>> = Vec::new();
    let mut i: usize = 0;
    while i < nv
        invariant
            c == code@,
            nv == c.values.len(),
            nf == c.functions.len(),
            i <= nv,
            lowerable(c),
            own == owners(c, c.values.len() as int)->Some_0,
            own.len() == nv,
            funcs@.len() == nf,
            forall|g: int| 0 <= g < nf ==> #[trigger] funcs@[g].index() == g,
            forall|g: int| 0 <= g < nf ==> #[trigger] funcs@[g].arity() == c.functions[g].params.len(),
            rv@.len() == i,
            forall|j: int| 0 <= j < i ==> (#[trigger] rv@[j] is Some <==> !is_nil(c, j)),
            forall|j: int| 0 <= j < i && rv@[j] is Some ==> #[trigger] rv@[j]->0.expr() == tree(c, j),
            forall|j: int, g: usize|
                0 <= j < i && (own[j] is None || own[j] == Some(g)) ==> #[trigger] uses_only_params_of(
                    tree(c, j),
                    g,
                ),
            b.declared().len() == nf,
        decreases nv - i,
    {
        proof {
            lemma_owners_prefix(c, i as int, nv as int);
            lemma_owners_agree(c, i as int, nv as int);
        }
        let ghost pre = owners(c, i as int)->Some_0;
        assert(owner_of(c, pre, i as int) is Some);
        proof {
            lemma_owners_agree(c, i + 1, nv as int);
            assert(owners(c, i + 1) == Some(pre.push(owner_of(c, pre, i as int)->Some_0)));
            assert(owners(c, i + 1)->Some_0[i as int] == own[i as int]);
        }
        assert(own[i as int] == owner_of(c, pre, i as int)->Some_0);
        let v: Option<JitValue<'a>> = match &code.values[i] {
            Instr::Int(n) => Some(b.int_value(*n)),
            Instr::Nil => None,
            Instr::Param { func, index } => {
                assert(funcs@[*func as int].arity() == c.functions[*func as int].params.len());
                Some(b.param_value(&funcs[*func], *index))
            },
            Instr::Add(x, y) => {
                let l = rv[*x].unwrap();
                let r = rv[*y].unwrap();
                let v = b.add_values(&l, &r);
                proof {
                    assert forall|g: usize| (own[i as int] is None || own[i as int] == Some(g)) implies
                        uses_only_params_of(tree(c, i as int), g) by {
                        assert(pre[*x as int] == own[*x as int]);
                        assert(pre[*y as int] == own[*y as int]);
                        assert(uses_only_params_of(tree(c, *x as int), g));
                        assert(uses_only_params_of(tree(c, *y as int), g));
                    }
                }
                Some(v)
            },
            Instr::Call(g, args) => {
                let mut vals: Vec<JitValue<'a>> = Vec::new();
                let mut k: usize = 0;
                while k < args.len()
                    invariant
                        k <= args.len(),
                        i < nv,
                        nv == c.values.len(),
                        c.values[i as int] == InstrView::Call(*g, args@),
                        rv@.len() == i,
                        forall|j: int| 0 <= j < i ==> (#[trigger] rv@[j] is Some <==> !is_nil(c, j)),
                        forall|j: int| 0 <= j < i && rv@[j] is Some ==> #[trigger] rv@[j]->0.expr() == tree(c, j),
                        forall|j: int| 0 <= j < args.len() ==> args@[j] < i && !is_nil(c, args@[j] as int),
                        vals@.len() == k,
                        exprs_of(vals@) == tree_args(c, args@, i as int, k as int),
                    decreases args.len() - k,
                {
                    assert(args@[k as int] < i && !is_nil(c, args@[k as int] as int));
                    let ghost before = vals@;
                    vals.push(rv[args[k]].unwrap());
                    assert(exprs_of(vals@) =~= exprs_of(before).push(tree(c, args@[k as int] as int)));
                    k = k + 1;
                }
                assert(funcs@[*g as int].arity() == c.functions[*g as int].params.len());
                let v = b.call_value(&funcs[*g], &vals);
                proof {
                    assert(tree(c, i as int) == Lowered::Call(*g, tree_args(c, args@, i as int, args.len() as int)));
                    assert forall|h: usize| (own[i as int] is None || own[i as int] == Some(h)) implies
                        uses_only_params_of(tree(c, i as int), h) by {
                        let ts = tree_args(c, args@, i as int, args.len() as int);
                        assert forall|k: int| 0 <= k < ts.len() implies uses_only_params_of(#[trigger] ts[k], h) by {
                            lemma_tree_args_index(c, args@, i as int, args.len() as int, k);
                            lemma_join_all_parts(pre, args@, k);
                            assert(pre[args@[k] as int] == own[args@[k] as int]);
                            assert(uses_only_params_of(tree(c, args@[k] as int), h));
                        }
                    }
                }
                Some(v)
            },
        };
        rv.push(v);
        i = i + 1;
    }
    f = 0;
    while f < nf
        invariant
            c == code@,
            nf == c.functions.len(),
            nv == c.values.len(),
            f <= nf,
            lowerable(c),
            own == owners(c, c.values.len() as int)->Some_0,
            own.len() == nv,
            funcs@.len() == nf,
            forall|g: int| 0 <= g < nf ==> #[trigger] funcs@[g].index() == g,
            rv@.len() == nv,
            forall|j: int| 0 <= j < nv ==> (#[trigger] rv@[j] is Some <==> !is_nil(c, j)),
            forall|j: int| 0 <= j < nv && rv@[j] is Some ==> #[trigger] rv@[j]->0.expr() == tree(c, j),
            forall|j: int, g: usize|
                0 <= j < nv && (own[j] is None || own[j] == Some(g)) ==> #[trigger] uses_only_params_of(
                    tree(c, j),
                    g,
                ),
            b.declared().len() == nf,
            forall|g: int| 0 <= g < f ==> #[trigger] b.declared()[g] == lowered(c)[g],
            forall|g: int| f <= g < nf ==> #[trigger] b.declared()[g] == declared_unreturned(c, g),
        decreases nf - f,
    {
        assert(function_lowerable(c, own, f as int));
        let v = code.functions[f].ret.unwrap();
        let x = rv[v].unwrap();
        assert(uses_only_params_of(tree(c, v as int), f));
        b.return_value(&funcs[f], &x);
        f = f + 1;
    }
    assert(b.declared() =~= lowered(c));
    Ok(())
}

proof fn lemma_tree_args_index(c: CodeView, args: Seq<usize>, i: int, k: int, j: int)
    requires
        0 <= i,
        0 <= j < k <= args.len(),
        forall|m: int| 0 <= m < args.len() ==> args[m] < i,
    ensures
        tree_args(c, args, i, k).len() == k,
        tree_args(c, args, i, k)[j] == tree(c, args[j] as int),
    decreases k,
{
    lemma_tree_args_len(c, args, i, k - 1);
    if j < k - 1 {
        lemma_tree_args_index(c, args, i, k - 1, j);
    }
}

proof fn lemma_tree_args_len(c: CodeView, args: Seq<usize>, i: int, k: int)
    requires
        0 <= i,
        0 <= k <= args.len(),
    ensures
        tree_args(c, args, i, k).len() == k,
    decreases k,
{
    if k > 0 {
        lemma_tree_args_len(c, args, i, k - 1);
    }
}

/// Each argument's owner agrees with the joined owner of all arguments.
proof fn lemma_join_all_parts(own: Seq<Option<usize>>, args: Seq<usize>, k: int)
    requires
        0 <= k < args.len(),
        join_all(own, args) is Some,
    ensures
        own[args[k] as int] is None || Some(own[args[k] as int]) == join_all(own, args),
        join_all(own, args) == Some(None::<usize>) ==> own[args[k] as int] is None,
    decreases args.len(),
{
    let pre = args.drop_last();
    if k < args.len() - 1 {
        assert(pre[k] == args[k]);
        lemma_join_all_parts(own, pre, k);
    }
}

/// The owners of the first `i` values are those of all values, cut at `i`.
proof fn lemma_owners_agree(c: CodeView, i: int, n: int)
    requires
        0 <= i <= n,
        owners(c, n) is Some,
    ensures
        owners(c, i) is Some,
        forall|j: int| 0 <= j < i ==> owners(c, i)->Some_0[j] == owners(c, n)->Some_0[j],
    decreases n - i,
{
    if i < n {
        lemma_owners_agree(c, i + 1, n);
        lemma_owners_len(c, i);
        assert(owners(c, i + 1) is Some);
    }
}

proof fn lemma_not_lowerable(c: CodeView, own: Seq<Option<usize>>, f: int)
    requires
        owners(c, c.values.len() as int) == Some(own),
        0 <= f < c.functions.len(),
        !function_lowerable(c, own, f),
    ensures
        !lowerable(c),
{
    if lowerable(c) {
        let o = owners(c, c.values.len() as int)->Some_0;
        assert(o == own);
        assert(function_lowerable(c, o, f));
    }
}

proof fn lemma_owners_prefix(c: CodeView, i: int, n: int)
    requires
        0 <= i < n,
        owners(c, n) is Some,
    ensures
        owners(c, i) is Some,
        owner_of(c, owners(c, i)->Some_0, i) is Some,
        owners(c, i)->Some_0.len() == i,
    decreases n - i,
{
    if i + 1 < n {
        lemma_owners_prefix(c, i + 1, n);
    }
    lemma_owners_len(c, i);
}

proof fn lemma_owners_len(c: CodeView, i: int)
    requires
        i >= 0,
        owners(c, i) is Some,
    ensures
        owners(c, i)->Some_0.len() == i,
    decreases i,
{
    if i > 0 {
        lemma_owners_len(c, i - 1);
    }
}

} // verus!
