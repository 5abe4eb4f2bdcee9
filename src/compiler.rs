use vstd::prelude::*;
use crate::ast::Expr;
use crate::code::{Code, CodeView, FunctionDecl, FunctionView, Instr, InstrView, Linkage, entry_name, names_view};
use crate::scope::{
    Binding, ScopeStack, ScopeView, extends, lemma_extends_refl, lemma_extends_restore,
    lemma_extends_trans, scope_lookup, stack_lookup, usable_value,
};

verus! {

/// Why a program could not be compiled.
#[derive(PartialEq, Eq, Structural, Clone, Copy, Debug)]
pub enum CompError {
    /// An empty form, or a form whose head is not a symbol.
    InvalidForm,
    /// A definition of the reserved entry name, or of a name already bound
    /// in the enclosing scope.
    InvalidFunctionForm,
    MissingFunctionName,
    MissingFunctionArgs,
    MissingFunctionBody,
    /// A parameter that is not a bare symbol, or one declared twice.
    BadFunctionArgDefinition,
    /// The builtin addition applied to other than two arguments.
    FuncCallWrongArgCount,
    /// A name bound nowhere, or a function named outside call position.
    UndefinedSymbol,
    /// A call whose head names something other than a function.
    CalledNonFunction,
}

/// The state of a compile session: the scope stack and the code so far.
pub struct Model {
    pub scopes: Seq<ScopeView>,
    pub code: CodeView,
}

pub open spec fn def_keyword() -> Seq<char> {
    seq!['d', 'e', 'f']
}

pub open spec fn plus_keyword() -> Seq<char> {
    seq!['+']
}

/// The index the next appended value receives.
pub open spec fn next_value(m: Model) -> usize {
    m.code.values.len() as usize
}

pub open spec fn with_value(m: Model, i: InstrView) -> Model {
    Model { code: CodeView { values: m.code.values.push(i), ..m.code }, ..m }
}

pub open spec fn with_return(c: CodeView, f: int, v: usize) -> CodeView {
    CodeView {
        functions: c.functions.update(f, FunctionView { ret: Some(v), ..c.functions[f] }),
        ..c
    }
}

/// The innermost scope extended by one binding.
pub open spec fn declared(scopes: Seq<ScopeView>, name: Seq<char>, b: Binding) -> Seq<ScopeView> {
    scopes.update(scopes.len() - 1, scopes.last().push((name, b)))
}

/// The name of a parameter form (meaningful for symbols only).
pub open spec fn symbol_text(e: Expr) -> Seq<char> {
    match e {
        Expr::Symbol(s) => s@,
        _ => Seq::empty(),
    }
}

pub open spec fn param_names(params: Seq<Expr>) -> Seq<Seq<char>> {
    params.map_values(|e: Expr| symbol_text(e))
}

/// The parameter values of function `f`, one per parameter, in order.
pub open spec fn param_values(f: usize, n: nat) -> Seq<InstrView> {
    Seq::new(n, |k: int| InstrView::Param { func: f, index: k as usize })
}

/// The scope that binds each parameter name to its parameter value.
pub open spec fn param_scope(names: Seq<Seq<char>>, base: usize) -> ScopeView {
    Seq::new(names.len(), |k: int| (names[k], Binding::Parameter((base + k) as usize)))
}

/// Compiles one expression: the state after it and the index of its value.
pub open spec fn spec_expr(m: Model, e: Expr) -> Result<(Model, usize), CompError>
    decreases e, 0nat,
{
    match e {
        Expr::IntLiteral(n) => Ok((with_value(m, InstrView::Int(n)), next_value(m))),
        Expr::Symbol(name) => match stack_lookup(m.scopes, name@) {
            Some(b) => match usable_value(b) {
                Some(v) => Ok((m, v)),
                None => Err(CompError::UndefinedSymbol),
            },
            None => Err(CompError::UndefinedSymbol),
        },
        Expr::List(items) => spec_form(m, items),
    }
}

/// Compiles a form: a definition, or a call of the name at its head.
pub open spec fn spec_form(m: Model, items: Vec<Expr>) -> Result<(Model, usize), CompError>
    decreases items, items.len() + 4,
{
    if items.len() == 0 {
        Err(CompError::InvalidForm)
    } else {
        match items[0] {
            Expr::Symbol(head) => if head@ == def_keyword() {
                spec_def(m, items)
            } else {
                spec_call(m, items, head@)
            },
            _ => Err(CompError::InvalidForm),
        }
    }
}

/// Compiles `(def name (params...) body)`.
pub open spec fn spec_def(m: Model, items: Vec<Expr>) -> Result<(Model, usize), CompError>
    decreases items, items.len() + 3,
{
    if items.len() < 2 || !(items[1] is Symbol) {
        Err(CompError::MissingFunctionName)
    } else if items.len() < 3 || !(items[2] is List) {
        Err(CompError::MissingFunctionArgs)
    } else if items.len() < 4 {
        Err(CompError::MissingFunctionBody)
    } else {
        let name = symbol_text(items[1]);
        let params = items[2]->List_0@;
        if exists|k: int| 0 <= k < params.len() && !(params[k] is Symbol) {
            Err(CompError::BadFunctionArgDefinition)
        } else if name == entry_name() {
            Err(CompError::InvalidFunctionForm)
        } else if !param_names(params).no_duplicates() {
            Err(CompError::BadFunctionArgDefinition)
        } else {
            let f = m.code.functions.len() as usize;
            let base = next_value(m);
            let names = param_names(params);
            let decl = FunctionView { name, linkage: Linkage::Internal, params: names, ret: None };
            let inner = Model {
                scopes: m.scopes.push(param_scope(names, base)),
                code: CodeView {
                    values: m.code.values + param_values(f, names.len()),
                    functions: m.code.functions.push(decl),
                },
            };
            match spec_expr(inner, items[3]) {
                Err(e) => Err(e),
                Ok((after, v)) => {
                    let outer = after.scopes.drop_last();
                    if scope_lookup(outer.last(), name) is Some {
                        Err(CompError::InvalidFunctionForm)
                    } else {
                        let done = Model {
                            scopes: declared(outer, name, Binding::Function(f)),
                            code: with_return(after.code, f as int, v),
                        };
                        Ok((with_value(done, InstrView::Nil), next_value(done)))
                    }
                },
            }
        }
    }
}

/// A definition form whose shape is wrong: a missing or non-symbol name, a
/// missing or non-list parameter list, a missing body, or a parameter that is
/// not a symbol.
pub open spec fn malformed_def(items: Vec<Expr>) -> bool {
    ||| items.len() < 4
    ||| !(items[1] is Symbol)
    ||| !(items[2] is List)
    ||| exists|k: int| 0 <= k < items[2]->List_0@.len() && !(items[2]->List_0@[k] is Symbol)
}

/// Compiles a call form whose head is the symbol `name`.
pub open spec fn spec_call(m: Model, items: Vec<Expr>, name: Seq<char>) -> Result<
    (Model, usize),
    CompError,
>
    decreases items, items.len() + 3,
{
    if name == plus_keyword() {
        if items.len() != 3 {
            Err(CompError::FuncCallWrongArgCount)
        } else {
            match spec_expr(m, items[1]) {
                Err(e) => Err(e),
                Ok((m1, l)) => match spec_expr(m1, items[2]) {
                    Err(e) => Err(e),
                    Ok((m2, r)) => Ok((with_value(m2, InstrView::Add(l, r)), next_value(m2))),
                },
            }
        }
    } else {
        match stack_lookup(m.scopes, name) {
            None => Err(CompError::UndefinedSymbol),
            Some(Binding::Function(f)) => match spec_args(m, items, items.len() as int) {
                Err(e) => Err(e),
                Ok((m1, args)) => Ok((with_value(m1, InstrView::Call(f, args)), next_value(m1))),
            },
            Some(_) => Err(CompError::CalledNonFunction),
        }
    }
}

/// Compiles the arguments `items[1..k]` in order: the state after them and
/// their value indices.
pub open spec fn spec_args(m: Model, items: Vec<Expr>, k: int) -> Result<
    (Model, Seq<usize>),
    CompError,
>
    decreases items, k,
{
    if k <= 1 || k > items.len() {
        Ok((m, Seq::empty()))
    } else {
        match spec_args(m, items, k - 1) {
            Err(e) => Err(e),
            Ok((m1, vs)) => match spec_expr(m1, items[k - 1]) {
                Err(e) => Err(e),
                Ok((m2, v)) => Ok((m2, vs.push(v))),
            },
        }
    }
}

/// A fresh session: one top-level scope and no code.
pub open spec fn initial_model() -> Model {
    Model {
        scopes: seq![Seq::empty()],
        code: CodeView { values: Seq::empty(), functions: Seq::empty() },
    }
}

/// The session once the entry function has been declared.
pub open spec fn entry_declared() -> Model {
    Model {
        scopes: seq![Seq::empty()],
        code: CodeView { values: Seq::empty(), functions: seq![entry_function()] },
    }
}

/// The implicit entry function: exported, no parameters, not yet returning.
pub open spec fn entry_function() -> FunctionView {
    FunctionView { name: entry_name(), linkage: Linkage::Exported, params: Seq::empty(), ret: None }
}

/// Compiles the first `k` top-level forms in order: the state after them and
/// the value of the last one, if any.
pub open spec fn spec_prefix(p: Seq<Expr>, k: int) -> Result<(Model, Option<usize>), CompError>
    decreases k,
{
    if k <= 0 || k > p.len() {
        Ok((entry_declared(), None))
    } else {
        match spec_prefix(p, k - 1) {
            Err(e) => Err(e),
            Ok((m, _)) => match spec_expr(m, p[k - 1]) {
                Err(e) => Err(e),
                Ok((m1, v)) => Ok((m1, Some(v))),
            },
        }
    }
}

/// The session after building program `p`: the entry function returns the
/// value of the last form, or 0 for an empty program.
pub open spec fn spec_build(p: Seq<Expr>) -> Result<Model, CompError> {
    match spec_prefix(p, p.len() as int) {
        Err(e) => Err(e),
        Ok((m, None)) => {
            let m1 = with_value(m, InstrView::Int(0));
            Ok(Model { code: with_return(m1.code, 0, next_value(m)), ..m1 })
        },
        Ok((m, Some(v))) => Ok(Model { code: with_return(m.code, 0, v), ..m }),
    }
}

/// The code that compiling program `p` hands to the backend.
pub open spec fn spec_compile(p: Seq<Expr>) -> Result<CodeView, CompError> {
    match spec_build(p) {
        Err(e) => Err(e),
        Ok(m) => Ok(m.code),
    }
}


/// Whether an executable result `r`, with the session left in state `after`,
/// is what the specification `s` gives.
pub open spec fn agrees<T>(s: Result<(Model, T), CompError>, r: Result<T, CompError>, after: Model) -> bool {
    match r {
        Ok(v) => s == Ok::<(Model, T), CompError>((after, v)),
        Err(e) => s == Err::<(Model, T), CompError>(e),
    }
}

proof fn lemma_args_err_stays(m: Model, items: Vec<Expr>, j: int, k: int)
    requires
        1 <= j <= k <= items.len(),
        spec_args(m, items, j) is Err,
    ensures
        spec_args(m, items, k) == spec_args(m, items, j),
    decreases k - j,
{
    if k > j {
        lemma_args_err_stays(m, items, j, k - 1);
    }
}

proof fn lemma_prefix_err_stays(p: Seq<Expr>, j: int, k: int)
    requires
        1 <= j <= k <= p.len(),
        spec_prefix(p, j) is Err,
    ensures
        spec_prefix(p, k) == spec_prefix(p, j),
    decreases k - j,
{
    if k > j {
        lemma_prefix_err_stays(p, j, k - 1);
    }
}

proof fn lemma_param_scope_lookup(ns: Seq<Seq<char>>, base: usize, n: Seq<char>)
    requires
        base + ns.len() <= usize::MAX,
    ensures
        scope_lookup(param_scope(ns, base), n) is Some <==> ns.contains(n),
    decreases ns.len(),
{
    if ns.len() > 0 {
        let pre = ns.drop_last();
        assert(param_scope(ns, base).drop_last() =~= param_scope(pre, base));
        lemma_param_scope_lookup(pre, base, n);
        if ns.contains(n) && ns.last() != n {
            let k = choose|k: int| 0 <= k < ns.len() && ns[k] == n;
            assert(pre[k] == n);
        }
        if pre.contains(n) {
            let k = choose|k: int| 0 <= k < pre.len() && pre[k] == n;
            assert(ns[k] == n);
        }
        if ns.last() == n {
            assert(ns[ns.len() - 1] == n);
        }
    }
}

/// Whether `s` names the definition form.
fn is_def_keyword(s: &String) -> (r: bool)
    ensures
        r == (s@ == def_keyword()),
{
    let k: String = "def".to_owned();
    proof {
        reveal_strlit("def");
        assert(k@ =~= def_keyword());
    }
    *s == k
}

/// Whether `s` is the reserved name of the entry function.
fn is_entry_name(s: &String) -> (r: bool)
    ensures
        r == (s@ == entry_name()),
{
    let k: String = "main".to_owned();
    proof {
        reveal_strlit("main");
        assert(k@ =~= entry_name());
    }
    *s == k
}

/// Whether `s` names the builtin addition.
fn is_plus_keyword(s: &String) -> (r: bool)
    ensures
        r == (s@ == plus_keyword()),
{
    let k: String = "+".to_owned();
    proof {
        reveal_strlit("+");
        assert(k@ =~= plus_keyword());
    }
    *s == k
}

/// One compile session: the scope stack and the code accumulated so far.
pub struct State {
    scopes: ScopeStack,
    code: Code,
}

impl State {
    pub closed spec fn model(&self) -> Model {
        Model { scopes: self.scopes@, code: self.code@ }
    }

    /// A fresh session with its top-level scope.
    pub fn new() -> (r: State)
        ensures
            r.model() == initial_model(),
    {
        let r = State { scopes: ScopeStack::new(), code: Code::new() };
        assert(r.model().scopes =~= initial_model().scopes);
        r
    }

    fn compile_expr(&mut self, e: &Expr) -> (r: Result<usize, CompError>)
        requires
            old(self).model().scopes.len() > 0,
        ensures
            final(self).model().scopes.len() == old(self).model().scopes.len(),
            final(self).model().code.functions.len() >= old(self).model().code.functions.len(),
            r is Ok ==> extends(old(self).model().scopes, final(self).model().scopes),
            r is Err ==> final(self).model().scopes == old(self).model().scopes,
            agrees(spec_expr(old(self).model(), *e), r, final(self).model()),
        decreases e, 0nat,
    {
        proof {
            lemma_extends_refl(self.model().scopes);
        }
        match e {
            Expr::IntLiteral(n) => Ok(self.code.push_value(Instr::Int(*n))),
            Expr::Symbol(name) => match self.scopes.find(name) {
                Some(b) => match b.to_rvalue() {
                    Some(v) => Ok(v),
                    None => Err(CompError::UndefinedSymbol),
                },
                None => Err(CompError::UndefinedSymbol),
            },
            Expr::List(items) => self.compile_form(items),
        }
    }

    fn compile_form(&mut self, items: &Vec<Expr>) -> (r: Result<usize, CompError>)
        requires
            old(self).model().scopes.len() > 0,
        ensures
            final(self).model().scopes.len() == old(self).model().scopes.len(),
            final(self).model().code.functions.len() >= old(self).model().code.functions.len(),
            r is Ok ==> extends(old(self).model().scopes, final(self).model().scopes),
            r is Err ==> final(self).model().scopes == old(self).model().scopes,
            agrees(spec_form(old(self).model(), *items), r, final(self).model()),
            items.len() == 0 || !(items[0] is Symbol) ==> final(self).model() == old(self).model(),
        decreases items, items.len() + 4,
    {
        if items.len() == 0 {
            return Err(CompError::InvalidForm);
        }
        match &items[0] {
            Expr::Symbol(head) => if is_def_keyword(head) {
                self.compile_def(items)
            } else {
                self.compile_call(items, head)
            },
            _ => Err(CompError::InvalidForm),
        }
    }

    fn compile_call(&mut self, items: &Vec<Expr>, name: &String) -> (r: Result<usize, CompError>)
        requires
            old(self).model().scopes.len() > 0,
            items.len() > 0,
        ensures
            final(self).model().scopes.len() == old(self).model().scopes.len(),
            final(self).model().code.functions.len() >= old(self).model().code.functions.len(),
            r is Ok ==> extends(old(self).model().scopes, final(self).model().scopes),
            r is Err ==> final(self).model().scopes == old(self).model().scopes,
            agrees(spec_call(old(self).model(), *items, name@), r, final(self).model()),
            name@ == plus_keyword() && items.len() != 3 ==> final(self).model() == old(self).model(),
            name@ != plus_keyword() && !(stack_lookup(old(self).model().scopes, name@) matches Some(
                Binding::Function(_),
            )) ==> final(self).model() == old(self).model(),
        decreases items, items.len() + 3,
    {
        if is_plus_keyword(name) {
            if items.len() != 3 {
                return Err(CompError::FuncCallWrongArgCount);
            }
            let ghost m0 = self.model();
            let saved = self.scopes.innermost_len();
            let l = match self.compile_expr(&items[1]) {
                Ok(v) => v,
                Err(e) => return Err(e),
            };
            let ghost m1 = self.model();
            let r = match self.compile_expr(&items[2]) {
                Ok(v) => v,
                Err(e) => {
                    proof {
                        lemma_extends_restore(m0.scopes, m1.scopes);
                    }
                    self.scopes.truncate_innermost(saved);
                    return Err(e);
                },
            };
            proof {
                lemma_extends_trans(m0.scopes, m1.scopes, self.model().scopes);
            }
            Ok(self.code.push_value(Instr::Add(l, r)))
        } else {
            match self.scopes.find(name) {
                None => Err(CompError::UndefinedSymbol),
                Some(Binding::Function(f)) => {
                    let ghost m0 = self.model();
                    let saved = self.scopes.innermost_len();
                    proof {
                        lemma_extends_refl(m0.scopes);
                    }
                    let mut args: Vec<usize> = Vec::new();
                    let mut k: usize = 1;
                    while k < items.len()
                        invariant
                            1 <= k <= items.len(),
                            m0 == old(self).model(),
                            m0.scopes.len() > 0,
                            name@ != plus_keyword(),
                            stack_lookup(m0.scopes, name@) == Some(Binding::Function(f)),
                            saved == m0.scopes.last().len(),
                            extends(m0.scopes, self.model().scopes),
                            self.model().scopes.len() == m0.scopes.len(),
                            self.model().code.functions.len() >= m0.code.functions.len(),
                            spec_args(m0, *items, k as int) == Ok::<(Model, Seq<usize>), CompError>(
                                (self.model(), args@),
                            ),
                        decreases items.len() - k,
                    {
                        let ghost mk = self.model();
                        match self.compile_expr(&items[k]) {
                            Ok(v) => {
                                args.push(v);
                                proof {
                                    lemma_extends_trans(m0.scopes, mk.scopes, self.model().scopes);
                                }
                            },
                            Err(e) => {
                                proof {
                                    lemma_args_err_stays(m0, *items, k + 1, items.len() as int);
                                    lemma_extends_restore(m0.scopes, mk.scopes);
                                }
                                self.scopes.truncate_innermost(saved);
                                return Err(e);
                            },
                        }
                        k = k + 1;
                    }
                    Ok(self.code.push_value(Instr::Call(f, args)))
                },
                Some(_) => Err(CompError::CalledNonFunction),
            }
        }
    }

    fn compile_def(&mut self, items: &Vec<Expr>) -> (r: Result<usize, CompError>)
        requires
            old(self).model().scopes.len() > 0,
        ensures
            final(self).model().scopes.len() == old(self).model().scopes.len(),
            final(self).model().code.functions.len() >= old(self).model().code.functions.len(),
            r is Ok ==> extends(old(self).model().scopes, final(self).model().scopes),
            r is Err ==> final(self).model().scopes == old(self).model().scopes,
            agrees(spec_def(old(self).model(), *items), r, final(self).model()),
            malformed_def(*items) ==> final(self).model() == old(self).model(),
        decreases items, items.len() + 3,
    {
        if items.len() < 2 {
            return Err(CompError::MissingFunctionName);
        }
        let name = match &items[1] {
            Expr::Symbol(s) => s,
            _ => return Err(CompError::MissingFunctionName),
        };
        if items.len() < 3 {
            return Err(CompError::MissingFunctionArgs);
        }
        let params = match &items[2] {
            Expr::List(ps) => ps,
            _ => return Err(CompError::MissingFunctionArgs),
        };
        if items.len() < 4 {
            return Err(CompError::MissingFunctionBody);
        }
        let ghost m0 = self.model();
        let mut names: Vec<String> = Vec::new();
        let mut k: usize = 0;
        while k < params.len()
            invariant
                k <= params.len(),
                items.len() >= 4,
                items[1] == Expr::Symbol(*name),
                items[2] == Expr::List(*params),
                m0 == old(self).model(),
                forall|j: int| 0 <= j < k ==> params@[j] is Symbol,
                names_view(names@) == param_names(params@.subrange(0, k as int)),
            decreases params.len() - k,
        {
            match &params[k] {
                Expr::Symbol(s) => {
                    let ghost before = names@;
                    let c = s.clone();
                    names.push(c);
                    assert(names@ == before.push(c));
                    assert(names_view(names@) =~= names_view(before).push(s@));
                    assert(params@.subrange(0, k + 1) =~= params@.subrange(0, k as int).push(params@[k as int]));
                    assert(param_names(params@.subrange(0, k + 1)) =~= param_names(params@.subrange(0, k as int)).push(s@));
                },
                _ => {
                    assert(!(params@[k as int] is Symbol));
                    return Err(CompError::BadFunctionArgDefinition);
                },
            }
            k = k + 1;
        }
        let ghost all_names = param_names(params@);
        assert(params@.subrange(0, params.len() as int) =~= params@);
        assert(!malformed_def(*items));
        if is_entry_name(name) {
            return Err(CompError::InvalidFunctionForm);
        }
        let f = self.code.push_function(
            FunctionDecl { name: name.clone(), linkage: Linkage::Internal, params: names, ret: None },
        );
        let base_index = self.code.values.len();
        let ghost base = base_index;
        self.scopes.add_scope();
        assert(param_scope(all_names.subrange(0, 0), base) =~= Seq::empty());
        assert(m0.code.values + param_values(f, 0) =~= m0.code.values);
        assert(self.model().scopes =~= m0.scopes.push(param_scope(all_names.subrange(0, 0), base)));
        k = 0;
        while k < params.len()
            invariant
                k <= params.len(),
                items.len() >= 4,
                items[1] == Expr::Symbol(*name),
                items[2] == Expr::List(*params),
                f == m0.code.functions.len(),
                name@ != entry_name(),
                base == m0.code.values.len(),
                m0 == old(self).model(),
                m0.scopes.len() > 0,
                all_names == param_names(params@),
                forall|j: int| 0 <= j < params.len() ==> params@[j] is Symbol,
                self.model().scopes == m0.scopes.push(
                    param_scope(all_names.subrange(0, k as int), base),
                ),
                all_names.subrange(0, k as int).no_duplicates(),
                self.model().code.values == m0.code.values + param_values(f, k as nat),
                self.model().code.functions == m0.code.functions.push(
                    FunctionView { name: name@, linkage: Linkage::Internal, params: all_names, ret: None },
                ),
            decreases params.len() - k,
        {
            let ghost pre = all_names.subrange(0, k as int);
            let v = self.code.push_value(Instr::Param { func: f, index: k });
            assert(self.model().code.values =~= m0.code.values + param_values(f, (k + 1) as nat));
            let s = match &params[k] {
                Expr::Symbol(s) => s,
                _ => return Err(CompError::BadFunctionArgDefinition),
            };
            assert(s@ == all_names[k as int]);
            proof {
                lemma_param_scope_lookup(pre, base, s@);
            }
            match self.scopes.declare(s.clone(), Binding::Parameter(v)) {
                Ok(()) => {},
                Err(_) => {
                    proof {
                        let j = choose|j: int| 0 <= j < pre.len() && pre[j] == s@;
                        assert(pre[j] == all_names[j]);
                        assert(all_names[j] == all_names[k as int]);
                        assert(!all_names.no_duplicates());
                    }
                    self.scopes.pop();
                    assert(self.model().scopes =~= m0.scopes);
                    return Err(CompError::BadFunctionArgDefinition);
                },
            }
            proof {
                let next = all_names.subrange(0, k + 1);
                assert(next.drop_last() =~= pre);
                assert(param_scope(next, base) =~= param_scope(pre, base).push(
                    (s@, Binding::Parameter(v)),
                ));
                assert(self.model().scopes =~= m0.scopes.push(param_scope(next, base)));
                assert forall|a: int, b: int|
                    0 <= a < next.len() && 0 <= b < next.len() && a != b implies next[a] != next[b] by {
                    if a == k {
                        assert(!pre.contains(next[a]));
                        if b < k {
                            assert(pre[b] == next[b]);
                        }
                    } else if b == k {
                        assert(!pre.contains(next[b]));
                        assert(pre[a] == next[a]);
                    } else {
                        assert(pre[a] == next[a]);
                        assert(pre[b] == next[b]);
                    }
                }
            }
            k = k + 1;
        }
        assert(all_names.subrange(0, params.len() as int) =~= all_names);
        let ghost inner = self.model();
        let body = match self.compile_expr(&items[3]) {
            Ok(v) => v,
            Err(e) => {
                self.scopes.pop();
                assert(self.model().scopes =~= m0.scopes);
                return Err(e);
            },
        };
        self.code.set_return(f, body);
        self.scopes.pop();
        assert(self.model().scopes =~= m0.scopes) by {
            assert forall|j: int| 0 <= j < m0.scopes.len() implies self.model().scopes[j] == m0.scopes[j] by {
                assert(inner.scopes[j] == m0.scopes[j]);
            }
        }
        match self.scopes.declare(name.clone(), Binding::Function(f)) {
            Ok(()) => {},
            Err(_) => return Err(CompError::InvalidFunctionForm),
        }
        proof {
            let a = m0.scopes;
            let b = self.model().scopes;
            assert(b.last().subrange(0, a.last().len() as int) =~= a.last());
        }
        Ok(self.code.push_value(Instr::Nil))
    }

    /// Compiles `program` into this fresh session: the implicit entry function
    /// `main` returns the value of the last top-level form, or 0 when there is
    /// none. The first error aborts the build.
    pub fn build(&mut self, program: &Vec<Expr>) -> (r: Result<(), CompError>)
        requires
            old(self).model() == initial_model(),
        ensures
            match spec_build(program@) {
                Ok(m) => r is Ok && final(self).model() == m,
                Err(e) => r == Err::<(), CompError>(e),
            },
    {
        let main = FunctionDecl {
            name: "main".to_owned(),
            linkage: Linkage::Exported,
            params: Vec::new(),
            ret: None,
        };
        proof {
            reveal_strlit("main");
            assert(main@.name =~= entry_name());
            assert(main@.params =~= Seq::<Seq<char>>::empty());
        }
        self.code.push_function(main);
        assert(self.model().code.functions =~= entry_declared().code.functions);
        let mut last: Option<usize> = None;
        let mut i: usize = 0;
        while i < program.len()
            invariant
                i <= program.len(),
                self.model().scopes.len() == 1,
                spec_prefix(program@, i as int) == Ok::<(Model, Option<usize>), CompError>(
                    (self.model(), last),
                ),
                self.model().code.functions.len() > 0,
            decreases program.len() - i,
        {
            match self.compile_expr(&program[i]) {
                Ok(v) => last = Some(v),
                Err(e) => {
                    proof {
                        lemma_prefix_err_stays(program@, i + 1, program.len() as int);
                    }
                    return Err(e);
                },
            }
            i = i + 1;
        }
        let ret = match last {
            Some(v) => v,
            None => self.code.push_value(Instr::Int(0)),
        };
        self.code.set_return(0, ret);
        Ok(())
    }

    /// Hands the accumulated code over; the session is gone afterwards.
    pub fn finish(self) -> (r: Code)
        ensures
            r@ == self.model().code,
    {
        self.code
    }
}

/// Compiles a whole program in a session of its own.
pub fn compile(program: &Vec<Expr>) -> (r: Result<Code, CompError>)
    ensures
        match spec_compile(program@) {
            Ok(c) => r matches Ok(code) && code@ == c,
            Err(e) => r matches Err(x) && x == e,
        },
{
    let mut state = State::new();
    match state.build(program) {
        Ok(()) => Ok(state.finish()),
        Err(e) => Err(e),
    }
}

} // verus!
