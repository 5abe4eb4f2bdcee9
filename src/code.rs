use vstd::prelude::*;

verus! {

/// One value-producing backend instruction. Operands name earlier
/// instructions by their index in [`Code::values`].
#[derive(PartialEq, Eq, Debug)]
pub enum Instr {
    /// An integer constant.
    Int(i32),
    /// The unit value, produced by a definition form.
    Nil,
    /// The `index`-th parameter of function `func`.
    Param { func: usize, index: usize },
    /// Integer addition of two values.
    Add(usize, usize),
    /// A call of function `0` on the argument values `1`, positionally.
    Call(usize, Vec<usize>),
}

pub enum InstrView {
    Int(i32),
    Nil,
    Param { func: usize, index: usize },
    Add(usize, usize),
    Call(usize, Seq<usize>),
}

impl View for Instr {
    type V = InstrView;

    open spec fn view(&self) -> InstrView {
        match self {
            Instr::Int(n) => InstrView::Int(*n),
            Instr::Nil => InstrView::Nil,
            Instr::Param { func, index } => InstrView::Param { func: *func, index: *index },
            Instr::Add(a, b) => InstrView::Add(*a, *b),
            Instr::Call(f, args) => InstrView::Call(*f, args@),
        }
    }
}

/// Whether a function is visible outside the produced artifact.
#[derive(PartialEq, Eq, Structural, Clone, Copy, Debug)]
pub enum Linkage {
    Exported,
    Internal,
}

/// A declared function: integer parameters, integer result, one basic block
/// that returns `ret` once its body has been compiled.
#[derive(PartialEq, Eq, Debug)]
pub struct FunctionDecl {
    pub name: String,
    pub linkage: Linkage,
    pub params: Vec<String>,
    pub ret: Option<usize>,
}

pub struct FunctionView {
    pub name: Seq<char>,
    pub linkage: Linkage,
    pub params: Seq<Seq<char>>,
    pub ret: Option<usize>,
}

pub open spec fn names_view(v: Seq<String>) -> Seq<Seq<char>> {
    v.map_values(|s: String| s@)
}

impl View for FunctionDecl {
    type V = FunctionView;

    open spec fn view(&self) -> FunctionView {
        FunctionView {
            name: self.name@,
            linkage: self.linkage,
            params: names_view(self.params@),
            ret: self.ret,
        }
    }
}

/// The accumulated program handed to the native backend.
#[derive(PartialEq, Eq, Debug)]
pub struct Code {
    pub values: Vec<Instr>,
    pub functions: Vec<FunctionDecl>,
}

pub struct CodeView {
    pub values: Seq<InstrView>,
    pub functions: Seq<FunctionView>,
}

impl View for Code {
    type V = CodeView;

    open spec fn view(&self) -> CodeView {
        CodeView {
            values: self.values@.map_values(|i: Instr| i@),
            functions: self.functions@.map_values(|f: FunctionDecl| f@),
        }
    }
}

/// The name under which the entry function is exported.
pub open spec fn entry_name() -> Seq<char> {
    seq!['m', 'a', 'i', 'n']
}

/// What value `i` evaluates to with the parameters `env`, within `fuel`
/// nested steps: `None` for the unit value, an operand out of range, a sum
/// that leaves 32 bits, or a call that cannot be completed.
pub open spec fn eval(c: CodeView, i: usize, env: Seq<int>, fuel: nat) -> Option<int>
    decreases fuel, 0nat,
{
    if fuel == 0 || i >= c.values.len() {
        None
    } else {
        match c.values[i as int] {
            InstrView::Int(n) => Some(n as int),
            InstrView::Nil => None,
            InstrView::Param { index, .. } => if index < env.len() {
                Some(env[index as int])
            } else {
                None
            },
            InstrView::Add(a, b) => match (
                eval(c, a, env, (fuel - 1) as nat),
                eval(c, b, env, (fuel - 1) as nat),
            ) {
                (Some(x), Some(y)) => if i32::MIN <= x + y <= i32::MAX {
                    Some(x + y)
                } else {
                    None
                },
                _ => None,
            },
            InstrView::Call(f, args) => match eval_args(c, args, env, (fuel - 1) as nat) {
                Some(vals) => if f < c.functions.len() && c.functions[f as int].ret is Some
                    && vals.len() == c.functions[f as int].params.len() {
                    eval(c, c.functions[f as int].ret->0, vals, (fuel - 1) as nat)
                } else {
                    None
                },
                None => None,
            },
        }
    }
}

/// The values of `args`, in order, when each of them evaluates.
pub open spec fn eval_args(c: CodeView, args: Seq<usize>, env: Seq<int>, fuel: nat) -> Option<
    Seq<int>,
>
    decreases fuel, args.len() + 1,
{
    if args.len() == 0 {
        Some(Seq::empty())
    } else {
        match (eval(c, args[0], env, fuel), eval_args(c, args.drop_first(), env, fuel)) {
            (Some(x), Some(rest)) => Some(seq![x] + rest),
            _ => None,
        }
    }
}

/// The entry function, declared first, evaluates to `n` when invoked with
/// no arguments.
pub open spec fn entry_returns(c: CodeView, n: int) -> bool {
    &&& c.functions.len() > 0
    &&& c.functions[0].ret is Some
    &&& exists|fuel: nat| eval(c, c.functions[0].ret->0, Seq::empty(), fuel) == Some(n)
}

impl Code {
    pub fn new() -> (r: Code)
        ensures
            r@.values == Seq::<InstrView>::empty(),
            r@.functions == Seq::<FunctionView>::empty(),
    {
        let r = Code { values: Vec::new(), functions: Vec::new() };
        assert(r@.values =~= Seq::<InstrView>::empty());
        assert(r@.functions =~= Seq::<FunctionView>::empty());
        r
    }

    /// Appends an instruction and returns its index.
    pub fn push_value(&mut self, i: Instr) -> (r: usize)
        ensures
            r == old(self)@.values.len(),
            final(self)@.values == old(self)@.values.push(i@),
            final(self)@.functions == old(self)@.functions,
    {
        let r = self.values.len();
        self.values.push(i);
        proof {
            assert(self@.values =~= old(self)@.values.push(i@));
            assert(self@.functions =~= old(self)@.functions);
        }
        r
    }

    /// Appends a function declaration and returns its index.
    pub fn push_function(&mut self, f: FunctionDecl) -> (r: usize)
        ensures
            r == old(self)@.functions.len(),
            final(self)@.functions == old(self)@.functions.push(f@),
            final(self)@.values == old(self)@.values,
    {
        let r = self.functions.len();
        self.functions.push(f);
        proof {
            assert(self@.values =~= old(self)@.values);
            assert(self@.functions =~= old(self)@.functions.push(f@));
        }
        r
    }

    /// Sets the value that function `f` returns.
    pub fn set_return(&mut self, f: usize, v: usize)
        requires
            f < old(self)@.functions.len(),
        ensures
            final(self)@.functions == old(self)@.functions.update(
                f as int,
                FunctionView { ret: Some(v), ..old(self)@.functions[f as int] },
            ),
            final(self)@.values == old(self)@.values,
    {
        let mut g = self.functions.remove(f);
        g.ret = Some(v);
        self.functions.insert(f, g);
        proof {
            assert(self@.values =~= old(self)@.values);
            assert(self@.functions =~= old(self)@.functions.update(
                f as int,
                FunctionView { ret: Some(v), ..old(self)@.functions[f as int] },
            ));
        }
    }
}

} // verus!
