use vstd::prelude::*;

verus! {

/// What a name currently means in the generated program. Every variant
/// holds a backend handle: a function index, or a value index.
#[derive(PartialEq, Eq, Structural, Clone, Copy, Debug)]
pub enum Binding {
    Function(usize),
    Value(usize),
    StorageLocation(usize),
    Parameter(usize),
}

/// The value a binding stands for outside call position; a function has none.
pub open spec fn usable_value(b: Binding) -> Option<usize> {
    match b {
        Binding::Function(_) => None,
        Binding::Value(v) => Some(v),
        Binding::StorageLocation(v) => Some(v),
        Binding::Parameter(v) => Some(v),
    }
}

impl Binding {
    /// Narrows the binding to a usable value.
    pub fn to_rvalue(&self) -> (r: Option<usize>)
        ensures
            r == usable_value(*self),
    {
        match self {
            Binding::Function(_) => None,
            Binding::Value(v) => Some(*v),
            Binding::StorageLocation(v) => Some(*v),
            Binding::Parameter(v) => Some(*v),
        }
    }
}

pub type ScopeView = Seq<(Seq<char>, Binding)>;

/// The binding of `name` in one scope; the latest entry wins.
pub open spec fn scope_lookup(s: ScopeView, name: Seq<char>) -> Option<Binding>
    decreases s.len(),
{
    if s.len() == 0 {
        None
    } else if s.last().0 == name {
        Some(s.last().1)
    } else {
        scope_lookup(s.drop_last(), name)
    }
}

/// The binding of `name` through a stack of scopes, innermost (last) first.
pub open spec fn stack_lookup(st: Seq<ScopeView>, name: Seq<char>) -> Option<Binding>
    decreases st.len(),
{
    if st.len() == 0 {
        None
    } else {
        match scope_lookup(st.last(), name) {
            Some(b) => Some(b),
            None => stack_lookup(st.drop_last(), name),
        }
    }
}

/// No name is bound twice in one scope.
pub open spec fn names_unique(s: ScopeView) -> bool {
    forall|i: int, j: int| 0 <= i < j < s.len() ==> #[trigger] s[i].0 != #[trigger] s[j].0
}

/// Every scope of the stack binds each of its names once.
pub open spec fn stack_names_unique(st: Seq<ScopeView>) -> bool {
    forall|i: int| 0 <= i < st.len() ==> names_unique(#[trigger] st[i])
}

/// `b` is `a` with bindings added to the innermost scope only.
pub open spec fn extends(a: Seq<ScopeView>, b: Seq<ScopeView>) -> bool {
    &&& a.len() == b.len()
    &&& a.len() > 0
    &&& forall|i: int| 0 <= i < a.len() - 1 ==> a[i] == b[i]
    &&& a.last().len() <= b.last().len()
    &&& b.last().subrange(0, a.last().len() as int) == a.last()
}

pub proof fn lemma_extends_refl(a: Seq<ScopeView>)
    requires
        a.len() > 0,
    ensures
        extends(a, a),
{
    assert(a.last().subrange(0, a.last().len() as int) =~= a.last());
}

/// Cutting the innermost scope of `b` back to the length it has in `a`
/// gives `a` again.
pub proof fn lemma_extends_restore(a: Seq<ScopeView>, b: Seq<ScopeView>)
    requires
        extends(a, b),
    ensures
        b.update(b.len() - 1, b.last().subrange(0, a.last().len() as int)) == a,
{
    assert(b.update(b.len() - 1, b.last().subrange(0, a.last().len() as int)) =~= a);
}

pub proof fn lemma_extends_trans(a: Seq<ScopeView>, b: Seq<ScopeView>, c: Seq<ScopeView>)
    requires
        extends(a, b),
        extends(b, c),
    ensures
        extends(a, c),
{
    assert(c.last().subrange(0, a.last().len() as int) =~= b.last().subrange(0, a.last().len() as int));
}

/// A single scope: its names paired with their bindings.
pub struct Scope {
    entries: Vec<(String, Binding)>,
}

pub closed spec fn scope_view(s: Scope) -> ScopeView {
    s.entries@.map_values(|p: (String, Binding)| (p.0@, p.1))
}

impl View for Scope {
    type V = ScopeView;

    open spec fn view(&self) -> ScopeView {
        scope_view(*self)
    }
}

impl Scope {
    pub fn new() -> (r: Scope)
        ensures
            r@ == Seq::<(Seq<char>, Binding)>::empty(),
    {
        let r = Scope { entries: Vec::new() };
        assert(r@ =~= Seq::<(Seq<char>, Binding)>::empty());
        r
    }

    /// The binding of `name` in this scope.
    pub fn get(&self, name: &String) -> (r: Option<Binding>)
        ensures
            r == scope_lookup(self@, name@),
    {
        let mut i: usize = self.entries.len();
        assert(self@.subrange(0, i as int) =~= self@);
        while i > 0
            invariant
                i <= self.entries.len(),
                scope_lookup(self@, name@) == scope_lookup(self@.subrange(0, i as int), name@),
            decreases i,
        {
            let ghost pre = self@.subrange(0, i as int);
            assert(pre.drop_last() =~= self@.subrange(0, i - 1));
            if self.entries[i - 1].0 == *name {
                return Some(self.entries[i - 1].1);
            }
            i = i - 1;
        }
        None
    }

    fn insert(&mut self, name: String, b: Binding)
        ensures
            final(self)@ == old(self)@.push((name@, b)),
    {
        self.entries.push((name, b));
        assert(self@ =~= old(self)@.push((name@, b)));
    }

    fn truncate(&mut self, len: usize)
        requires
            len <= old(self)@.len(),
        ensures
            final(self)@ == old(self)@.subrange(0, len as int),
    {
        while self.entries.len() > len
            invariant
                len <= self@.len() <= old(self)@.len(),
                self@ == old(self)@.subrange(0, self@.len() as int),
            decreases self.entries.len(),
        {
            let _ = self.entries.pop();
            assert(self@ =~= old(self)@.subrange(0, self@.len() as int));
        }
    }
}

proof fn lemma_lookup_none_absent(s: ScopeView, name: Seq<char>)
    requires
        scope_lookup(s, name) is None,
    ensures
        forall|i: int| 0 <= i < s.len() ==> s[i].0 != name,
    decreases s.len(),
{
    if s.len() > 0 {
        lemma_lookup_none_absent(s.drop_last(), name);
        assert forall|i: int| 0 <= i < s.len() implies s[i].0 != name by {
            if i < s.len() - 1 {
                assert(s.drop_last()[i] == s[i]);
            }
        }
    }
}

/// Nested symbol tables, innermost last.
pub struct ScopeStack {
    stack: Vec<Scope>,
}

/// Raised when a name is declared twice in one scope.
#[derive(Debug)]
pub struct SymbolExistsError;

impl View for ScopeStack {
    type V = Seq<ScopeView>;

    closed spec fn view(&self) -> Seq<ScopeView> {
        self.stack@.map_values(|s: Scope| s@)
    }
}

impl ScopeStack {
    /// A stack holding the top-level scope alone.
    pub fn new() -> (r: ScopeStack)
        ensures
            r@ == seq![Seq::<(Seq<char>, Binding)>::empty()],
            stack_names_unique(r@),
    {
        let mut stack: Vec<Scope> = Vec::new();
        stack.push(Scope::new());
        let r = ScopeStack { stack };
        assert(r@ =~= seq![Seq::<(Seq<char>, Binding)>::empty()]);
        r
    }

    /// Opens a fresh, innermost scope.
    pub fn add_scope(&mut self)
        ensures
            final(self)@ == old(self)@.push(Seq::empty()),
            stack_names_unique(old(self)@) ==> stack_names_unique(final(self)@),
    {
        self.stack.push(Scope::new());
        assert(self@ =~= old(self)@.push(Seq::empty()));
    }

    /// Closes the innermost scope; the top-level scope stays.
    pub fn pop(&mut self)
        requires
            old(self)@.len() > 1,
        ensures
            final(self)@ == old(self)@.drop_last(),
            stack_names_unique(old(self)@) ==> stack_names_unique(final(self)@),
    {
        let _ = self.stack.pop();
        assert(self@ =~= old(self)@.drop_last());
    }

    /// Binds `name` in the innermost scope, unless that scope binds it already.
    pub fn declare(&mut self, name: String, b: Binding) -> (r: Result<(), SymbolExistsError>)
        requires
            old(self)@.len() > 0,
        ensures
            r is Err <==> scope_lookup(old(self)@.last(), name@) is Some,
            r is Err ==> final(self)@ == old(self)@,
            r is Ok ==> final(self)@ == old(self)@.update(
                old(self)@.len() - 1,
                old(self)@.last().push((name@, b)),
            ),
            stack_names_unique(old(self)@) ==> stack_names_unique(final(self)@),
    {
        let last = self.stack.len() - 1;
        if self.stack[last].get(&name).is_some() {
            return Err(SymbolExistsError);
        }
        proof {
            lemma_lookup_none_absent(old(self)@.last(), name@);
        }
        let mut s = self.stack.pop().unwrap();
        s.insert(name, b);
        self.stack.push(s);
        proof {
            assert(self@ =~= old(self)@.update(
                old(self)@.len() - 1,
                old(self)@.last().push((name@, b)),
            ));
        }
        Ok(())
    }

    /// How many bindings the innermost scope holds.
    pub fn innermost_len(&self) -> (r: usize)
        requires
            self@.len() > 0,
        ensures
            r == self@.last().len(),
    {
        self.stack[self.stack.len() - 1].entries.len()
    }

    /// Drops the bindings of the innermost scope past its first `len`.
    pub fn truncate_innermost(&mut self, len: usize)
        requires
            old(self)@.len() > 0,
            len <= old(self)@.last().len(),
        ensures
            final(self)@ == old(self)@.update(
                old(self)@.len() - 1,
                old(self)@.last().subrange(0, len as int),
            ),
            stack_names_unique(old(self)@) ==> stack_names_unique(final(self)@),
    {
        let mut s = self.stack.pop().unwrap();
        s.truncate(len);
        self.stack.push(s);
        proof {
            assert(self@ =~= old(self)@.update(
                old(self)@.len() - 1,
                old(self)@.last().subrange(0, len as int),
            ));
            if stack_names_unique(old(self)@) {
                assert forall|i: int| 0 <= i < self@.len() implies names_unique(#[trigger] self@[i]) by {
                    if i == self@.len() - 1 {
                        assert(names_unique(old(self)@[i]));
                        let t = self@[i];
                        assert forall|p: int, q: int| 0 <= p < q < t.len() implies #[trigger] t[p].0
                            != #[trigger] t[q].0 by {
                            assert(t[p] == old(self)@[i][p]);
                            assert(t[q] == old(self)@[i][q]);
                        }
                    }
                }
            }
        }
    }

    /// The binding of `name`, searching from the innermost scope outwards.
    pub fn find(&self, name: &String) -> (r: Option<Binding>)
        ensures
            r == stack_lookup(self@, name@),
    {
        let mut i: usize = self.stack.len();
        assert(self@.subrange(0, i as int) =~= self@);
        while i > 0
            invariant
                i <= self.stack.len(),
                stack_lookup(self@, name@) == stack_lookup(self@.subrange(0, i as int), name@),
            decreases i,
        {
            let ghost pre = self@.subrange(0, i as int);
            assert(pre.drop_last() =~= self@.subrange(0, i - 1));
            let found = self.stack[i - 1].get(name);
            if found.is_some() {
                return found;
            }
            i = i - 1;
        }
        None
    }
}

} // verus!
