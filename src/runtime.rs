//! Runtime values and the binding store.
use vstd::prelude::*;

verus! {

/// A runtime value.
///
/// `Ident` is a reference to a binding, not yet looked up; a number is the
/// bit pattern of an IEEE-754 double.
#[derive(Debug, PartialEq)]
pub enum RuntimeVal {
    Ident(String),
    Bool(bool),
    Str(String),
    Num(u64),
    Null,
}

impl RuntimeVal {
    /// A copy of this value.
    pub fn duplicate(&self) -> (r: RuntimeVal)
        ensures
            r == *self,
    {
        match self {
            RuntimeVal::Ident(name) => RuntimeVal::Ident(name.clone()),
            RuntimeVal::Bool(b) => RuntimeVal::Bool(*b),
            RuntimeVal::Str(s) => RuntimeVal::Str(s.clone()),
            RuntimeVal::Num(n) => RuntimeVal::Num(*n),
            RuntimeVal::Null => RuntimeVal::Null,
        }
    }
}

/// The bindings of one scope, in the order in which they were made.
pub type Scope = Seq<(String, RuntimeVal)>;

/// The first index at or after `i` whose binding is named `name`.
pub open spec fn find_from(scope: Scope, name: Seq<char>, i: int) -> Option<int>
    decreases scope.len() - i,
{
    if i < 0 || i >= scope.len() {
        None
    } else if scope[i].0@ == name {
        Some(i)
    } else {
        find_from(scope, name, i + 1)
    }
}

/// What `find_from` returns is a binding named `name`, at or after `i`.
pub proof fn lemma_find_from(scope: Scope, name: Seq<char>, i: int)
    ensures
        match find_from(scope, name, i) {
            Some(j) => i <= j < scope.len() && 0 <= j && scope[j].0@ == name,
            None => true,
        },
    decreases scope.len() - i,
{
    if 0 <= i < scope.len() && scope[i].0@ != name {
        lemma_find_from(scope, name, i + 1);
    }
}

/// Whether two strings hold the same characters.
pub fn same_text(a: &str, b: &str) -> (r: bool)
    ensures
        r == (a@ == b@),
{
    let n = a.unicode_len();
    if n != b.unicode_len() {
        return false;
    }
    let mut i: usize = 0;
    while i < n
        invariant
            n == a@.len(),
            n == b@.len(),
            i <= n,
            forall|k: int| 0 <= k < i ==> a@[k] == b@[k],
        decreases n - i,
    {
        if a.get_char(i) != b.get_char(i) {
            return false;
        }
        i = i + 1;
    }
    assert(a@ =~= b@);
    true
}

/// The value bound to `name` in the innermost scope that binds it.
pub open spec fn lookup(scopes: Seq<Scope>, name: Seq<char>) -> Option<RuntimeVal>
    decreases scopes.len(),
{
    if scopes.len() == 0 {
        None
    } else {
        match find_from(scopes[0], name, 0) {
            Some(i) => Some(scopes[0][i].1),
            None => lookup(scopes.drop_first(), name),
        }
    }
}

/// `scope` with `name` bound to `v`: the existing binding is overwritten,
/// or a new one is added at the end.
pub open spec fn bind(scope: Scope, name: String, v: RuntimeVal) -> Scope {
    match find_from(scope, name@, 0) {
        Some(i) => scope.update(i, (scope[i].0, v)),
        None => scope.push((name, v)),
    }
}

/// The scope chain with `name` bound to `v` in the innermost scope only.
pub open spec fn bind_innermost(scopes: Seq<Scope>, name: String, v: RuntimeVal) -> Seq<Scope> {
    if scopes.len() == 0 {
        seq![bind(Seq::empty(), name, v)]
    } else {
        scopes.update(0, bind(scopes[0], name, v))
    }
}

/// The number of bindings in all scopes together, at most `u64::MAX`.
pub open spec fn binding_count(scopes: Seq<Scope>) -> nat
    decreases scopes.len(),
{
    if scopes.len() == 0 {
        0
    } else {
        let rest = binding_count(scopes.drop_first());
        if scopes[0].len() + rest > u64::MAX {
            u64::MAX as nat
        } else {
            scopes[0].len() + rest
        }
    }
}

/// A runtime environment: the bindings of the current scope, and an optional
/// enclosing scope.
///
/// A lookup looks in the current scope first and then walks out through the
/// enclosing scopes; a binding is only ever made in the current scope.
pub struct RuntimeEnv {
    /// The optional parent of this environment.
    pub parent: Option<Box<RuntimeEnv>>,
    /// The variables of this scope, each with its runtime value.
    pub vars: Vec<(String, RuntimeVal)>,
}

impl RuntimeEnv {
    /// The scope chain, innermost first.
    pub open spec fn scopes(&self) -> Seq<Scope>
        decreases self,
    {
        match self.parent {
            Some(p) => seq![self.vars@] + p.scopes(),
            None => seq![self.vars@],
        }
    }

    /// The scope chain starts with this scope's vars and goes on with the parent's.
    pub proof fn lemma_scopes(&self)
        ensures
            self.scopes().len() >= 1,
            self.scopes()[0] == self.vars@,
            self.scopes().drop_first() == (match self.parent {
                Some(p) => p.scopes(),
                None => Seq::<Scope>::empty(),
            }),
    {
        match self.parent {
            Some(p) => {
                assert(self.scopes().drop_first() =~= p.scopes());
            },
            None => {
                assert(self.scopes().drop_first() =~= Seq::<Scope>::empty());
            },
        }
    }

    /// Constructs a new runtime environment with an optional parent and vars.
    pub fn new(parent: Option<Box<RuntimeEnv>>, vars: Vec<(String, RuntimeVal)>) -> (r: Self)
        ensures
            r.parent == parent,
            r.vars == vars,
    {
        RuntimeEnv { parent, vars }
    }

    /// Constructs a top-level environment with no vars.
    pub fn empty() -> (r: Self)
        ensures
            r.scopes() == seq![Seq::<(String, RuntimeVal)>::empty()],
    {
        let r = RuntimeEnv { parent: None, vars: Vec::new() };
        assert(r.vars@ =~= Seq::empty());
        r
    }

    /// Constructs a new runtime environment with a parent and no vars.
    pub fn create_with_parent(parent: Box<RuntimeEnv>) -> (r: Self)
        ensures
            r.scopes() == seq![Seq::<(String, RuntimeVal)>::empty()] + parent.scopes(),
    {
        let r = RuntimeEnv { parent: Some(parent), vars: Vec::new() };
        assert(r.vars@ =~= Seq::empty());
        r
    }

    /// The index of the binding of `name` in this scope, if there is one.
    fn find_var(&self, name: &str) -> (r: Option<usize>)
        ensures
            match r {
                Some(i) => find_from(self.vars@, name@, 0) == Some(i as int),
                None => find_from(self.vars@, name@, 0) is None,
            },
    {
        let mut i: usize = 0;
        while i < self.vars.len()
            invariant
                i <= self.vars@.len(),
                find_from(self.vars@, name@, 0) == find_from(self.vars@, name@, i as int),
            decreases self.vars@.len() - i,
        {
            if same_text(self.vars[i].0.as_str(), name) {
                return Some(i);
            }
            i = i + 1;
        }
        None
    }

    /// Returns the value of a variable with `name`, looked up in this scope
    /// and then in the enclosing ones.
    pub fn get_var(&self, name: &str) -> (r: Option<RuntimeVal>)
        ensures
            r == lookup(self.scopes(), name@),
        decreases self,
    {
        let found = self.find_var(name);
        proof {
            self.lemma_scopes();
            lemma_find_from(self.vars@, name@, 0);
        }
        match found {
            Some(i) => Some(self.vars[i].1.duplicate()),
            None => match &self.parent {
                Some(p) => {
                    p.get_var(name)
                },
                None => None,
            },
        }
    }

    /// Returns true if a var with `name` exists in this scope.
    pub fn var_exists(&self, name: &str) -> (r: bool)
        ensures
            r == (find_from(self.vars@, name@, 0) is Some),
    {
        self.find_var(name).is_some()
    }

    /// Binds `name` to `value` in this scope, overwriting an earlier binding
    /// of `name` in this scope only.
    pub fn set_var(&mut self, name: String, value: RuntimeVal)
        ensures
            final(self).scopes() == bind_innermost(old(self).scopes(), name, value),
            final(self).parent == old(self).parent,
    {
        let found = self.find_var(name.as_str());
        proof {
            lemma_find_from(self.vars@, name@, 0);
        }
        match found {
            Some(i) => {
                let key = self.vars[i].0.clone();
                self.vars.set(i, (key, value));
            },
            None => {
                self.vars.push((name, value));
            },
        }
        proof {
            let s = old(self).scopes();
            assert(s[0] == old(self).vars@);
            assert(self.scopes() =~= bind_innermost(s, name, value));
        }
    }

    /// The number of bindings in this scope and the enclosing ones, at most
    /// `u64::MAX`.
    pub fn count_bindings(&self) -> (r: u64)
        ensures
            r as nat == binding_count(self.scopes()),
        decreases self,
    {
        let rest: u64 = match &self.parent {
            Some(p) => p.count_bindings(),
            None => 0,
        };
        proof {
            self.lemma_scopes();
            if self.parent is None {
                assert(binding_count(Seq::<Scope>::empty()) == 0);
            }
            assert(binding_count(self.scopes().drop_first()) == rest as nat);
        }
        let own = self.vars.len();
        if own as u64 > u64::MAX - rest {
            u64::MAX
        } else {
            own as u64 + rest
        }
    }
}

} // verus!
