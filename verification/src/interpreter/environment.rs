//! The interpreter's variables: a stack of scopes, the innermost last, each
//! mapping names to values.
use vstd::prelude::*;

verus! {

/// A scope: names with their values. No name occurs twice.
pub type SpecVars<V> = Seq<(Seq<char>, V)>;

pub open spec fn view_vars<V>(v: Seq<(String, V)>) -> SpecVars<V> {
    v.map_values(|p: (String, V)| (p.0@, p.1))
}

/// Where `name` stands in `scope`.
pub open spec fn var_position<V>(scope: SpecVars<V>, name: Seq<char>) -> Option<int>
    decreases scope.len(),
{
    if scope.len() == 0 {
        None
    } else if scope.last().0 == name {
        Some(scope.len() - 1)
    } else {
        var_position(scope.drop_last(), name)
    }
}

/// `scope` with `name` bound to `value`: its entry changed, or a new entry.
pub open spec fn bind<V>(scope: SpecVars<V>, name: Seq<char>, value: V) -> SpecVars<V> {
    match var_position(scope, name) {
        Some(i) => scope.update(i, (name, value)),
        None => scope.push((name, value)),
    }
}

/// The innermost scope that holds `name`, and where `name` stands there.
pub open spec fn find_var<V>(stack: Seq<SpecVars<V>>, name: Seq<char>) -> Option<(int, int)>
    decreases stack.len(),
{
    if stack.len() == 0 {
        None
    } else {
        match var_position(stack.last(), name) {
            Some(i) => Some((stack.len() - 1, i)),
            None => find_var(stack.drop_last(), name),
        }
    }
}

/// The value of `name`: in the innermost scope that holds it.
pub open spec fn value_of<V>(stack: Seq<SpecVars<V>>, name: Seq<char>) -> Option<V> {
    match find_var(stack, name) {
        Some((s, i)) => Some(stack[s][i].1),
        None => None,
    }
}

/// The variables of the interpreter.
#[derive(Debug)]
pub struct Environment<V> {
    stack: Vec<Vec<(String, V)>>,
}

pub proof fn lemma_var_position<V>(scope: SpecVars<V>, name: Seq<char>)
    ensures
        var_position(scope, name) matches Some(i) ==> 0 <= i < scope.len() && scope[i].0 == name,
        var_position(scope, name) is None ==> forall|i: int|
            0 <= i < scope.len() ==> #[trigger] scope[i].0 != name,
    decreases scope.len(),
{
    if scope.len() > 0 {
        lemma_var_position(scope.drop_last(), name);
        assert forall|i: int| 0 <= i < scope.len() - 1 implies scope.drop_last()[i] == #[trigger] scope[i] by {}
    }
}

pub proof fn lemma_find_var<V>(stack: Seq<SpecVars<V>>, name: Seq<char>)
    ensures
        find_var(stack, name) matches Some((s, i)) ==> 0 <= s < stack.len() && 0 <= i
            < stack[s].len() && stack[s][i].0 == name,
    decreases stack.len(),
{
    if stack.len() > 0 {
        lemma_var_position(stack.last(), name);
        lemma_find_var(stack.drop_last(), name);
    }
}

fn position_of<V>(scope: &Vec<(String, V)>, name: &String) -> (r: Option<usize>)
    ensures
        r matches Some(i) ==> var_position(view_vars(scope@), name@) == Some(i as int) && i
            < scope@.len(),
        r is None ==> var_position(view_vars(scope@), name@) is None,
{
    let ghost v = view_vars(scope@);
    let mut i = scope.len();
    proof {
        assert(v.take(i as int) =~= v);
    }
    while i > 0
        invariant
            i <= scope@.len(),
            v == view_vars(scope@),
            var_position(v, name@) == var_position(v.take(i as int), name@),
        decreases i,
    {
        proof {
            assert(v.take(i as int).drop_last() =~= v.take(i - 1));
        }
        if scope[i - 1].0 == *name {
            return Some(i - 1);
        }
        i = i - 1;
    }
    None
}

/// The innermost scope that holds `name`, and where it stands there.
fn find_in<V>(stack: &Vec<Vec<(String, V)>>, name: &String) -> (r: Option<(usize, usize)>)
    ensures
        r matches Some((s, i)) ==> s < stack@.len() && i < stack@[s as int]@.len() && find_var(
            stack@.map_values(|sc: Vec<(String, V)>| view_vars(sc@)),
            name@,
        ) == Some((s as int, i as int)),
        r is None ==> find_var(
            stack@.map_values(|sc: Vec<(String, V)>| view_vars(sc@)),
            name@,
        ) is None,
{
    let ghost st = stack@.map_values(|sc: Vec<(String, V)>| view_vars(sc@));
    let mut s = stack.len();
    proof {
        assert(st.take(s as int) =~= st);
    }
    while s > 0
        invariant
            s <= stack@.len(),
            st == stack@.map_values(|sc: Vec<(String, V)>| view_vars(sc@)),
            find_var(st, name@) == find_var(st.take(s as int), name@),
        decreases s,
    {
        proof {
            assert(st.take(s as int).drop_last() =~= st.take(s - 1));
            assert(st.take(s as int).last() == view_vars(stack@[s - 1]@));
        }
        match position_of(&stack[s - 1], name) {
            Some(i) => {
                return Some((s - 1, i));
            },
            None => {},
        }
        s = s - 1;
    }
    None
}

impl<V> Environment<V> {
    /// The scopes, the innermost last.
    pub closed spec fn scopes(&self) -> Seq<SpecVars<V>> {
        self.stack@.map_values(|sc: Vec<(String, V)>| view_vars(sc@))
    }

    /// An environment with one scope, the global one, empty.
    pub fn new() -> (r: Self)
        ensures
            r.scopes() == seq![Seq::<(Seq<char>, V)>::empty()],
    {
        let mut stack: Vec<Vec<(String, V)>> = Vec::new();
        stack.push(Vec::new());
        let r = Environment { stack };
        proof {
            assert(view_vars(Seq::<(String, V)>::empty()) =~= Seq::<(Seq<char>, V)>::empty());
            assert(r.scopes() =~= seq![Seq::<(Seq<char>, V)>::empty()]);
        }
        r
    }

    /// Binds `name` to `value` in the innermost scope (replacing what it held
    /// there). There is always a scope to bind in.
    pub fn add(&mut self, name: String, value: V)
        requires
            old(self).scopes().len() > 0,
        ensures
            final(self).scopes() == old(self).scopes().update(
                old(self).scopes().len() - 1,
                bind(old(self).scopes().last(), name@, value),
            ),
    {
        let ghost n = name@;
        let ghost before = self.scopes();
        let mut last = self.stack.pop().unwrap();
        let ghost lv = view_vars(last@);
        match position_of(&last, &name) {
            Some(i) => {
                last.set(i, (name, value));
                proof {
                    assert(view_vars(last@) =~= lv.update(i as int, (n, value)));
                }
            },
            None => {
                last.push((name, value));
                proof {
                    assert(view_vars(last@) =~= lv.push((n, value)));
                }
            },
        }
        self.stack.push(last);
        proof {
            assert(self.scopes() =~= before.update(before.len() - 1, bind(before.last(), n, value)));
        }
    }

    /// Gives `name` the value `value` in the innermost scope that holds it;
    /// `false` (and nothing changes) where no scope does.
    pub fn assign(&mut self, name: &str, value: V) -> (found: bool)
        ensures
            found == (find_var(old(self).scopes(), name@) is Some),
            match find_var(old(self).scopes(), name@) {
                Some((s, i)) => final(self).scopes() == old(self).scopes().update(
                    s,
                    old(self).scopes()[s].update(i, (name@, value)),
                ),
                None => final(self).scopes() == old(self).scopes(),
            },
    {
        let ghost before = self.scopes();
        let key = name.to_owned();
        proof {
            lemma_find_var(before, name@);
        }
        match find_in(&self.stack, &key) {
            Some((s, i)) => {
                let mut scope = self.stack.remove(s);
                let ghost sv = view_vars(scope@);
                let (key, _) = scope.remove(i);
                scope.insert(i, (key, value));
                proof {
                    assert(view_vars(scope@) =~= sv.update(i as int, (name@, value)));
                }
                self.stack.insert(s, scope);
                proof {
                    assert(self.scopes() =~= before.update(
                        s as int,
                        before[s as int].update(i as int, (name@, value)),
                    ));
                }
                true
            },
            None => false,
        }
    }

    /// The value of `name` in the innermost scope that holds it.
    pub fn get(&self, name: &str) -> (r: Option<&V>)
        ensures
            match value_of(self.scopes(), name@) {
                Some(v) => r == Some(&v),
                None => r is None,
            },
    {
        let key = name.to_owned();
        proof {
            lemma_find_var(self.scopes(), name@);
        }
        match find_in(&self.stack, &key) {
            Some((s, i)) => Some(&self.stack[s][i].1),
            None => None,
        }
    }

    /// How many scopes are open, the global one included.
    pub fn scope_count(&self) -> (n: usize)
        ensures
            n == self.scopes().len(),
    {
        self.stack.len()
    }

    /// Opens a new innermost scope, empty.
    pub fn push(&mut self)
        ensures
            final(self).scopes() == old(self).scopes().push(Seq::empty()),
    {
        self.stack.push(Vec::new());
        proof {
            assert(view_vars(Seq::<(String, V)>::empty()) =~= Seq::<(Seq<char>, V)>::empty());
            assert(self.scopes() =~= old(self).scopes().push(Seq::empty()));
        }
    }

    /// Closes the innermost scope, if there is one.
    pub fn pop(&mut self)
        ensures
            old(self).scopes().len() > 0 ==> final(self).scopes() == old(self).scopes().drop_last(),
            old(self).scopes().len() == 0 ==> final(self).scopes() == old(self).scopes(),
    {
        self.stack.pop();
        proof {
            if old(self).scopes().len() > 0 {
                assert(self.scopes() =~= old(self).scopes().drop_last());
            } else {
                assert(self.scopes() =~= old(self).scopes());
            }
        }
    }
}

} // verus!

verus! {

proof fn lemma_position_after_update<V>(scope: SpecVars<V>, name: Seq<char>, value: V, i: int)
    requires
        var_position(scope, name) == Some(i),
    ensures
        var_position(scope.update(i, (name, value)), name) == Some(i),
    decreases scope.len(),
{
    lemma_var_position(scope, name);
    let s2 = scope.update(i, (name, value));
    if i < scope.len() - 1 {
        assert(s2.drop_last() =~= scope.drop_last().update(i, (name, value)));
        lemma_position_after_update(scope.drop_last(), name, value, i);
    }
}

/// A variable just added is found, with the value it was given.
pub proof fn lemma_get_after_add<V>(stack: Seq<SpecVars<V>>, name: Seq<char>, value: V)
    requires
        stack.len() > 0,
    ensures
        value_of(stack.update(stack.len() - 1, bind(stack.last(), name, value)), name) == Some(
            value,
        ),
{
    let scope = stack.last();
    let s2 = bind(scope, name, value);
    let st2 = stack.update(stack.len() - 1, s2);
    lemma_var_position(scope, name);
    match var_position(scope, name) {
        Some(i) => {
            lemma_position_after_update(scope, name, value, i);
        },
        None => {
            assert(scope.push((name, value)).last() == (name, value));
        },
    }
    assert(st2.last() == s2);
}

/// A variable just assigned is found, with the value it was given.
pub proof fn lemma_get_after_assign<V>(stack: Seq<SpecVars<V>>, name: Seq<char>, value: V)
    requires
        find_var(stack, name) is Some,
    ensures
        ({
            let (s, i) = find_var(stack, name)->0;
            value_of(stack.update(s, stack[s].update(i, (name, value))), name) == Some(value)
        }),
    decreases stack.len(),
{
    let (s, i) = find_var(stack, name)->0;
    let st2 = stack.update(s, stack[s].update(i, (name, value)));
    lemma_find_var(stack, name);
    match var_position(stack.last(), name) {
        Some(j) => {
            lemma_position_after_update(stack.last(), name, value, j);
            assert(st2.last() == stack.last().update(j, (name, value)));
            assert(find_var(st2, name) == Some((s, i)));
        },
        None => {
            assert(find_var(stack.drop_last(), name) == Some((s, i)));
            lemma_find_var(stack.drop_last(), name);
            assert(stack.drop_last()[s] == stack[s]);
            lemma_get_after_assign(stack.drop_last(), name, value);
            assert(st2.drop_last() =~= stack.drop_last().update(s, stack[s].update(i, (name, value))));
            assert(st2.last() == stack.last());
            assert(find_var(st2, name) == find_var(st2.drop_last(), name));
            let (s2, i2) = find_var(st2.drop_last(), name)->0;
            lemma_find_var(st2.drop_last(), name);
            assert(st2.drop_last()[s2] == st2[s2]);
        },
    }
}

/// Closing the scope just opened gives back the scopes there were.
pub proof fn lemma_pop_undoes_push<V>(stack: Seq<SpecVars<V>>)
    ensures
        stack.push(Seq::empty()).drop_last() == stack,
{
    assert(stack.push(Seq::empty()).drop_last() =~= stack);
}

} // verus!
