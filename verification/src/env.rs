//! The variables of a running program: a global scope and a stack of
//! block scopes, the innermost last. A name is looked up from the innermost
//! scope outwards, then in the global scope.
use vstd::prelude::*;

verus! {

/// The abstract value of a list of bindings: later bindings win.
pub open spec fn bindings_map<V>(b: Seq<(Seq<char>, V)>) -> Map<Seq<char>, V>
    decreases b.len(),
{
    if b.len() == 0 {
        Map::empty()
    } else {
        bindings_map(b.drop_last()).insert(b.last().0, b.last().1)
    }
}

/// No name is bound twice.
pub open spec fn distinct_names<V>(b: Seq<(Seq<char>, V)>) -> bool {
    forall|i: int, j: int| 0 <= i < j < b.len() ==> b[i].0 != b[j].0
}

/// The abstract value of an environment: the global scope's variables and
/// those of each block scope, outermost first.
pub ghost struct EnvView<V> {
    pub global: Map<Seq<char>, V>,
    pub scopes: Seq<Map<Seq<char>, V>>,
}

/// The value of `name` in the scopes `scopes` (innermost last), else in
/// `global`.
pub open spec fn lookup_in<V>(scopes: Seq<Map<Seq<char>, V>>, global: Map<Seq<char>, V>, name: Seq<char>) -> Option<V>
    decreases scopes.len(),
{
    if scopes.len() == 0 {
        if global.contains_key(name) {
            Some(global[name])
        } else {
            None
        }
    } else if scopes.last().contains_key(name) {
        Some(scopes.last()[name])
    } else {
        lookup_in(scopes.drop_last(), global, name)
    }
}

/// The value of `name`, from the innermost scope that has it.
pub open spec fn spec_lookup<V>(e: EnvView<V>, name: Seq<char>) -> Option<V> {
    lookup_in(e.scopes, e.global, name)
}

/// Binds `name` to `value` in the innermost scope, or the global scope
/// where no block scope is open.
pub open spec fn spec_define<V>(e: EnvView<V>, name: Seq<char>, value: V) -> EnvView<V> {
    if e.scopes.len() == 0 {
        EnvView { global: e.global.insert(name, value), scopes: e.scopes }
    } else {
        EnvView {
            global: e.global,
            scopes: e.scopes.update(e.scopes.len() - 1, e.scopes.last().insert(name, value)),
        }
    }
}

/// The scopes `scopes` and `global` with `name` set to `value` in the
/// innermost scope that has it; unchanged where none has it.
pub open spec fn assign_in<V>(scopes: Seq<Map<Seq<char>, V>>, global: Map<Seq<char>, V>, name: Seq<char>, value: V) -> EnvView<V>
    decreases scopes.len(),
{
    if scopes.len() == 0 {
        if global.contains_key(name) {
            EnvView { global: global.insert(name, value), scopes }
        } else {
            EnvView { global, scopes }
        }
    } else if scopes.last().contains_key(name) {
        EnvView { global, scopes: scopes.update(scopes.len() - 1, scopes.last().insert(name, value)) }
    } else {
        let inner = assign_in(scopes.drop_last(), global, name, value);
        EnvView { global: inner.global, scopes: inner.scopes.push(scopes.last()) }
    }
}

/// Sets `name` to `value` in the innermost scope that has it.
pub open spec fn spec_assign<V>(e: EnvView<V>, name: Seq<char>, value: V) -> EnvView<V> {
    assign_in(e.scopes, e.global, name, value)
}

/// Opens a new, empty innermost scope.
pub open spec fn spec_start_scope<V>(e: EnvView<V>) -> EnvView<V> {
    EnvView { global: e.global, scopes: e.scopes.push(Map::empty()) }
}

/// Closes the innermost scope, if one is open.
pub open spec fn spec_end_scope<V>(e: EnvView<V>) -> EnvView<V> {
    if e.scopes.len() == 0 {
        e
    } else {
        EnvView { global: e.global, scopes: e.scopes.drop_last() }
    }
}

/// The abstract value of a list of bindings held as strings.
pub open spec fn bindings_view<V>(b: Seq<(String, V)>) -> Seq<(Seq<char>, V)> {
    b.map_values(|p: (String, V)| (p.0@, p.1))
}

/// The value bound to a name that a list binds once, and no other.
pub proof fn lemma_bindings_at<V>(b: Seq<(Seq<char>, V)>, i: int)
    requires
        distinct_names(b),
        0 <= i < b.len(),
    ensures
        bindings_map(b).contains_key(b[i].0),
        bindings_map(b)[b[i].0] == b[i].1,
    decreases b.len(),
{
    if i < b.len() - 1 {
        assert(distinct_names(b.drop_last()));
        lemma_bindings_at(b.drop_last(), i);
        assert(b.drop_last()[i] == b[i]);
    }
}

/// A name that no binding of a list carries is not bound by it.
pub proof fn lemma_bindings_absent<V>(b: Seq<(Seq<char>, V)>, name: Seq<char>)
    requires
        forall|i: int| 0 <= i < b.len() ==> b[i].0 != name,
    ensures
        !bindings_map(b).contains_key(name),
    decreases b.len(),
{
    if b.len() > 0 {
        lemma_bindings_absent(b.drop_last(), name);
    }
}

/// Rebinding the name at position `i` of a list binds it to the new value
/// and leaves the other names as they were.
pub proof fn lemma_bindings_update<V>(b: Seq<(Seq<char>, V)>, i: int, value: V)
    requires
        distinct_names(b),
        0 <= i < b.len(),
    ensures
        bindings_map(b.update(i, (b[i].0, value))) == bindings_map(b).insert(b[i].0, value),
    decreases b.len(),
{
    let u = b.update(i, (b[i].0, value));
    if i == b.len() - 1 {
        assert(u.drop_last() =~= b.drop_last());
        assert forall|j: int| 0 <= j < b.drop_last().len() implies b.drop_last()[j].0 != b[i].0 by {
            assert(b.drop_last()[j] == b[j]);
        }
        lemma_bindings_absent(b.drop_last(), b[i].0);
        assert(bindings_map(u) =~= bindings_map(b).insert(b[i].0, value));
    } else {
        assert(distinct_names(b.drop_last()));
        lemma_bindings_update(b.drop_last(), i, value);
        assert(u.drop_last() =~= b.drop_last().update(i, (b[i].0, value)));
        assert(b.last().0 != b[i].0);
        assert(bindings_map(u) =~= bindings_map(b).insert(b[i].0, value));
    }
}

/// Where `name` sits in the bindings `b`, if anywhere.
fn find_binding<V>(b: &Vec<(String, V)>, name: &String) -> (r: Option<usize>)
    ensures
        match r {
            Some(i) => i < b.len() && b@[i as int].0@ == name@,
            None => forall|i: int| 0 <= i < b.len() ==> (#[trigger] b@[i]).0@ != name@,
        },
{
    let mut i: usize = 0;
    while i < b.len()
        invariant
            i <= b.len(),
            forall|j: int| 0 <= j < i ==> (#[trigger] b@[j]).0@ != name@,
        decreases b.len() - i,
    {
        if b[i].0 == *name {
            return Some(i);
        }
        i = i + 1;
    }
    None
}

/// Binds `name` to `value` in the bindings `b`: rebinding it where it is
/// bound, adding it where not; gives back the value it had.
fn bind<V>(b: &mut Vec<(String, V)>, name: String, value: V) -> (r: Option<V>)
    requires
        distinct_names(bindings_view(old(b)@)),
    ensures
        distinct_names(bindings_view(final(b)@)),
        bindings_map(bindings_view(final(b)@)) == bindings_map(bindings_view(old(b)@)).insert(
            name@,
            value,
        ),
        r == (if bindings_map(bindings_view(old(b)@)).contains_key(name@) {
            Some(bindings_map(bindings_view(old(b)@))[name@])
        } else {
            None
        }),
{
    let ghost before = bindings_view(b@);
    match find_binding(b, &name) {
        Some(i) => {
            proof {
                lemma_bindings_at(before, i as int);
            }
            let ghost key = b@[i as int].0;
            let mut old_entry = (name, value);
            std::mem::swap(&mut b[i], &mut old_entry);
            proof {
                assert(bindings_view(b@) =~= before.update(i as int, (before[i as int].0, value)));
                lemma_bindings_update(before, i as int, value);
                assert(distinct_names(bindings_view(b@)));
            }
            Some(old_entry.1)
        },
        None => {
            proof {
                assert forall|j: int| 0 <= j < before.len() implies before[j].0 != name@ by {
                    assert(before[j].0 == b@[j].0@);
                }
                lemma_bindings_absent(before, name@);
            }
            let ghost nv = name@;
            b.push((name, value));
            proof {
                assert(bindings_view(b@) =~= before.push((nv, value)));
                assert(bindings_view(b@).drop_last() =~= before);
            }
            None
        },
    }
}

/// The variables of one scope, each bound once.
///
/// The bindings are a vector of name and value pairs with no name twice,
/// not a `HashMap<String, V>`: vstd's contracts for `HashMap` hold only for
/// key types known to obey its key model, which `String` is not, so with a
/// map nothing could be proved of a lookup or an insert. The vector gives
/// the same behaviour, and every operation on it is verified.
#[derive(Clone, Debug)]
pub struct Scope<V> {
    vars: Vec<(String, V)>,
}

impl<V> View for Scope<V> {
    type V = Map<Seq<char>, V>;

    closed spec fn view(&self) -> Map<Seq<char>, V> {
        bindings_map(bindings_view(self.vars@))
    }
}

impl<V> Scope<V> {
    /// The scope binds no name twice.
    pub closed spec fn wf(&self) -> bool {
        distinct_names(bindings_view(self.vars@))
    }

    /// An empty scope.
    pub fn new() -> (s: Self)
        ensures
            s.wf(),
            s@ == Map::<Seq<char>, V>::empty(),
    {
        let s = Scope { vars: Vec::new() };
        proof {
            assert(bindings_view(s.vars@) =~= Seq::<(Seq<char>, V)>::empty());
        }
        s
    }

    /// Binds `name` to `value`, replacing any value it had; gives back that
    /// value.
    pub fn upsert(&mut self, name: String, value: V) -> (r: Option<V>)
        requires
            old(self).wf(),
        ensures
            final(self).wf(),
            final(self)@ == old(self)@.insert(name@, value),
            r == (if old(self)@.contains_key(name@) {
                Some(old(self)@[name@])
            } else {
                None
            }),
    {
        bind(&mut self.vars, name, value)
    }

    /// The value of `name`, if the scope binds it.
    pub fn lookup(&self, name: &String) -> (r: Option<&V>)
        requires
            self.wf(),
        ensures
            match r {
                Some(v) => self@.contains_key(name@) && self@[name@] == *v,
                None => !self@.contains_key(name@),
            },
    {
        match find_binding(&self.vars, name) {
            Some(i) => {
                proof {
                    lemma_bindings_at(bindings_view(self.vars@), i as int);
                }
                Some(&self.vars[i].1)
            },
            None => {
                proof {
                    assert forall|j: int|
                        0 <= j < bindings_view(self.vars@).len() implies bindings_view(
                        self.vars@,
                    )[j].0 != name@ by {
                        assert(bindings_view(self.vars@)[j].0 == self.vars@[j].0@);
                    }
                    lemma_bindings_absent(bindings_view(self.vars@), name@);
                }
                None
            },
        }
    }

    /// Whether the scope binds `name`.
    pub fn contains(&self, name: &String) -> (r: bool)
        requires
            self.wf(),
        ensures
            r == self@.contains_key(name@),
    {
        self.lookup(name).is_some()
    }
}

/// The abstract values of a stack of scopes.
pub open spec fn scopes_view<V>(v: Seq<Scope<V>>) -> Seq<Map<Seq<char>, V>> {
    v.map_values(|s: Scope<V>| s@)
}

/// The variables of a running program: the global scope and the block
/// scopes, innermost last.
#[derive(Clone, Debug)]
pub struct Env<V> {
    global: Scope<V>,
    scopes: Vec<Scope<V>>,
}

impl<V> View for Env<V> {
    type V = EnvView<V>;

    closed spec fn view(&self) -> EnvView<V> {
        EnvView { global: self.global@, scopes: scopes_view(self.scopes@) }
    }
}

/// The value of a name that the innermost scope binds, or else found
/// further out.
pub proof fn lemma_lookup_step<V>(scopes: Seq<Map<Seq<char>, V>>, global: Map<Seq<char>, V>, name: Seq<char>, i: int)
    requires
        0 < i <= scopes.len(),
    ensures
        lookup_in(scopes.take(i), global, name) == (if scopes[i - 1].contains_key(name) {
            Some(scopes[i - 1][name])
        } else {
            lookup_in(scopes.take(i - 1), global, name)
        }),
{
    assert(scopes.take(i).drop_last() =~= scopes.take(i - 1));
}

/// Setting a name that scope `i` binds, and no scope inside it, changes
/// scope `i` alone.
pub proof fn lemma_assign_at<V>(scopes: Seq<Map<Seq<char>, V>>, global: Map<Seq<char>, V>, name: Seq<char>, value: V, i: int)
    requires
        0 <= i < scopes.len(),
        scopes[i].contains_key(name),
        forall|j: int| i < j < scopes.len() ==> !(#[trigger] scopes[j]).contains_key(name),
    ensures
        assign_in(scopes, global, name, value) == (EnvView {
            global,
            scopes: scopes.update(i, scopes[i].insert(name, value)),
        }),
    decreases scopes.len(),
{
    if i < scopes.len() - 1 {
        lemma_assign_at(scopes.drop_last(), global, name, value, i);
        assert(scopes.drop_last().update(i, scopes[i].insert(name, value)).push(scopes.last())
            =~= scopes.update(i, scopes[i].insert(name, value)));
    }
}

/// Setting a name that no block scope binds changes the global scope
/// alone, and only where it binds the name.
pub proof fn lemma_assign_global<V>(scopes: Seq<Map<Seq<char>, V>>, global: Map<Seq<char>, V>, name: Seq<char>, value: V)
    requires
        forall|j: int| 0 <= j < scopes.len() ==> !(#[trigger] scopes[j]).contains_key(name),
    ensures
        assign_in(scopes, global, name, value) == (EnvView {
            global: if global.contains_key(name) {
                global.insert(name, value)
            } else {
                global
            },
            scopes,
        }),
        lookup_in(scopes, global, name) == (if global.contains_key(name) {
            Some(global[name])
        } else {
            None
        }),
    decreases scopes.len(),
{
    if scopes.len() > 0 {
        lemma_assign_global(scopes.drop_last(), global, name, value);
        assert(scopes.drop_last().push(scopes.last()) =~= scopes);
    }
}

impl<V> Env<V> {
    /// Every scope binds each of its names once.
    pub closed spec fn wf(&self) -> bool {
        &&& self.global.wf()
        &&& forall|i: int| 0 <= i < self.scopes.len() ==> (#[trigger] self.scopes@[i]).wf()
    }

    /// An environment with no variables and no open block scope.
    pub fn new() -> (e: Self)
        ensures
            e.wf(),
            e@.global == Map::<Seq<char>, V>::empty(),
            e@.scopes == Seq::<Map<Seq<char>, V>>::empty(),
    {
        let e = Env { global: Scope::new(), scopes: Vec::new() };
        proof {
            assert(scopes_view(e.scopes@) =~= Seq::<Map<Seq<char>, V>>::empty());
        }
        e
    }

    /// The number of open block scopes.
    pub fn depth(&self) -> (n: usize)
        ensures
            n == self@.scopes.len(),
    {
        self.scopes.len()
    }

    /// Opens a new, empty innermost scope.
    pub fn start_scope(&mut self)
        requires
            old(self).wf(),
        ensures
            final(self).wf(),
            final(self)@ == spec_start_scope(old(self)@),
    {
        let ghost before = self.scopes@;
        self.scopes.push(Scope::new());
        proof {
            assert(scopes_view(self.scopes@) =~= scopes_view(before).push(Map::empty()));
        }
    }

    /// Closes the innermost scope, if one is open.
    pub fn end_scope(&mut self)
        requires
            old(self).wf(),
        ensures
            final(self).wf(),
            final(self)@ == spec_end_scope(old(self)@),
    {
        let ghost before = self.scopes@;
        if self.scopes.len() > 0 {
            self.scopes.pop();
            proof {
                assert(scopes_view(self.scopes@) =~= scopes_view(before).drop_last());
            }
        }
    }

    /// Binds `name` to `value` in the innermost scope, or the global scope
    /// where no block scope is open; gives back the value it had there.
    pub fn define(&mut self, name: String, value: V) -> (r: Option<V>)
        requires
            old(self).wf(),
        ensures
            final(self).wf(),
            final(self)@ == spec_define(old(self)@, name@, value),
            r == (if old(self)@.scopes.len() == 0 {
                if old(self)@.global.contains_key(name@) {
                    Some(old(self)@.global[name@])
                } else {
                    None
                }
            } else if old(self)@.scopes.last().contains_key(name@) {
                Some(old(self)@.scopes.last()[name@])
            } else {
                None
            }),
    {
        let ghost before = self.scopes@;
        match self.scopes.pop() {
            None => self.global.upsert(name, value),
            Some(mut innermost) => {
                proof {
                    assert(innermost == before.last());
                }
                let r = innermost.upsert(name, value);
                self.scopes.push(innermost);
                proof {
                    assert(scopes_view(self.scopes@) =~= scopes_view(before).update(
                        before.len() - 1,
                        before.last()@.insert(name@, value),
                    ));
                }
                r
            },
        }
    }

    /// The value of `name`, from the innermost scope that binds it.
    pub fn lookup(&self, name: &String) -> (r: Option<&V>)
        requires
            self.wf(),
        ensures
            match r {
                Some(v) => spec_lookup(self@, name@) == Some(*v),
                None => spec_lookup(self@, name@) is None,
            },
    {
        let ghost sv = scopes_view(self.scopes@);
        let mut i = self.scopes.len();
        proof {
            assert(sv.take(i as int) =~= sv);
        }
        while i > 0
            invariant
                i <= self.scopes.len(),
                sv == scopes_view(self.scopes@),
                self.wf(),
                spec_lookup(self@, name@) == lookup_in(sv.take(i as int), self.global@, name@),
            decreases i,
        {
            proof {
                lemma_lookup_step(sv, self.global@, name@, i as int);
            }
            match self.scopes[i - 1].lookup(name) {
                Some(v) => return Some(v),
                None => {},
            }
            i = i - 1;
        }
        proof {
            assert(sv.take(0) =~= Seq::<Map<Seq<char>, V>>::empty());
        }
        self.global.lookup(name)
    }

    /// Whether some scope binds `name`.
    pub fn contains(&self, name: &String) -> (r: bool)
        requires
            self.wf(),
        ensures
            r == spec_lookup(self@, name@) is Some,
    {
        self.lookup(name).is_some()
    }

    /// Sets `name` to `value` in the innermost scope that binds it; tells
    /// whether one did. Where none does, nothing changes.
    pub fn assign(&mut self, name: &String, value: V) -> (r: bool)
        requires
            old(self).wf(),
        ensures
            final(self).wf(),
            r == spec_lookup(old(self)@, name@) is Some,
            final(self)@ == spec_assign(old(self)@, name@, value),
    {
        let ghost sv = scopes_view(self.scopes@);
        let mut i = self.scopes.len();
        while i > 0
            invariant
                i <= self.scopes.len(),
                sv == scopes_view(self.scopes@),
                self.wf(),
                *self == *old(self),
                forall|j: int| i <= j < sv.len() ==> !(#[trigger] sv[j]).contains_key(name@),
            decreases i,
        {
            if self.scopes[i - 1].contains(name) {
                proof {
                    lemma_assign_at(sv, self.global@, name@, value, i - 1);
                    lemma_lookup_step(sv, self.global@, name@, i as int);
                }
                let mut scope = Scope::new();
                std::mem::swap(&mut self.scopes[i - 1], &mut scope);
                let ghost held = scope@;
                scope.upsert(string_copy(name), value);
                std::mem::swap(&mut self.scopes[i - 1], &mut scope);
                proof {
                    assert(scopes_view(self.scopes@) =~= sv.update(i - 1, held.insert(name@, value)));
                    assert(sv.take(sv.len() as int) =~= sv);
                    lemma_lookup_found(sv, self.global@, name@, i - 1);
                }
                return true;
            }
            i = i - 1;
        }
        proof {
            lemma_assign_global(sv, self.global@, name@, value);
        }
        if self.global.contains(name) {
            self.global.upsert(string_copy(name), value);
            true
        } else {
            false
        }
    }

    /// The open block scopes, innermost last.
    pub fn scopes(&self) -> (r: &Vec<Scope<V>>)
        ensures
            scopes_view(r@) == self@.scopes,
    {
        &self.scopes
    }

    /// Exchanges the open block scopes with `other`; a call runs in the
    /// scopes its function was declared in.
    pub fn swap_scopes(&mut self, other: &mut Vec<Scope<V>>)
        requires
            old(self).wf(),
            forall|i: int| 0 <= i < old(other).len() ==> (#[trigger] old(other)@[i]).wf(),
        ensures
            final(self).wf(),
            forall|i: int| 0 <= i < final(other).len() ==> (#[trigger] final(other)@[i]).wf(),
            final(self)@.global == old(self)@.global,
            final(self)@.scopes == scopes_view(old(other)@),
            scopes_view(final(other)@) == old(self)@.scopes,
    {
        std::mem::swap(&mut self.scopes, other);
    }
}

/// A copy of a string.
fn string_copy(s: &String) -> (r: String)
    ensures
        r@ == s@,
{
    s.clone()
}

/// Where scope `i` binds a name that no scope inside it binds, the name's
/// value is the one in scope `i`.
pub proof fn lemma_lookup_found<V>(scopes: Seq<Map<Seq<char>, V>>, global: Map<Seq<char>, V>, name: Seq<char>, i: int)
    requires
        0 <= i < scopes.len(),
        scopes[i].contains_key(name),
        forall|j: int| i < j < scopes.len() ==> !(#[trigger] scopes[j]).contains_key(name),
    ensures
        lookup_in(scopes, global, name) == Some(scopes[i][name]),
    decreases scopes.len(),
{
    if i < scopes.len() - 1 {
        lemma_lookup_found(scopes.drop_last(), global, name, i);
    }
}

/// A name just defined is found, with the value given.
pub proof fn law_lookup_after_define<V>(e: EnvView<V>, name: Seq<char>, value: V)
    ensures
        spec_lookup(spec_define(e, name, value), name) == Some(value),
{
}

/// Defining a name leaves the value of every other name as it was.
pub proof fn law_define_keeps_others<V>(e: EnvView<V>, name: Seq<char>, other: Seq<char>, value: V)
    requires
        other != name,
    ensures
        spec_lookup(spec_define(e, name, value), other) == spec_lookup(e, other),
{
    if e.scopes.len() > 0 {
        let d = spec_define(e, name, value);
        assert(d.scopes.drop_last() =~= e.scopes.drop_last());
    }
}

/// Opening a scope and closing it again changes nothing.
pub proof fn law_scope_round_trip<V>(e: EnvView<V>)
    ensures
        spec_end_scope(spec_start_scope(e)) == e,
{
    assert(spec_end_scope(spec_start_scope(e)).scopes =~= e.scopes);
}

/// What a block defines is gone once the block's scope closes.
pub proof fn law_block_definitions_vanish<V>(e: EnvView<V>, name: Seq<char>, value: V)
    ensures
        spec_end_scope(spec_define(spec_start_scope(e), name, value)) == e,
{
    assert(spec_end_scope(spec_define(spec_start_scope(e), name, value)).scopes =~= e.scopes);
}

/// A name given a new value by assignment is found with that value.
pub proof fn law_lookup_after_assign<V>(e: EnvView<V>, name: Seq<char>, value: V)
    requires
        spec_lookup(e, name) is Some,
    ensures
        spec_lookup(spec_assign(e, name, value), name) == Some(value),
    decreases e.scopes.len(),
{
    if e.scopes.len() > 0 && !e.scopes.last().contains_key(name) {
        let inner = EnvView { global: e.global, scopes: e.scopes.drop_last() };
        law_lookup_after_assign(inner, name, value);
        let a = spec_assign(e, name, value);
        assert(a.scopes.drop_last() =~= spec_assign(inner, name, value).scopes);
    }
}

/// Assigning a name that no scope binds changes nothing.
pub proof fn law_assign_unbound<V>(e: EnvView<V>, name: Seq<char>, value: V)
    requires
        spec_lookup(e, name) is None,
    ensures
        spec_assign(e, name, value) == e,
    decreases e.scopes.len(),
{
    if e.scopes.len() > 0 {
        let inner = EnvView { global: e.global, scopes: e.scopes.drop_last() };
        law_assign_unbound(inner, name, value);
        assert(e.scopes.drop_last().push(e.scopes.last()) =~= e.scopes);
    }
}

} // verus!
