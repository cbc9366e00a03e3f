use vstd::prelude::*;

verus! {

/// What a store binds `k` to, if anything.
pub open spec fn lookup(m: Map<Seq<char>, i32>, k: Seq<char>) -> Option<i32> {
    if m.contains_key(k) {
        Some(m[k])
    } else {
        None
    }
}

/// The mapping that a list of bindings denotes; a later binding of a name
/// hides an earlier one.
pub open spec fn bindings_map(e: Seq<(String, i32)>) -> Map<Seq<char>, i32>
    decreases e.len(),
{
    if e.len() == 0 {
        Map::empty()
    } else {
        bindings_map(e.drop_last()).insert(e.last().0@, e.last().1)
    }
}

/// No name is bound twice.
pub open spec fn names_unique(e: Seq<(String, i32)>) -> bool {
    forall|i: int, j: int| 0 <= i < j < e.len() ==> e[i].0@ != e[j].0@
}

proof fn lemma_bindings_absent(e: Seq<(String, i32)>, k: Seq<char>)
    requires
        forall|i: int| 0 <= i < e.len() ==> e[i].0@ != k,
    ensures
        !bindings_map(e).contains_key(k),
    decreases e.len(),
{
    if e.len() > 0 {
        lemma_bindings_absent(e.drop_last(), k);
    }
}

proof fn lemma_bindings_at(e: Seq<(String, i32)>, i: int)
    requires
        names_unique(e),
        0 <= i < e.len(),
    ensures
        bindings_map(e).contains_key(e[i].0@),
        bindings_map(e)[e[i].0@] == e[i].1,
    decreases e.len(),
{
    if i < e.len() - 1 {
        lemma_bindings_at(e.drop_last(), i);
    }
}

proof fn lemma_bindings_update(e: Seq<(String, i32)>, i: int, v: i32)
    requires
        names_unique(e),
        0 <= i < e.len(),
    ensures
        bindings_map(e.update(i, (e[i].0, v))) == bindings_map(e).insert(e[i].0@, v),
    decreases e.len(),
{
    let f = e.update(i, (e[i].0, v));
    if i == e.len() - 1 {
        assert(f.drop_last() == e.drop_last());
        assert(bindings_map(e).insert(e[i].0@, v) =~= bindings_map(e.drop_last()).insert(e[i].0@, v));
    } else {
        lemma_bindings_update(e.drop_last(), i, v);
        assert(f.drop_last() == e.drop_last().update(i, (e[i].0, v)));
        assert(bindings_map(f) =~= bindings_map(e).insert(e[i].0@, v));
    }
}

/// A store: the value of each variable assigned so far.
pub struct Store {
    entries: Vec<(String, i32)>,
}

impl View for Store {
    type V = Map<Seq<char>, i32>;

    closed spec fn view(&self) -> Map<Seq<char>, i32> {
        bindings_map(self.entries@)
    }
}

impl Store {
    #[verifier::type_invariant]
    spec fn inv(self) -> bool {
        names_unique(self.entries@)
    }

    /// An empty store.
    pub fn new() -> (r: Store)
        ensures
            r@ == Map::<Seq<char>, i32>::empty(),
    {
        Store { entries: Vec::new() }
    }

    fn position(&self, var: &str) -> (r: Option<usize>)
        ensures
            match r {
                Some(i) => i < self.entries@.len() && self.entries@[i as int].0@ == var@,
                None => forall|i: int| 0 <= i < self.entries@.len() ==> self.entries@[i].0@ != var@,
            },
    {
        let key = var.to_owned();
        let mut i: usize = 0;
        while i < self.entries.len()
            invariant
                key@ == var@,
                i <= self.entries@.len(),
                forall|j: int| 0 <= j < i ==> self.entries@[j].0@ != var@,
            decreases self.entries@.len() - i,
        {
            if self.entries[i].0 == key {
                return Some(i);
            }
            i = i + 1;
        }
        None
    }

    /// The value bound to `var`, if any.
    pub fn get(&self, var: &str) -> (r: Option<i32>)
        ensures
            r == lookup(self@, var@),
    {
        proof {
            use_type_invariant(self);
        }
        match self.position(var) {
            Some(i) => {
                proof {
                    lemma_bindings_at(self.entries@, i as int);
                }
                Some(self.entries[i].1)
            },
            None => {
                proof {
                    lemma_bindings_absent(self.entries@, var@);
                }
                None
            },
        }
    }

    /// Binds `var` to `value`, replacing any earlier binding.
    pub fn insert(&mut self, var: &str, value: i32)
        ensures
            final(self)@ == old(self)@.insert(var@, value),
    {
        proof {
            use_type_invariant(&*self);
        }
        let pos = self.position(var);
        let mut e: Vec<(String, i32)> = Vec::new();
        std::mem::swap(&mut self.entries, &mut e);
        let ghost e0 = e@;
        match pos {
            Some(i) => {
                proof {
                    lemma_bindings_update(e0, i as int, value);
                }
                let name = e[i].0.clone();
                e.set(i, (name, value));
                assert(e@ == e0.update(i as int, (e0[i as int].0, value)));
            },
            None => {
                e.push((var.to_owned(), value));
                assert(e@.drop_last() == e0);
            },
        }
        self.entries = e;
    }
}

} // verus!
