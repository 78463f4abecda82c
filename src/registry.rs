use vstd::prelude::*;

verus! {

/// One binding of the registry: a key and the expression text it stands for.
pub struct Entry {
    pub key: String,
    pub expr: String,
}

/// The store of one compilation pass: a mapping from key text to expression
/// text, created empty and changed only by `put`.
pub struct Registry {
    entries: Vec<Entry>,
}

impl Registry {
    /// The entries, in the order in which their keys were first put.
    pub closed spec fn entries(&self) -> Seq<Entry> {
        self.entries@
    }

    /// Whether some entry has key `k`.
    pub open spec fn has_key(&self, k: Seq<char>) -> bool {
        exists|i: int| 0 <= i < self.entries().len() && #[trigger] self.entries()[i].key@ == k
    }

    /// The position of the entry with key `k`.
    pub open spec fn index_of(&self, k: Seq<char>) -> int {
        choose|i: int| 0 <= i < self.entries().len() && #[trigger] self.entries()[i].key@ == k
    }

    /// No two entries share a key.
    pub open spec fn wf(&self) -> bool {
        forall|i: int, j: int|
            0 <= i < j < self.entries().len() ==> #[trigger] self.entries()[i].key@
                != #[trigger] self.entries()[j].key@
    }

    /// The mapping that the registry holds.
    pub open spec fn view(&self) -> Map<Seq<char>, Seq<char>> {
        Map::new(|k: Seq<char>| self.has_key(k), |k: Seq<char>| self.entries()[self.index_of(k)].expr@)
    }

    /// An empty registry, as at the start of a compilation pass.
    pub fn new() -> (r: Registry)
        ensures
            r.wf(),
            r@ == Map::<Seq<char>, Seq<char>>::empty(),
    {
        let r = Registry { entries: Vec::new() };
        assert(r@ =~= Map::<Seq<char>, Seq<char>>::empty());
        r
    }

    /// The position of the entry whose key is `key`, if there is one.
    fn position(&self, key: &String) -> (r: Option<usize>)
        ensures
            match r {
                Some(i) => i < self.entries().len() && self.entries()[i as int].key@ == key@,
                None => forall|j: int|
                    0 <= j < self.entries().len() ==> #[trigger] self.entries()[j].key@ != key@,
            },
    {
        let n = self.entries.len();
        let mut i: usize = 0;
        while i < n
            invariant
                n == self.entries@.len(),
                i <= n,
                forall|j: int| 0 <= j < i ==> #[trigger] self.entries@[j].key@ != key@,
            decreases n - i,
        {
            if self.entries[i].key == *key {
                return Some(i);
            }
            i = i + 1;
        }
        None
    }

    /// In a well-formed registry, the entry found for a key is the one at
    /// that key's position.
    proof fn lemma_index_of(&self, i: int)
        requires
            self.wf(),
            0 <= i < self.entries().len(),
        ensures
            self.has_key(self.entries()[i].key@),
            self.index_of(self.entries()[i].key@) == i,
    {
        let k = self.entries()[i].key@;
        assert(self.entries()[i].key@ == k);
        let w = self.index_of(k);
        assert(self.entries()[w].key@ == k);
        if w < i {
            assert(self.entries()[w].key@ != self.entries()[i].key@);
        } else if w > i {
            assert(self.entries()[i].key@ != self.entries()[w].key@);
        }
    }

    /// Binds `key` to `expr`, replacing any earlier binding of `key`.
    pub fn put(&mut self, key: String, expr: String)
        requires
            old(self).wf(),
        ensures
            final(self).wf(),
            final(self)@ == old(self)@.insert(key@, expr@),
    {
        let ghost k = key@;
        let ghost e = expr@;
        let ghost before = *self;
        match self.position(&key) {
            Some(i) => {
                self.entries.set(i, Entry { key, expr });
                proof {
                    let idx = i as int;
                    assert forall|j: int| 0 <= j < self.entries().len() implies
                        #[trigger] self.entries()[j].key@ == before.entries()[j].key@ by {}
                    assert forall|x: Seq<char>| #![auto] self@.contains_key(x) <==> before@.insert(k, e).contains_key(x) by {
                        if before.has_key(x) {
                            let w = before.index_of(x);
                            assert(self.entries()[w].key@ == x);
                        }
                        if self.has_key(x) {
                            let w = self.index_of(x);
                            assert(before.entries()[w].key@ == x);
                        }
                    }
                    assert forall|x: Seq<char>| #![auto] self@.contains_key(x) implies self@[x] == before@.insert(k, e)[x] by {
                        let w = self.index_of(x);
                        self.lemma_index_of(w);
                        before.lemma_index_of(w);
                        if x == k {
                            self.lemma_index_of(idx);
                        }
                    }
                    assert(self@ =~= before@.insert(k, e));
                }
            },
            None => {
                let n = self.entries.len();
                self.entries.push(Entry { key, expr });
                proof {
                    assert(self.entries()[n as int].key@ == k);
                    assert forall|j: int| 0 <= j < n implies
                        #[trigger] self.entries()[j].key@ == before.entries()[j].key@ by {}
                    assert forall|x: Seq<char>| #![auto] self@.contains_key(x) <==> before@.insert(k, e).contains_key(x) by {
                        if before.has_key(x) {
                            let w = before.index_of(x);
                            assert(self.entries()[w].key@ == x);
                        }
                        if self.has_key(x) && x != k {
                            let w = self.index_of(x);
                            assert(before.entries()[w].key@ == x);
                        }
                    }
                    assert forall|x: Seq<char>| #![auto] self@.contains_key(x) implies self@[x] == before@.insert(k, e)[x] by {
                        let w = self.index_of(x);
                        self.lemma_index_of(w);
                        if w < n {
                            before.lemma_index_of(w);
                        }
                    }
                    assert(self@ =~= before@.insert(k, e));
                }
            },
        }
    }

    /// The expression bound to `key`, if any.
    pub fn get(&self, key: &String) -> (r: Option<String>)
        requires
            self.wf(),
        ensures
            match r {
                Some(e) => self@.contains_key(key@) && e@ == self@[key@],
                None => !self@.contains_key(key@),
            },
    {
        match self.position(key) {
            Some(i) => {
                proof {
                    self.lemma_index_of(i as int);
                }
                Some(self.entries[i].expr.clone())
            },
            None => None,
        }
    }
}

} // verus!
