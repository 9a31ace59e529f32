//! A table from symbol names to addresses, kept in insertion order.

use vstd::prelude::*;

verus! {

/// Whether no name occurs twice in `s`.
pub open spec fn distinct_names(s: Seq<(Seq<char>, usize)>) -> bool {
    forall|i: int, j: int| 0 <= i < s.len() && 0 <= j < s.len() && i != j ==> s[i].0 != s[j].0
}

/// Whether `name` occurs in `s`.
pub open spec fn has_name(s: Seq<(Seq<char>, usize)>, name: Seq<char>) -> bool {
    exists|i: int| 0 <= i < s.len() && s[i].0 == name
}

/// The address recorded for `name` in `s`, if any.
pub open spec fn lookup(s: Seq<(Seq<char>, usize)>, name: Seq<char>) -> Option<usize> {
    if has_name(s, name) {
        Some(s[choose|i: int| 0 <= i < s.len() && s[i].0 == name].1)
    } else {
        None
    }
}

/// `s` with `name` mapped to `addr`: the entry of `name` is updated in place
/// if there is one, otherwise a new entry is appended.
pub open spec fn insert_entry(s: Seq<(Seq<char>, usize)>, name: Seq<char>, addr: usize) -> Seq<
    (Seq<char>, usize),
> {
    if has_name(s, name) {
        s.update(choose|i: int| 0 <= i < s.len() && s[i].0 == name, (name, addr))
    } else {
        s.push((name, addr))
    }
}

/// `s` with `name` mapped to `addr` unless `name` is already there.
pub open spec fn insert_absent(s: Seq<(Seq<char>, usize)>, name: Seq<char>, addr: usize) -> Seq<
    (Seq<char>, usize),
> {
    if has_name(s, name) {
        s
    } else {
        s.push((name, addr))
    }
}

/// The position of `name` in `s`; any position where it occurs names the
/// same entry when names are distinct.
pub proof fn lemma_lookup_at(s: Seq<(Seq<char>, usize)>, i: int)
    requires
        distinct_names(s),
        0 <= i < s.len(),
    ensures
        lookup(s, s[i].0) == Some(s[i].1),
{
    let j = choose|j: int| 0 <= j < s.len() && s[j].0 == s[i].0;
    assert(0 <= j < s.len() && s[j].0 == s[i].0);
}

/// Reading a name back after storing it gives the stored address, and the
/// other names keep their addresses.
pub proof fn lemma_insert_lookup(s: Seq<(Seq<char>, usize)>, name: Seq<char>, addr: usize, other: Seq<char>)
    requires
        distinct_names(s),
    ensures
        distinct_names(insert_entry(s, name, addr)),
        lookup(insert_entry(s, name, addr), name) == Some(addr),
        other != name ==> lookup(insert_entry(s, name, addr), other) == lookup(s, other),
{
    let t = insert_entry(s, name, addr);
    if has_name(s, name) {
        let k = choose|i: int| 0 <= i < s.len() && s[i].0 == name;
        assert(t[k].0 == name);
        lemma_lookup_at(t, k);
    } else {
        assert(t[s.len() as int].0 == name);
        lemma_lookup_at(t, s.len() as int);
    }
    if other != name {
        if has_name(s, other) {
            let j = choose|i: int| 0 <= i < s.len() && s[i].0 == other;
            lemma_lookup_at(s, j);
            assert(t[j] == s[j]);
            lemma_lookup_at(t, j);
        } else {
            assert(!has_name(t, other)) by {
                if has_name(t, other) {
                    let j = choose|i: int| 0 <= i < t.len() && t[i].0 == other;
                    assert(s[j].0 == other);
                }
            }
        }
    }
}

/// Whether every entry of `s` has a non-zero address.
pub open spec fn all_nonzero(s: Seq<(Seq<char>, usize)>) -> bool {
    forall|i: int| 0 <= i < s.len() ==> #[trigger] s[i].1 != 0
}

/// Storing a non-zero address keeps every address non-zero.
pub proof fn lemma_insert_nonzero(s: Seq<(Seq<char>, usize)>, name: Seq<char>, addr: usize)
    requires
        all_nonzero(s),
        addr != 0,
    ensures
        all_nonzero(insert_entry(s, name, addr)),
        all_nonzero(insert_absent(s, name, addr)),
{
    let t = insert_entry(s, name, addr);
    assert forall|x: int| 0 <= x < t.len() implies #[trigger] t[x].1 != 0 by {
        if x < s.len() && t[x] != s[x] {
            assert(t[x] == (name, addr));
        }
    }
    let u = insert_absent(s, name, addr);
    assert forall|x: int| 0 <= x < u.len() implies #[trigger] u[x].1 != 0 by {
        if x < s.len() {
            assert(u[x] == s[x]);
        }
    }
}

/// Storing a name only where it is absent never changes an address already
/// stored, and a new name gets the address given.
pub proof fn lemma_insert_absent_lookup(s: Seq<(Seq<char>, usize)>, name: Seq<char>, addr: usize, other: Seq<char>)
    requires
        distinct_names(s),
    ensures
        distinct_names(insert_absent(s, name, addr)),
        lookup(insert_absent(s, name, addr), name) == (if has_name(s, name) {
            lookup(s, name)
        } else {
            Some(addr)
        }),
        other != name ==> lookup(insert_absent(s, name, addr), other) == lookup(s, other),
{
    if !has_name(s, name) {
        lemma_insert_lookup(s, name, addr, other);
        assert(insert_absent(s, name, addr) == insert_entry(s, name, addr));
    }
}

/// A table from symbol names to addresses. No name occurs twice; entries keep
/// the order in which their names were first stored. It is a vector of
/// entries rather than a `HashMap<String, usize>` because vstd's contracts
/// for a map keyed by `String` do not let a lookup after an insertion be
/// proved, while over this vector every lookup and insertion is.
pub struct SymbolMap {
    entries: Vec<(String, usize)>,
}

impl View for SymbolMap {
    type V = Seq<(Seq<char>, usize)>;

    closed spec fn view(&self) -> Seq<(Seq<char>, usize)> {
        self.entries@.map_values(|e: (String, usize)| (e.0@, e.1))
    }
}

impl SymbolMap {
    /// Well-formedness: no name occurs twice.
    pub open spec fn wf(&self) -> bool {
        distinct_names(self@)
    }

    /// The address recorded for `name`, if any.
    pub open spec fn spec_get(&self, name: Seq<char>) -> Option<usize> {
        lookup(self@, name)
    }

    /// An empty table.
    pub fn new() -> (m: SymbolMap)
        ensures
            m@ == Seq::<(Seq<char>, usize)>::empty(),
            m.wf(),
    {
        let m = SymbolMap { entries: Vec::new() };
        assert(m@ =~= Seq::<(Seq<char>, usize)>::empty());
        m
    }

    /// The number of names in the table.
    pub fn len(&self) -> (n: usize)
        ensures
            n == self@.len(),
    {
        self.entries.len()
    }

    /// The name of the `i`-th entry.
    pub fn name_at(&self, i: usize) -> (s: &String)
        requires
            i < self@.len(),
        ensures
            s@ == self@[i as int].0,
    {
        &self.entries[i].0
    }

    /// The address of the `i`-th entry.
    pub fn addr_at(&self, i: usize) -> (a: usize)
        requires
            i < self@.len(),
        ensures
            a == self@[i as int].1,
    {
        self.entries[i].1
    }

    /// The position of `name`, if it is in the table.
    fn position(&self, name: &String) -> (r: Option<usize>)
        ensures
            r matches Some(i) ==> i < self@.len() && self@[i as int].0 == name@,
            r is None ==> !has_name(self@, name@),
    {
        let mut i: usize = 0;
        while i < self.entries.len()
            invariant
                i <= self@.len(),
                self@.len() == self.entries@.len(),
                forall|j: int| 0 <= j < i ==> self@[j].0 != name@,
            decreases self.entries.len() - i,
        {
            assert(self@[i as int] == (self.entries@[i as int].0@, self.entries@[i as int].1));
            if self.entries[i].0 == *name {
                return Some(i);
            }
            i = i + 1;
        }
        None
    }

    /// The address recorded for `name`, if any.
    pub fn get(&self, name: &str) -> (r: Option<usize>)
        requires
            self.wf(),
        ensures
            r == self.spec_get(name@),
    {
        let key = name.to_owned();
        match self.position(&key) {
            Some(i) => {
                proof {
                    lemma_lookup_at(self@, i as int);
                }
                Some(self.entries[i].1)
            },
            None => None,
        }
    }

    /// Whether `name` is in the table.
    pub fn contains_key(&self, name: &String) -> (b: bool)
        ensures
            b == has_name(self@, name@),
    {
        self.position(name).is_some()
    }

    /// Map `name` to `addr`, replacing the address it had.
    pub fn insert(&mut self, name: String, addr: usize)
        requires
            old(self).wf(),
        ensures
            final(self)@ == insert_entry(old(self)@, name@, addr),
            final(self).wf(),
    {
        proof {
            lemma_insert_lookup(self@, name@, addr, name@);
        }
        match self.position(&name) {
            Some(i) => {
                let ghost k = choose|j: int| 0 <= j < self@.len() && self@[j].0 == name@;
                proof {
                    assert(k == i as int) by {
                        if k != i as int {
                            assert(self@[k].0 == self@[i as int].0);
                        }
                    }
                }
                let ghost before = self@;
                self.entries.set(i, (name, addr));
                assert(self@ =~= before.update(i as int, (name@, addr)));
            },
            None => {
                let ghost before = self@;
                let ghost n = name@;
                self.entries.push((name, addr));
                assert(self@ =~= before.push((n, addr)));
            },
        }
    }

    /// Map `name` to `addr` unless `name` is already in the table.
    pub fn insert_if_absent(&mut self, name: String, addr: usize)
        requires
            old(self).wf(),
        ensures
            final(self)@ == insert_absent(old(self)@, name@, addr),
            final(self).wf(),
    {
        proof {
            lemma_insert_absent_lookup(self@, name@, addr, name@);
        }
        if self.position(&name).is_none() {
            let ghost before = self@;
            let ghost n = name@;
            self.entries.push((name, addr));
            assert(self@ =~= before.push((n, addr)));
        }
    }
}

} // verus!
