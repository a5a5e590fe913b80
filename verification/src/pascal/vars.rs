//! The variables of a Pascal program: a finite map from names to 32-bit integers.
use vstd::prelude::*;
use crate::text::string_eq_str;

verus! {

/// Whether a name occurs among the entries.
pub open spec fn has_name(s: Seq<(String, i32)>, k: Seq<char>) -> bool {
    exists|i: int| 0 <= i < s.len() && #[trigger] s[i].0@ == k
}

/// No name occurs twice among the entries.
pub open spec fn names_distinct(s: Seq<(String, i32)>) -> bool {
    forall|i: int, j: int| 0 <= i < s.len() && 0 <= j < s.len() && i != j ==> #[trigger] s[i].0@ != #[trigger] s[j].0@
}

/// The map the entries stand for.
pub open spec fn entries_map(s: Seq<(String, i32)>) -> Map<Seq<char>, i32> {
    Map::new(
        |k: Seq<char>| has_name(s, k),
        |k: Seq<char>| s[choose|i: int| 0 <= i < s.len() && #[trigger] s[i].0@ == k].1,
    )
}

proof fn lemma_entry_value(s: Seq<(String, i32)>, i: int)
    requires
        names_distinct(s),
        0 <= i < s.len(),
    ensures
        entries_map(s).contains_key(s[i].0@),
        entries_map(s)[s[i].0@] == s[i].1,
{
    let k = s[i].0@;
    assert(has_name(s, k));
    let j = choose|j: int| 0 <= j < s.len() && #[trigger] s[j].0@ == k;
    assert(s[j].0@ == k);
    assert(i == j);
}

/// The variables: distinct names, each with its value.
pub struct Variables {
    entries: Vec<(String, i32)>,
}

impl View for Variables {
    type V = Map<Seq<char>, i32>;

    closed spec fn view(&self) -> Map<Seq<char>, i32> {
        entries_map(self.entries@)
    }
}

impl Variables {
    #[verifier::type_invariant]
    closed spec fn inv(self) -> bool {
        names_distinct(self.entries@)
    }

    /// No variables.
    pub fn new() -> (vars: Variables)
        ensures
            vars@ == Map::<Seq<char>, i32>::empty(),
    {
        let vars = Variables { entries: Vec::new() };
        assert(vars@ =~= Map::<Seq<char>, i32>::empty());
        vars
    }

    fn find(&self, name: &str) -> (r: Option<usize>)
        ensures
            match r {
                Some(i) => i < self.entries.len() && self.entries@[i as int].0@ == name@,
                None => !has_name(self.entries@, name@),
            },
    {
        let mut i: usize = 0;
        while i < self.entries.len()
            invariant
                i <= self.entries.len(),
                forall|j: int| 0 <= j < i ==> self.entries@[j].0@ != name@,
            decreases self.entries.len() - i,
        {
            if string_eq_str(&self.entries[i].0, name) {
                return Some(i);
            }
            i = i + 1;
        }
        None
    }

    /// The value of a variable, if it is defined.
    pub fn get(&self, name: &str) -> (r: Option<&i32>)
        ensures
            match r {
                Some(v) => self@.contains_key(name@) && *v == self@[name@],
                None => !self@.contains_key(name@),
            },
    {
        proof {
            use_type_invariant(self);
        }
        match self.find(name) {
            Some(i) => {
                proof {
                    lemma_entry_value(self.entries@, i as int);
                }
                Some(&self.entries[i].1)
            },
            None => None,
        }
    }

    /// Sets a variable, defining it if needed.
    pub fn insert(&mut self, name: String, value: i32)
        ensures
            final(self)@ == old(self)@.insert(name@, value),
    {
        proof {
            use_type_invariant(&*self);
        }
        let ghost old_entries = self.entries@;
        match self.find(name.as_str()) {
            Some(i) => {
                let ghost new_entries = old_entries.update(i as int, (name, value));
                assert(names_distinct(new_entries)) by {
                    assert forall|a: int, b: int|
                        0 <= a < new_entries.len() && 0 <= b < new_entries.len() && a != b implies
                        #[trigger] new_entries[a].0@ != #[trigger] new_entries[b].0@ by {
                        assert(old_entries[a].0@ != old_entries[b].0@);
                    }
                }
                proof {
                    assert forall|k: Seq<char>| has_name(new_entries, k) <==> has_name(old_entries, k) by {
                        if has_name(old_entries, k) {
                            let j = choose|j: int| 0 <= j < old_entries.len() && #[trigger] old_entries[j].0@ == k;
                            assert(new_entries[j].0@ == k);
                        }
                        if has_name(new_entries, k) {
                            let j = choose|j: int| 0 <= j < new_entries.len() && #[trigger] new_entries[j].0@ == k;
                            assert(old_entries[j].0@ == k);
                        }
                    }
                    assert forall|k: Seq<char>| #[trigger] entries_map(new_entries).contains_key(k) implies
                        entries_map(new_entries)[k] == entries_map(old_entries).insert(name@, value)[k] by {
                        let j = choose|j: int| 0 <= j < new_entries.len() && #[trigger] new_entries[j].0@ == k;
                        lemma_entry_value(new_entries, j);
                        if k != name@ {
                            lemma_entry_value(old_entries, j);
                        }
                    }
                    assert(entries_map(new_entries) =~= entries_map(old_entries).insert(name@, value));
                }
                let mut entries: Vec<(String, i32)> = Vec::new();
                std::mem::swap(&mut entries, &mut self.entries);
                entries.set(i, (name, value));
                self.entries = entries;
            },
            None => {
                let ghost new_entries = old_entries.push((name, value));
                assert(names_distinct(new_entries)) by {
                    assert forall|a: int, b: int|
                        0 <= a < new_entries.len() && 0 <= b < new_entries.len() && a != b implies
                        #[trigger] new_entries[a].0@ != #[trigger] new_entries[b].0@ by {
                        if a < old_entries.len() && b < old_entries.len() {
                            assert(old_entries[a].0@ != old_entries[b].0@);
                        } else if a < old_entries.len() {
                            assert(old_entries[a].0@ != name@);
                        } else {
                            assert(old_entries[b].0@ != name@);
                        }
                    }
                }
                proof {
                    assert forall|k: Seq<char>| has_name(new_entries, k) <==> (has_name(old_entries, k) || k
                        == name@) by {
                        if has_name(old_entries, k) {
                            let j = choose|j: int| 0 <= j < old_entries.len() && #[trigger] old_entries[j].0@ == k;
                            assert(new_entries[j].0@ == k);
                        }
                        if k == name@ {
                            assert(new_entries[old_entries.len() as int].0@ == k);
                        }
                        if has_name(new_entries, k) && k != name@ {
                            let j = choose|j: int| 0 <= j < new_entries.len() && #[trigger] new_entries[j].0@ == k;
                            assert(old_entries[j].0@ == k);
                        }
                    }
                    assert forall|k: Seq<char>| #[trigger] entries_map(new_entries).contains_key(k) implies
                        entries_map(new_entries)[k] == entries_map(old_entries).insert(name@, value)[k] by {
                        let j = choose|j: int| 0 <= j < new_entries.len() && #[trigger] new_entries[j].0@ == k;
                        lemma_entry_value(new_entries, j);
                        if k != name@ {
                            assert(j < old_entries.len());
                            assert(old_entries[j] == new_entries[j]);
                            lemma_entry_value(old_entries, j);
                        }
                    }
                    assert(entries_map(new_entries) =~= entries_map(old_entries).insert(name@, value));
                }
                let mut entries: Vec<(String, i32)> = Vec::new();
                std::mem::swap(&mut entries, &mut self.entries);
                entries.push((name, value));
                self.entries = entries;
            },
        }
    }

    /// Whether no variable is defined.
    pub fn is_empty(&self) -> (r: bool)
        ensures
            r == (self@ == Map::<Seq<char>, i32>::empty()),
    {
        if self.entries.len() == 0 {
            assert(self@ =~= Map::<Seq<char>, i32>::empty());
            true
        } else {
            assert(self@.contains_key(self.entries@[0].0@)) by {
                assert(has_name(self.entries@, self.entries@[0].0@));
            }
            false
        }
    }

    /// The names of the defined variables, each once.
    pub fn names(&self) -> (r: Vec<String>)
        ensures
            forall|k: Seq<char>| self@.contains_key(k) <==> exists|i: int| 0 <= i < r.len() && #[trigger] r@[i]@ == k,
            forall|i: int, j: int| 0 <= i < r.len() && 0 <= j < r.len() && i != j ==> #[trigger] r@[i]@ != #[trigger] r@[j]@,
    {
        proof {
            use_type_invariant(self);
        }
        let mut r: Vec<String> = Vec::new();
        let mut i: usize = 0;
        while i < self.entries.len()
            invariant
                i <= self.entries.len(),
                r.len() == i,
                names_distinct(self.entries@),
                forall|j: int| 0 <= j < i ==> #[trigger] r@[j]@ == self.entries@[j].0@,
            decreases self.entries.len() - i,
        {
            r.push(self.entries[i].0.clone());
            i = i + 1;
        }
        assert forall|k: Seq<char>| self@.contains_key(k) <==> exists|i: int| 0 <= i < r.len() && #[trigger] r@[i]@ == k by {
            if self@.contains_key(k) {
                let j = choose|j: int| 0 <= j < self.entries@.len() && #[trigger] self.entries@[j].0@ == k;
                assert(r@[j]@ == k);
            }
            if exists|i: int| 0 <= i < r.len() && #[trigger] r@[i]@ == k {
                let j = choose|i: int| 0 <= i < r.len() && #[trigger] r@[i]@ == k;
                assert(self.entries@[j].0@ == k);
            }
        }
        assert forall|a: int, b: int| 0 <= a < r.len() && 0 <= b < r.len() && a != b implies #[trigger] r@[a]@
            != #[trigger] r@[b]@ by {
            assert(self.entries@[a].0@ != self.entries@[b].0@);
        }
        r
    }

    /// A copy of the variables.
    pub fn duplicate(&self) -> (c: Variables)
        ensures
            c@ == self@,
    {
        proof {
            use_type_invariant(self);
        }
        let mut entries: Vec<(String, i32)> = Vec::new();
        let mut i: usize = 0;
        while i < self.entries.len()
            invariant
                i <= self.entries.len(),
                entries.len() == i,
                forall|j: int| 0 <= j < i ==> #[trigger] entries@[j].0@ == self.entries@[j].0@ && entries@[j].1
                    == self.entries@[j].1,
            decreases self.entries.len() - i,
        {
            entries.push((self.entries[i].0.clone(), self.entries[i].1));
            i = i + 1;
        }
        proof {
            assert forall|a: int, b: int| 0 <= a < entries.len() && 0 <= b < entries.len() && a != b implies
                #[trigger] entries@[a].0@ != #[trigger] entries@[b].0@ by {
                assert(self.entries@[a].0@ != self.entries@[b].0@);
            }
            assert forall|k: Seq<char>| has_name(entries@, k) <==> has_name(self.entries@, k) by {
                if has_name(entries@, k) {
                    let j = choose|j: int| 0 <= j < entries@.len() && #[trigger] entries@[j].0@ == k;
                    assert(self.entries@[j].0@ == k);
                }
                if has_name(self.entries@, k) {
                    let j = choose|j: int| 0 <= j < self.entries@.len() && #[trigger] self.entries@[j].0@ == k;
                    assert(entries@[j].0@ == k);
                }
            }
            assert forall|k: Seq<char>| #[trigger] entries_map(entries@).contains_key(k) implies entries_map(
                entries@,
            )[k] == entries_map(self.entries@)[k] by {
                let j = choose|j: int| 0 <= j < entries@.len() && #[trigger] entries@[j].0@ == k;
                lemma_entry_value(entries@, j);
                lemma_entry_value(self.entries@, j);
            }
            assert(entries_map(entries@) =~= entries_map(self.entries@));
        }
        Variables { entries }
    }
}

} // verus!
