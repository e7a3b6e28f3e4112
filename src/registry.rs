//! Name-to-address registries that a walk fills: one address per name (the
//! last one written wins), or every address per name in the order met.
use vstd::prelude::*;

verus! {

/// Adds `name -> addr` to a registry of unique names: an entry with that name
/// takes the new address in place, otherwise a new entry goes at the end.
pub open spec fn insert_unique<V>(reg: Seq<(Seq<char>, V)>, name: Seq<char>, addr: V) -> Seq<(Seq<char>, V)> {
    if exists|i: int| 0 <= i < reg.len() && (#[trigger] reg[i]).0 == name {
        let i = choose|i: int| 0 <= i < reg.len() && (#[trigger] reg[i]).0 == name;
        reg.update(i, (name, addr))
    } else {
        reg.push((name, addr))
    }
}

/// Adds `name -> addr` to a registry of address lists: an entry with that
/// name gets `addr` at the end of its list, otherwise a new entry goes at the end.
pub open spec fn insert_multi(reg: Seq<(Seq<char>, Seq<usize>)>, name: Seq<char>, addr: usize) -> Seq<(Seq<char>, Seq<usize>)> {
    if exists|i: int| 0 <= i < reg.len() && (#[trigger] reg[i]).0 == name {
        let i = choose|i: int| 0 <= i < reg.len() && (#[trigger] reg[i]).0 == name;
        reg.update(i, (name, reg[i].1.push(addr)))
    } else {
        reg.push((name, seq![addr]))
    }
}

/// The unique registry that `entries` give when inserted in order.
pub open spec fn unique_fold<V>(entries: Seq<(Seq<char>, V)>) -> Seq<(Seq<char>, V)>
    decreases entries.len(),
{
    if entries.len() == 0 {
        Seq::empty()
    } else {
        insert_unique(unique_fold(entries.drop_last()), entries.last().0, entries.last().1)
    }
}

/// The registry of address lists that `entries` give when inserted in order.
pub open spec fn multi_fold(entries: Seq<(Seq<char>, usize)>) -> Seq<(Seq<char>, Seq<usize>)>
    decreases entries.len(),
{
    if entries.len() == 0 {
        Seq::empty()
    } else {
        insert_multi(multi_fold(entries.drop_last()), entries.last().0, entries.last().1)
    }
}

/// The addresses that `entries` pair with `name`, in order.
pub open spec fn addresses_named(entries: Seq<(Seq<char>, usize)>, name: Seq<char>) -> Seq<usize>
    decreases entries.len(),
{
    if entries.len() == 0 {
        Seq::empty()
    } else if entries.last().0 == name {
        addresses_named(entries.drop_last(), name).push(entries.last().1)
    } else {
        addresses_named(entries.drop_last(), name)
    }
}

/// A name-to-address registry in which every name appears once, in the order
/// in which it was first inserted.
pub struct Registry {
    pub entries: Vec<(String, usize)>,
}

/// A name-to-addresses registry in which every name appears once, in the
/// order in which it was first inserted, with its addresses in insertion order.
pub struct MultiRegistry {
    pub entries: Vec<(String, Vec<usize>)>,
}

impl View for Registry {
    type V = Seq<(Seq<char>, usize)>;

    open spec fn view(&self) -> Seq<(Seq<char>, usize)> {
        self.entries@.map_values(|e: (String, usize)| (e.0@, e.1))
    }
}

impl View for MultiRegistry {
    type V = Seq<(Seq<char>, Seq<usize>)>;

    open spec fn view(&self) -> Seq<(Seq<char>, Seq<usize>)> {
        self.entries@.map_values(|e: (String, Vec<usize>)| (e.0@, e.1@))
    }
}

/// No name appears twice.
pub open spec fn names_unique<V>(reg: Seq<(Seq<char>, V)>) -> bool {
    forall|i: int, j: int| 0 <= i < j < reg.len() ==> (#[trigger] reg[i]).0 != (#[trigger] reg[j]).0
}

/// The index of the entry named `name` in a registry without repeated names.
pub fn find_entry<V>(entries: &Vec<(String, V)>, name: &String) -> (r: Option<usize>)
    ensures
        match r {
            Some(i) => i < entries@.len() && entries@[i as int].0@ == name@,
            None => forall|i: int| 0 <= i < entries@.len() ==> (#[trigger] entries@[i]).0@ != name@,
        },
{
    let mut i: usize = 0;
    while i < entries.len()
        invariant
            i <= entries@.len(),
            forall|j: int| 0 <= j < i ==> (#[trigger] entries@[j]).0@ != name@,
        decreases entries@.len() - i,
    {
        if entries[i].0 == *name {
            return Some(i);
        }
        i += 1;
    }
    None
}

impl Registry {
    pub open spec fn wf(&self) -> bool {
        names_unique(self@)
    }

    pub fn new() -> (r: Registry)
        ensures
            r@ == Seq::<(Seq<char>, usize)>::empty(),
            r.wf(),
    {
        Registry { entries: Vec::new() }
    }

    /// Inserts `name -> addr`; a name already present takes the new address.
    pub fn insert(&mut self, name: String, addr: usize)
        requires
            old(self).wf(),
        ensures
            final(self).wf(),
            final(self)@ == insert_unique(old(self)@, name@, addr),
    {
        let ghost pre = self@;
        match find_entry(&self.entries, &name) {
            Some(i) => {
                proof {
                    assert(pre[i as int].0 == name@);
                    let k = choose|k: int| 0 <= k < pre.len() && (#[trigger] pre[k]).0 == name@;
                    assert(k == i);
                }
                self.entries.set(i, (name, addr));
                assert(self@ =~= insert_unique(pre, name@, addr));
            },
            None => {
                proof {
                    assert forall|k: int| 0 <= k < pre.len() implies (#[trigger] pre[k]).0 != name@ by {
                        assert(pre[k].0 == self.entries@[k].0@);
                    }
                }
                self.entries.push((name, addr));
                assert(self@ =~= insert_unique(pre, name@, addr));
            },
        }
    }

    /// The address registered under `name`, if any.
    pub fn get(&self, name: &str) -> (r: Option<usize>)
        requires
            self.wf(),
        ensures
            match r {
                Some(a) => exists|i: int| 0 <= i < self@.len() && (#[trigger] self@[i]) == (name@, a),
                None => forall|i: int| 0 <= i < self@.len() ==> (#[trigger] self@[i]).0 != name@,
            },
    {
        let key = name.to_owned();
        match find_entry(&self.entries, &key) {
            Some(i) => {
                assert(self@[i as int] == (name@, self.entries@[i as int].1));
                Some(self.entries[i].1)
            },
            None => {
                assert forall|k: int| 0 <= k < self@.len() implies (#[trigger] self@[k]).0 != name@ by {
                    assert(self@[k].0 == self.entries@[k].0@);
                }
                None
            },
        }
    }

    pub fn len(&self) -> (r: usize)
        ensures
            r == self@.len(),
    {
        self.entries.len()
    }
}

impl MultiRegistry {
    pub open spec fn wf(&self) -> bool {
        names_unique(self@)
    }

    pub fn new() -> (r: MultiRegistry)
        ensures
            r@ == Seq::<(Seq<char>, Seq<usize>)>::empty(),
            r.wf(),
    {
        MultiRegistry { entries: Vec::new() }
    }

    /// Appends `addr` to the list registered under `name`, starting one if needed.
    pub fn insert(&mut self, name: String, addr: usize)
        requires
            old(self).wf(),
        ensures
            final(self).wf(),
            final(self)@ == insert_multi(old(self)@, name@, addr),
    {
        let ghost pre = self@;
        match find_entry(&self.entries, &name) {
            Some(i) => {
                proof {
                    assert(pre[i as int].0 == name@);
                    let k = choose|k: int| 0 <= k < pre.len() && (#[trigger] pre[k]).0 == name@;
                    assert(k == i);
                }
                let mut list = self.entries[i].1.clone();
                assert(list@ =~= pre[i as int].1);
                list.push(addr);
                let ghost new_list = list@;
                assert(new_list == pre[i as int].1.push(addr));
                self.entries.set(i, (name, list));
                assert(self@[i as int] == (name@, new_list));
                assert forall|j: int| 0 <= j < pre.len() && j != i implies #[trigger] self@[j] == pre[j] by {
                    assert(self.entries@[j] == old(self).entries@[j]);
                }
                assert(self@ =~= pre.update(i as int, (name@, new_list)));
                assert(insert_multi(pre, name@, addr) == pre.update(i as int, (name@, new_list)));
                assert(self@ =~= insert_multi(pre, name@, addr));
            },
            None => {
                proof {
                    assert forall|k: int| 0 <= k < pre.len() implies (#[trigger] pre[k]).0 != name@ by {
                        assert(pre[k].0 == self.entries@[k].0@);
                    }
                }
                let mut list: Vec<usize> = Vec::new();
                list.push(addr);
                assert(list@ =~= seq![addr]);
                self.entries.push((name, list));
                assert(self@ =~= insert_multi(pre, name@, addr));
            },
        }
    }

    /// The addresses registered under `name`, if any.
    pub fn get(&self, name: &str) -> (r: Option<Vec<usize>>)
        requires
            self.wf(),
        ensures
            match r {
                Some(l) => exists|i: int| 0 <= i < self@.len() && (#[trigger] self@[i]) == (name@, l@),
                None => forall|i: int| 0 <= i < self@.len() ==> (#[trigger] self@[i]).0 != name@,
            },
    {
        let key = name.to_owned();
        match find_entry(&self.entries, &key) {
            Some(i) => {
                let l = self.entries[i].1.clone();
                assert(l@ =~= self.entries@[i as int].1@);
                assert(self@[i as int] == (name@, l@));
                Some(l)
            },
            None => {
                assert forall|k: int| 0 <= k < self@.len() implies (#[trigger] self@[k]).0 != name@ by {
                    assert(self@[k].0 == self.entries@[k].0@);
                }
                None
            },
        }
    }

    pub fn len(&self) -> (r: usize)
        ensures
            r == self@.len(),
    {
        self.entries.len()
    }
}

/// In the registry of address lists that a sequence of entries builds, no
/// name repeats, and each name that occurs holds every address paired with
/// it, in the order of the entries.
pub proof fn lemma_multi_fold_keeps_all(entries: Seq<(Seq<char>, usize)>, name: Seq<char>)
    ensures
        names_unique(multi_fold(entries)),
        addresses_named(entries, name).len() > 0 ==> exists|i: int|
            0 <= i < multi_fold(entries).len() && #[trigger] multi_fold(entries)[i] == (
                name,
                addresses_named(entries, name),
            ),
        addresses_named(entries, name).len() == 0 ==> forall|i: int|
            0 <= i < multi_fold(entries).len() ==> (#[trigger] multi_fold(entries)[i]).0 != name,
    decreases entries.len(),
{
    if entries.len() > 0 {
        let rest = entries.drop_last();
        let (n, a) = entries.last();
        lemma_multi_fold_keeps_all(rest, name);
        lemma_multi_fold_keeps_all(rest, n);
        let reg = multi_fold(rest);
        let out = multi_fold(entries);
        assert(out == insert_multi(reg, n, a));
        if exists|i: int| 0 <= i < reg.len() && (#[trigger] reg[i]).0 == n {
            let k = choose|i: int| 0 <= i < reg.len() && (#[trigger] reg[i]).0 == n;
            assert(out == reg.update(k, (n, reg[k].1.push(a))));
            assert(names_unique(out)) by {
                assert forall|i: int, j: int| 0 <= i < j < out.len() implies (#[trigger] out[i]).0 != (#[trigger] out[j]).0 by {
                    assert(out[i].0 == reg[i].0);
                    assert(out[j].0 == reg[j].0);
                }
            }
            if name == n {
                let i = choose|i: int| 0 <= i < reg.len() && #[trigger] reg[i] == (name, addresses_named(rest, name));
                assert(i == k);
                assert(out[k] == (name, addresses_named(entries, name)));
            } else if addresses_named(entries, name).len() > 0 {
                let i = choose|i: int| 0 <= i < reg.len() && #[trigger] reg[i] == (name, addresses_named(rest, name));
                assert(out[i] == reg[i]);
            } else {
                assert forall|i: int| 0 <= i < out.len() implies (#[trigger] out[i]).0 != name by {
                    assert(out[i].0 == reg[i].0);
                }
            }
        } else {
            assert(out == reg.push((n, seq![a])));
            assert(names_unique(out)) by {
                assert forall|i: int, j: int| 0 <= i < j < out.len() implies (#[trigger] out[i]).0 != (#[trigger] out[j]).0 by {
                    if j < reg.len() {
                        assert(out[i] == reg[i]);
                        assert(out[j] == reg[j]);
                    } else {
                        assert(out[i] == reg[i]);
                    }
                }
            }
            if name == n {
                assert(addresses_named(rest, name).len() == 0);
                assert(addresses_named(entries, name) =~= seq![a]);
                assert(out[reg.len() as int] == (name, addresses_named(entries, name)));
            } else if addresses_named(entries, name).len() > 0 {
                let i = choose|i: int| 0 <= i < reg.len() && #[trigger] reg[i] == (name, addresses_named(rest, name));
                assert(out[i] == reg[i]);
            } else {
                assert forall|i: int| 0 <= i < out.len() implies (#[trigger] out[i]).0 != name by {
                    if i < reg.len() {
                        assert(out[i] == reg[i]);
                    }
                }
            }
        }
    }
}

/// In the registry of unique names that a sequence of entries builds, no
/// name repeats, and each name that occurs holds the last address paired
/// with it.
pub proof fn lemma_unique_fold_keeps_last(entries: Seq<(Seq<char>, usize)>, name: Seq<char>)
    ensures
        names_unique(unique_fold(entries)),
        addresses_named(entries, name).len() > 0 ==> exists|i: int|
            0 <= i < unique_fold(entries).len() && #[trigger] unique_fold(entries)[i] == (
                name,
                addresses_named(entries, name).last(),
            ),
        addresses_named(entries, name).len() == 0 ==> forall|i: int|
            0 <= i < unique_fold(entries).len() ==> (#[trigger] unique_fold(entries)[i]).0 != name,
    decreases entries.len(),
{
    if entries.len() > 0 {
        let rest = entries.drop_last();
        let (n, a) = entries.last();
        lemma_unique_fold_keeps_last(rest, name);
        let reg = unique_fold(rest);
        let out = unique_fold(entries);
        assert(out == insert_unique(reg, n, a));
        if exists|i: int| 0 <= i < reg.len() && (#[trigger] reg[i]).0 == n {
            let k = choose|i: int| 0 <= i < reg.len() && (#[trigger] reg[i]).0 == n;
            assert(out == reg.update(k, (n, a)));
            assert(names_unique(out)) by {
                assert forall|i: int, j: int| 0 <= i < j < out.len() implies (#[trigger] out[i]).0 != (#[trigger] out[j]).0 by {
                    assert(out[i].0 == reg[i].0);
                    assert(out[j].0 == reg[j].0);
                }
            }
            if name == n {
                assert(addresses_named(entries, name).last() == a);
                assert(out[k] == (name, a));
            } else if addresses_named(entries, name).len() > 0 {
                let i = choose|i: int| 0 <= i < reg.len() && #[trigger] reg[i] == (name, addresses_named(rest, name).last());
                assert(out[i] == reg[i]);
            } else {
                assert forall|i: int| 0 <= i < out.len() implies (#[trigger] out[i]).0 != name by {
                    assert(out[i].0 == reg[i].0);
                }
            }
        } else {
            assert(out == reg.push((n, a)));
            assert(names_unique(out)) by {
                assert forall|i: int, j: int| 0 <= i < j < out.len() implies (#[trigger] out[i]).0 != (#[trigger] out[j]).0 by {
                    assert(out[i] == reg[i]);
                    if j < reg.len() {
                        assert(out[j] == reg[j]);
                    }
                }
            }
            if name == n {
                assert(addresses_named(entries, name).last() == a);
                assert(out[reg.len() as int] == (name, a));
            } else if addresses_named(entries, name).len() > 0 {
                let i = choose|i: int| 0 <= i < reg.len() && #[trigger] reg[i] == (name, addresses_named(rest, name).last());
                assert(out[i] == reg[i]);
            } else {
                assert forall|i: int| 0 <= i < out.len() implies (#[trigger] out[i]).0 != name by {
                    if i < reg.len() {
                        assert(out[i] == reg[i]);
                    }
                }
            }
        }
    }
}

} // verus!
