//! The macro table: names that stand for a list of G-codes. A macro is
//! expanded when it is added, so that what the table stores needs no further
//! descent when it is used.

use crate::text::{
    bytes_eq, copy_texts, lemma_texts_push, own, slices, texts, to_upper_vec, upper_seq,
};
use vstd::prelude::*;

verus! {

/// A macro was to be added whose expansion would never end.
#[derive(Debug)]
pub struct InfiniteRecursion;

/// A macro: its name in upper case and the steps it stands for.
#[derive(Debug)]
pub struct Definition {
    pub name: Vec<u8>,
    pub steps: Vec<Vec<u8>>,
}

/// What a macro table holds: for each name its steps.
pub type Table = Map<Seq<u8>, Seq<Seq<u8>>>;

/// One of `entries` bears this name.
pub open spec fn defines(entries: Seq<Definition>, name: Seq<u8>) -> bool {
    exists|i: int| 0 <= i < entries.len() && (#[trigger] entries[i]).name@ == name
}

/// No two of `entries` bear the same name.
pub open spec fn distinct_names(entries: Seq<Definition>) -> bool {
    forall|i: int, j: int|
        0 <= i < j < entries.len() ==> (#[trigger] entries[i]).name@ != (#[trigger] entries[j]).name@
}

/// The table that `entries` make up.
pub open spec fn table_of(entries: Seq<Definition>) -> Table
    decreases entries.len(),
{
    if entries.len() == 0 {
        Map::empty()
    } else {
        table_of(entries.drop_last()).insert(entries.last().name@, texts(entries.last().steps))
    }
}

/// The table of a list of entries holds just their names, and under each
/// name the steps of its entry.
pub proof fn lemma_table_of(entries: Seq<Definition>)
    requires
        distinct_names(entries),
    ensures
        table_of(entries).dom().finite(),
        forall|name: Seq<u8>| #[trigger]
            table_of(entries).contains_key(name) <==> defines(entries, name),
        forall|i: int|
            0 <= i < entries.len() ==> table_of(entries)[(#[trigger] entries[i]).name@] == texts(
                entries[i].steps,
            ),
    decreases entries.len(),
{
    if entries.len() > 0 {
        let front = entries.drop_last();
        lemma_table_of(front);
        assert forall|name: Seq<u8>| #[trigger]
            table_of(entries).contains_key(name) <==> defines(entries, name) by {
            if defines(entries, name) {
                let i = choose|i: int|
                    0 <= i < entries.len() && (#[trigger] entries[i]).name@ == name;
                if i < entries.len() - 1 {
                    assert(front[i].name@ == name);
                    assert(defines(front, name));
                }
            }
            if table_of(entries).contains_key(name) {
                if name == entries.last().name@ {
                    assert(entries[entries.len() - 1].name@ == name);
                } else {
                    assert(defines(front, name));
                    let i = choose|i: int|
                        0 <= i < front.len() && (#[trigger] front[i]).name@ == name;
                    assert(entries[i].name@ == name);
                }
            }
        }
        assert forall|i: int| 0 <= i < entries.len() implies table_of(entries)[(
        #[trigger] entries[i]).name@] == texts(entries[i].steps) by {
            if i < entries.len() - 1 {
                assert(front[i] == entries[i]);
                assert(entries[i].name@ != entries[entries.len() - 1].name@);
            }
        }
    }
}

/// One more name on the path leaves fewer names of the table off it.
pub proof fn lemma_path_grows(names: Set<Seq<u8>>, path: Set<Seq<u8>>, name: Seq<u8>)
    requires
        names.finite(),
        names.contains(name),
        !path.contains(name),
    ensures
        names.difference(path.insert(name)).len() < names.difference(path).len(),
{
    assert(names.difference(path.insert(name)) =~= names.difference(path).remove(name));
    assert(names.difference(path).contains(name));
}

/// What one code expands to under `table`, all the way down: a name that the
/// table does not hold stands for itself, in upper case; a name that it holds
/// stands for the expansion of its steps. `path` holds the names that are
/// being expanded around this one; a name that comes up again on its own
/// path has no expansion.
pub open spec fn expand_one(table: Table, path: Set<Seq<u8>>, code: Seq<u8>) -> Option<
    Seq<Seq<u8>>,
>
    decreases table.dom().difference(path).len(), 0nat, 0nat,
    when table.dom().finite()
{
    let name = upper_seq(code);
    if !table.contains_key(name) {
        Some(seq![name])
    } else if path.contains(name) {
        None
    } else {
        proof {
            lemma_path_grows(table.dom(), path, name);
        }
        expand_first(table, path.insert(name), table[name], table[name].len())
    }
}

/// What the first `n` of `codes` expand to, one after the other; nothing if
/// one of them has no expansion.
pub open spec fn expand_first(table: Table, path: Set<Seq<u8>>, codes: Seq<Seq<u8>>, n: nat) -> Option<
    Seq<Seq<u8>>,
>
    decreases table.dom().difference(path).len(), 1nat, n,
    when table.dom().finite()
{
    if n == 0 || n > codes.len() {
        Some(Seq::empty())
    } else {
        match expand_first(table, path, codes, (n - 1) as nat) {
            Some(head) => match expand_one(table, path, codes[n - 1]) {
                Some(tail) => Some(head + tail),
                None => None,
            },
            None => None,
        }
    }
}

/// What the first `n` of `codes` expand to in use: the stored steps of a name
/// that the table holds, and the code itself, in upper case, otherwise.
pub open spec fn substitute(table: Table, codes: Seq<Seq<u8>>, n: nat) -> Seq<Seq<u8>>
    decreases n,
{
    if n == 0 || n > codes.len() {
        Seq::empty()
    } else {
        let name = upper_seq(codes[n - 1]);
        substitute(table, codes, (n - 1) as nat) + if table.contains_key(name) {
            table[name]
        } else {
            seq![name]
        }
    }
}

/// The names of `path`, as a set.
pub open spec fn names_on(path: Seq<Vec<u8>>) -> Set<Seq<u8>> {
    Set::new(|name: Seq<u8>| exists|i: int| 0 <= i < path.len() && (#[trigger] path[i])@ == name)
}

/// Where one of the first `n` codes has no expansion, the whole list has none.
pub proof fn lemma_expand_first_fails(
    table: Table,
    path: Set<Seq<u8>>,
    codes: Seq<Seq<u8>>,
    k: nat,
    n: nat,
)
    requires
        table.dom().finite(),
        k <= n <= codes.len(),
        expand_first(table, path, codes, k) is None,
    ensures
        expand_first(table, path, codes, n) is None,
    decreases n - k,
{
    if k < n {
        lemma_expand_first_fails(table, path, codes, k, (n - 1) as nat);
    }
}

/// No step of a full expansion is a name that the table holds.
pub proof fn lemma_expand_one_flat(table: Table, path: Set<Seq<u8>>, code: Seq<u8>)
    requires
        table.dom().finite(),
        expand_one(table, path, code) is Some,
    ensures
        forall|i: int|
            0 <= i < expand_one(table, path, code)->0.len() ==> !table.contains_key(
                #[trigger] expand_one(table, path, code)->0[i],
            ),
    decreases table.dom().difference(path).len(), 0nat, 0nat,
{
    let name = upper_seq(code);
    if table.contains_key(name) && !path.contains(name) {
        lemma_path_grows(table.dom(), path, name);
        lemma_expand_first_flat(table, path.insert(name), table[name], table[name].len());
    }
}

/// No step of a full expansion of a list is a name that the table holds.
pub proof fn lemma_expand_first_flat(table: Table, path: Set<Seq<u8>>, codes: Seq<Seq<u8>>, n: nat)
    requires
        table.dom().finite(),
        expand_first(table, path, codes, n) is Some,
    ensures
        forall|i: int|
            0 <= i < expand_first(table, path, codes, n)->0.len() ==> !table.contains_key(
                #[trigger] expand_first(table, path, codes, n)->0[i],
            ),
    decreases table.dom().difference(path).len(), 1nat, n,
{
    if !(n == 0 || n > codes.len()) {
        lemma_expand_first_flat(table, path, codes, (n - 1) as nat);
        lemma_expand_one_flat(table, path, codes[n - 1]);
    }
}

/// The macros of a session: storage, lookup and expansion.
#[derive(Debug)]
pub struct Macros {
    entries: Vec<Definition>,
}

impl Default for Macros {
    fn default() -> (table: Self)
        ensures
            table@ == Table::empty(),
            table.wf(),
    {
        Macros::new()
    }
}

impl View for Macros {
    type V = Table;

    closed spec fn view(&self) -> Table {
        table_of(self.entries@)
    }
}

impl Macros {
    /// No name is stored twice.
    pub closed spec fn wf(&self) -> bool {
        distinct_names(self.entries@)
    }

    /// The macros in the order in which they are listed: each name with the
    /// steps stored under it.
    pub closed spec fn listing(&self) -> Seq<(Seq<u8>, Seq<Seq<u8>>)> {
        Seq::new(
            self.entries@.len(),
            |i: int| (self.entries@[i].name@, texts(self.entries@[i].steps)),
        )
    }

    /// The listing holds every macro of the table once, with its steps, and
    /// nothing else.
    pub proof fn lemma_listing(&self)
        requires
            self.wf(),
        ensures
            forall|i: int|
                0 <= i < self.listing().len() ==> self@.contains_key(
                    (#[trigger] self.listing()[i]).0,
                ) && self@[self.listing()[i].0] == self.listing()[i].1,
            forall|name: Seq<u8>| #[trigger]
                self@.contains_key(name) ==> exists|i: int|
                    0 <= i < self.listing().len() && (#[trigger] self.listing()[i]).0 == name,
            forall|i: int, j: int|
                0 <= i < j < self.listing().len() ==> (#[trigger] self.listing()[i]).0 != (
                #[trigger] self.listing()[j]).0,
    {
        lemma_table_of(self.entries@);
        assert forall|i: int| 0 <= i < self.listing().len() implies self@.contains_key(
            (#[trigger] self.listing()[i]).0,
        ) && self@[self.listing()[i].0] == self.listing()[i].1 by {
            assert(self.entries@[i].name@ == self.listing()[i].0);
            assert(defines(self.entries@, self.listing()[i].0));
        }
        assert forall|name: Seq<u8>| #[trigger] self@.contains_key(name) implies exists|i: int|
            0 <= i < self.listing().len() && (#[trigger] self.listing()[i]).0 == name by {
            let k = choose|k: int|
                0 <= k < self.entries@.len() && (#[trigger] self.entries@[k]).name@ == name;
            assert(self.listing()[k].0 == name);
        }
        assert forall|i: int, j: int| 0 <= i < j < self.listing().len() implies (
        #[trigger] self.listing()[i]).0 != (#[trigger] self.listing()[j]).0 by {
            assert(self.entries@[i].name@ != self.entries@[j].name@);
        }
    }

    /// A well-formed table holds finitely many names.
    pub proof fn lemma_finite(&self)
        requires
            self.wf(),
        ensures
            self@.dom().finite(),
    {
        lemma_table_of(self.entries@);
    }

    /// An empty table.
    pub fn new() -> (table: Self)
        ensures
            table@ == Table::empty(),
            table.wf(),
    {
        Macros { entries: Vec::new() }
    }

    /// Where the entry with this name stands.
    fn find(&self, name: &[u8]) -> (at: Option<usize>)
        requires
            self.wf(),
        ensures
            match at {
                Some(i) => i < self.entries@.len() && self.entries@[i as int].name@ == name@
                    && self@.contains_key(name@) && self@[name@] == texts(
                    self.entries@[i as int].steps,
                ),
                None => !self@.contains_key(name@),
            },
    {
        proof {
            lemma_table_of(self.entries@);
        }
        let mut i: usize = 0;
        while i < self.entries.len()
            invariant
                i <= self.entries@.len(),
                self.wf(),
                forall|j: int| 0 <= j < i ==> (#[trigger] self.entries@[j]).name@ != name@,
            decreases self.entries@.len() - i,
        {
            if bytes_eq(self.entries[i].name.as_slice(), name) {
                proof {
                    lemma_table_of(self.entries@);
                    assert(defines(self.entries@, name@));
                }
                return Some(i);
            }
            i += 1;
        }
        None
    }

    /// Stores `steps` under `name`, in the place of what was stored there.
    fn store(&mut self, name: Vec<u8>, steps: Vec<Vec<u8>>)
        requires
            old(self).wf(),
        ensures
            final(self).wf(),
            final(self)@ == old(self)@.insert(name@, texts(steps)),
    {
        let entry = Definition { name, steps };
        proof {
            lemma_table_of(self.entries@);
        }
        match self.find(entry.name.as_slice()) {
            Some(i) => {
                self.entries.set(i, entry);
                proof {
                    let before = old(self).entries@;
                    let after = self.entries@;
                    assert forall|a: int, b: int| 0 <= a < b < after.len() implies (
                    #[trigger] after[a]).name@ != (#[trigger] after[b]).name@ by {
                        assert(before[a].name@ != before[b].name@);
                    }
                    lemma_table_of(after);
                    assert forall|n: Seq<u8>| #[trigger]
                        table_of(after).contains_key(n) <==> table_of(before).insert(
                            name@,
                            texts(steps),
                        ).contains_key(n) by {
                        if defines(after, n) {
                            let k = choose|k: int|
                                0 <= k < after.len() && (#[trigger] after[k]).name@ == n;
                            assert(before[k].name@ == n);
                        }
                        if defines(before, n) {
                            let k = choose|k: int|
                                0 <= k < before.len() && (#[trigger] before[k]).name@ == n;
                            assert(after[k].name@ == n);
                        }
                    }
                    assert forall|n: Seq<u8>| #[trigger]
                        table_of(after).contains_key(n) implies table_of(after)[n] == table_of(
                        before,
                    ).insert(name@, texts(steps))[n] by {
                        let k = choose|k: int|
                            0 <= k < after.len() && (#[trigger] after[k]).name@ == n;
                        if k != i {
                            assert(before[k] == after[k]);
                            assert(before[k].name@ != before[i as int].name@);
                        }
                    }
                    assert(table_of(after) =~= table_of(before).insert(name@, texts(steps)));
                }
            },
            None => {
                self.entries.push(entry);
                proof {
                    let before = old(self).entries@;
                    let after = self.entries@;
                    assert(after.drop_last() =~= before);
                    assert forall|a: int, b: int| 0 <= a < b < after.len() implies (
                    #[trigger] after[a]).name@ != (#[trigger] after[b]).name@ by {
                        if b == after.len() - 1 {
                            assert(before[a].name@ != name@) by {
                                if before[a].name@ == name@ {
                                    assert(defines(before, name@));
                                }
                            }
                        } else {
                            assert(before[a].name@ != before[b].name@);
                        }
                    }
                }
            },
        }
    }

    /// Adds a macro: expands `steps` all the way down under the table as it
    /// stands and stores the expansion under `name` in upper case. Where a
    /// name comes up again in its own expansion, nothing is stored.
    pub fn add(&mut self, name: &[u8], steps: &[&[u8]]) -> (r: Result<(), InfiniteRecursion>)
        requires
            old(self).wf(),
        ensures
            final(self).wf(),
            match expand_first(old(self)@, Set::empty(), slices(steps@), steps@.len()) {
                Some(flat) => r is Ok && final(self)@ == old(self)@.insert(upper_seq(name@), flat),
                None => r is Err && final(self)@ == old(self)@,
            },
    {
        match self.expand_for_insertion(steps) {
            Ok(commands) => {
                self.store(to_upper_vec(name), commands);
                Ok(())
            },
            Err(e) => Err(e),
        }
    }

    /// The steps stored under `name`, if it is a macro.
    pub fn get(&self, name: &[u8]) -> (steps: Option<&Vec<Vec<u8>>>)
        requires
            self.wf(),
        ensures
            match steps {
                Some(stored) => self@.contains_key(upper_seq(name@)) && texts(*stored)
                    == self@[upper_seq(name@)],
                None => !self@.contains_key(upper_seq(name@)),
            },
    {
        let upper = to_upper_vec(name);
        match self.find(upper.as_slice()) {
            Some(i) => Some(&self.entries[i].steps),
            None => None,
        }
    }

    /// Removes the macro with this name. Returns the steps that were stored
    /// under it.
    pub fn remove(&mut self, name: &[u8]) -> (steps: Option<Vec<Vec<u8>>>)
        requires
            old(self).wf(),
        ensures
            final(self).wf(),
            final(self)@ == old(self)@.remove(upper_seq(name@)),
            match steps {
                Some(stored) => old(self)@.contains_key(upper_seq(name@)) && texts(stored) == old(
                    self,
                )@[upper_seq(name@)],
                None => !old(self)@.contains_key(upper_seq(name@)),
            },
    {
        let upper = to_upper_vec(name);
        proof {
            lemma_table_of(self.entries@);
        }
        match self.find(upper.as_slice()) {
            Some(i) => {
                let entry = self.entries.remove(i);
                proof {
                    let before = old(self).entries@;
                    let after = self.entries@;
                    assert forall|a: int, b: int| 0 <= a < b < after.len() implies (
                    #[trigger] after[a]).name@ != (#[trigger] after[b]).name@ by {
                        let x = if a < i {
                            a
                        } else {
                            a + 1
                        };
                        let y = if b < i {
                            b
                        } else {
                            b + 1
                        };
                        assert(before[x].name@ != before[y].name@);
                    }
                    lemma_table_of(after);
                    assert forall|n: Seq<u8>| #[trigger]
                        table_of(after).contains_key(n) <==> table_of(before).remove(
                            upper@,
                        ).contains_key(n) by {
                        if defines(after, n) {
                            let k = choose|k: int|
                                0 <= k < after.len() && (#[trigger] after[k]).name@ == n;
                            let x = if k < i {
                                k
                            } else {
                                k + 1
                            };
                            assert(before[x].name@ == n);
                            assert(before[x].name@ != before[i as int].name@);
                        }
                        if defines(before, n) && n != upper@ {
                            let k = choose|k: int|
                                0 <= k < before.len() && (#[trigger] before[k]).name@ == n;
                            let x = if k < i {
                                k
                            } else {
                                k - 1
                            };
                            assert(after[x].name@ == n);
                        }
                    }
                    assert forall|n: Seq<u8>| #[trigger]
                        table_of(after).contains_key(n) implies table_of(after)[n] == table_of(
                        before,
                    ).remove(upper@)[n] by {
                        let k = choose|k: int|
                            0 <= k < after.len() && (#[trigger] after[k]).name@ == n;
                        let x = if k < i {
                            k
                        } else {
                            k + 1
                        };
                        assert(before[x] == after[k]);
                    }
                    assert(table_of(after) =~= table_of(before).remove(upper@));
                }
                Some(entry.steps)
            },
            None => {
                assert(self@ =~= old(self)@.remove(upper@));
                None
            },
        }
    }

    /// The macros and what is stored under them, each once, in the order of
    /// the listing.
    pub fn iter(&self) -> (all: Vec<(&Vec<u8>, &Vec<Vec<u8>>)>)
        ensures
            all@.len() == self.listing().len(),
            forall|i: int|
                0 <= i < all@.len() ==> (#[trigger] all@[i]).0@ == self.listing()[i].0 && texts(
                    *all@[i].1,
                ) == self.listing()[i].1,
    {
        let mut all: Vec<(&Vec<u8>, &Vec<Vec<u8>>)> = Vec::new();
        let mut i: usize = 0;
        while i < self.entries.len()
            invariant
                i <= self.entries@.len(),
                all@.len() == i,
                forall|j: int|
                    0 <= j < i ==> *(#[trigger] all@[j]).0 == self.entries@[j].name && *all@[j].1
                        == self.entries@[j].steps,
            decreases self.entries@.len() - i,
        {
            all.push((&self.entries[i].name, &self.entries[i].steps));
            i += 1;
        }
        all
    }

    /// Appends to `expanded` what `code` expands to, all the way down. `path`
    /// holds the names that are being expanded around it.
    fn expand_recursive(&self, expanded: &mut Vec<Vec<u8>>, code: &[u8], path: &Vec<Vec<u8>>) -> (r:
        Result<(), InfiniteRecursion>)
        requires
            self.wf(),
        ensures
            match expand_one(self@, names_on(path@), code@) {
                Some(more) => r is Ok && texts(*final(expanded)) == texts(*old(expanded)) + more,
                None => r is Err,
            },
        decreases self@.dom().difference(names_on(path@)).len(),
    {
        proof {
            self.lemma_finite();
        }
        let name = to_upper_vec(code);
        match self.find(name.as_slice()) {
            Some(at) => {
                if on_path(path, name.as_slice()) {
                    return Err(InfiniteRecursion);
                }
                let mut inner = copy_texts(path);
                let ghost outer = names_on(path@);
                let ghost table = self@;
                let steps = &self.entries[at].steps;
                inner.push(name);
                proof {
                    assert(texts(inner).drop_last() =~= texts(*path));
                    assert(names_on(inner@) =~= outer.insert(upper_seq(code@))) by {
                        assert forall|n: Seq<u8>| names_on(inner@).contains(n) implies outer.insert(
                            upper_seq(code@),
                        ).contains(n) by {
                            let k = choose|k: int|
                                0 <= k < inner@.len() && (#[trigger] inner@[k])@ == n;
                            if k < path@.len() {
                                assert(texts(inner)[k] == texts(*path)[k]);
                                assert(path@[k]@ == n);
                            }
                        }
                        assert forall|n: Seq<u8>|
                            outer.insert(upper_seq(code@)).contains(n) implies names_on(
                            inner@,
                        ).contains(n) by {
                            if n == upper_seq(code@) {
                                assert(inner@[inner@.len() - 1]@ == n);
                            } else {
                                let k = choose|k: int|
                                    0 <= k < path@.len() && (#[trigger] path@[k])@ == n;
                                assert(texts(inner)[k] == texts(*path)[k]);
                                assert(inner@[k]@ == n);
                            }
                        }
                    }
                    lemma_path_grows(table.dom(), outer, upper_seq(code@));
                }
                let mut i: usize = 0;
                assert(texts(*expanded) + Seq::<Seq<u8>>::empty() =~= texts(*expanded));
                while i < steps.len()
                    invariant
                        i <= steps@.len(),
                        self.wf(),
                        table == self@,
                        table.dom().finite(),
                        table.contains_key(upper_seq(code@)),
                        !outer.contains(upper_seq(code@)),
                        texts(*steps) == table[upper_seq(code@)],
                        names_on(inner@) == outer.insert(upper_seq(code@)),
                        table.dom().difference(names_on(inner@)).len() < table.dom().difference(
                            outer,
                        ).len(),
                        outer == names_on(path@),
                        expand_first(table, names_on(inner@), texts(*steps), i as nat) matches Some(
                            more,
                        ) && texts(*expanded) == texts(*old(expanded)) + more,
                    decreases steps@.len() - i,
                {
                    let ghost before = texts(*expanded);
                    match self.expand_recursive(expanded, steps[i].as_slice(), &inner) {
                        Ok(()) => {},
                        Err(e) => {
                            proof {
                                assert(texts(*steps)[i as int] == steps@[i as int]@);
                                assert(expand_first(
                                    table,
                                    names_on(inner@),
                                    texts(*steps),
                                    (i + 1) as nat,
                                ) is None);
                                lemma_expand_first_fails(
                                    table,
                                    names_on(inner@),
                                    texts(*steps),
                                    (i + 1) as nat,
                                    steps@.len() as nat,
                                );
                            }
                            return Err(e);
                        },
                    }
                    i += 1;
                    proof {
                        let head = expand_first(
                            table,
                            names_on(inner@),
                            texts(*steps),
                            (i - 1) as nat,
                        )->0;
                        let tail = expand_one(table, names_on(inner@), steps@[i - 1]@)->0;
                        assert(texts(*expanded) =~= texts(*old(expanded)) + (head + tail));
                    }
                }
                Ok(())
            },
            None => {
                expanded.push(name);
                assert(texts(*expanded) =~= texts(*old(expanded)) + seq![upper_seq(code@)]);
                Ok(())
            },
        }
    }

    /// What `codes` expand to, all the way down, under the table as it stands.
    fn expand_for_insertion(&self, codes: &[&[u8]]) -> (r: Result<Vec<Vec<u8>>, InfiniteRecursion>)
        requires
            self.wf(),
        ensures
            match expand_first(self@, Set::empty(), slices(codes@), codes@.len()) {
                Some(flat) => r matches Ok(expanded) && texts(expanded) == flat,
                None => r is Err,
            },
    {
        let mut expanded: Vec<Vec<u8>> = Vec::new();
        let path: Vec<Vec<u8>> = Vec::new();
        proof {
            self.lemma_finite();
            assert(names_on(path@) =~= Set::<Seq<u8>>::empty());
        }
        let mut i: usize = 0;
        assert(texts(expanded) =~= Seq::<Seq<u8>>::empty());
        while i < codes.len()
            invariant
                i <= codes@.len(),
                self.wf(),
                self@.dom().finite(),
                names_on(path@) == Set::<Seq<u8>>::empty(),
                expand_first(self@, Set::empty(), slices(codes@), i as nat) matches Some(more)
                    && texts(expanded) == more,
            decreases codes@.len() - i,
        {
            match self.expand_recursive(&mut expanded, codes[i], &path) {
                Ok(()) => {},
                Err(e) => {
                    proof {
                        lemma_expand_first_fails(
                            self@,
                            Set::empty(),
                            slices(codes@),
                            (i + 1) as nat,
                            codes@.len() as nat,
                        );
                    }
                    return Err(e);
                },
            }
            i += 1;
        }
        Ok(expanded)
    }

    /// Replaces every macro among `codes` by the steps stored under it; every
    /// other code stands for itself, in upper case.
    pub fn expand(&self, codes: &[&[u8]]) -> (expanded: Vec<Vec<u8>>)
        requires
            self.wf(),
        ensures
            texts(expanded) == substitute(self@, slices(codes@), codes@.len()),
    {
        let mut expanded: Vec<Vec<u8>> = Vec::new();
        let mut i: usize = 0;
        assert(texts(expanded) =~= Seq::<Seq<u8>>::empty());
        while i < codes.len()
            invariant
                i <= codes@.len(),
                self.wf(),
                texts(expanded) == substitute(self@, slices(codes@), i as nat),
            decreases codes@.len() - i,
        {
            let ghost before = texts(expanded);
            let name = to_upper_vec(codes[i]);
            match self.find(name.as_slice()) {
                Some(at) => {
                    let steps = &self.entries[at].steps;
                    let mut j: usize = 0;
                    while j < steps.len()
                        invariant
                            j <= steps@.len(),
                            texts(expanded) == before + texts(*steps).subrange(0, j as int),
                        decreases steps@.len() - j,
                    {
                        let step = &steps[j];
                        let copy = own(step.as_slice());
                        let ghost shorter = expanded;
                        expanded.push(copy);
                        j += 1;
                        proof {
                            lemma_texts_push(shorter, expanded, copy);
                            assert(texts(expanded) =~= before + texts(*steps).subrange(
                                0,
                                j as int,
                            ));
                        }
                    }
                    assert(texts(*steps).subrange(0, j as int) =~= texts(*steps));
                },
                None => {
                    expanded.push(name);
                    assert(texts(expanded) =~= before + seq![upper_seq(codes@[i as int]@)]);
                },
            }
            i += 1;
        }
        expanded
    }
}

/// Whether `name` is on `path`.
fn on_path(path: &Vec<Vec<u8>>, name: &[u8]) -> (r: bool)
    ensures
        r == names_on(path@).contains(name@),
{
    let mut i: usize = 0;
    while i < path.len()
        invariant
            i <= path@.len(),
            forall|j: int| 0 <= j < i ==> (#[trigger] path@[j])@ != name@,
        decreases path@.len() - i,
    {
        if bytes_eq(path[i].as_slice(), name) {
            return true;
        }
        i += 1;
    }
    false
}

/// After a macro is added, no step stored under it is a name that the table
/// held before; so none is a name of the table at all, unless it is the
/// macro's own name.
pub proof fn lemma_macro_flatness(
    before: Table,
    name: Seq<u8>,
    steps: Seq<Seq<u8>>,
    i: int,
)
    requires
        before.dom().finite(),
        expand_first(before, Set::empty(), steps, steps.len()) is Some,
        0 <= i < expand_first(before, Set::empty(), steps, steps.len())->0.len(),
    ensures
        ({
            let flat = expand_first(before, Set::empty(), steps, steps.len())->0;
            let after = before.insert(upper_seq(name), flat);
            &&& after[upper_seq(name)] == flat
            &&& !before.contains_key(flat[i])
            &&& flat[i] != upper_seq(name) ==> !after.contains_key(flat[i])
        }),
{
    lemma_expand_first_flat(before, Set::empty(), steps, steps.len());
}

} // verus!
