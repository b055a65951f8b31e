//! Interned strings (atoms) and the table that owns them.

use vstd::prelude::*;

verus! {

/// An interned string, named by its slot in the atom table.
#[derive(Clone, Copy, PartialEq, Eq, Structural, Hash, Debug)]
pub struct Atom(pub u32);

/// A live slot of the atom table.
#[derive(Debug)]
pub struct AtomEntry {
    pub(crate) text: String,
    pub(crate) marked: bool,
}

/// The abstract content of a live slot: its text and its mark.
pub struct EntryView {
    pub text: Seq<char>,
    pub marked: bool,
}

/// The table of interned strings. A slot holds an entry or is free; freed
/// slots are reused before the table grows.
#[derive(Debug)]
pub struct AtomTable {
    vec: Vec<Option<AtomEntry>>,
    free: Vec<u32>,
}

pub closed spec fn entry_view(e: Option<AtomEntry>) -> Option<EntryView> {
    match e {
        Some(e) => Some(EntryView { text: e.text@, marked: e.marked }),
        None => None,
    }
}

impl View for AtomTable {
    type V = Seq<Option<EntryView>>;

    closed spec fn view(&self) -> Seq<Option<EntryView>> {
        self.vec@.map_values(|e: Option<AtomEntry>| entry_view(e))
    }
}

/// The atom is live in the slots `t`.
pub open spec fn is_live(t: Seq<Option<EntryView>>, a: Atom) -> bool {
    (a.0 as int) < t.len() && t[a.0 as int] is Some
}

/// The text of a live atom.
pub open spec fn text_of(t: Seq<Option<EntryView>>, a: Atom) -> Seq<char> {
    t[a.0 as int]->Some_0.text
}

/// The atom is live and marked.
pub open spec fn is_marked(t: Seq<Option<EntryView>>, a: Atom) -> bool {
    is_live(t, a) && t[a.0 as int]->Some_0.marked
}

/// Some live atom has the text `s`.
pub open spec fn contains_text(t: Seq<Option<EntryView>>, s: Seq<char>) -> bool {
    exists|i: int| 0 <= i < t.len() && t[i] is Some && (#[trigger] t[i])->Some_0.text == s
}

/// Number of live slots among the first `n`.
pub open spec fn live_count_prefix(t: Seq<Option<EntryView>>, n: int) -> nat
    decreases n,
{
    if n <= 0 {
        0
    } else {
        live_count_prefix(t, n - 1) + if t[n - 1] is Some { 1nat } else { 0nat }
    }
}

/// Number of live atoms.
pub open spec fn live_count(t: Seq<Option<EntryView>>) -> nat {
    live_count_prefix(t, t.len() as int)
}

/// What `intern` guarantees: the result names the text; an existing atom
/// with that text is returned and nothing changes; otherwise a free slot
/// receives the text unmarked and no other slot changes.
pub open spec fn intern_post(
    before: Seq<Option<EntryView>>,
    s: Seq<char>,
    after: Seq<Option<EntryView>>,
    r: Atom,
) -> bool {
    &&& is_live(after, r)
    &&& text_of(after, r) == s
    &&& contains_text(before, s) ==> after == before && is_live(before, r)
    &&& !contains_text(before, s) ==> {
        &&& !is_live(before, r)
        &&& !after[r.0 as int]->Some_0.marked
        &&& before.len() <= after.len() <= before.len() + 1
        &&& forall|i: int| 0 <= i < after.len() && i != r.0 ==> #[trigger] after[i] == (if i
            < before.len() {
            before[i]
        } else {
            None::<EntryView>
        })
    }
}

/// What `sweep` guarantees: marked atoms stay, unmarked, with their text;
/// unmarked atoms are freed; the table keeps its size.
pub open spec fn sweep_post(before: Seq<Option<EntryView>>, after: Seq<Option<EntryView>>) -> bool {
    &&& after.len() == before.len()
    &&& forall|i: int|
        0 <= i < before.len() ==> #[trigger] after[i] == match before[i] {
            Some(e) => if e.marked {
                Some(EntryView { text: e.text, marked: false })
            } else {
                None
            },
            None => None,
        }
}

/// The slots among the first `n` that a sweep frees: live and unmarked,
/// in ascending order.
pub open spec fn freed_slots(t: Seq<Option<EntryView>>, n: int) -> Seq<u32>
    decreases n,
{
    if n <= 0 {
        Seq::empty()
    } else if t[n - 1] matches Some(e) && !e.marked {
        freed_slots(t, n - 1).push((n - 1) as u32)
    } else {
        freed_slots(t, n - 1)
    }
}

/// Where `intern` puts a text that no live atom has: the last slot of the
/// free list when there is one, else a new slot at the end.
pub open spec fn intern_slot(before: Seq<Option<EntryView>>, free: Seq<u32>, s: Seq<char>, r: Atom, free_after: Seq<u32>) -> bool {
    if contains_text(before, s) {
        free_after == free
    } else if free.len() > 0 {
        r.0 == free.last() && free_after == free.drop_last()
    } else {
        r.0 == before.len() && free_after == free
    }
}

impl AtomTable {
    /// The free list: freed slots, reused from its end.
    pub closed spec fn free_slots(&self) -> Seq<u32> {
        self.free@
    }

    /// Live texts are pairwise distinct; the free list names distinct free
    /// slots; atoms fit in 32 bits.
    pub closed spec fn wf(&self) -> bool {
        &&& self.vec@.len() <= u32::MAX
        &&& forall|i: int, j: int|
            0 <= i < self.vec@.len() && 0 <= j < self.vec@.len() && i != j && self.vec@[i] is Some
                && self.vec@[j] is Some ==> (#[trigger] self.vec@[i])->Some_0.text@ != (
            #[trigger] self.vec@[j])->Some_0.text@
        &&& forall|k: int|
            0 <= k < self.free@.len() ==> (#[trigger] self.free@[k]) < self.vec@.len()
                && self.vec@[self.free@[k] as int] is None
        &&& forall|k: int, l: int|
            0 <= k < self.free@.len() && 0 <= l < self.free@.len() && k != l ==> #[trigger] self.free@[k]
                != #[trigger] self.free@[l]
    }

    proof fn lemma_view(&self)
        ensures
            self@.len() == self.vec@.len(),
            forall|i: int|
                0 <= i < self.vec@.len() ==> #[trigger] self@[i] == entry_view(self.vec@[i]),
    {
    }

    pub fn new() -> (r: Self)
        ensures
            r.wf(),
            r@ == Seq::<Option<EntryView>>::empty(),
            r.free_slots() == Seq::<u32>::empty(),
    {
        let r = AtomTable { vec: Vec::new(), free: Vec::new() };
        assert(r@ =~= Seq::<Option<EntryView>>::empty());
        r
    }

    fn lookup(&self, key: &String) -> (r: Option<u32>)
        requires
            self.wf(),
        ensures
            match r {
                Some(i) => is_live(self@, Atom(i)) && text_of(self@, Atom(i)) == key@,
                None => !contains_text(self@, key@),
            },
    {
        proof {
            self.lemma_view();
        }
        let mut i: usize = 0;
        while i < self.vec.len()
            invariant
                self.wf(),
                i <= self.vec@.len(),
                forall|j: int|
                    0 <= j < i ==> self@[j] is None || (#[trigger] self@[j])->Some_0.text != key@,
            decreases self.vec@.len() - i,
        {
            proof {
                self.lemma_view();
            }
            match &self.vec[i] {
                Some(entry) => {
                    if entry.text == *key {
                        return Some(i as u32);
                    }
                },
                None => {},
            }
            i = i + 1;
        }
        None
    }

    /// Returns the atom of `s`, interning it when no live atom has that text.
    pub fn intern(&mut self, s: &str) -> (r: Atom)
        requires
            old(self).wf(),
            old(self)@.len() < u32::MAX,
        ensures
            final(self).wf(),
            intern_post(old(self)@, s@, final(self)@, r),
            intern_slot(old(self)@, old(self).free_slots(), s@, r, final(self).free_slots()),
    {
        proof {
            self.lemma_view();
        }
        let key = s.to_owned();
        if let Some(index) = self.lookup(&key) {
            proof {
                assert(is_live(self@, Atom(index)) && text_of(self@, Atom(index)) == key@);
            }
            return Atom(index);
        }
        let ghost before = self@;
        let ghost before_vec = self.vec@;
        let ghost before_free = self.free@;
        let atom = if let Some(index) = self.free.pop() {
            proof {
                assert(before_free.last() == index);
                assert(self.free@ =~= before_free.drop_last());
                assert(before_vec[index as int] is None);
            }
            let mut slot = Some(AtomEntry { text: key, marked: false });
            self.vec.set_and_swap(index as usize, &mut slot);
            proof {
                assert forall|k: int| 0 <= k < self.free@.len() implies (#[trigger] self.free@[k])
                    < self.vec@.len() && self.vec@[self.free@[k] as int] is None by {
                    assert(before_free[k] != before_free[before_free.len() - 1]);
                }
            }
            Atom(index)
        } else {
            let atom = Atom(self.vec.len() as u32);
            self.vec.push(Some(AtomEntry { text: key, marked: false }));
            atom
        };
        proof {
            self.lemma_view();
            assert forall|i: int| 0 <= i < self@.len() && i != atom.0 implies #[trigger] self@[i]
                == (if i < before.len() {
                before[i]
            } else {
                None::<EntryView>
            }) by {}
            assert forall|i: int, j: int|
                0 <= i < self.vec@.len() && 0 <= j < self.vec@.len() && i != j && self.vec@[i] is Some
                    && self.vec@[j] is Some implies (#[trigger] self.vec@[i])->Some_0.text@ != (
            #[trigger] self.vec@[j])->Some_0.text@ by {
                if i == atom.0 {
                    assert(self@[j] == before[j]);
                    assert(before[j] is Some && before[j]->Some_0.text == self.vec@[j]->Some_0.text@);
                } else if j == atom.0 {
                    assert(self@[i] == before[i]);
                    assert(before[i] is Some && before[i]->Some_0.text == self.vec@[i]->Some_0.text@);
                } else {
                    assert(self.vec@[i] == before_vec[i]);
                    assert(self.vec@[j] == before_vec[j]);
                }
            }
        }
        atom
    }

    /// The text of a live atom.
    pub fn resolve(&self, atom: Atom) -> (r: &str)
        requires
            self.wf(),
            is_live(self@, atom),
        ensures
            r@ == text_of(self@, atom),
    {
        proof {
            self.lemma_view();
        }
        match &self.vec[atom.0 as usize] {
            Some(entry) => entry.text.as_str(),
            None => {
                proof {
                    assert(false);
                }
                ""
            },
        }
    }

    /// Marks a live atom; does nothing for any other atom.
    pub fn mark(&mut self, atom: Atom)
        requires
            old(self).wf(),
        ensures
            final(self).wf(),
            final(self)@ == if is_live(old(self)@, atom) {
                old(self)@.update(
                    atom.0 as int,
                    Some(EntryView { text: text_of(old(self)@, atom), marked: true }),
                )
            } else {
                old(self)@
            },            final(self).free_slots() == old(self).free_slots(),
    {
        proof {
            self.lemma_view();
        }
        let index = atom.0 as usize;
        if index < self.vec.len() && self.vec[index].is_some() {
            let mut slot: Option<AtomEntry> = None;
            self.vec.set_and_swap(index, &mut slot);
            match slot {
                Some(entry) => {
                    let mut marked = Some(AtomEntry { text: entry.text, marked: true });
                    self.vec.set_and_swap(index, &mut marked);
                },
                None => {},
            }
            proof {
                self.lemma_view();
                assert(self@ =~= old(self)@.update(
                    atom.0 as int,
                    Some(EntryView { text: text_of(old(self)@, atom), marked: true }),
                ));
            }
        }
    }

    /// Frees every unmarked atom and clears the marks of the others.
    pub fn sweep(&mut self)
        requires
            old(self).wf(),
        ensures
            final(self).wf(),
            sweep_post(old(self)@, final(self)@),
            final(self).free_slots() == old(self).free_slots() + freed_slots(old(self)@, old(self)@.len() as int),
    {
        let ghost before = self@;
        let ghost free0 = self.free@;
        proof {
            self.lemma_view();
        }
        let mut index: usize = 0;
        let len = self.vec.len();
        while index < len
            invariant
                self.wf(),
                len == self.vec@.len(),
                len == before.len(),
                index <= len,
                forall|i: int|
                    0 <= i < index ==> #[trigger] self@[i] == match before[i] {
                        Some(e) => if e.marked {
                            Some(EntryView { text: e.text, marked: false })
                        } else {
                            None
                        },
                        None => None,
                    },
                forall|i: int| index <= i < len ==> #[trigger] self@[i] == before[i],
                self.free@ == free0 + freed_slots(before, index as int),
            decreases len - index,
        {
            proof {
                self.lemma_view();
            }
            let ghost prev_view = self@;
            let ghost prev_vec = self.vec@;
            let ghost prev_free = self.free@;
            let mut slot: Option<AtomEntry> = None;
            self.vec.set_and_swap(index, &mut slot);
            match slot {
                Some(entry) => {
                    if entry.marked {
                        let mut kept = Some(AtomEntry { text: entry.text, marked: false });
                        self.vec.set_and_swap(index, &mut kept);
                    } else {
                        proof {
                            assert forall|k: int| 0 <= k < self.free@.len() implies (
                            #[trigger] self.free@[k]) != index by {
                                assert(prev_vec[prev_free[k] as int] is None);
                            }
                        }
                        self.free.push(index as u32);
                    }
                },
                None => {},
            }
            proof {
                self.lemma_view();
                assert(prev_view[index as int] == entry_view(prev_vec[index as int]));
                assert(prev_view[index as int] == before[index as int]);
                assert(self.free@ =~= free0 + freed_slots(before, index + 1));
                assert forall|i: int| 0 <= i < len && i != index implies #[trigger] self@[i]
                    == prev_view[i] by {
                    assert(self.vec@[i] == prev_vec[i]);
                }
                assert forall|k: int| 0 <= k < self.free@.len() implies (#[trigger] self.free@[k])
                    < self.vec@.len() && self.vec@[self.free@[k] as int] is None by {
                    if k < prev_free.len() {
                        assert(self.free@[k] == prev_free[k]);
                        assert(prev_vec[prev_free[k] as int] is None);
                    }
                }
                assert forall|k: int, l: int|
                    0 <= k < self.free@.len() && 0 <= l < self.free@.len() && k != l implies #[trigger] self.free@[k]
                        != #[trigger] self.free@[l] by {
                    if k < prev_free.len() && l < prev_free.len() {
                        assert(self.free@[k] == prev_free[k]);
                        assert(self.free@[l] == prev_free[l]);
                    }
                }
                assert forall|i: int, j: int|
                    0 <= i < self.vec@.len() && 0 <= j < self.vec@.len() && i != j && self.vec@[i] is Some
                        && self.vec@[j] is Some implies (#[trigger] self.vec@[i])->Some_0.text@ != (
                #[trigger] self.vec@[j])->Some_0.text@ by {
                    assert(self.vec@[i]->Some_0.text@ == prev_vec[i]->Some_0.text@);
                    assert(self.vec@[j]->Some_0.text@ == prev_vec[j]->Some_0.text@);
                }
            }
            index = index + 1;
        }
    }

    /// The atom is live.
    pub fn has_atom(&self, atom: Atom) -> (r: bool)
        requires
            self.wf(),
        ensures
            r == is_live(self@, atom),
    {
        proof {
            self.lemma_view();
        }
        let i = atom.0 as usize;
        i < self.vec.len() && self.vec[i].is_some()
    }

    /// Number of slots of the table, live or free; interning adds at most
    /// one.
    pub fn table_len(&self) -> (r: usize)
        requires
            self.wf(),
        ensures
            r == self@.len(),
    {
        proof {
            self.lemma_view();
        }
        self.vec.len()
    }

    /// Number of live atoms.
    pub fn count(&self) -> (r: usize)
        requires
            self.wf(),
        ensures
            r == live_count(self@),
    {
        proof {
            self.lemma_view();
        }
        let mut n: usize = 0;
        let mut i: usize = 0;
        while i < self.vec.len()
            invariant
                i <= self.vec@.len(),
                self@.len() == self.vec@.len(),
                n == live_count_prefix(self@, i as int),
                n <= i,
                forall|j: int|
                    0 <= j < self.vec@.len() ==> #[trigger] self@[j] == entry_view(self.vec@[j]),
            decreases self.vec@.len() - i,
        {
            if self.vec[i].is_some() {
                n = n + 1;
            }
            i = i + 1;
        }
        n
    }
}


/// Pointwise effect of marking the atoms in `keys`: live slots named by a
/// key become marked, every other slot is unchanged.
pub open spec fn marked_with(
    before: Seq<Option<EntryView>>,
    after: Seq<Option<EntryView>>,
    keys: Set<u32>,
) -> bool {
    &&& after.len() == before.len()
    &&& forall|i: int|
        0 <= i < before.len() ==> #[trigger] after[i] == if before[i] is Some && keys.contains(
            i as u32,
        ) {
            Some(EntryView { text: before[i]->Some_0.text, marked: true })
        } else {
            before[i]
        }
}

/// Live texts are pairwise distinct.
pub open spec fn texts_unique(t: Seq<Option<EntryView>>) -> bool {
    forall|i: int, j: int|
        0 <= i < t.len() && 0 <= j < t.len() && i != j && t[i] is Some && t[j] is Some ==> (
        #[trigger] t[i])->Some_0.text != (#[trigger] t[j])->Some_0.text
}

impl AtomTable {
    pub proof fn lemma_wf_unique(&self)
        requires
            self.wf(),
        ensures
            texts_unique(self@),
    {
        self.lemma_view();
        assert forall|i: int, j: int|
            0 <= i < self@.len() && 0 <= j < self@.len() && i != j && self@[i] is Some
                && self@[j] is Some implies (#[trigger] self@[i])->Some_0.text != (
        #[trigger] self@[j])->Some_0.text by {
            assert(self.vec@[i] is Some && self.vec@[j] is Some);
        }
    }

    /// Marks every atom of `keys` (those that are live).
    pub fn mark_all(&mut self, keys: &Vec<Atom>)
        requires
            old(self).wf(),
        ensures
            final(self).wf(),
            marked_with(old(self)@, final(self)@, keys@.map_values(|a: Atom| a.0).to_set()),
    {
        let ghost before = self@;
        let ghost all = keys@.map_values(|a: Atom| a.0);
        let mut k: usize = 0;
        while k < keys.len()
            invariant
                self.wf(),
                k <= keys@.len(),
                all == keys@.map_values(|a: Atom| a.0),
                marked_with(before, self@, all.take(k as int).to_set()),
            decreases keys@.len() - k,
        {
            let ghost prev = self@;
            self.mark(keys[k]);
            proof {
                assert(all.take(k + 1) =~= all.take(k as int).push(keys@[k as int].0));
                assert(all.take(k as int).push(keys@[k as int].0).to_set() =~= all.take(
                    k as int,
                ).to_set().insert(keys@[k as int].0)) by {
                    vstd::seq_lib::lemma_seq_contains_after_push(all.take(k as int), keys@[k as int].0, keys@[k as int].0);
                    assert forall|x: u32| #[trigger] all.take(k as int).push(keys@[k as int].0).contains(x)
                        <==> all.take(k as int).contains(x) || x == keys@[k as int].0 by {
                        if all.take(k as int).push(keys@[k as int].0).contains(x) {
                            let w = choose|w: int| 0 <= w < k + 1 && all.take(k as int).push(keys@[k as int].0)[w] == x;
                            if w < k {
                                assert(all.take(k as int)[w] == x);
                            }
                        }
                        if all.take(k as int).contains(x) {
                            let w = choose|w: int| 0 <= w < k && all.take(k as int)[w] == x;
                            assert(all.take(k as int).push(keys@[k as int].0)[w] == x);
                        }
                        if x == keys@[k as int].0 {
                            assert(all.take(k as int).push(keys@[k as int].0)[k as int] == x);
                        }
                    }
                }
            }
            k = k + 1;
        }
        proof {
            assert(all.take(keys@.len() as int) =~= all);
        }
    }
}

/// Attribute bits of a property.
#[derive(Clone, Copy, PartialEq, Eq, Structural, Debug)]
pub struct PropFlags(pub u8);

impl PropFlags {
    pub fn writable() -> (r: PropFlags)
        ensures
            r == PropFlags(1),
    {
        PropFlags(1)
    }

    pub fn enumerable() -> (r: PropFlags)
        ensures
            r == PropFlags(2),
    {
        PropFlags(2)
    }

    pub fn configurable() -> (r: PropFlags)
        ensures
            r == PropFlags(4),
    {
        PropFlags(4)
    }
}

/// The layout of an object: which property lives in which value slot, and
/// the attributes of each property. Both are association lists with
/// distinct keys.
#[derive(Debug)]
pub struct Shape {
    props: Vec<(Atom, usize)>,
    flags: Vec<(Atom, PropFlags)>,
}

/// The keys of an association list are distinct.
pub open spec fn keys_distinct<V>(s: Seq<(Atom, V)>) -> bool {
    forall|i: int, j: int|
        0 <= i < s.len() && 0 <= j < s.len() && i != j ==> (#[trigger] s[i]).0 != (#[trigger] s[j]).0
}

/// The map that an association list with distinct keys denotes.
pub open spec fn assoc_map<V>(s: Seq<(Atom, V)>) -> Map<Atom, V>
    decreases s.len(),
{
    if s.len() == 0 {
        Map::empty()
    } else {
        assoc_map(s.drop_last()).insert(s.last().0, s.last().1)
    }
}

pub proof fn lemma_assoc_map<V>(s: Seq<(Atom, V)>)
    requires
        keys_distinct(s),
    ensures
        forall|a: Atom|
            #[trigger] assoc_map(s).contains_key(a) <==> exists|i: int|
                0 <= i < s.len() && (#[trigger] s[i]).0 == a,
        forall|i: int| 0 <= i < s.len() ==> #[trigger] assoc_map(s)[s[i].0] == s[i].1,
        assoc_map(s).dom().finite(),
        assoc_map(s).dom().len() == s.len(),
    decreases s.len(),
{
    if s.len() > 0 {
        let t = s.drop_last();
        assert(keys_distinct(t)) by {
            assert forall|i: int, j: int|
                0 <= i < t.len() && 0 <= j < t.len() && i != j implies (#[trigger] t[i]).0 != (
            #[trigger] t[j]).0 by {
                assert(t[i] == s[i] && t[j] == s[j]);
            }
        }
        lemma_assoc_map(t);
        assert forall|a: Atom|
            #[trigger] assoc_map(s).contains_key(a) <==> exists|i: int|
                0 <= i < s.len() && (#[trigger] s[i]).0 == a by {
            if assoc_map(s).contains_key(a) {
                if a == s.last().0 {
                    assert(s[s.len() - 1].0 == a);
                } else {
                    let i = choose|i: int| 0 <= i < t.len() && (#[trigger] t[i]).0 == a;
                    assert(s[i] == t[i]);
                }
            }
            if exists|i: int| 0 <= i < s.len() && (#[trigger] s[i]).0 == a {
                let i = choose|i: int| 0 <= i < s.len() && (#[trigger] s[i]).0 == a;
                if i < s.len() - 1 {
                    assert(t[i] == s[i]);
                }
            }
        }
        assert forall|i: int| 0 <= i < s.len() implies #[trigger] assoc_map(s)[s[i].0] == s[i].1 by {
            if i < s.len() - 1 {
                assert(t[i] == s[i]);
                assert(s[i].0 != s[s.len() - 1].0);
            }
        }
        assert(!assoc_map(t).contains_key(s.last().0)) by {
            if assoc_map(t).contains_key(s.last().0) {
                let i = choose|i: int| 0 <= i < t.len() && (#[trigger] t[i]).0 == s.last().0;
                assert(t[i] == s[i]);
            }
        }
    }
}

/// Finds the value that an association list gives a key.
fn assoc_get<V: Copy>(s: &Vec<(Atom, V)>, key: Atom) -> (r: Option<V>)
    requires
        keys_distinct(s@),
    ensures
        r == if assoc_map(s@).contains_key(key) {
            Some(assoc_map(s@)[key])
        } else {
            None
        },
{
    proof {
        lemma_assoc_map(s@);
    }
    let mut i: usize = 0;
    while i < s.len()
        invariant
            i <= s@.len(),
            keys_distinct(s@),
            forall|j: int| 0 <= j < i ==> (#[trigger] s@[j]).0 != key,
        decreases s@.len() - i,
    {
        if s[i].0 == key {
            proof {
                lemma_assoc_map(s@);
                assert(assoc_map(s@)[s@[i as int].0] == s@[i as int].1);
            }
            return Some(s[i].1);
        }
        i = i + 1;
    }
    None
}

/// Binds `key` to `value` in an association list, replacing an existing
/// binding in place or appending a new one.
fn assoc_insert<V: Copy>(s: &mut Vec<(Atom, V)>, key: Atom, value: V)
    requires
        keys_distinct(old(s)@),
    ensures
        keys_distinct(final(s)@),
        assoc_map(final(s)@) == assoc_map(old(s)@).insert(key, value),
        final(s)@.len() == if assoc_map(old(s)@).contains_key(key) {
            old(s)@.len()
        } else {
            old(s)@.len() + 1
        },
{
    proof {
        lemma_assoc_map(s@);
    }
    let mut i: usize = 0;
    while i < s.len()
        invariant
            i <= s@.len(),
            s@ == old(s)@,
            keys_distinct(old(s)@),
            forall|j: int| 0 <= j < i ==> (#[trigger] s@[j]).0 != key,
        decreases s@.len() - i,
    {
        if s[i].0 == key {
            proof {
                assert(old(s)@[i as int].0 == key);
                lemma_assoc_map(old(s)@);
            }
            s.set(i, (key, value));
            proof {
                assert(keys_distinct(s@)) by {
                    assert forall|a: int, b: int|
                        0 <= a < s@.len() && 0 <= b < s@.len() && a != b implies (#[trigger] s@[a]).0
                            != (#[trigger] s@[b]).0 by {
                        assert(s@[a].0 == old(s)@[a].0 && s@[b].0 == old(s)@[b].0);
                    }
                }
                lemma_assoc_map(s@);
                assert(assoc_map(s@) =~= assoc_map(old(s)@).insert(key, value)) by {
                    assert forall|a: Atom| #[trigger] assoc_map(s@).contains_key(a)
                        <==> assoc_map(old(s)@).insert(key, value).contains_key(a) by {
                        if assoc_map(s@).contains_key(a) {
                            let j = choose|j: int| 0 <= j < s@.len() && (#[trigger] s@[j]).0 == a;
                            assert(old(s)@[j].0 == a);
                        }
                        if assoc_map(old(s)@).contains_key(a) {
                            let j = choose|j: int| 0 <= j < old(s)@.len() && (#[trigger] old(s)@[j]).0 == a;
                            assert(s@[j].0 == a);
                        }
                    }
                    assert forall|a: Atom| #[trigger] assoc_map(s@).contains_key(a) implies assoc_map(s@)[a]
                        == assoc_map(old(s)@).insert(key, value)[a] by {
                        let j = choose|j: int| 0 <= j < s@.len() && (#[trigger] s@[j]).0 == a;
                        assert(assoc_map(s@)[s@[j].0] == s@[j].1);
                        if a != key {
                            assert(s@[j] == old(s)@[j]);
                            assert(assoc_map(old(s)@)[old(s)@[j].0] == old(s)@[j].1);
                        }
                    }
                }
            }
            return;
        }
        i = i + 1;
    }
    s.push((key, value));
    proof {
        assert(s@.drop_last() =~= old(s)@);
        assert(keys_distinct(s@)) by {
            assert forall|a: int, b: int|
                0 <= a < s@.len() && 0 <= b < s@.len() && a != b implies (#[trigger] s@[a]).0 != (
            #[trigger] s@[b]).0 by {
                if a < old(s)@.len() && b < old(s)@.len() {
                    assert(s@[a] == old(s)@[a] && s@[b] == old(s)@[b]);
                }
            }
        }
        assert(!assoc_map(old(s)@).contains_key(key)) by {
            if assoc_map(old(s)@).contains_key(key) {
                let j = choose|j: int| 0 <= j < old(s)@.len() && (#[trigger] old(s)@[j]).0 == key;
            }
        }
    }
}

/// An element-by-element copy of an association list.
fn copy_assoc<V: Copy>(s: &Vec<(Atom, V)>) -> (r: Vec<(Atom, V)>)
    ensures
        r@ == s@,
{
    let mut r: Vec<(Atom, V)> = Vec::new();
    let mut i: usize = 0;
    while i < s.len()
        invariant
            i <= s@.len(),
            r@ == s@.take(i as int),
        decreases s@.len() - i,
    {
        r.push(s[i]);
        proof {
            assert(s@.take(i + 1) =~= s@.take(i as int).push(s@[i as int]));
        }
        i = i + 1;
    }
    proof {
        assert(s@.take(s@.len() as int) =~= s@);
    }
    r
}

/// The entries are in increasing order of atom number.
pub open spec fn sorted_by_atom(s: Seq<(Atom, usize)>) -> bool {
    forall|i: int, j: int| 0 <= i < j < s.len() ==> (#[trigger] s[i]).0.0 < (#[trigger] s[j]).0.0
}

/// Inserts `x` into entries sorted by atom number, before the first entry
/// with a larger number.
fn insert_by_atom(r: &mut Vec<(Atom, usize)>, x: (Atom, usize))
    requires
        sorted_by_atom(old(r)@),
        forall|i: int| 0 <= i < old(r)@.len() ==> (#[trigger] old(r)@[i]).0 != x.0,
    ensures
        sorted_by_atom(final(r)@),
        final(r)@.len() == old(r)@.len() + 1,
        forall|e: (Atom, usize)| #[trigger] final(r)@.contains(e) <==> old(r)@.contains(e) || e == x,
{
    let mut p: usize = 0;
    while p < r.len() && r[p].0.0 < x.0.0
        invariant
            p <= r@.len(),
            forall|i: int| 0 <= i < p ==> (#[trigger] r@[i]).0.0 < x.0.0,
        decreases r@.len() - p,
    {
        p = p + 1;
    }
    proof {
        if p < r@.len() {
            assert(r@[p as int].0 != x.0);
        }
    }
    let ghost before = r@;
    r.insert(p, x);
    proof {
        assert forall|i: int| 0 <= i < r@.len() implies #[trigger] r@[i] == if i < p {
            before[i]
        } else if i == p {
            x
        } else {
            before[i - 1]
        } by {}
        assert forall|i: int, j: int| 0 <= i < j < r@.len() implies (#[trigger] r@[i]).0.0 < (
        #[trigger] r@[j]).0.0 by {
            if i < p && j > p {
                assert(before[i].0.0 < x.0.0);
                assert(before[p as int].0.0 > x.0.0);
                if j - 1 > p {
                    assert(before[p as int].0.0 < before[j - 1].0.0);
                }
            } else if i == p && j > p {
                if j - 1 > p {
                    assert(before[p as int].0.0 < before[j - 1].0.0);
                }
            }
        }
        assert forall|e: (Atom, usize)| before.contains(e) || e == x implies #[trigger] r@.contains(e) by {
            if before.contains(e) {
                let i = choose|i: int| 0 <= i < before.len() && before[i] == e;
                if i < p {
                    assert(r@[i] == e);
                } else {
                    assert(r@[i + 1] == e);
                }
            } else {
                assert(r@[p as int] == e);
            }
        }
        assert forall|e: (Atom, usize)| #[trigger] r@.contains(e) implies before.contains(e) || e == x by {
            let i = choose|i: int| 0 <= i < r@.len() && r@[i] == e;
            if i < p {
                assert(before[i] == e);
            } else if i > p {
                assert(before[i - 1] == e);
            }
        }
    }
}

impl Shape {
    /// Property keys are distinct, and so are attribute keys.
    #[verifier::type_invariant]
    pub closed spec fn wf(&self) -> bool {
        keys_distinct(self.props@) && keys_distinct(self.flags@)
    }

    /// Property slots.
    pub closed spec fn slots(&self) -> Map<Atom, usize> {
        assoc_map(self.props@)
    }

    /// Property attributes.
    pub closed spec fn attrs(&self) -> Map<Atom, PropFlags> {
        assoc_map(self.flags@)
    }

    /// Keys of the properties and of the attributes, in table order.
    pub closed spec fn key_ids(&self) -> Set<u32> {
        self.props@.map_values(|p: (Atom, usize)| p.0.0).to_set() + self.flags@.map_values(
            |p: (Atom, PropFlags)| p.0.0,
        ).to_set()
    }

    pub fn new() -> (r: Self)
        ensures
            r.wf(),
            r.slots() == Map::<Atom, usize>::empty(),
            r.attrs() == Map::<Atom, PropFlags>::empty(),
    {
        Shape { props: Vec::new(), flags: Vec::new() }
    }

    /// The slot of a property.
    pub fn get(&self, atom: Atom) -> (r: Option<usize>)
        requires
            self.wf(),
        ensures
            r == if self.slots().contains_key(atom) {
                Some(self.slots()[atom])
            } else {
                None
            },
    {
        assoc_get(&self.props, atom)
    }

    /// Number of properties.
    pub fn len(&self) -> (r: usize)
        requires
            self.wf(),
        ensures
            r == self.slots().dom().len(),
    {
        proof {
            lemma_assoc_map(self.props@);
        }
        self.props.len()
    }

    /// A copy of the shape.
    pub fn duplicate(&self) -> (r: Self)
        requires
            self.wf(),
        ensures
            r.wf(),
            r.slots() == self.slots(),
            r.attrs() == self.attrs(),
            r.key_ids() == self.key_ids(),
    {
        Shape { props: copy_assoc(&self.props), flags: copy_assoc(&self.flags) }
    }

    /// The property entries, ordered by atom number.
    pub fn sorted_props(&self) -> (r: Vec<(Atom, usize)>)
        requires
            self.wf(),
        ensures
            r@.len() == self.slots().dom().len(),
            sorted_by_atom(r@),
            forall|i: int|
                0 <= i < r@.len() ==> self.slots().contains_key((#[trigger] r@[i]).0)
                    && self.slots()[r@[i].0] == r@[i].1,
            forall|a: Atom|
                #[trigger] self.slots().contains_key(a) ==> exists|i: int|
                    0 <= i < r@.len() && (#[trigger] r@[i]).0 == a,
    {
        let props = &self.props;
        let mut r: Vec<(Atom, usize)> = Vec::new();
        let mut k: usize = 0;
        while k < props.len()
            invariant
                k <= props@.len(),
                keys_distinct(props@),
                r@.len() == k,
                sorted_by_atom(r@),
                forall|e: (Atom, usize)| #[trigger] r@.contains(e) <==> props@.take(k as int).contains(e),
            decreases props@.len() - k,
        {
            proof {
                assert forall|i: int| 0 <= i < r@.len() implies (#[trigger] r@[i]).0 != props@[k as int].0 by {
                    assert(r@.contains(r@[i]));
                    let j = choose|j: int| 0 <= j < k && props@.take(k as int)[j] == r@[i];
                    assert(props@[j] == r@[i]);
                }
            }
            insert_by_atom(&mut r, props[k]);
            proof {
                let t1 = props@.take(k + 1);
                let t0 = props@.take(k as int);
                assert forall|e: (Atom, usize)| #[trigger] r@.contains(e) <==> t1.contains(e) by {
                    if t1.contains(e) {
                        let j = choose|j: int| 0 <= j < t1.len() && t1[j] == e;
                        if j < k {
                            assert(t0[j] == e);
                        }
                    }
                    if t0.contains(e) {
                        let j = choose|j: int| 0 <= j < t0.len() && t0[j] == e;
                        assert(t1[j] == e);
                    }
                    if e == props@[k as int] {
                        assert(t1[k as int] == e);
                    }
                }
            }
            k = k + 1;
        }
        proof {
            lemma_assoc_map(props@);
            assert(props@.take(k as int) =~= props@);
            assert forall|i: int| 0 <= i < r@.len() implies self.slots().contains_key((#[trigger] r@[i]).0)
                && self.slots()[r@[i].0] == r@[i].1 by {
                assert(r@.contains(r@[i]));
                let j = choose|j: int| 0 <= j < props@.len() && props@[j] == r@[i];
                assert(props@[j].0 == r@[i].0);
            }
            assert forall|a: Atom| #[trigger] self.slots().contains_key(a) implies exists|i: int|
                0 <= i < r@.len() && (#[trigger] r@[i]).0 == a by {
                let j = choose|j: int| 0 <= j < props@.len() && (#[trigger] props@[j]).0 == a;
                assert(props@.contains(props@[j]));
                assert(r@.contains(props@[j]));
                let i = choose|i: int| 0 <= i < r@.len() && r@[i] == props@[j];
                assert(r@[i].0 == a);
            }
        }
        r
    }

    /// The shape after adding `atom`: the property gets the slot numbered by
    /// the current property count and the writable attribute.
    pub fn transition(&self, atom: Atom) -> (r: Self)
        requires
            self.wf(),
        ensures
            r.wf(),
            r.slots() == self.slots().insert(atom, self.slots().dom().len() as usize),
            r.attrs() == self.attrs().insert(atom, PropFlags(1)),
    {
        let mut props = copy_assoc(&self.props);
        let mut flags = copy_assoc(&self.flags);
        let idx = props.len();
        proof {
            lemma_assoc_map(self.props@);
        }
        assoc_insert(&mut props, atom, idx);
        assoc_insert(&mut flags, atom, PropFlags::writable());
        Shape { props, flags }
    }

    /// Marks the atoms of every property and attribute key.
    pub(crate) fn trace_atoms(&self, atoms: &mut AtomTable)
        requires
            old(atoms).wf(),
        ensures
            final(atoms).wf(),
            final(atoms)@.len() == old(atoms)@.len(),
            forall|i: int|
                0 <= i < old(atoms)@.len() ==> #[trigger] final(atoms)@[i] == if old(atoms)@[i] is Some
                    && self.key_ids().contains(i as u32) {
                    Some(EntryView { text: old(atoms)@[i]->Some_0.text, marked: true })
                } else {
                    old(atoms)@[i]
                },
    {
        let mut keys: Vec<Atom> = Vec::new();
        let mut i: usize = 0;
        while i < self.props.len()
            invariant
                i <= self.props@.len(),
                keys@ == self.props@.take(i as int).map_values(|p: (Atom, usize)| p.0),
            decreases self.props@.len() - i,
        {
            keys.push(self.props[i].0);
            proof {
                assert(self.props@.take(i + 1).map_values(|p: (Atom, usize)| p.0) =~= self.props@.take(
                    i as int,
                ).map_values(|p: (Atom, usize)| p.0).push(self.props@[i as int].0));
            }
            i = i + 1;
        }
        let ghost n = keys@.len();
        let mut j: usize = 0;
        while j < self.flags.len()
            invariant
                j <= self.flags@.len(),
                keys@ == self.props@.map_values(|p: (Atom, usize)| p.0) + self.flags@.take(
                    j as int,
                ).map_values(|p: (Atom, PropFlags)| p.0),
            decreases self.flags@.len() - j,
        {
            proof {
                assert(self.props@.take(self.props@.len() as int) =~= self.props@);
            }
            keys.push(self.flags[j].0);
            proof {
                assert(self.flags@.take(j + 1).map_values(|p: (Atom, PropFlags)| p.0) =~= self.flags@.take(
                    j as int,
                ).map_values(|p: (Atom, PropFlags)| p.0).push(self.flags@[j as int].0));
            }
            j = j + 1;
        }
        proof {
            assert(self.flags@.take(self.flags@.len() as int) =~= self.flags@);
            assert(keys@.map_values(|a: Atom| a.0).to_set() =~= self.key_ids()) by {
                let ks = keys@.map_values(|a: Atom| a.0);
                let pa = self.props@.map_values(|p: (Atom, usize)| p.0.0);
                let fa = self.flags@.map_values(|p: (Atom, PropFlags)| p.0.0);
                assert(ks =~= pa + fa);
                assert forall|x: u32| #[trigger] ks.to_set().contains(x) <==> (pa.to_set() + fa.to_set()).contains(x) by {
                    if ks.contains(x) {
                        let w = choose|w: int| 0 <= w < ks.len() && ks[w] == x;
                        if w < pa.len() {
                            assert(pa[w] == x);
                        } else {
                            assert(fa[w - pa.len()] == x);
                        }
                    }
                    if pa.contains(x) {
                        let w = choose|w: int| 0 <= w < pa.len() && pa[w] == x;
                        assert(ks[w] == x);
                    }
                    if fa.contains(x) {
                        let w = choose|w: int| 0 <= w < fa.len() && fa[w] == x;
                        assert(ks[pa.len() + w] == x);
                    }
                }
            }
        }
        atoms.mark_all(&keys);
    }
}


impl Shape {
    /// A shape knows finitely many properties.
    pub proof fn lemma_slots_finite(&self)
        requires
            self.wf(),
        ensures
            self.slots().dom().finite(),
    {
        lemma_assoc_map(self.props@);
    }
}

/// Interning a text gives an atom that resolves back to that text.
pub proof fn law_resolve_after_intern(
    before: Seq<Option<EntryView>>,
    s: Seq<char>,
    after: Seq<Option<EntryView>>,
    r: Atom,
)
    requires
        intern_post(before, s, after, r),
    ensures
        is_live(after, r),
        text_of(after, r) == s,
{
}

/// Interning the same text twice gives the same atom and leaves the table
/// as the first call left it.
pub proof fn law_intern_idempotent(
    before: Seq<Option<EntryView>>,
    s: Seq<char>,
    mid: Seq<Option<EntryView>>,
    r1: Atom,
    after: Seq<Option<EntryView>>,
    r2: Atom,
)
    requires
        texts_unique(mid),
        intern_post(before, s, mid, r1),
        intern_post(mid, s, after, r2),
    ensures
        r2 == r1,
        after == mid,
{
    assert(contains_text(mid, s)) by {
        assert(is_live(mid, r1) && text_of(mid, r1) == s);
    }
    if r2 != r1 {
        assert(mid[r1.0 as int]->Some_0.text == mid[r2.0 as int]->Some_0.text);
    }
}

/// Distinct texts get distinct atoms, and interning a second text keeps the
/// first atom resolving to its own text.
pub proof fn law_intern_distinct(
    before: Seq<Option<EntryView>>,
    s1: Seq<char>,
    mid: Seq<Option<EntryView>>,
    a1: Atom,
    s2: Seq<char>,
    after: Seq<Option<EntryView>>,
    a2: Atom,
)
    requires
        intern_post(before, s1, mid, a1),
        intern_post(mid, s2, after, a2),
        s1 != s2,
    ensures
        a1 != a2,
        is_live(after, a1),
        text_of(after, a1) == s1,
{
    if !contains_text(mid, s2) {
        assert(after[a1.0 as int] == mid[a1.0 as int]);
    }
}

/// A marked atom survives a sweep with its text, unmarked; an unmarked atom
/// is freed by it.
pub proof fn law_sweep_keeps_marked(
    before: Seq<Option<EntryView>>,
    after: Seq<Option<EntryView>>,
    a: Atom,
)
    requires
        sweep_post(before, after),
        is_live(before, a),
    ensures
        is_marked(before, a) ==> is_live(after, a) && text_of(after, a) == text_of(before, a)
            && !is_marked(after, a),
        !is_marked(before, a) ==> !is_live(after, a),
{
    assert(after[a.0 as int] == match before[a.0 as int] {
        Some(e) => if e.marked {
            Some(EntryView { text: e.text, marked: false })
        } else {
            None
        },
        None => None,
    });
}

proof fn lemma_intern_count_prefix(
    before: Seq<Option<EntryView>>,
    s: Seq<char>,
    after: Seq<Option<EntryView>>,
    r: Atom,
    k: int,
)
    requires
        intern_post(before, s, after, r),
        !contains_text(before, s),
        0 <= k <= after.len(),
    ensures
        live_count_prefix(after, k) == live_count_prefix(before, if k < before.len() {
            k
        } else {
            before.len() as int
        }) + if (r.0 as int) < k {
            1nat
        } else {
            0nat
        },
    decreases k,
{
    if k > 0 {
        lemma_intern_count_prefix(before, s, after, r, k - 1);
        if k - 1 != r.0 as int {
            assert(after[k - 1] == (if k - 1 < before.len() {
                before[k - 1]
            } else {
                None::<EntryView>
            }));
        } else if k - 1 < before.len() {
            assert(!is_live(before, r));
        }
    }
}

/// Interning raises the number of live atoms by one when no live atom had
/// the text, and leaves it unchanged otherwise.
pub proof fn law_intern_count(
    before: Seq<Option<EntryView>>,
    s: Seq<char>,
    after: Seq<Option<EntryView>>,
    r: Atom,
)
    requires
        intern_post(before, s, after, r),
    ensures
        live_count(after) == live_count(before) + if contains_text(before, s) {
            0nat
        } else {
            1nat
        },
{
    if !contains_text(before, s) {
        lemma_intern_count_prefix(before, s, after, r, after.len() as int);
    }
}

/// Interning any text keeps every live atom live with its text.
pub proof fn law_intern_keeps_live(
    before: Seq<Option<EntryView>>,
    s: Seq<char>,
    after: Seq<Option<EntryView>>,
    r: Atom,
    a: Atom,
)
    requires
        intern_post(before, s, after, r),
        is_live(before, a),
    ensures
        is_live(after, a),
        text_of(after, a) == text_of(before, a),
{
    if !contains_text(before, s) {
        assert(after[a.0 as int] == before[a.0 as int]);
    }
}

/// An atom that is marked before a sweep keeps its text through it;
/// marking other atoms in between changes nothing of it.
pub proof fn law_marked_atom_survives_sweep(
    before: Seq<Option<EntryView>>,
    a: Atom,
    marked: Seq<Option<EntryView>>,
    after: Seq<Option<EntryView>>,
)
    requires
        is_live(before, a),
        marked.len() == before.len(),
        is_marked(marked, a),
        text_of(marked, a) == text_of(before, a),
        sweep_post(marked, after),
    ensures
        is_live(after, a),
        text_of(after, a) == text_of(before, a),
{
    law_sweep_keeps_marked(marked, after, a);
}

/// Marking `b` keeps every live atom live with its text, and `b` marked
/// when it is live.
pub proof fn law_mark_keeps_text(before: Seq<Option<EntryView>>, b: Atom, after: Seq<Option<EntryView>>, a: Atom)
    requires
        after == if is_live(before, b) {
            before.update(b.0 as int, Some(EntryView { text: text_of(before, b), marked: true }))
        } else {
            before
        },
        is_live(before, a),
    ensures
        is_live(after, a),
        text_of(after, a) == text_of(before, a),
        is_marked(after, a) == (a == b || is_marked(before, a)),
{
}

/// Number of live, marked slots among the first `n`.
pub open spec fn marked_count_prefix(t: Seq<Option<EntryView>>, n: int) -> nat
    decreases n,
{
    if n <= 0 {
        0
    } else {
        marked_count_prefix(t, n - 1) + if t[n - 1] matches Some(e) && e.marked {
            1nat
        } else {
            0nat
        }
    }
}

/// Number of live, marked atoms.
pub open spec fn marked_count(t: Seq<Option<EntryView>>) -> nat {
    marked_count_prefix(t, t.len() as int)
}

proof fn lemma_sweep_count_prefix(before: Seq<Option<EntryView>>, after: Seq<Option<EntryView>>, k: int)
    requires
        sweep_post(before, after),
        0 <= k <= before.len(),
    ensures
        live_count_prefix(after, k) == marked_count_prefix(before, k),
        marked_count_prefix(after, k) == 0,
    decreases k,
{
    if k > 0 {
        lemma_sweep_count_prefix(before, after, k - 1);
        assert(after[k - 1] == match before[k - 1] {
            Some(e) => if e.marked {
                Some(EntryView { text: e.text, marked: false })
            } else {
                None
            },
            None => None,
        });
    }
}

/// After a sweep, the live atoms are exactly those that were marked, so
/// their number is the number of marked atoms, and none is marked.
pub proof fn law_sweep_count(before: Seq<Option<EntryView>>, after: Seq<Option<EntryView>>, a: Atom)
    requires
        sweep_post(before, after),
    ensures
        live_count(after) == marked_count(before),
        marked_count(after) == 0,
        is_live(after, a) == is_marked(before, a),
        !is_marked(after, a),
{
    lemma_sweep_count_prefix(before, after, before.len() as int);
    if (a.0 as int) < before.len() {
        assert(after[a.0 as int] == match before[a.0 as int] {
            Some(e) => if e.marked {
                Some(EntryView { text: e.text, marked: false })
            } else {
                None
            },
            None => None,
        });
    }
}

/// A sweep forgets the text of every unmarked atom: no live atom has it
/// afterwards, so interning it again makes a new atom.
pub proof fn law_sweep_forgets_unmarked_texts(
    before: Seq<Option<EntryView>>,
    after: Seq<Option<EntryView>>,
    a: Atom,
)
    requires
        texts_unique(before),
        sweep_post(before, after),
        is_live(before, a),
        !is_marked(before, a),
    ensures
        !contains_text(after, text_of(before, a)),
{
    if contains_text(after, text_of(before, a)) {
        let i = choose|i: int|
            0 <= i < after.len() && after[i] is Some && (#[trigger] after[i])->Some_0.text
                == text_of(before, a);
        assert(after[i] == match before[i] {
            Some(e) => if e.marked {
                Some(EntryView { text: e.text, marked: false })
            } else {
                None
            },
            None => None,
        });
        assert(before[i] is Some && before[i]->Some_0.marked);
        assert(i != a.0 as int);
        assert(before[i]->Some_0.text != before[a.0 as int]->Some_0.text);
    }
}

/// Two sweeps with no mark in between leave no live atom.
pub proof fn law_second_sweep_empties(
    before: Seq<Option<EntryView>>,
    mid: Seq<Option<EntryView>>,
    after: Seq<Option<EntryView>>,
)
    requires
        sweep_post(before, mid),
        sweep_post(mid, after),
    ensures
        live_count(after) == 0,
{
    law_sweep_count(before, mid, Atom(0));
    law_sweep_count(mid, after, Atom(0));
}

proof fn lemma_mark_count_prefix(before: Seq<Option<EntryView>>, b: Atom, after: Seq<Option<EntryView>>, k: int)
    requires
        after == if is_live(before, b) {
            before.update(b.0 as int, Some(EntryView { text: text_of(before, b), marked: true }))
        } else {
            before
        },
        0 <= k <= before.len(),
    ensures
        live_count_prefix(after, k) == live_count_prefix(before, k),
    decreases k,
{
    if k > 0 {
        lemma_mark_count_prefix(before, b, after, k - 1);
    }
}

/// Marking any atom, live or not, keeps the number of live atoms and the
/// text of every live atom; a marked live atom survives the next sweep.
pub proof fn law_mark_keeps_count(
    before: Seq<Option<EntryView>>,
    b: Atom,
    after: Seq<Option<EntryView>>,
    swept: Seq<Option<EntryView>>,
)
    requires
        after == if is_live(before, b) {
            before.update(b.0 as int, Some(EntryView { text: text_of(before, b), marked: true }))
        } else {
            before
        },
        sweep_post(after, swept),
    ensures
        live_count(after) == live_count(before),
        forall|a: Atom| is_live(before, a) ==> #[trigger] is_live(after, a) && text_of(after, a) == text_of(before, a),
        is_live(before, b) ==> is_live(swept, b) && text_of(swept, b) == text_of(before, b),
{
    lemma_mark_count_prefix(before, b, after, before.len() as int);
    if is_live(before, b) {
        law_sweep_keeps_marked(after, swept, b);
    }
}

/// An atom interned for `s`, marked, then swept, still resolves to `s`.
pub proof fn law_marked_intern_survives(
    t0: Seq<Option<EntryView>>,
    s: Seq<char>,
    t1: Seq<Option<EntryView>>,
    a: Atom,
    t2: Seq<Option<EntryView>>,
    t3: Seq<Option<EntryView>>,
)
    requires
        intern_post(t0, s, t1, a),
        t2 == t1.update(a.0 as int, Some(EntryView { text: text_of(t1, a), marked: true })),
        sweep_post(t2, t3),
    ensures
        is_live(t3, a),
        text_of(t3, a) == s,
{
    law_sweep_keeps_marked(t2, t3, a);
}

/// The texts of the live atoms after interning `s` are those before, and
/// `s`.
pub proof fn law_intern_contains(
    before: Seq<Option<EntryView>>,
    s: Seq<char>,
    after: Seq<Option<EntryView>>,
    r: Atom,
    x: Seq<char>,
)
    requires
        intern_post(before, s, after, r),
    ensures
        contains_text(after, x) == (contains_text(before, x) || x == s),
{
    if !contains_text(before, s) {
        if contains_text(after, x) {
            let i = choose|i: int| 0 <= i < after.len() && after[i] is Some && (#[trigger] after[i])->Some_0.text == x;
            if i != r.0 as int {
                assert(after[i] == (if i < before.len() {
                    before[i]
                } else {
                    None::<EntryView>
                }));
                assert(before[i] is Some && before[i]->Some_0.text == x);
            }
        }
        if contains_text(before, x) {
            let i = choose|i: int| 0 <= i < before.len() && before[i] is Some && (#[trigger] before[i])->Some_0.text == x;
            assert(i != r.0 as int);
            assert(after[i] == before[i]);
        }
        if x == s {
            assert(after[r.0 as int] is Some && after[r.0 as int]->Some_0.text == x);
        }
    } else {
        if x == s {
            let i = choose|i: int| 0 <= i < before.len() && before[i] is Some && (#[trigger] before[i])->Some_0.text == s;
            assert(after[i] == before[i]);
        }
    }
}

/// Interning the texts `texts` one after the other into an empty table,
/// the tables passing through `tables`, leaves as many live atoms as there
/// are distinct texts, and each atom handed out resolves to its text.
pub proof fn law_interns_count_distinct(
    texts: Seq<Seq<char>>,
    tables: Seq<Seq<Option<EntryView>>>,
    atoms: Seq<Atom>,
)
    requires
        tables.len() == texts.len() + 1,
        atoms.len() == texts.len(),
        tables[0] == Seq::<Option<EntryView>>::empty(),
        forall|i: int|
            0 <= i < texts.len() ==> intern_post(
                #[trigger] tables[i],
                texts[i],
                tables[i + 1],
                atoms[i],
            ),
    ensures
        live_count(tables.last()) == texts.to_set().len(),
        forall|x: Seq<char>| contains_text(tables.last(), x) == #[trigger] texts.contains(x),
{
    lemma_interns_count_prefix(texts, tables, atoms, texts.len() as int);
    assert(texts.take(texts.len() as int) =~= texts);
}

proof fn lemma_interns_count_prefix(
    texts: Seq<Seq<char>>,
    tables: Seq<Seq<Option<EntryView>>>,
    atoms: Seq<Atom>,
    k: int,
)
    requires
        tables.len() == texts.len() + 1,
        atoms.len() == texts.len(),
        tables[0] == Seq::<Option<EntryView>>::empty(),
        forall|i: int|
            0 <= i < texts.len() ==> intern_post(
                #[trigger] tables[i],
                texts[i],
                tables[i + 1],
                atoms[i],
            ),
        0 <= k <= texts.len(),
    ensures
        texts.take(k).to_set().finite(),
        live_count(tables[k]) == texts.take(k).to_set().len(),
        forall|x: Seq<char>| contains_text(tables[k], x) == #[trigger] texts.take(k).contains(x),
    decreases k,
{
    broadcast use vstd::seq_lib::seq_to_set_is_finite;
    if k == 0 {
        assert(texts.take(0).to_set() =~= Set::<Seq<char>>::empty());
        assert(live_count(tables[0]) == 0);
        assert forall|x: Seq<char>| contains_text(tables[k], x) == #[trigger] texts.take(k).contains(x) by {}
    } else {
        lemma_interns_count_prefix(texts, tables, atoms, k - 1);
        let prev = texts.take(k - 1);
        let cur = texts.take(k);
        assert(cur =~= prev.push(texts[k - 1]));
        assert(cur.to_set() =~= prev.to_set().insert(texts[k - 1])) by {
            assert forall|x: Seq<char>| cur.contains(x) == (prev.contains(x) || x == texts[k - 1]) by {
                if cur.contains(x) {
                    let j = choose|j: int| 0 <= j < cur.len() && cur[j] == x;
                    if j < k - 1 {
                        assert(prev[j] == x);
                    }
                }
                if prev.contains(x) {
                    let j = choose|j: int| 0 <= j < prev.len() && prev[j] == x;
                    assert(cur[j] == x);
                }
                if x == texts[k - 1] {
                    assert(cur[k - 1] == x);
                }
            }
        }
        assert(intern_post(tables[k - 1], texts[k - 1], tables[k], atoms[k - 1]));
        law_intern_count(tables[k - 1], texts[k - 1], tables[k], atoms[k - 1]);
        vstd::set::axiom_set_insert_len(prev.to_set(), texts[k - 1]);
        assert(contains_text(tables[k - 1], texts[k - 1]) == prev.contains(texts[k - 1]));
        assert(prev.to_set().contains(texts[k - 1]) == prev.contains(texts[k - 1]));
        assert forall|x: Seq<char>| contains_text(tables[k], x) == #[trigger] cur.contains(x) by {
            law_intern_contains(tables[k - 1], texts[k - 1], tables[k], atoms[k - 1], x);
            assert(contains_text(tables[k - 1], x) == prev.contains(x));
            assert(cur.to_set().contains(x) == cur.contains(x));
            assert(prev.to_set().contains(x) == prev.contains(x));
        }
    }
}

/// Marking the atoms `keys` in a table where nothing is marked, then
/// sweeping, keeps exactly the live atoms among `keys`, each with its text.
pub proof fn law_trace_then_sweep(
    before: Seq<Option<EntryView>>,
    keys: Set<u32>,
    marked: Seq<Option<EntryView>>,
    after: Seq<Option<EntryView>>,
    a: Atom,
)
    requires
        marked_count(before) == 0,
        marked_with(before, marked, keys),
        sweep_post(marked, after),
    ensures
        is_live(after, a) == (is_live(before, a) && keys.contains(a.0)),
        is_live(after, a) ==> text_of(after, a) == text_of(before, a),
{
    if (a.0 as int) < before.len() {
        if before[a.0 as int] is Some {
            lemma_none_marked(before, a.0 as int, before.len() as int);
        }
        assert(marked[a.0 as int] == if before[a.0 as int] is Some && keys.contains(a.0) {
            Some(EntryView { text: before[a.0 as int]->Some_0.text, marked: true })
        } else {
            before[a.0 as int]
        });
        law_sweep_count(marked, after, a);
        if before[a.0 as int] is Some {
            law_sweep_keeps_marked(marked, after, a);
        }
    } else {
        law_sweep_count(marked, after, a);
    }
}

proof fn lemma_none_marked(t: Seq<Option<EntryView>>, i: int, k: int)
    requires
        marked_count_prefix(t, k) == 0,
        0 <= i < k <= t.len(),
        t[i] is Some,
    ensures
        !t[i]->Some_0.marked,
    decreases k,
{
    if i < k - 1 {
        lemma_none_marked(t, i, k - 1);
    }
}

} // verus!

