//! A container of entities indexed by their unique identifier, kept in
//! insertion order so that every export is deterministic.

use vstd::prelude::*;

verus! {

/// An entity that carries an identifier unique within its collection.
pub trait Identified {
    spec fn key(&self) -> Seq<char>;

    fn id(&self) -> (r: &String)
        ensures
            r@ == self.key(),
    ;
}

/// The identifiers of `s`, in order.
pub open spec fn keys_of<T: Identified>(s: Seq<T>) -> Seq<Seq<char>> {
    s.map_values(|e: T| e.key())
}

/// Some entity of `s` has identifier `k`.
pub open spec fn has_key<T: Identified>(s: Seq<T>, k: Seq<char>) -> bool {
    exists|i: int| 0 <= i < s.len() && (#[trigger] s[i]).key() == k
}

/// No two entities of `s` share an identifier.
pub open spec fn keys_unique<T: Identified>(s: Seq<T>) -> bool {
    forall|i: int, j: int|
        0 <= i < s.len() && 0 <= j < s.len() && i != j ==> (#[trigger] s[i]).key() != (
        #[trigger] s[j]).key()
}

/// Why an insertion was refused: the identifier is already taken.
#[derive(Debug, Clone, PartialEq, Eq)]
pub struct DuplicateId {
    pub id: String,
}

pub struct Collection<T> {
    items: Vec<T>,
}

impl<T: Identified> Collection<T> {
    /// The entities, in insertion order.
    pub closed spec fn view(&self) -> Seq<T> {
        self.items@
    }

    pub open spec fn wf(&self) -> bool {
        keys_unique(self.view())
    }

    pub fn new() -> (r: Self)
        ensures
            r.wf(),
            r.view() == Seq::<T>::empty(),
    {
        Collection { items: Vec::new() }
    }

    pub fn len(&self) -> (r: usize)
        ensures
            r == self.view().len(),
    {
        self.items.len()
    }

    /// The entities, in insertion order.
    pub fn values(&self) -> (r: &Vec<T>)
        ensures
            r@ == self.view(),
    {
        &self.items
    }

    /// The entity at position `i` in insertion order.
    pub fn at(&self, i: usize) -> (r: &T)
        requires
            i < self.view().len(),
        ensures
            *r == self.view()[i as int],
    {
        &self.items[i]
    }

    /// The position of the entity with identifier `id`, if there is one.
    pub fn position(&self, id: &String) -> (r: Option<usize>)
        requires
            self.wf(),
        ensures
            r.is_none() <==> !has_key(self.view(), id@),
            r matches Some(i) ==> i < self.view().len() && self.view()[i as int].key() == id@,
    {
        let mut i: usize = 0;
        while i < self.items.len()
            invariant
                i <= self.items@.len(),
                self.items@ == self.view(),
                forall|j: int| 0 <= j < i ==> self.view()[j].key() != id@,
            decreases self.items@.len() - i,
        {
            let k = self.items[i].id();
            if *k == *id {
                return Some(i);
            }
            i = i + 1;
        }
        None
    }

    /// The entity with identifier `id`, if there is one.
    pub fn get(&self, id: &String) -> (r: Option<&T>)
        requires
            self.wf(),
        ensures
            r.is_none() <==> !has_key(self.view(), id@),
            r matches Some(e) ==> e.key() == id@ && self.view().contains(*e),
    {
        match self.position(id) {
            Some(i) => Some(&self.items[i]),
            None => None,
        }
    }

    pub fn contains_id(&self, id: &String) -> (r: bool)
        requires
            self.wf(),
        ensures
            r == has_key(self.view(), id@),
    {
        self.position(id).is_some()
    }

    /// Keeps the entities for which `keep` holds and drops the others.
    pub fn retain<F: Fn(&T) -> bool>(&mut self, keep: F)
        requires
            old(self).wf(),
            forall|e: &T| #[trigger] keep.requires((e,)),
        ensures
            final(self).wf(),
            forall|i: int|
                0 <= i < final(self).view().len() ==> old(self).view().contains(
                    #[trigger] final(self).view()[i],
                ) && keep.ensures((&final(self).view()[i],), true),
            forall|i: int|
                0 <= i < old(self).view().len() ==> final(self).view().contains(
                    #[trigger] old(self).view()[i],
                ) || keep.ensures((&old(self).view()[i],), false),
    {
        let mut rest: Vec<T> = Vec::new();
        std::mem::swap(&mut self.items, &mut rest);
        let ghost all = rest@;
        while rest.len() > 0
            invariant
                forall|e: &T| #[trigger] keep.requires((e,)),
                keys_unique(all),
                rest@.len() <= all.len(),
                rest@ == all.subrange(all.len() - rest@.len(), all.len() as int),
                forall|i: int|
                    0 <= i < self.items@.len() ==> all.subrange(0, all.len() - rest@.len()).contains(
                        #[trigger] self.items@[i],
                    ) && keep.ensures((&self.items@[i],), true),
                forall|i: int|
                    0 <= i < all.len() - rest@.len() ==> self.items@.contains(#[trigger] all[i])
                        || keep.ensures((&all[i],), false),
                keys_unique(self.items@),
            decreases rest@.len(),
        {
            let ghost done = all.len() - rest@.len();
            assert(rest@[0] == all[done]);
            let e = rest.remove(0);
            let ghost before = self.items@;
            if keep(&e) {
                self.items.push(e);
                proof {
                    let s = self.items@;
                    assert forall|i: int| 0 <= i < before.len() implies (#[trigger] before[i]).key() != all[done].key() by {
                        let j = choose|j: int| 0 <= j < done && all.subrange(0, done)[j] == before[i];
                        assert(all[j] == before[i]);
                    }
                    assert forall|i: int, j: int|
                        0 <= i < s.len() && 0 <= j < s.len() && i != j implies (
                        #[trigger] s[i]).key() != (#[trigger] s[j]).key() by {
                        if i < before.len() {
                            assert(s[i] == before[i]);
                        }
                        if j < before.len() {
                            assert(s[j] == before[j]);
                        }
                    }
                    assert forall|i: int| 0 <= i < s.len() implies all.subrange(0, done + 1).contains(
                        #[trigger] s[i],
                    ) && keep.ensures((&s[i],), true) by {
                        if i < before.len() {
                            assert(s[i] == before[i]);
                            let j = choose|j: int| 0 <= j < done && all.subrange(0, done)[j] == before[i];
                            assert(all.subrange(0, done + 1)[j] == s[i]);
                        } else {
                            assert(all.subrange(0, done + 1)[done] == s[i]);
                        }
                    }
                    assert forall|i: int| 0 <= i < done + 1 implies s.contains(#[trigger] all[i])
                        || keep.ensures((&all[i],), false) by {
                        if i < done && before.contains(all[i]) {
                            let j = choose|j: int| 0 <= j < before.len() && before[j] == all[i];
                            assert(s[j] == all[i]);
                        }
                        if i == done {
                            assert(s[s.len() - 1] == all[i]);
                        }
                    }
                }
            } else {
                proof {
                    assert forall|i: int| 0 <= i < before.len() implies all.subrange(0, done + 1).contains(
                        #[trigger] before[i],
                    ) by {
                        let j = choose|j: int| 0 <= j < done && all.subrange(0, done)[j] == before[i];
                        assert(all.subrange(0, done + 1)[j] == before[i]);
                    }
                }
            }
        }
        assert(all.subrange(0, all.len() as int) =~= all);
    }

    /// Appends `e`, unless its identifier is already taken.
    pub fn push(&mut self, e: T) -> (r: Result<(), DuplicateId>)
        requires
            old(self).wf(),
        ensures
            final(self).wf(),
            r is Err <==> has_key(old(self).view(), e.key()),
            r matches Err(d) ==> d.id@ == e.key() && final(self).view() == old(self).view(),
            r is Ok ==> final(self).view() == old(self).view().push(e),
    {
        let dup = self.position(e.id());
        match dup {
            Some(i) => {
                let id = self.items[i].id().clone();
                Err(DuplicateId { id })
            },
            None => {
                self.items.push(e);
                proof {
                    let s = self.items@;
                    assert forall|i: int, j: int|
                        0 <= i < s.len() && 0 <= j < s.len() && i != j implies (
                        #[trigger] s[i]).key() != (#[trigger] s[j]).key() by {
                        if i == s.len() - 1 {
                            assert(old(self).view()[j] == s[j]);
                        } else if j == s.len() - 1 {
                            assert(old(self).view()[i] == s[i]);
                        } else {
                            assert(old(self).view()[i] == s[i]);
                            assert(old(self).view()[j] == s[j]);
                        }
                    }
                }
                Ok(())
            },
        }
    }
}

} // verus!
