//! Header fields: an ordered mapping from names to values in which a name occurs
//! once, whatever its case.

use crate::bytes::{bytes_eq, lowercase, to_lowercase};
use vstd::prelude::*;

verus! {

/// What a header mapping holds: names with their values, in the order in which the
/// names first came.
pub type Entries = Seq<(Seq<u8>, Seq<u8>)>;

/// Whether two header names are the same name: they are compared without regard to
/// ASCII case.
pub open spec fn same_name(a: Seq<u8>, b: Seq<u8>) -> bool {
    lowercase(a) == lowercase(b)
}

/// Index of the first entry at or after `from` whose name is `name`, or the number
/// of entries if there is none.
pub open spec fn position_from(entries: Entries, name: Seq<u8>, from: int) -> int
    decreases entries.len() - from,
{
    if from < 0 || from >= entries.len() {
        entries.len() as int
    } else if same_name(entries[from].0, name) {
        from
    } else {
        position_from(entries, name, from + 1)
    }
}

/// Index of the entry whose name is `name`, or the number of entries if there is none.
pub open spec fn position(entries: Entries, name: Seq<u8>) -> int {
    position_from(entries, name, 0)
}

/// The value stored under `name`.
pub open spec fn lookup(entries: Entries, name: Seq<u8>) -> Option<Seq<u8>> {
    let p = position(entries, name);
    if p < entries.len() {
        Some(entries[p].1)
    } else {
        None
    }
}

/// The entries after `name` has been set to `value`: an entry of that name is
/// overwritten where it stands, a new name goes to the end.
pub open spec fn inserted(entries: Entries, name: Seq<u8>, value: Seq<u8>) -> Entries {
    let p = position(entries, name);
    if p < entries.len() {
        entries.update(p, (name, value))
    } else {
        entries.push((name, value))
    }
}

/// The entries without the one named `name`.
pub open spec fn removed(entries: Entries, name: Seq<u8>) -> Entries {
    let p = position(entries, name);
    if p < entries.len() {
        entries.remove(p)
    } else {
        entries
    }
}

/// No name occurs twice.
pub open spec fn distinct_names(entries: Entries) -> bool {
    forall|i: int, j: int|
        0 <= i < j < entries.len() ==> !same_name(
            (#[trigger] entries[i]).0,
            (#[trigger] entries[j]).0,
        )
}

/// Every name is in lower case.
pub open spec fn lowercase_names(entries: Entries) -> bool {
    forall|i: int| 0 <= i < entries.len() ==> lowercase((#[trigger] entries[i]).0) == entries[i].0
}

/// `position_from` returns the least matching index at or after `from`.
pub proof fn lemma_position_from(entries: Entries, name: Seq<u8>, from: int)
    requires
        0 <= from <= entries.len(),
    ensures
        from <= position_from(entries, name, from) <= entries.len(),
        position_from(entries, name, from) < entries.len() ==> same_name(
            entries[position_from(entries, name, from)].0,
            name,
        ),
        forall|j: int|
            from <= j < position_from(entries, name, from) ==> !same_name(
                (#[trigger] entries[j]).0,
                name,
            ),
    decreases entries.len() - from,
{
    if from < entries.len() && !same_name(entries[from].0, name) {
        lemma_position_from(entries, name, from + 1);
    }
}

/// An index with no match before it, and a match (or the end) at it, is what
/// `position_from` returns.
pub proof fn lemma_position_from_is(entries: Entries, name: Seq<u8>, from: int, i: int)
    requires
        0 <= from <= i <= entries.len(),
        forall|j: int| from <= j < i ==> !same_name((#[trigger] entries[j]).0, name),
        i < entries.len() ==> same_name(entries[i].0, name),
    ensures
        position_from(entries, name, from) == i,
    decreases i - from,
{
    if from < i {
        assert(!same_name(entries[from].0, name));
        lemma_position_from_is(entries, name, from + 1, i);
    }
}

/// Setting a name keeps the names distinct, and the name then stands for the value.
#[verifier::rlimit(40)]
pub proof fn lemma_inserted(entries: Entries, name: Seq<u8>, value: Seq<u8>)
    requires
        distinct_names(entries),
    ensures
        distinct_names(inserted(entries, name, value)),
        lookup(inserted(entries, name, value), name) == Some(value),
        lowercase_names(entries) && lowercase(name) == name ==> lowercase_names(
            inserted(entries, name, value),
        ),
{
    lemma_position_from(entries, name, 0);
    let p = position(entries, name);
    let after = inserted(entries, name, value);
    assert forall|i: int, j: int| 0 <= i < j < after.len() implies !same_name(
        (#[trigger] after[i]).0,
        (#[trigger] after[j]).0,
    ) by {
        if p < entries.len() {
            let ei = entries[i];
            let ej = entries[j];
            let ep = entries[p];
            assert(!same_name(ei.0, ej.0));
        } else {
            if j < entries.len() {
                let ei = entries[i];
                let ej = entries[j];
                assert(!same_name(ei.0, ej.0));
            } else {
                let ei = entries[i];
                assert(!same_name(ei.0, name));
            }
        }
    }
    assert forall|j: int| 0 <= j < p implies !same_name((#[trigger] after[j]).0, name) by {
        let ej = entries[j];
        assert(!same_name(ej.0, name));
    }
    lemma_position_from_is(after, name, 0, p);
    if lowercase_names(entries) && lowercase(name) == name {
        assert forall|i: int| 0 <= i < after.len() implies lowercase((#[trigger] after[i]).0)
            == after[i].0 by {
            if i != p {
                let ei = entries[i];
                assert(lowercase(ei.0) == ei.0);
            }
        }
    }
}

/// Removing a name leaves every other name as it was.
pub proof fn lemma_removed_other(entries: Entries, name: Seq<u8>, other: Seq<u8>)
    requires
        !same_name(name, other),
    ensures
        lookup(removed(entries, name), other) == lookup(entries, other),
{
    lemma_position_from(entries, name, 0);
    lemma_position_from(entries, other, 0);
    let p = position(entries, name);
    let q = position(entries, other);
    let after = removed(entries, name);
    if p < entries.len() {
        assert(p != q);
        let shifted = if q < p {
            q
        } else {
            q - 1
        };
        assert forall|j: int| 0 <= j < shifted implies !same_name(
            (#[trigger] after[j]).0,
            other,
        ) by {
            let a = if j < p {
                j
            } else {
                j + 1
            };
            let ea = entries[a];
            assert(!same_name(ea.0, other));
        }
        lemma_position_from_is(after, other, 0, shifted);
    }
}

/// A name is looked up without regard to its case.
pub proof fn lemma_lookup_any_case(entries: Entries, name: Seq<u8>, other: Seq<u8>)
    requires
        same_name(name, other),
    ensures
        lookup(entries, name) == lookup(entries, other),
{
    lemma_position_from(entries, name, 0);
    let p = position(entries, name);
    assert forall|j: int| 0 <= j < p implies !same_name((#[trigger] entries[j]).0, other) by {
        let ej = entries[j];
        assert(!same_name(ej.0, name));
    }
    lemma_position_from_is(entries, other, 0, p);
}

/// A name that has been set stands for its value, whatever stood there before.
pub proof fn lemma_inserted_lookup(entries: Entries, name: Seq<u8>, value: Seq<u8>)
    ensures
        lookup(inserted(entries, name, value), name) == Some(value),
{
    lemma_position_from(entries, name, 0);
    let p = position(entries, name);
    let after = inserted(entries, name, value);
    assert forall|j: int| 0 <= j < p implies !same_name((#[trigger] after[j]).0, name) by {
        let ej = entries[j];
        assert(!same_name(ej.0, name));
    }
    lemma_position_from_is(after, name, 0, p);
}

/// Removing a name keeps the names distinct, and the name is then absent.
#[verifier::rlimit(40)]
pub proof fn lemma_removed(entries: Entries, name: Seq<u8>)
    requires
        distinct_names(entries),
    ensures
        distinct_names(removed(entries, name)),
        lookup(removed(entries, name), name) is None,
        lowercase_names(entries) ==> lowercase_names(removed(entries, name)),
{
    lemma_position_from(entries, name, 0);
    let p = position(entries, name);
    let after = removed(entries, name);
    if p < entries.len() {
        assert forall|i: int, j: int| 0 <= i < j < after.len() implies !same_name(
            (#[trigger] after[i]).0,
            (#[trigger] after[j]).0,
        ) by {
            let a = if i < p { i } else { i + 1 };
            let b = if j < p { j } else { j + 1 };
            let ea = entries[a];
            let eb = entries[b];
            assert(!same_name(ea.0, eb.0));
        }
        assert forall|j: int| 0 <= j < after.len() implies !same_name(
            (#[trigger] after[j]).0,
            name,
        ) by {
            if j < p {
                let ej = entries[j];
                assert(!same_name(ej.0, name));
            } else {
                let ej = entries[j + 1];
                let ep = entries[p];
                assert(!same_name(ep.0, ej.0));
            }
        }
        if lowercase_names(entries) {
            assert forall|i: int| 0 <= i < after.len() implies lowercase((#[trigger] after[i]).0)
                == after[i].0 by {
                let a = if i < p { i } else { i + 1 };
                let ea = entries[a];
                assert(lowercase(ea.0) == ea.0);
            }
        }
    }
    lemma_position_from_is(after, name, 0, after.len() as int);
}

/// One header field.
#[derive(Clone, Debug, PartialEq, Eq)]
pub struct Header {
    /// The field's name.
    pub name: Vec<u8>,
    /// The field's value.
    pub value: Vec<u8>,
}

/// An ordered mapping from header names to values. Names are compared without
/// regard to ASCII case, and a name occurs once: setting it again overwrites.
#[derive(Clone, Debug, PartialEq, Eq)]
pub struct Headers {
    entries: Vec<Header>,
}

impl View for Headers {
    type V = Entries;

    closed spec fn view(&self) -> Entries {
        Seq::new(self.entries@.len(), |i: int| (self.entries@[i].name@, self.entries@[i].value@))
    }
}

impl Headers {
    /// The invariant of the mapping: no name occurs twice.
    pub open spec fn wf(&self) -> bool {
        distinct_names(self@)
    }

    /// A mapping without entries.
    pub fn new() -> (h: Headers)
        ensures
            h@ == Entries::empty(),
            h.wf(),
    {
        let h = Headers { entries: Vec::new() };
        assert(h@ =~= Entries::empty());
        h
    }

    /// The number of entries.
    pub fn len(&self) -> (n: usize)
        ensures
            n == self@.len(),
    {
        self.entries.len()
    }

    /// The name of the entry at `index`.
    pub fn name_at(&self, index: usize) -> (r: &Vec<u8>)
        requires
            index < self@.len(),
        ensures
            r@ == self@[index as int].0,
    {
        &self.entries[index].name
    }

    /// The value of the entry at `index`.
    pub fn value_at(&self, index: usize) -> (r: &Vec<u8>)
        requires
            index < self@.len(),
        ensures
            r@ == self@[index as int].1,
    {
        &self.entries[index].value
    }

    /// The index of the entry named `name`.
    pub fn find(&self, name: &[u8]) -> (r: Option<usize>)
        ensures
            match r {
                Some(i) => i == position(self@, name@) && i < self@.len(),
                None => position(self@, name@) == self@.len(),
            },
    {
        let wanted = to_lowercase(name);
        let mut i: usize = 0;
        while i < self.entries.len()
            invariant
                0 <= i <= self.entries@.len(),
                wanted@ == lowercase(name@),
                position(self@, name@) == position_from(self@, name@, i as int),
            decreases self.entries@.len() - i,
        {
            let have = to_lowercase(self.entries[i].name.as_slice());
            if bytes_eq(have.as_slice(), wanted.as_slice()) {
                return Some(i);
            }
            i += 1;
        }
        None
    }

    /// The value stored under `name`.
    pub fn get(&self, name: &[u8]) -> (r: Option<&Vec<u8>>)
        ensures
            match lookup(self@, name@) {
                Some(v) => r matches Some(x) && x@ == v,
                None => r is None,
            },
    {
        match self.find(name) {
            Some(i) => Some(&self.entries[i].value),
            None => None,
        }
    }

    /// Whether an entry is named `name`.
    pub fn contains(&self, name: &[u8]) -> (r: bool)
        ensures
            r == lookup(self@, name@).is_some(),
    {
        self.find(name).is_some()
    }

    /// Sets `name` to `value`.
    pub fn insert(&mut self, name: Vec<u8>, value: Vec<u8>)
        ensures
            final(self)@ == inserted(old(self)@, name@, value@),
            old(self).wf() ==> final(self).wf(),
    {
        proof {
            if self.wf() {
                lemma_inserted(self@, name@, value@);
            }
        }
        let ghost before = self@;
        match self.find(name.as_slice()) {
            Some(i) => {
                self.entries.set(i, Header { name, value });
                assert(self@ =~= before.update(i as int, (name@, value@)));
            },
            None => {
                self.entries.push(Header { name, value });
                assert(self@ =~= before.push((name@, value@)));
            },
        }
    }

    /// Removes the entry named `name`, if there is one.
    pub fn remove(&mut self, name: &[u8])
        ensures
            final(self)@ == removed(old(self)@, name@),
            old(self).wf() ==> final(self).wf(),
    {
        proof {
            if self.wf() {
                lemma_removed(self@, name@);
            }
        }
        let ghost before = self@;
        match self.find(name) {
            Some(i) => {
                let _ = self.entries.remove(i);
                assert(self@ =~= before.remove(i as int));
            },
            None => {},
        }
    }

    /// A copy of the mapping.
    pub fn duplicate(&self) -> (r: Headers)
        ensures
            r@ == self@,
    {
        let mut entries: Vec<Header> = Vec::new();
        let mut i: usize = 0;
        while i < self.entries.len()
            invariant
                0 <= i <= self.entries@.len(),
                entries@.len() == i,
                forall|j: int|
                    0 <= j < i ==> (#[trigger] entries@[j]).name@ == self.entries@[j].name@
                        && entries@[j].value@ == self.entries@[j].value@,
            decreases self.entries@.len() - i,
        {
            let name = crate::bytes::copy_bytes(self.entries[i].name.as_slice());
            let value = crate::bytes::copy_bytes(self.entries[i].value.as_slice());
            entries.push(Header { name, value });
            i += 1;
        }
        let r = Headers { entries };
        assert(r@ =~= self@);
        r
    }
}

} // verus!
