//! The baseline of each class: the bytes that hold the state an entity of the class starts
//! from.

use vstd::prelude::*;

verus! {

/// The baselines that the first `upto` entries of a list give: a later entry of a class
/// takes the place of an earlier one.
pub open spec fn entries_upto(entries: Seq<(i32, Vec<u8>)>, upto: int) -> Map<int, Seq<u8>>
    decreases upto,
{
    if upto <= 0 {
        Map::empty()
    } else {
        entries_upto(entries, upto - 1).insert(entries[upto - 1].0 as int, entries[upto - 1].1@)
    }
}

/// Lists that agree on their first `upto` entries give the same baselines there.
proof fn lemma_entries_agree(a: Seq<(i32, Vec<u8>)>, b: Seq<(i32, Vec<u8>)>, upto: int)
    requires
        upto <= a.len(),
        upto <= b.len(),
        forall|i: int| 0 <= i < upto ==> a[i] == b[i],
    ensures
        entries_upto(a, upto) == entries_upto(b, upto),
    decreases upto,
{
    if upto > 0 {
        lemma_entries_agree(a, b, upto - 1);
    }
}

/// A class without an entry among the first `upto` has no baseline there.
proof fn lemma_entries_lack(entries: Seq<(i32, Vec<u8>)>, class_id: i32, upto: int)
    requires
        upto <= entries.len(),
        forall|i: int| 0 <= i < upto ==> entries[i].0 != class_id,
    ensures
        !entries_upto(entries, upto).contains_key(class_id as int),
    decreases upto,
{
    if upto > 0 {
        lemma_entries_lack(entries, class_id, upto - 1);
    }
}

/// The baseline of a class is that of its last entry.
proof fn lemma_entries_last(entries: Seq<(i32, Vec<u8>)>, class_id: i32, at: int, upto: int)
    requires
        0 <= at < upto <= entries.len(),
        entries[at].0 == class_id,
        forall|i: int| at < i < upto ==> entries[i].0 != class_id,
    ensures
        entries_upto(entries, upto).contains_key(class_id as int),
        entries_upto(entries, upto)[class_id as int] == entries[at].1@,
    decreases upto,
{
    if at + 1 < upto {
        lemma_entries_last(entries, class_id, at, upto - 1);
    }
}

/// New bytes in the last entry of a class are new bytes for the class, and nothing else.
proof fn lemma_entries_replace(
    entries: Seq<(i32, Vec<u8>)>,
    class_id: i32,
    bytes: Vec<u8>,
    at: int,
    upto: int,
)
    requires
        0 <= at < upto <= entries.len(),
        entries[at].0 == class_id,
        forall|i: int| at < i < upto ==> entries[i].0 != class_id,
    ensures
        entries_upto(entries.update(at, (class_id, bytes)), upto) == entries_upto(
            entries,
            upto,
        ).insert(class_id as int, bytes@),
    decreases upto,
{
    let changed = entries.update(at, (class_id, bytes));
    if at + 1 < upto {
        lemma_entries_replace(entries, class_id, bytes, at, upto - 1);
        assert(entries_upto(changed, upto) =~= entries_upto(entries, upto).insert(
            class_id as int,
            bytes@,
        ));
    } else {
        lemma_entries_agree(entries, changed, at);
        assert(entries_upto(changed, upto) =~= entries_upto(entries, upto).insert(
            class_id as int,
            bytes@,
        ));
    }
}

/// The baselines, by class id.
#[derive(Debug, Clone)]
pub struct InstanceBaseline {
    data: Vec<(i32, Vec<u8>)>,
}

impl View for InstanceBaseline {
    type V = Map<int, Seq<u8>>;

    closed spec fn view(&self) -> Map<int, Seq<u8>> {
        entries_upto(self.data@, self.data@.len() as int)
    }
}

impl InstanceBaseline {
    /// No baselines.
    pub fn new() -> (r: Self)
        ensures
            r@ == Map::<int, Seq<u8>>::empty(),
    {
        InstanceBaseline { data: Vec::new() }
    }

    /// The position of the last entry of the class `class_id`.
    fn position(&self, class_id: i32) -> (r: Option<usize>)
        ensures
            match r {
                Some(at) => at < self.data@.len() && self.data@[at as int].0 == class_id && forall|
                    i: int,
                | at < i < self.data@.len() ==> self.data@[i].0 != class_id,
                None => forall|i: int| 0 <= i < self.data@.len() ==> self.data@[i].0 != class_id,
            },
    {
        let mut i: usize = self.data.len();
        while i > 0
            invariant
                i <= self.data@.len(),
                forall|j: int| i <= j < self.data@.len() ==> self.data@[j].0 != class_id,
            decreases i,
        {
            i = i - 1;
            if self.data[i].0 == class_id {
                return Some(i);
            }
        }
        None
    }

    /// Sets the baseline of the class `class_id`. A negative id is refused and changes
    /// nothing.
    pub fn update(&mut self, class_id: i32, bytes: Vec<u8>) -> (ok: bool)
        ensures
            ok == (class_id >= 0),
            ok ==> final(self)@ == old(self)@.insert(class_id as int, bytes@),
            !ok ==> final(self)@ == old(self)@,
    {
        if class_id < 0 {
            return false;
        }
        match self.position(class_id) {
            Some(at) => {
                proof {
                    lemma_entries_replace(
                        self.data@,
                        class_id,
                        bytes,
                        at as int,
                        self.data@.len() as int,
                    );
                }
                self.data.set(at, (class_id, bytes));
            },
            None => {
                let ghost before = self.data@;
                self.data.push((class_id, bytes));
                proof {
                    lemma_entries_agree(before, self.data@, before.len() as int);
                }
            },
        }
        true
    }

    /// The baseline of the class `class_id`, if it has one.
    pub fn by_id(&self, class_id: i32) -> (r: Option<&Vec<u8>>)
        ensures
            self@.contains_key(class_id as int) ==> (r matches Some(b) && b@ == self@[class_id as int]),
            !self@.contains_key(class_id as int) ==> r is None,
    {
        match self.position(class_id) {
            Some(at) => {
                proof {
                    lemma_entries_last(self.data@, class_id, at as int, self.data@.len() as int);
                }
                Some(&self.data[at].1)
            },
            None => {
                proof {
                    lemma_entries_lack(self.data@, class_id, self.data@.len() as int);
                }
                None
            },
        }
    }
}

} // verus!
