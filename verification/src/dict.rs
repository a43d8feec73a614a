//! The dictionary tracker: remembers, for each dictionary identifier, the
//! values last put on the wire, and decides for every dictionary column
//! whether a dictionary message must be emitted, re-emitted as a
//! replacement, or skipped — or whether a changed dictionary must be
//! rejected because the stream was configured for immutable dictionaries.

use vstd::prelude::*;

verus! {

/// What the tracker decides for one dictionary column.
#[derive(Clone, Copy, PartialEq, Eq, Structural, Debug)]
pub enum DictAction {
    /// The identifier's values are unchanged since the last emission:
    /// nothing goes on the wire.
    Skip,
    /// The identifier has never been emitted: a fresh dictionary message
    /// goes on the wire.
    EmitFresh,
    /// The identifier was emitted with different values and replacement is
    /// allowed: a replacement dictionary message goes on the wire.
    EmitReplacement,
    /// The identifier was emitted with different values and replacement is
    /// forbidden: the write is a protocol error.
    Reject,
}

/// One remembered dictionary: its identifier and the values last emitted.
pub struct DictEntry {
    pub id: u64,
    pub values: Vec<Vec<u8>>,
}

/// The mathematical value of a tracker: the remembered dictionaries and the
/// stream-wide replacement policy.
pub ghost struct TrackerV {
    pub dictionaries: Map<u64, Seq<Seq<u8>>>,
    pub cannot_replace: bool,
}

/// The map held by a sequence of entries; later entries take precedence,
/// though well-formed trackers never repeat an identifier.
pub open spec fn entries_map(entries: Seq<DictEntry>) -> Map<u64, Seq<Seq<u8>>>
    decreases entries.len(),
{
    if entries.len() == 0 {
        Map::<u64, Seq<Seq<u8>>>::empty()
    } else {
        entries_map(entries.drop_last()).insert(
            entries.last().id,
            entries.last().values.deep_view(),
        )
    }
}

/// No identifier appears twice.
pub open spec fn entries_distinct(entries: Seq<DictEntry>) -> bool {
    forall|i: int, j: int|
        0 <= i < j < entries.len() ==> (#[trigger] entries[i]).id != (#[trigger] entries[j]).id
}

pub proof fn lemma_entries_map_contains(entries: Seq<DictEntry>, id: u64)
    ensures
        entries_map(entries).contains_key(id) <==> exists|i: int|
            0 <= i < entries.len() && (#[trigger] entries[i]).id == id,
    decreases entries.len(),
{
    if entries.len() > 0 {
        lemma_entries_map_contains(entries.drop_last(), id);
        if entries.last().id == id {
            assert(entries[entries.len() - 1].id == id);
        } else if entries_map(entries).contains_key(id) {
            let i = choose|i: int| 0 <= i < entries.len() - 1 && (#[trigger] entries.drop_last()[i]).id == id;
            assert(entries[i].id == id);
        } else {
            assert(forall|i: int|
                0 <= i < entries.len() - 1 ==> (#[trigger] entries[i]).id == entries.drop_last()[i].id);
        }
    }
}

pub proof fn lemma_entries_map_index(entries: Seq<DictEntry>, i: int)
    requires
        entries_distinct(entries),
        0 <= i < entries.len(),
    ensures
        entries_map(entries).contains_key(entries[i].id),
        entries_map(entries)[entries[i].id] == entries[i].values.deep_view(),
    decreases entries.len(),
{
    if i == entries.len() - 1 {
        assert(entries.last() == entries[i]);
    } else {
        assert(forall|k: int|
            0 <= k < entries.len() - 1 ==> #[trigger] entries.drop_last()[k] == entries[k]);
        lemma_entries_map_index(entries.drop_last(), i);
        assert(entries[i].id != entries.last().id);
    }
}

pub proof fn lemma_entries_map_update(entries: Seq<DictEntry>, i: int, entry: DictEntry)
    requires
        entries_distinct(entries),
        0 <= i < entries.len(),
        entry.id == entries[i].id,
    ensures
        entries_map(entries.update(i, entry)) =~= entries_map(entries).insert(
            entry.id,
            entry.values.deep_view(),
        ),
        entries_distinct(entries.update(i, entry)),
    decreases entries.len(),
{
    let updated = entries.update(i, entry);
    if i == entries.len() - 1 {
        assert(updated.drop_last() =~= entries.drop_last());
        assert(updated.last() == entry);
    } else {
        assert(updated.drop_last() =~= entries.drop_last().update(i, entry));
        assert(updated.last() == entries.last());
        assert(forall|k: int|
            0 <= k < entries.len() - 1 ==> #[trigger] entries.drop_last()[k] == entries[k]);
        lemma_entries_map_update(entries.drop_last(), i, entry);
        assert(entries.last().id != entry.id);
    }
}

/// Remembers emitted dictionaries and the stream-wide replacement policy.
pub struct DictionaryTracker {
    pub entries: Vec<DictEntry>,
    pub cannot_replace: bool,
}

impl View for DictionaryTracker {
    type V = TrackerV;

    open spec fn view(&self) -> TrackerV {
        TrackerV { dictionaries: entries_map(self.entries@), cannot_replace: self.cannot_replace }
    }
}

/// What the tracker decides for identifier `id` carrying values `dv`, given
/// its remembered state.
pub open spec fn dict_decision(t: TrackerV, id: u64, dv: Seq<Seq<u8>>) -> DictAction {
    if !t.dictionaries.contains_key(id) {
        DictAction::EmitFresh
    } else if t.dictionaries[id] == dv {
        DictAction::Skip
    } else if !t.cannot_replace {
        DictAction::EmitReplacement
    } else {
        DictAction::Reject
    }
}

/// The remembered dictionaries after the decision: recorded on a fresh or
/// replacement emission, untouched otherwise.
pub open spec fn dict_step(t: TrackerV, id: u64, dv: Seq<Seq<u8>>) -> Map<u64, Seq<Seq<u8>>> {
    match dict_decision(t, id, dv) {
        DictAction::EmitFresh => t.dictionaries.insert(id, dv),
        DictAction::EmitReplacement => t.dictionaries.insert(id, dv),
        DictAction::Skip => t.dictionaries,
        DictAction::Reject => t.dictionaries,
    }
}

/// Byte-for-byte equality of two byte strings.
fn bytes_eq(a: &Vec<u8>, b: &Vec<u8>) -> (r: bool)
    ensures
        r <==> a@ == b@,
{
    if a.len() != b.len() {
        return false;
    }
    let mut i: usize = 0;
    while i < a.len()
        invariant
            i <= a.len(),
            a@.len() == b@.len(),
            forall|k: int| 0 <= k < i ==> a@[k] == b@[k],
        decreases a.len() - i,
    {
        if a[i] != b[i] {
            return false;
        }
        i = i + 1;
    }
    proof {
        assert(a@ =~= b@);
    }
    true
}

/// Value-equality of two ordered dictionaries: same values in the same
/// order.
fn values_eq(a: &Vec<Vec<u8>>, b: &Vec<Vec<u8>>) -> (r: bool)
    ensures
        r <==> a.deep_view() == b.deep_view(),
{
    if a.len() != b.len() {
        proof {
            assert(a.deep_view().len() != b.deep_view().len());
        }
        return false;
    }
    let mut i: usize = 0;
    while i < a.len()
        invariant
            i <= a.len(),
            a@.len() == b@.len(),
            forall|k: int| 0 <= k < i ==> a.deep_view()[k] == b.deep_view()[k],
        decreases a.len() - i,
    {
        if !bytes_eq(&a[i], &b[i]) {
            proof {
                assert(a.deep_view()[i as int] =~= a@[i as int]@);
                assert(b.deep_view()[i as int] =~= b@[i as int]@);
            }
            return false;
        }
        proof {
            assert(a.deep_view()[i as int] =~= a@[i as int]@);
            assert(b.deep_view()[i as int] =~= b@[i as int]@);
        }
        i = i + 1;
    }
    proof {
        assert(a.deep_view() =~= b.deep_view());
    }
    true
}

/// A fresh owned copy of a byte string.
fn copy_bytes(src: &Vec<u8>) -> (r: Vec<u8>)
    ensures
        r@ == src@,
{
    let mut r: Vec<u8> = Vec::new();
    crate::wire::push_bytes(&mut r, src);
    proof {
        assert(Seq::<u8>::empty() + src@ =~= src@);
    }
    r
}

/// A fresh owned copy of an ordered dictionary.
fn copy_values(src: &Vec<Vec<u8>>) -> (r: Vec<Vec<u8>>)
    ensures
        r.deep_view() == src.deep_view(),
{
    let mut r: Vec<Vec<u8>> = Vec::new();
    let mut i: usize = 0;
    while i < src.len()
        invariant
            i <= src.len(),
            r@.len() == i,
            forall|k: int| 0 <= k < i ==> r.deep_view()[k] == src.deep_view()[k],
        decreases src.len() - i,
    {
        r.push(copy_bytes(&src[i]));
        i = i + 1;
        proof {
            assert(r.deep_view()[i - 1] =~= r@[i - 1]@);
            assert(src.deep_view()[i - 1] =~= src@[i - 1]@);
        }
    }
    proof {
        assert(r.deep_view() =~= src.deep_view());
    }
    r
}

impl DictionaryTracker {
    /// No identifier is remembered twice.
    pub open spec fn wf(&self) -> bool {
        entries_distinct(self.entries@)
    }

    /// An empty tracker with the given replacement policy.
    pub fn new(cannot_replace: bool) -> (r: DictionaryTracker)
        ensures
            r.wf(),
            r@.dictionaries == Map::<u64, Seq<Seq<u8>>>::empty(),
            r@.cannot_replace == cannot_replace,
    {
        DictionaryTracker { entries: Vec::new(), cannot_replace }
    }

    /// The position of `id` among the remembered entries, if any.
    fn find(&self, id: u64) -> (r: Option<usize>)
        ensures
            match r {
                Option::Some(i) => i < self.entries@.len() && self.entries@[i as int].id == id,
                Option::None => forall|i: int|
                    0 <= i < self.entries@.len() ==> (#[trigger] self.entries@[i]).id != id,
            },
    {
        let mut i: usize = 0;
        while i < self.entries.len()
            invariant
                i <= self.entries.len(),
                forall|k: int| 0 <= k < i ==> (#[trigger] self.entries@[k]).id != id,
            decreases self.entries.len() - i,
        {
            if self.entries[i].id == id {
                return Some(i);
            }
            i = i + 1;
        }
        None
    }

    /// Decides whether a dictionary message must be emitted for `id`
    /// carrying `values`, and records the values on a fresh or replacement
    /// emission. Never seen: `EmitFresh`. Seen with equal values: `Skip`.
    /// Seen with different values: `EmitReplacement` when replacement is
    /// allowed, else `Reject` with nothing recorded.
    pub fn should_emit(&mut self, id: u64, values: &Vec<Vec<u8>>) -> (action: DictAction)
        requires
            old(self).wf(),
        ensures
            final(self).wf(),
            action == dict_decision(old(self)@, id, values.deep_view()),
            final(self)@.dictionaries == dict_step(old(self)@, id, values.deep_view()),
            final(self)@.cannot_replace == old(self)@.cannot_replace,
    {
        let ghost dv = values.deep_view();
        match self.find(id) {
            Option::None => {
                proof {
                    lemma_entries_map_contains(self.entries@, id);
                }
                let entry = DictEntry { id, values: copy_values(values) };
                self.entries.push(entry);
                proof {
                    assert(self.entries@.drop_last() =~= old(self).entries@);
                    assert(entries_map(self.entries@) =~= entries_map(old(self).entries@).insert(
                        id,
                        dv,
                    ));
                    lemma_entries_map_contains(old(self).entries@, id);
                    assert forall|i: int, j: int|
                        0 <= i < j < self.entries@.len() implies (#[trigger] self.entries@[i]).id
                        != (#[trigger] self.entries@[j]).id by {
                        if j == self.entries@.len() - 1 {
                            assert(self.entries@[i] == old(self).entries@[i]);
                        } else {
                            assert(self.entries@[i] == old(self).entries@[i]);
                            assert(self.entries@[j] == old(self).entries@[j]);
                        }
                    }
                }
                DictAction::EmitFresh
            },
            Option::Some(i) => {
                proof {
                    lemma_entries_map_index(self.entries@, i as int);
                }
                if values_eq(&self.entries[i].values, values) {
                    DictAction::Skip
                } else if self.cannot_replace {
                    DictAction::Reject
                } else {
                    let entry = DictEntry { id, values: copy_values(values) };
                    proof {
                        lemma_entries_map_update(self.entries@, i as int, entry);
                    }
                    self.entries[i] = entry;
                    DictAction::EmitReplacement
                }
            },
        }
    }
}

} // verus!
