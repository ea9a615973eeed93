use vstd::prelude::*;
use crate::clock::clock_ns;
use crate::dns::record_views;
use crate::dns::same_octets;
use crate::dns::QuestionType;
use crate::dns::ResourceRecord;
use crate::wire::RecordView;

verus! {

/// What the cache holds for one name.
#[derive(Debug)]
pub struct Entry {
    key: Vec<u8>,
    record: Vec<ResourceRecord>,
    committed_at: u64,
}

/// An entry as mathematics: the records in the order they came, and the
/// second at which the entry was made.
pub struct EntryView {
    pub records: Seq<RecordView>,
    pub committed_at: u64,
}

impl View for Entry {
    type V = EntryView;

    closed spec fn view(&self) -> EntryView {
        EntryView { records: record_views(self.record@), committed_at: self.committed_at }
    }
}

/// The records that answers are made from, by owner name.  Nothing is ever
/// taken out.
#[derive(Debug)]
pub struct Cache {
    entries: Vec<Entry>,
}

/// An upper-case letter as its lower-case letter, any other octet as it is.
pub open spec fn fold_octet(b: u8) -> u8 {
    if 65 <= b <= 90 {
        (b + 32) as u8
    } else {
        b
    }
}

/// The form of a name under which the cache keeps it: letters in lower case.
pub open spec fn canonical(name: Seq<u8>) -> Seq<u8> {
    Seq::new(name.len(), |i: int| fold_octet(name[i]))
}

/// Whether some record of `records` answers a question for `qtype`: one of
/// that type, or any one when the question asks for all types.
pub open spec fn answers_type(records: Seq<RecordView>, qtype: QuestionType) -> bool {
    exists|i: int|
        0 <= i < records.len() && (qtype == QuestionType::ALL || (#[trigger] records[i]).rtype
            == qtype.code_spec())
}

/// Whether the cache `c` has an answer to a question for `name` and `qtype`.
pub open spec fn is_hit(c: Map<Seq<u8>, EntryView>, name: Seq<u8>, qtype: QuestionType) -> bool {
    c.contains_key(canonical(name)) && answers_type(c[canonical(name)].records, qtype)
}

/// The cache `c` with `rec` put behind the records of `name`, in an entry
/// made at `now` if there was none.
pub open spec fn with_record(c: Map<Seq<u8>, EntryView>, name: Seq<u8>, rec: RecordView, now: u64) -> Map<
    Seq<u8>,
    EntryView,
> {
    let key = canonical(name);
    if c.contains_key(key) {
        c.insert(key, EntryView { records: c[key].records.push(rec), ..c[key] })
    } else {
        c.insert(key, EntryView { records: seq![rec], committed_at: now })
    }
}

/// The name in the form under which the cache keeps it.
fn fold_name(name: &[u8]) -> (key: Vec<u8>)
    ensures
        key@ == canonical(name@),
{
    let mut key: Vec<u8> = Vec::with_capacity(name.len());
    let mut i: usize = 0;
    while i < name.len()
        invariant
            0 <= i <= name@.len(),
            key@ == canonical(name@).take(i as int),
        decreases name@.len() - i,
    {
        let b = name[i];
        let folded: u8 = if 65 <= b && b <= 90 {
            b + 32
        } else {
            b
        };
        key.push(folded);
        assert(canonical(name@).take(i + 1) =~= canonical(name@).take(i as int).push(folded));
        i = i + 1;
    }
    assert(canonical(name@).take(i as int) =~= canonical(name@));
    key
}

impl Cache {
    /// Whether an entry is kept under `key`.
    pub closed spec fn holds(&self, key: Seq<u8>) -> bool {
        exists|i: int| 0 <= i < self.entries@.len() && (#[trigger] self.entries@[i]).key@ == key
    }

    /// The place of the entry that is kept under `key`.
    pub closed spec fn place(&self, key: Seq<u8>) -> int {
        choose|i: int| 0 <= i < self.entries@.len() && (#[trigger] self.entries@[i]).key@ == key
    }

    /// No key is kept twice, and no entry is without a record.
    pub closed spec fn wf(&self) -> bool {
        &&& forall|i: int, j: int|
            0 <= i < j < self.entries@.len() ==> (#[trigger] self.entries@[i]).key@
                != (#[trigger] self.entries@[j]).key@
        &&& forall|i: int|
            0 <= i < self.entries@.len() ==> (#[trigger] self.entries@[i]).record@.len() > 0
    }
}

impl View for Cache {
    type V = Map<Seq<u8>, EntryView>;

    closed spec fn view(&self) -> Map<Seq<u8>, EntryView> {
        Map::new(|k: Seq<u8>| self.holds(k), |k: Seq<u8>| self.entries@[self.place(k)]@)
    }
}

impl Cache {
    /// A cache that holds nothing.
    pub fn new() -> (c: Cache)
        ensures
            c.wf(),
            c@ == Map::<Seq<u8>, EntryView>::empty(),
    {
        let c = Cache { entries: Vec::new() };
        assert(c@ =~= Map::<Seq<u8>, EntryView>::empty());
        c
    }

    /// Where the entry for the folded name `key` is kept, if there is one.
    fn find(&self, key: &[u8]) -> (r: Option<usize>)
        requires
            self.wf(),
        ensures
            match r {
                Some(i) => i < self.entries@.len() && self.entries@[i as int].key@ == key@
                    && self.holds(key@) && self.place(key@) == i,
                None => !self.holds(key@),
            },
    {
        let mut i: usize = 0;
        while i < self.entries.len()
            invariant
                0 <= i <= self.entries@.len(),
                self.wf(),
                forall|j: int| 0 <= j < i ==> (#[trigger] self.entries@[j]).key@ != key@,
            decreases self.entries@.len() - i,
        {
            if same_octets(self.entries[i].key.as_slice(), key) {
                proof {
                    assert(self.entries@[i as int].key@ == key@);
                    let p = self.place(key@);
                    assert(self.entries@[p].key@ == key@);
                }
                return Some(i);
            }
            i = i + 1;
        }
        None
    }

    /// The records kept for `key`, whatever the case of its letters.
    pub fn get(&self, key: &[u8]) -> (r: Option<&[ResourceRecord]>)
        requires
            self.wf(),
        ensures
            r is Some <==> self@.contains_key(canonical(key@)),
            r matches Some(s) ==> record_views(s@) == self@[canonical(key@)].records && s@.len() > 0,
    {
        let folded = fold_name(key);
        match self.find(folded.as_slice()) {
            None => None,
            Some(i) => Some(self.entries[i].record.as_slice()),
        }
    }

    /// Whether the cache has an answer to a question for `name` and `qtype`.
    pub fn hit(&self, name: &[u8], qtype: QuestionType) -> (b: bool)
        requires
            self.wf(),
        ensures
            b == is_hit(self@, name@, qtype),
    {
        match self.get(name) {
            None => false,
            Some(records) => {
                if qtype == QuestionType::ALL {
                    assert(record_views(records@)[0].rtype == records@[0].r_type);
                    return true;
                }
                let code = qtype.code();
                let ghost views = record_views(records@);
                let mut i: usize = 0;
                while i < records.len()
                    invariant
                        0 <= i <= records@.len(),
                        views == record_views(records@),
                        self@.contains_key(canonical(name@)),
                        views == self@[canonical(name@)].records,
                        code == qtype.code_spec(),
                        qtype != QuestionType::ALL,
                        forall|j: int| 0 <= j < i ==> (#[trigger] views[j]).rtype != code,
                    decreases records@.len() - i,
                {
                    if records[i].r_type == code {
                        assert(views[i as int].rtype == code);
                        return true;
                    }
                    i = i + 1;
                }
                false
            },
        }
    }

    /// Puts `rec` behind the records kept for `key`, in an entry made at
    /// the second `now` if there was none.
    #[verifier::rlimit(40)]
    pub fn add_at(&mut self, key: &[u8], rec: ResourceRecord, now: u64)
        requires
            old(self).wf(),
        ensures
            final(self).wf(),
            final(self)@ == with_record(old(self)@, key@, rec@, now),
    {
        let folded = fold_name(key);
        let ghost k = folded@;
        match self.find(folded.as_slice()) {
            Some(i) => {
                let ghost before = self.entries@[i as int].record@;
                self.entries[i].record.push(rec);
                assert(record_views(self.entries@[i as int].record@) =~= record_views(before).push(
                    rec@,
                ));
                proof {
                    assert forall|key2: Seq<u8>| self.holds(key2) == old(self).holds(key2) by {
                        if self.holds(key2) {
                            let j = choose|j: int|
                                0 <= j < self.entries@.len() && (#[trigger] self.entries@[j]).key@
                                    == key2;
                            assert(old(self).entries@[j].key@ == key2);
                        }
                        if old(self).holds(key2) {
                            let j = choose|j: int|
                                0 <= j < old(self).entries@.len() && (#[trigger] old(
                                    self,
                                ).entries@[j]).key@ == key2;
                            assert(self.entries@[j].key@ == key2);
                        }
                    }
                    assert forall|key2: Seq<u8>| self.holds(key2) implies self.place(key2) == old(
                        self,
                    ).place(key2) by {
                        let a = self.place(key2);
                        let b = old(self).place(key2);
                        assert(old(self).entries@[a].key@ == key2);
                        assert(old(self).entries@[b].key@ == key2);
                    }
                    assert(self@ =~= with_record(old(self)@, key@, rec@, now));
                }
            },
            None => {
                let mut record: Vec<ResourceRecord> = Vec::new();
                record.push(rec);
                assert(record_views(record@) =~= seq![rec@]);
                self.entries.push(Entry { key: folded, record, committed_at: now });
                proof {
                    let n = old(self).entries@.len() as int;
                    assert(self.entries@[n].key@ == k);
                    assert forall|key2: Seq<u8>| self.holds(key2) == (old(self).holds(key2) || key2
                        == k) by {
                        if self.holds(key2) {
                            let j = choose|j: int|
                                0 <= j < self.entries@.len() && (#[trigger] self.entries@[j]).key@
                                    == key2;
                            if j < n {
                                assert(old(self).entries@[j].key@ == key2);
                            }
                        }
                        if old(self).holds(key2) {
                            let j = choose|j: int|
                                0 <= j < old(self).entries@.len() && (#[trigger] old(
                                    self,
                                ).entries@[j]).key@ == key2;
                            assert(self.entries@[j].key@ == key2);
                        }
                    }
                    assert forall|key2: Seq<u8>| old(self).holds(key2) implies self.place(key2)
                        == old(self).place(key2) by {
                        let a = self.place(key2);
                        let b = old(self).place(key2);
                        assert(self.entries@[a].key@ == key2);
                        assert(self.entries@[b].key@ == key2);
                        assert(old(self).entries@[b].key@ == key2);
                    }
                    assert(self.place(k) == n) by {
                        let a = self.place(k);
                        assert(self.entries@[a].key@ == k);
                        if a < n {
                            assert(old(self).entries@[a].key@ == k);
                        }
                    }
                    assert(self@ =~= with_record(old(self)@, key@, rec@, now));
                }
            },
        }
    }

    /// Puts `rec` behind the records kept for `key`.  An entry that has to
    /// be made for it is stamped with the present second of the clock.
    pub fn add(&mut self, key: &[u8], rec: ResourceRecord)
        requires
            old(self).wf(),
        ensures
            final(self).wf(),
            final(self)@ == with_record(
                old(self)@,
                key@,
                rec@,
                final(self)@[canonical(key@)].committed_at,
            ),
    {
        let now = clock_ns() / 1_000_000_000;
        self.add_at(key, rec, now);
    }
}

} // verus!
