//! Per record type statistics: how often each field tag occurs in each record.
use crate::field::Field;
use crate::record::{Record, RecordData};
use crate::signature::Signature;
use vstd::prelude::*;

verus! {

/// The number of fields in `fs` whose tag is `k`.
pub open spec fn tag_count(fs: Seq<Field>, k: Seq<u8>) -> nat
    decreases fs.len(),
{
    if fs.len() == 0 {
        0
    } else {
        tag_count(fs.drop_last(), k) + if fs.last().signature.0@ == k {
            1nat
        } else {
            0nat
        }
    }
}

/// The per-record counts stored for the tag `k` in `entries`; empty when the tag has
/// no entry.
pub open spec fn counts_for(entries: Seq<(Signature, Vec<usize>)>, k: Seq<u8>) -> Seq<usize>
    decreases entries.len(),
{
    if entries.len() == 0 {
        Seq::empty()
    } else if entries.last().0.0@ == k {
        entries.last().1@
    } else {
        counts_for(entries.drop_last(), k)
    }
}

/// The smallest element of a non-empty sequence.
pub open spec fn seq_min(s: Seq<usize>) -> usize
    decreases s.len(),
{
    if s.len() <= 1 {
        s[0]
    } else if s.last() < seq_min(s.drop_last()) {
        s.last()
    } else {
        seq_min(s.drop_last())
    }
}

/// The largest element of a non-empty sequence.
pub open spec fn seq_max(s: Seq<usize>) -> usize
    decreases s.len(),
{
    if s.len() <= 1 {
        s[0]
    } else if s.last() > seq_max(s.drop_last()) {
        s.last()
    } else {
        seq_max(s.drop_last())
    }
}

/// Whether the tags of `entries` are unique.
pub open spec fn unique_tags<V>(entries: Seq<(Signature, V)>) -> bool {
    forall|i: int, j: int|
        0 <= i < j < entries.len() ==> (#[trigger] entries[i]).0.0@ != (#[trigger] entries[j]).0.0@
}

/// The number stored for the tag `k` in `entries`; 0 when the tag has no entry.
pub open spec fn tally_for(entries: Seq<(Signature, usize)>, k: Seq<u8>) -> nat
    decreases entries.len(),
{
    if entries.len() == 0 {
        0
    } else if entries.last().0.0@ == k {
        entries.last().1 as nat
    } else {
        tally_for(entries.drop_last(), k)
    }
}

/// The fields of a record whose payload is resolved; none otherwise.
pub open spec fn record_fields(r: Record) -> Seq<Field> {
    match r.data {
        RecordData::Generic(fs) => fs@,
        _ => Seq::empty(),
    }
}

pub proof fn lemma_counts_for_at(entries: Seq<(Signature, Vec<usize>)>, i: int)
    requires
        unique_tags(entries),
        0 <= i < entries.len(),
    ensures
        counts_for(entries, entries[i].0.0@) == entries[i].1@,
    decreases entries.len(),
{
    if i < entries.len() - 1 {
        assert(entries.last() == entries[entries.len() - 1]);
        lemma_counts_for_at(entries.drop_last(), i);
    }
}

pub proof fn lemma_counts_for_absent(entries: Seq<(Signature, Vec<usize>)>, k: Seq<u8>)
    requires
        forall|i: int| 0 <= i < entries.len() ==> (#[trigger] entries[i]).0.0@ != k,
    ensures
        counts_for(entries, k).len() == 0,
    decreases entries.len(),
{
    if entries.len() > 0 {
        assert(entries.last() == entries[entries.len() - 1]);
        lemma_counts_for_absent(entries.drop_last(), k);
    }
}

pub proof fn lemma_counts_for_update(
    entries: Seq<(Signature, Vec<usize>)>,
    i: int,
    e: (Signature, Vec<usize>),
    k: Seq<u8>,
)
    requires
        unique_tags(entries),
        0 <= i < entries.len(),
        e.0.0@ == entries[i].0.0@,
    ensures
        counts_for(entries.update(i, e), k) == if k == e.0.0@ {
            e.1@
        } else {
            counts_for(entries, k)
        },
    decreases entries.len(),
{
    let u = entries.update(i, e);
    if i == entries.len() - 1 {
        assert(u.drop_last() =~= entries.drop_last());
        if k == e.0.0@ {
        } else {
        }
    } else {
        assert(u.drop_last() =~= entries.drop_last().update(i, e));
        assert(u.last() == entries.last());
        lemma_counts_for_update(entries.drop_last(), i, e, k);
        if k == e.0.0@ {
            assert(entries.last() == entries[entries.len() - 1]);
        }
    }
}

pub proof fn lemma_tally_for_at(entries: Seq<(Signature, usize)>, i: int)
    requires
        unique_tags(entries),
        0 <= i < entries.len(),
    ensures
        tally_for(entries, entries[i].0.0@) == entries[i].1,
    decreases entries.len(),
{
    if i < entries.len() - 1 {
        assert(entries.last() == entries[entries.len() - 1]);
        lemma_tally_for_at(entries.drop_last(), i);
    }
}

pub proof fn lemma_tally_for_absent(entries: Seq<(Signature, usize)>, k: Seq<u8>)
    requires
        forall|i: int| 0 <= i < entries.len() ==> (#[trigger] entries[i]).0.0@ != k,
    ensures
        tally_for(entries, k) == 0,
    decreases entries.len(),
{
    if entries.len() > 0 {
        assert(entries.last() == entries[entries.len() - 1]);
        lemma_tally_for_absent(entries.drop_last(), k);
    }
}

pub proof fn lemma_tally_for_update(entries: Seq<(Signature, usize)>, i: int, e: (Signature, usize), k: Seq<u8>)
    requires
        unique_tags(entries),
        0 <= i < entries.len(),
        e.0.0@ == entries[i].0.0@,
    ensures
        tally_for(entries.update(i, e), k) == if k == e.0.0@ {
            e.1 as nat
        } else {
            tally_for(entries, k)
        },
    decreases entries.len(),
{
    let u = entries.update(i, e);
    if i == entries.len() - 1 {
        assert(u.drop_last() =~= entries.drop_last());
    } else {
        assert(u.drop_last() =~= entries.drop_last().update(i, e));
        assert(u.last() == entries.last());
        lemma_tally_for_update(entries.drop_last(), i, e, k);
        if k == e.0.0@ {
            assert(entries.last() == entries[entries.len() - 1]);
        }
    }
}

/// Whether two tags have the same four bytes.
fn same_tag(a: &Signature, b: &Signature) -> (r: bool)
    ensures
        r == (a.0@ == b.0@),
{
    let r = a.0[0] == b.0[0] && a.0[1] == b.0[1] && a.0[2] == b.0[2] && a.0[3] == b.0[3];
    assert(r ==> a.0@ =~= b.0@);
    assert(a.0@ == b.0@ ==> a.0@[0] == b.0@[0] && a.0@[1] == b.0@[1] && a.0@[2] == b.0@[2] && a.0@[3]
        == b.0@[3]);
    r
}

fn find_entry(entries: &Vec<(Signature, Vec<usize>)>, sig: &Signature) -> (r: Option<usize>)
    ensures
        match r {
            Some(i) => i < entries@.len() && entries@[i as int].0.0@ == sig.0@,
            None => forall|i: int| 0 <= i < entries@.len() ==> (#[trigger] entries@[i]).0.0@ != sig.0@,
        },
{
    let mut i: usize = 0;
    while i < entries.len()
        invariant
            i <= entries@.len(),
            forall|j: int| 0 <= j < i ==> (#[trigger] entries@[j]).0.0@ != sig.0@,
        decreases entries@.len() - i,
    {
        if same_tag(&entries[i].0, sig) {
            return Some(i);
        }
        i = i + 1;
    }
    None
}

fn find_tally(entries: &Vec<(Signature, usize)>, sig: &Signature) -> (r: Option<usize>)
    ensures
        match r {
            Some(i) => i < entries@.len() && entries@[i as int].0.0@ == sig.0@,
            None => forall|i: int| 0 <= i < entries@.len() ==> (#[trigger] entries@[i]).0.0@ != sig.0@,
        },
{
    let mut i: usize = 0;
    while i < entries.len()
        invariant
            i <= entries@.len(),
            forall|j: int| 0 <= j < i ==> (#[trigger] entries@[j]).0.0@ != sig.0@,
        decreases entries@.len() - i,
    {
        if same_tag(&entries[i].0, sig) {
            return Some(i);
        }
        i = i + 1;
    }
    None
}

/// How often each tag occurs among `fs`, one entry per tag.
fn tally_tags(fs: &Vec<&Field>) -> (r: Vec<(Signature, usize)>)
    ensures
        unique_tags(r@),
        forall|i: int| 0 <= i < r@.len() ==> (#[trigger] r@[i]).1 > 0,
        forall|k: Seq<u8>| #[trigger] tally_for(r@, k) == tag_count(fs@.map_values(|f: &Field| *f), k),
{
    let ghost all = fs@.map_values(|f: &Field| *f);
    let mut tally: Vec<(Signature, usize)> = Vec::new();
    let mut i: usize = 0;
    while i < fs.len()
        invariant
            i <= fs@.len(),
            all == fs@.map_values(|f: &Field| *f),
            unique_tags(tally@),
            forall|j: int| 0 <= j < tally@.len() ==> (#[trigger] tally@[j]).1 > 0,
            forall|k: Seq<u8>| #[trigger] tally_for(tally@, k) == tag_count(all.subrange(0, i as int), k),
            forall|k: Seq<u8>| #[trigger] tag_count(all.subrange(0, i as int), k) <= i,
        decreases fs@.len() - i,
    {
        let sig = fs[i].signature;
        let ghost before = tally@;
        proof {
            assert(all[i as int] == *fs@[i as int]);
            assert(tally_for(before, sig.0@) == tag_count(all.subrange(0, i as int), sig.0@));
            assert(tag_count(all.subrange(0, i as int), sig.0@) <= i);
            assert forall|k: Seq<u8>| #[trigger] tag_count(all.subrange(0, i + 1), k) == tag_count(
                all.subrange(0, i as int),
                k,
            ) + if all[i as int].signature.0@ == k {
                1nat
            } else {
                0nat
            } by {
                assert(all.subrange(0, i + 1).drop_last() =~= all.subrange(0, i as int));
            }
        }
        match find_tally(&tally, &sig) {
            Some(j) => {
                let c = tally[j].1;
                proof {
                    lemma_tally_for_at(tally@, j as int);
                }
                let e = (sig, c + 1);
                tally.set(j, e);
                proof {
                    assert forall|k: Seq<u8>| #[trigger] tally_for(tally@, k) == tag_count(
                        all.subrange(0, i + 1),
                        k,
                    ) by {
                        lemma_tally_for_update(before, j as int, e, k);
                        assert(tally@ == before.update(j as int, e));
                        assert(tally_for(before, k) == tag_count(all.subrange(0, i as int), k));
                        assert(all[i as int].signature == sig);
                        assert(tag_count(all.subrange(0, i + 1), k) == tag_count(all.subrange(0, i as int), k)
                            + if all[i as int].signature.0@ == k { 1nat } else { 0nat });
                    }
                }
            },
            None => {
                tally.push((sig, 1));
                proof {
                    assert(tally@.drop_last() =~= before);
                    assert forall|k: Seq<u8>| #[trigger] tally_for(tally@, k) == tag_count(
                        all.subrange(0, i + 1),
                        k,
                    ) by {
                        assert(tally_for(before, k) == tag_count(all.subrange(0, i as int), k));
                        assert(all[i as int].signature == sig);
                        assert(tag_count(all.subrange(0, i + 1), k) == tag_count(all.subrange(0, i as int), k)
                            + if all[i as int].signature.0@ == k { 1nat } else { 0nat });
                        assert(tally@.last() == (sig, 1usize));
                        if k == sig.0@ {
                            lemma_tally_for_absent(before, k);
                        }
                    }
                }
            },
        }
        i = i + 1;
    }
    assert(all.subrange(0, fs@.len() as int) =~= all);
    tally
}

/// For the records of one type: how many were seen, and for each field tag the number
/// of times it occurred in each record that held it, in the order the records came.
/// Each tag has one entry, in the order in which the tags were first met, and no entry
/// is empty.
#[derive(Debug)]
pub struct RecordTypeLayout {
    total_count: usize,
    fields: Vec<(Signature, Vec<usize>)>,
}

impl RecordTypeLayout {
    /// The counts stored for the tag `k`; empty when no record held it.
    pub closed spec fn counts(&self, k: Seq<u8>) -> Seq<usize> {
        counts_for(self.fields@, k)
    }

    /// The number of records seen.
    pub closed spec fn spec_total_count(&self) -> usize {
        self.total_count
    }

    /// Tags are unique, entries are non-empty and no tag occurs in more records than
    /// were seen.
    pub closed spec fn wf(&self) -> bool {
        &&& forall|i: int, j: int|
            0 <= i < j < self.fields@.len() ==> (#[trigger] self.fields@[i]).0.0@ != (
            #[trigger] self.fields@[j]).0.0@
        &&& forall|i: int|
            0 <= i < self.fields@.len() ==> (#[trigger] self.fields@[i]).1@.len() > 0
        &&& forall|k: Seq<u8>| #[trigger] self.counts(k).len() <= self.total_count
    }

    /// An empty layout.
    pub fn new() -> (r: RecordTypeLayout)
        ensures
            r.wf(),
            r.spec_total_count() == 0,
            forall|k: Seq<u8>| #[trigger] r.counts(k).len() == 0,
    {
        RecordTypeLayout { total_count: 0, fields: Vec::new() }
    }

    /// The number of records seen.
    pub fn total_count(&self) -> (r: &usize)
        ensures
            *r == self.spec_total_count(),
    {
        &self.total_count
    }

    /// The entries, one per tag, in the order in which the tags were first met.
    pub fn fields(&self) -> (r: &Vec<(Signature, Vec<usize>)>)
        ensures
            forall|k: Seq<u8>| #[trigger] counts_for(r@, k) == self.counts(k),
    {
        &self.fields
    }
}

fn min_of(v: &Vec<usize>) -> (r: usize)
    requires
        v@.len() > 0,
    ensures
        r == seq_min(v@),
{
    let mut m = v[0];
    let mut i: usize = 1;
    assert(v@.subrange(0, 1).len() == 1);
    while i < v.len()
        invariant
            1 <= i <= v@.len(),
            m == seq_min(v@.subrange(0, i as int)),
        decreases v@.len() - i,
    {
        proof {
            assert(v@.subrange(0, i + 1).drop_last() =~= v@.subrange(0, i as int));
            assert(v@.subrange(0, i + 1).last() == v@[i as int]);
        }
        if v[i] < m {
            m = v[i];
        }
        i = i + 1;
    }
    assert(v@.subrange(0, v@.len() as int) =~= v@);
    m
}

fn max_of(v: &Vec<usize>) -> (r: usize)
    requires
        v@.len() > 0,
    ensures
        r == seq_max(v@),
{
    let mut m = v[0];
    let mut i: usize = 1;
    assert(v@.subrange(0, 1).len() == 1);
    while i < v.len()
        invariant
            1 <= i <= v@.len(),
            m == seq_max(v@.subrange(0, i as int)),
        decreases v@.len() - i,
    {
        proof {
            assert(v@.subrange(0, i + 1).drop_last() =~= v@.subrange(0, i as int));
            assert(v@.subrange(0, i + 1).last() == v@[i as int]);
        }
        if v[i] > m {
            m = v[i];
        }
        i = i + 1;
    }
    assert(v@.subrange(0, v@.len() as int) =~= v@);
    m
}

impl RecordTypeLayout {
    /// Counts one more record: for every tag that its resolved fields hold, the number
    /// of fields with that tag is added to the tag's counts.
    pub fn process_record(&mut self, record: &Record)
        requires
            old(self).wf(),
            old(self).spec_total_count() < usize::MAX,
        ensures
            final(self).wf(),
            final(self).spec_total_count() == old(self).spec_total_count() + 1,
            forall|k: Seq<u8>| #[trigger] final(self).counts(k) == if tag_count(record_fields(*record), k) > 0 {
                old(self).counts(k).push(tag_count(record_fields(*record), k) as usize)
            } else {
                old(self).counts(k)
            },
    {
        let ghost start = self.fields@;
        let ghost old_total = self.total_count;
        assert forall|k: Seq<u8>| #[trigger] counts_for(start, k).len() <= old_total by {
            assert(self.counts(k).len() <= self.total_count);
        }
        self.total_count = self.total_count + 1;
        let fs = record.get_data().get_fields();
        assert(fs@.map_values(|f: &Field| *f) =~= record_fields(*record));
        let tally = tally_tags(&fs);
        let mut j: usize = 0;
        assert forall|k: Seq<u8>| #[trigger] tally_for(tally@.subrange(0, 0), k) == 0 by {}
        while j < tally.len()
            invariant
                j <= tally@.len(),
                unique_tags(tally@),
                forall|i: int| 0 <= i < tally@.len() ==> (#[trigger] tally@[i]).1 > 0,
                forall|k: Seq<u8>| #[trigger] tally_for(tally@, k) == tag_count(record_fields(*record), k),
                self.total_count == old_total + 1,
                unique_tags(self.fields@),
                forall|i: int| 0 <= i < self.fields@.len() ==> (#[trigger] self.fields@[i]).1@.len() > 0,
                forall|k: Seq<u8>| #[trigger] counts_for(start, k).len() <= old_total,
                forall|k: Seq<u8>| #[trigger] counts_for(self.fields@, k) == if tally_for(tally@.subrange(0, j as int), k) > 0 {
                    counts_for(start, k).push(tally_for(tally@, k) as usize)
                } else {
                    counts_for(start, k)
                },
            decreases tally@.len() - j,
        {
            let key = tally[j].0;
            let c = tally[j].1;
            let ghost before = self.fields@;
            proof {
                lemma_tally_for_at(tally@, j as int);
                assert forall|k: Seq<u8>| #[trigger] tally_for(tally@.subrange(0, j + 1), k) == if k == key.0@ {
                    c as nat
                } else {
                    tally_for(tally@.subrange(0, j as int), k)
                } by {
                    assert(tally@.subrange(0, j + 1).drop_last() =~= tally@.subrange(0, j as int));
                }
                assert(tally_for(tally@.subrange(0, j as int), key.0@) == 0) by {
                    lemma_tally_for_absent(tally@.subrange(0, j as int), key.0@);
                }
            }
            match find_entry(&self.fields, &key) {
                Some(i) => {
                    proof {
                        lemma_counts_for_at(before, i as int);
                    }
                    let mut entry: (Signature, Vec<usize>) = (key, Vec::new());
                    self.fields.set_and_swap(i, &mut entry);
                    entry.1.push(c);
                    let ghost e = entry;
                    self.fields.set_and_swap(i, &mut entry);
                    proof {
                        assert(self.fields@ =~= before.update(i as int, e));
                        assert forall|k: Seq<u8>| #[trigger] counts_for(self.fields@, k) == if tally_for(
                            tally@.subrange(0, j + 1),
                            k,
                        ) > 0 {
                            counts_for(start, k).push(tally_for(tally@, k) as usize)
                        } else {
                            counts_for(start, k)
                        } by {
                            lemma_counts_for_update(before, i as int, e, k);
                        }
                        assert forall|a: int, b: int|
                            0 <= a < b < self.fields@.len() implies (#[trigger] self.fields@[a]).0.0@
                            != (#[trigger] self.fields@[b]).0.0@ by {
                            assert(before[a].0.0@ != before[b].0.0@);
                        }
                    }
                },
                None => {
                    let mut v: Vec<usize> = Vec::new();
                    v.push(c);
                    proof {
                        lemma_counts_for_absent(before, key.0@);
                    }
                    self.fields.push((key, v));
                    proof {
                        assert(self.fields@.drop_last() =~= before);
                        assert forall|k: Seq<u8>| #[trigger] counts_for(self.fields@, k) == if tally_for(
                            tally@.subrange(0, j + 1),
                            k,
                        ) > 0 {
                            counts_for(start, k).push(tally_for(tally@, k) as usize)
                        } else {
                            counts_for(start, k)
                        } by {
                            assert(counts_for(before, k) == if tally_for(tally@.subrange(0, j as int), k) > 0 {
                                counts_for(start, k).push(tally_for(tally@, k) as usize)
                            } else {
                                counts_for(start, k)
                            });
                            assert(self.fields@.last() == (key, v));
                            if k == key.0@ {
                                assert(counts_for(start, k).len() == 0);
                                assert(counts_for(start, k).push(c) =~= v@);
                            } else {
                                assert(counts_for(self.fields@, k) == counts_for(before, k));
                            }
                        }
                    }
                },
            }
            j = j + 1;
        }
        proof {
            assert(tally@.subrange(0, tally@.len() as int) =~= tally@);
            assert forall|k: Seq<u8>| #[trigger] self.counts(k).len() <= self.total_count by {
                assert(counts_for(start, k).len() <= old_total);
            }
        }
    }

    /// Whether every record seen held the tag at least once.
    pub fn is_always_present(&self, sig: &Signature) -> (r: bool)
        requires
            self.wf(),
        ensures
            r == (self.counts(sig.0@).len() > 0 && self.counts(sig.0@).len() == self.spec_total_count()),
    {
        match find_entry(&self.fields, sig) {
            Some(i) => {
                proof {
                    lemma_counts_for_at(self.fields@, i as int);
                }
                self.fields[i].1.len() == self.total_count
            },
            None => {
                proof {
                    lemma_counts_for_absent(self.fields@, sig.0@);
                }
                false
            },
        }
    }

    /// The fewest times the tag occurred in a record: 0 unless every record seen held it.
    pub fn field_min(&self, sig: &Signature) -> (r: usize)
        requires
            self.wf(),
        ensures
            r == if self.counts(sig.0@).len() == 0 || self.counts(sig.0@).len()
                != self.spec_total_count() {
                0
            } else {
                seq_min(self.counts(sig.0@))
            },
    {
        match find_entry(&self.fields, sig) {
            Some(i) => {
                proof {
                    lemma_counts_for_at(self.fields@, i as int);
                }
                if self.fields[i].1.len() != self.total_count {
                    return 0;
                }
                min_of(&self.fields[i].1)
            },
            None => {
                proof {
                    lemma_counts_for_absent(self.fields@, sig.0@);
                }
                0
            },
        }
    }

    /// The most times the tag occurred in a record; 0 when no record held it.
    pub fn field_max(&self, sig: &Signature) -> (r: usize)
        requires
            self.wf(),
        ensures
            r == if self.counts(sig.0@).len() == 0 {
                0
            } else {
                seq_max(self.counts(sig.0@))
            },
    {
        match find_entry(&self.fields, sig) {
            Some(i) => {
                proof {
                    lemma_counts_for_at(self.fields@, i as int);
                }
                max_of(&self.fields[i].1)
            },
            None => {
                proof {
                    lemma_counts_for_absent(self.fields@, sig.0@);
                }
                0
            },
        }
    }
}

} // verus!
