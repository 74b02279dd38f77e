//! Which records of a stored directory can be used again.

use vstd::prelude::*;
use crate::bytes::array_32;
use super::state::{Fingerprint, StoredBundle, StoredView};

verus! {

/// A record as it was read: its key, and its bundle where that could be decoded.
pub struct RawRecord {
    pub key: Vec<u8>,
    pub stored: Option<StoredBundle>,
}

/// A record that can be used again.
pub struct RecoveredRecord {
    pub fingerprint: Fingerprint,
    pub stored: StoredBundle,
}

pub struct RecoveredView {
    pub fingerprint: Seq<u8>,
    pub stored: StoredView,
}

impl View for RecoveredRecord {
    type V = RecoveredView;

    open spec fn view(&self) -> RecoveredView {
        RecoveredView { fingerprint: self.fingerprint@, stored: self.stored@ }
    }
}

/// Whether a record can be used again: its key is a fingerprint and its bundle decodes.
pub open spec fn usable(record: RawRecord) -> bool {
    record.key@.len() == 32 && record.stored is Some
}

/// The records that can be used again, in order. A record that cannot be used costs none of
/// the others.
pub open spec fn recovered(records: Seq<RawRecord>) -> Seq<RecoveredView> {
    records.filter(|r: RawRecord| usable(r)).map_values(
        |r: RawRecord| RecoveredView { fingerprint: r.key@, stored: (r.stored->0)@ },
    )
}

/// Keeps the records that can be used again, in order.
pub fn load_all(records: Vec<RawRecord>) -> (loaded: Vec<RecoveredRecord>)
    ensures
        loaded@.map_values(|r: RecoveredRecord| r@) == recovered(records@),
{
    let mut records: Vec<RawRecord> = records;
    let ghost all = records@;
    let ghost keep = |r: RawRecord| usable(r);
    let ghost read = |r: RawRecord|
        RecoveredView { fingerprint: r.key@, stored: (r.stored->0)@ };
    let mut rest: Vec<RawRecord> = Vec::new();
    while records.len() > 0
        invariant
            records@.len() <= all.len(),
            records@ == all.take(records@.len() as int),
            rest@.len() == all.len() - records@.len(),
            forall|j: int| 0 <= j < rest@.len() ==> rest@[j] == all[all.len() - 1 - j],
        decreases records@.len(),
    {
        if let Some(record) = records.pop() {
            rest.push(record);
        }
    }
    let mut loaded: Vec<RecoveredRecord> = Vec::new();
    let ghost mut done: int = 0;
    proof {
        reveal(Seq::filter);
        assert(all.take(0) =~= Seq::<RawRecord>::empty());
        assert(loaded@.map_values(|r: RecoveredRecord| r@) =~= all.take(0).filter(keep).map_values(
            read,
        ));
    }
    while rest.len() > 0
        invariant
            0 <= done <= all.len(),
            rest@.len() == all.len() - done,
            forall|j: int| 0 <= j < rest@.len() ==> rest@[j] == all[all.len() - 1 - j],
            keep == (|r: RawRecord| usable(r)),
            read == (|r: RawRecord|
                RecoveredView { fingerprint: r.key@, stored: (r.stored->0)@ }),
            loaded@.map_values(|r: RecoveredRecord| r@) == all.take(done).filter(keep).map_values(
                read,
            ),
        decreases rest@.len(),
    {
        let ghost before = loaded@.map_values(|r: RecoveredRecord| r@);
        let ghost kept = all.take(done).filter(keep);
        proof {
            reveal(Seq::filter);
            assert(all.take(done + 1).drop_last() =~= all.take(done));
            done = done + 1;
        }
        if let Some(record) = rest.pop() {
            assert(all.take(done).last() == record);
            let ghost raw = record;
            if let Some(fingerprint) = array_32(record.key.as_slice()) {
                if let Some(stored) = record.stored {
                    loaded.push(RecoveredRecord { fingerprint, stored });
                    assert(loaded@.map_values(|r: RecoveredRecord| r@) =~= before.push(read(raw)));
                    assert(kept.push(raw).map_values(read) =~= before.push(read(raw)));
                }
            }
        }
    }
    assert(all.take(done) =~= all);
    loaded
}

/// A record that can be used again is recovered as it was read, whatever the others are.
pub proof fn law_usable_records_are_recovered(records: Seq<RawRecord>, i: int)
    requires
        0 <= i < records.len(),
        usable(records[i]),
    ensures
        recovered(records).contains(
            RecoveredView { fingerprint: records[i].key@, stored: (records[i].stored->0)@ },
        ),
    decreases records.len(),
{
    reveal(Seq::filter);
    let keep = |r: RawRecord| usable(r);
    let all = recovered(records);
    let shorter = records.drop_last();
    let view = RecoveredView { fingerprint: records[i].key@, stored: (records[i].stored->0)@ };
    if i < shorter.len() {
        law_usable_records_are_recovered(shorter, i);
        let rest = recovered(shorter);
        assert(shorter[i] == records[i]);
        let j = choose|j: int| 0 <= j < rest.len() && rest[j] == view;
        assert(all[j] == view);
    } else {
        assert(all[all.len() - 1] == view);
    }
}

/// Nothing is recovered that was not read, and records under different keys are recovered under
/// different fingerprints: each stored identity comes back once.
pub proof fn law_recovered_records_were_read(records: Seq<RawRecord>, i: int)
    requires
        0 <= i < recovered(records).len(),
        forall|j: int, k: int|
            0 <= j < k < records.len() ==> (#[trigger] records[j]).key@ != (
            #[trigger] records[k]).key@,
    ensures
        exists|k: int|
            0 <= k < records.len() && usable(#[trigger] records[k]) && recovered(records)[i]
                == (RecoveredView {
                fingerprint: records[k].key@,
                stored: (records[k].stored->0)@,
            }),
        forall|j: int|
            0 <= j < i ==> (#[trigger] recovered(records)[j]).fingerprint != recovered(
                records,
            )[i].fingerprint,
    decreases records.len(),
{
    reveal(Seq::filter);
    let all = recovered(records);
    let shorter = records.drop_last();
    let rest = recovered(shorter);
    let n = records.len() - 1;
    assert forall|j: int, k: int| 0 <= j < k < shorter.len() implies (#[trigger] shorter[j]).key@
        != (#[trigger] shorter[k]).key@ by {
        assert(shorter[j] == records[j] && shorter[k] == records[k]);
    }
    assert forall|j: int| 0 <= j < rest.len() implies all[j] == #[trigger] rest[j] by {}
    if i < rest.len() {
        law_recovered_records_were_read(shorter, i);
        let k = choose|k: int|
            0 <= k < shorter.len() && usable(#[trigger] shorter[k]) && rest[i] == (RecoveredView {
                fingerprint: shorter[k].key@,
                stored: (shorter[k].stored->0)@,
            });
        assert(records[k] == shorter[k]);
        assert(all[i] == rest[i]);
        assert forall|j: int| 0 <= j < i implies (#[trigger] all[j]).fingerprint
            != all[i].fingerprint by {
            assert(all[j] == rest[j]);
        }
    } else {
        assert(usable(records[n]));
        assert(all[i] == (RecoveredView {
            fingerprint: records[n].key@,
            stored: (records[n].stored->0)@,
        }));
        assert forall|j: int| 0 <= j < i implies (#[trigger] all[j]).fingerprint
            != all[i].fingerprint by {
            law_recovered_records_were_read(shorter, j);
            let k = choose|k: int|
                0 <= k < shorter.len() && usable(#[trigger] shorter[k]) && rest[j] == (
                RecoveredView {
                    fingerprint: shorter[k].key@,
                    stored: (shorter[k].stored->0)@,
                });
            assert(records[k] == shorter[k]);
            assert(records[k].key@ != records[n].key@);
            assert(all[j] == rest[j]);
        }
    }
}

/// The records that are not under a key.
pub open spec fn without_key(records: Seq<RawRecord>, key: Seq<u8>) -> Seq<RawRecord> {
    records.filter(|r: RawRecord| r.key@ != key)
}

/// The table once a record is put in, in place of one under the same key.
pub open spec fn with_saved(records: Seq<RawRecord>, saved: RawRecord) -> Seq<RawRecord> {
    without_key(records, saved.key@).push(saved)
}

proof fn lemma_recovered_others(records: Seq<RawRecord>, key: Seq<u8>, i: int)
    requires
        0 <= i < recovered(without_key(records, key)).len(),
    ensures
        recovered(without_key(records, key))[i].fingerprint != key,
    decreases records.len(),
{
    reveal(Seq::filter);
    if records.len() > 0 {
        let last = records.last();
        let rest = without_key(records.drop_last(), key);
        if last.key@ != key {
            assert(rest.push(last).drop_last() =~= rest);
            if i < recovered(rest).len() {
                lemma_recovered_others(records.drop_last(), key, i);
                assert(recovered(rest.push(last))[i] == recovered(rest)[i]);
            }
        } else {
            lemma_recovered_others(records.drop_last(), key, i);
        }
    }
}

/// After a bundle is put into the table under a fingerprint, exactly one recovered record has
/// that fingerprint, and it is the bundle that was put last, with the one-time prekeys that it
/// had then. An empty table gives no record.
pub proof fn law_the_last_saved_bundle_is_recovered(records: Seq<RawRecord>, saved: RawRecord, i: int)
    requires
        usable(saved),
        0 <= i < recovered(with_saved(records, saved)).len(),
    ensures
        recovered(with_saved(records, saved)).last() == (RecoveredView {
            fingerprint: saved.key@,
            stored: (saved.stored->0)@,
        }),
        recovered(with_saved(records, saved))[i].fingerprint == saved.key@ ==> i == recovered(
            with_saved(records, saved),
        ).len() - 1,
        recovered(Seq::<RawRecord>::empty()).len() == 0,
{
    reveal(Seq::filter);
    let others = without_key(records, saved.key@);
    assert(others.push(saved).drop_last() =~= others);
    let all = recovered(with_saved(records, saved));
    if i < all.len() - 1 {
        lemma_recovered_others(records, saved.key@, i);
        assert(all[i] == recovered(others)[i]);
    }
}

/// One more record is recovered exactly where its key has the length of a fingerprint and its
/// bundle decodes: last, under that key, with that bundle. The others are as without it.
pub proof fn law_each_record_is_recovered_by_itself(records: Seq<RawRecord>, last: RawRecord)
    ensures
        recovered(records.push(last)) == match last.stored {
            Some(stored) if last.key@.len() == 32 => recovered(records).push(
                RecoveredView { fingerprint: last.key@, stored: stored@ },
            ),
            _ => recovered(records),
        },
        recovered(Seq::empty()).len() == 0,
{
    reveal(Seq::filter);
    assert(records.push(last).drop_last() =~= records);
    assert(recovered(records.push(last)) =~= match last.stored {
        Some(stored) if last.key@.len() == 32 => recovered(records).push(
            RecoveredView { fingerprint: last.key@, stored: stored@ },
        ),
        _ => recovered(records),
    });
}

} // verus!
