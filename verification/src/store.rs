use vstd::prelude::*;
use crate::errors::FileError;
use crate::records::FileMetadataEntry;
use crate::records::RecordView;

verus! {

/// One persisted entry of the record store: content that decodes as a
/// metadata record, or content that does not.
pub enum StoredEntry {
    /// An entry that decodes as a metadata record.
    Record(FileMetadataEntry),
    /// An entry whose content does not decode as one; enumeration skips it.
    Corrupt,
}

impl StoredEntry {
    /// The record this entry decodes to, if it decodes.
    pub open spec fn decoded(self) -> Option<RecordView> {
        match self {
            StoredEntry::Record(r) => Some(r@),
            StoredEntry::Corrupt => None,
        }
    }
}

/// The records that a list of entries decodes to, in order; an entry that
/// does not decode contributes nothing.
pub open spec fn decoded_records(entries: Seq<StoredEntry>) -> Seq<RecordView>
    decreases entries.len(),
{
    if entries.len() == 0 {
        Seq::<RecordView>::empty()
    } else {
        let rest = decoded_records(entries.drop_last());
        match entries.last().decoded() {
            Some(rv) => rest.push(rv),
            None => rest,
        }
    }
}

/// One corrupted entry is isolated: wherever an undecodable entry sits
/// among the stored entries, enumeration yields exactly the records of all
/// the other entries, omitting only the corrupted one.
pub proof fn lemma_corrupt_entry_isolated(a: Seq<StoredEntry>, b: Seq<StoredEntry>)
    ensures
        decoded_records(a + seq![StoredEntry::Corrupt] + b) == decoded_records(a + b),
    decreases b.len(),
{
    if b.len() == 0 {
        assert((a + seq![StoredEntry::Corrupt] + b).drop_last() =~= a);
        assert((a + seq![StoredEntry::Corrupt] + b).last() == StoredEntry::Corrupt);
        assert(a + b =~= a);
    } else {
        lemma_corrupt_entry_isolated(a, b.drop_last());
        let s = a + seq![StoredEntry::Corrupt] + b;
        let t = a + b;
        assert(s.drop_last() =~= a + seq![StoredEntry::Corrupt] + b.drop_last());
        assert(s.last() == b.last());
        assert(t.drop_last() =~= a + b.drop_last());
        assert(t.last() == b.last());
    }
}

/// The bounded, append-only store of metadata records, standing for the
/// host's local persistence: entries in creation order, some of which may
/// fail to decode.
pub struct RecordStore {
    pub entries: Vec<StoredEntry>,
    pub capacity: usize,
}

impl RecordStore {
    /// Well-formed: no more entries than the capacity allows, and every
    /// entry that decodes is a well-formed record.
    pub open spec fn wf(self) -> bool {
        &&& self.entries@.len() <= self.capacity
        &&& forall|i: int| 0 <= i < self.entries@.len() ==> ((#[trigger] self.entries@[i].decoded())
            matches Some(rv) ==> rv.wf())
    }

    /// The decodable records, in store order: one undecodable entry is
    /// skipped alone and never hides the rest.
    pub open spec fn records(self) -> Seq<RecordView> {
        decoded_records(self.entries@)
    }

    /// A fresh, empty store with room for `capacity` entries.
    pub fn new(capacity: usize) -> (r: RecordStore)
        ensures
            r.wf(),
            r.capacity == capacity,
            r.entries@.len() == 0,
            r.records() == Seq::<RecordView>::empty(),
    {
        let r = RecordStore { entries: Vec::new(), capacity };
        proof {
            assert(r.records() =~= Seq::<RecordView>::empty());
        }
        r
    }

    /// Appends a record entry; fails with `Storage` exactly when the store
    /// is full. Models the host's `create_entry` for a metadata record.
    pub fn create(&mut self, record: FileMetadataEntry) -> (r: Result<(), FileError>)
        requires
            old(self).wf(),
            record@.wf(),
        ensures
            final(self).wf(),
            final(self).capacity == old(self).capacity,
            r is Ok <==> old(self).entries@.len() < old(self).capacity,
            r is Ok ==> final(self).records() == old(self).records().push(record@)
                && final(self).entries@.len() == old(self).entries@.len() + 1,
            r is Err ==> r == Err::<(), FileError>(FileError::Storage) && *final(self)
                == *old(self),
    {
        if self.entries.len() < self.capacity {
            let ghost pre = *self;
            self.entries.push(StoredEntry::Record(record));
            proof {
                assert(self.entries@.drop_last() =~= pre.entries@);
                assert(self.records() =~= pre.records().push(record@));
                assert forall|i: int| 0 <= i < self.entries@.len() implies ((
                #[trigger] self.entries@[i].decoded()) matches Some(rv) ==> rv.wf()) by {
                    if i < pre.entries@.len() {
                        assert(self.entries@[i] == pre.entries@[i]);
                    }
                }
            }
            Ok(())
        } else {
            Err(FileError::Storage)
        }
    }

    /// Appends an entry that does not decode; fails with `Storage` exactly
    /// when the store is full. The decodable records are unchanged:
    /// enumeration skips the entry without failing.
    pub fn create_corrupt(&mut self) -> (r: Result<(), FileError>)
        requires
            old(self).wf(),
        ensures
            final(self).wf(),
            final(self).capacity == old(self).capacity,
            r is Ok <==> old(self).entries@.len() < old(self).capacity,
            r is Ok ==> final(self).records() == old(self).records() && final(self).entries@.len()
                == old(self).entries@.len() + 1,
            r is Err ==> r == Err::<(), FileError>(FileError::Storage) && *final(self)
                == *old(self),
    {
        if self.entries.len() < self.capacity {
            let ghost pre = *self;
            self.entries.push(StoredEntry::Corrupt);
            proof {
                assert(self.entries@.drop_last() =~= pre.entries@);
                assert(self.records() =~= pre.records());
                assert forall|i: int| 0 <= i < self.entries@.len() implies ((
                #[trigger] self.entries@[i].decoded()) matches Some(rv) ==> rv.wf()) by {
                    if i < pre.entries@.len() {
                        assert(self.entries@[i] == pre.entries@[i]);
                    }
                }
            }
            Ok(())
        } else {
            Err(FileError::Storage)
        }
    }
}

} // verus!
