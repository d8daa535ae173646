use vstd::prelude::*;

verus! {

/// The kind of an imported item, which fixes the preview and probe path.
#[derive(Clone, Copy, Debug, PartialEq, Eq, Structural)]
pub enum MediaType {
    Image,
    Video,
}

/// One metadata row describing an imported item.
#[derive(Debug)]
pub struct MediaEntry {
    /// Assigned by the store on insertion; never reused.
    pub id: u64,
    /// Content digest of the original bytes; names the hash directory.
    pub hash: String,
    pub original_name: String,
    pub extension: String,
    pub media_type: MediaType,
    /// Pixel dimensions as `WxH`, once probed.
    pub resolution: Option<String>,
    /// Playing time in milliseconds, once probed (videos only).
    pub duration_ms: Option<u64>,
    /// Best class of a persisted classification.
    pub label: Option<String>,
    /// Its probability in millionths.
    pub confidence: Option<u32>,
}

/// `e` with its id replaced by `id`.
pub open spec fn with_id(e: MediaEntry, id: u64) -> MediaEntry {
    MediaEntry { id, ..e }
}

fn copy_text(s: &Option<String>) -> (r: Option<String>)
    ensures
        r == *s,
{
    match s {
        Some(t) => Some(t.clone()),
        None => None,
    }
}

impl MediaEntry {
    /// A field-by-field copy.
    pub fn copy(&self) -> (r: MediaEntry)
        ensures
            r == *self,
    {
        MediaEntry {
            id: self.id,
            hash: self.hash.clone(),
            original_name: self.original_name.clone(),
            extension: self.extension.clone(),
            media_type: self.media_type,
            resolution: copy_text(&self.resolution),
            duration_ms: self.duration_ms,
            label: copy_text(&self.label),
            confidence: self.confidence,
        }
    }
}

/// `e` with its probed facts replaced.
pub open spec fn with_facts(e: MediaEntry, resolution: Option<String>, duration_ms: Option<u64>) -> MediaEntry {
    MediaEntry { resolution, duration_ms, ..e }
}

/// `e` with a classification recorded.
pub open spec fn with_class(e: MediaEntry, label: String, confidence: u32) -> MediaEntry {
    MediaEntry { label: Some(label), confidence: Some(confidence), ..e }
}

/// Why a store operation failed.
#[derive(Clone, Copy, Debug, PartialEq, Eq, Structural)]
pub enum StoreError {
    /// No row has the requested id.
    NotFound,
    /// The id is not above every id handed out so far.
    IdTaken,
    /// Every id has been handed out.
    IdsExhausted,
}

/// The table of media rows, in insertion order.
pub struct MetadataStore {
    rows: Vec<MediaEntry>,
    next_id: u64,
}

/// Whether some row of `rows` has the id `id`.
pub open spec fn has_id(rows: Seq<MediaEntry>, id: u64) -> bool {
    exists|i: int| 0 <= i < rows.len() && (#[trigger] rows[i]).id == id
}

/// Whether some row of `rows` refers to the digest `h`.
pub open spec fn refers_to(rows: Seq<MediaEntry>, h: Seq<char>) -> bool {
    exists|i: int| 0 <= i < rows.len() && (#[trigger] rows[i]).hash@ == h
}

/// `rows` without the rows whose id is `id`.
pub open spec fn without_id(rows: Seq<MediaEntry>, id: u64) -> Seq<MediaEntry> {
    rows.filter(|e: MediaEntry| e.id != id)
}

impl MetadataStore {
    /// The rows, in insertion order.
    pub closed spec fn rows(&self) -> Seq<MediaEntry> {
        self.rows@
    }

    /// The id that the next insertion receives.
    pub closed spec fn next_id(&self) -> u64 {
        self.next_id
    }

    /// Ids strictly increase along the rows and stay below the next id.
    pub open spec fn wf(&self) -> bool {
        &&& 1 <= self.next_id()
        &&& forall|i: int, j: int|
            0 <= i < j < self.rows().len() ==> (#[trigger] self.rows()[i]).id < (#[trigger] self.rows()[j]).id
        &&& forall|i: int| 0 <= i < self.rows().len() ==> (#[trigger] self.rows()[i]).id < self.next_id()
    }

    /// An empty store whose first id is 1.
    pub fn new() -> (r: MetadataStore)
        ensures
            r.wf(),
            r.rows() == Seq::<MediaEntry>::empty(),
            r.next_id() == 1,
    {
        MetadataStore { rows: Vec::new(), next_id: 1 }
    }

    /// Appends `entry` under a fresh id and returns that id.
    pub fn insert_entry(&mut self, entry: MediaEntry) -> (r: Result<u64, StoreError>)
        requires
            old(self).wf(),
        ensures
            final(self).wf(),
            old(self).next_id() == u64::MAX ==> r == Err::<u64, StoreError>(StoreError::IdsExhausted)
                && *final(self) == *old(self),
            old(self).next_id() < u64::MAX ==> r == Ok::<u64, StoreError>(old(self).next_id())
                && final(self).rows() == old(self).rows().push(with_id(entry, old(self).next_id()))
                && final(self).next_id() == old(self).next_id() + 1,
            r is Ok ==> has_id(final(self).rows(), r->Ok_0),
    {
        if self.next_id == u64::MAX {
            return Err(StoreError::IdsExhausted);
        }
        let id = self.next_id;
        let mut e = entry;
        e.id = id;
        self.rows.push(e);
        self.next_id = id + 1;
        assert(self.rows@[self.rows@.len() - 1].id == id);
        Ok(id)
    }

    /// Puts back a row whose id was assigned earlier; ids assigned afterwards
    /// start above it.
    pub fn restore_entry(&mut self, entry: MediaEntry) -> (r: Result<(), StoreError>)
        requires
            old(self).wf(),
        ensures
            final(self).wf(),
            entry.id < old(self).next_id() ==> r == Err::<(), StoreError>(StoreError::IdTaken)
                && *final(self) == *old(self),
            entry.id == u64::MAX ==> r == Err::<(), StoreError>(StoreError::IdsExhausted)
                && *final(self) == *old(self),
            old(self).next_id() <= entry.id < u64::MAX ==> r == Ok::<(), StoreError>(())
                && final(self).rows() == old(self).rows().push(entry)
                && final(self).next_id() == entry.id + 1,
    {
        if entry.id < self.next_id {
            return Err(StoreError::IdTaken);
        }
        if entry.id == u64::MAX {
            return Err(StoreError::IdsExhausted);
        }
        self.next_id = entry.id + 1;
        self.rows.push(entry);
        Ok(())
    }

    /// Every row, in insertion order.
    pub fn list_entries(&self) -> (r: Vec<MediaEntry>)
        ensures
            r@ == self.rows(),
    {
        let mut out: Vec<MediaEntry> = Vec::new();
        let mut i: usize = 0;
        while i < self.rows.len()
            invariant
                i <= self.rows@.len(),
                out@ == self.rows@.subrange(0, i as int),
            decreases self.rows@.len() - i,
        {
            out.push(self.rows[i].copy());
            i = i + 1;
            assert(out@ =~= self.rows@.subrange(0, i as int));
        }
        assert(out@ =~= self.rows@);
        out
    }

    /// Number of rows.
    pub fn len(&self) -> (r: usize)
        ensures
            r == self.rows().len(),
    {
        self.rows.len()
    }

    /// Position of the row with id `id`, if there is one.
    fn position_of(&self, id: u64) -> (r: Option<usize>)
        ensures
            match r {
                Some(i) => i < self.rows().len() && self.rows()[i as int].id == id,
                None => !has_id(self.rows(), id),
            },
    {
        let mut i: usize = 0;
        while i < self.rows.len()
            invariant
                i <= self.rows@.len(),
                forall|j: int| 0 <= j < i ==> (#[trigger] self.rows@[j]).id != id,
            decreases self.rows@.len() - i,
        {
            if self.rows[i].id == id {
                return Some(i);
            }
            i = i + 1;
        }
        None
    }

    /// Whether a row has the id `id`.
    pub fn contains_id(&self, id: u64) -> (r: bool)
        ensures
            r == has_id(self.rows(), id),
    {
        self.position_of(id).is_some()
    }

    /// Whether some row refers to the digest `hash`.
    pub fn references_hash(&self, hash: &String) -> (r: bool)
        ensures
            r == refers_to(self.rows(), hash@),
    {
        let mut i: usize = 0;
        while i < self.rows.len()
            invariant
                i <= self.rows@.len(),
                forall|j: int| 0 <= j < i ==> (#[trigger] self.rows@[j]).hash@ != hash@,
            decreases self.rows@.len() - i,
        {
            if self.rows[i].hash == *hash {
                return true;
            }
            i = i + 1;
        }
        false
    }

    /// Writes probed facts into the row with id `id`; its other fields stay.
    pub fn record_facts(&mut self, id: u64, resolution: Option<String>, duration_ms: Option<u64>) -> (r: Result<
        (),
        StoreError,
    >)
        requires
            old(self).wf(),
        ensures
            final(self).wf(),
            final(self).next_id() == old(self).next_id(),
            has_id(old(self).rows(), id) <==> r is Ok,
            r is Err ==> r == Err::<(), StoreError>(StoreError::NotFound) && *final(self) == *old(self),
            r is Ok ==> exists|k: int|
                0 <= k < old(self).rows().len() && old(self).rows()[k].id == id && final(self).rows()
                    == old(self).rows().update(k, with_facts(old(self).rows()[k], resolution, duration_ms)),
    {
        match self.position_of(id) {
            None => Err(StoreError::NotFound),
            Some(k) => {
                let ghost before = self.rows@;
                let mut e = self.rows.remove(k);
                e.resolution = resolution;
                e.duration_ms = duration_ms;
                self.rows.insert(k, e);
                assert(self.rows@ =~= before.update(k as int, with_facts(before[k as int], resolution, duration_ms)));
                Ok(())
            },
        }
    }

    /// Records a classification in the row with id `id`; its other fields stay.
    pub fn record_class(&mut self, id: u64, label: String, confidence: u32) -> (r: Result<(), StoreError>)
        requires
            old(self).wf(),
        ensures
            final(self).wf(),
            final(self).next_id() == old(self).next_id(),
            has_id(old(self).rows(), id) <==> r is Ok,
            r is Err ==> r == Err::<(), StoreError>(StoreError::NotFound) && *final(self) == *old(self),
            r is Ok ==> exists|k: int|
                0 <= k < old(self).rows().len() && old(self).rows()[k].id == id && final(self).rows()
                    == old(self).rows().update(k, with_class(old(self).rows()[k], label, confidence)),
    {
        match self.position_of(id) {
            None => Err(StoreError::NotFound),
            Some(k) => {
                let ghost before = self.rows@;
                let mut e = self.rows.remove(k);
                e.label = Some(label);
                e.confidence = Some(confidence);
                self.rows.insert(k, e);
                assert(self.rows@ =~= before.update(k as int, with_class(before[k as int], label, confidence)));
                Ok(())
            },
        }
    }

    /// Removes the row with id `id` and returns it.
    pub fn delete_entry(&mut self, id: u64) -> (r: Result<MediaEntry, StoreError>)
        requires
            old(self).wf(),
        ensures
            final(self).wf(),
            final(self).next_id() == old(self).next_id(),
            final(self).rows() == without_id(old(self).rows(), id),
            !has_id(final(self).rows(), id),
            has_id(old(self).rows(), id) <==> r is Ok,
            r is Ok ==> exists|k: int|
                0 <= k < old(self).rows().len() && old(self).rows()[k] == r->Ok_0 && r->Ok_0.id == id
                    && final(self).rows() == old(self).rows().remove(k),
            r is Err ==> r == Err::<MediaEntry, StoreError>(StoreError::NotFound) && *final(self) == *old(self),
    {
        match self.position_of(id) {
            None => {
                proof {
                    lemma_filter_keeps_all(self.rows@, id);
                }
                Err(StoreError::NotFound)
            },
            Some(k) => {
                let ghost before = self.rows@;
                let e = self.rows.remove(k);
                proof {
                    lemma_filter_removes_one(before, k as int, id);
                }
                Ok(e)
            },
        }
    }

    /// Removes every row; ids keep counting from where they were.
    pub fn clear_all(&mut self)
        requires
            old(self).wf(),
        ensures
            final(self).wf(),
            final(self).rows() == Seq::<MediaEntry>::empty(),
            final(self).next_id() == old(self).next_id(),
    {
        self.rows = Vec::new();
    }
}

proof fn lemma_filter_keeps_all(rows: Seq<MediaEntry>, id: u64)
    requires
        !has_id(rows, id),
    ensures
        without_id(rows, id) == rows,
    decreases rows.len(),
{
    if rows.len() > 0 {
        let init = rows.drop_last();
        assert(!has_id(init, id)) by {
            if has_id(init, id) {
                let i = choose|i: int| 0 <= i < init.len() && (#[trigger] init[i]).id == id;
                assert(rows[i] == init[i]);
            }
        }
        lemma_filter_keeps_all(init, id);
        assert(rows.last().id != id);
        assert(init.push(rows.last()) =~= rows);
        reveal(Seq::filter);
    }
}

proof fn lemma_filter_removes_one(rows: Seq<MediaEntry>, k: int, id: u64)
    requires
        0 <= k < rows.len(),
        rows[k].id == id,
        forall|i: int, j: int| 0 <= i < j < rows.len() ==> (#[trigger] rows[i]).id < (#[trigger] rows[j]).id,
    ensures
        without_id(rows, id) == rows.remove(k),
    decreases rows.len(),
{
    let init = rows.drop_last();
    assert(init.push(rows.last()) =~= rows);
    reveal(Seq::filter);
    if k == rows.len() - 1 {
        assert forall|i: int| 0 <= i < init.len() implies (#[trigger] init[i]).id != id by {
            assert(rows[i].id < rows[k].id);
        }
        lemma_filter_keeps_all(init, id);
        assert(rows.remove(k) =~= init);
    } else {
        assert(rows.last().id != id) by {
            assert(rows[k].id < rows[rows.len() - 1].id);
        }
        lemma_filter_removes_one(init, k, id);
        assert(rows.remove(k) =~= init.remove(k).push(rows.last()));
    }
}

} // verus!
