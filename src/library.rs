use vstd::prelude::*;

use crate::digest::{digest_text, hash_bytes};
use crate::layout::{
    extension_of, file_extension, hash_dir, hash_dir_text, original_path, original_path_text,
    thumbnail_path, thumbnail_path_text, THUMBNAIL_EDGE,
};
use crate::store::{
    has_id, refers_to, with_class, with_facts, with_id, without_id, MediaEntry, MetadataStore, StoreError,
};

verus! {

/// One hash directory: the digest that names it and the extension of the
/// original file inside it.
pub struct HashDir {
    pub hash: String,
    pub extension: String,
}

/// What a hash directory is, as text.
pub struct HashDirView {
    pub hash: Seq<char>,
    pub extension: Seq<char>,
}

impl View for HashDir {
    type V = HashDirView;

    open spec fn view(&self) -> HashDirView {
        HashDirView { hash: self.hash@, extension: self.extension@ }
    }
}

/// Why a library operation failed.
#[derive(Clone, Copy, Debug, PartialEq, Eq, Structural)]
pub enum LibraryError {
    /// No such row, hash directory or original file.
    NotFound,
    /// No classification model is loaded.
    ModelUnavailable,
    /// A restored id is not above every id handed out so far.
    IdTaken,
    /// Every id has been handed out.
    IdsExhausted,
}

/// The library error for a store error.
pub open spec fn from_store(e: StoreError) -> LibraryError {
    match e {
        StoreError::NotFound => LibraryError::NotFound,
        StoreError::IdTaken => LibraryError::IdTaken,
        StoreError::IdsExhausted => LibraryError::IdsExhausted,
    }
}

fn store_error(e: StoreError) -> (r: LibraryError)
    ensures
        r == from_store(e),
{
    match e {
        StoreError::NotFound => LibraryError::NotFound,
        StoreError::IdTaken => LibraryError::IdTaken,
        StoreError::IdsExhausted => LibraryError::IdsExhausted,
    }
}

/// Whether some directory of `dirs` is named `h`.
pub open spec fn has_dir(dirs: Seq<HashDirView>, h: Seq<char>) -> bool {
    exists|i: int| 0 <= i < dirs.len() && (#[trigger] dirs[i]).hash == h
}

/// No two directories share a name.
pub open spec fn distinct_hashes(dirs: Seq<HashDirView>) -> bool {
    forall|i: int, j: int| 0 <= i < j < dirs.len() ==> (#[trigger] dirs[i]).hash != (#[trigger] dirs[j]).hash
}

/// The position of the directory named `h`.
pub open spec fn dir_index(dirs: Seq<HashDirView>, h: Seq<char>) -> int {
    choose|i: int| 0 <= i < dirs.len() && (#[trigger] dirs[i]).hash == h
}

/// The directories after placing `bytes` from a file named `name`: unchanged
/// when a directory for their digest exists, else one more directory.
pub open spec fn placed(dirs: Seq<HashDirView>, bytes: Seq<u8>, name: Seq<char>) -> Seq<HashDirView> {
    if has_dir(dirs, digest_text(bytes)) {
        dirs
    } else {
        dirs.push(HashDirView { hash: digest_text(bytes), extension: extension_of(name) })
    }
}

/// The digest that the row with id `id` refers to.
pub open spec fn hash_of_id(rows: Seq<MediaEntry>, id: u64) -> Seq<char> {
    rows[choose|i: int| 0 <= i < rows.len() && (#[trigger] rows[i]).id == id].hash@
}

/// Where an import put its bytes.
pub struct Placement {
    /// The content digest.
    pub hash: String,
    /// The path of the original file.
    pub path: String,
    /// Whether the caller must write the bytes there; false when the same
    /// content is already in the library, which is never rewritten.
    pub write_original: bool,
}

/// A preview to render from `source` into `dest`.
pub struct ThumbnailJob {
    pub source: String,
    pub dest: String,
    /// Longer edge of the preview in pixels.
    pub edge: u32,
    pub is_video: bool,
}

/// The content-addressed media library: hash directories, metadata rows and
/// the readiness of the classification model.
pub struct Library {
    data_dir: String,
    dirs: Vec<HashDir>,
    store: MetadataStore,
    model_ready: bool,
}

impl Library {
    /// The data directory that holds the library.
    pub closed spec fn data_dir(&self) -> Seq<char> {
        self.data_dir@
    }

    /// The hash directories, in the order they were created.
    pub closed spec fn dirs(&self) -> Seq<HashDirView> {
        self.dirs@.map_values(|d: HashDir| d@)
    }

    /// The metadata rows, in insertion order.
    pub closed spec fn rows(&self) -> Seq<MediaEntry> {
        self.store.rows()
    }

    /// The id that the next insertion receives.
    pub closed spec fn next_id(&self) -> u64 {
        self.store.next_id()
    }

    /// Whether a classification model is loaded.
    pub closed spec fn ready(&self) -> bool {
        self.model_ready
    }

    /// Directory names are unique and every row's digest has a directory.
    pub closed spec fn wf(&self) -> bool {
        &&& self.store.wf()
        &&& distinct_hashes(self.dirs())
        &&& forall|i: int| 0 <= i < self.rows().len() ==> has_dir(self.dirs(), (#[trigger] self.rows()[i]).hash@)
    }

    /// An empty library under `data_dir`, with no model loaded.
    pub fn new(data_dir: String) -> (r: Library)
        ensures
            r.wf(),
            r.data_dir() == data_dir@,
            r.dirs() == Seq::<HashDirView>::empty(),
            r.rows() == Seq::<MediaEntry>::empty(),
            r.next_id() == 1,
            !r.ready(),
    {
        let r = Library { data_dir, dirs: Vec::new(), store: MetadataStore::new(), model_ready: false };
        assert(r.dirs() =~= Seq::<HashDirView>::empty());
        r
    }

    /// The data directory that holds the library.
    pub fn data_directory(&self) -> (r: String)
        ensures
            r@ == self.data_dir(),
    {
        self.data_dir.clone()
    }

    /// Whether a classification model is loaded.
    pub fn model_ready(&self) -> (r: bool)
        ensures
            r == self.ready(),
    {
        self.model_ready
    }

    /// Records whether a classification model is loaded.
    pub fn set_model_ready(&mut self, ready: bool)
        requires
            old(self).wf(),
        ensures
            final(self).wf(),
            final(self).ready() == ready,
            final(self).data_dir() == old(self).data_dir(),
            final(self).dirs() == old(self).dirs(),
            final(self).rows() == old(self).rows(),
            final(self).next_id() == old(self).next_id(),
    {
        self.model_ready = ready;
    }

    fn find_dir(&self, hash: &String) -> (r: Option<usize>)
        requires
            self.wf(),
        ensures
            match r {
                Some(i) => i < self.dirs().len() && i == dir_index(self.dirs(), hash@)
                    && self.dirs()[i as int].hash == hash@,
                None => !has_dir(self.dirs(), hash@),
            },
    {
        let mut i: usize = 0;
        while i < self.dirs.len()
            invariant
                self.wf(),
                i <= self.dirs@.len(),
                self.dirs().len() == self.dirs@.len(),
                forall|j: int| 0 <= j < i ==> (#[trigger] self.dirs()[j]).hash != hash@,
            decreases self.dirs@.len() - i,
        {
            if self.dirs[i].hash == *hash {
                proof {
                    let d = self.dirs();
                    assert(d[i as int].hash == hash@);
                    let k = dir_index(d, hash@);
                    assert(0 <= k < d.len() && d[k].hash == hash@);
                    if k != i as int {
                        assert(distinct_hashes(d));
                        if k < i {
                            assert(d[k].hash != d[i as int].hash);
                        } else {
                            assert(d[i as int].hash != d[k].hash);
                        }
                    }
                }
                return Some(i);
            }
            i = i + 1;
        }
        None
    }

    /// Stores `bytes`, read from a file named `original_name`, under their
    /// digest. A new digest gets a directory and its file must be written; a
    /// known digest changes nothing and its file is left as it is.
    pub fn place_bytes(&mut self, bytes: &[u8], original_name: &str) -> (r: Placement)
        requires
            old(self).wf(),
        ensures
            final(self).wf(),
            r.hash@ == digest_text(bytes@),
            final(self).dirs() == placed(old(self).dirs(), bytes@, original_name@),
            has_dir(final(self).dirs(), r.hash@),
            r.write_original == !has_dir(old(self).dirs(), digest_text(bytes@)),
            r.path@ == original_path_text(
                old(self).data_dir(),
                r.hash@,
                final(self).dirs()[dir_index(final(self).dirs(), r.hash@)].extension,
            ),
            final(self).data_dir() == old(self).data_dir(),
            final(self).rows() == old(self).rows(),
            final(self).next_id() == old(self).next_id(),
            final(self).ready() == old(self).ready(),
    {
        let hash = hash_bytes(bytes);
        match self.find_dir(&hash) {
            Some(i) => {
                let path = original_path(self.data_dir.as_str(), hash.as_str(), self.dirs[i].extension.as_str());
                Placement { hash, path, write_original: false }
            },
            None => {
                let extension = file_extension(original_name);
                let path = original_path(self.data_dir.as_str(), hash.as_str(), extension.as_str());
                let ghost before = self.dirs();
                self.dirs.push(HashDir { hash: hash.clone(), extension });
                proof {
                    let d = self.dirs();
                    assert(d =~= before.push(HashDirView { hash: hash@, extension: extension_of(original_name@) }));
                    assert(d[before.len() as int].hash == hash@);
                    assert forall|i: int, j: int| 0 <= i < j < d.len() implies (#[trigger] d[i]).hash != (#[trigger] d[j]).hash by {
                        if j == before.len() {
                            assert(d[i] == before[i]);
                        } else {
                            assert(d[i] == before[i] && d[j] == before[j]);
                        }
                    }
                    let k = dir_index(d, hash@);
                    if k != before.len() as int {
                        assert(d[k] == before[k]);
                    }
                    assert forall|i: int| 0 <= i < self.rows().len() implies has_dir(d, (#[trigger] self.rows()[i]).hash@) by {
                        let h = self.rows()[i].hash@;
                        let m = choose|m: int| 0 <= m < before.len() && (#[trigger] before[m]).hash == h;
                        assert(d[m] == before[m]);
                    }
                }
                Placement { hash, path, write_original: true }
            },
        }
    }

    /// Registers a hash directory that already exists on disk; false, with
    /// nothing changed, when one of that name is known.
    pub fn adopt_dir(&mut self, hash: String, extension: String) -> (r: bool)
        requires
            old(self).wf(),
        ensures
            final(self).wf(),
            r == !has_dir(old(self).dirs(), hash@),
            r ==> final(self).dirs() == old(self).dirs().push(HashDirView { hash: hash@, extension: extension@ }),
            !r ==> final(self).dirs() == old(self).dirs(),
            final(self).data_dir() == old(self).data_dir(),
            final(self).rows() == old(self).rows(),
            final(self).next_id() == old(self).next_id(),
            final(self).ready() == old(self).ready(),
    {
        if self.find_dir(&hash).is_some() {
            return false;
        }
        let ghost before = self.dirs();
        let ghost h = hash@;
        self.dirs.push(HashDir { hash, extension });
        proof {
            let d = self.dirs();
            assert(d =~= before.push(HashDirView { hash: h, extension: extension@ }));
            assert forall|i: int, j: int| 0 <= i < j < d.len() implies (#[trigger] d[i]).hash != (#[trigger] d[j]).hash by {
                if j == before.len() {
                    assert(d[i] == before[i]);
                } else {
                    assert(d[i] == before[i] && d[j] == before[j]);
                }
            }
            assert forall|i: int| 0 <= i < self.rows().len() implies has_dir(d, (#[trigger] self.rows()[i]).hash@) by {
                let g = self.rows()[i].hash@;
                let m = choose|m: int| 0 <= m < before.len() && (#[trigger] before[m]).hash == g;
                assert(d[m] == before[m]);
            }
        }
        true
    }

    /// The path of the original file of the digest `hash`.
    pub fn resolve_original(&self, hash: &String) -> (r: Result<String, LibraryError>)
        requires
            self.wf(),
        ensures
            r is Ok <==> has_dir(self.dirs(), hash@),
            r is Ok ==> r->Ok_0@ == original_path_text(
                self.data_dir(),
                hash@,
                self.dirs()[dir_index(self.dirs(), hash@)].extension,
            ),
            r is Err ==> r == Err::<String, LibraryError>(LibraryError::NotFound),
    {
        match self.find_dir(hash) {
            Some(i) => Ok(original_path(self.data_dir.as_str(), hash.as_str(), self.dirs[i].extension.as_str())),
            None => Err(LibraryError::NotFound),
        }
    }

    /// Records `entry` under a fresh id. Its digest must name a directory.
    pub fn insert_entry(&mut self, entry: MediaEntry) -> (r: Result<u64, LibraryError>)
        requires
            old(self).wf(),
        ensures
            final(self).wf(),
            final(self).dirs() == old(self).dirs(),
            final(self).data_dir() == old(self).data_dir(),
            final(self).ready() == old(self).ready(),
            !has_dir(old(self).dirs(), entry.hash@) ==> r == Err::<u64, LibraryError>(LibraryError::NotFound)
                && final(self).rows() == old(self).rows() && final(self).next_id() == old(self).next_id(),
            has_dir(old(self).dirs(), entry.hash@) && old(self).next_id() == u64::MAX ==> r == Err::<
                u64,
                LibraryError,
            >(LibraryError::IdsExhausted) && final(self).rows() == old(self).rows()
                && final(self).next_id() == old(self).next_id(),
            has_dir(old(self).dirs(), entry.hash@) && old(self).next_id() < u64::MAX ==> r == Ok::<
                u64,
                LibraryError,
            >(old(self).next_id()) && final(self).rows() == old(self).rows().push(
                with_id(entry, old(self).next_id()),
            ) && final(self).next_id() == old(self).next_id() + 1,
            r is Ok ==> has_id(final(self).rows(), r->Ok_0),
    {
        if self.find_dir(&entry.hash).is_none() {
            return Err(LibraryError::NotFound);
        }
        let ghost before = self.rows();
        let ghost e = entry;
        let res = self.store.insert_entry(entry);
        proof {
            assert forall|i: int| 0 <= i < self.rows().len() implies has_dir(self.dirs(), (#[trigger] self.rows()[i]).hash@) by {
                if i < before.len() {
                    assert(self.rows()[i] == before[i]);
                } else {
                    assert(self.rows()[i].hash == e.hash);
                }
            }
        }
        match res {
            Ok(id) => Ok(id),
            Err(err) => Err(store_error(err)),
        }
    }

    /// Puts back a row whose id was assigned earlier. Its digest must name a
    /// directory and its id must be above every id handed out so far.
    pub fn restore_entry(&mut self, entry: MediaEntry) -> (r: Result<(), LibraryError>)
        requires
            old(self).wf(),
        ensures
            final(self).wf(),
            final(self).dirs() == old(self).dirs(),
            final(self).data_dir() == old(self).data_dir(),
            final(self).ready() == old(self).ready(),
            r is Ok <==> has_dir(old(self).dirs(), entry.hash@) && old(self).next_id() <= entry.id < u64::MAX,
            r is Ok ==> final(self).rows() == old(self).rows().push(entry) && final(self).next_id() == entry.id + 1,
            r is Err ==> final(self).rows() == old(self).rows() && final(self).next_id() == old(self).next_id(),
            !has_dir(old(self).dirs(), entry.hash@) ==> r == Err::<(), LibraryError>(LibraryError::NotFound),
            has_dir(old(self).dirs(), entry.hash@) && entry.id < old(self).next_id() ==> r == Err::<
                (),
                LibraryError,
            >(LibraryError::IdTaken),
            has_dir(old(self).dirs(), entry.hash@) && old(self).next_id() <= entry.id && entry.id == u64::MAX
                ==> r == Err::<(), LibraryError>(LibraryError::IdsExhausted),
    {
        if self.find_dir(&entry.hash).is_none() {
            return Err(LibraryError::NotFound);
        }
        let ghost before = self.rows();
        let ghost e = entry;
        let res = self.store.restore_entry(entry);
        proof {
            assert forall|i: int| 0 <= i < self.rows().len() implies has_dir(self.dirs(), (#[trigger] self.rows()[i]).hash@) by {
                if i < before.len() {
                    assert(self.rows()[i] == before[i]);
                } else {
                    assert(self.rows()[i].hash == e.hash);
                }
            }
        }
        match res {
            Ok(()) => Ok(()),
            Err(err) => Err(store_error(err)),
        }
    }

    /// Writes probed facts into the row with id `id`; its other fields stay.
    pub fn record_facts(&mut self, id: u64, resolution: Option<String>, duration_ms: Option<u64>) -> (r: Result<
        (),
        LibraryError,
    >)
        requires
            old(self).wf(),
        ensures
            final(self).wf(),
            final(self).dirs() == old(self).dirs(),
            final(self).next_id() == old(self).next_id(),
            final(self).data_dir() == old(self).data_dir(),
            final(self).ready() == old(self).ready(),
            has_id(old(self).rows(), id) <==> r is Ok,
            r is Err ==> r == Err::<(), LibraryError>(LibraryError::NotFound) && final(self).rows() == old(self).rows(),
            r is Ok ==> exists|k: int|
                0 <= k < old(self).rows().len() && old(self).rows()[k].id == id && final(self).rows()
                    == old(self).rows().update(k, with_facts(old(self).rows()[k], resolution, duration_ms)),
    {
        let ghost before = self.rows();
        let res = self.store.record_facts(id, resolution, duration_ms);
        proof {
            assert forall|i: int| 0 <= i < self.rows().len() implies has_dir(self.dirs(), (#[trigger] self.rows()[i]).hash@) by {
                assert(self.rows()[i].hash == before[i].hash);
            }
        }
        match res {
            Ok(()) => Ok(()),
            Err(_) => Err(LibraryError::NotFound),
        }
    }

    /// Records a classification in the row with id `id`; its other fields stay.
    pub fn record_class(&mut self, id: u64, label: String, confidence: u32) -> (r: Result<(), LibraryError>)
        requires
            old(self).wf(),
        ensures
            final(self).wf(),
            final(self).dirs() == old(self).dirs(),
            final(self).next_id() == old(self).next_id(),
            final(self).data_dir() == old(self).data_dir(),
            final(self).ready() == old(self).ready(),
            has_id(old(self).rows(), id) <==> r is Ok,
            r is Err ==> r == Err::<(), LibraryError>(LibraryError::NotFound) && final(self).rows() == old(self).rows(),
            r is Ok ==> exists|k: int|
                0 <= k < old(self).rows().len() && old(self).rows()[k].id == id && final(self).rows()
                    == old(self).rows().update(k, with_class(old(self).rows()[k], label, confidence)),
    {
        let ghost before = self.rows();
        let res = self.store.record_class(id, label, confidence);
        proof {
            assert forall|i: int| 0 <= i < self.rows().len() implies has_dir(self.dirs(), (#[trigger] self.rows()[i]).hash@) by {
                assert(self.rows()[i].hash == before[i].hash);
            }
        }
        match res {
            Ok(()) => Ok(()),
            Err(_) => Err(LibraryError::NotFound),
        }
    }

    /// Every row, in insertion order.
    pub fn list_entries(&self) -> (r: Vec<MediaEntry>)
        ensures
            r@ == self.rows(),
    {
        self.store.list_entries()
    }

    /// Removes the row with id `id`. When no remaining row refers to its
    /// digest, the digest's directory goes too, and its path is returned for
    /// removal from disk.
    pub fn delete_entry(&mut self, id: u64) -> (r: Result<Option<String>, LibraryError>)
        requires
            old(self).wf(),
        ensures
            final(self).wf(),
            final(self).rows() == without_id(old(self).rows(), id),
            !has_id(final(self).rows(), id),
            final(self).next_id() == old(self).next_id(),
            final(self).data_dir() == old(self).data_dir(),
            final(self).ready() == old(self).ready(),
            r is Ok <==> has_id(old(self).rows(), id),
            r is Ok ==> final(self).rows().len() + 1 == old(self).rows().len(),
            r is Err ==> r == Err::<Option<String>, LibraryError>(LibraryError::NotFound)
                && final(self).dirs() == old(self).dirs(),
            r is Ok && refers_to(final(self).rows(), hash_of_id(old(self).rows(), id)) ==> r == Ok::<
                Option<String>,
                LibraryError,
            >(None) && final(self).dirs() == old(self).dirs(),
            r is Ok && !refers_to(final(self).rows(), hash_of_id(old(self).rows(), id)) ==> {
                let h = hash_of_id(old(self).rows(), id);
                &&& r->Ok_0 is Some
                &&& r->Ok_0->Some_0@ == hash_dir_text(old(self).data_dir(), h)
                &&& final(self).dirs() == old(self).dirs().remove(dir_index(old(self).dirs(), h))
                &&& !has_dir(final(self).dirs(), h)
            },
    {
        let ghost old_rows = self.rows();
        let ghost old_dirs = self.dirs();
        let removed = self.store.delete_entry(id);
        let entry = match removed {
            Err(_) => {
                return Err(LibraryError::NotFound);
            },
            Ok(e) => e,
        };
        proof {
            let k = choose|k: int|
                0 <= k < old_rows.len() && old_rows[k] == entry && entry.id == id && self.rows()
                    == old_rows.remove(k);
            let c = choose|i: int| 0 <= i < old_rows.len() && (#[trigger] old_rows[i]).id == id;
            if c != k {
                if c < k {
                    assert(old_rows[c].id < old_rows[k].id);
                } else {
                    assert(old_rows[k].id < old_rows[c].id);
                }
            }
            assert(hash_of_id(old_rows, id) == entry.hash@);
            assert forall|i: int| 0 <= i < self.rows().len() implies has_dir(self.dirs(), (#[trigger] self.rows()[i]).hash@) by {
                if i < k {
                    assert(self.rows()[i] == old_rows[i]);
                } else {
                    assert(self.rows()[i] == old_rows[i + 1]);
                }
            }
        }
        if self.store.references_hash(&entry.hash) {
            return Ok(None);
        }
        let idx = match self.find_dir(&entry.hash) {
            Some(i) => i,
            None => {
                return Ok(None);
            },
        };
        let path = hash_dir(self.data_dir.as_str(), entry.hash.as_str());
        let _gone = self.dirs.remove(idx);
        proof {
            let d = self.dirs();
            let h = entry.hash@;
            assert(d =~= old_dirs.remove(idx as int));
            assert forall|i: int, j: int| 0 <= i < j < d.len() implies (#[trigger] d[i]).hash != (#[trigger] d[j]).hash by {
                if j < idx {
                    assert(d[i] == old_dirs[i] && d[j] == old_dirs[j]);
                } else if i < idx {
                    assert(d[i] == old_dirs[i] && d[j] == old_dirs[j + 1]);
                } else {
                    assert(d[i] == old_dirs[i + 1] && d[j] == old_dirs[j + 1]);
                }
            }
            assert(!has_dir(d, h)) by {
                if has_dir(d, h) {
                    let m = choose|m: int| 0 <= m < d.len() && (#[trigger] d[m]).hash == h;
                    if m < idx {
                        assert(old_dirs[m].hash == old_dirs[idx as int].hash);
                    } else {
                        assert(old_dirs[m + 1].hash == old_dirs[idx as int].hash);
                    }
                }
            }
            assert forall|i: int| 0 <= i < self.rows().len() implies has_dir(d, (#[trigger] self.rows()[i]).hash@) by {
                let g = self.rows()[i].hash@;
                assert(g != h);
                let m = choose|m: int| 0 <= m < old_dirs.len() && (#[trigger] old_dirs[m]).hash == g;
                if m < idx {
                    assert(d[m] == old_dirs[m]);
                } else {
                    assert(m != idx);
                    assert(d[m - 1] == old_dirs[m]);
                }
            }
        }
        Ok(Some(path))
    }

    /// Removes every row and every hash directory, and returns the paths of
    /// the directories to remove from disk. Ids keep counting.
    pub fn clear_all(&mut self) -> (r: Vec<String>)
        requires
            old(self).wf(),
        ensures
            final(self).wf(),
            final(self).rows() == Seq::<MediaEntry>::empty(),
            final(self).dirs() == Seq::<HashDirView>::empty(),
            final(self).next_id() == old(self).next_id(),
            final(self).data_dir() == old(self).data_dir(),
            final(self).ready() == old(self).ready(),
            r@.len() == old(self).dirs().len(),
            forall|i: int| 0 <= i < r@.len() ==> (#[trigger] r@[i])@ == hash_dir_text(
                old(self).data_dir(),
                old(self).dirs()[i].hash,
            ),
    {
        let mut paths: Vec<String> = Vec::new();
        let mut i: usize = 0;
        while i < self.dirs.len()
            invariant
                i <= self.dirs@.len(),
                self.dirs().len() == self.dirs@.len(),
                paths@.len() == i,
                forall|j: int| 0 <= j < i ==> (#[trigger] paths@[j])@ == hash_dir_text(self.data_dir(), self.dirs()[j].hash),
            decreases self.dirs@.len() - i,
        {
            paths.push(hash_dir(self.data_dir.as_str(), self.dirs[i].hash.as_str()));
            i = i + 1;
        }
        self.store.clear_all();
        self.dirs = Vec::new();
        assert(self.dirs() =~= Seq::<HashDirView>::empty());
        paths
    }

    /// The preview to render for the digest `hash`: from its original file to
    /// `thumbnail.webp` beside it, with the standard edge length.
    pub fn ensure_thumbnail(&self, hash: &String, is_video: bool) -> (r: Result<ThumbnailJob, LibraryError>)
        requires
            self.wf(),
        ensures
            r is Ok <==> has_dir(self.dirs(), hash@),
            r is Err ==> r == Err::<ThumbnailJob, LibraryError>(LibraryError::NotFound),
            r is Ok ==> {
                let job = r->Ok_0;
                &&& job.source@ == original_path_text(
                    self.data_dir(),
                    hash@,
                    self.dirs()[dir_index(self.dirs(), hash@)].extension,
                )
                &&& job.dest@ == thumbnail_path_text(self.data_dir(), hash@)
                &&& job.edge == THUMBNAIL_EDGE
                &&& job.is_video == is_video
            },
    {
        let source = self.resolve_original(hash)?;
        let dest = thumbnail_path(self.data_dir.as_str(), hash.as_str());
        Ok(ThumbnailJob { source, dest, edge: THUMBNAIL_EDGE, is_video })
    }

    /// The original file to classify for the digest `hash`. Without a loaded
    /// model this is `ModelUnavailable`, whatever the digest.
    pub fn classify_source(&self, hash: &String) -> (r: Result<String, LibraryError>)
        requires
            self.wf(),
        ensures
            !self.ready() ==> r == Err::<String, LibraryError>(LibraryError::ModelUnavailable),
            self.ready() && !has_dir(self.dirs(), hash@) ==> r == Err::<String, LibraryError>(
                LibraryError::NotFound,
            ),
            self.ready() && has_dir(self.dirs(), hash@) ==> r is Ok && r->Ok_0@ == original_path_text(
                self.data_dir(),
                hash@,
                self.dirs()[dir_index(self.dirs(), hash@)].extension,
            ),
    {
        if !self.model_ready {
            return Err(LibraryError::ModelUnavailable);
        }
        self.resolve_original(hash)
    }

} // impl Library

/// Importing the same bytes twice leaves one directory for their digest: the
/// second import changes nothing (so nothing is rewritten), whatever name the
/// file had the second time.
pub proof fn place_twice_keeps_one_dir(dirs: Seq<HashDirView>, bytes: Seq<u8>, name1: Seq<char>, name2: Seq<char>)
    requires
        distinct_hashes(dirs),
    ensures
        placed(placed(dirs, bytes, name1), bytes, name2) == placed(dirs, bytes, name1),
        has_dir(placed(dirs, bytes, name1), digest_text(bytes)),
        distinct_hashes(placed(dirs, bytes, name1)),
        forall|i: int, j: int|
            0 <= i < placed(dirs, bytes, name1).len() && 0 <= j < placed(dirs, bytes, name1).len()
                && (#[trigger] placed(dirs, bytes, name1)[i]).hash == digest_text(bytes)
                && (#[trigger] placed(dirs, bytes, name1)[j]).hash == digest_text(bytes) ==> i == j,
{
    let h = digest_text(bytes);
    let d = placed(dirs, bytes, name1);
    if !has_dir(dirs, h) {
        assert(d[dirs.len() as int].hash == h);
        assert forall|i: int, j: int| 0 <= i < j < d.len() implies (#[trigger] d[i]).hash != (#[trigger] d[j]).hash by {
            if j == dirs.len() {
                assert(d[i] == dirs[i]);
            } else {
                assert(d[i] == dirs[i] && d[j] == dirs[j]);
            }
        }
    }
    assert forall|i: int, j: int|
        0 <= i < d.len() && 0 <= j < d.len() && (#[trigger] d[i]).hash == h && (#[trigger] d[j]).hash == h implies i == j by {
        if i < j {
            assert(d[i].hash != d[j].hash);
        } else if j < i {
            assert(d[j].hash != d[i].hash);
        }
    }
}

/// Rows never share an id, including rows that refer to the same digest.
pub proof fn rows_have_distinct_ids(lib: &Library)
    requires
        lib.wf(),
    ensures
        forall|i: int, j: int| 0 <= i < j < lib.rows().len() ==> (#[trigger] lib.rows()[i]).id != (#[trigger] lib.rows()[j]).id,
{
}

/// Every listed row's digest names a directory, so resolving its original
/// file succeeds.
pub proof fn listed_entries_resolve(lib: &Library)
    requires
        lib.wf(),
    ensures
        forall|i: int| 0 <= i < lib.rows().len() ==> has_dir(lib.dirs(), (#[trigger] lib.rows()[i]).hash@),
{
}

} // verus!
