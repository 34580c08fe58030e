//! The store of blobs: compressed bytes under names. The store knows nothing
//! of what a name means; the archive makes the names.

use vstd::prelude::*;
use crate::errors::BufkitDataErr;
use crate::trusted::{gunzip, gunzipped, gzip, gzipped};

verus! {

/// A blob, as mathematical values.
pub struct BlobView {
    pub name: Seq<char>,
    pub data: Seq<u8>,
}

/// The characters of each of the texts.
pub open spec fn texts(names: Seq<String>) -> Seq<Seq<char>> {
    Seq::new(names.len(), |i: int| names[i]@)
}

/// The names of the blobs, in their order.
pub open spec fn blob_names(blobs: Seq<BlobView>) -> Seq<Seq<char>> {
    Seq::new(blobs.len(), |k: int| blobs[k].name)
}

/// Whether the store holds a blob of this name.
pub open spec fn has_blob(blobs: Seq<BlobView>, name: Seq<char>) -> bool {
    exists|k: int| 0 <= k < blobs.len() && (#[trigger] blobs[k]).name == name
}

/// The place of the blob of this name.
pub open spec fn blob_position(blobs: Seq<BlobView>, name: Seq<char>) -> int {
    choose|k: int| 0 <= k < blobs.len() && (#[trigger] blobs[k]).name == name
}

/// The compressed bytes under this name, if the store has them.
pub open spec fn blob_data(blobs: Seq<BlobView>, name: Seq<char>) -> Option<Seq<u8>> {
    if has_blob(blobs, name) {
        Some(blobs[blob_position(blobs, name)].data)
    } else {
        None
    }
}

/// The store without the blob of this name, the others in their order.
pub open spec fn blobs_without(blobs: Seq<BlobView>, name: Seq<char>) -> Seq<BlobView> {
    if has_blob(blobs, name) {
        blobs.remove(blob_position(blobs, name))
    } else {
        blobs
    }
}

/// The store once `blob` has been put in, in place of the one of its name.
pub open spec fn blobs_with(blobs: Seq<BlobView>, blob: BlobView) -> Seq<BlobView> {
    blobs_without(blobs, blob.name).push(blob)
}

/// Whether no two blobs share a name.
pub open spec fn blob_names_differ(blobs: Seq<BlobView>) -> bool {
    forall|k: int, l: int|
        0 <= k < l < blobs.len() ==> (#[trigger] blobs[k]).name != (#[trigger] blobs[l]).name
}

/// Where blob names differ, a blob of a name is the blob at
/// `blob_position`.
pub proof fn lemma_blob_position(blobs: Seq<BlobView>, name: Seq<char>, k: int)
    requires
        blob_names_differ(blobs),
        0 <= k < blobs.len(),
        blobs[k].name == name,
    ensures
        has_blob(blobs, name),
        blob_position(blobs, name) == k,
{
    let l = blob_position(blobs, name);
    if k < l {
        assert(blobs[k].name != blobs[l].name);
    }
    if l < k {
        assert(blobs[l].name != blobs[k].name);
    }
}

/// Whether `r` is what reading a blob gives: the bytes that the decoder
/// reads out of it; an I/O error where the decoder reports one; and, where
/// the store has no blob of the name, the error that says so.
pub open spec fn is_unpacked(
    packed: Option<Seq<u8>>,
    name: Seq<char>,
    r: Result<Vec<u8>, BufkitDataErr>,
) -> bool {
    match packed {
        None => match r {
            Err(e) => e.is_missing_blob(name),
            Ok(_) => false,
        },
        Some(bytes) => match gunzipped(bytes) {
            Some(data) => match r {
                Ok(v) => v@ == data,
                Err(_) => false,
            },
            None => r matches Err(BufkitDataErr::Io(_)),
        },
    }
}

/// A store without one of its blobs: no two of the blobs that are left
/// share a name, and the store has a blob of a name exactly when a blob
/// other than the one taken out has it.
pub proof fn lemma_blobs_left(blobs: Seq<BlobView>, k: int, name: Seq<char>)
    requires
        0 <= k < blobs.len(),
    ensures
        blob_names_differ(blobs) ==> blob_names_differ(blobs.remove(k)),
        has_blob(blobs.remove(k), name) ==> has_blob(blobs, name),
        has_blob(blobs, name) && blobs[k].name != name ==> has_blob(blobs.remove(k), name)
            && blobs.remove(k)[blob_position(blobs.remove(k), name)].name == name,
        blob_names_differ(blobs) && blobs[k].name == name ==> !has_blob(blobs.remove(k), name),
{
    let left = blobs.remove(k);
    if blob_names_differ(blobs) {
        assert forall|a: int, b: int| 0 <= a < b < left.len() implies (#[trigger] left[a]).name
            != (#[trigger] left[b]).name by {
            let a0 = if a < k { a } else { a + 1 };
            let b0 = if b < k { b } else { b + 1 };
            assert(blobs[a0].name != blobs[b0].name);
        }
    }
    if has_blob(left, name) {
        let i = choose|i: int| 0 <= i < left.len() && (#[trigger] left[i]).name == name;
        let i0 = if i < k { i } else { i + 1 };
        assert(blobs[i0].name == name);
        if blob_names_differ(blobs) && blobs[k].name == name {
            if i0 < k {
                assert(blobs[i0].name != blobs[k].name);
            } else {
                assert(blobs[k].name != blobs[i0].name);
            }
        }
    }
    if has_blob(blobs, name) && blobs[k].name != name {
        let i = choose|i: int| 0 <= i < blobs.len() && (#[trigger] blobs[i]).name == name;
        let i1 = if i < k { i } else { i - 1 };
        assert(left[i1].name == name);
    }
}

/// A store with one more blob has a blob of a name exactly when the new
/// blob or a blob of the store has it.
pub proof fn lemma_blobs_with(blobs: Seq<BlobView>, blob: BlobView, name: Seq<char>)
    ensures
        has_blob(blobs.push(blob), name) <==> blob.name == name || has_blob(blobs, name),
{
    let more = blobs.push(blob);
    if has_blob(more, name) {
        let i = choose|i: int| 0 <= i < more.len() && (#[trigger] more[i]).name == name;
        if i < blobs.len() {
            assert(blobs[i].name == name);
        }
    }
    if has_blob(blobs, name) {
        let i = choose|i: int| 0 <= i < blobs.len() && (#[trigger] blobs[i]).name == name;
        assert(more[i].name == name);
    }
    if blob.name == name {
        assert(more[blobs.len() as int].name == name);
    }
}

/// Which blobs the store has once a blob has been put in: the new one, and
/// those that it had before.
pub proof fn lemma_blobs_after_storing(blobs: Seq<BlobView>, blob: BlobView, name: Seq<char>)
    ensures
        has_blob(blobs_with(blobs, blob), name) <==> blob.name == name || has_blob(blobs, name),
{
    let first = blobs_without(blobs, blob.name);
    lemma_blobs_with(first, blob, name);
    if has_blob(blobs, blob.name) {
        lemma_blobs_left(blobs, blob_position(blobs, blob.name), name);
    }
}

/// A compressed blob under its name.
pub struct Blob {
    name: String,
    data: Vec<u8>,
}

impl View for Blob {
    type V = BlobView;

    closed spec fn view(&self) -> BlobView {
        BlobView { name: self.name@, data: self.data@ }
    }
}

/// The store of blobs. No two of its blobs share a name.
pub struct BlobStore {
    blobs: Vec<Blob>,
}

impl View for BlobStore {
    type V = Seq<BlobView>;

    closed spec fn view(&self) -> Seq<BlobView> {
        Seq::new(self.blobs@.len(), |k: int| self.blobs@[k]@)
    }
}

impl BlobStore {
    /// Whether the store is well formed: no two blobs share a name.
    pub open spec fn wf(&self) -> bool {
        blob_names_differ(self@)
    }

    /// A store without blobs.
    pub fn new() -> (r: Self)
        ensures
            r.wf(),
            r@.len() == 0,
    {
        BlobStore { blobs: Vec::new() }
    }

    /// The place of the blob of this name.
    fn locate(&self, name: &String) -> (r: Option<usize>)
        requires
            self.wf(),
        ensures
            match r {
                Some(k) => has_blob(self@, name@) && k == blob_position(self@, name@),
                None => !has_blob(self@, name@),
            },
    {
        let ghost blobs = self@;
        let mut k: usize = 0;
        while k < self.blobs.len()
            invariant
                0 <= k <= self.blobs.len(),
                blobs == self@,
                blob_names_differ(blobs),
                forall|l: int| 0 <= l < k ==> (#[trigger] blobs[l]).name != name@,
            decreases self.blobs.len() - k,
        {
            if self.blobs[k].name == *name {
                proof {
                    assert(blobs[k as int].name == name@);
                    lemma_blob_position(blobs, name@, k as int);
                }
                return Some(k);
            }
            k = k + 1;
        }
        None
    }

    /// Whether the store has a blob of this name.
    pub fn contains(&self, name: &str) -> (r: bool)
        requires
            self.wf(),
        ensures
            r == has_blob(self@, name@),
    {
        let name = name.to_owned();
        self.locate(&name).is_some()
    }

    /// Puts compressed bytes into the store under a name, in place of the
    /// blob of that name.
    pub fn put(&mut self, name: String, packed: Vec<u8>)
        requires
            old(self).wf(),
        ensures
            final(self).wf(),
            final(self)@ == blobs_with(old(self)@, BlobView { name: name@, data: packed@ }),
    {
        let ghost before = self@;
        let found = self.locate(&name);
        if let Some(k) = found {
            self.blobs.remove(k);
            proof {
                assert(self@ =~= before.remove(k as int));
                lemma_blobs_left(before, k as int, name@);
            }
        }
        let ghost between = self@;
        let blob = Blob { name, data: packed };
        let ghost added = blob@;
        self.blobs.push(blob);
        proof {
            let after = self@;
            assert(after =~= between.push(added));
            assert forall|a: int, b: int|
                0 <= a < b < after.len() implies (#[trigger] after[a]).name
                != (#[trigger] after[b]).name by {
                if b == between.len() {
                    assert(between[a].name != added.name);
                } else {
                    assert(between[a].name != between[b].name);
                }
            }
        }
    }

    /// Compresses `source` and puts it into the store under `name`, in
    /// place of the blob of that name. What the store then holds under the
    /// name decompresses to `source`. Fails, and changes nothing, exactly
    /// where the compressor reports an error.
    pub fn store(&mut self, source: &[u8], name: &str) -> (r: Result<(), BufkitDataErr>)
        requires
            old(self).wf(),
        ensures
            final(self).wf(),
            match gzipped(source@) {
                Some(packed) => r is Ok && gunzipped(packed) == Some(source@) && final(self)@
                    == blobs_with(old(self)@, BlobView { name: name@, data: packed }),
                None => r matches Err(BufkitDataErr::Io(_)) && final(self)@ == old(self)@,
            },
    {
        match gzip(source) {
            Ok(packed) => {
                self.put(name.to_owned(), packed);
                Ok(())
            },
            Err(e) => Err(BufkitDataErr::Io(e)),
        }
    }

    /// The compressed bytes under this name, if the store has any.
    pub fn get(&self, name: &str) -> (r: Option<&[u8]>)
        requires
            self.wf(),
        ensures
            match r {
                Some(packed) => blob_data(self@, name@) == Some(packed@),
                None => blob_data(self@, name@) is None,
            },
    {
        let name = name.to_owned();
        match self.locate(&name) {
            Some(k) => Some(self.blobs[k].data.as_slice()),
            None => None,
        }
    }

    /// The bytes that the blob of this name holds, decompressed.
    pub fn load(&self, name: &str) -> (r: Result<Vec<u8>, BufkitDataErr>)
        requires
            self.wf(),
        ensures
            is_unpacked(blob_data(self@, name@), name@, r),
    {
        let name = name.to_owned();
        match self.locate(&name) {
            Some(k) => match gunzip(self.blobs[k].data.as_slice()) {
                Ok(data) => Ok(data),
                Err(e) => Err(BufkitDataErr::Io(e)),
            },
            None => Err(BufkitDataErr::MissingBlob(name)),
        }
    }

    /// Takes the blob of this name out of the store, if it is there, and
    /// says whether it was.
    pub fn delete(&mut self, name: &str) -> (r: bool)
        requires
            old(self).wf(),
        ensures
            final(self).wf(),
            r == has_blob(old(self)@, name@),
            final(self)@ == blobs_without(old(self)@, name@),
    {
        let ghost before = self@;
        let name = name.to_owned();
        match self.locate(&name) {
            Some(k) => {
                self.blobs.remove(k);
                proof {
                    assert(self@ =~= before.remove(k as int));
                    lemma_blobs_left(before, k as int, name@);
                }
                true
            },
            None => false,
        }
    }

    /// The names of the blobs, in the order of the store.
    pub fn names(&self) -> (r: Vec<String>)
        ensures
            texts(r@) == blob_names(self@),
    {
        let mut r: Vec<String> = Vec::new();
        let mut k: usize = 0;
        while k < self.blobs.len()
            invariant
                0 <= k <= self.blobs.len(),
                r.len() == k,
                forall|l: int| 0 <= l < k ==> (#[trigger] r@[l])@ == self@[l].name,
            decreases self.blobs.len() - k,
        {
            r.push(self.blobs[k].name.clone());
            k = k + 1;
        }
        assert(texts(r@) =~= blob_names(self@));
        r
    }
}

} // verus!
