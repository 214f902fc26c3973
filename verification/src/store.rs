//! A blob store that keeps its objects in memory. It has the contract of the
//! remote store that artifacts are kept in: one object for each bucket and
//! key, a later upload replaces an earlier one, and a download from a key that
//! holds nothing reports that the artifact was not found.

use vstd::prelude::*;
use vstd::string::*;
use crate::error::PipelineError;
use crate::table::copied;

verus! {

/// The address of an object: its bucket and its key.
pub type Address = (Seq<char>, Seq<char>);

/// One upload: where it went and what it held.
pub struct Upload {
    pub bucket: Seq<char>,
    pub key: Seq<char>,
    pub blob: Seq<u8>,
}

/// What a store that started empty holds after the uploads `uploads`, made
/// from the first to the last.
pub open spec fn contents_after(uploads: Seq<Upload>) -> Map<Address, Seq<u8>>
    decreases uploads.len(),
{
    if uploads.len() == 0 {
        Map::empty()
    } else {
        contents_after(uploads.drop_last()).insert(
            (uploads.last().bucket, uploads.last().key),
            uploads.last().blob,
        )
    }
}

/// One more upload changes what the store holds as `put` does: the blob stands
/// under its address, and every other address is as before.
pub proof fn lemma_one_more_upload(uploads: Seq<Upload>, upload: Upload)
    ensures
        contents_after(uploads.push(upload)) == contents_after(uploads).insert(
            (upload.bucket, upload.key),
            upload.blob,
        ),
{
    assert(uploads.push(upload).drop_last() =~= uploads);
}

/// A store holds nothing under an address that no upload went to.
pub proof fn lemma_never_uploaded_is_absent(uploads: Seq<Upload>, bucket: Seq<char>, key: Seq<char>)
    requires
        forall|i: int|
            0 <= i < uploads.len() ==> !((#[trigger] uploads[i]).bucket == bucket && uploads[i].key
                == key),
    ensures
        !contents_after(uploads).dom().contains((bucket, key)),
    decreases uploads.len(),
{
    if uploads.len() > 0 {
        let earlier = uploads.drop_last();
        assert forall|i: int| 0 <= i < earlier.len() implies !((#[trigger] earlier[i]).bucket
            == bucket && earlier[i].key == key) by {
            assert(earlier[i] == uploads[i]);
        }
        lemma_never_uploaded_is_absent(earlier, bucket, key);
        assert(!(uploads.last().bucket == bucket && uploads.last().key == key));
    }
}

/// A store holds, under each address, what the last upload to that address
/// held.
pub proof fn lemma_last_upload_is_kept(uploads: Seq<Upload>, last: int)
    requires
        0 <= last < uploads.len(),
        forall|i: int|
            last < i < uploads.len() ==> !((#[trigger] uploads[i]).bucket == uploads[last].bucket
                && uploads[i].key == uploads[last].key),
    ensures
        contents_after(uploads).dom().contains((uploads[last].bucket, uploads[last].key)),
        contents_after(uploads)[(uploads[last].bucket, uploads[last].key)] == uploads[last].blob,
    decreases uploads.len(),
{
    if last < uploads.len() - 1 {
        let earlier = uploads.drop_last();
        assert(earlier[last] == uploads[last]);
        assert forall|i: int| last < i < earlier.len() implies !((#[trigger] earlier[i]).bucket
            == earlier[last].bucket && earlier[i].key == earlier[last].key) by {
            assert(earlier[i] == uploads[i]);
        }
        lemma_last_upload_is_kept(earlier, last);
        let final_upload = uploads[uploads.len() - 1];
        assert(!(final_upload.bucket == uploads[last].bucket && final_upload.key
            == uploads[last].key));
    }
}

/// An object in the store.
struct StoredObject {
    bucket: String,
    key: String,
    blob: Vec<u8>,
}

/// Object `i` stands at the address `address`.
spec fn stands_at(objects: Seq<StoredObject>, i: int, address: Address) -> bool {
    0 <= i < objects.len() && objects[i].bucket@ == address.0 && objects[i].key@ == address.1
}

/// No two objects stand at the same address.
spec fn one_per_address(objects: Seq<StoredObject>) -> bool {
    forall|i: int, j: int|
        0 <= i < j < objects.len() ==> !((#[trigger] objects[i]).bucket@ == (
        #[trigger] objects[j]).bucket@ && objects[i].key@ == objects[j].key@)
}

/// The blobs of the objects, by address.
spec fn contents_of(objects: Seq<StoredObject>) -> Map<Address, Seq<u8>> {
    Map::new(
        |address: Address| exists|i: int| stands_at(objects, i, address),
        |address: Address| objects[choose|i: int| stands_at(objects, i, address)].blob@,
    )
}

/// Where no two objects share an address, the object that stands at an
/// address is the one that the contents name there.
proof fn lemma_contents_at(objects: Seq<StoredObject>, i: int, address: Address)
    requires
        one_per_address(objects),
        stands_at(objects, i, address),
    ensures
        contents_of(objects).dom().contains(address),
        contents_of(objects)[address] == objects[i].blob@,
{
    let chosen = choose|j: int| stands_at(objects, j, address);
    assert(stands_at(objects, chosen, address));
    if chosen < i {
        assert(!(objects[chosen].bucket@ == objects[i].bucket@ && objects[chosen].key@
            == objects[i].key@));
    } else if i < chosen {
        assert(!(objects[i].bucket@ == objects[chosen].bucket@ && objects[i].key@
            == objects[chosen].key@));
    }
}

/// An in-memory blob store: at most one blob for each bucket and key.
pub struct MemoryStore {
    objects: Vec<StoredObject>,
}

impl View for MemoryStore {
    type V = Map<Address, Seq<u8>>;

    closed spec fn view(&self) -> Map<Address, Seq<u8>> {
        contents_of(self.objects@)
    }
}

impl MemoryStore {
    #[verifier::type_invariant]
    spec fn well_formed(&self) -> bool {
        one_per_address(self.objects@)
    }

    /// A store that holds nothing.
    pub fn new() -> (store: Self)
        ensures
            store@ == Map::<Address, Seq<u8>>::empty(),
    {
        let store = MemoryStore { objects: Vec::new() };
        assert(store@ =~= Map::<Address, Seq<u8>>::empty());
        store
    }

    /// The position of the object at an address, if the store holds one there.
    fn locate(&self, bucket: &String, key: &String) -> (found: Option<usize>)
        ensures
            match found {
                Some(i) => stands_at(self.objects@, i as int, (bucket@, key@)),
                None => forall|i: int| !stands_at(self.objects@, i, (bucket@, key@)),
            },
    {
        let mut i: usize = 0;
        while i < self.objects.len()
            invariant
                0 <= i <= self.objects.len(),
                forall|j: int| 0 <= j < i ==> !stands_at(self.objects@, j, (bucket@, key@)),
            decreases self.objects.len() - i,
        {
            if self.objects[i].bucket == *bucket && self.objects[i].key == *key {
                return Some(i);
            }
            i += 1;
        }
        None
    }

    /// Keeps `blob` under `key` in `bucket`, in place of whatever was kept
    /// there before. Objects at other addresses stay as they are. An upload to
    /// this store always succeeds.
    pub fn put(&mut self, blob: Vec<u8>, bucket: &str, key: &str) -> (result: Result<
        (),
        PipelineError,
    >)
        ensures
            result is Ok,
            final(self)@ == old(self)@.insert((bucket@, key@), blob@),
    {
        proof {
            use_type_invariant(&*self);
        }
        let bucket = String::from_str(bucket);
        let key = String::from_str(key);
        let ghost address = (bucket@, key@);
        let ghost before = self.objects@;
        let ghost blob_view = blob@;
        let found = self.locate(&bucket, &key);
        let object = StoredObject { bucket, key, blob };
        let mut objects: Vec<StoredObject> = Vec::new();
        core::mem::swap(&mut self.objects, &mut objects);
        match found {
            Some(i) => {
                objects.set(i, object);
                proof {
                    let after = objects@;
                    assert forall|a: int, b: int| 0 <= a < b < after.len() implies !((
                    #[trigger] after[a]).bucket@ == (#[trigger] after[b]).bucket@ && after[a].key@
                        == after[b].key@) by {
                        assert(before[a].bucket@ == after[a].bucket@ && before[a].key@ == after[a].key@);
                        assert(before[b].bucket@ == after[b].bucket@ && before[b].key@ == after[b].key@);
                    }
                    assert forall|other: Address| #[trigger]
                        contents_of(after).dom().contains(other) <==> contents_of(
                            before,
                        ).insert(address, blob_view).dom().contains(other) by {
                        if contents_of(after).dom().contains(other) {
                            let j = choose|j: int| stands_at(after, j, other);
                            if j != i {
                                assert(stands_at(before, j, other));
                            }
                        }
                        if other == address {
                            assert(stands_at(after, i as int, other));
                        } else if contents_of(before).dom().contains(other) {
                            let j = choose|j: int| stands_at(before, j, other);
                            assert(stands_at(after, j, other));
                        }
                    }
                    assert forall|other: Address| #[trigger]
                        contents_of(after).dom().contains(other) implies contents_of(after)[other]
                        == contents_of(before).insert(address, blob_view)[other] by {
                        let j = choose|j: int| stands_at(after, j, other);
                        lemma_contents_at(after, j, other);
                        if other != address {
                            assert(stands_at(before, j, other));
                            lemma_contents_at(before, j, other);
                        } else {
                            lemma_contents_at(after, i as int, other);
                        }
                    }
                    assert(contents_of(after) =~= contents_of(before).insert(address, blob_view));
                }
            },
            None => {
                objects.push(object);
                proof {
                    let after = objects@;
                    let last = before.len() as int;
                    assert forall|a: int, b: int| 0 <= a < b < after.len() implies !((
                    #[trigger] after[a]).bucket@ == (#[trigger] after[b]).bucket@ && after[a].key@
                        == after[b].key@) by {
                        if b == last {
                            assert(!stands_at(before, a, address));
                        }
                    }
                    assert forall|other: Address| #[trigger]
                        contents_of(after).dom().contains(other) <==> contents_of(
                            before,
                        ).insert(address, blob_view).dom().contains(other) by {
                        if contents_of(after).dom().contains(other) {
                            let j = choose|j: int| stands_at(after, j, other);
                            if j != last {
                                assert(stands_at(before, j, other));
                            }
                        }
                        if other == address {
                            assert(stands_at(after, last, other));
                        } else if contents_of(before).dom().contains(other) {
                            let j = choose|j: int| stands_at(before, j, other);
                            assert(stands_at(after, j, other));
                        }
                    }
                    assert forall|other: Address| #[trigger]
                        contents_of(after).dom().contains(other) implies contents_of(after)[other]
                        == contents_of(before).insert(address, blob_view)[other] by {
                        let j = choose|j: int| stands_at(after, j, other);
                        lemma_contents_at(after, j, other);
                        if other != address {
                            assert(stands_at(before, j, other));
                            lemma_contents_at(before, j, other);
                        } else {
                            lemma_contents_at(after, last, other);
                        }
                    }
                    assert(contents_of(after) =~= contents_of(before).insert(address, blob_view));
                }
            },
        }
        self.objects = objects;
        Ok(())
    }

    /// The blob kept under `key` in `bucket`, whole. Where the store keeps
    /// nothing there, the artifact is reported as not found.
    pub fn get(&self, bucket: &str, key: &str) -> (result: Result<Vec<u8>, PipelineError>)
        ensures
            match result {
                Ok(blob) => self@.dom().contains((bucket@, key@)) && blob@ == self@[(bucket@, key@)],
                Err(error) => {
                    &&& !self@.dom().contains((bucket@, key@))
                    &&& error == PipelineError::ArtifactNotFound
                },
            },
    {
        proof {
            use_type_invariant(self);
        }
        let bucket = String::from_str(bucket);
        let key = String::from_str(key);
        match self.locate(&bucket, &key) {
            Some(i) => {
                proof {
                    lemma_contents_at(self.objects@, i as int, (bucket@, key@));
                }
                Ok(copied(&self.objects[i].blob))
            },
            None => Err(PipelineError::ArtifactNotFound),
        }
    }
}

} // verus!
