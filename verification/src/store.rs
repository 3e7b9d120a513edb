//! The storage contract: an abstract store model, the capability traits
//! stated over it, and the laws every conforming engine therefore enjoys.
//!
//! Policies, applied identically by every engine: bucket creation validates
//! the name and is idempotent; bucket deletion cascades to the bucket's
//! objects and is idempotent; storing an object validates the key, silently
//! brings the bucket into being when absent, and overwrites any object
//! under the same key (last write wins, no versioning); object deletion is
//! idempotent; listing a missing bucket's objects reports `BucketNotFound`.

use vstd::prelude::*;

use crate::bucket::Bucket;
use crate::bucket::valid_name;
use crate::errors::DomainError;
use crate::filestore::safe_key;
use crate::object::Object;
use crate::object::default_content_type;

verus! {

// ---------------------------------------------------------------------------
// The store model.
// ---------------------------------------------------------------------------
/// The observable state of a store: which buckets exist, and the content
/// each `(bucket, key)` pair holds.
#[verifier::ext_equal]
pub ghost struct StoreModel {
    pub buckets: Set<Seq<char>>,
    pub objects: Map<(Seq<char>, Seq<char>), Seq<u8>>,
}

pub open spec fn empty_store() -> StoreModel {
    StoreModel { buckets: Set::empty(), objects: Map::empty() }
}

/// All `(bucket, key)` pairs belonging to the bucket `name`.
pub open spec fn pairs_of_bucket(name: Seq<char>) -> Set<(Seq<char>, Seq<char>)> {
    Set::new(|p: (Seq<char>, Seq<char>)| p.0 == name)
}

/// Creating a bucket: idempotent, touches no objects.
pub open spec fn create_bucket_m(m: StoreModel, name: Seq<char>) -> StoreModel {
    StoreModel { buckets: m.buckets.insert(name), objects: m.objects }
}

/// Deleting a bucket: removes it and every object it contains; a no-op
/// when it is already absent.
pub open spec fn delete_bucket_m(m: StoreModel, name: Seq<char>) -> StoreModel {
    StoreModel {
        buckets: m.buckets.remove(name),
        objects: m.objects.remove_keys(pairs_of_bucket(name)),
    }
}

/// Storing an object: last write wins, and the bucket comes into being if
/// it was absent.
pub open spec fn put_object_m(
    m: StoreModel,
    bucket: Seq<char>,
    key: Seq<char>,
    content: Seq<u8>,
) -> StoreModel {
    StoreModel {
        buckets: m.buckets.insert(bucket),
        objects: m.objects.insert((bucket, key), content),
    }
}

/// Deleting an object: idempotent, keeps the bucket.
pub open spec fn delete_object_m(m: StoreModel, bucket: Seq<char>, key: Seq<char>) -> StoreModel {
    StoreModel { buckets: m.buckets, objects: m.objects.remove((bucket, key)) }
}

/// The content a read of `(bucket, key)` observes.
pub open spec fn get_object_m(m: StoreModel, bucket: Seq<char>, key: Seq<char>) -> Option<
    Seq<u8>,
> {
    if m.objects.dom().contains((bucket, key)) {
        Some(m.objects[(bucket, key)])
    } else {
        None
    }
}

/// The keys a listing of `bucket` observes.
pub open spec fn keys_of_bucket_m(m: StoreModel, bucket: Seq<char>) -> Set<Seq<char>> {
    Set::new(|k: Seq<char>| m.objects.dom().contains((bucket, k)))
}

/// The views of a vector of returned strings.
pub open spec fn names_of(s: Seq<String>) -> Seq<Seq<char>> {
    s.map_values(|x: String| x@)
}

// ---------------------------------------------------------------------------
// The capability traits.
// ---------------------------------------------------------------------------
/// The abstract state a storage engine exposes to its contracts.
pub trait StorageState {
    spec fn store(&self) -> StoreModel;
}

/// Bucket persistence operations.
pub trait BucketStorage: StorageState + Sized {
    /// Creates `bucket`, validating its name first; creating an existing
    /// bucket succeeds and changes nothing.
    fn create_bucket(&mut self, bucket: &Bucket) -> (r: Result<(), DomainError>)
        ensures
            valid_name(bucket.name@) ==> r is Ok && final(self).store() == create_bucket_m(
                old(self).store(),
                bucket.name@,
            ),
            !valid_name(bucket.name@) ==> (r matches Err(DomainError::ValidationError(n)) && n@
                == bucket.name@) && final(self).store() == old(self).store(),
    ;

    /// Lists the names of all buckets, each exactly once.
    fn list_buckets(&self) -> (r: Result<Vec<String>, DomainError>)
        ensures
            (r matches Ok(v) && names_of(v@).to_set() == self.store().buckets && names_of(
                v@,
            ).no_duplicates()),
    ;

    /// Deletes the bucket `name` and all objects it contains; deleting an
    /// absent bucket succeeds and changes nothing.
    fn delete_bucket(&mut self, name: &str) -> (r: Result<(), DomainError>)
        ensures
            r is Ok,
            final(self).store() == delete_bucket_m(old(self).store(), name@),
    ;
}

/// Object persistence operations.
pub trait ObjectStorage: StorageState + Sized {
    /// Stores `object` under its key in `bucket_name`, overwriting any
    /// previous object with that key and bringing the bucket into being if
    /// absent; a key unsafe to store is rejected before anything changes.
    fn put_object(&mut self, bucket_name: &str, object: &Object) -> (r: Result<(), DomainError>)
        ensures
            safe_key(object.key@) ==> r is Ok && final(self).store() == put_object_m(
                old(self).store(),
                bucket_name@,
                object.key@,
                object.content@,
            ),
            !safe_key(object.key@) ==> (r matches Err(DomainError::ValidationError(k)) && k@
                == object.key@) && final(self).store() == old(self).store(),
    ;

    /// Reads the object stored under `key` in `bucket_name`, as an
    /// independent copy carrying the fixed default content type; reports
    /// `ObjectNotFound` exactly when the key is absent.
    fn get_object(&self, bucket_name: &str, key: &str) -> (r: Result<Object, DomainError>)
        ensures
            (r is Ok) == (get_object_m(self.store(), bucket_name@, key@) is Some),
            (r matches Ok(o) ==> o.key@ == key@ && Some(o.content@) == get_object_m(
                self.store(),
                bucket_name@,
                key@,
            ) && o.size == o.content@.len() && o.content_type@ == default_content_type()
                && o.id@.len() == 36),
            (r matches Err(e) ==> e matches DomainError::ObjectNotFound(k) && k@ == key@),
    ;

    /// Deletes the object stored under `key` in `bucket_name`; deleting an
    /// absent object succeeds and changes nothing.
    fn delete_object(&mut self, bucket_name: &str, key: &str) -> (r: Result<(), DomainError>)
        ensures
            r is Ok,
            final(self).store() == delete_object_m(old(self).store(), bucket_name@, key@),
    ;

    /// Lists the keys of all objects in `bucket_name`, each exactly once;
    /// reports `BucketNotFound` exactly when the bucket is absent.
    fn list_objects(&self, bucket_name: &str) -> (r: Result<Vec<String>, DomainError>)
        ensures
            (r is Ok) == self.store().buckets.contains(bucket_name@),
            (r matches Ok(v) ==> names_of(v@).to_set() == keys_of_bucket_m(
                self.store(),
                bucket_name@,
            ) && names_of(v@).no_duplicates()),
            (r matches Err(e) ==> e matches DomainError::BucketNotFound(n) && n@
                == bucket_name@),
    ;
}

/// The full storage contract, for engines that support both capability
/// sets.
pub trait Storage: BucketStorage + ObjectStorage {
}

// ---------------------------------------------------------------------------
// Laws of the store model.
// ---------------------------------------------------------------------------
/// Law: storing an object and then reading the same key of the same bucket
/// observes content byte-identical to what was written.
pub proof fn lemma_put_then_get(m: StoreModel, bucket: Seq<char>, key: Seq<char>, content: Seq<u8>)
    ensures
        get_object_m(put_object_m(m, bucket, key, content), bucket, key) == Some(content),
{
}

/// Law: after deleting a bucket it is absent and holds no objects, and
/// deleting it a second time reaches exactly the same end state without
/// erroring — the operation is idempotent.
pub proof fn lemma_delete_bucket_idempotent(m: StoreModel, name: Seq<char>)
    ensures
        !delete_bucket_m(m, name).buckets.contains(name),
        keys_of_bucket_m(delete_bucket_m(m, name), name) =~= Set::<Seq<char>>::empty(),
        delete_bucket_m(delete_bucket_m(m, name), name) == delete_bucket_m(m, name),
{
    assert(delete_bucket_m(delete_bucket_m(m, name), name).buckets =~= delete_bucket_m(
        m,
        name,
    ).buckets);
    assert(delete_bucket_m(delete_bucket_m(m, name), name).objects =~= delete_bucket_m(
        m,
        name,
    ).objects);
    assert(delete_bucket_m(delete_bucket_m(m, name), name) =~= delete_bucket_m(m, name));
}

/// Law: deleting an object twice reaches the same end state as deleting it
/// once — the operation is idempotent.
pub proof fn lemma_delete_object_idempotent(m: StoreModel, bucket: Seq<char>, key: Seq<char>)
    ensures
        get_object_m(delete_object_m(m, bucket, key), bucket, key) is None,
        delete_object_m(delete_object_m(m, bucket, key), bucket, key) == delete_object_m(
            m,
            bucket,
            key,
        ),
{
    assert(delete_object_m(delete_object_m(m, bucket, key), bucket, key).objects
        =~= delete_object_m(m, bucket, key).objects);
    assert(delete_object_m(delete_object_m(m, bucket, key), bucket, key) =~= delete_object_m(
        m,
        bucket,
        key,
    ));
}

/// Law: writes to distinct `(bucket, key)` targets commute — concurrent
/// writers of different keys may interleave freely.
pub proof fn lemma_put_commutes(
    m: StoreModel,
    b1: Seq<char>,
    k1: Seq<char>,
    c1: Seq<u8>,
    b2: Seq<char>,
    k2: Seq<char>,
    c2: Seq<u8>,
)
    requires
        (b1, k1) != (b2, k2),
    ensures
        put_object_m(put_object_m(m, b1, k1, c1), b2, k2, c2) == put_object_m(
            put_object_m(m, b2, k2, c2),
            b1,
            k1,
            c1,
        ),
{
    let lhs = put_object_m(put_object_m(m, b1, k1, c1), b2, k2, c2);
    let rhs = put_object_m(put_object_m(m, b2, k2, c2), b1, k1, c1);
    assert(lhs.buckets =~= rhs.buckets);
    assert(lhs.objects =~= rhs.objects);
    assert(lhs =~= rhs);
}

/// The store after a batch of writes into one bucket, applied in order.
pub open spec fn put_all_m(
    m: StoreModel,
    bucket: Seq<char>,
    kvs: Seq<(Seq<char>, Seq<u8>)>,
) -> StoreModel
    decreases kvs.len(),
{
    if kvs.len() == 0 {
        m
    } else {
        put_object_m(put_all_m(m, bucket, kvs.drop_last()), bucket, kvs.last().0, kvs.last().1)
    }
}

/// Law: any number of writes to pairwise distinct keys of one bucket leave
/// every one of them readable afterwards with exactly the content written
/// to it.
pub proof fn lemma_distinct_puts_all_readable(
    m: StoreModel,
    bucket: Seq<char>,
    kvs: Seq<(Seq<char>, Seq<u8>)>,
)
    requires
        forall|i: int, j: int| 0 <= i < j < kvs.len() ==> (#[trigger] kvs[i]).0 != (
        #[trigger] kvs[j]).0,
    ensures
        forall|i: int| 0 <= i < kvs.len() ==> get_object_m(
            put_all_m(m, bucket, kvs),
            bucket,
            (#[trigger] kvs[i]).0,
        ) == Some(kvs[i].1),
    decreases kvs.len(),
{
    if kvs.len() > 0 {
        let prefix = kvs.drop_last();
        assert forall|i: int, j: int| 0 <= i < j < prefix.len() implies (#[trigger] prefix[i]).0
            != (#[trigger] prefix[j]).0 by {
            assert(prefix[i] == kvs[i] && prefix[j] == kvs[j]);
        }
        lemma_distinct_puts_all_readable(m, bucket, prefix);
        assert forall|i: int| 0 <= i < kvs.len() implies get_object_m(
            put_all_m(m, bucket, kvs),
            bucket,
            (#[trigger] kvs[i]).0,
        ) == Some(kvs[i].1) by {
            if i < kvs.len() - 1 {
                assert(prefix[i] == kvs[i]);
                assert(kvs[i].0 != kvs[kvs.len() - 1].0);
                assert(get_object_m(put_all_m(m, bucket, prefix), bucket, kvs[i].0) == Some(
                    kvs[i].1,
                ));
            }
        }
    }
}

} // verus!
