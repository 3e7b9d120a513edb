//! The in-memory storage engine.
//!
//! Buckets and objects live in plain vectors; every operation is a linear
//! scan. This engine targets ephemeral and testing use, not throughput: a
//! surrounding application shares one instance among concurrent callers
//! behind a single coarse mutual-exclusion lock covering every operation,
//! which linearizes them in lock-arrival order.

use vstd::prelude::*;

use crate::bucket::Bucket;
use crate::errors::DomainError;
use crate::filestore::check_key;
use crate::ids::fresh_id;
use crate::object::Object;
use crate::object::clone_bytes;
use crate::object::default_content_type_str;
use crate::store::BucketStorage;
use crate::store::ObjectStorage;
use crate::store::Storage;
use crate::store::StorageState;
use crate::store::StoreModel;
use crate::store::create_bucket_m;
use crate::store::delete_bucket_m;
use crate::store::delete_object_m;
use crate::store::empty_store;
use crate::store::keys_of_bucket_m;
use crate::store::names_of;
use crate::store::pairs_of_bucket;
use crate::store::put_object_m;

verus! {

// ---------------------------------------------------------------------------
// Stored entries and the map they denote.
// ---------------------------------------------------------------------------
/// One stored object: the owning bucket's name, the key, and the content.
struct Entry {
    bucket: String,
    key: String,
    content: Vec<u8>,
}

spec fn entry_pair(e: Entry) -> (Seq<char>, Seq<char>) {
    (e.bucket@, e.key@)
}

impl Entry {
    fn duplicate(&self) -> (r: Entry)
        ensures
            r.bucket == self.bucket,
            r.key == self.key,
            r.content@ == self.content@,
            entry_pair(r) == entry_pair(*self),
    {
        Entry {
            bucket: self.bucket.clone(),
            key: self.key.clone(),
            content: clone_bytes(&self.content),
        }
    }
}

/// The object map a sequence of entries denotes, later entries winning.
spec fn entries_map(s: Seq<Entry>) -> Map<(Seq<char>, Seq<char>), Seq<u8>>
    decreases s.len(),
{
    if s.len() == 0 {
        Map::empty()
    } else {
        entries_map(s.drop_last()).insert(entry_pair(s.last()), s.last().content@)
    }
}

spec fn unique_pairs(s: Seq<Entry>) -> bool {
    forall|i: int, j: int| 0 <= i < j < s.len() ==> entry_pair(#[trigger] s[i]) != entry_pair(
        #[trigger] s[j],
    )
}

spec fn unique_names(s: Seq<Bucket>) -> bool {
    forall|i: int, j: int| 0 <= i < j < s.len() ==> (#[trigger] s[i]).name@ != (
    #[trigger] s[j]).name@
}

/// The names of a sequence of buckets, in order.
spec fn bucket_names_seq(s: Seq<Bucket>) -> Seq<Seq<char>> {
    s.map_values(|b: Bucket| b.name@)
}

/// Whether some bucket in `s` carries the name `n`.
spec fn has_bucket_name(s: Seq<Bucket>, n: Seq<char>) -> bool {
    exists|j: int| 0 <= j < s.len() && (#[trigger] s[j]).name@ == n
}

proof fn lemma_has_bucket_name_set(s: Seq<Bucket>, n: Seq<char>)
    ensures
        has_bucket_name(s, n) == bucket_names_seq(s).to_set().contains(n),
{
    if has_bucket_name(s, n) {
        let j = choose|j: int| 0 <= j < s.len() && (#[trigger] s[j]).name@ == n;
        assert(bucket_names_seq(s)[j] == n);
        assert(bucket_names_seq(s).contains(n));
    }
    if bucket_names_seq(s).to_set().contains(n) {
        let j = choose|j: int|
            0 <= j < bucket_names_seq(s).len() && bucket_names_seq(s)[j] == n;
        assert((s[j]).name@ == n);
    }
}

proof fn lemma_entries_map_dom(s: Seq<Entry>)
    ensures
        forall|p: (Seq<char>, Seq<char>)| #[trigger] entries_map(s).dom().contains(p) <==> (
        exists|i: int| 0 <= i < s.len() && entry_pair(#[trigger] s[i]) == p),
    decreases s.len(),
{
    if s.len() > 0 {
        let pre = s.drop_last();
        lemma_entries_map_dom(pre);
        assert forall|p: (Seq<char>, Seq<char>)| #[trigger] entries_map(s).dom().contains(p)
            <==> (exists|i: int| 0 <= i < s.len() && entry_pair(#[trigger] s[i]) == p) by {
            if entries_map(s).dom().contains(p) {
                if p == entry_pair(s.last()) {
                    assert(entry_pair(s[s.len() - 1]) == p);
                } else {
                    assert(entries_map(pre).dom().contains(p));
                    let i = choose|i: int| 0 <= i < pre.len() && entry_pair(#[trigger] pre[i])
                        == p;
                    assert(pre[i] == s[i]);
                    assert(entry_pair(s[i]) == p);
                }
            }
            if exists|i: int| 0 <= i < s.len() && entry_pair(#[trigger] s[i]) == p {
                let i = choose|i: int| 0 <= i < s.len() && entry_pair(#[trigger] s[i]) == p;
                if i == s.len() - 1 {
                    assert(entries_map(s).dom().contains(p));
                } else {
                    assert(pre[i] == s[i]);
                    assert(entries_map(pre).dom().contains(p));
                    assert(entries_map(s).dom().contains(p));
                }
            }
        }
    }
}

proof fn lemma_entries_map_at(s: Seq<Entry>, i: int)
    requires
        0 <= i < s.len(),
        unique_pairs(s),
    ensures
        entries_map(s).dom().contains(entry_pair(s[i])),
        entries_map(s)[entry_pair(s[i])] == s[i].content@,
    decreases s.len(),
{
    let pre = s.drop_last();
    if i == s.len() - 1 {
    } else {
        assert(pre[i] == s[i]);
        assert forall|i1: int, i2: int| 0 <= i1 < i2 < pre.len() implies entry_pair(
            #[trigger] pre[i1],
        ) != entry_pair(#[trigger] pre[i2]) by {
            assert(pre[i1] == s[i1] && pre[i2] == s[i2]);
        }
        lemma_entries_map_at(pre, i);
        assert(entry_pair(s[s.len() - 1]) != entry_pair(s[i]));
    }
}

proof fn lemma_entries_map_take_step(s: Seq<Entry>, i: int)
    requires
        0 <= i < s.len(),
    ensures
        entries_map(s.take(i + 1)) == entries_map(s.take(i)).insert(
            entry_pair(s[i]),
            s[i].content@,
        ),
{
    assert(s.take(i + 1).drop_last() =~= s.take(i));
    assert(s.take(i + 1).last() == s[i]);
}

// ---------------------------------------------------------------------------
// The engine.
// ---------------------------------------------------------------------------
/// The in-memory engine. Its observable state is the `StoreModel` of its
/// `StorageState` impl; entities returned to callers are independent
/// copies, so callers never observe internal mutation.
pub struct MemoryStorage {
    buckets: Vec<Bucket>,
    entries: Vec<Entry>,
}

impl MemoryStorage {
    #[verifier::type_invariant]
    spec fn wf(&self) -> bool {
        unique_names(self.buckets@) && unique_pairs(self.entries@)
    }

    /// A fresh engine holding no buckets and no objects.
    pub fn new() -> (r: MemoryStorage)
        ensures
            r.store() == empty_store(),
    {
        let r = MemoryStorage { buckets: Vec::new(), entries: Vec::new() };
        proof {
            assert(bucket_names_seq(r.buckets@).to_set() =~= Set::<Seq<char>>::empty());
            assert(r.store() =~= empty_store());
        }
        r
    }
}

impl StorageState for MemoryStorage {
    closed spec fn store(&self) -> StoreModel {
        StoreModel {
            buckets: bucket_names_seq(self.buckets@).to_set(),
            objects: entries_map(self.entries@),
        }
    }
}

/// Whether a bucket named `name` is present, by linear scan.
fn find_bucket(buckets: &Vec<Bucket>, name: &String) -> (r: bool)
    ensures
        r == bucket_names_seq(buckets@).to_set().contains(name@),
{
    let mut found = false;
    let mut i: usize = 0;
    while i < buckets.len()
        invariant
            i <= buckets@.len(),
            found == (exists|j: int| 0 <= j < i && (#[trigger] buckets@[j]).name@ == name@),
        decreases buckets@.len() - i,
    {
        if buckets[i].name == *name {
            found = true;
        }
        i = i + 1;
    }
    proof {
        if found {
            let j = choose|j: int| 0 <= j < buckets@.len() && (#[trigger] buckets@[j]).name@
                == name@;
            assert(bucket_names_seq(buckets@)[j] == name@);
            assert(bucket_names_seq(buckets@).contains(name@));
        } else {
            if bucket_names_seq(buckets@).to_set().contains(name@) {
                let j = choose|j: int|
                    0 <= j < bucket_names_seq(buckets@).len() && bucket_names_seq(buckets@)[j]
                        == name@;
                assert((buckets@[j]).name@ == name@);
                assert(false);
            }
        }
    }
    found
}

/// Copies `src` dropping every entry of the bucket `name`.
fn entries_without_bucket(src: &Vec<Entry>, name: &String) -> (r: Vec<Entry>)
    requires
        unique_pairs(src@),
    ensures
        unique_pairs(r@),
        entries_map(r@) == entries_map(src@).remove_keys(pairs_of_bucket(name@)),
        forall|m: int| 0 <= m < r@.len() ==> entry_pair(#[trigger] r@[m]).0 != name@,
{
    let mut r: Vec<Entry> = Vec::new();
    let mut i: usize = 0;
    while i < src.len()
        invariant
            i <= src@.len(),
            unique_pairs(src@),
            unique_pairs(r@),
            entries_map(r@) == entries_map(src@.take(i as int)).remove_keys(
                pairs_of_bucket(name@),
            ),
            forall|m: int| 0 <= m < r@.len() ==> entry_pair(#[trigger] r@[m]).0 != name@,
            forall|m: int| 0 <= m < r@.len() ==> (exists|j: int|
                0 <= j < i && entry_pair(#[trigger] r@[m]) == entry_pair(src@[j])),
        decreases src@.len() - i,
    {
        let ghost prev = r@;
        let keep = !(src[i].bucket == *name);
        if keep {
            r.push(src[i].duplicate());
        }
        proof {
            lemma_entries_map_take_step(src@, i as int);
            let p = entry_pair(src@[i as int]);
            let c = src@[i as int].content@;
            let ka = pairs_of_bucket(name@);
            if keep {
                assert(r@.drop_last() =~= prev);
                assert(entry_pair(r@.last()) == p && r@.last().content@ == c);
                assert(entries_map(r@) == entries_map(prev).insert(p, c));
                assert((entries_map(src@.take(i as int)).insert(p, c)).remove_keys(ka)
                    =~= entries_map(src@.take(i as int)).remove_keys(ka).insert(p, c));
                assert forall|m: int| 0 <= m < prev.len() implies entry_pair(#[trigger] prev[m])
                    != p by {
                    let j = choose|j: int|
                        0 <= j < i && entry_pair(prev[m]) == entry_pair(src@[j]);
                    assert(entry_pair(src@[j]) != entry_pair(src@[i as int]));
                }
                assert(entry_pair(r@[r@.len() - 1]) == entry_pair(src@[i as int]));
                assert forall|m: int| 0 <= m < r@.len() implies (exists|j: int|
                    0 <= j <= i && entry_pair(#[trigger] r@[m]) == entry_pair(src@[j])) by {
                    if m < r@.len() - 1 {
                        assert(r@[m] == prev[m]);
                    } else {
                        assert(entry_pair(r@[m]) == entry_pair(src@[i as int]));
                    }
                }
            } else {
                assert((entries_map(src@.take(i as int)).insert(p, c)).remove_keys(ka)
                    =~= entries_map(src@.take(i as int)).remove_keys(ka));
            }
        }
        i = i + 1;
    }
    proof {
        assert(src@.take(src@.len() as int) =~= src@);
    }
    r
}

/// Copies `src` dropping every bucket named `name`.
fn buckets_without(src: &Vec<Bucket>, name: &String) -> (r: Vec<Bucket>)
    requires
        unique_names(src@),
    ensures
        unique_names(r@),
        forall|m: int| 0 <= m < r@.len() ==> (#[trigger] r@[m]).name@ != name@,
        forall|m: int| 0 <= m < r@.len() ==> has_bucket_name(src@, (#[trigger] r@[m]).name@),
        forall|j: int| 0 <= j < src@.len() && (#[trigger] src@[j]).name@ != name@
            ==> has_bucket_name(r@, src@[j].name@),
{
    let mut r: Vec<Bucket> = Vec::new();
    let mut i: usize = 0;
    while i < src.len()
        invariant
            i <= src@.len(),
            unique_names(src@),
            unique_names(r@),
            forall|m: int| 0 <= m < r@.len() ==> (#[trigger] r@[m]).name@ != name@,
            forall|m: int| 0 <= m < r@.len() ==> has_bucket_name(
                src@.take(i as int),
                (#[trigger] r@[m]).name@,
            ),
            forall|j: int| 0 <= j < i && (#[trigger] src@[j]).name@ != name@ ==> has_bucket_name(
                r@,
                src@[j].name@,
            ),
        decreases src@.len() - i,
    {
        let ghost prev = r@;
        let keep = !(src[i].name == *name);
        if keep {
            r.push(src[i].clone());
        }
        proof {
            if keep {
                assert((r@[r@.len() - 1]).name@ == (src@[i as int]).name@);
                assert forall|m1: int, m2: int| 0 <= m1 < m2 < r@.len() implies (
                #[trigger] r@[m1]).name@ != (#[trigger] r@[m2]).name@ by {
                    if m2 == r@.len() - 1 {
                        assert(r@[m1] == prev[m1]);
                        let j = choose|j: int|
                            0 <= j < src@.take(i as int).len() && (#[trigger] src@.take(
                                i as int,
                            )[j]).name@ == prev[m1].name@;
                        assert(src@[j].name@ == prev[m1].name@);
                        assert((src@[j]).name@ != (src@[i as int]).name@);
                    } else {
                        assert(r@[m1] == prev[m1] && r@[m2] == prev[m2]);
                    }
                }
            } else {
                assert((src@[i as int]).name@ == name@);
            }
            assert forall|m: int| 0 <= m < r@.len() implies has_bucket_name(
                src@.take(i as int + 1),
                (#[trigger] r@[m]).name@,
            ) by {
                if keep && m == r@.len() - 1 {
                    assert(src@.take(i as int + 1)[i as int].name@ == r@[m].name@);
                } else {
                    assert(r@[m] == prev[m]);
                    let j = choose|j: int|
                        0 <= j < src@.take(i as int).len() && (#[trigger] src@.take(
                            i as int,
                        )[j]).name@ == prev[m].name@;
                    assert(src@.take(i as int + 1)[j].name@ == r@[m].name@);
                }
            }
            assert forall|j: int|
                0 <= j < i + 1 && (#[trigger] src@[j]).name@ != name@ implies has_bucket_name(
                r@,
                src@[j].name@,
            ) by {
                if j < i {
                    let m = choose|m: int|
                        0 <= m < prev.len() && (#[trigger] prev[m]).name@ == src@[j].name@;
                    assert(r@[m] == prev[m]);
                    assert(r@[m].name@ == src@[j].name@);
                } else {
                    assert(r@[r@.len() - 1].name@ == src@[j].name@);
                }
            }
        }
        i = i + 1;
    }
    proof {
        assert(src@.take(i as int) =~= src@);
    }
    r
}

impl BucketStorage for MemoryStorage {
    fn create_bucket(&mut self, bucket: &Bucket) -> (r: Result<(), DomainError>) {
        proof {
            use_type_invariant(&*self);
        }
        if !Bucket::validate_name(bucket.name.as_str()) {
            return Err(DomainError::ValidationError(bucket.name.clone()));
        }
        let present = find_bucket(&self.buckets, &bucket.name);
        if present {
            proof {
                assert(old(self).store().buckets.insert(bucket.name@) =~= old(
                    self,
                ).store().buckets);
                assert(create_bucket_m(old(self).store(), bucket.name@) =~= old(self).store());
            }
            return Ok(());
        }
        let mut bs: Vec<Bucket> = Vec::new();
        core::mem::swap(&mut bs, &mut self.buckets);
        let ghost old_bs = bs@;
        bs.push(bucket.clone());
        proof {
            assert forall|i: int, j: int| 0 <= i < j < bs@.len() implies (
            #[trigger] bs@[i]).name@ != (#[trigger] bs@[j]).name@ by {
                if j == bs@.len() - 1 {
                    assert(bs@[i] == old_bs[i]);
                    assert(bucket_names_seq(old_bs)[i] == bs@[i].name@);
                    assert(bucket_names_seq(old_bs).contains(bs@[i].name@));
                    assert(bucket_names_seq(old_bs).to_set().contains(bs@[i].name@));
                } else {
                    assert(bs@[i] == old_bs[i] && bs@[j] == old_bs[j]);
                }
            }
        }
        core::mem::swap(&mut bs, &mut self.buckets);
        proof {
            assert(bucket_names_seq(self.buckets@) =~= bucket_names_seq(old_bs).push(
                bucket.name@,
            ));
            assert forall|n: Seq<char>|
                bucket_names_seq(self.buckets@).to_set().contains(n) <==> old(
                    self,
                ).store().buckets.insert(bucket.name@).contains(n) by {
                if bucket_names_seq(self.buckets@).to_set().contains(n) {
                    let m = choose|m: int|
                        0 <= m < bucket_names_seq(self.buckets@).len() && bucket_names_seq(
                            self.buckets@,
                        )[m] == n;
                    if m < bucket_names_seq(old_bs).len() {
                        assert(bucket_names_seq(old_bs)[m] == n);
                        assert(bucket_names_seq(old_bs).contains(n));
                    }
                }
                if old(self).store().buckets.insert(bucket.name@).contains(n) {
                    if n == bucket.name@ {
                        assert(bucket_names_seq(self.buckets@)[bucket_names_seq(old_bs).len()
                            as int] == n);
                        assert(bucket_names_seq(self.buckets@).contains(n));
                    } else {
                        let m = choose|m: int|
                            0 <= m < bucket_names_seq(old_bs).len() && bucket_names_seq(
                                old_bs,
                            )[m] == n;
                        assert(bucket_names_seq(self.buckets@)[m] == n);
                        assert(bucket_names_seq(self.buckets@).contains(n));
                    }
                }
            }
            assert(bucket_names_seq(self.buckets@).to_set() =~= old(
                self,
            ).store().buckets.insert(bucket.name@));
            assert(self.store() =~= create_bucket_m(old(self).store(), bucket.name@));
        }
        Ok(())
    }

    fn list_buckets(&self) -> (r: Result<Vec<String>, DomainError>) {
        proof {
            use_type_invariant(&*self);
        }
        let mut v: Vec<String> = Vec::new();
        let mut i: usize = 0;
        while i < self.buckets.len()
            invariant
                i <= self.buckets@.len(),
                names_of(v@) == bucket_names_seq(self.buckets@.take(i as int)),
            decreases self.buckets@.len() - i,
        {
            let ghost prev = v@;
            v.push(self.buckets[i].name.clone());
            proof {
                assert(names_of(prev).len() == prev.len());
                assert(bucket_names_seq(self.buckets@.take(i as int)).len() == i);
                assert(prev.len() == i);
                assert forall|m: int| 0 <= m < i + 1 implies names_of(v@)[m]
                    == bucket_names_seq(self.buckets@.take(i as int + 1))[m] by {
                    assert(self.buckets@.take(i as int + 1)[m] == self.buckets@[m]);
                    if m < i {
                        assert(v@[m] == prev[m]);
                        assert(names_of(prev)[m] == bucket_names_seq(
                            self.buckets@.take(i as int),
                        )[m]);
                        assert(self.buckets@.take(i as int)[m] == self.buckets@[m]);
                    }
                }
                assert(names_of(v@) =~= bucket_names_seq(self.buckets@.take(i as int + 1)));
            }
            i = i + 1;
        }
        proof {
            assert(self.buckets@.take(self.buckets@.len() as int) =~= self.buckets@);
            assert(names_of(v@).no_duplicates()) by {
                assert forall|m1: int, m2: int|
                    0 <= m1 < names_of(v@).len() && 0 <= m2 < names_of(v@).len() && m1 != m2
                    implies names_of(v@)[m1] != names_of(v@)[m2] by {
                    assert(names_of(v@)[m1] == self.buckets@[m1].name@);
                    assert(names_of(v@)[m2] == self.buckets@[m2].name@);
                }
            }
        }
        Ok(v)
    }

    fn delete_bucket(&mut self, name: &str) -> (r: Result<(), DomainError>) {
        proof {
            use_type_invariant(&*self);
        }
        let name_s = String::from_str(name);
        let bs = buckets_without(&self.buckets, &name_s);
        let es = entries_without_bucket(&self.entries, &name_s);
        let ghost old_state = old(self).store();
        proof {
            assert forall|n: Seq<char>|
                bucket_names_seq(bs@).to_set().contains(n) == (old_state.buckets.contains(n)
                    && n != name@) by {
                lemma_has_bucket_name_set(bs@, n);
                lemma_has_bucket_name_set(self.buckets@, n);
                if has_bucket_name(bs@, n) {
                    let m = choose|m: int| 0 <= m < bs@.len() && (#[trigger] bs@[m]).name@ == n;
                    assert(has_bucket_name(self.buckets@, n));
                    assert(n != name@);
                }
                if old_state.buckets.contains(n) && n != name@ {
                    let j = choose|j: int|
                        0 <= j < self.buckets@.len() && (#[trigger] self.buckets@[j]).name@ == n;
                    assert(has_bucket_name(bs@, n));
                }
            }
            assert(bucket_names_seq(bs@).to_set() =~= old_state.buckets.remove(name@));
        }
        *self = MemoryStorage { buckets: bs, entries: es };
        proof {
            assert(self.store() =~= delete_bucket_m(old_state, name@));
        }
        Ok(())
    }
}


/// Whether some entry among the first `b` of `s` stores `(bucket, k)`.
spec fn pair_listed(s: Seq<Entry>, b: int, bucket: Seq<char>, k: Seq<char>) -> bool {
    exists|j: int| 0 <= j < b && entry_pair(#[trigger] s[j]) == (bucket, k)
}

/// Whether some string in `v` views as `k`.
spec fn key_in_list(v: Seq<String>, k: Seq<char>) -> bool {
    exists|m: int| 0 <= m < v.len() && (#[trigger] v[m])@ == k
}

/// Copies `src` dropping any entry stored under `(bucket, key)`.
fn entries_without_pair(src: &Vec<Entry>, bucket: &String, key: &String) -> (r: Vec<Entry>)
    requires
        unique_pairs(src@),
    ensures
        unique_pairs(r@),
        entries_map(r@) == entries_map(src@).remove((bucket@, key@)),
        forall|m: int| 0 <= m < r@.len() ==> entry_pair(#[trigger] r@[m]) != (bucket@, key@),
{
    let mut r: Vec<Entry> = Vec::new();
    let mut i: usize = 0;
    while i < src.len()
        invariant
            i <= src@.len(),
            unique_pairs(src@),
            unique_pairs(r@),
            entries_map(r@) == entries_map(src@.take(i as int)).remove((bucket@, key@)),
            forall|m: int| 0 <= m < r@.len() ==> entry_pair(#[trigger] r@[m]) != (bucket@, key@),
            forall|m: int| 0 <= m < r@.len() ==> (exists|j: int|
                0 <= j < i && entry_pair(#[trigger] r@[m]) == entry_pair(src@[j])),
        decreases src@.len() - i,
    {
        let ghost prev = r@;
        let keep = !(src[i].bucket == *bucket && src[i].key == *key);
        if keep {
            r.push(src[i].duplicate());
        }
        proof {
            lemma_entries_map_take_step(src@, i as int);
            let p = entry_pair(src@[i as int]);
            let c = src@[i as int].content@;
            if keep {
                assert(r@.drop_last() =~= prev);
                assert(entry_pair(r@.last()) == p && r@.last().content@ == c);
                assert(entries_map(r@) == entries_map(prev).insert(p, c));
                assert(p != (bucket@, key@));
                assert((entries_map(src@.take(i as int)).insert(p, c)).remove((bucket@, key@))
                    =~= entries_map(src@.take(i as int)).remove((bucket@, key@)).insert(p, c));
                assert forall|m: int| 0 <= m < prev.len() implies entry_pair(#[trigger] prev[m])
                    != p by {
                    let j = choose|j: int|
                        0 <= j < i && entry_pair(prev[m]) == entry_pair(src@[j]);
                    assert(entry_pair(src@[j]) != entry_pair(src@[i as int]));
                }
                assert forall|m: int| 0 <= m < r@.len() implies (exists|j: int|
                    0 <= j <= i && entry_pair(#[trigger] r@[m]) == entry_pair(src@[j])) by {
                    if m < r@.len() - 1 {
                        assert(r@[m] == prev[m]);
                    } else {
                        assert(entry_pair(r@[m]) == entry_pair(src@[i as int]));
                    }
                }
            } else {
                assert(p == (bucket@, key@));
                assert((entries_map(src@.take(i as int)).insert(p, c)).remove((bucket@, key@))
                    =~= entries_map(src@.take(i as int)).remove((bucket@, key@)));
            }
        }
        i = i + 1;
    }
    proof {
        assert(src@.take(src@.len() as int) =~= src@);
    }
    r
}

impl ObjectStorage for MemoryStorage {
    fn put_object(&mut self, bucket_name: &str, object: &Object) -> (r: Result<(), DomainError>) {
        proof {
            use_type_invariant(&*self);
        }
        if !check_key(object.key.as_str()) {
            return Err(DomainError::ValidationError(object.key.clone()));
        }
        let bname = String::from_str(bucket_name);
        let ghost old_state = old(self).store();
        let present = find_bucket(&self.buckets, &bname);
        if !present {
            let mut bs: Vec<Bucket> = Vec::new();
            core::mem::swap(&mut bs, &mut self.buckets);
            let ghost old_bs = bs@;
            bs.push(Bucket { id: fresh_id(), name: bname.clone() });
            proof {
                assert forall|i: int, j: int| 0 <= i < j < bs@.len() implies (
                #[trigger] bs@[i]).name@ != (#[trigger] bs@[j]).name@ by {
                    if j == bs@.len() - 1 {
                        assert(bs@[i] == old_bs[i]);
                        assert(bucket_names_seq(old_bs)[i] == bs@[i].name@);
                        assert(bucket_names_seq(old_bs).contains(bs@[i].name@));
                        assert(bucket_names_seq(old_bs).to_set().contains(bs@[i].name@));
                    } else {
                        assert(bs@[i] == old_bs[i] && bs@[j] == old_bs[j]);
                    }
                }
            }
            core::mem::swap(&mut bs, &mut self.buckets);
            proof {
                assert forall|n: Seq<char>|
                    bucket_names_seq(self.buckets@).to_set().contains(n)
                        == old_state.buckets.insert(bucket_name@).contains(n) by {
                    lemma_has_bucket_name_set(self.buckets@, n);
                    lemma_has_bucket_name_set(old_bs, n);
                    if has_bucket_name(self.buckets@, n) {
                        let j = choose|j: int|
                            0 <= j < self.buckets@.len() && (#[trigger] self.buckets@[j]).name@
                                == n;
                        if j < old_bs.len() {
                            assert(self.buckets@[j] == old_bs[j]);
                            assert(has_bucket_name(old_bs, n));
                        } else {
                            assert(n == bucket_name@);
                        }
                    }
                    if old_state.buckets.insert(bucket_name@).contains(n) {
                        if n == bucket_name@ {
                            assert((self.buckets@[self.buckets@.len() - 1]).name@ == n);
                        } else {
                            let j = choose|j: int|
                                0 <= j < old_bs.len() && (#[trigger] old_bs[j]).name@ == n;
                            assert((self.buckets@[j]).name@ == n);
                        }
                    }
                }
                assert(bucket_names_seq(self.buckets@).to_set() =~= old_state.buckets.insert(
                    bucket_name@,
                ));
            }
        } else {
            proof {
                assert(old_state.buckets.insert(bucket_name@) =~= old_state.buckets);
            }
        }
        let es0 = entries_without_pair(&self.entries, &bname, &object.key);
        let mut es = es0;
        let ghost es0v = es@;
        es.push(
            Entry { bucket: bname, key: object.key.clone(), content: clone_bytes(&object.content) },
        );
        proof {
            let p = (bucket_name@, object.key@);
            assert(es@.drop_last() =~= es0v);
            assert(entry_pair(es@.last()) == p && es@.last().content@ == object.content@);
            assert(entries_map(es@) == entries_map(es0v).insert(p, object.content@));
            assert(old_state.objects.remove(p).insert(p, object.content@)
                =~= old_state.objects.insert(p, object.content@));
            assert forall|m1: int, m2: int| 0 <= m1 < m2 < es@.len() implies entry_pair(
                #[trigger] es@[m1],
            ) != entry_pair(#[trigger] es@[m2]) by {
                if m2 == es@.len() - 1 {
                    assert(es@[m1] == es0v[m1]);
                    assert(entry_pair(es0v[m1]) != p);
                } else {
                    assert(es@[m1] == es0v[m1] && es@[m2] == es0v[m2]);
                }
            }
        }
        self.entries = es;
        proof {
            assert(self.store() =~= put_object_m(
                old_state,
                bucket_name@,
                object.key@,
                object.content@,
            ));
        }
        Ok(())
    }

    fn get_object(&self, bucket_name: &str, key: &str) -> (r: Result<Object, DomainError>) {
        proof {
            use_type_invariant(&*self);
            lemma_entries_map_dom(self.entries@);
        }
        let bname = String::from_str(bucket_name);
        let kname = String::from_str(key);
        let mut i: usize = 0;
        while i < self.entries.len()
            invariant
                i <= self.entries@.len(),
                bname@ == bucket_name@,
                kname@ == key@,
                unique_pairs(self.entries@),
                forall|j: int| 0 <= j < i ==> entry_pair(#[trigger] self.entries@[j]) != (
                    bucket_name@,
                    key@,
                ),
            decreases self.entries@.len() - i,
        {
            let e = &self.entries[i];
            if e.bucket == bname && e.key == kname {
                proof {
                    assert(entry_pair(self.entries@[i as int]) == (bucket_name@, key@));
                    lemma_entries_map_at(self.entries@, i as int);
                }
                let content = clone_bytes(&e.content);
                let size = content.len();
                return Ok(
                    Object {
                        id: fresh_id(),
                        key: kname,
                        content,
                        content_type: default_content_type_str(),
                        size,
                    },
                );
            }
            i = i + 1;
        }
        proof {
            if entries_map(self.entries@).dom().contains((bucket_name@, key@)) {
                let j = choose|j: int|
                    0 <= j < self.entries@.len() && entry_pair(#[trigger] self.entries@[j]) == (
                        bucket_name@,
                        key@,
                    );
                assert(false);
            }
        }
        Err(DomainError::ObjectNotFound(kname))
    }

    fn delete_object(&mut self, bucket_name: &str, key: &str) -> (r: Result<(), DomainError>) {
        proof {
            use_type_invariant(&*self);
        }
        let bname = String::from_str(bucket_name);
        let kname = String::from_str(key);
        let es = entries_without_pair(&self.entries, &bname, &kname);
        let ghost old_state = old(self).store();
        self.entries = es;
        proof {
            assert(self.store() =~= delete_object_m(old_state, bucket_name@, key@));
        }
        Ok(())
    }

    fn list_objects(&self, bucket_name: &str) -> (r: Result<Vec<String>, DomainError>) {
        proof {
            use_type_invariant(&*self);
            lemma_entries_map_dom(self.entries@);
        }
        let bname = String::from_str(bucket_name);
        let present = find_bucket(&self.buckets, &bname);
        if !present {
            return Err(DomainError::BucketNotFound(bname));
        }
        let mut v: Vec<String> = Vec::new();
        let mut i: usize = 0;
        while i < self.entries.len()
            invariant
                i <= self.entries@.len(),
                bname@ == bucket_name@,
                unique_pairs(self.entries@),
                forall|m: int| 0 <= m < v@.len() ==> pair_listed(
                    self.entries@,
                    i as int,
                    bucket_name@,
                    (#[trigger] v@[m])@,
                ),
                forall|j: int|
                    0 <= j < i && entry_pair(#[trigger] self.entries@[j]).0 == bucket_name@
                        ==> key_in_list(v@, self.entries@[j].key@),
                forall|m1: int, m2: int| 0 <= m1 < m2 < v@.len() ==> (#[trigger] v@[m1])@ != (
                #[trigger] v@[m2])@,
            decreases self.entries@.len() - i,
        {
            let ghost prev = v@;
            let e = &self.entries[i];
            if e.bucket == bname {
                v.push(e.key.clone());
                proof {
                    assert((v@[v@.len() - 1])@ == self.entries@[i as int].key@);
                    assert(entry_pair(self.entries@[i as int]) == (
                        bucket_name@,
                        self.entries@[i as int].key@,
                    ));
                    assert forall|m1: int, m2: int| 0 <= m1 < m2 < v@.len() implies (
                    #[trigger] v@[m1])@ != (#[trigger] v@[m2])@ by {
                        if m2 == v@.len() - 1 {
                            assert(v@[m1] == prev[m1]);
                            let j = choose|j: int|
                                0 <= j < i && entry_pair(#[trigger] self.entries@[j]) == (
                                    bucket_name@,
                                    prev[m1]@,
                                );
                            assert(entry_pair(self.entries@[j]) != entry_pair(
                                self.entries@[i as int],
                            ));
                        } else {
                            assert(v@[m1] == prev[m1] && v@[m2] == prev[m2]);
                        }
                    }
                }
            }
            proof {
                assert forall|m: int| 0 <= m < v@.len() implies pair_listed(
                    self.entries@,
                    i as int + 1,
                    bucket_name@,
                    (#[trigger] v@[m])@,
                ) by {
                    if m < prev.len() {
                        assert(v@[m] == prev[m]);
                        let j = choose|j: int|
                            0 <= j < i && entry_pair(#[trigger] self.entries@[j]) == (
                                bucket_name@,
                                prev[m]@,
                            );
                        assert(entry_pair(self.entries@[j]) == (bucket_name@, v@[m]@));
                    } else {
                        assert(entry_pair(self.entries@[i as int]) == (bucket_name@, v@[m]@));
                    }
                }
                assert forall|j: int|
                    0 <= j < i + 1 && entry_pair(#[trigger] self.entries@[j]).0 == bucket_name@
                    implies key_in_list(v@, self.entries@[j].key@) by {
                    if j < i {
                        let m = choose|m: int|
                            0 <= m < prev.len() && (#[trigger] prev[m])@
                                == self.entries@[j].key@;
                        assert(v@[m] == prev[m]);
                        assert((v@[m])@ == self.entries@[j].key@);
                    } else {
                        assert((v@[v@.len() - 1])@ == self.entries@[j].key@);
                    }
                }
            }
            i = i + 1;
        }
        proof {
            assert forall|k: Seq<char>|
                names_of(v@).to_set().contains(k) == keys_of_bucket_m(
                    self.store(),
                    bucket_name@,
                ).contains(k) by {
                if names_of(v@).to_set().contains(k) {
                    let m = choose|m: int|
                        0 <= m < names_of(v@).len() && names_of(v@)[m] == k;
                    assert((v@[m])@ == k);
                    let j = choose|j: int|
                        0 <= j < self.entries@.len() && entry_pair(
                            #[trigger] self.entries@[j],
                        ) == (bucket_name@, k);
                    assert(entries_map(self.entries@).dom().contains((bucket_name@, k)));
                }
                if keys_of_bucket_m(self.store(), bucket_name@).contains(k) {
                    let j = choose|j: int|
                        0 <= j < self.entries@.len() && entry_pair(
                            #[trigger] self.entries@[j],
                        ) == (bucket_name@, k);
                    assert(entry_pair(self.entries@[j]).0 == bucket_name@);
                    assert(key_in_list(v@, self.entries@[j].key@));
                    let m = choose|m: int| 0 <= m < v@.len() && (#[trigger] v@[m])@ == k;
                    assert(names_of(v@)[m] == k);
                    assert(names_of(v@).contains(k));
                }
            }
            assert(names_of(v@).to_set() =~= keys_of_bucket_m(self.store(), bucket_name@));
            assert forall|m1: int, m2: int|
                0 <= m1 < names_of(v@).len() && 0 <= m2 < names_of(v@).len() && m1 != m2
                implies names_of(v@)[m1] != names_of(v@)[m2] by {
                assert(names_of(v@)[m1] == (v@[m1])@ && names_of(v@)[m2] == (v@[m2])@);
            }
        }
        Ok(v)
    }
}

impl Storage for MemoryStorage {

}

} // verus!
