//! Objects: keyed binary payloads stored within exactly one bucket.

use vstd::prelude::*;

use crate::ids::fresh_id;

verus! {

/// Engines in this minimal design persist no content-type metadata; a read
/// reconstructs an object carrying this fixed default. A documented
/// limitation, not a metadata side-channel.
pub open spec fn default_content_type() -> Seq<char> {
    "application/octet-stream"@
}

/// The executable counterpart of `default_content_type`.
pub fn default_content_type_str() -> (r: String)
    ensures
        r@ == default_content_type(),
{
    String::from_str("application/octet-stream")
}

/// A named binary payload. Its `size` equals the content length at
/// construction, and an object belongs to exactly one bucket for its
/// lifetime — engines return independent copies, never shared state.
#[derive(Debug)]
pub struct Object {
    pub id: String,
    pub key: String,
    pub content: Vec<u8>,
    pub content_type: String,
    pub size: usize,
}

/// Copies a byte vector, preserving its contents exactly.
pub(crate) fn clone_bytes(v: &Vec<u8>) -> (r: Vec<u8>)
    ensures
        r@ == v@,
{
    let r = v.clone();
    proof {
        assert forall|i: int| 0 <= i < v@.len() implies r@[i] == v@[i] by {
            assert(cloned::<u8>(v@[i], r@[i]));
        }
        assert(r@ =~= v@);
    }
    r
}

impl Clone for Object {
    fn clone(&self) -> (r: Self)
        ensures
            r.id == self.id,
            r.key == self.key,
            r.content@ == self.content@,
            r.content_type == self.content_type,
            r.size == self.size,
    {
        Object {
            id: self.id.clone(),
            key: self.key.clone(),
            content: clone_bytes(&self.content),
            content_type: self.content_type.clone(),
            size: self.size,
        }
    }
}

impl Object {
    /// Builds an object with a freshly assigned identifier; `size` is
    /// derived from the content, never supplied by the caller.
    pub fn new(key: String, content: Vec<u8>, content_type: String) -> (r: Object)
        ensures
            r.key == key,
            r.content == content,
            r.content_type == content_type,
            r.size == content@.len(),
            r.id@.len() == 36,
    {
        let size = content.len();
        Object { id: fresh_id(), key, content, content_type, size }
    }
}

} // verus!
