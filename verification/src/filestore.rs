//! The path-planning core of the filesystem engine.
//!
//! The filesystem engine maps a bucket to a directory named by the bucket's
//! validated name under a configured root, and an object to a file at
//! `<root>/<bucket>/<key>`; a key may contain `/`, producing nested
//! directories. This module holds the verified part of that engine: key
//! safety — a key-derived path must not escape the bucket root — and the
//! path construction itself. The file operations are I/O and live with the
//! application around this library, which obtains every path from here.

use vstd::prelude::*;

use crate::errors::DomainError;

verus! {

// ---------------------------------------------------------------------------
// Key safety.
// ---------------------------------------------------------------------------
/// Whether position `i` begins a `/`-separated segment of `s`.
pub open spec fn seg_starts_at(s: Seq<char>, i: int) -> bool {
    i == 0 || s[i - 1] == '/'
}

/// Whether position `j` ends a `/`-separated segment of `s`.
pub open spec fn seg_ends_at(s: Seq<char>, j: int) -> bool {
    j == s.len() - 1 || s[j + 1] == '/'
}

/// The per-position conditions of `safe_key`, restricted to positions below
/// `b`: no empty segment, no `.` segment, no `..` segment.
pub open spec fn key_ok_upto(s: Seq<char>, b: int) -> bool {
    &&& (forall|i: int| 0 < i < b ==> !(#[trigger] s[i] == '/' && s[i - 1] == '/'))
    &&& (forall|i: int|
        0 <= i < b && #[trigger] s[i] == '.' && seg_starts_at(s, i) ==> !seg_ends_at(s, i))
    &&& (forall|i: int|
        0 <= i && i + 1 < s.len() && i < b && #[trigger] s[i] == '.' && s[i + 1] == '.'
            && seg_starts_at(s, i) ==> !seg_ends_at(s, i + 1))
}

/// A storable object key: nonempty, not absolute, not ending in `/`, with
/// no empty segment and no `.` or `..` segment — so the path derived from
/// it stays strictly inside the bucket directory.
pub open spec fn safe_key(s: Seq<char>) -> bool {
    &&& s.len() > 0
    &&& s[0] != '/'
    &&& s[s.len() - 1] != '/'
    &&& key_ok_upto(s, s.len() as int)
}

fn slash_char(c: char) -> (r: bool)
    ensures
        r == (c == '/'),
{
    let u = c as u32;
    u == 47
}

fn period_char(c: char) -> (r: bool)
    ensures
        r == (c == '.'),
{
    let u = c as u32;
    u == 46
}

/// Decides whether `key` is safe to turn into a path under a bucket.
pub fn check_key(key: &str) -> (r: bool)
    ensures
        r == safe_key(key@),
{
    let ghost s = key@;
    let n = key.unicode_len();
    if n == 0 {
        return false;
    }
    if slash_char(key.get_char(0)) {
        return false;
    }
    if slash_char(key.get_char(n - 1)) {
        return false;
    }
    let mut i: usize = 0;
    while i < n
        invariant
            i <= n,
            n == s.len(),
            s == key@,
            key_ok_upto(s, i as int),
        decreases n - i,
    {
        let c = key.get_char(i);
        if slash_char(c) {
            if i > 0 && slash_char(key.get_char(i - 1)) {
                return false;
            }
        }
        if period_char(c) {
            let starts = i == 0 || slash_char(key.get_char(i - 1));
            if starts {
                let ends_here = i == n - 1 || slash_char(key.get_char(i + 1));
                if ends_here {
                    return false;
                }
                if i + 1 < n && period_char(key.get_char(i + 1)) {
                    let ends_next = i + 1 == n - 1 || slash_char(key.get_char(i + 2));
                    if ends_next {
                        return false;
                    }
                }
            }
        }
        i = i + 1;
    }
    true
}

// ---------------------------------------------------------------------------
// The filesystem engine's verified core.
// ---------------------------------------------------------------------------
/// The configured root directory of the filesystem engine and the path
/// arithmetic under it. Buckets map to `<root>/<bucket>` and objects to
/// `<root>/<bucket>/<key>`.
pub struct FileStorage {
    base_path: String,
}

impl FileStorage {
    /// The configured root directory.
    pub closed spec fn base(&self) -> Seq<char> {
        self.base_path@
    }

    pub fn new(base_path: String) -> (r: FileStorage)
        ensures
            r.base() == base_path@,
    {
        FileStorage { base_path }
    }

    /// The directory that holds the objects of `bucket_name`.
    pub fn bucket_path(&self, bucket_name: &str) -> (r: String)
        ensures
            r@ == self.base() + seq!['/'] + bucket_name@,
    {
        let mut p = self.base_path.clone();
        p.append("/");
        p.append(bucket_name);
        proof {
            reveal_strlit("/");
            assert("/"@ =~= seq!['/']);
        }
        p
    }

    /// The file that would hold `key` within `bucket_name`, provided the
    /// key is safe; an unsafe key is rejected before any path is formed.
    pub fn object_path(&self, bucket_name: &str, key: &str) -> (r: Result<String, DomainError>)
        ensures
            safe_key(key@) ==> (r matches Ok(p) && p@ == self.base() + seq!['/'] + bucket_name@
                + seq!['/'] + key@),
            !safe_key(key@) ==> (r matches Err(DomainError::ValidationError(k)) && k@ == key@),
    {
        if !check_key(key) {
            return Err(DomainError::ValidationError(String::from_str(key)));
        }
        let mut p = self.bucket_path(bucket_name);
        p.append("/");
        p.append(key);
        proof {
            reveal_strlit("/");
            assert("/"@ =~= seq!['/']);
        }
        Ok(p)
    }
}

/// The sibling path an atomic write uses: the content is first written
/// here in full, then renamed over `object_path`, so a concurrent reader
/// sees either the old or the new content, never a partial write.
pub fn temp_path_for(object_path: &str) -> (r: String)
    ensures
        r@ == object_path@ + ".tmp"@,
{
    String::from_str(object_path).concat(".tmp")
}

} // verus!
