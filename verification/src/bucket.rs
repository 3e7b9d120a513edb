//! Buckets and the bucket-naming validator.
//!
//! A bucket name must have length in `[3, 63]`, start and end with a
//! lowercase letter or digit, contain only lowercase letters, digits, `.`
//! and `-`, and must not look like a dotted-quad IPv4 address. Validation is
//! centralized here so every creation path enforces identical rules.

use vstd::prelude::*;

use crate::errors::DomainError;
use crate::ids::fresh_id;

verus! {

// ---------------------------------------------------------------------------
// Character classes of the naming rules.
// ---------------------------------------------------------------------------
pub open spec fn is_lower(c: char) -> bool {
    'a' <= c && c <= 'z'
}

pub open spec fn is_digit(c: char) -> bool {
    '0' <= c && c <= '9'
}

pub open spec fn is_alnum(c: char) -> bool {
    is_lower(c) || is_digit(c)
}

pub open spec fn is_name_char(c: char) -> bool {
    is_alnum(c) || c == '.' || c == '-'
}

// ---------------------------------------------------------------------------
// Decimal octets, for the dotted-quad rule.
// ---------------------------------------------------------------------------
pub open spec fn digit_val(c: char) -> int {
    c as u32 - 48
}

/// The value of a digit string read in decimal.
pub open spec fn digits_val(s: Seq<char>) -> int
    decreases s.len(),
{
    if s.len() == 0 {
        0
    } else {
        digits_val(s.drop_last()) * 10 + digit_val(s.last())
    }
}

pub open spec fn all_digits(s: Seq<char>) -> bool {
    forall|i: int| 0 <= i < s.len() ==> is_digit(#[trigger] s[i])
}

/// A nonempty digit string whose decimal value is at most 255, leading
/// zeros allowed — exactly the strings that parse as an octet.
pub open spec fn is_octet(s: Seq<char>) -> bool {
    s.len() > 0 && all_digits(s) && digits_val(s) <= 255
}

/// Splitting on `.` yields exactly four parts and every part is a valid
/// `[0, 255]` integer.
pub open spec fn is_dotted_quad(s: Seq<char>) -> bool {
    exists|i: int, j: int, k: int|
        #![trigger s[i], s[j], s[k]]
        {
            &&& 0 <= i < j < k < s.len()
            &&& s[i] == '.'
            &&& s[j] == '.'
            &&& s[k] == '.'
            &&& (forall|m: int| 0 <= m < s.len() && #[trigger] s[m] == '.' ==> m == i || m == j
                || m == k)
            &&& is_octet(s.subrange(0, i))
            &&& is_octet(s.subrange(i + 1, j))
            &&& is_octet(s.subrange(j + 1, k))
            &&& is_octet(s.subrange(k + 1, s.len() as int))
        }
}

/// The naming rules, all of which must hold.
pub open spec fn valid_name(s: Seq<char>) -> bool {
    &&& 3 <= s.len() <= 63
    &&& is_alnum(s[0])
    &&& is_alnum(s[s.len() - 1])
    &&& (forall|i: int| 0 <= i < s.len() ==> is_name_char(#[trigger] s[i]))
    &&& !is_dotted_quad(s)
}

// ---------------------------------------------------------------------------
// Laws of the validator.
// ---------------------------------------------------------------------------
/// Law: every string of length in `[3, 63]` containing only lowercase
/// letters, digits, `.` and `-`, starting and ending alphanumeric, and not a
/// valid dotted-quad, is accepted by the validator.
pub proof fn lemma_valid_name_accepted(s: Seq<char>)
    requires
        3 <= s.len() <= 63,
        is_alnum(s[0]),
        is_alnum(s[s.len() - 1]),
        forall|i: int| 0 <= i < s.len() ==> is_name_char(#[trigger] s[i]),
        !is_dotted_quad(s),
    ensures
        valid_name(s),
{
}

/// Law: a four-part dot-separated string whose every part is a valid
/// `[0, 255]` integer is rejected, regardless of its other characters.
pub proof fn lemma_dotted_quad_rejected(s: Seq<char>)
    requires
        is_dotted_quad(s),
    ensures
        !valid_name(s),
{
}

// ---------------------------------------------------------------------------
// Proof helpers about digit strings and dot positions.
// ---------------------------------------------------------------------------
proof fn lemma_digits_val_nonneg(s: Seq<char>)
    requires
        all_digits(s),
    ensures
        digits_val(s) >= 0,
    decreases s.len(),
{
    if s.len() > 0 {
        assert forall|i: int| 0 <= i < s.drop_last().len() implies is_digit(
            #[trigger] s.drop_last()[i],
        ) by {
            assert(s.drop_last()[i] == s[i]);
        }
        lemma_digits_val_nonneg(s.drop_last());
        assert(is_digit(s[s.len() - 1]));
    }
}

proof fn lemma_digits_val_prefix_le(s: Seq<char>, n: int)
    requires
        all_digits(s),
        0 <= n <= s.len(),
    ensures
        digits_val(s.take(n)) <= digits_val(s),
    decreases s.len() - n,
{
    if n == s.len() {
        assert(s.take(n) =~= s);
    } else {
        assert(s.take(n + 1).drop_last() =~= s.take(n));
        assert(s.take(n + 1).last() == s[n]);
        assert forall|i: int| 0 <= i < s.take(n).len() implies is_digit(
            #[trigger] s.take(n)[i],
        ) by {
            assert(s.take(n)[i] == s[i]);
        }
        lemma_digits_val_nonneg(s.take(n));
        assert(is_digit(s[n]));
        assert(digits_val(s.take(n + 1)) == digits_val(s.take(n)) * 10 + digit_val(s[n]));
        lemma_digits_val_prefix_le(s, n + 1);
    }
}

/// If `dots` lists exactly the dot positions of `s` in increasing order and
/// there are not exactly three of them, `s` is not a dotted quad.
proof fn lemma_not_quad_wrong_dot_count(s: Seq<char>, dots: Seq<usize>)
    requires
        forall|m: int| 0 <= m < dots.len() ==> #[trigger] dots[m] < s.len() && s[dots[m] as int]
            == '.',
        forall|j: int| 0 <= j < s.len() && #[trigger] s[j] == '.' ==> exists|m: int|
            0 <= m < dots.len() && dots[m] as int == j,
        forall|m1: int, m2: int| 0 <= m1 < m2 < dots.len() ==> #[trigger] dots[m1]
            < #[trigger] dots[m2],
        dots.len() != 3,
    ensures
        !is_dotted_quad(s),
{
    if is_dotted_quad(s) {
        let (i, j, k) = choose|i: int, j: int, k: int|
            #![trigger s[i], s[j], s[k]]
            {
                &&& 0 <= i < j < k < s.len()
                &&& s[i] == '.'
                &&& s[j] == '.'
                &&& s[k] == '.'
                &&& (forall|m: int| 0 <= m < s.len() && #[trigger] s[m] == '.' ==> m == i || m
                    == j || m == k)
                &&& is_octet(s.subrange(0, i))
                &&& is_octet(s.subrange(i + 1, j))
                &&& is_octet(s.subrange(j + 1, k))
                &&& is_octet(s.subrange(k + 1, s.len() as int))
            };
        let mi = choose|m: int| 0 <= m < dots.len() && dots[m] as int == i;
        let mj = choose|m: int| 0 <= m < dots.len() && dots[m] as int == j;
        let mk = choose|m: int| 0 <= m < dots.len() && dots[m] as int == k;
        assert(0 <= mi < dots.len() && dots[mi] as int == i);
        assert(0 <= mj < dots.len() && dots[mj] as int == j);
        assert(0 <= mk < dots.len() && dots[mk] as int == k);
        if dots.len() < 3 {
            // three distinct values cannot come from fewer than three slots
            assert(mi != mj && mj != mk && mi != mk);
            assert(false);
        } else {
            // more than three slots would hold a fourth dot position
            assert(s[dots[0] as int] == '.');
            assert(s[dots[1] as int] == '.');
            assert(s[dots[2] as int] == '.');
            assert(s[dots[3] as int] == '.');
            assert(dots[0] < dots[1] && dots[1] < dots[2] && dots[2] < dots[3]);
            assert(false);
        }
    }
}

/// If `dots` lists exactly the three dot positions of `s` in increasing
/// order and one of the four parts they delimit is not an octet, `s` is not
/// a dotted quad.
proof fn lemma_not_quad_bad_part(s: Seq<char>, dots: Seq<usize>)
    requires
        forall|m: int| 0 <= m < dots.len() ==> #[trigger] dots[m] < s.len() && s[dots[m] as int]
            == '.',
        forall|j: int| 0 <= j < s.len() && #[trigger] s[j] == '.' ==> exists|m: int|
            0 <= m < dots.len() && dots[m] as int == j,
        forall|m1: int, m2: int| 0 <= m1 < m2 < dots.len() ==> #[trigger] dots[m1]
            < #[trigger] dots[m2],
        dots.len() == 3,
        !(is_octet(s.subrange(0, dots[0] as int)) && is_octet(
            s.subrange(dots[0] as int + 1, dots[1] as int),
        ) && is_octet(s.subrange(dots[1] as int + 1, dots[2] as int)) && is_octet(
            s.subrange(dots[2] as int + 1, s.len() as int),
        )),
    ensures
        !is_dotted_quad(s),
{
    if is_dotted_quad(s) {
        let (i, j, k) = choose|i: int, j: int, k: int|
            #![trigger s[i], s[j], s[k]]
            {
                &&& 0 <= i < j < k < s.len()
                &&& s[i] == '.'
                &&& s[j] == '.'
                &&& s[k] == '.'
                &&& (forall|m: int| 0 <= m < s.len() && #[trigger] s[m] == '.' ==> m == i || m
                    == j || m == k)
                &&& is_octet(s.subrange(0, i))
                &&& is_octet(s.subrange(i + 1, j))
                &&& is_octet(s.subrange(j + 1, k))
                &&& is_octet(s.subrange(k + 1, s.len() as int))
            };
        let mi = choose|m: int| 0 <= m < dots.len() && dots[m] as int == i;
        let mj = choose|m: int| 0 <= m < dots.len() && dots[m] as int == j;
        let mk = choose|m: int| 0 <= m < dots.len() && dots[m] as int == k;
        assert(0 <= mi < dots.len() && dots[mi] as int == i);
        assert(0 <= mj < dots.len() && dots[mj] as int == j);
        assert(0 <= mk < dots.len() && dots[mk] as int == k);
        // the three slots are pinned in order, so the witness parts are the
        // very parts that were checked
        assert(mi < mj) by {
            if mj < mi {
                assert(dots[mj] < dots[mi]);
            }
            if mi == mj {
                assert(i == j);
            }
        }
        assert(mj < mk) by {
            if mk < mj {
                assert(dots[mk] < dots[mj]);
            }
            if mj == mk {
                assert(j == k);
            }
        }
        assert(mi == 0 && mj == 1 && mk == 2);
        assert(false);
    }
}

// ---------------------------------------------------------------------------
// Executable character tests.
// ---------------------------------------------------------------------------
fn alnum_char(c: char) -> (r: bool)
    ensures
        r == is_alnum(c),
{
    let u = c as u32;
    (97 <= u && u <= 122) || (48 <= u && u <= 57)
}

fn digit_char(c: char) -> (r: bool)
    ensures
        r == is_digit(c),
{
    let u = c as u32;
    48 <= u && u <= 57
}

fn name_char(c: char) -> (r: bool)
    ensures
        r == is_name_char(c),
{
    let u = c as u32;
    (97 <= u && u <= 122) || (48 <= u && u <= 57) || u == 46 || u == 45
}

fn dot_char(c: char) -> (r: bool)
    ensures
        r == (c == '.'),
{
    let u = c as u32;
    u == 46
}

/// Decides whether the characters of `s` at `[from, to)` form a valid octet.
fn check_octet(s: &str, from: usize, to: usize) -> (r: bool)
    requires
        from <= to <= s@.len(),
    ensures
        r == is_octet(s@.subrange(from as int, to as int)),
{
    let ghost part = s@.subrange(from as int, to as int);
    if from == to {
        return false;
    }
    let mut val: u32 = 0;
    let mut i = from;
    while i < to
        invariant
            from <= i <= to <= s@.len(),
            part == s@.subrange(from as int, to as int),
            all_digits(s@.subrange(from as int, i as int)),
            val == digits_val(s@.subrange(from as int, i as int)),
            val <= 255,
        decreases to - i,
    {
        let c = s.get_char(i);
        if !digit_char(c) {
            proof {
                assert(part[i - from] == s@[i as int]);
            }
            return false;
        }
        let d = c as u32 - 48;
        let v2 = val * 10 + d;
        let ghost prev = s@.subrange(from as int, i as int);
        proof {
            assert(s@.subrange(from as int, i as int + 1).drop_last() =~= prev);
            assert(s@.subrange(from as int, i as int + 1).last() == s@[i as int]);
            assert(digits_val(s@.subrange(from as int, i as int + 1)) == digits_val(prev) * 10
                + digit_val(s@[i as int]));
        }
        if v2 > 255 {
            proof {
                if all_digits(part) {
                    assert(part.take(i + 1 - from) =~= s@.subrange(from as int, i as int + 1));
                    lemma_digits_val_prefix_le(part, i + 1 - from);
                }
            }
            return false;
        }
        val = v2;
        i = i + 1;
        proof {
            assert forall|m: int| 0 <= m < s@.subrange(from as int, i as int).len() implies
                is_digit(#[trigger] s@.subrange(from as int, i as int)[m]) by {
                assert(s@.subrange(from as int, i as int)[m] == s@[from + m]);
                if m < i - from - 1 {
                    assert(prev[m] == s@[from + m]);
                }
            }
        }
    }
    proof {
        assert(s@.subrange(from as int, i as int) =~= part);
    }
    true
}

// ---------------------------------------------------------------------------
// The bucket entity.
// ---------------------------------------------------------------------------
/// A top-level named container for objects. The identifier is assigned once
/// at creation and never changes; the name passes the validator on every
/// creation path.
#[derive(Debug)]
pub struct Bucket {
    pub id: String,
    pub name: String,
}

impl Clone for Bucket {
    fn clone(&self) -> (r: Self)
        ensures
            r == *self,
    {
        Bucket { id: self.id.clone(), name: self.name.clone() }
    }
}

impl Bucket {
    /// Decides the naming rules for `name`.
    pub fn validate_name(name: &str) -> (r: bool)
        ensures
            r == valid_name(name@),
    {
        let ghost s = name@;
        let n = name.unicode_len();
        if n < 3 || n > 63 {
            return false;
        }
        if !alnum_char(name.get_char(0)) {
            return false;
        }
        if !alnum_char(name.get_char(n - 1)) {
            return false;
        }
        let mut dots: Vec<usize> = Vec::new();
        let mut i: usize = 0;
        while i < n
            invariant
                i <= n,
                n == s.len(),
                s == name@,
                forall|j: int| 0 <= j < i ==> is_name_char(#[trigger] s[j]),
                forall|m: int| 0 <= m < dots@.len() ==> #[trigger] dots@[m] < i && s[dots@[m] as int]
                    == '.',
                forall|j: int| 0 <= j < i && #[trigger] s[j] == '.' ==> exists|m: int|
                    0 <= m < dots@.len() && dots@[m] as int == j,
                forall|m1: int, m2: int| 0 <= m1 < m2 < dots@.len() ==> #[trigger] dots@[m1]
                    < #[trigger] dots@[m2],
            decreases n - i,
        {
            let ghost prev_dots = dots@;
            let c = name.get_char(i);
            if !name_char(c) {
                return false;
            }
            if dot_char(c) {
                dots.push(i);
            }
            i = i + 1;
            proof {
                assert forall|j: int| 0 <= j < i && #[trigger] s[j] == '.' implies exists|m: int|
                    0 <= m < dots@.len() && dots@[m] as int == j by {
                    if j == i - 1 {
                        assert(dots@[dots@.len() - 1] as int == j);
                    } else {
                        let m0 = choose|m0: int|
                            0 <= m0 < prev_dots.len() && prev_dots[m0] as int == j;
                        assert(dots@[m0] as int == j);
                    }
                }
            }
        }
        if dots.len() != 3 {
            proof {
                lemma_not_quad_wrong_dot_count(s, dots@);
            }
            return true;
        }
        let d0 = dots[0];
        let d1 = dots[1];
        let d2 = dots[2];
        assert(d0 < d1 && d1 < d2 && d2 < n);
        let b0 = check_octet(name, 0, d0);
        let b1 = check_octet(name, d0 + 1, d1);
        let b2 = check_octet(name, d1 + 1, d2);
        let b3 = check_octet(name, d2 + 1, n);
        if b0 && b1 && b2 && b3 {
            proof {
                assert forall|m: int| 0 <= m < s.len() && #[trigger] s[m] == '.' implies m
                    == d0 as int || m == d1 as int || m == d2 as int by {
                    let mm = choose|mm: int| 0 <= mm < dots@.len() && dots@[mm] as int == m;
                    assert(0 <= mm < 3);
                }
                assert(s[d0 as int] == '.' && s[d1 as int] == '.' && s[d2 as int] == '.');
                assert(is_dotted_quad(s));
            }
            false
        } else {
            proof {
                lemma_not_quad_bad_part(s, dots@);
            }
            true
        }
    }

    /// Builds a bucket with a freshly assigned identifier. The name must
    /// already satisfy the naming rules; `try_new` checks them instead.
    pub fn new(name: String) -> (r: Bucket)
        requires
            valid_name(name@),
        ensures
            r.name == name,
            r.id@.len() == 36,
    {
        Bucket { id: fresh_id(), name }
    }

    /// Builds a bucket after validating the name, rejecting a bad name with
    /// `ValidationError` rather than coercing it.
    pub fn try_new(name: String) -> (r: Result<Bucket, DomainError>)
        ensures
            valid_name(name@) ==> (r matches Ok(b) && b.name == name && b.id@.len() == 36),
            !valid_name(name@) ==> (r matches Err(DomainError::ValidationError(n)) && n == name),
    {
        if Bucket::validate_name(name.as_str()) {
            Ok(Bucket { id: fresh_id(), name })
        } else {
            Err(DomainError::ValidationError(name))
        }
    }

    /// Whether this bucket's current name satisfies the naming rules.
    pub fn is_valid(&self) -> (r: bool)
        ensures
            r == valid_name(self.name@),
    {
        Bucket::validate_name(self.name.as_str())
    }

    /// Replaces the name, keeping the identity. The new name must satisfy
    /// the naming rules.
    pub fn with_name(self, name: String) -> (r: Bucket)
        requires
            valid_name(name@),
        ensures
            r.id == self.id,
            r.name == name,
    {
        Bucket { id: self.id, name }
    }
}

/// The payload of a bucket-creation request: the name the new bucket is to
/// carry. Transport adapters deserialize into their own copy of this type
/// and convert to and from it at the boundary.
pub struct CreateBucketRequest {
    pub name: String,
}

impl CreateBucketRequest {
    /// Turns the request into a bucket, enforcing the naming rules.
    pub fn into_bucket(self) -> (r: Result<Bucket, DomainError>)
        ensures
            valid_name(self.name@) ==> (r matches Ok(b) && b.name == self.name && b.id@.len()
                == 36),
            !valid_name(self.name@) ==> (r matches Err(DomainError::ValidationError(n)) && n
                == self.name),
    {
        Bucket::try_new(self.name)
    }
}

} // verus!
