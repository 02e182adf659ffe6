//! Total orders on keys.
//!
//! An ordered container needs to compare its keys, both when it runs and in
//! the statements made about it. [`OrderedKey`] ties the two together: a
//! strict total order on the keys' models, and an executable comparison that
//! is proved to decide it.
//!
//! Strings are ordered by the bytes of their UTF-8 encoding, compared
//! lexicographically; integers by their size.
use vstd::prelude::*;
use vstd::utf8::encode_utf8;

verus! {

/// How one key stands to another.
#[derive(Debug, Clone, Copy, PartialEq, Eq)]
pub enum Comparison {
    /// The first key sorts ahead of the second.
    Less,
    /// Both keys have the same model.
    Equal,
    /// The first key sorts behind the second.
    Greater,
}

/// A key type with a strict total order on its models.
///
/// Two keys are the same key when their models are equal.
pub trait OrderedKey: View + Sized {
    /// `before(a, b)` holds when a key with model `a` sorts strictly ahead of
    /// one with model `b`.
    spec fn before(a: Self::V, b: Self::V) -> bool;

    /// No key sorts ahead of itself.
    proof fn before_irreflexive(a: Self::V)
        ensures
            !Self::before(a, a),
    ;

    /// The order is transitive.
    proof fn before_transitive(a: Self::V, b: Self::V, c: Self::V)
        requires
            Self::before(a, b),
            Self::before(b, c),
        ensures
            Self::before(a, c),
    ;

    /// Any two different keys are ordered one way or the other.
    proof fn before_connected(a: Self::V, b: Self::V)
        ensures
            a == b || Self::before(a, b) || Self::before(b, a),
    ;

    /// Decides how `self` stands to `other`: `Equal` for the same key,
    /// `Less` when `self` sorts ahead, `Greater` in what is left.
    fn compare(&self, other: &Self) -> (c: Comparison)
        ensures
            c is Equal <==> self@ == other@,
            c is Less <==> Self::before(self@, other@),
    ;

    /// Makes another key with the same model.
    fn duplicate(&self) -> (copy: Self)
        ensures
            copy@ == self@,
    ;
}

/// In a strict total order no two keys are each ahead of the other.
pub proof fn before_asymmetric<K: OrderedKey>(a: K::V, b: K::V)
    requires
        K::before(a, b),
    ensures
        !K::before(b, a),
        a != b,
{
    K::before_irreflexive(a);
    if K::before(b, a) {
        K::before_transitive(a, b, a);
    }
}

/// Lexicographic order on byte strings: `a` is a proper prefix of `b`, or at
/// the first position where they differ `a` holds the smaller byte.
pub open spec fn bytes_before(a: Seq<u8>, b: Seq<u8>) -> bool
    decreases a.len(),
{
    if b.len() == 0 {
        false
    } else if a.len() == 0 {
        true
    } else if a[0] != b[0] {
        a[0] < b[0]
    } else {
        bytes_before(a.skip(1), b.skip(1))
    }
}

/// No byte string is ahead of itself.
pub proof fn bytes_before_irreflexive(a: Seq<u8>)
    ensures
        !bytes_before(a, a),
    decreases a.len(),
{
    if a.len() > 0 {
        bytes_before_irreflexive(a.skip(1));
    }
}

/// The lexicographic order is transitive.
pub proof fn bytes_before_transitive(a: Seq<u8>, b: Seq<u8>, c: Seq<u8>)
    requires
        bytes_before(a, b),
        bytes_before(b, c),
    ensures
        bytes_before(a, c),
    decreases a.len(),
{
    if a.len() > 0 && a[0] == b[0] && b[0] == c[0] {
        bytes_before_transitive(a.skip(1), b.skip(1), c.skip(1));
    }
}

/// Two different byte strings are ordered one way or the other.
pub proof fn bytes_before_connected(a: Seq<u8>, b: Seq<u8>)
    ensures
        a == b || bytes_before(a, b) || bytes_before(b, a),
    decreases a.len(),
{
    if a.len() > 0 && b.len() > 0 && a[0] == b[0] {
        bytes_before_connected(a.skip(1), b.skip(1));
        if a.skip(1) == b.skip(1) {
            assert(b =~= seq![b[0]] + b.skip(1));
        }
    }
}

/// The comparison of two byte strings under [`bytes_before`].
pub open spec fn relate_bytes(a: Seq<u8>, b: Seq<u8>) -> Comparison {
    if a == b {
        Comparison::Equal
    } else if bytes_before(a, b) {
        Comparison::Less
    } else {
        Comparison::Greater
    }
}

/// Compares two byte strings lexicographically.
pub fn compare_bytes(x: &[u8], y: &[u8]) -> (c: Comparison)
    ensures
        c == relate_bytes(x@, y@),
{
    let mut i: usize = 0;
    proof {
        assert(x@.skip(0) =~= x@);
        assert(y@.skip(0) =~= y@);
    }
    while i < x.len() && i < y.len()
        invariant
            i <= x.len(),
            i <= y.len(),
            bytes_before(x@, y@) == bytes_before(x@.skip(i as int), y@.skip(i as int)),
            (x@ == y@) == (x@.skip(i as int) == y@.skip(i as int)),
        decreases x.len() - i,
    {
        let ghost xs = x@.skip(i as int);
        let ghost ys = y@.skip(i as int);
        if x[i] < y[i] {
            return Comparison::Less;
        }
        if x[i] > y[i] {
            return Comparison::Greater;
        }
        proof {
            assert(xs.skip(1) =~= x@.skip(i + 1));
            assert(ys.skip(1) =~= y@.skip(i + 1));
            if xs.skip(1) == ys.skip(1) {
                assert(xs =~= seq![xs[0]] + xs.skip(1));
                assert(ys =~= seq![ys[0]] + ys.skip(1));
            }
        }
        i += 1;
    }
    if x.len() == y.len() {
        proof {
            assert(x@.skip(i as int) =~= y@.skip(i as int));
        }
        Comparison::Equal
    } else if i == x.len() {
        Comparison::Less
    } else {
        Comparison::Greater
    }
}

/// The order of strings: the lexicographic order of their UTF-8 encodings.
pub open spec fn text_before(a: Seq<char>, b: Seq<char>) -> bool {
    bytes_before(encode_utf8(a), encode_utf8(b))
}

/// Different texts have different UTF-8 encodings.
pub proof fn encoding_injective(a: Seq<char>, b: Seq<char>)
    requires
        encode_utf8(a) == encode_utf8(b),
    ensures
        a == b,
{
    vstd::utf8::encode_utf8_decode_utf8(a);
    vstd::utf8::encode_utf8_decode_utf8(b);
}

impl OrderedKey for String {
    open spec fn before(a: Seq<char>, b: Seq<char>) -> bool {
        text_before(a, b)
    }

    proof fn before_irreflexive(a: Seq<char>) {
        bytes_before_irreflexive(encode_utf8(a));
    }

    proof fn before_transitive(a: Seq<char>, b: Seq<char>, c: Seq<char>) {
        bytes_before_transitive(encode_utf8(a), encode_utf8(b), encode_utf8(c));
    }

    proof fn before_connected(a: Seq<char>, b: Seq<char>) {
        bytes_before_connected(encode_utf8(a), encode_utf8(b));
        if encode_utf8(a) == encode_utf8(b) {
            encoding_injective(a, b);
        }
    }

    fn compare(&self, other: &Self) -> (c: Comparison) {
        proof {
            if encode_utf8(self@) == encode_utf8(other@) {
                encoding_injective(self@, other@);
            }
            bytes_before_irreflexive(encode_utf8(self@));
        }
        compare_bytes(self.as_str().as_bytes(), other.as_str().as_bytes())
    }

    fn duplicate(&self) -> (copy: Self) {
        self.clone()
    }
}

impl OrderedKey for u32 {
    open spec fn before(a: u32, b: u32) -> bool {
        a < b
    }

    proof fn before_irreflexive(a: u32) {
    }

    proof fn before_transitive(a: u32, b: u32, c: u32) {
    }

    proof fn before_connected(a: u32, b: u32) {
    }

    fn compare(&self, other: &Self) -> (c: Comparison) {
        if *self < *other {
            Comparison::Less
        } else if *self == *other {
            Comparison::Equal
        } else {
            Comparison::Greater
        }
    }

    fn duplicate(&self) -> (copy: Self) {
        *self
    }
}

impl OrderedKey for u64 {
    open spec fn before(a: u64, b: u64) -> bool {
        a < b
    }

    proof fn before_irreflexive(a: u64) {
    }

    proof fn before_transitive(a: u64, b: u64, c: u64) {
    }

    proof fn before_connected(a: u64, b: u64) {
    }

    fn compare(&self, other: &Self) -> (c: Comparison) {
        if *self < *other {
            Comparison::Less
        } else if *self == *other {
            Comparison::Equal
        } else {
            Comparison::Greater
        }
    }

    fn duplicate(&self) -> (copy: Self) {
        *self
    }
}

impl OrderedKey for usize {
    open spec fn before(a: usize, b: usize) -> bool {
        a < b
    }

    proof fn before_irreflexive(a: usize) {
    }

    proof fn before_transitive(a: usize, b: usize, c: usize) {
    }

    proof fn before_connected(a: usize, b: usize) {
    }

    fn compare(&self, other: &Self) -> (c: Comparison) {
        if *self < *other {
            Comparison::Less
        } else if *self == *other {
            Comparison::Equal
        } else {
            Comparison::Greater
        }
    }

    fn duplicate(&self) -> (copy: Self) {
        *self
    }
}

impl OrderedKey for i32 {
    open spec fn before(a: i32, b: i32) -> bool {
        a < b
    }

    proof fn before_irreflexive(a: i32) {
    }

    proof fn before_transitive(a: i32, b: i32, c: i32) {
    }

    proof fn before_connected(a: i32, b: i32) {
    }

    fn compare(&self, other: &Self) -> (c: Comparison) {
        if *self < *other {
            Comparison::Less
        } else if *self == *other {
            Comparison::Equal
        } else {
            Comparison::Greater
        }
    }

    fn duplicate(&self) -> (copy: Self) {
        *self
    }
}

impl OrderedKey for i64 {
    open spec fn before(a: i64, b: i64) -> bool {
        a < b
    }

    proof fn before_irreflexive(a: i64) {
    }

    proof fn before_transitive(a: i64, b: i64, c: i64) {
    }

    proof fn before_connected(a: i64, b: i64) {
    }

    fn compare(&self, other: &Self) -> (c: Comparison) {
        if *self < *other {
            Comparison::Less
        } else if *self == *other {
            Comparison::Equal
        } else {
            Comparison::Greater
        }
    }

    fn duplicate(&self) -> (copy: Self) {
        *self
    }
}

} // verus!
