//! Mod identifiers and the order in which they are listed.
//!
//! An identifier is an opaque, case-sensitive string. Identifiers are listed
//! in the lexicographic order of their UTF-8 bytes, which is the order that
//! `str` itself has.

use vstd::prelude::*;
use vstd::utf8::encode_utf8;
use vstd::utf8::encode_utf8_decode_utf8;
use vstd::utf8::decode_utf8;

verus! {

/// `a` and `b` agree on their first `k` bytes, and there `a` ends while `b`
/// goes on, or `a` has the smaller byte.
pub open spec fn splits_at(a: Seq<u8>, b: Seq<u8>, k: int) -> bool {
    &&& 0 <= k <= a.len()
    &&& k < b.len()
    &&& forall|j: int| 0 <= j < k ==> a[j] == b[j]
    &&& k < a.len() ==> a[k] < b[k]
}

/// Strict lexicographic order on byte strings.
pub open spec fn bytes_lt(a: Seq<u8>, b: Seq<u8>) -> bool {
    exists|k: int| #[trigger] splits_at(a, b, k)
}

/// Strict order on identifiers: by their UTF-8 bytes.
pub open spec fn id_lt(a: Seq<char>, b: Seq<char>) -> bool {
    bytes_lt(encode_utf8(a), encode_utf8(b))
}

/// The sequence is strictly ascending in the identifier order.
pub open spec fn ascending(ids: Seq<Seq<char>>) -> bool {
    forall|i: int, j: int| 0 <= i < j < ids.len() ==> id_lt(#[trigger] ids[i], #[trigger] ids[j])
}

/// The views of a vector of strings, in the vector's order.
pub open spec fn views(v: Seq<String>) -> Seq<Seq<char>> {
    Seq::new(v.len(), |i: int| v[i]@)
}

/// How one identifier stands to another in the listing order.
#[derive(Clone, Copy, Debug, PartialEq, Eq, Structural)]
pub enum Rank {
    /// It is listed before the other.
    Before,
    /// The two are the same identifier.
    Same,
    /// It is listed after the other.
    After,
}

/// No byte string is below itself.
pub proof fn lemma_bytes_lt_irreflexive(a: Seq<u8>)
    ensures
        !bytes_lt(a, a),
{
}

/// Of two byte strings at most one is below the other.
pub proof fn lemma_bytes_lt_asymmetric(a: Seq<u8>, b: Seq<u8>)
    requires
        bytes_lt(a, b),
    ensures
        !bytes_lt(b, a),
{
    let k1 = choose|k: int| #[trigger] splits_at(a, b, k);
    if bytes_lt(b, a) {
        let k2 = choose|k: int| #[trigger] splits_at(b, a, k);
        if k1 < k2 {
            assert(b[k1] == a[k1]);
        } else if k2 < k1 {
            assert(a[k2] == b[k2]);
        }
    }
}

/// The order on byte strings is transitive.
pub proof fn lemma_bytes_lt_transitive(a: Seq<u8>, b: Seq<u8>, c: Seq<u8>)
    requires
        bytes_lt(a, b),
        bytes_lt(b, c),
    ensures
        bytes_lt(a, c),
{
    let k1 = choose|k: int| #[trigger] splits_at(a, b, k);
    let k2 = choose|k: int| #[trigger] splits_at(b, c, k);
    let k = if k1 <= k2 { k1 } else { k2 };
    assert forall|j: int| 0 <= j < k implies a[j] == c[j] by {
        assert(a[j] == b[j]);
        assert(b[j] == c[j]);
    }
    if k1 < k2 {
        assert(b[k1] == c[k1]);
    } else if k2 < k1 {
        assert(a[k2] == b[k2]);
    }
    assert(splits_at(a, c, k));
}

/// Two byte strings are equal, or one of them is below the other.
pub proof fn lemma_bytes_lt_total(a: Seq<u8>, b: Seq<u8>)
    ensures
        a == b || bytes_lt(a, b) || bytes_lt(b, a),
{
    lemma_first_difference(a, b, 0);
}

/// Two byte strings that agree on their first `k` bytes are equal or ordered.
proof fn lemma_first_difference(a: Seq<u8>, b: Seq<u8>, k: int)
    requires
        0 <= k <= a.len(),
        k <= b.len(),
        forall|j: int| 0 <= j < k ==> a[j] == b[j],
    ensures
        a == b || bytes_lt(a, b) || bytes_lt(b, a),
    decreases a.len() - k,
{
    if k == a.len() {
        if k == b.len() {
            assert(a =~= b);
        } else {
            assert(splits_at(a, b, k));
        }
    } else if k == b.len() {
        assert(splits_at(b, a, k));
    } else if a[k] < b[k] {
        assert(splits_at(a, b, k));
    } else if b[k] < a[k] {
        assert(splits_at(b, a, k));
    } else {
        lemma_first_difference(a, b, k + 1);
    }
}

/// Identifiers with the same UTF-8 bytes are the same identifier.
pub proof fn lemma_encoding_injective(a: Seq<char>, b: Seq<char>)
    requires
        encode_utf8(a) == encode_utf8(b),
    ensures
        a == b,
{
    encode_utf8_decode_utf8(a);
    encode_utf8_decode_utf8(b);
    assert(decode_utf8(encode_utf8(a)) == decode_utf8(encode_utf8(b)));
}

/// The identifier order is a strict total order: exactly one of `a` before
/// `b`, `a` equal to `b`, and `b` before `a` holds.
pub proof fn lemma_id_order(a: Seq<char>, b: Seq<char>)
    ensures
        id_lt(a, b) ==> a != b && !id_lt(b, a),
        a == b || id_lt(a, b) || id_lt(b, a),
{
    let x = encode_utf8(a);
    let y = encode_utf8(b);
    lemma_bytes_lt_irreflexive(x);
    if bytes_lt(x, y) {
        lemma_bytes_lt_asymmetric(x, y);
    }
    lemma_bytes_lt_total(x, y);
    if x == y {
        lemma_encoding_injective(a, b);
    }
}

/// The identifier order is transitive.
pub proof fn lemma_id_lt_transitive(a: Seq<char>, b: Seq<char>, c: Seq<char>)
    requires
        id_lt(a, b),
        id_lt(b, c),
    ensures
        id_lt(a, c),
{
    lemma_bytes_lt_transitive(encode_utf8(a), encode_utf8(b), encode_utf8(c));
}

/// An ascending sequence of identifiers holds none of them twice.
pub proof fn lemma_ascending_no_duplicates(ids: Seq<Seq<char>>)
    requires
        ascending(ids),
    ensures
        ids.no_duplicates(),
{
    assert forall|i: int, j: int| 0 <= i < ids.len() && 0 <= j < ids.len() && i != j implies ids[i]
        != ids[j] by {
        if i < j {
            lemma_id_order(ids[i], ids[j]);
        } else {
            lemma_id_order(ids[j], ids[i]);
        }
    }
}

/// A sequence without repetitions stays so when an identifier that it does
/// not hold is appended.
pub proof fn lemma_push_new(ids: Seq<Seq<char>>, id: Seq<char>)
    requires
        ids.no_duplicates(),
        !ids.contains(id),
    ensures
        ids.push(id).no_duplicates(),
{
    let more = ids.push(id);
    assert forall|i: int, j: int| 0 <= i < more.len() && 0 <= j < more.len() && i != j implies more[i]
        != more[j] by {
        if i < ids.len() {
            assert(ids[i] == more[i]);
        }
        if j < ids.len() {
            assert(ids[j] == more[j]);
        }
    }
}

/// Two ascending sequences with the same members are the same sequence.
pub proof fn lemma_ascending_unique(a: Seq<Seq<char>>, b: Seq<Seq<char>>)
    requires
        ascending(a),
        ascending(b),
        a.to_set() == b.to_set(),
    ensures
        a == b,
    decreases a.len(),
{
    lemma_ascending_no_duplicates(a);
    lemma_ascending_no_duplicates(b);
    if a.len() == 0 {
        if b.len() > 0 {
            assert(b.to_set().contains(b[0]));
            assert(a.contains(b[0]));
        }
        assert(a =~= b);
    } else {
        let x = a.last();
        assert(a.to_set().contains(x));
        assert(b.contains(x));
        let k = b.index_of(x);
        // `x` is the last of `b` too: whatever followed it in `b` would be
        // in `a`, and so before `x`
        if k < b.len() - 1 {
            let y = b.last();
            assert(b.to_set().contains(y));
            assert(a.contains(y));
            let j = a.index_of(y);
            assert(id_lt(b[k], b[b.len() - 1]));
            if j < a.len() - 1 {
                assert(id_lt(a[j], a[a.len() - 1]));
            }
            lemma_id_order(x, y);
        }
        let a0 = a.drop_last();
        let b0 = b.drop_last();
        assert forall|z: Seq<char>| a0.to_set().contains(z) == b0.to_set().contains(z) by {
            if a0.contains(z) {
                let i = a0.index_of(z);
                assert(a[i] == z);
                assert(a.to_set().contains(z));
                assert(b.contains(z));
                let m = b.index_of(z);
                assert(b0[m] == z);
            }
            if b0.contains(z) {
                let i = b0.index_of(z);
                assert(b[i] == z);
                assert(b.to_set().contains(z));
                assert(a.contains(z));
                let m = a.index_of(z);
                assert(a0[m] == z);
            }
        }
        assert(a0.to_set() =~= b0.to_set());
        assert(ascending(a0));
        assert(ascending(b0));
        lemma_ascending_unique(a0, b0);
        assert(a =~= a0.push(x));
        assert(b =~= b0.push(x));
    }
}

/// A copy of `ids`: the same identifiers in the same order.
pub fn copied(ids: &Vec<String>) -> (r: Vec<String>)
    ensures
        views(r@) == views(ids@),
{
    let mut r: Vec<String> = Vec::new();
    let mut i: usize = 0;
    while i < ids.len()
        invariant
            i <= ids.len(),
            r.len() == i,
            forall|j: int| 0 <= j < i ==> (#[trigger] r[j])@ == ids[j]@,
        decreases ids.len() - i,
    {
        r.push(ids[i].clone());
        i = i + 1;
    }
    assert(views(r@) =~= views(ids@));
    r
}

/// Whether `id` is among `ids`.
pub fn holds(ids: &Vec<String>, id: &str) -> (r: bool)
    ensures
        r == views(ids@).contains(id@),
{
    let mut i: usize = 0;
    while i < ids.len()
        invariant
            i <= ids.len(),
            forall|j: int| 0 <= j < i ==> views(ids@)[j] != id@,
        decreases ids.len() - i,
    {
        if same_id(ids[i].as_str(), id) {
            assert(views(ids@)[i as int] == id@);
            return true;
        }
        i = i + 1;
    }
    false
}

/// Says how `a` stands to `b` in the listing order.
pub fn rank(a: &str, b: &str) -> (r: Rank)
    ensures
        (r == Rank::Before) == id_lt(a@, b@),
        (r == Rank::Same) == (a@ == b@),
        (r == Rank::After) == id_lt(b@, a@),
{
    let x = a.as_bytes();
    let y = b.as_bytes();
    proof {
        lemma_id_order(a@, b@);
        lemma_id_order(b@, a@);
    }
    let mut i: usize = 0;
    while i < x.len() && i < y.len()
        invariant
            i <= x.len(),
            i <= y.len(),
            x@ == encode_utf8(a@),
            y@ == encode_utf8(b@),
            forall|j: int| 0 <= j < i ==> x@[j] == y@[j],
            id_lt(a@, b@) ==> a@ != b@ && !id_lt(b@, a@),
            id_lt(b@, a@) ==> a@ != b@ && !id_lt(a@, b@),
        decreases x.len() - i,
    {
        if x[i] < y[i] {
            assert(splits_at(x@, y@, i as int));
            return Rank::Before;
        }
        if y[i] < x[i] {
            assert(splits_at(y@, x@, i as int));
            return Rank::After;
        }
        i = i + 1;
    }
    if i < y.len() {
        assert(splits_at(x@, y@, i as int));
        Rank::Before
    } else if i < x.len() {
        assert(splits_at(y@, x@, i as int));
        Rank::After
    } else {
        proof {
            assert(x@ =~= y@);
            lemma_encoding_injective(a@, b@);
        }
        Rank::Same
    }
}

/// Whether `a` and `b` are the same identifier.
pub fn same_id(a: &str, b: &str) -> (r: bool)
    ensures
        r == (a@ == b@),
{
    rank(a, b) == Rank::Same
}

} // verus!
