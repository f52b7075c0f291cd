//! The total order in which the tables keep their keys.
//!
//! Names are ordered as the standard library orders strings:
//! lexicographically by the bytes of their UTF-8 encoding. The order is
//! defined on byte sequences, lifted to character sequences, and made
//! available to the tables through the [`OrderedKey`] trait.

use vstd::prelude::*;
use vstd::utf8::encode_utf8;
use vstd::utf8::encode_utf8_decode_utf8;

verus! {

/// Where one key stands relative to another in a total order.
#[derive(Clone, Copy, PartialEq, Eq, Debug, Structural)]
pub enum Placement {
    Before,
    Same,
    After,
}

/// Lexicographic order on byte sequences: `a` precedes `b` when, at the
/// first position where they differ, `a` has the smaller byte, or when `a`
/// is a proper prefix of `b`.
pub open spec fn bytes_precede(a: Seq<u8>, b: Seq<u8>) -> bool
    decreases a.len(),
{
    if b.len() == 0 {
        false
    } else if a.len() == 0 {
        true
    } else if a[0] != b[0] {
        a[0] < b[0]
    } else {
        bytes_precede(a.drop_first(), b.drop_first())
    }
}

/// The placement of `a` relative to `b` in the lexicographic byte order.
pub open spec fn bytes_placement(a: Seq<u8>, b: Seq<u8>) -> Placement {
    if a == b {
        Placement::Same
    } else if bytes_precede(a, b) {
        Placement::Before
    } else {
        Placement::After
    }
}

/// No byte sequence precedes itself.
pub proof fn lemma_bytes_irreflexive(a: Seq<u8>)
    ensures
        !bytes_precede(a, a),
    decreases a.len(),
{
    if a.len() > 0 {
        lemma_bytes_irreflexive(a.drop_first());
    }
}

/// The byte order is transitive.
pub proof fn lemma_bytes_transitive(a: Seq<u8>, b: Seq<u8>, c: Seq<u8>)
    requires
        bytes_precede(a, b),
        bytes_precede(b, c),
    ensures
        bytes_precede(a, c),
    decreases a.len(),
{
    if a.len() > 0 && a[0] == b[0] && b[0] == c[0] {
        lemma_bytes_transitive(a.drop_first(), b.drop_first(), c.drop_first());
    }
}

/// Any two byte sequences are equal or ordered one way or the other.
pub proof fn lemma_bytes_total(a: Seq<u8>, b: Seq<u8>)
    ensures
        a == b || bytes_precede(a, b) || bytes_precede(b, a),
    decreases a.len(),
{
    if a.len() > 0 && b.len() > 0 && a[0] == b[0] {
        lemma_bytes_total(a.drop_first(), b.drop_first());
        if a.drop_first() == b.drop_first() {
            assert(a =~= seq![a[0]] + a.drop_first());
            assert(b =~= seq![b[0]] + b.drop_first());
        }
    } else if a.len() == 0 && b.len() == 0 {
        assert(a =~= b);
    }
}

/// The order of two byte sequences that agree on their first `n` bytes is
/// the order of what follows those bytes.
pub proof fn lemma_bytes_skip_common_prefix(a: Seq<u8>, b: Seq<u8>, n: int)
    requires
        0 <= n <= a.len(),
        n <= b.len(),
        forall|k: int| 0 <= k < n ==> a[k] == b[k],
    ensures
        bytes_precede(a, b) == bytes_precede(a.skip(n), b.skip(n)),
    decreases n,
{
    if n == 0 {
        assert(a.skip(0) =~= a);
        assert(b.skip(0) =~= b);
    } else {
        let a1 = a.drop_first();
        let b1 = b.drop_first();
        assert forall|k: int| 0 <= k < n - 1 implies a1[k] == b1[k] by {
            assert(a1[k] == a[k + 1]);
            assert(b1[k] == b[k + 1]);
        }
        lemma_bytes_skip_common_prefix(a1, b1, n - 1);
        assert(a1.skip(n - 1) =~= a.skip(n));
        assert(b1.skip(n - 1) =~= b.skip(n));
    }
}

/// The order on names: the byte order of their UTF-8 encodings.
pub open spec fn name_precedes(a: Seq<char>, b: Seq<char>) -> bool {
    bytes_precede(encode_utf8(a), encode_utf8(b))
}

/// The placement of the name `a` relative to the name `b`.
pub open spec fn name_placement(a: Seq<char>, b: Seq<char>) -> Placement {
    if a == b {
        Placement::Same
    } else if name_precedes(a, b) {
        Placement::Before
    } else {
        Placement::After
    }
}

/// Two names with the same UTF-8 encoding are the same name.
pub proof fn lemma_encoding_injective(a: Seq<char>, b: Seq<char>)
    requires
        encode_utf8(a) == encode_utf8(b),
    ensures
        a == b,
{
    encode_utf8_decode_utf8(a);
    encode_utf8_decode_utf8(b);
}

/// No name precedes itself.
pub proof fn lemma_names_irreflexive(a: Seq<char>)
    ensures
        !name_precedes(a, a),
{
    lemma_bytes_irreflexive(encode_utf8(a));
}

/// The order on names is transitive.
pub proof fn lemma_names_transitive(a: Seq<char>, b: Seq<char>, c: Seq<char>)
    requires
        name_precedes(a, b),
        name_precedes(b, c),
    ensures
        name_precedes(a, c),
{
    lemma_bytes_transitive(encode_utf8(a), encode_utf8(b), encode_utf8(c));
}

/// Any two names are equal or ordered one way or the other.
pub proof fn lemma_names_total(a: Seq<char>, b: Seq<char>)
    ensures
        a == b || name_precedes(a, b) || name_precedes(b, a),
{
    lemma_bytes_total(encode_utf8(a), encode_utf8(b));
    if encode_utf8(a) == encode_utf8(b) {
        lemma_encoding_injective(a, b);
    }
}

/// Compares two byte slices lexicographically.
pub fn compare_bytes(a: &[u8], b: &[u8]) -> (r: Placement)
    ensures
        r == bytes_placement(a@, b@),
{
    let mut i: usize = 0;
    while i < a.len() && i < b.len()
        invariant
            i <= a@.len(),
            i <= b@.len(),
            forall|k: int| 0 <= k < i ==> a@[k] == b@[k],
        decreases a@.len() - i,
    {
        if a[i] != b[i] {
            proof {
                lemma_bytes_skip_common_prefix(a@, b@, i as int);
                lemma_bytes_skip_common_prefix(b@, a@, i as int);
                lemma_bytes_irreflexive(a@);
            }
            if a[i] < b[i] {
                return Placement::Before;
            } else {
                assert(a@ != b@);
                assert(!bytes_precede(a@.skip(i as int), b@.skip(i as int)));
                return Placement::After;
            }
        }
        i = i + 1;
    }
    proof {
        lemma_bytes_skip_common_prefix(a@, b@, i as int);
        lemma_bytes_irreflexive(a@);
    }
    if i < b.len() {
        Placement::Before
    } else if i < a.len() {
        assert(a@ != b@);
        Placement::After
    } else {
        assert(a@ =~= b@);
        Placement::Same
    }
}

/// Compares two names in the order of the tables.
pub fn compare_names(a: &str, b: &str) -> (r: Placement)
    ensures
        r == name_placement(a@, b@),
{
    let r = compare_bytes(a.as_bytes(), b.as_bytes());
    proof {
        if encode_utf8(a@) == encode_utf8(b@) {
            lemma_encoding_injective(a@, b@);
        }
    }
    r
}

/// A key type with a total order that the sorted tables can be keyed by.
///
/// A key is known to specifications by its `id`; the order and the
/// comparison are stated on ids, so that two keys with the same id are
/// interchangeable.
pub trait OrderedKey: Sized {
    /// The mathematical value that identifies a key.
    type Id;

    /// The identity of this key.
    spec fn id(&self) -> Self::Id;

    /// The strict order on identities.
    spec fn precedes(a: Self::Id, b: Self::Id) -> bool;

    /// No identity precedes itself.
    proof fn lemma_irreflexive(a: Self::Id)
        ensures
            !Self::precedes(a, a),
    ;

    /// The order is transitive.
    proof fn lemma_transitive(a: Self::Id, b: Self::Id, c: Self::Id)
        requires
            Self::precedes(a, b),
            Self::precedes(b, c),
        ensures
            Self::precedes(a, c),
    ;

    /// Any two identities are equal or ordered one way or the other.
    proof fn lemma_total(a: Self::Id, b: Self::Id)
        ensures
            a == b || Self::precedes(a, b) || Self::precedes(b, a),
    ;

    /// Compares this key with another.
    fn compare(&self, other: &Self) -> (r: Placement)
        ensures
            r == (if self.id() == other.id() {
                Placement::Same
            } else if Self::precedes(self.id(), other.id()) {
                Placement::Before
            } else {
                Placement::After
            }),
    ;

    /// A second key with the same identity.
    fn duplicate(&self) -> (r: Self)
        ensures
            r.id() == self.id(),
    ;
}

/// A sequence of identities in strictly ascending order.
pub open spec fn ascending<K: OrderedKey>(ids: Seq<K::Id>) -> bool {
    forall|i: int, j: int| 0 <= i < j < ids.len() ==> K::precedes(ids[i], ids[j])
}

/// A strictly ascending sequence holds no identity twice.
pub proof fn lemma_ascending_distinct<K: OrderedKey>(ids: Seq<K::Id>)
    requires
        ascending::<K>(ids),
    ensures
        ids.no_duplicates(),
{
    assert forall|i: int, j: int| 0 <= i < ids.len() && 0 <= j < ids.len() && i != j implies ids[i]
        != ids[j] by {
        K::lemma_irreflexive(ids[i]);
        if i < j {
            assert(K::precedes(ids[i], ids[j]));
        } else {
            assert(K::precedes(ids[j], ids[i]));
        }
    }
}

/// Two strictly ascending sequences with the same members are the same
/// sequence: a set of keys has one order of display.
pub proof fn lemma_ascending_unique<K: OrderedKey>(a: Seq<K::Id>, b: Seq<K::Id>)
    requires
        ascending::<K>(a),
        ascending::<K>(b),
        forall|x: K::Id| a.contains(x) <==> b.contains(x),
    ensures
        a == b,
    decreases a.len(),
{
    if a.len() == 0 {
        if b.len() > 0 {
            assert(b.contains(b[0]));
        }
        assert(a =~= b);
    } else if b.len() == 0 {
        assert(a.contains(a[0]));
    } else {
        // The least member stands first in both.
        assert(a.contains(a[0]));
        assert(b.contains(b[0]));
        let i = choose|i: int| 0 <= i < b.len() && b[i] == a[0];
        let j = choose|j: int| 0 <= j < a.len() && a[j] == b[0];
        if i > 0 && j > 0 {
            assert(K::precedes(b[0], b[i]));
            assert(K::precedes(a[0], a[j]));
            K::lemma_transitive(a[0], b[0], a[0]);
            K::lemma_irreflexive(a[0]);
        } else if i > 0 {
            assert(K::precedes(b[0], b[i]));
            K::lemma_irreflexive(a[0]);
        } else if j > 0 {
            assert(K::precedes(a[0], a[j]));
            K::lemma_irreflexive(b[0]);
        }
        assert(a[0] == b[0]);
        let a1 = a.drop_first();
        let b1 = b.drop_first();
        assert forall|x: K::Id| a1.contains(x) <==> b1.contains(x) by {
            K::lemma_irreflexive(a[0]);
            if a1.contains(x) {
                let k = choose|k: int| 0 <= k < a1.len() && a1[k] == x;
                assert(a[k + 1] == x);
                assert(K::precedes(a[0], a[k + 1]));
                assert(a.contains(x));
                let m = choose|m: int| 0 <= m < b.len() && b[m] == x;
                assert(m != 0);
                assert(b1[m - 1] == x);
            }
            if b1.contains(x) {
                let k = choose|k: int| 0 <= k < b1.len() && b1[k] == x;
                assert(b[k + 1] == x);
                assert(K::precedes(b[0], b[k + 1]));
                assert(b.contains(x));
                let m = choose|m: int| 0 <= m < a.len() && a[m] == x;
                assert(m != 0);
                assert(a1[m - 1] == x);
            }
        }
        assert(ascending::<K>(a1)) by {
            assert forall|p: int, q: int| 0 <= p < q < a1.len() implies K::precedes(
                a1[p],
                a1[q],
            ) by {
                assert(K::precedes(a[p + 1], a[q + 1]));
            }
        }
        assert(ascending::<K>(b1)) by {
            assert forall|p: int, q: int| 0 <= p < q < b1.len() implies K::precedes(
                b1[p],
                b1[q],
            ) by {
                assert(K::precedes(b[p + 1], b[q + 1]));
            }
        }
        lemma_ascending_unique::<K>(a1, b1);
        assert(a =~= seq![a[0]] + a1);
        assert(b =~= seq![b[0]] + b1);
    }
}

impl OrderedKey for String {
    type Id = Seq<char>;

    open spec fn id(&self) -> Seq<char> {
        self@
    }

    open spec fn precedes(a: Seq<char>, b: Seq<char>) -> bool {
        name_precedes(a, b)
    }

    proof fn lemma_irreflexive(a: Seq<char>) {
        lemma_names_irreflexive(a);
    }

    proof fn lemma_transitive(a: Seq<char>, b: Seq<char>, c: Seq<char>) {
        lemma_names_transitive(a, b, c);
    }

    proof fn lemma_total(a: Seq<char>, b: Seq<char>) {
        lemma_names_total(a, b);
    }

    fn compare(&self, other: &Self) -> (r: Placement) {
        compare_names(self.as_str(), other.as_str())
    }

    fn duplicate(&self) -> (r: Self) {
        self.clone()
    }
}

} // verus!
