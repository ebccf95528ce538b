//! Keys of the ordered aggregates: a strict total order on the key's view,
//! with an executable comparison that decides it.

use vstd::prelude::*;
use vstd::string::StringSliceAdditionalSpecFns;
use vstd::utf8::encode_utf8;
use vstd::utf8::encode_utf8_decode_utf8;

verus! {

/// What a key tells of the value that is kept under it.
pub enum Label {
    /// The value belongs to this line of a source file.
    Line(u32),
    /// The value goes by this name.
    Name(Seq<char>),
    /// The key tells nothing of the value.
    Unit,
}

/// A key that an ordered aggregate can be sorted by.
///
/// `before` is a strict total order on the views of the keys; `precedes`
/// decides it on the keys themselves.
pub trait SortKey: View + Sized {
    /// The strict order on views.
    spec fn before(a: Self::V, b: Self::V) -> bool;

    /// `before` is irreflexive, transitive, and connects any two distinct views.
    proof fn order_laws()
        ensures
            forall|a: Self::V| !#[trigger] Self::before(a, a),
            forall|a: Self::V, b: Self::V, c: Self::V|
                #[trigger] Self::before(a, b) && #[trigger] Self::before(b, c) ==> Self::before(
                    a,
                    c,
                ),
            forall|a: Self::V, b: Self::V|
                #[trigger] Self::before(a, b) || Self::before(b, a) || a == b,
    ;

    /// What the key tells of the value kept under it.
    spec fn label(key: Self::V) -> Label;

    /// Whether `self` comes strictly before `other`.
    fn precedes(&self, other: &Self) -> (r: bool)
        ensures
            r == Self::before(self@, other@),
    ;

    /// A copy of the key.
    fn duplicate(&self) -> (r: Self)
        ensures
            r@ == self@,
    ;
}

impl SortKey for u32 {
    open spec fn before(a: u32, b: u32) -> bool {
        a < b
    }

    open spec fn label(key: u32) -> Label {
        Label::Line(key)
    }

    proof fn order_laws() {
    }

    fn precedes(&self, other: &Self) -> (r: bool) {
        *self < *other
    }

    fn duplicate(&self) -> (r: Self) {
        *self
    }
}

/// Lexicographic order on byte strings: the first differing byte decides,
/// and a proper prefix comes first.
pub open spec fn bytes_before(a: Seq<u8>, b: Seq<u8>) -> bool
    decreases a.len(),
{
    if b.len() == 0 {
        false
    } else if a.len() == 0 {
        true
    } else if a[0] != b[0] {
        a[0] < b[0]
    } else {
        bytes_before(a.drop_first(), b.drop_first())
    }
}

/// No byte string comes before itself.
pub proof fn lemma_bytes_before_irreflexive(a: Seq<u8>)
    ensures
        !bytes_before(a, a),
    decreases a.len(),
{
    if a.len() > 0 {
        lemma_bytes_before_irreflexive(a.drop_first());
    }
}

/// What comes before a byte string comes before everything after it.
pub proof fn lemma_bytes_before_transitive(a: Seq<u8>, b: Seq<u8>, c: Seq<u8>)
    requires
        bytes_before(a, b),
        bytes_before(b, c),
    ensures
        bytes_before(a, c),
    decreases a.len(),
{
    if a.len() > 0 && a[0] == b[0] && b[0] == c[0] {
        lemma_bytes_before_transitive(a.drop_first(), b.drop_first(), c.drop_first());
    }
}

/// Of two different byte strings one comes before the other.
pub proof fn lemma_bytes_before_connected(a: Seq<u8>, b: Seq<u8>)
    ensures
        bytes_before(a, b) || bytes_before(b, a) || a == b,
    decreases a.len(),
{
    if a.len() > 0 && b.len() > 0 && a[0] == b[0] {
        lemma_bytes_before_connected(a.drop_first(), b.drop_first());
        if a.drop_first() == b.drop_first() {
            assert(a =~= seq![a[0]] + a.drop_first());
            assert(b =~= seq![b[0]] + b.drop_first());
        }
    } else if a.len() == 0 && b.len() == 0 {
        assert(a =~= b);
    }
}

/// The order of `String` keys: that of their UTF-8 encodings, byte by byte.
pub open spec fn text_before(a: Seq<char>, b: Seq<char>) -> bool {
    bytes_before(encode_utf8(a), encode_utf8(b))
}

/// Whether `a` comes before `b`, byte by byte.
pub fn str_precedes(a: &str, b: &str) -> (r: bool)
    ensures
        r == text_before(a@, b@),
{
    let x = a.as_bytes();
    let y = b.as_bytes();
    let mut i: usize = 0;
    assert(x@.skip(0) =~= x@);
    assert(y@.skip(0) =~= y@);
    while i < x.len() && i < y.len()
        invariant
            i <= x@.len(),
            i <= y@.len(),
            x@ == a.spec_bytes(),
            y@ == b.spec_bytes(),
            bytes_before(x@, y@) == bytes_before(x@.skip(i as int), y@.skip(i as int)),
        decreases x@.len() - i,
    {
        assert(x@.skip(i as int).drop_first() =~= x@.skip(i + 1));
        assert(y@.skip(i as int).drop_first() =~= y@.skip(i + 1));
        if x[i] != y[i] {
            return x[i] < y[i];
        }
        i += 1;
    }
    i < y.len()
}

impl SortKey for String {
    open spec fn before(a: Seq<char>, b: Seq<char>) -> bool {
        text_before(a, b)
    }

    open spec fn label(key: Seq<char>) -> Label {
        Label::Name(key)
    }

    proof fn order_laws() {
        assert forall|a: Seq<char>| !#[trigger] Self::before(a, a) by {
            lemma_bytes_before_irreflexive(encode_utf8(a));
        }
        assert forall|a: Seq<char>, b: Seq<char>, c: Seq<char>|
            #[trigger] Self::before(a, b) && #[trigger] Self::before(b, c) implies Self::before(
            a,
            c,
        ) by {
            lemma_bytes_before_transitive(encode_utf8(a), encode_utf8(b), encode_utf8(c));
        }
        assert forall|a: Seq<char>, b: Seq<char>|
            #[trigger] Self::before(a, b) || Self::before(b, a) || a == b by {
            lemma_bytes_before_connected(encode_utf8(a), encode_utf8(b));
            encode_utf8_decode_utf8(a);
            encode_utf8_decode_utf8(b);
        }
    }

    fn precedes(&self, other: &Self) -> (r: bool) {
        str_precedes(self.as_str(), other.as_str())
    }

    fn duplicate(&self) -> (r: Self) {
        self.clone()
    }
}

} // verus!
