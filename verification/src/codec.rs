//! Serialization of durable records: a fixed-width, little-endian encoding that
//! gives the same value the same bytes on every run and machine.
use crate::bytes::{
    byte_capacity, le_bytes, lemma_capacities, lemma_le_bytes_len, lemma_le_injective,
};
use crate::error::Error;
use crate::sealed::Sealed;
use vstd::prelude::*;

verus! {

/// A plain value with its serialized form: the form depends on the value's
/// content alone. Only the types below have one.
pub trait Wire: Sized + Sealed {
    type Content;

    /// The mathematical content of the value.
    spec fn content(&self) -> Self::Content;

    /// Whether a value with this content can exist.
    spec fn fits(c: Self::Content) -> bool;

    /// The serialized form of the content.
    spec fn wire(c: Self::Content) -> Seq<u8>;
}

impl Wire for u8 {
    type Content = u8;

    open spec fn content(&self) -> u8 {
        *self
    }

    open spec fn fits(c: u8) -> bool {
        true
    }

    open spec fn wire(c: u8) -> Seq<u8> {
        seq![c]
    }
}

impl Wire for u64 {
    type Content = u64;

    open spec fn content(&self) -> u64 {
        *self
    }

    open spec fn fits(c: u64) -> bool {
        true
    }

    open spec fn wire(c: u64) -> Seq<u8> {
        le_bytes(c as nat, 8)
    }
}

impl Wire for u128 {
    type Content = u128;

    open spec fn content(&self) -> u128 {
        *self
    }

    open spec fn fits(c: u128) -> bool {
        true
    }

    open spec fn wire(c: u128) -> Seq<u8> {
        le_bytes(c as nat, 16)
    }
}

impl Wire for () {
    type Content = ();

    open spec fn content(&self) -> () {
        ()
    }

    open spec fn fits(c: ()) -> bool {
        true
    }

    open spec fn wire(c: ()) -> Seq<u8> {
        Seq::empty()
    }
}

/// An optional value: a tag byte, then the value.
impl<T: Wire> Wire for Option<T> {
    type Content = Option<T::Content>;

    open spec fn content(&self) -> Option<T::Content> {
        match self {
            Some(v) => Some(v.content()),
            None => None,
        }
    }

    open spec fn fits(c: Option<T::Content>) -> bool {
        c matches Some(v) ==> T::fits(v)
    }

    open spec fn wire(c: Option<T::Content>) -> Seq<u8> {
        match c {
            None => seq![0u8],
            Some(v) => seq![1u8] + T::wire(v),
        }
    }
}

/// A choice of two values: a four-byte tag, then the value chosen.
impl<A: Wire, B: Wire> Wire for Result<A, B> {
    type Content = Result<A::Content, B::Content>;

    open spec fn content(&self) -> Result<A::Content, B::Content> {
        match self {
            Ok(a) => Ok(a.content()),
            Err(b) => Err(b.content()),
        }
    }

    open spec fn fits(c: Result<A::Content, B::Content>) -> bool {
        match c {
            Ok(a) => A::fits(a),
            Err(b) => B::fits(b),
        }
    }

    open spec fn wire(c: Result<A::Content, B::Content>) -> Seq<u8> {
        match c {
            Ok(a) => le_bytes(0, 4) + A::wire(a),
            Err(b) => le_bytes(1, 4) + B::wire(b),
        }
    }
}

impl<A: Wire, B: Wire> Wire for (A, B) {
    type Content = (A::Content, B::Content);

    open spec fn content(&self) -> (A::Content, B::Content) {
        (self.0.content(), self.1.content())
    }

    open spec fn fits(c: (A::Content, B::Content)) -> bool {
        A::fits(c.0) && B::fits(c.1)
    }

    open spec fn wire(c: (A::Content, B::Content)) -> Seq<u8> {
        A::wire(c.0) + B::wire(c.1)
    }
}

impl<A: Wire, B: Wire, C: Wire> Wire for (A, B, C) {
    type Content = (A::Content, B::Content, C::Content);

    open spec fn content(&self) -> (A::Content, B::Content, C::Content) {
        (self.0.content(), self.1.content(), self.2.content())
    }

    open spec fn fits(c: (A::Content, B::Content, C::Content)) -> bool {
        A::fits(c.0) && B::fits(c.1) && C::fits(c.2)
    }

    open spec fn wire(c: (A::Content, B::Content, C::Content)) -> Seq<u8> {
        A::wire(c.0) + B::wire(c.1) + C::wire(c.2)
    }
}

/// The serialized forms of a list's entries, one after the other.
pub open spec fn wire_all<T: Wire>(s: Seq<T::Content>) -> Seq<u8>
    decreases s.len(),
{
    if s.len() == 0 {
        Seq::empty()
    } else {
        wire_all::<T>(s.drop_last()) + T::wire(s.last())
    }
}

/// A value that lists hold: its serialized form is never empty, so that a list is
/// no longer than the bytes it is read from.
pub trait Listed: Wire {

}

impl Listed for u8 {

}

impl Listed for (Vec<u8>, Vec<u8>) {

}

/// A list: its length in eight bytes, then its entries.
impl<T: Listed> Wire for Vec<T> {
    type Content = Seq<T::Content>;

    open spec fn content(&self) -> Seq<T::Content> {
        Seq::new(self@.len(), |i: int| self@[i].content())
    }

    open spec fn fits(c: Seq<T::Content>) -> bool {
        c.len() <= usize::MAX && forall|i: int| 0 <= i < c.len() ==> T::fits(#[trigger] c[i])
    }

    open spec fn wire(c: Seq<T::Content>) -> Seq<u8> {
        le_bytes(c.len(), 8) + wire_all::<T>(c)
    }
}

/// `bincode::serialize` with its default configuration: fixed-width
/// little-endian integers, an eight-byte length before a list, a tag byte before
/// an optional value, a four-byte tag before a choice. It has no failure for the
/// types that have a [`Wire`] form.
#[verifier::external_body]
pub fn encode<T: serde::Serialize + Wire>(value: &T) -> (bytes: Vec<u8>)
    ensures
        bytes@ == T::wire(value.content()),
{
    bincode::serialize(value).expect("record serialization is infallible for these types")
}

/// `bincode::deserialize` with its default configuration: it succeeds exactly
/// where the bytes begin with the serialized form of some value, gives such a
/// value, and ignores the bytes behind it. The text of the error is the outside
/// crate's and is left open.
#[verifier::external_body]
pub fn decode<T: serde::de::DeserializeOwned + Wire>(bytes: &[u8]) -> (r: Result<T, Error>)
    ensures
        match r {
            Ok(v) => T::fits(v.content()) && T::wire(v.content()).is_prefix_of(bytes@),
            Err(e) => e@ is Codec && forall|c: T::Content|
                T::fits(c) ==> !(#[trigger] T::wire(c)).is_prefix_of(bytes@),
        },
{
    bincode::deserialize(bytes).map_err(|e| Error::codec(e.to_string()))
}

/// `bincode::serialized_size` with its default configuration: the length that
/// [`encode`] would produce.
#[verifier::external_body]
pub fn encoded_len<T: serde::Serialize + Wire>(value: &T) -> (n: usize)
    ensures
        n == T::wire(value.content()).len(),
{
    bincode::serialized_size(value).expect("record serialization is infallible for these types")
        as usize
}

/// A list of bytes is serialized as its length and itself.
pub proof fn lemma_wire_bytes(s: Seq<u8>)
    ensures
        wire_all::<u8>(s) == s,
        <Vec<u8> as Wire>::wire(s) == le_bytes(s.len(), 8) + s,
    decreases s.len(),
{
    if s.len() > 0 {
        lemma_wire_bytes(s.drop_last());
        assert(wire_all::<u8>(s) =~= s);
    } else {
        assert(wire_all::<u8>(s) =~= s);
    }
}

/// The content of a list of bytes is the list.
pub proof fn lemma_content_bytes(v: Vec<u8>)
    ensures
        v.content() == v@,
{
    assert(v.content() =~= v@);
}

/// Bytes that begin with two fixed-width numbers of the same width begin with
/// the same number.
pub proof fn lemma_number_unique(a: nat, b: nat, width: nat, x: Seq<u8>, y: Seq<u8>)
    requires
        a < byte_capacity(width),
        b < byte_capacity(width),
        le_bytes(a, width) + x == le_bytes(b, width) + y,
    ensures
        a == b,
        x == y,
{
    lemma_le_bytes_len(a, width);
    lemma_le_bytes_len(b, width);
    let s = le_bytes(a, width) + x;
    let t = le_bytes(b, width) + y;
    assert(s.take(width as int) =~= le_bytes(a, width));
    assert(t.take(width as int) =~= le_bytes(b, width));
    lemma_le_injective(a, b, width);
    assert(s.skip(width as int) =~= x);
    assert(t.skip(width as int) =~= y);
}

/// Bytes that begin with two serialized byte lists begin with the same list.
pub proof fn lemma_list_unique(a: Seq<u8>, b: Seq<u8>, x: Seq<u8>, y: Seq<u8>)
    requires
        a.len() <= usize::MAX,
        b.len() <= usize::MAX,
        <Vec<u8> as Wire>::wire(a) + x == <Vec<u8> as Wire>::wire(b) + y,
    ensures
        a == b,
        x == y,
{
    lemma_capacities();
    lemma_wire_bytes(a);
    lemma_wire_bytes(b);
    assert(<Vec<u8> as Wire>::wire(a) + x =~= le_bytes(a.len(), 8) + (a + x));
    assert(<Vec<u8> as Wire>::wire(b) + y =~= le_bytes(b.len(), 8) + (b + y));
    lemma_number_unique(a.len(), b.len(), 8, a + x, b + y);
    assert((a + x).take(a.len() as int) =~= a);
    assert((b + y).take(a.len() as int) =~= b);
    assert((a + x).skip(a.len() as int) =~= x);
    assert((b + y).skip(a.len() as int) =~= y);
}

/// A key and value pair in serialized form.
pub type Pair = (Vec<u8>, Vec<u8>);

/// The entries of a list of pairs, read from the front.
proof fn lemma_wire_all_front(s: Seq<(Seq<u8>, Seq<u8>)>)
    requires
        s.len() > 0,
    ensures
        wire_all::<Pair>(s) == <Pair as Wire>::wire(s[0]) + wire_all::<Pair>(s.skip(1)),
    decreases s.len(),
{
    if s.len() == 1 {
        assert(s.drop_last() =~= Seq::<(Seq<u8>, Seq<u8>)>::empty());
        assert(s.skip(1) =~= Seq::<(Seq<u8>, Seq<u8>)>::empty());
        assert(wire_all::<Pair>(s) =~= <Pair as Wire>::wire(s[0]) + wire_all::<Pair>(s.skip(1)));
    } else {
        lemma_wire_all_front(s.drop_last());
        assert(s.drop_last().skip(1) =~= s.skip(1).drop_last());
        assert(s.skip(1).last() == s.last());
        assert(wire_all::<Pair>(s) =~= <Pair as Wire>::wire(s[0]) + wire_all::<Pair>(s.skip(1)));
    }
}

proof fn lemma_pairs_tail_unique(
    a: Seq<(Seq<u8>, Seq<u8>)>,
    b: Seq<(Seq<u8>, Seq<u8>)>,
    x: Seq<u8>,
    y: Seq<u8>,
)
    requires
        a.len() == b.len(),
        <Vec<Pair> as Wire>::fits(a),
        <Vec<Pair> as Wire>::fits(b),
        wire_all::<Pair>(a) + x == wire_all::<Pair>(b) + y,
    ensures
        a == b,
    decreases a.len(),
{
    if a.len() > 0 {
        lemma_wire_all_front(a);
        lemma_wire_all_front(b);
        assert(<Pair as Wire>::fits(a[0]));
        assert(<Pair as Wire>::fits(b[0]));
        let p = wire_all::<Pair>(a.skip(1)) + x;
        let q = wire_all::<Pair>(b.skip(1)) + y;
        let k = <Vec<u8> as Wire>::wire(a[0].1) + p;
        let l = <Vec<u8> as Wire>::wire(b[0].1) + q;
        assert(wire_all::<Pair>(a) + x =~= <Vec<u8> as Wire>::wire(a[0].0) + k);
        assert(wire_all::<Pair>(b) + y =~= <Vec<u8> as Wire>::wire(b[0].0) + l);
        lemma_list_unique(a[0].0, b[0].0, k, l);
        lemma_list_unique(a[0].1, b[0].1, p, q);
        assert forall|i: int| 0 <= i < a.skip(1).len() implies <Pair as Wire>::fits(
            #[trigger] a.skip(1)[i],
        ) by {
            assert(a.skip(1)[i] == a[i + 1]);
        }
        assert forall|i: int| 0 <= i < b.skip(1).len() implies <Pair as Wire>::fits(
            #[trigger] b.skip(1)[i],
        ) by {
            assert(b.skip(1)[i] == b[i + 1]);
        }
        lemma_pairs_tail_unique(a.skip(1), b.skip(1), x, y);
        assert(a =~= seq![a[0]] + a.skip(1));
        assert(b =~= seq![b[0]] + b.skip(1));
    } else {
        assert(a =~= b);
    }
}

/// Bytes that begin with two serialized lists of pairs begin with the same list.
pub proof fn lemma_pairs_unique(
    a: Seq<(Seq<u8>, Seq<u8>)>,
    b: Seq<(Seq<u8>, Seq<u8>)>,
    s: Seq<u8>,
)
    requires
        <Vec<Pair> as Wire>::fits(a),
        <Vec<Pair> as Wire>::fits(b),
        <Vec<Pair> as Wire>::wire(a).is_prefix_of(s),
        <Vec<Pair> as Wire>::wire(b).is_prefix_of(s),
    ensures
        a == b,
{
    lemma_capacities();
    let u = <Vec<Pair> as Wire>::wire(a);
    let v = <Vec<Pair> as Wire>::wire(b);
    let x = s.skip(u.len() as int);
    let y = s.skip(v.len() as int);
    assert(s =~= u + x);
    assert(s =~= v + y);
    assert(s =~= le_bytes(a.len(), 8) + (wire_all::<Pair>(a) + x));
    assert(s =~= le_bytes(b.len(), 8) + (wire_all::<Pair>(b) + y));
    lemma_number_unique(
        a.len(),
        b.len(),
        8,
        wire_all::<Pair>(a) + x,
        wire_all::<Pair>(b) + y,
    );
    lemma_pairs_tail_unique(a, b, x, y);
}

} // verus!
