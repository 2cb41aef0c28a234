//! The generic nested-document value system that filters and stored
//! documents travel in between the engine and a storage backend.
use vstd::prelude::*;

verus! {

/// A numeric wire scalar. A double is carried as its IEEE-754 bit pattern.
#[derive(Clone, Copy, Debug, PartialEq, Eq, Structural)]
pub enum Number {
    Int32(i32),
    Int64(i64),
    DoubleBits(u64),
}

/// One value of the wire format: a scalar, an array, or a document.
#[derive(Debug, PartialEq)]
pub enum WireValue {
    Null,
    Boolean(bool),
    Number(Number),
    String(String),
    Binary(Vec<u8>),
    Array(Vec<WireValue>),
    Document(Vec<(String, WireValue)>),
}

/// A document of the wire format: field names with their values, in order.
pub type WireDocument = Vec<(String, WireValue)>;

/// The mathematical value of a `WireValue`.
pub enum Wire {
    Null,
    Boolean(bool),
    Number(Number),
    Text(Seq<char>),
    Binary(Seq<u8>),
    Array(Seq<Wire>),
    Document(Seq<(Seq<char>, Wire)>),
}

/// The mathematical value of a `WireDocument`.
pub type DocSpec = Seq<(Seq<char>, Wire)>;

pub open spec fn wire_of(v: WireValue) -> Wire
    decreases v,
{
    match v {
        WireValue::Null => Wire::Null,
        WireValue::Boolean(b) => Wire::Boolean(b),
        WireValue::Number(n) => Wire::Number(n),
        WireValue::String(s) => Wire::Text(s@),
        WireValue::Binary(b) => Wire::Binary(b@),
        WireValue::Array(items) => Wire::Array(wires_of(items@)),
        WireValue::Document(d) => Wire::Document(doc_of(d@)),
    }
}

pub open spec fn wires_of(s: Seq<WireValue>) -> Seq<Wire>
    decreases s,
{
    if s.len() == 0 {
        Seq::empty()
    } else {
        wires_of(s.drop_last()).push(wire_of(s.last()))
    }
}

pub open spec fn doc_of(s: Seq<(String, WireValue)>) -> DocSpec
    decreases s,
{
    if s.len() == 0 {
        Seq::empty()
    } else {
        doc_of(s.drop_last()).push((s.last().0@, wire_of(s.last().1)))
    }
}

impl View for WireValue {
    type V = Wire;

    open spec fn view(&self) -> Wire {
        wire_of(*self)
    }
}

/// No two entries of the document share a field name.
pub open spec fn unique_names(d: DocSpec) -> bool {
    forall|i: int, j: int| 0 <= i < j < d.len() ==> #[trigger] d[i].0 != #[trigger] d[j].0
}

/// Every document inside the value, at any depth, has unique field names,
/// as in the wire format itself.
pub open spec fn wire_wf(w: Wire) -> bool
    decreases w,
{
    match w {
        Wire::Array(items) => forall|i: int| 0 <= i < items.len() ==> wire_wf(#[trigger] items[i]),
        Wire::Document(d) => doc_wf(d),
        _ => true,
    }
}

pub open spec fn doc_wf(d: DocSpec) -> bool
    decreases d,
{
    &&& unique_names(d)
    &&& forall|i: int| 0 <= i < d.len() ==> wire_wf(#[trigger] d[i].1)
}

pub broadcast proof fn lemma_wires_of(s: Seq<WireValue>)
    ensures
        #[trigger] wires_of(s).len() == s.len(),
        forall|i: int| 0 <= i < s.len() ==> #[trigger] wires_of(s)[i] == wire_of(s[i]),
    decreases s.len(),
{
    if s.len() > 0 {
        lemma_wires_of(s.drop_last());
        assert forall|i: int| 0 <= i < s.len() - 1 implies s.drop_last()[i] == s[i] by {}
    }
}

pub broadcast proof fn lemma_doc_of(s: Seq<(String, WireValue)>)
    ensures
        #[trigger] doc_of(s).len() == s.len(),
        forall|i: int|
            0 <= i < s.len() ==> #[trigger] doc_of(s)[i] == (s[i].0@, wire_of(s[i].1)),
    decreases s.len(),
{
    if s.len() > 0 {
        lemma_doc_of(s.drop_last());
        assert forall|i: int| 0 <= i < s.len() - 1 implies s.drop_last()[i] == s[i] by {}
    }
}

pub broadcast group group_wire_lemmas {
    lemma_wires_of,
    lemma_doc_of,
}

/// A copy of a string with the same characters.
pub fn copy_string(s: &String) -> (r: String)
    ensures
        r@ == s@,
{
    s.clone()
}

fn copy_bytes(b: &Vec<u8>) -> (r: Vec<u8>)
    ensures
        r@ == b@,
{
    let mut r: Vec<u8> = Vec::new();
    let mut i: usize = 0;
    while i < b.len()
        invariant
            i <= b.len(),
            r@ == b@.take(i as int),
        decreases b.len() - i,
    {
        r.push(b[i]);
        i = i + 1;
        assert(r@ =~= b@.take(i as int));
    }
    assert(r@ =~= b@);
    r
}

impl WireValue {
    /// A deep copy of the value.
    pub fn duplicate(&self) -> (r: WireValue)
        ensures
            r@ == self@,
        decreases self,
    {
        broadcast use group_wire_lemmas;

        match self {
            WireValue::Null => WireValue::Null,
            WireValue::Boolean(b) => WireValue::Boolean(*b),
            WireValue::Number(n) => WireValue::Number(*n),
            WireValue::String(s) => WireValue::String(copy_string(s)),
            WireValue::Binary(b) => WireValue::Binary(copy_bytes(b)),
            WireValue::Array(items) => {
                let mut r: Vec<WireValue> = Vec::new();
                let mut i: usize = 0;
                while i < items.len()
                    invariant
                        *self == WireValue::Array(*items),
                        i <= items.len(),
                        r@.len() == i,
                        forall|k: int| 0 <= k < i ==> #[trigger] wire_of(r@[k]) == wire_of(items@[k]),
                    decreases items.len() - i,
                {
                    proof {
                        assert(decreases_to!(*self => (*self)->Array_0));
                        assert(decreases_to!(*items => items@));
                        assert(decreases_to!(items@ => items@[i as int]));
                    }
                    let v = items[i].duplicate();
                    r.push(v);
                    i = i + 1;
                }
                assert(wires_of(r@) =~= wires_of(items@));
                WireValue::Array(r)
            },
            WireValue::Document(d) => {
                let mut r: WireDocument = Vec::new();
                let mut i: usize = 0;
                while i < d.len()
                    invariant
                        *self == WireValue::Document(*d),
                        i <= d.len(),
                        r@.len() == i,
                        forall|k: int|
                            0 <= k < i ==> (#[trigger] r@[k]).0@ == d@[k].0@ && wire_of(r@[k].1)
                                == wire_of(d@[k].1),
                    decreases d.len() - i,
                {
                    proof {
                        assert(decreases_to!(*self => (*self)->Document_0));
                        assert(decreases_to!(*d => d@));
                        assert(decreases_to!(d@ => d@[i as int]));
                        assert(decreases_to!(d@[i as int] => d@[i as int].1));
                    }
                    let name = copy_string(&d[i].0);
                    let v = d[i].1.duplicate();
                    r.push((name, v));
                    i = i + 1;
                }
                proof {
                    lemma_doc_of(r@);
                    lemma_doc_of(d@);
                }
                assert(doc_of(r@) =~= doc_of(d@));
                WireValue::Document(r)
            },
        }
    }
}

/// A deep copy of a document.
pub fn duplicate_document(d: &WireDocument) -> (r: WireDocument)
    ensures
        doc_of(r@) == doc_of(d@),
{
    broadcast use group_wire_lemmas;

    let mut r: WireDocument = Vec::new();
    let mut i: usize = 0;
    while i < d.len()
        invariant
            i <= d.len(),
            r@.len() == i,
            forall|k: int|
                0 <= k < i ==> #[trigger] r@[k].0@ == d@[k].0@ && wire_of(r@[k].1) == wire_of(
                    d@[k].1,
                ),
        decreases d.len() - i,
    {
        let name = copy_string(&d[i].0);
        let v = d[i].1.duplicate();
        r.push((name, v));
        i = i + 1;
    }
    assert(doc_of(r@) =~= doc_of(d@));
    r
}

} // verus!
