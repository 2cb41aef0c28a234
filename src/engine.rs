//! The decisions of the collection engine: which request a typed operation
//! becomes, and what its outcome is given what the backend returned.
use vstd::arithmetic::power::pow;
use vstd::prelude::*;

use crate::driver::OperationCount;
use crate::error::OrmoxError;
use crate::query::{single, KeySpec, Query, ValueSpec};
use crate::wire::{Wire, WireValue};

verus! {

/// The lowercase hexadecimal digit of `n`, for `0 <= n < 16`.
pub open spec fn hex_char(n: int) -> char {
    seq!['0', '1', '2', '3', '4', '5', '6', '7', '8', '9', 'a', 'b', 'c', 'd', 'e', 'f'][n]
}

/// Hex digit `k` of `v`, counting from the most significant of its 32.
pub open spec fn nibble(v: u128, k: int) -> int {
    ((v as int) / pow(16, (31 - k) as nat)) % 16
}

/// How many hyphens stand before position `j` of the hyphenated form.
pub open spec fn hyphens_before(j: int) -> int {
    if j > 23 {
        4
    } else if j > 18 {
        3
    } else if j > 13 {
        2
    } else if j > 8 {
        1
    } else {
        0
    }
}

/// The hyphenated text of an identifier: its 32 hex digits, most significant
/// first and lowercase, in groups of 8, 4, 4, 4 and 12 joined by `-`.
pub open spec fn uuid_text(v: u128) -> Seq<char> {
    Seq::new(
        36,
        |j: int|
            if j == 8 || j == 13 || j == 18 || j == 23 {
                '-'
            } else {
                hex_char(nibble(v, j - hyphens_before(j)))
            },
    )
}

/// Relies on `uuid::Uuid::from_u128`, which takes the value's bytes most
/// significant first, and on the `Display` of `Uuid`, which writes them as
/// lowercase hex digits grouped 8-4-4-4-12 by hyphens.
#[verifier::external_body]
fn uuid_string(id: u128) -> (r: String)
    ensures
        r@ == uuid_text(id),
{
    uuid::Uuid::from_u128(id).to_string()
}

/// The query that matches the documents whose identifier field `id_field`
/// holds the text `id`.
pub fn id_query(id_field: &str, id: &str) -> (r: Query)
    ensures
        r@ == single(KeySpec::Field(id_field@), ValueSpec::Value(Wire::Text(id@))),
{
    let mut q = Query::new();
    q.field(id_field, WireValue::String(String::from_str(id)));
    assert(q@.entries =~= single(KeySpec::Field(id_field@), ValueSpec::Value(Wire::Text(id@))).entries);
    q
}

/// The query that matches the document with identifier `id`, stored as its
/// hyphenated text under `id_field`.
pub fn identity_query(id_field: &str, id: u128) -> (r: Query)
    ensures
        r@ == single(KeySpec::Field(id_field@), ValueSpec::Value(Wire::Text(uuid_text(id)))),
{
    let text = uuid_string(id);
    id_query(id_field, text.as_str())
}

/// A write request: the filter, how many matches it affects, and whether a
/// document is created when none matches.
#[derive(Debug, PartialEq)]
pub struct WriteRequest {
    pub query: Query,
    pub count: OperationCount,
    pub upsert: bool,
}

/// What saving the document with identifier `id` asks of the backend: an
/// upsert of one document, filtered on its identity, so that it is created
/// when absent and replaced when present.
pub fn save_request(id_field: &str, id: u128) -> (r: WriteRequest)
    ensures
        r.query@ == single(KeySpec::Field(id_field@), ValueSpec::Value(Wire::Text(uuid_text(id)))),
        r.count == OperationCount::One,
        r.upsert,
{
    WriteRequest { query: identity_query(id_field, id), count: OperationCount::One, upsert: true }
}

/// What deleting the document with identifier `id` asks of the backend: a
/// delete of one document, filtered on its identity.
pub fn delete_request(id_field: &str, id: u128) -> (r: WriteRequest)
    ensures
        r.query@ == single(KeySpec::Field(id_field@), ValueSpec::Value(Wire::Text(uuid_text(id)))),
        r.count == OperationCount::One,
        !r.upsert,
{
    WriteRequest { query: identity_query(id_field, id), count: OperationCount::One, upsert: false }
}

/// The outcome of a single-document lookup, given what the backend found:
/// the first result, or `NotFound` carrying `rendered_query` when there is none.
pub fn first_or_not_found<T>(results: Vec<T>, rendered_query: &str) -> (r: Result<T, OrmoxError>)
    ensures
        results@.len() > 0 ==> r == Ok::<T, OrmoxError>(results@[0]),
        results@.len() == 0 ==> r is Err && r->Err_0 is NotFound && r->Err_0->NotFound_query@
            == rendered_query@,
{
    let mut results = results;
    if results.len() > 0 {
        Ok(results.swap_remove(0))
    } else {
        Err(OrmoxError::not_found(rendered_query))
    }
}

/// The index of the first failure in `items`, if any.
pub open spec fn first_err<T>(items: Seq<Result<T, OrmoxError>>) -> int
    decreases items.len(),
{
    if items.len() == 0 {
        0
    } else if items[0] is Err {
        0
    } else {
        1 + first_err(items.drop_first())
    }
}

proof fn lemma_first_err<T>(items: Seq<Result<T, OrmoxError>>)
    ensures
        0 <= first_err(items) <= items.len(),
        forall|k: int| 0 <= k < first_err(items) ==> (#[trigger] items[k]) is Ok,
        first_err(items) < items.len() ==> items[first_err(items)] is Err,
    decreases items.len(),
{
    if items.len() > 0 && items[0] is Ok {
        lemma_first_err(items.drop_first());
        assert forall|k: int| 0 <= k < first_err(items) implies (#[trigger] items[k]) is Ok by {
            if k > 0 {
                assert(items[k] == items.drop_first()[k - 1]);
            }
        }
    }
}

/// All values in order, or the first failure: a batch fails as a whole.
pub fn collect_results<T>(items: Vec<Result<T, OrmoxError>>) -> (r: Result<Vec<T>, OrmoxError>)
    ensures
        r is Ok <==> forall|k: int| 0 <= k < items@.len() ==> (#[trigger] items@[k]) is Ok,
        r is Ok ==> r->Ok_0@.len() == items@.len() && forall|k: int|
            0 <= k < items@.len() ==> r->Ok_0@[k] == (#[trigger] items@[k])->Ok_0,
        r is Err ==> r->Err_0 == items@[first_err(items@)]->Err_0,
{
    proof {
        lemma_first_err(items@);
    }
    let ghost all = items@;
    let mut rest = items;
    let mut out: Vec<T> = Vec::new();
    while rest.len() > 0
        invariant
            all == items@,
            out@.len() + rest@.len() == all.len(),
            rest@ == all.skip(out@.len() as int),
            forall|k: int| 0 <= k < out@.len() ==> (#[trigger] all[k]) is Ok && out@[k] == all[k]->Ok_0,
            0 <= first_err(all) <= all.len(),
            forall|k: int| 0 <= k < first_err(all) ==> (#[trigger] all[k]) is Ok,
            first_err(all) < all.len() ==> all[first_err(all)] is Err,
        decreases rest@.len(),
    {
        let ghost i = out@.len() as int;
        assert(rest@[0] == all[i]);
        let item = rest.remove(0);
        assert(rest@ =~= all.skip(i + 1));
        match item {
            Ok(v) => {
                out.push(v);
            },
            Err(e) => {
                assert(all[i] is Err && all[i]->Err_0 == e);
                assert(first_err(all) == i) by {
                    if first_err(all) < i {
                        assert(all[first_err(all)] is Ok);
                    }
                }
                return Err(e);
            },
        }
    }
    Ok(out)
}

/// Checks that a batch insert of `expected` documents yielded one identifier
/// for each; otherwise an `Insert` error.
pub fn check_inserted<I>(expected: usize, ids: Vec<I>) -> (r: Result<Vec<I>, OrmoxError>)
    ensures
        ids@.len() == expected ==> r == Ok::<Vec<I>, OrmoxError>(ids),
        ids@.len() != expected ==> r is Err && r->Err_0 is Insert,
{
    if ids.len() == expected {
        Ok(ids)
    } else {
        Err(OrmoxError::insert("the backend did not return one identifier per document"))
    }
}

/// The collection a document operation runs against: the one the document
/// is attached to, else the global one, else an `Uninitialized` error.
pub fn resolve_collection<C>(attached: Option<C>, global: Option<C>) -> (r: Result<C, OrmoxError>)
    ensures
        attached is Some ==> r == Ok::<C, OrmoxError>(attached->Some_0),
        attached is None && global is Some ==> r == Ok::<C, OrmoxError>(global->Some_0),
        attached is None && global is None ==> r is Err && r->Err_0 is Uninitialized,
{
    match attached {
        Some(c) => Ok(c),
        None => match global {
            Some(g) => Ok(g),
            None => Err(OrmoxError::Uninitialized),
        },
    }
}

/// A slot that is set at most once.
pub struct GlobalSlot<T> {
    value: Option<T>,
}

impl<T> View for GlobalSlot<T> {
    type V = Option<T>;

    closed spec fn view(&self) -> Option<T> {
        self.value
    }
}

/// The slot's content after an attempt to set it to `v`: only an empty slot
/// takes the value.
pub open spec fn after_set<T>(current: Option<T>, v: T) -> Option<T> {
    match current {
        None => Some(v),
        Some(c) => Some(c),
    }
}

impl<T> GlobalSlot<T> {
    /// An empty slot.
    pub fn new() -> (r: GlobalSlot<T>)
        ensures
            r@ is None,
    {
        GlobalSlot { value: None }
    }

    /// Sets the slot if it is empty; otherwise leaves it as it is and hands
    /// `v` back.
    pub fn set(&mut self, v: T) -> (r: Result<(), T>)
        ensures
            final(self)@ == after_set(old(self)@, v),
            old(self)@ is None ==> r is Ok,
            old(self)@ is Some ==> r == Err::<(), T>(v),
    {
        if self.value.is_some() {
            Err(v)
        } else {
            self.value = Some(v);
            Ok(())
        }
    }

    /// The value, once set.
    pub fn get(&self) -> (r: Option<&T>)
        ensures
            r is Some <==> self@ is Some,
            r is Some ==> *r->Some_0 == self@->Some_0,
    {
        match &self.value {
            Some(v) => Some(v),
            None => None,
        }
    }
}

/// A second attempt to set a slot fails and leaves the first value in place.
pub proof fn lemma_set_twice<T>(a: T, b: T)
    ensures
        after_set(None, a) == Some(a),
        after_set(after_set(None, a), b) == Some(a),
        after_set(None, a) is Some,
{
}

} // verus!
