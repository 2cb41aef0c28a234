//! Backend-neutral filter expressions and their translation to and from the
//! wire format.
use vstd::prelude::*;

use crate::error::OrmoxError;
use crate::wire::{
    copy_string, doc_of, lemma_doc_of, lemma_wires_of, wire_of, wires_of, DocSpec, Number, Wire,
    WireDocument, WireValue,
};

verus! {

/// The key of one constraint of a query: a field name, a named operator, or
/// one of the built-in operators.
#[derive(Clone, Debug, PartialEq)]
pub enum QueryKey {
    String(String),
    Operator(String),
    GreaterThan,
    LessThan,
    GreaterThanEqual,
    LessThanEqual,
    Equals,
    NotEquals,
    In,
    NotIn,
    And,
    Or,
    Not,
}

/// The value of one constraint: a literal, a list of sub-queries (for `and`
/// and `or`), or one nested query.
#[derive(Debug, PartialEq)]
pub enum QueryValue {
    Value(WireValue),
    Casematch(Vec<Query>),
    Mapping(Query),
}

/// A filter: constraints keyed by `QueryKey`, at most one per key, in the
/// order their keys were first set.
#[derive(Debug, PartialEq)]
pub struct Query {
    entries: Vec<(QueryKey, QueryValue)>,
}

/// The mathematical value of a `QueryKey`.
pub enum KeySpec {
    Field(Seq<char>),
    Operator(Seq<char>),
    GreaterThan,
    LessThan,
    GreaterThanEqual,
    LessThanEqual,
    Equals,
    NotEquals,
    In,
    NotIn,
    And,
    Or,
    Not,
}

/// The mathematical value of a `QueryValue`.
pub enum ValueSpec {
    Value(Wire),
    Casematch(Seq<QuerySpec>),
    Mapping(QuerySpec),
}

/// The mathematical value of a `Query`.
pub struct QuerySpec {
    pub entries: Seq<(KeySpec, ValueSpec)>,
}

pub type EntrySpec = (KeySpec, ValueSpec);

impl View for QueryKey {
    type V = KeySpec;

    open spec fn view(&self) -> KeySpec {
        match self {
            QueryKey::String(s) => KeySpec::Field(s@),
            QueryKey::Operator(s) => KeySpec::Operator(s@),
            QueryKey::GreaterThan => KeySpec::GreaterThan,
            QueryKey::LessThan => KeySpec::LessThan,
            QueryKey::GreaterThanEqual => KeySpec::GreaterThanEqual,
            QueryKey::LessThanEqual => KeySpec::LessThanEqual,
            QueryKey::Equals => KeySpec::Equals,
            QueryKey::NotEquals => KeySpec::NotEquals,
            QueryKey::In => KeySpec::In,
            QueryKey::NotIn => KeySpec::NotIn,
            QueryKey::And => KeySpec::And,
            QueryKey::Or => KeySpec::Or,
            QueryKey::Not => KeySpec::Not,
        }
    }
}

pub closed spec fn query_of(q: Query) -> QuerySpec
    decreases q,
{
    QuerySpec { entries: entries_of(q.entries@) }
}

pub open spec fn entries_of(s: Seq<(QueryKey, QueryValue)>) -> Seq<EntrySpec>
    decreases s,
{
    if s.len() == 0 {
        Seq::empty()
    } else {
        entries_of(s.drop_last()).push((s.last().0@, value_of(s.last().1)))
    }
}

pub open spec fn value_of(v: QueryValue) -> ValueSpec
    decreases v,
{
    match v {
        QueryValue::Value(w) => ValueSpec::Value(wire_of(w)),
        QueryValue::Casematch(qs) => ValueSpec::Casematch(queries_of(qs@)),
        QueryValue::Mapping(q) => ValueSpec::Mapping(query_of(q)),
    }
}

pub open spec fn queries_of(s: Seq<Query>) -> Seq<QuerySpec>
    decreases s,
{
    if s.len() == 0 {
        Seq::empty()
    } else {
        queries_of(s.drop_last()).push(query_of(s.last()))
    }
}

impl View for QueryValue {
    type V = ValueSpec;

    open spec fn view(&self) -> ValueSpec {
        value_of(*self)
    }
}

impl View for Query {
    type V = QuerySpec;

    open spec fn view(&self) -> QuerySpec {
        query_of(*self)
    }
}

pub broadcast proof fn lemma_entries_of(s: Seq<(QueryKey, QueryValue)>)
    ensures
        #[trigger] entries_of(s).len() == s.len(),
        forall|i: int|
            0 <= i < s.len() ==> #[trigger] entries_of(s)[i] == (s[i].0@, value_of(s[i].1)),
    decreases s.len(),
{
    if s.len() > 0 {
        lemma_entries_of(s.drop_last());
        assert forall|i: int| 0 <= i < s.len() - 1 implies s.drop_last()[i] == s[i] by {}
    }
}

pub broadcast proof fn lemma_queries_of(s: Seq<Query>)
    ensures
        #[trigger] queries_of(s).len() == s.len(),
        forall|i: int| 0 <= i < s.len() ==> #[trigger] queries_of(s)[i] == query_of(s[i]),
    decreases s.len(),
{
    if s.len() > 0 {
        lemma_queries_of(s.drop_last());
        assert forall|i: int| 0 <= i < s.len() - 1 implies s.drop_last()[i] == s[i] by {}
    }
}

// ---------------------------------------------------------------------------
// Keys and their wire text
// ---------------------------------------------------------------------------

/// The text that stands for a key in the wire format.
pub open spec fn key_text(k: KeySpec) -> Seq<char> {
    match k {
        KeySpec::Field(s) => s,
        KeySpec::Operator(s) => s,
        KeySpec::GreaterThan => seq!['$', 'g', 't'],
        KeySpec::LessThan => seq!['$', 'l', 't'],
        KeySpec::GreaterThanEqual => seq!['$', 'g', 't', 'e'],
        KeySpec::LessThanEqual => seq!['$', 'l', 't', 'e'],
        KeySpec::Equals => seq!['$', 'e', 'q'],
        KeySpec::NotEquals => seq!['$', 'n', 'e'],
        KeySpec::In => seq!['$', 'i', 'n'],
        KeySpec::NotIn => seq!['$', 'n', 'i', 'n'],
        KeySpec::And => seq!['$', 'a', 'n', 'd'],
        KeySpec::Or => seq!['$', 'o', 'r'],
        KeySpec::Not => seq!['$', 'n', 'o', 't'],
    }
}

/// The text starts with the operator sigil `$`.
pub open spec fn has_sigil(t: Seq<char>) -> bool {
    t.len() > 0 && t[0] == '$'
}

/// The text is the canonical token of one of the built-in operators.
pub open spec fn is_builtin_token(t: Seq<char>) -> bool {
    ||| t == key_text(KeySpec::GreaterThan)
    ||| t == key_text(KeySpec::LessThan)
    ||| t == key_text(KeySpec::GreaterThanEqual)
    ||| t == key_text(KeySpec::LessThanEqual)
    ||| t == key_text(KeySpec::Equals)
    ||| t == key_text(KeySpec::NotEquals)
    ||| t == key_text(KeySpec::In)
    ||| t == key_text(KeySpec::NotIn)
    ||| t == key_text(KeySpec::And)
    ||| t == key_text(KeySpec::Or)
    ||| t == key_text(KeySpec::Not)
}

/// The key that a wire field name stands for: a built-in operator for its
/// exact token, a named operator for other names with the sigil, else a field.
pub open spec fn key_of_text(t: Seq<char>) -> KeySpec {
    if t == key_text(KeySpec::GreaterThan) {
        KeySpec::GreaterThan
    } else if t == key_text(KeySpec::LessThan) {
        KeySpec::LessThan
    } else if t == key_text(KeySpec::GreaterThanEqual) {
        KeySpec::GreaterThanEqual
    } else if t == key_text(KeySpec::LessThanEqual) {
        KeySpec::LessThanEqual
    } else if t == key_text(KeySpec::Equals) {
        KeySpec::Equals
    } else if t == key_text(KeySpec::NotEquals) {
        KeySpec::NotEquals
    } else if t == key_text(KeySpec::In) {
        KeySpec::In
    } else if t == key_text(KeySpec::NotIn) {
        KeySpec::NotIn
    } else if t == key_text(KeySpec::And) {
        KeySpec::And
    } else if t == key_text(KeySpec::Or) {
        KeySpec::Or
    } else if t == key_text(KeySpec::Not) {
        KeySpec::Not
    } else if has_sigil(t) {
        KeySpec::Operator(t)
    } else {
        KeySpec::Field(t)
    }
}

/// The key is written the way the wire text of a filter reads back: a field
/// name without the sigil, a named operator with it and not a built-in token.
pub open spec fn key_canonical(k: KeySpec) -> bool {
    match k {
        KeySpec::Field(s) => !has_sigil(s),
        KeySpec::Operator(s) => has_sigil(s) && !is_builtin_token(s),
        _ => true,
    }
}

// ---------------------------------------------------------------------------
// Last write wins
// ---------------------------------------------------------------------------

pub open spec fn has_key(s: Seq<EntrySpec>, k: KeySpec) -> bool {
    exists|j: int| 0 <= j < s.len() && #[trigger] s[j].0 == k
}

/// The entries after setting key `k` to `v`: an entry with that key gets the
/// new value in its place; otherwise the pair is appended.
pub open spec fn put(s: Seq<EntrySpec>, k: KeySpec, v: ValueSpec) -> Seq<EntrySpec> {
    if has_key(s, k) {
        s.map_values(|e: EntrySpec| if e.0 == k { (k, v) } else { e })
    } else {
        s.push((k, v))
    }
}

/// No two entries share a key.
pub open spec fn unique_keys(s: Seq<EntrySpec>) -> bool {
    forall|i: int, j: int| 0 <= i < j < s.len() ==> #[trigger] s[i].0 != #[trigger] s[j].0
}

// ---------------------------------------------------------------------------
// Query to wire
// ---------------------------------------------------------------------------

/// The wire document of a query: one field per entry, in order.
pub open spec fn wire_of_query(q: QuerySpec) -> DocSpec
    decreases q,
{
    wire_entries(q.entries)
}

pub open spec fn wire_entries(s: Seq<EntrySpec>) -> DocSpec
    decreases s,
{
    if s.len() == 0 {
        Seq::empty()
    } else {
        wire_entries(s.drop_last()).push((key_text(s.last().0), wire_of_value(s.last().1)))
    }
}

/// A literal is itself; sub-queries become an array of their documents; a
/// nested query becomes its document.
pub open spec fn wire_of_value(v: ValueSpec) -> Wire
    decreases v,
{
    match v {
        ValueSpec::Value(w) => w,
        ValueSpec::Casematch(qs) => Wire::Array(wire_cases(qs)),
        ValueSpec::Mapping(q) => Wire::Document(wire_entries(q.entries)),
    }
}

pub open spec fn wire_cases(qs: Seq<QuerySpec>) -> Seq<Wire>
    decreases qs,
{
    if qs.len() == 0 {
        Seq::empty()
    } else {
        wire_cases(qs.drop_last()).push(Wire::Document(wire_entries(qs.last().entries)))
    }
}

pub broadcast proof fn lemma_wire_entries(s: Seq<EntrySpec>)
    ensures
        #[trigger] wire_entries(s).len() == s.len(),
        forall|i: int|
            0 <= i < s.len() ==> #[trigger] wire_entries(s)[i] == (
                key_text(s[i].0),
                wire_of_value(s[i].1),
            ),
    decreases s.len(),
{
    if s.len() > 0 {
        lemma_wire_entries(s.drop_last());
        assert forall|i: int| 0 <= i < s.len() - 1 implies s.drop_last()[i] == s[i] by {}
    }
}

pub broadcast proof fn lemma_wire_cases(qs: Seq<QuerySpec>)
    ensures
        #[trigger] wire_cases(qs).len() == qs.len(),
        forall|i: int|
            0 <= i < qs.len() ==> #[trigger] wire_cases(qs)[i] == Wire::Document(
                wire_entries(qs[i].entries),
            ),
    decreases qs.len(),
{
    if qs.len() > 0 {
        lemma_wire_cases(qs.drop_last());
        assert forall|i: int| 0 <= i < qs.len() - 1 implies qs.drop_last()[i] == qs[i] by {}
    }
}

pub broadcast group group_query_lemmas {
    lemma_entries_of,
    lemma_queries_of,
    lemma_wire_entries,
    lemma_wire_cases,
}

// ---------------------------------------------------------------------------
// Executable keys
// ---------------------------------------------------------------------------

fn same_text(a: &str, b: &str) -> (r: bool)
    ensures
        r == (a@ == b@),
{
    let n = a.unicode_len();
    if n != b.unicode_len() {
        return false;
    }
    let mut i: usize = 0;
    while i < n
        invariant
            n == a@.len(),
            n == b@.len(),
            i <= n,
            forall|k: int| 0 <= k < i ==> a@[k] == b@[k],
        decreases n - i,
    {
        if a.get_char(i) != b.get_char(i) {
            return false;
        }
        i = i + 1;
    }
    assert(a@ =~= b@);
    true
}

impl QueryKey {
    /// The text that stands for this key in the wire format.
    pub fn to_string(&self) -> (r: String)
        ensures
            r@ == key_text(self@),
    {
        match self {
            QueryKey::String(s) => copy_string(s),
            QueryKey::Operator(s) => copy_string(s),
            QueryKey::GreaterThan => {
                proof {
                    reveal_strlit("$gt");
                }
                String::from_str("$gt")
            },
            QueryKey::LessThan => {
                proof {
                    reveal_strlit("$lt");
                }
                String::from_str("$lt")
            },
            QueryKey::GreaterThanEqual => {
                proof {
                    reveal_strlit("$gte");
                }
                String::from_str("$gte")
            },
            QueryKey::LessThanEqual => {
                proof {
                    reveal_strlit("$lte");
                }
                String::from_str("$lte")
            },
            QueryKey::Equals => {
                proof {
                    reveal_strlit("$eq");
                }
                String::from_str("$eq")
            },
            QueryKey::NotEquals => {
                proof {
                    reveal_strlit("$ne");
                }
                String::from_str("$ne")
            },
            QueryKey::In => {
                proof {
                    reveal_strlit("$in");
                }
                String::from_str("$in")
            },
            QueryKey::NotIn => {
                proof {
                    reveal_strlit("$nin");
                }
                String::from_str("$nin")
            },
            QueryKey::And => {
                proof {
                    reveal_strlit("$and");
                }
                String::from_str("$and")
            },
            QueryKey::Or => {
                proof {
                    reveal_strlit("$or");
                }
                String::from_str("$or")
            },
            QueryKey::Not => {
                proof {
                    reveal_strlit("$not");
                }
                String::from_str("$not")
            },
        }
    }

    /// The key that a field name of a wire document stands for.
    pub fn from_text(t: &str) -> (r: QueryKey)
        ensures
            r@ == key_of_text(t@),
    {
        proof {
            reveal_strlit("$gt");
            reveal_strlit("$lt");
            reveal_strlit("$gte");
            reveal_strlit("$lte");
            reveal_strlit("$eq");
            reveal_strlit("$ne");
            reveal_strlit("$in");
            reveal_strlit("$nin");
            reveal_strlit("$and");
            reveal_strlit("$or");
            reveal_strlit("$not");
            assert("$gt"@ =~= key_text(KeySpec::GreaterThan));
            assert("$lt"@ =~= key_text(KeySpec::LessThan));
            assert("$gte"@ =~= key_text(KeySpec::GreaterThanEqual));
            assert("$lte"@ =~= key_text(KeySpec::LessThanEqual));
            assert("$eq"@ =~= key_text(KeySpec::Equals));
            assert("$ne"@ =~= key_text(KeySpec::NotEquals));
            assert("$in"@ =~= key_text(KeySpec::In));
            assert("$nin"@ =~= key_text(KeySpec::NotIn));
            assert("$and"@ =~= key_text(KeySpec::And));
            assert("$or"@ =~= key_text(KeySpec::Or));
            assert("$not"@ =~= key_text(KeySpec::Not));
        }
        if same_text(t, "$gt") {
            QueryKey::GreaterThan
        } else if same_text(t, "$lt") {
            QueryKey::LessThan
        } else if same_text(t, "$gte") {
            QueryKey::GreaterThanEqual
        } else if same_text(t, "$lte") {
            QueryKey::LessThanEqual
        } else if same_text(t, "$eq") {
            QueryKey::Equals
        } else if same_text(t, "$ne") {
            QueryKey::NotEquals
        } else if same_text(t, "$in") {
            QueryKey::In
        } else if same_text(t, "$nin") {
            QueryKey::NotIn
        } else if same_text(t, "$and") {
            QueryKey::And
        } else if same_text(t, "$or") {
            QueryKey::Or
        } else if same_text(t, "$not") {
            QueryKey::Not
        } else if t.unicode_len() > 0 && t.get_char(0) == '$' {
            QueryKey::Operator(String::from_str(t))
        } else {
            QueryKey::String(String::from_str(t))
        }
    }

    /// A copy of the key.
    pub fn duplicate(&self) -> (r: QueryKey)
        ensures
            r@ == self@,
    {
        match self {
            QueryKey::String(s) => QueryKey::String(copy_string(s)),
            QueryKey::Operator(s) => QueryKey::Operator(copy_string(s)),
            QueryKey::GreaterThan => QueryKey::GreaterThan,
            QueryKey::LessThan => QueryKey::LessThan,
            QueryKey::GreaterThanEqual => QueryKey::GreaterThanEqual,
            QueryKey::LessThanEqual => QueryKey::LessThanEqual,
            QueryKey::Equals => QueryKey::Equals,
            QueryKey::NotEquals => QueryKey::NotEquals,
            QueryKey::In => QueryKey::In,
            QueryKey::NotIn => QueryKey::NotIn,
            QueryKey::And => QueryKey::And,
            QueryKey::Or => QueryKey::Or,
            QueryKey::Not => QueryKey::Not,
        }
    }

    /// Whether two keys are the same key.
    pub fn same_as(&self, other: &QueryKey) -> (r: bool)
        ensures
            r == (self@ == other@),
    {
        match (self, other) {
            (QueryKey::String(a), QueryKey::String(b)) => a.eq(b),
            (QueryKey::Operator(a), QueryKey::Operator(b)) => a.eq(b),
            (QueryKey::GreaterThan, QueryKey::GreaterThan) => true,
            (QueryKey::LessThan, QueryKey::LessThan) => true,
            (QueryKey::GreaterThanEqual, QueryKey::GreaterThanEqual) => true,
            (QueryKey::LessThanEqual, QueryKey::LessThanEqual) => true,
            (QueryKey::Equals, QueryKey::Equals) => true,
            (QueryKey::NotEquals, QueryKey::NotEquals) => true,
            (QueryKey::In, QueryKey::In) => true,
            (QueryKey::NotIn, QueryKey::NotIn) => true,
            (QueryKey::And, QueryKey::And) => true,
            (QueryKey::Or, QueryKey::Or) => true,
            (QueryKey::Not, QueryKey::Not) => true,
            _ => false,
        }
    }
}


// ---------------------------------------------------------------------------
// Copies, last-write-wins insertion, and the builder
// ---------------------------------------------------------------------------

impl QueryValue {
    /// A deep copy of the value.
    pub fn duplicate(&self) -> (r: QueryValue)
        ensures
            r@ == self@,
        decreases self,
    {
        broadcast use group_query_lemmas;

        match self {
            QueryValue::Value(w) => QueryValue::Value(w.duplicate()),
            QueryValue::Mapping(q) => {
                proof {
                    assert(decreases_to!(*self => (*self)->Mapping_0));
                }
                QueryValue::Mapping(q.duplicate())
            },
            QueryValue::Casematch(qs) => {
                let mut r: Vec<Query> = Vec::new();
                let mut i: usize = 0;
                while i < qs.len()
                    invariant
                        *self == QueryValue::Casematch(*qs),
                        i <= qs.len(),
                        r@.len() == i,
                        forall|k: int| 0 <= k < i ==> #[trigger] query_of(r@[k]) == query_of(qs@[k]),
                    decreases qs.len() - i,
                {
                    proof {
                        assert(decreases_to!(*self => (*self)->Casematch_0));
                        assert(decreases_to!(*qs => qs@));
                        assert(decreases_to!(qs@ => qs@[i as int]));
                    }
                    let q = qs[i].duplicate();
                    r.push(q);
                    i = i + 1;
                }
                proof {
                    lemma_queries_of(r@);
                    lemma_queries_of(qs@);
                }
                assert(queries_of(r@) =~= queries_of(qs@));
                QueryValue::Casematch(r)
            },
        }
    }
}

impl Query {
    /// A deep copy of the query.
    pub fn duplicate(&self) -> (r: Query)
        ensures
            r@ == self@,
        decreases self,
    {
        let mut r: Vec<(QueryKey, QueryValue)> = Vec::new();
        let mut i: usize = 0;
        while i < self.entries.len()
            invariant
                i <= self.entries.len(),
                r@.len() == i,
                forall|k: int|
                    0 <= k < i ==> (#[trigger] r@[k]).0@ == self.entries@[k].0@ && value_of(r@[k].1)
                        == value_of(self.entries@[k].1),
            decreases self.entries.len() - i,
        {
            proof {
                assert(decreases_to!(*self => (*self).entries));
                assert(decreases_to!(self.entries => self.entries@));
                assert(decreases_to!(self.entries@ => self.entries@[i as int]));
                assert(decreases_to!(self.entries@[i as int] => self.entries@[i as int].1));
            }
            let k = self.entries[i].0.duplicate();
            let v = self.entries[i].1.duplicate();
            r.push((k, v));
            i = i + 1;
        }
        proof {
            lemma_entries_of(r@);
            lemma_entries_of(self.entries@);
        }
        assert(entries_of(r@) =~= entries_of(self.entries@));
        Query { entries: r }
    }

    /// The empty query, which matches every document.
    pub fn new() -> (r: Query)
        ensures
            r@.entries == Seq::<EntrySpec>::empty(),
    {
        let r = Query { entries: Vec::new() };
        assert(entries_of(r.entries@) =~= Seq::<EntrySpec>::empty());
        r
    }

    /// Sets `key` to `value`, replacing the value of an entry with that key.
    fn push(&mut self, key: QueryKey, value: QueryValue) -> (r: &mut Self)
        ensures
            r@.entries == put(old(self)@.entries, key@, value@),
            *final(self) == *final(r),
    {
        broadcast use group_query_lemmas;

        let ghost old_entries = entries_of(self.entries@);
        proof {
            lemma_entries_of(self.entries@);
        }
        let n = self.entries.len();
        let mut found = false;
        let mut i: usize = 0;
        while i < n
            invariant
                n == self.entries@.len(),
                old_entries.len() == n,
                i <= n,
                found == exists|j: int| 0 <= j < i && #[trigger] old_entries[j].0 == key@,
                forall|k: int|
                    0 <= k < n ==> (#[trigger] self.entries@[k]).0@ == (if k < i
                        && old_entries[k].0 == key@ {
                        key@
                    } else {
                        old_entries[k].0
                    }) && value_of(self.entries@[k].1) == (if k < i && old_entries[k].0 == key@ {
                        value@
                    } else {
                        old_entries[k].1
                    }),
            decreases n - i,
        {
            if self.entries[i].0.same_as(&key) {
                let k = key.duplicate();
                let v = value.duplicate();
                self.entries[i] = (k, v);
                found = true;
                assert(old_entries[i as int].0 == key@);
            } else {
                assert(old_entries[i as int].0 != key@);
            }
            i = i + 1;
        }
        if !found {
            self.entries.push((key, value));
            proof {
                lemma_entries_of(self.entries@);
                assert(!has_key(old_entries, key@));
            }
            assert(entries_of(self.entries@) =~= put(old_entries, key@, value@));
        } else {
            proof {
                lemma_entries_of(self.entries@);
                assert(has_key(old_entries, key@));
            }
            assert(entries_of(self.entries@) =~= put(old_entries, key@, value@));
        }
        self
    }
}

impl QueryValue {
    /// The wire form of the value.
    pub fn to_wire(&self) -> (r: WireValue)
        ensures
            r@ == wire_of_value(self@),
        decreases self,
    {
        match self {
            QueryValue::Value(w) => w.duplicate(),
            QueryValue::Mapping(q) => {
                proof {
                    assert(decreases_to!(*self => (*self)->Mapping_0));
                }
                let d = q.to_wire();
                WireValue::Document(d)
            },
            QueryValue::Casematch(qs) => {
                let mut r: Vec<WireValue> = Vec::new();
                let mut i: usize = 0;
                while i < qs.len()
                    invariant
                        *self == QueryValue::Casematch(*qs),
                        i <= qs.len(),
                        r@.len() == i,
                        forall|k: int|
                            0 <= k < i ==> #[trigger] wire_of(r@[k]) == Wire::Document(
                                wire_of_query(query_of(qs@[k])),
                            ),
                    decreases qs.len() - i,
                {
                    proof {
                        assert(decreases_to!(*self => (*self)->Casematch_0));
                        assert(decreases_to!(*qs => qs@));
                        assert(decreases_to!(qs@ => qs@[i as int]));
                    }
                    let d = qs[i].to_wire();
                    r.push(WireValue::Document(d));
                    i = i + 1;
                }
                proof {
                    lemma_wires_of(r@);
                    lemma_queries_of(qs@);
                    lemma_wire_cases(queries_of(qs@));
                }
                assert(wires_of(r@) =~= wire_cases(queries_of(qs@)));
                WireValue::Array(r)
            },
        }
    }
}

impl Query {
    /// The wire document of the query: one field per entry, in order, each
    /// key written as its text.
    pub fn to_wire(&self) -> (r: WireDocument)
        ensures
            doc_of(r@) == wire_of_query(self@),
        decreases self,
    {
        let mut r: WireDocument = Vec::new();
        let mut i: usize = 0;
        while i < self.entries.len()
            invariant
                i <= self.entries.len(),
                r@.len() == i,
                forall|k: int|
                    0 <= k < i ==> (#[trigger] r@[k]).0@ == key_text(self.entries@[k].0@)
                        && wire_of(r@[k].1) == wire_of_value(value_of(self.entries@[k].1)),
            decreases self.entries.len() - i,
        {
            proof {
                assert(decreases_to!(*self => (*self).entries));
                assert(decreases_to!(self.entries => self.entries@));
                assert(decreases_to!(self.entries@ => self.entries@[i as int]));
                assert(decreases_to!(self.entries@[i as int] => self.entries@[i as int].1));
            }
            let name = self.entries[i].0.to_string();
            let v = self.entries[i].1.to_wire();
            r.push((name, v));
            i = i + 1;
        }
        proof {
            lemma_doc_of(r@);
            lemma_entries_of(self.entries@);
            lemma_wire_entries(entries_of(self.entries@));
        }
        assert(doc_of(r@) =~= wire_of_query(self@));
        r
    }

    /// Constrains field `key` to equal `value`.
    pub fn field(&mut self, key: &str, value: WireValue) -> (r: &mut Self)
        ensures
            r@.entries == put(
                old(self)@.entries,
                KeySpec::Field(key@),
                ValueSpec::Value(value@),
            ),
            *final(self) == *final(r),
    {
        self.push(QueryKey::String(String::from_str(key)), QueryValue::Value(value))
    }

    /// Constrains field `key` by the nested query `child`.
    pub fn subquery(&mut self, key: &str, child: Query) -> (r: &mut Self)
        ensures
            r@.entries == put(old(self)@.entries, KeySpec::Field(key@), ValueSpec::Mapping(child@)),
            *final(self) == *final(r),
    {
        self.push(QueryKey::String(String::from_str(key)), QueryValue::Mapping(child))
    }

    /// Adds the named operator `operation` with `value`.
    pub fn operation(&mut self, operation: &str, value: QueryValue) -> (r: &mut Self)
        ensures
            r@.entries == put(old(self)@.entries, KeySpec::Operator(operation@), value@),
            *final(self) == *final(r),
    {
        self.push(QueryKey::Operator(String::from_str(operation)), value)
    }

    /// Requires the value to be greater than `value`.
    pub fn greater_than(&mut self, value: Number) -> (r: &mut Self)
        ensures
            r@.entries == put(
                old(self)@.entries,
                KeySpec::GreaterThan,
                ValueSpec::Value(Wire::Number(value)),
            ),
            *final(self) == *final(r),
    {
        self.push(QueryKey::GreaterThan, QueryValue::Value(WireValue::Number(value)))
    }

    /// Requires the value to be greater than or equal to `value`.
    pub fn greater_than_equal(&mut self, value: Number) -> (r: &mut Self)
        ensures
            r@.entries == put(
                old(self)@.entries,
                KeySpec::GreaterThanEqual,
                ValueSpec::Value(Wire::Number(value)),
            ),
            *final(self) == *final(r),
    {
        self.push(QueryKey::GreaterThanEqual, QueryValue::Value(WireValue::Number(value)))
    }

    /// Requires the value to be less than `value`.
    pub fn less_than(&mut self, value: Number) -> (r: &mut Self)
        ensures
            r@.entries == put(
                old(self)@.entries,
                KeySpec::LessThan,
                ValueSpec::Value(Wire::Number(value)),
            ),
            *final(self) == *final(r),
    {
        self.push(QueryKey::LessThan, QueryValue::Value(WireValue::Number(value)))
    }

    /// Requires the value to be less than or equal to `value`.
    pub fn less_than_equal(&mut self, value: Number) -> (r: &mut Self)
        ensures
            r@.entries == put(
                old(self)@.entries,
                KeySpec::LessThanEqual,
                ValueSpec::Value(Wire::Number(value)),
            ),
            *final(self) == *final(r),
    {
        self.push(QueryKey::LessThanEqual, QueryValue::Value(WireValue::Number(value)))
    }

    /// Requires the value to equal `value`.
    pub fn equals(&mut self, value: WireValue) -> (r: &mut Self)
        ensures
            r@.entries == put(old(self)@.entries, KeySpec::Equals, ValueSpec::Value(value@)),
            *final(self) == *final(r),
    {
        self.push(QueryKey::Equals, QueryValue::Value(value))
    }

    /// Requires the value to differ from `value`.
    pub fn not_equals(&mut self, value: WireValue) -> (r: &mut Self)
        ensures
            r@.entries == put(old(self)@.entries, KeySpec::NotEquals, ValueSpec::Value(value@)),
            *final(self) == *final(r),
    {
        self.push(QueryKey::NotEquals, QueryValue::Value(value))
    }

    /// Requires the value to be one of `values`.
    pub fn in_array(&mut self, values: Vec<WireValue>) -> (r: &mut Self)
        ensures
            r@.entries == put(
                old(self)@.entries,
                KeySpec::In,
                ValueSpec::Value(Wire::Array(wires_of(values@))),
            ),
            *final(self) == *final(r),
    {
        self.push(QueryKey::In, QueryValue::Value(WireValue::Array(values)))
    }

    /// Requires the value to be none of `values`.
    pub fn not_in_array(&mut self, values: Vec<WireValue>) -> (r: &mut Self)
        ensures
            r@.entries == put(
                old(self)@.entries,
                KeySpec::NotIn,
                ValueSpec::Value(Wire::Array(wires_of(values@))),
            ),
            *final(self) == *final(r),
    {
        self.push(QueryKey::NotIn, QueryValue::Value(WireValue::Array(values)))
    }

    /// Requires `value` not to match.
    pub fn not(&mut self, value: Query) -> (r: &mut Self)
        ensures
            r@.entries == put(old(self)@.entries, KeySpec::Not, ValueSpec::Mapping(value@)),
            *final(self) == *final(r),
    {
        self.push(QueryKey::Not, QueryValue::Mapping(value))
    }

    /// Requires every one of `cases` to match; replaces an earlier `and`.
    pub fn and(&mut self, cases: Vec<Query>) -> (r: &mut Self)
        ensures
            r@.entries == put(
                old(self)@.entries,
                KeySpec::And,
                ValueSpec::Casematch(queries_of(cases@)),
            ),
            *final(self) == *final(r),
    {
        self.push(QueryKey::And, QueryValue::Casematch(cases))
    }

    /// Requires at least one of `cases` to match; replaces an earlier `or`.
    pub fn or(&mut self, cases: Vec<Query>) -> (r: &mut Self)
        ensures
            r@.entries == put(
                old(self)@.entries,
                KeySpec::Or,
                ValueSpec::Casematch(queries_of(cases@)),
            ),
            *final(self) == *final(r),
    {
        self.push(QueryKey::Or, QueryValue::Casematch(cases))
    }

    /// A snapshot of the query built so far.
    pub fn build(&self) -> (r: Query)
        ensures
            r@ == self@,
    {
        self.duplicate()
    }
}

// ---------------------------------------------------------------------------
// Wire to query
// ---------------------------------------------------------------------------

/// The query that a wire document reads as, field by field in order, a later
/// field overriding an earlier one with the same key; `None` where a field is
/// rejected.
pub open spec fn parse_doc(d: DocSpec) -> Option<QuerySpec>
    decreases d,
{
    if d.len() == 0 {
        Some(QuerySpec { entries: Seq::empty() })
    } else {
        match parse_doc(d.drop_last()) {
            None => None,
            Some(q) => match parse_entry(d[d.len() - 1].0, d[d.len() - 1].1) {
                None => None,
                Some(e) => Some(QuerySpec { entries: put(q.entries, e.0, e.1) }),
            },
        }
    }
}

/// The entry that one wire field reads as. Comparisons need a number, `$in`
/// and `$nin` an array, `$not` a document, `$and` and `$or` an array of
/// documents. A named operator takes a document as a nested query, an array
/// of documents as sub-queries, anything else as a literal. A field takes a
/// document as a nested query and anything else as a literal.
pub open spec fn parse_entry(name: Seq<char>, w: Wire) -> Option<EntrySpec>
    decreases w,
{
    let k = key_of_text(name);
    match k {
        KeySpec::GreaterThan | KeySpec::LessThan | KeySpec::GreaterThanEqual
        | KeySpec::LessThanEqual => if w is Number {
            Some((k, ValueSpec::Value(w)))
        } else {
            None
        },
        KeySpec::Equals | KeySpec::NotEquals => Some((k, ValueSpec::Value(w))),
        KeySpec::In | KeySpec::NotIn => if w is Array {
            Some((k, ValueSpec::Value(w)))
        } else {
            None
        },
        KeySpec::Not => match w {
            Wire::Document(d) => match parse_doc(d) {
                Some(q) => Some((k, ValueSpec::Mapping(q))),
                None => None,
            },
            _ => None,
        },
        KeySpec::And | KeySpec::Or => match w {
            Wire::Array(items) => match parse_cases(items) {
                Some(qs) => Some((k, ValueSpec::Casematch(qs))),
                None => None,
            },
            _ => None,
        },
        KeySpec::Operator(_) => match w {
            Wire::Document(d) => match parse_doc(d) {
                Some(q) => Some((k, ValueSpec::Mapping(q))),
                None => None,
            },
            Wire::Array(items) => match parse_cases(items) {
                Some(qs) => Some((k, ValueSpec::Casematch(qs))),
                None => Some((k, ValueSpec::Value(w))),
            },
            _ => Some((k, ValueSpec::Value(w))),
        },
        KeySpec::Field(_) => match w {
            Wire::Document(d) => match parse_doc(d) {
                Some(q) => Some((k, ValueSpec::Mapping(q))),
                None => None,
            },
            _ => Some((k, ValueSpec::Value(w))),
        },
    }
}

/// The queries that an array of documents reads as; `None` unless every item
/// is a document that reads as a query.
pub open spec fn parse_cases(items: Seq<Wire>) -> Option<Seq<QuerySpec>>
    decreases items,
{
    if items.len() == 0 {
        Some(Seq::empty())
    } else {
        match parse_cases(items.drop_last()) {
            None => None,
            Some(qs) => match items[items.len() - 1] {
                Wire::Document(d) => match parse_doc(d) {
                    Some(q) => Some(qs.push(q)),
                    None => None,
                },
                _ => None,
            },
        }
    }
}

fn parse_field(name: &String, w: &WireValue) -> (r: Result<(QueryKey, QueryValue), OrmoxError>)
    ensures
        match parse_entry(name@, w@) {
            Some(e) => r is Ok && r->Ok_0.0@ == e.0 && r->Ok_0.1@ == e.1,
            None => r is Err && r->Err_0 is Deserialization,
        },
    decreases w,
{
    let k = QueryKey::from_text(name.as_str());
    match k {
        QueryKey::GreaterThan | QueryKey::LessThan | QueryKey::GreaterThanEqual
        | QueryKey::LessThanEqual => match w {
            WireValue::Number(n) => Ok((k, QueryValue::Value(WireValue::Number(*n)))),
            _ => Err(OrmoxError::deserialization("Invalid number")),
        },
        QueryKey::Equals | QueryKey::NotEquals => Ok((k, QueryValue::Value(w.duplicate()))),
        QueryKey::In | QueryKey::NotIn => match w {
            WireValue::Array(_) => Ok((k, QueryValue::Value(w.duplicate()))),
            _ => Err(OrmoxError::deserialization("Expected an array of values")),
        },
        QueryKey::Not => match w {
            WireValue::Document(d) => {
                proof {
                    assert(decreases_to!(*w => (*w)->Document_0));
                }
                match Query::from_wire(d) {
                    Ok(q) => Ok((k, QueryValue::Mapping(q))),
                    Err(e) => Err(e),
                }
            },
            _ => Err(OrmoxError::deserialization("Expected a document")),
        },
        QueryKey::And | QueryKey::Or => match w {
            WireValue::Array(items) => {
                proof {
                    assert(decreases_to!(*w => (*w)->Array_0));
                }
                match parse_case_list(items) {
                    Ok(qs) => Ok((k, QueryValue::Casematch(qs))),
                    Err(e) => Err(e),
                }
            },
            _ => Err(OrmoxError::deserialization("Expected an array of values")),
        },
        QueryKey::Operator(_) => match w {
            WireValue::Document(d) => {
                proof {
                    assert(decreases_to!(*w => (*w)->Document_0));
                }
                match Query::from_wire(d) {
                    Ok(q) => Ok((k, QueryValue::Mapping(q))),
                    Err(e) => Err(e),
                }
            },
            WireValue::Array(items) => {
                proof {
                    assert(decreases_to!(*w => (*w)->Array_0));
                }
                match parse_case_list(items) {
                    Ok(qs) => Ok((k, QueryValue::Casematch(qs))),
                    Err(_) => Ok((k, QueryValue::Value(w.duplicate()))),
                }
            },
            _ => Ok((k, QueryValue::Value(w.duplicate()))),
        },
        QueryKey::String(_) => match w {
            WireValue::Document(d) => {
                proof {
                    assert(decreases_to!(*w => (*w)->Document_0));
                }
                match Query::from_wire(d) {
                    Ok(q) => Ok((k, QueryValue::Mapping(q))),
                    Err(e) => Err(e),
                }
            },
            _ => Ok((k, QueryValue::Value(w.duplicate()))),
        },
    }
}

fn parse_case_list(items: &Vec<WireValue>) -> (r: Result<Vec<Query>, OrmoxError>)
    ensures
        match parse_cases(wires_of(items@)) {
            Some(qs) => r is Ok && queries_of(r->Ok_0@) == qs,
            None => r is Err && r->Err_0 is Deserialization,
        },
    decreases items,
{
    let mut r: Vec<Query> = Vec::new();
    let mut i: usize = 0;
    proof {
        lemma_wires_of(items@);
    }
    while i < items.len()
        invariant
            i <= items.len(),
            wires_of(items@).len() == items@.len(),
            forall|k: int| 0 <= k < items@.len() ==> #[trigger] wires_of(items@)[k] == wire_of(items@[k]),
            parse_cases(wires_of(items@).take(i as int)) == Some(queries_of(r@)),
        decreases items.len() - i,
    {
        let ghost pre = wires_of(items@).take(i as int);
        let ghost next = wires_of(items@).take(i + 1);
        assert(next.drop_last() =~= pre);
        assert(next[next.len() - 1] == wire_of(items@[i as int]));
        match &items[i] {
            WireValue::Document(d) => {
                proof {
                    assert(decreases_to!(*items => items@));
                    assert(decreases_to!(items@ => items@[i as int]));
                    assert(decreases_to!(items@[i as int] => items@[i as int]->Document_0));
                }
                match Query::from_wire(d) {
                    Ok(q) => {
                        proof {
                            lemma_queries_of(r@);
                        }
                        let ghost old_r = r@;
                        r.push(q);
                        proof {
                            lemma_queries_of(r@);
                            assert(queries_of(r@) =~= queries_of(old_r).push(query_of(q)));
                        }
                    },
                    Err(e) => {
                        proof {
                            lemma_parse_cases_prefix(wires_of(items@), i + 1);
                        }
                        return Err(e);
                    },
                }
            },
            _ => {
                proof {
                    lemma_parse_cases_prefix(wires_of(items@), i + 1);
                }
                return Err(OrmoxError::deserialization("Expected a document"));
            },
        }
        i = i + 1;
    }
    assert(wires_of(items@).take(i as int) =~= wires_of(items@));
    Ok(r)
}

/// Where a prefix of an array is rejected, the whole array is.
proof fn lemma_parse_cases_prefix(items: Seq<Wire>, n: int)
    requires
        0 <= n <= items.len(),
        parse_cases(items.take(n)) is None,
    ensures
        parse_cases(items) is None,
    decreases items.len() - n,
{
    if n < items.len() {
        assert(items.take(n + 1).drop_last() =~= items.take(n));
        lemma_parse_cases_prefix(items, n + 1);
    } else {
        assert(items.take(n) =~= items);
    }
}

/// Where a prefix of a document is rejected, the whole document is.
proof fn lemma_parse_doc_prefix(d: DocSpec, n: int)
    requires
        0 <= n <= d.len(),
        parse_doc(d.take(n)) is None,
    ensures
        parse_doc(d) is None,
    decreases d.len() - n,
{
    if n < d.len() {
        assert(d.take(n + 1).drop_last() =~= d.take(n));
        lemma_parse_doc_prefix(d, n + 1);
    } else {
        assert(d.take(n) =~= d);
    }
}

impl Query {
    /// Reads a wire document as a query (see `parse_doc`); a rejected field
    /// gives a deserialization error.
    pub fn from_wire(doc: &WireDocument) -> (r: Result<Query, OrmoxError>)
        ensures
            match parse_doc(doc_of(doc@)) {
                Some(q) => r is Ok && r->Ok_0@ == q,
                None => r is Err && r->Err_0 is Deserialization,
            },
        decreases doc,
    {
        let mut result = Query::new();
        let mut i: usize = 0;
        proof {
            lemma_doc_of(doc@);
            assert(doc_of(doc@).take(0) =~= Seq::<(Seq<char>, Wire)>::empty());
        }
        while i < doc.len()
            invariant
                i <= doc.len(),
                doc_of(doc@).len() == doc@.len(),
                forall|k: int|
                    0 <= k < doc@.len() ==> #[trigger] doc_of(doc@)[k] == (
                        doc@[k].0@,
                        wire_of(doc@[k].1),
                    ),
                parse_doc(doc_of(doc@).take(i as int)) == Some(result@),
            decreases doc.len() - i,
        {
            let ghost pre = doc_of(doc@).take(i as int);
            let ghost next = doc_of(doc@).take(i + 1);
            assert(next.drop_last() =~= pre);
            assert(next[next.len() - 1] == (doc@[i as int].0@, wire_of(doc@[i as int].1)));
            proof {
                assert(decreases_to!(*doc => doc@));
                assert(decreases_to!(doc@ => doc@[i as int]));
                assert(decreases_to!(doc@[i as int] => doc@[i as int].1));
            }
            match parse_field(&doc[i].0, &doc[i].1) {
                Ok((k, v)) => {
                    result.push(k, v);
                },
                Err(e) => {
                    proof {
                        lemma_parse_doc_prefix(doc_of(doc@), i + 1);
                    }
                    return Err(e);
                },
            }
            i = i + 1;
        }
        assert(doc_of(doc@).take(i as int) =~= doc_of(doc@));
        Ok(result)
    }
}

// ---------------------------------------------------------------------------
// Field-first builder
// ---------------------------------------------------------------------------

/// A query of one entry.
pub open spec fn single(k: KeySpec, v: ValueSpec) -> QuerySpec {
    QuerySpec { entries: seq![(k, v)] }
}

/// A builder that states each constraint on a field as a nested query of a
/// single operator on that field.
#[derive(Debug, PartialEq)]
pub struct SimpleQuery {
    query: Query,
}

impl View for SimpleQuery {
    type V = QuerySpec;

    closed spec fn view(&self) -> QuerySpec {
        self.query@
    }
}

impl Query {
    /// A query of the one entry `key: value`.
    fn of_one(key: QueryKey, value: QueryValue) -> (r: Query)
        ensures
            r@ == single(key@, value@),
    {
        let mut q = Query::new();
        q.push(key, value);
        assert(q@.entries =~= single(key@, value@).entries);
        q
    }
}

impl SimpleQuery {
    /// The empty builder.
    pub fn new() -> (r: SimpleQuery)
        ensures
            r@.entries == Seq::<EntrySpec>::empty(),
    {
        SimpleQuery { query: Query::new() }
    }

    fn constrain(&mut self, key: &str, op: QueryKey, value: QueryValue) -> (r: &mut Self)
        ensures
            r@.entries == put(
                old(self)@.entries,
                KeySpec::Field(key@),
                ValueSpec::Mapping(single(op@, value@)),
            ),
            *final(self) == *final(r),
    {
        let child = Query::of_one(op, value);
        self.query.subquery(key, child);
        self
    }

    /// Constrains field `key` to equal `value` directly.
    pub fn equals(&mut self, key: &str, value: WireValue) -> (r: &mut Self)
        ensures
            r@.entries == put(
                old(self)@.entries,
                KeySpec::Field(key@),
                ValueSpec::Value(value@),
            ),
            *final(self) == *final(r),
    {
        self.query.field(key, value);
        self
    }

    /// Constrains field `key` to differ from `value`.
    pub fn not_equals(&mut self, key: &str, value: WireValue) -> (r: &mut Self)
        ensures
            r@.entries == put(
                old(self)@.entries,
                KeySpec::Field(key@),
                ValueSpec::Mapping(single(KeySpec::NotEquals, ValueSpec::Value(value@))),
            ),
            *final(self) == *final(r),
    {
        self.constrain(key, QueryKey::NotEquals, QueryValue::Value(value))
    }

    /// Constrains field `key` to be less than `value`.
    pub fn less_than(&mut self, key: &str, value: Number) -> (r: &mut Self)
        ensures
            r@.entries == put(
                old(self)@.entries,
                KeySpec::Field(key@),
                ValueSpec::Mapping(single(KeySpec::LessThan, ValueSpec::Value(Wire::Number(value)))),
            ),
            *final(self) == *final(r),
    {
        self.constrain(key, QueryKey::LessThan, QueryValue::Value(WireValue::Number(value)))
    }

    /// Constrains field `key` to be less than or equal to `value`.
    pub fn less_than_equal(&mut self, key: &str, value: Number) -> (r: &mut Self)
        ensures
            r@.entries == put(
                old(self)@.entries,
                KeySpec::Field(key@),
                ValueSpec::Mapping(
                    single(KeySpec::LessThanEqual, ValueSpec::Value(Wire::Number(value))),
                ),
            ),
            *final(self) == *final(r),
    {
        self.constrain(key, QueryKey::LessThanEqual, QueryValue::Value(WireValue::Number(value)))
    }

    /// Constrains field `key` to be greater than `value`.
    pub fn greater_than(&mut self, key: &str, value: Number) -> (r: &mut Self)
        ensures
            r@.entries == put(
                old(self)@.entries,
                KeySpec::Field(key@),
                ValueSpec::Mapping(
                    single(KeySpec::GreaterThan, ValueSpec::Value(Wire::Number(value))),
                ),
            ),
            *final(self) == *final(r),
    {
        self.constrain(key, QueryKey::GreaterThan, QueryValue::Value(WireValue::Number(value)))
    }

    /// Constrains field `key` to be greater than or equal to `value`.
    pub fn greater_than_equal(&mut self, key: &str, value: Number) -> (r: &mut Self)
        ensures
            r@.entries == put(
                old(self)@.entries,
                KeySpec::Field(key@),
                ValueSpec::Mapping(
                    single(KeySpec::GreaterThanEqual, ValueSpec::Value(Wire::Number(value))),
                ),
            ),
            *final(self) == *final(r),
    {
        self.constrain(
            key,
            QueryKey::GreaterThanEqual,
            QueryValue::Value(WireValue::Number(value)),
        )
    }

    /// Constrains field `key` to be one of `values`.
    pub fn in_array(&mut self, key: &str, values: Vec<WireValue>) -> (r: &mut Self)
        ensures
            r@.entries == put(
                old(self)@.entries,
                KeySpec::Field(key@),
                ValueSpec::Mapping(
                    single(KeySpec::In, ValueSpec::Value(Wire::Array(wires_of(values@)))),
                ),
            ),
            *final(self) == *final(r),
    {
        self.constrain(key, QueryKey::In, QueryValue::Value(WireValue::Array(values)))
    }

    /// Constrains field `key` to be none of `values`.
    pub fn not_in_array(&mut self, key: &str, values: Vec<WireValue>) -> (r: &mut Self)
        ensures
            r@.entries == put(
                old(self)@.entries,
                KeySpec::Field(key@),
                ValueSpec::Mapping(
                    single(KeySpec::NotIn, ValueSpec::Value(Wire::Array(wires_of(values@)))),
                ),
            ),
            *final(self) == *final(r),
    {
        self.constrain(key, QueryKey::NotIn, QueryValue::Value(WireValue::Array(values)))
    }

    /// Constrains field `key` so that `expr` does not match it.
    pub fn not(&mut self, key: &str, expr: Query) -> (r: &mut Self)
        ensures
            r@.entries == put(
                old(self)@.entries,
                KeySpec::Field(key@),
                ValueSpec::Mapping(single(KeySpec::Not, ValueSpec::Mapping(expr@))),
            ),
            *final(self) == *final(r),
    {
        self.constrain(key, QueryKey::Not, QueryValue::Mapping(expr))
    }

    /// The query built so far.
    pub fn build(&self) -> (r: Query)
        ensures
            r@ == self@,
    {
        self.query.duplicate()
    }

    /// Wraps a query, keeping its entries.
    pub fn from_query(query: Query) -> (r: SimpleQuery)
        ensures
            r@ == query@,
    {
        SimpleQuery { query }
    }

    /// Unwraps the query, keeping its entries.
    pub fn into_query(self) -> (r: Query)
        ensures
            r@ == self@,
    {
        self.query
    }
}

impl From<Query> for SimpleQuery {
    fn from(query: Query) -> (r: SimpleQuery)
        ensures
            r@ == query@,
    {
        SimpleQuery { query }
    }
}

impl vstd::std_specs::convert::FromSpecImpl<Query> for SimpleQuery {
    open spec fn obeys_from_spec() -> bool {
        true
    }

    closed spec fn from_spec(query: Query) -> SimpleQuery {
        SimpleQuery { query }
    }
}

impl From<SimpleQuery> for Query {
    fn from(simple: SimpleQuery) -> (r: Query)
        ensures
            r@ == simple@,
    {
        simple.query
    }
}

impl vstd::std_specs::convert::FromSpecImpl<SimpleQuery> for Query {
    open spec fn obeys_from_spec() -> bool {
        true
    }

    closed spec fn from_spec(simple: SimpleQuery) -> Query {
        simple.query
    }
}

} // verus!
