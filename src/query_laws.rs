//! What holds of every query and every wire document under translation.
use vstd::prelude::*;

use crate::query::{
    has_key, has_sigil, is_builtin_token, key_canonical, key_of_text, key_text, parse_cases,
    parse_doc, parse_entry, put, unique_keys, wire_cases, wire_entries, wire_of_query,
    wire_of_value, EntrySpec, KeySpec, Query, QuerySpec, ValueSpec,
};
use crate::wire::{doc_wf, wire_wf, DocSpec, Wire};

verus! {

/// Every key reads back from its own text.
pub proof fn lemma_text_of_key_of_text(t: Seq<char>)
    ensures
        key_text(key_of_text(t)) == t,
{
}

proof fn lemma_tokens_have_sigil(t: Seq<char>)
    ensures
        is_builtin_token(t) ==> has_sigil(t),
{
    if is_builtin_token(t) {
        assert(t.len() > 0 && t[0] == '$');
    }
}

/// A canonical key is the key that its text reads as.
pub proof fn lemma_key_of_text_of_canonical(k: KeySpec)
    requires
        key_canonical(k),
    ensures
        key_of_text(key_text(k)) == k,
{
    let t = key_text(k);
    match k {
        KeySpec::Field(s) => {
            lemma_tokens_have_sigil(s);
        },
        KeySpec::Operator(s) => {},
        _ => {
            assert(t[0] == '$');
            assert(key_text(KeySpec::GreaterThan).len() == 3);
            assert(key_text(KeySpec::LessThan).len() == 3);
            assert(key_text(KeySpec::GreaterThanEqual).len() == 4);
            assert(key_text(KeySpec::LessThanEqual).len() == 4);
            assert(key_text(KeySpec::GreaterThan)[1] == 'g');
            assert(key_text(KeySpec::GreaterThanEqual)[1] == 'g');
            assert(key_text(KeySpec::LessThan)[1] == 'l');
            assert(key_text(KeySpec::LessThanEqual)[1] == 'l');
            assert(key_text(KeySpec::Equals)[1] == 'e');
            assert(key_text(KeySpec::NotEquals)[1] == 'n');
            assert(key_text(KeySpec::NotEquals)[2] == 'e');
            assert(key_text(KeySpec::In)[1] == 'i');
            assert(key_text(KeySpec::NotIn)[1] == 'n');
            assert(key_text(KeySpec::NotIn)[2] == 'i');
            assert(key_text(KeySpec::And)[1] == 'a');
            assert(key_text(KeySpec::Or)[1] == 'o');
            assert(key_text(KeySpec::Not)[1] == 'n');
            assert(key_text(KeySpec::Not)[2] == 'o');
        },
    }
}

/// Distinct canonical keys have distinct texts.
pub proof fn lemma_key_text_injective(a: KeySpec, b: KeySpec)
    requires
        key_canonical(a),
        key_canonical(b),
        key_text(a) == key_text(b),
    ensures
        a == b,
{
    lemma_key_of_text_of_canonical(a);
    lemma_key_of_text_of_canonical(b);
}

// ---------------------------------------------------------------------------
// Parsing, then serializing, gives back the wire document.
// ---------------------------------------------------------------------------

proof fn lemma_doc_reads_back(d: DocSpec)
    requires
        doc_wf(d),
        parse_doc(d) is Some,
    ensures
        wire_entries(parse_doc(d)->Some_0.entries) == d,
    decreases d,
{
    if d.len() == 0 {
        assert(wire_entries(parse_doc(d)->Some_0.entries) =~= d);
    } else {
        let init = d.drop_last();
        let last = d[d.len() - 1];
        assert(doc_wf(init)) by {
            assert forall|i: int| 0 <= i < init.len() implies wire_wf(#[trigger] init[i].1) by {
                assert(init[i] == d[i]);
            }
            assert forall|i: int, j: int| 0 <= i < j < init.len() implies #[trigger] init[i].0
                != #[trigger] init[j].0 by {
                assert(init[i] == d[i] && init[j] == d[j]);
            }
        }
        assert(wire_wf(d[d.len() - 1].1));
        assert(decreases_to!(d => d[d.len() - 1]));
        lemma_doc_reads_back(init);
        lemma_entry_reads_back(last.0, last.1);
        let q = parse_doc(init)->Some_0;
        let e = parse_entry(last.0, last.1)->Some_0;
        assert(!has_key(q.entries, e.0)) by {
            if has_key(q.entries, e.0) {
                let j = choose|j: int| 0 <= j < q.entries.len() && #[trigger] q.entries[j].0 == e.0;
                crate::query::lemma_wire_entries(q.entries);
                assert(wire_entries(q.entries)[j].0 == key_text(e.0));
                assert(init[j].0 == d[j].0);
                assert(d[j].0 != d[d.len() - 1].0);
            }
        }
        let s = put(q.entries, e.0, e.1);
        assert(s.drop_last() =~= q.entries);
        assert(wire_entries(s) =~= d);
    }
}

proof fn lemma_entry_reads_back(name: Seq<char>, w: Wire)
    requires
        wire_wf(w),
        parse_entry(name, w) is Some,
    ensures
        key_text(parse_entry(name, w)->Some_0.0) == name,
        wire_of_value(parse_entry(name, w)->Some_0.1) == w,
    decreases w,
{
    lemma_text_of_key_of_text(name);
    match w {
        Wire::Document(d) => {
            if parse_doc(d) is Some {
                lemma_doc_reads_back(d);
            }
        },
        Wire::Array(items) => {
            if parse_cases(items) is Some {
                lemma_cases_read_back(items);
            }
        },
        _ => {},
    }
}

proof fn lemma_cases_read_back(items: Seq<Wire>)
    requires
        forall|i: int| 0 <= i < items.len() ==> wire_wf(#[trigger] items[i]),
        parse_cases(items) is Some,
    ensures
        wire_cases(parse_cases(items)->Some_0) == items,
    decreases items,
{
    if items.len() == 0 {
        assert(wire_cases(parse_cases(items)->Some_0) =~= items);
    } else {
        let init = items.drop_last();
        assert forall|i: int| 0 <= i < init.len() implies wire_wf(#[trigger] init[i]) by {
            assert(init[i] == items[i]);
        }
        lemma_cases_read_back(init);
        let last = items[items.len() - 1];
        assert(wire_wf(last));
        match last {
            Wire::Document(d) => {
                assert(decreases_to!(items => items[items.len() - 1]));
                lemma_doc_reads_back(d);
                let qs = parse_cases(items)->Some_0;
                assert(qs.drop_last() =~= parse_cases(init)->Some_0);
                assert(wire_cases(qs) =~= items);
            },
            _ => {},
        }
    }
}

/// Reading a well-formed wire document as a query and writing that query out
/// again gives back the same document, so the backend receives the same
/// filter and selects the same documents.
pub proof fn lemma_parse_then_serialize(d: DocSpec)
    requires
        doc_wf(d),
        parse_doc(d) is Some,
    ensures
        wire_of_query(parse_doc(d)->Some_0) == d,
{
    lemma_doc_reads_back(d);
}

// ---------------------------------------------------------------------------
// Serializing, then parsing, a canonical query.
// ---------------------------------------------------------------------------

/// The query is written the way its wire document reads back: keys are
/// canonical and unique, built-in operators carry values of the shape they
/// need, literals are well-formed, and a document literal under a field or a
/// named operator reads as a query; all of this at every depth.
pub open spec fn canonical(q: QuerySpec) -> bool
    decreases q,
{
    &&& unique_keys(q.entries)
    &&& forall|i: int|
        0 <= i < q.entries.len() ==> entry_canonical(
            #[trigger] q.entries[i].0,
            q.entries[i].1,
        )
}

pub open spec fn entry_canonical(k: KeySpec, v: ValueSpec) -> bool
    decreases v,
{
    &&& key_canonical(k)
    &&& match k {
        KeySpec::GreaterThan | KeySpec::LessThan | KeySpec::GreaterThanEqual
        | KeySpec::LessThanEqual => v is Value && v->Value_0 is Number,
        KeySpec::Equals | KeySpec::NotEquals => v is Value && wire_wf(v->Value_0),
        KeySpec::In | KeySpec::NotIn => v is Value && v->Value_0 is Array && wire_wf(v->Value_0),
        KeySpec::Not => match v {
            ValueSpec::Mapping(q) => canonical(q),
            _ => false,
        },
        KeySpec::And | KeySpec::Or => match v {
            ValueSpec::Casematch(qs) => forall|j: int|
                0 <= j < qs.len() ==> canonical(#[trigger] qs[j]),
            _ => false,
        },
        KeySpec::Operator(_) | KeySpec::Field(_) => match v {
            ValueSpec::Value(w) => wire_wf(w) && match w {
                Wire::Document(d) => parse_doc(d) is Some,
                _ => true,
            },
            ValueSpec::Mapping(q) => canonical(q),
            ValueSpec::Casematch(qs) => forall|j: int|
                0 <= j < qs.len() ==> canonical(#[trigger] qs[j]),
        },
    }
}

proof fn lemma_entries_write_back(s: Seq<EntrySpec>)
    requires
        canonical(QuerySpec { entries: s }),
    ensures
        parse_doc(wire_entries(s)) is Some,
        doc_wf(wire_entries(s)),
    decreases s,
{
    crate::query::lemma_wire_entries(s);
    if s.len() > 0 {
        let init = s.drop_last();
        let last = s[s.len() - 1];
        assert(canonical(QuerySpec { entries: init })) by {
            assert forall|i: int| 0 <= i < init.len() implies entry_canonical(
                #[trigger] init[i].0,
                init[i].1,
            ) by {
                assert(init[i] == s[i]);
            }
            assert forall|i: int, j: int| 0 <= i < j < init.len() implies #[trigger] init[i].0
                != #[trigger] init[j].0 by {
                assert(init[i] == s[i] && init[j] == s[j]);
            }
        }
        assert(entry_canonical(last.0, last.1));
        lemma_entries_write_back(init);
        assert(decreases_to!(s => s[s.len() - 1]));
        lemma_entry_writes_back(last.0, last.1);
        let d = wire_entries(s);
        crate::query::lemma_wire_entries(init);
        assert(d.drop_last() =~= wire_entries(init));
        assert(d[d.len() - 1] == (key_text(last.0), wire_of_value(last.1)));
        // the new name differs from every earlier one
        assert forall|i: int, j: int| 0 <= i < j < d.len() implies #[trigger] d[i].0
            != #[trigger] d[j].0 by {
            assert(d[i].0 == key_text(s[i].0));
            assert(d[j].0 == key_text(s[j].0));
            assert(entry_canonical(s[i].0, s[i].1));
            assert(entry_canonical(s[j].0, s[j].1));
            if d[i].0 == d[j].0 {
                lemma_key_text_injective(s[i].0, s[j].0);
            }
        }
        assert forall|i: int| 0 <= i < d.len() implies wire_wf(#[trigger] d[i].1) by {
            if i < d.len() - 1 {
                assert(d[i] == wire_entries(init)[i]);
            }
        }
    } else {
        assert(wire_entries(s) =~= Seq::<(Seq<char>, Wire)>::empty());
    }
}

proof fn lemma_entry_writes_back(k: KeySpec, v: ValueSpec)
    requires
        entry_canonical(k, v),
    ensures
        parse_entry(key_text(k), wire_of_value(v)) is Some,
        wire_wf(wire_of_value(v)),
    decreases v,
{
    lemma_key_of_text_of_canonical(k);
    match v {
        ValueSpec::Mapping(q) => {
            lemma_entries_write_back(q.entries);
            assert(wire_of_value(v) == Wire::Document(wire_entries(q.entries)));
            assert(doc_wf(wire_entries(q.entries)));
        },
        ValueSpec::Casematch(qs) => {
            lemma_cases_write_back(qs);
            crate::query::lemma_wire_cases(qs);
            assert(wire_of_value(v) == Wire::Array(wire_cases(qs)));
        },
        ValueSpec::Value(w) => {},
    }
}

proof fn lemma_cases_write_back(qs: Seq<QuerySpec>)
    requires
        forall|j: int| 0 <= j < qs.len() ==> canonical(#[trigger] qs[j]),
    ensures
        parse_cases(wire_cases(qs)) is Some,
        forall|j: int| 0 <= j < qs.len() ==> wire_wf(#[trigger] wire_cases(qs)[j]),
    decreases qs,
{
    crate::query::lemma_wire_cases(qs);
    if qs.len() > 0 {
        let init = qs.drop_last();
        assert forall|j: int| 0 <= j < init.len() implies canonical(#[trigger] init[j]) by {
            assert(init[j] == qs[j]);
        }
        lemma_cases_write_back(init);
        let last = qs[qs.len() - 1];
        assert(canonical(last));
        assert(decreases_to!(qs => qs[qs.len() - 1]));
        lemma_entries_write_back(last.entries);
        crate::query::lemma_wire_cases(init);
        let w = wire_cases(qs);
        assert(w.drop_last() =~= wire_cases(init));
        assert forall|j: int| 0 <= j < qs.len() implies wire_wf(#[trigger] wire_cases(qs)[j]) by {
            if j < qs.len() - 1 {
                assert(w[j] == wire_cases(init)[j]);
            }
        }
    } else {
        assert(wire_cases(qs) =~= Seq::<Wire>::empty());
    }
}

/// Round trip: the wire document of a canonical query reads back as a query,
/// and that query has the same wire document, so it selects the same
/// documents as the original.
pub proof fn lemma_round_trip(q: Query)
    requires
        canonical(q@),
    ensures
        parse_doc(wire_of_query(q@)) is Some,
        wire_of_query(parse_doc(wire_of_query(q@))->Some_0) == wire_of_query(q@),
{
    lemma_entries_write_back(q@.entries);
    lemma_doc_reads_back(wire_of_query(q@));
}

/// The empty query is canonical.
pub proof fn lemma_empty_canonical()
    ensures
        canonical(QuerySpec { entries: Seq::empty() }),
{
}

/// Setting a canonical entry on a canonical query, as every builder method
/// does, leaves it canonical; so a query built from canonical pieces by the
/// builder methods meets `lemma_round_trip`.
pub proof fn lemma_put_canonical(q: QuerySpec, k: KeySpec, v: ValueSpec)
    requires
        canonical(q),
        entry_canonical(k, v),
    ensures
        canonical(QuerySpec { entries: put(q.entries, k, v) }),
{
    let s = put(q.entries, k, v);
    if has_key(q.entries, k) {
        assert forall|i: int| 0 <= i < s.len() implies entry_canonical(
            #[trigger] s[i].0,
            s[i].1,
        ) by {
            assert(entry_canonical(q.entries[i].0, q.entries[i].1));
        }
        assert forall|i: int, j: int| 0 <= i < j < s.len() implies #[trigger] s[i].0
            != #[trigger] s[j].0 by {
            assert(q.entries[i].0 != q.entries[j].0);
        }
    } else {
        assert forall|i: int| 0 <= i < s.len() implies entry_canonical(
            #[trigger] s[i].0,
            s[i].1,
        ) by {
            if i < q.entries.len() {
                assert(s[i] == q.entries[i]);
            }
        }
        assert forall|i: int, j: int| 0 <= i < j < s.len() implies #[trigger] s[i].0
            != #[trigger] s[j].0 by {
            assert(s[i] == q.entries[i]);
            if j < q.entries.len() {
                assert(s[j] == q.entries[j]);
            } else {
                assert(q.entries[i].0 != k);
            }
        }
    }
}

} // verus!
