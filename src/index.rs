//! Index declarations of a document type.
use vstd::prelude::*;

use crate::wire::copy_string;

verus! {

/// `a` sorts strictly before `b` from position `i` on, comparing characters
/// by code point; a proper prefix sorts first.
pub open spec fn text_lt_from(a: Seq<char>, b: Seq<char>, i: int) -> bool
    decreases a.len() - i,
{
    if i < 0 || i >= a.len() {
        0 <= i < b.len()
    } else if i >= b.len() {
        false
    } else if a[i] != b[i] {
        (a[i] as int) < (b[i] as int)
    } else {
        text_lt_from(a, b, i + 1)
    }
}

/// The order of `String`: lexicographic by code point.
pub open spec fn text_lt(a: Seq<char>, b: Seq<char>) -> bool {
    text_lt_from(a, b, 0)
}

/// The texts of a list of strings.
pub open spec fn texts(v: Seq<String>) -> Seq<Seq<char>> {
    v.map_values(|s: String| s@)
}

/// Each text sorts strictly before the next one.
pub open spec fn strictly_sorted(t: Seq<Seq<char>>) -> bool {
    forall|i: int| 0 <= i < t.len() - 1 ==> text_lt(#[trigger] t[i], t[i + 1])
}

/// No text occurs twice.
pub open spec fn no_duplicates(t: Seq<Seq<char>>) -> bool {
    forall|i: int, j: int| 0 <= i < j < t.len() ==> #[trigger] t[i] != #[trigger] t[j]
}

proof fn lemma_text_trichotomy(a: Seq<char>, b: Seq<char>, i: int)
    requires
        0 <= i,
        a.subrange(0, i) == b.subrange(0, i),
        i <= a.len(),
        i <= b.len(),
    ensures
        text_lt_from(a, b, i) || text_lt_from(b, a, i) || a == b,
    decreases a.len() - i,
{
    if i < a.len() && i < b.len() && a[i] == b[i] {
        assert(a.subrange(0, i + 1) =~= a.subrange(0, i).push(a[i]));
        assert(b.subrange(0, i + 1) =~= b.subrange(0, i).push(b[i]));
        lemma_text_trichotomy(a, b, i + 1);
    } else if i == a.len() && i == b.len() {
        assert(a =~= a.subrange(0, i));
        assert(b =~= b.subrange(0, i));
    } else if i < a.len() && i < b.len() {
        assert((a[i] as int) != (b[i] as int));
    }
}

/// Compares two texts in the order of `String`.
pub fn text_less(a: &str, b: &str) -> (r: bool)
    ensures
        r == text_lt(a@, b@),
{
    let n = a.unicode_len();
    let m = b.unicode_len();
    let mut i: usize = 0;
    while i < n && i < m && a.get_char(i) == b.get_char(i)
        invariant
            n == a@.len(),
            m == b@.len(),
            i <= n,
            i <= m,
            text_lt(a@, b@) == text_lt_from(a@, b@, i as int),
        decreases n - i,
    {
        i = i + 1;
    }
    if i == n {
        i < m
    } else if i == m {
        false
    } else {
        (a.get_char(i) as u32) < (b.get_char(i) as u32)
    }
}

fn contains_text(v: &Vec<String>, x: &str) -> (r: bool)
    ensures
        r == texts(v@).contains(x@),
{
    let mut i: usize = 0;
    while i < v.len()
        invariant
            i <= v.len(),
            forall|k: int| 0 <= k < i ==> v@[k]@ != x@,
        decreases v.len() - i,
    {
        if v[i].eq(&String::from_str(x)) {
            assert(texts(v@)[i as int] == x@);
            return true;
        }
        i = i + 1;
    }
    assert forall|k: int| 0 <= k < texts(v@).len() implies texts(v@)[k] != x@ by {
        assert(texts(v@)[k] == v@[k]@);
    }
    false
}

/// Puts `x` at its place in a strictly sorted list that lacks it.
fn insert_sorted(v: &mut Vec<String>, x: String)
    requires
        strictly_sorted(texts(old(v)@)),
        !texts(old(v)@).contains(x@),
    ensures
        strictly_sorted(texts(final(v)@)),
        texts(final(v)@).to_set() == texts(old(v)@).to_set().insert(x@),
        texts(final(v)@).len() == texts(old(v)@).len() + 1,
        no_duplicates(texts(old(v)@)) ==> no_duplicates(texts(final(v)@)),
{
    let ghost t0 = texts(v@);
    let mut p: usize = 0;
    while p < v.len() && text_less(v[p].as_str(), x.as_str())
        invariant
            v@ == old(v)@,
            p <= v.len(),
            forall|k: int| 0 <= k < p ==> text_lt(#[trigger] v@[k]@, x@),
        decreases v.len() - p,
    {
        p = p + 1;
    }
    let ghost xv = x@;
    v.insert(p, x);
    let ghost t1 = texts(v@);
    assert(t1 =~= t0.insert(p as int, xv));
    proof {
        if p < t0.len() {
            assert(t0[p as int] == old(v)@[p as int]@);
            assert(!text_lt(t0[p as int], xv));
            assert(t0[p as int] != xv) by {
                assert(t0.contains(t0[p as int]));
            }
            assert(xv.subrange(0, 0) =~= t0[p as int].subrange(0, 0));
            lemma_text_trichotomy(xv, t0[p as int], 0);
        }
        if p > 0 {
            assert(t0[p - 1] == old(v)@[p - 1]@);
        }
        assert forall|i: int| 0 <= i < t1.len() - 1 implies text_lt(#[trigger] t1[i], t1[i + 1]) by {
            if i < p - 1 {
                assert(t1[i] == t0[i] && t1[i + 1] == t0[i + 1]);
            } else if i == p - 1 {
            } else if i == p {
            } else {
                assert(t1[i] == t0[i - 1] && t1[i + 1] == t0[i]);
            }
        }
        assert(t1.to_set() =~= t0.to_set().insert(xv)) by {
            assert forall|s: Seq<char>| t1.to_set().contains(s) implies t0.to_set().insert(
                xv,
            ).contains(s) by {
                let k = choose|k: int| 0 <= k < t1.len() && t1[k] == s;
                if k < p {
                    assert(t0[k] == s);
                } else if k > p {
                    assert(t0[k - 1] == s);
                }
            }
            assert forall|s: Seq<char>| t0.to_set().insert(xv).contains(s) implies t1.to_set().contains(
                s,
            ) by {
                if s == xv {
                    assert(t1[p as int] == s);
                } else {
                    let k = choose|k: int| 0 <= k < t0.len() && t0[k] == s;
                    if k < p {
                        assert(t1[k] == s);
                    } else {
                        assert(t1[k + 1] == s);
                    }
                }
            }
        }
        if no_duplicates(t0) {
            assert forall|i: int, j: int| 0 <= i < j < t1.len() implies #[trigger] t1[i]
                != #[trigger] t1[j] by {
                if i == p {
                    assert(t1[j] == t0[j - 1]);
                    assert(t0.contains(t0[j - 1]));
                } else if j == p {
                    assert(t1[i] == t0[i]);
                    assert(t0.contains(t0[i]));
                } else {
                    let i0 = if i < p { i } else { i - 1 };
                    let j0 = if j < p { j } else { j - 1 };
                    assert(t1[i] == t0[i0] && t1[j] == t0[j0]);
                }
            }
        }
    }
}

/// A declared index: its field names, sorted and without duplicates, an
/// optional name, and whether it is unique.
#[derive(Clone, Debug, PartialEq)]
pub struct Index {
    pub fields: Vec<String>,
    pub name: Option<String>,
    pub unique: bool,
}

impl Index {
    /// The fields are sorted and without duplicates.
    pub open spec fn wf(&self) -> bool {
        strictly_sorted(texts(self.fields@)) && no_duplicates(texts(self.fields@))
    }

    /// An unnamed, non-unique index on one field.
    pub fn new(field: &str) -> (r: Index)
        ensures
            texts(r.fields@) == seq![field@],
            r.name is None,
            !r.unique,
            r.wf(),
    {
        let mut fields: Vec<String> = Vec::new();
        fields.push(String::from_str(field));
        let r = Index { fields, name: None, unique: false };
        assert(texts(r.fields@) =~= seq![field@]);
        r
    }

    /// An unnamed, non-unique index on the given fields, sorted and without
    /// duplicates, whatever their order.
    pub fn new_compound(fields: Vec<String>) -> (r: Index)
        ensures
            r.wf(),
            texts(r.fields@).to_set() == texts(fields@).to_set(),
            r.name is None,
            !r.unique,
    {
        let mut f: Vec<String> = Vec::new();
        let mut i: usize = 0;
        while i < fields.len()
            invariant
                i <= fields.len(),
                strictly_sorted(texts(f@)),
                no_duplicates(texts(f@)),
                texts(f@).to_set() == texts(fields@.take(i as int)).to_set(),
            decreases fields.len() - i,
        {
            let ghost before = texts(f@).to_set();
            assert(texts(fields@.take(i + 1)) =~= texts(fields@.take(i as int)).push(
                fields@[i as int]@,
            ));
            if !contains_text(&f, fields[i].as_str()) {
                insert_sorted(&mut f, copy_string(&fields[i]));
            } else {
                assert(before.contains(fields@[i as int]@));
                assert(before.insert(fields@[i as int]@) =~= before);
            }
            proof {
                texts(fields@.take(i as int)).lemma_push_to_set_commute(fields@[i as int]@);
            }
            i = i + 1;
        }
        assert(fields@.take(i as int) =~= fields@);
        Index { fields: f, name: None, unique: false }
    }

    /// Names the index.
    pub fn named(&mut self, name: &str) -> (r: &mut Self)
        ensures
            r.name is Some,
            r.name->Some_0@ == name@,
            r.fields == old(self).fields,
            r.unique == old(self).unique,
            *final(self) == *final(r),
    {
        self.name = Some(String::from_str(name));
        self
    }

    /// Removes the index's name.
    pub fn unnamed(&mut self) -> (r: &mut Self)
        ensures
            r.name is None,
            r.fields == old(self).fields,
            r.unique == old(self).unique,
            *final(self) == *final(r),
    {
        self.name = None;
        self
    }

    /// Sets whether the index is unique.
    pub fn unique(&mut self, unique: bool) -> (r: &mut Self)
        ensures
            r.unique == unique,
            r.fields == old(self).fields,
            r.name == old(self).name,
            *final(self) == *final(r),
    {
        self.unique = unique;
        self
    }

    /// Adds a field at its sorted place, unless it is already there.
    pub fn field(&mut self, field: &str) -> (r: &mut Self)
        requires
            old(self).wf(),
        ensures
            r.wf(),
            texts(old(self).fields@).contains(field@) ==> r.fields == old(self).fields,
            texts(r.fields@).to_set() == texts(old(self).fields@).to_set().insert(field@),
            r.name == old(self).name,
            r.unique == old(self).unique,
            *final(self) == *final(r),
    {
        if !contains_text(&self.fields, field) {
            insert_sorted(&mut self.fields, String::from_str(field));
        } else {
            assert(texts(self.fields@).to_set().insert(field@) =~= texts(
                self.fields@,
            ).to_set());
        }
        self
    }

    /// A copy of the index.
    pub fn build(&self) -> (r: Index)
        ensures
            texts(r.fields@) == texts(self.fields@),
            r.unique == self.unique,
            r.name is Some <==> self.name is Some,
            r.name is Some ==> r.name->Some_0@ == self.name->Some_0@,
    {
        let mut fields: Vec<String> = Vec::new();
        let mut i: usize = 0;
        while i < self.fields.len()
            invariant
                i <= self.fields.len(),
                fields@.len() == i,
                forall|k: int| 0 <= k < i ==> (#[trigger] fields@[k])@ == self.fields@[k]@,
            decreases self.fields.len() - i,
        {
            fields.push(copy_string(&self.fields[i]));
            i = i + 1;
        }
        assert(texts(fields@) =~= texts(self.fields@));
        let name = match &self.name {
            Some(n) => Some(copy_string(n)),
            None => None,
        };
        Index { fields, name, unique: self.unique }
    }
}

proof fn lemma_text_lt_irreflexive(a: Seq<char>, i: int)
    requires
        0 <= i,
    ensures
        !text_lt_from(a, a, i),
    decreases a.len() - i,
{
    if i < a.len() {
        lemma_text_lt_irreflexive(a, i + 1);
    }
}

proof fn lemma_text_lt_transitive(a: Seq<char>, b: Seq<char>, c: Seq<char>, i: int)
    requires
        0 <= i,
        text_lt_from(a, b, i),
        text_lt_from(b, c, i),
    ensures
        text_lt_from(a, c, i),
    decreases a.len() - i,
{
    if i < a.len() && i < b.len() && i < c.len() && a[i] == b[i] && b[i] == c[i] {
        lemma_text_lt_transitive(a, b, c, i + 1);
    }
}

proof fn lemma_sorted_pairwise(t: Seq<Seq<char>>)
    requires
        strictly_sorted(t),
    ensures
        forall|i: int, j: int| 0 <= i < j < t.len() ==> text_lt(#[trigger] t[i], #[trigger] t[j]),
{
    assert forall|i: int, j: int| 0 <= i < j < t.len() implies text_lt(
        #[trigger] t[i],
        #[trigger] t[j],
    ) by {
        lemma_sorted_from(t, i, j);
    }
}

proof fn lemma_sorted_from(t: Seq<Seq<char>>, i: int, j: int)
    requires
        strictly_sorted(t),
        0 <= i < j < t.len(),
    ensures
        text_lt(t[i], t[j]),
    decreases j - i,
{
    assert(text_lt(t[j - 1], t[j]));
    if i < j - 1 {
        lemma_sorted_from(t, i, j - 1);
        lemma_text_lt_transitive(t[i], t[j - 1], t[j], 0);
    }
}

proof fn lemma_sorted_drop_first(t: Seq<Seq<char>>)
    requires
        strictly_sorted(t),
        t.len() > 0,
    ensures
        strictly_sorted(t.drop_first()),
        t.drop_first().to_set() == t.to_set().remove(t[0]),
{
    let r = t.drop_first();
    assert forall|i: int| 0 <= i < r.len() - 1 implies text_lt(#[trigger] r[i], r[i + 1]) by {
        assert(r[i] == t[i + 1] && r[i + 1] == t[i + 2]);
    }
    lemma_sorted_pairwise(t);
    lemma_text_lt_irreflexive(t[0], 0);
    assert forall|s: Seq<char>| r.to_set().contains(s) <==> t.to_set().remove(t[0]).contains(s) by {
        if r.to_set().contains(s) {
            let k = choose|k: int| 0 <= k < r.len() && r[k] == s;
            assert(t[k + 1] == s);
            assert(text_lt(t[0], t[k + 1]));
        }
        if t.to_set().remove(t[0]).contains(s) {
            let k = choose|k: int| 0 <= k < t.len() && t[k] == s;
            assert(k != 0);
            assert(r[k - 1] == s);
        }
    }
    assert(r.to_set() =~= t.to_set().remove(t[0]));
}

/// Two lists of names, each in strictly increasing order, that hold the same
/// names are the same list. So an index built by `Index::new_compound` has
/// the same fields for every order and repetition of the names given.
pub proof fn lemma_sorted_names_unique(x: Seq<Seq<char>>, y: Seq<Seq<char>>)
    requires
        strictly_sorted(x),
        strictly_sorted(y),
        x.to_set() == y.to_set(),
    ensures
        x == y,
    decreases x.len(),
{
    if x.len() == 0 {
        if y.len() > 0 {
            assert(y.to_set().contains(y[0]));
        }
        assert(y =~= x);
    } else {
        assert(x.to_set().contains(x[0]));
        assert(y.len() > 0);
        assert(y.to_set().contains(y[0]));
        lemma_sorted_pairwise(x);
        lemma_sorted_pairwise(y);
        let k = choose|k: int| 0 <= k < y.len() && y[k] == x[0];
        let m = choose|m: int| 0 <= m < x.len() && x[m] == y[0];
        if k > 0 && m > 0 {
            assert(text_lt(y[0], y[k]));
            assert(text_lt(x[0], x[m]));
            lemma_text_lt_transitive(x[0], y[0], x[0], 0);
            lemma_text_lt_irreflexive(x[0], 0);
        }
        assert(x[0] == y[0]);
        lemma_sorted_drop_first(x);
        lemma_sorted_drop_first(y);
        lemma_sorted_names_unique(x.drop_first(), y.drop_first());
        assert(x =~= seq![x[0]] + x.drop_first());
        assert(y =~= seq![y[0]] + y.drop_first());
    }
}

} // verus!
