//! Options of the operations that every storage backend offers.
use vstd::prelude::*;

verus! {

/// Whether an operation targets at most one matching document or all of them.
#[derive(Clone, Copy, Debug, PartialEq, Eq, Structural)]
pub enum OperationCount {
    One,
    Many,
}

/// A sort on one field, ascending or descending.
#[derive(Clone, Debug, PartialEq)]
pub enum Sorting {
    Ascending(String),
    Descending(String),
}

impl Sorting {
    /// Ascending order on field `key`.
    pub fn asc(key: &str) -> (r: Sorting)
        ensures
            r is Ascending,
            r->Ascending_0@ == key@,
    {
        Sorting::Ascending(String::from_str(key))
    }

    /// Descending order on field `key`.
    pub fn desc(key: &str) -> (r: Sorting)
        ensures
            r is Descending,
            r->Descending_0@ == key@,
    {
        Sorting::Descending(String::from_str(key))
    }
}

/// The options of a read: cardinality, sort, offset and limit.
#[derive(Clone, Debug, PartialEq)]
pub struct Find {
    pub operation: OperationCount,
    pub offset: Option<usize>,
    pub limit: Option<usize>,
    pub sort: Option<Sorting>,
}

/// What a read returns, given every match in the requested order: under
/// `One` the first match alone, whatever the sort, offset and limit; under
/// `Many` the matches after the offset, at most `limit` of them.
pub open spec fn window<T>(matches: Seq<T>, operation: OperationCount, offset: Option<usize>, limit: Option<usize>) -> Seq<T> {
    match operation {
        OperationCount::One => if matches.len() == 0 {
            matches
        } else {
            matches.take(1)
        },
        OperationCount::Many => {
            let start: int = match offset {
                Some(o) => if o < matches.len() {
                    o as int
                } else {
                    matches.len() as int
                },
                None => 0,
            };
            let rest = matches.skip(start);
            match limit {
                Some(l) => if l < rest.len() {
                    rest.take(l as int)
                } else {
                    rest
                },
                None => rest,
            }
        },
    }
}

impl Find {
    /// All matches, unsorted, from the first, without a limit.
    pub fn many() -> (r: Find)
        ensures
            r.operation == OperationCount::Many,
            r.offset is None,
            r.limit is None,
            r.sort is None,
    {
        Find { operation: OperationCount::Many, offset: None, limit: None, sort: None }
    }

    /// At most one match.
    pub fn one() -> (r: Find)
        ensures
            r.operation == OperationCount::One,
            r.offset is None,
            r.limit is None,
            r.sort is None,
    {
        Find { operation: OperationCount::One, offset: None, limit: None, sort: None }
    }

    /// The options given, or `Find::many()` where none are.
    pub fn or_many(options: Option<Find>) -> (r: Find)
        ensures
            options is Some ==> r == options->Some_0,
            options is None ==> r.operation == OperationCount::Many && r.offset is None
                && r.limit is None && r.sort is None,
    {
        match options {
            Some(f) => f,
            None => Find::many(),
        }
    }

    /// Applies these options to `matches`, which hold every match in the
    /// requested order (see `window`). Under `One` at most one item is left.
    pub fn window<T>(&self, matches: Vec<T>) -> (r: Vec<T>)
        ensures
            r@ == window(matches@, self.operation, self.offset, self.limit),
            self.operation == OperationCount::One ==> r@.len() <= 1,
    {
        let mut matches = matches;
        match self.operation {
            OperationCount::One => {
                let ghost all = matches@;
                matches.truncate(1);
                assert(all.len() == 0 ==> matches@ =~= all);
                assert(all.len() > 0 ==> matches@ =~= all.take(1));
                matches
            },
            OperationCount::Many => {
                let start: usize = match self.offset {
                    Some(o) => if o < matches.len() {
                        o
                    } else {
                        matches.len()
                    },
                    None => 0,
                };
                let ghost all = matches@;
                let mut rest = matches.split_off(start);
                assert(rest@ =~= all.skip(start as int));
                match self.limit {
                    Some(l) => {
                        if l < rest.len() {
                            rest.truncate(l);
                        }
                    },
                    None => {},
                }
                rest
            },
        }
    }
}

/// Under `One` a read yields at most one document, and the same one whatever
/// the offset and limit: they are ignored.
pub proof fn lemma_one_ignores_paging<T>(
    matches: Seq<T>,
    offset_a: Option<usize>,
    limit_a: Option<usize>,
    offset_b: Option<usize>,
    limit_b: Option<usize>,
)
    ensures
        window(matches, OperationCount::One, offset_a, limit_a).len() <= 1,
        window(matches, OperationCount::One, offset_a, limit_a) == window(
            matches,
            OperationCount::One,
            offset_b,
            limit_b,
        ),
        matches.len() > 0 ==> window(matches, OperationCount::One, offset_a, limit_a) == seq![
            matches[0],
        ],
{
    if matches.len() > 0 {
        assert(matches.take(1) =~= seq![matches[0]]);
    }
}

} // verus!
