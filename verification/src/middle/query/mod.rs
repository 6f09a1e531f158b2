//! Queries for incremental compilation: a query names a computation from a
//! key to a value, and the database records which queries ran.

use vstd::prelude::*;
use crate::util::text::str_eq;

verus! {

/// Identifier of a query.
#[derive(Debug, Clone, Copy, PartialEq, Eq, Hash, Structural)]
pub struct QueryId(pub u64);

/// A computation that the database runs on request.
pub trait Query: Sized {
    type Key;
    type Value;

    /// The query's name, one per query type.
    spec fn query_name() -> Seq<char>;

    fn name() -> (s: &'static str)
        ensures
            s@ == Self::query_name();

    /// The value of the query at `key`: a query is a function of its key.
    spec fn result(key: Self::Key) -> Self::Value;

    /// Computes the value for `key`.
    fn execute(db: &Database, key: Self::Key) -> (v: Self::Value)
        ensures
            v == Self::result(key);
}

/// The query database: the names of the queries that have run.
pub struct Database {
    storage: Vec<String>,
}

impl Database {
    /// The names of the queries that have run, in the order they first ran.
    pub closed spec fn stored(&self) -> Seq<Seq<char>> {
        self.storage@.map_values(|s: String| s@)
    }

    pub fn new() -> (db: Self)
        ensures
            db.stored() == Seq::<Seq<char>>::empty(),
    {
        Database { storage: Vec::new() }
    }

    /// Whether no query has run yet.
    pub fn is_empty(&self) -> (b: bool)
        ensures
            b == (self.stored().len() == 0),
    {
        self.storage.len() == 0
    }

    /// Runs query `Q` on `key` and gives its value at `key`; the database
    /// keeps only the name of each query that has run, not its results.
    pub fn query<Q: Query>(&mut self, key: Q::Key) -> (v: Q::Value)
        ensures
            v == Q::result(key),
            final(self).stored() == (if old(self).stored().contains(Q::query_name()) {
                old(self).stored()
            } else {
                old(self).stored().push(Q::query_name())
            }),
    {
        let value = Q::execute(self, key);
        let name = Q::name();
        let mut i: usize = 0;
        let mut found = false;
        while i < self.storage.len()
            invariant
                i <= self.storage@.len(),
                self.storage == old(self).storage,
                name@ == Q::query_name(),
                found == (exists|k: int| 0 <= k < i && #[trigger] self.stored()[k] == name@),
            decreases self.storage@.len() - i,
        {
            proof {
                assert(self.stored()[i as int] == self.storage@[i as int]@);
            }
            if str_eq(self.storage[i].as_str(), name) {
                found = true;
            }
            i = i + 1;
        }
        proof {
            if old(self).stored().contains(name@) {
                let k = choose|k: int| 0 <= k < old(self).stored().len() && old(self).stored()[k] == name@;
                assert(self.stored()[k] == name@);
            }
        }
        if !found {
            self.storage.push(name.to_owned());
            proof {
                assert(self.stored() =~= old(self).stored().push(name@));
                assert(self.stored()[self.stored().len() - 1] == name@);
            }
        }
        value
    }
}

impl Default for Database {
    fn default() -> (db: Self)
        ensures
            db.stored() == Seq::<Seq<char>>::empty(),
    {
        Database::new()
    }
}

} // verus!
