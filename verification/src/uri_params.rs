//! Parameters handed to a handler: those captured from the path and those
//! given in the query string.

use vstd::prelude::*;
use vstd::hash_map::StringHashMap;

verus! {

/// Path parameters: placeholder name to captured segment.
pub struct Route(pub StringHashMap<String>);

/// Query parameters: key to value, as they stood on the wire.
pub struct Query(pub StringHashMap<String>);

/// The text-to-text mapping that a string map stands for.
pub open spec fn texts_of(m: Map<Seq<char>, String>) -> Map<Seq<char>, Seq<char>> {
    m.map_values(|v: String| v@)
}

/// Inserting into the string map inserts the same pair into its model.
pub proof fn lemma_texts_of_insert(m: Map<Seq<char>, String>, key: Seq<char>, value: String)
    ensures
        texts_of(m.insert(key, value)) == texts_of(m).insert(key, value@),
{
    assert(texts_of(m.insert(key, value)) =~= texts_of(m).insert(key, value@));
}

impl View for Route {
    type V = Map<Seq<char>, Seq<char>>;

    open spec fn view(&self) -> Map<Seq<char>, Seq<char>> {
        texts_of(self.0@)
    }
}

impl View for Query {
    type V = Map<Seq<char>, Seq<char>>;

    open spec fn view(&self) -> Map<Seq<char>, Seq<char>> {
        texts_of(self.0@)
    }
}

impl Route {
    /// The empty mapping.
    pub fn new() -> (route: Route)
        ensures
            route@ == Map::<Seq<char>, Seq<char>>::empty(),
    {
        let route = Route(StringHashMap::new());
        assert(route@ =~= Map::<Seq<char>, Seq<char>>::empty());
        route
    }

    /// Binds `name` to `value`, replacing an earlier binding of `name`.
    pub fn insert(&mut self, name: String, value: String)
        ensures
            final(self)@ == old(self)@.insert(name@, value@),
    {
        proof {
            lemma_texts_of_insert(self.0@, name@, value);
        }
        self.0.insert(name, value);
    }

    /// The segment captured under `name`, if any.
    pub fn get(&self, name: &str) -> (found: Option<&String>)
        ensures
            found.is_some() == self@.contains_key(name@),
            found.is_some() ==> found.unwrap()@ == self@[name@],
    {
        self.0.get(name)
    }

    /// Whether a segment was captured under `name`.
    pub fn contains_key(&self, name: &str) -> (found: bool)
        ensures
            found == self@.contains_key(name@),
    {
        self.0.contains_key(name)
    }

    /// The number of captured segments.
    pub fn len(&self) -> (n: usize)
        ensures
            n == self@.len(),
    {
        assert(self@.dom() =~= self.0@.dom());
        self.0.len()
    }

    /// Whether nothing was captured.
    pub fn is_empty(&self) -> (empty: bool)
        ensures
            empty == (self@.len() == 0),
    {
        self.len() == 0
    }
}

impl Query {
    /// The empty mapping.
    pub fn new() -> (query: Query)
        ensures
            query@ == Map::<Seq<char>, Seq<char>>::empty(),
    {
        let query = Query(StringHashMap::new());
        assert(query@ =~= Map::<Seq<char>, Seq<char>>::empty());
        query
    }

    /// Binds `key` to `value`, replacing an earlier binding of `key`.
    pub fn insert(&mut self, key: String, value: String)
        ensures
            final(self)@ == old(self)@.insert(key@, value@),
    {
        proof {
            lemma_texts_of_insert(self.0@, key@, value);
        }
        self.0.insert(key, value);
    }

    /// The value given for `key`, if any.
    pub fn get(&self, key: &str) -> (found: Option<&String>)
        ensures
            found.is_some() == self@.contains_key(key@),
            found.is_some() ==> found.unwrap()@ == self@[key@],
    {
        self.0.get(key)
    }

    /// Whether a value was given for `key`.
    pub fn contains_key(&self, key: &str) -> (found: bool)
        ensures
            found == self@.contains_key(key@),
    {
        self.0.contains_key(key)
    }

    /// The number of parameters.
    pub fn len(&self) -> (n: usize)
        ensures
            n == self@.len(),
    {
        assert(self@.dom() =~= self.0@.dom());
        self.0.len()
    }

    /// Whether there is no parameter.
    pub fn is_empty(&self) -> (empty: bool)
        ensures
            empty == (self@.len() == 0),
    {
        self.len() == 0
    }
}

} // verus!
