//! The routes registered for one method: pattern text to handler, in the
//! order in which the patterns were first registered.

use vstd::prelude::*;
use crate::text::same_text;

verus! {

/// A mapping from route pattern to handler. In a well-formed table no
/// pattern occurs twice; the patterns keep the order of their first
/// registration.
pub struct RouteMap<H> {
    patterns: Vec<String>,
    handlers: Vec<H>,
}

/// The texts of a vector of strings.
pub open spec fn texts(strings: Seq<String>) -> Seq<Seq<char>> {
    strings.map_values(|s: String| s@)
}

/// The patterns of a table after `pattern` was registered: unchanged where
/// it was registered before, else with `pattern` at the end.
pub open spec fn patterns_with(patterns: Seq<Seq<char>>, pattern: Seq<char>) -> Seq<Seq<char>> {
    if patterns.contains(pattern) {
        patterns
    } else {
        patterns.push(pattern)
    }
}

/// The handlers of a table after `handler` was registered for `pattern`: in
/// the place of the pattern's earlier handler where it had one, else at the
/// end.
pub open spec fn handlers_with<H>(
    patterns: Seq<Seq<char>>,
    handlers: Seq<H>,
    pattern: Seq<char>,
    handler: H,
) -> Seq<H> {
    if patterns.contains(pattern) {
        handlers.update(patterns.index_of(pattern), handler)
    } else {
        handlers.push(handler)
    }
}

impl<H> RouteMap<H> {
    /// The registered patterns, in table order.
    pub closed spec fn patterns(&self) -> Seq<Seq<char>> {
        texts(self.patterns@)
    }

    /// The handlers, each at the position of its pattern.
    pub closed spec fn handlers(&self) -> Seq<H> {
        self.handlers@
    }

    /// Every pattern has its handler, and no pattern occurs twice.
    pub open spec fn well_formed(&self) -> bool {
        &&& self.handlers().len() == self.patterns().len()
        &&& self.patterns().no_duplicates()
    }

    /// The empty table.
    pub fn new() -> (table: RouteMap<H>)
        ensures
            table.well_formed(),
            table.patterns() == Seq::<Seq<char>>::empty(),
            table.handlers() == Seq::<H>::empty(),
    {
        let table = RouteMap { patterns: Vec::new(), handlers: Vec::new() };
        assert(table.patterns() =~= Seq::<Seq<char>>::empty());
        table
    }

    /// The number of registered patterns.
    pub fn len(&self) -> (n: usize)
        ensures
            n == self.patterns().len(),
    {
        self.patterns.len()
    }

    /// The pattern at position `i` of the table.
    pub fn pattern(&self, i: usize) -> (pattern: &String)
        requires
            i < self.patterns().len(),
        ensures
            pattern@ == self.patterns()[i as int],
    {
        &self.patterns[i]
    }

    /// The handler at position `i` of the table.
    pub fn handler(&self, i: usize) -> (handler: &H)
        requires
            self.well_formed(),
            i < self.patterns().len(),
        ensures
            *handler == self.handlers()[i as int],
    {
        &self.handlers[i]
    }

    /// The position of `pattern` in the table, if it is registered.
    pub fn position(&self, pattern: &str) -> (at: Option<usize>)
        ensures
            at.is_some() == self.patterns().contains(pattern@),
            at.is_some() ==> at.unwrap() < self.patterns().len() && self.patterns()[at.unwrap() as int]
                == pattern@,
    {
        let mut i: usize = 0;
        while i < self.patterns.len()
            invariant
                i <= self.patterns.len(),
                self.patterns() == texts(self.patterns@),
                forall|k: int| 0 <= k < i ==> self.patterns()[k] != pattern@,
            decreases self.patterns.len() - i,
        {
            if same_text(self.patterns[i].as_str(), pattern) {
                assert(self.patterns()[i as int] == pattern@);
                return Some(i);
            }
            i += 1;
        }
        None
    }

    /// The handler registered for exactly `pattern`, if any.
    pub fn get(&self, pattern: &str) -> (found: Option<&H>)
        requires
            self.well_formed(),
        ensures
            found.is_some() == self.patterns().contains(pattern@),
            found.is_some() ==> *found.unwrap() == self.handlers()[self.patterns().index_of(
                pattern@,
            )],
    {
        match self.position(pattern) {
            Some(i) => {
                assert(self.patterns().index_of(pattern@) == i);
                Some(&self.handlers[i])
            },
            None => None,
        }
    }

    /// Registers `handler` for `pattern`. A pattern that is already
    /// registered keeps its place and gets the new handler.
    pub fn insert(&mut self, pattern: String, handler: H)
        requires
            old(self).well_formed(),
        ensures
            final(self).well_formed(),
            final(self).patterns() == patterns_with(old(self).patterns(), pattern@),
            final(self).handlers() == handlers_with(
                old(self).patterns(),
                old(self).handlers(),
                pattern@,
                handler,
            ),
    {
        match self.position(pattern.as_str()) {
            Some(i) => {
                assert(self.patterns().index_of(pattern@) == i);
                self.handlers.set(i, handler);
            },
            None => {
                let ghost before = self.patterns();
                self.patterns.push(pattern);
                self.handlers.push(handler);
                assert(self.patterns() =~= before.push(pattern@));
            },
        }
    }
}

} // verus!
