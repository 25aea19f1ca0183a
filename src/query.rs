//! Query parameters: a mapping from names to values.
use vstd::prelude::*;
use crate::text::str_eq;

verus! {

/// The mapping that a list of name/value pairs denotes; a later pair for a
/// name replaces an earlier one.
pub open spec fn pairs_map(s: Seq<(String, String)>) -> Map<Seq<char>, Seq<char>>
    decreases s.len(),
{
    if s.len() == 0 {
        Map::empty()
    } else {
        pairs_map(s.drop_last()).insert(s.last().0@, s.last().1@)
    }
}

/// The query parameters of a request.
pub struct QueryParams {
    entries: Vec<(String, String)>,
}

impl View for QueryParams {
    type V = Map<Seq<char>, Seq<char>>;

    closed spec fn view(&self) -> Map<Seq<char>, Seq<char>> {
        pairs_map(self.entries@)
    }
}

impl QueryParams {
    /// No parameters.
    pub fn new() -> (r: QueryParams)
        ensures
            r@ == Map::<Seq<char>, Seq<char>>::empty(),
    {
        QueryParams { entries: Vec::new() }
    }

    /// Sets parameter `key` to `value`, replacing any earlier value.
    pub fn insert(&mut self, key: String, value: String)
        ensures
            final(self)@ == old(self)@.insert(key@, value@),
    {
        self.entries.push((key, value));
        assert(self.entries@.drop_last() =~= old(self).entries@);
    }

    /// The value of parameter `key`, if it is set.
    pub fn get(&self, key: &str) -> (r: Option<&str>)
        ensures
            match r {
                Some(v) => self@.contains_key(key@) && self@[key@] == v@,
                None => !self@.contains_key(key@),
            },
    {
        let ghost e = self.entries@;
        let mut k: usize = self.entries.len();
        assert(e.take(k as int) =~= e);
        while k > 0
            invariant
                k <= e.len(),
                e == self.entries@,
                pairs_map(e.take(k as int)).contains_key(key@) == self@.contains_key(key@),
                pairs_map(e.take(k as int)).contains_key(key@) ==> pairs_map(e.take(k as int))[key@]
                    == self@[key@],
            decreases k,
        {
            assert(e.take(k as int).drop_last() =~= e.take(k - 1));
            assert(e.take(k as int).last() == e[k - 1]);
            let entry = &self.entries[k - 1];
            if str_eq(entry.0.as_str(), key) {
                return Some(entry.1.as_str());
            }
            k = k - 1;
        }
        None
    }
}

} // verus!
