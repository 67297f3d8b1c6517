//! The request-header view that routing decisions read: an ordered list of
//! name/value pairs. Header names compare ASCII-case-insensitively, as HTTP
//! requires; the first entry with a matching name wins.

use vstd::prelude::*;

use crate::text::{str_ci_equal, str_eq_ci};

verus! {

/// One request header.
#[derive(Debug, PartialEq)]
pub struct HeaderEntry {
    pub name: String,
    pub value: String,
}

/// The headers of one request, in arrival order.
#[derive(Debug, PartialEq)]
pub struct Headers {
    pub entries: Vec<HeaderEntry>,
}

/// The value of the first entry whose name equals `key`
/// ASCII-case-insensitively, if any.
pub open spec fn spec_header_lookup(entries: Seq<HeaderEntry>, key: Seq<char>) -> Option<Seq<char>>
    decreases entries.len(),
{
    if entries.len() == 0 {
        None
    } else if str_eq_ci(entries[0].name@, key) {
        Some(entries[0].value@)
    } else {
        spec_header_lookup(entries.skip(1), key)
    }
}

impl Clone for HeaderEntry {
    fn clone(&self) -> (res: HeaderEntry)
        ensures
            res == *self,
    {
        HeaderEntry { name: self.name.clone(), value: self.value.clone() }
    }
}

impl Clone for Headers {
    fn clone(&self) -> (res: Headers)
        ensures
            res.entries@ == self.entries@,
    {
        let entries = self.entries.clone();
        proof {
            assert(entries@ =~= self.entries@);
        }
        Headers { entries }
    }
}

impl Headers {
    /// An empty header list.
    pub fn new() -> (r: Headers)
        ensures
            r.entries@.len() == 0,
    {
        Headers { entries: Vec::new() }
    }

    /// Append one header.
    pub fn insert(&mut self, name: String, value: String)
        ensures
            final(self).entries@ == old(self).entries@.push(
                HeaderEntry { name: name, value: value },
            ),
    {
        self.entries.push(HeaderEntry { name, value });
    }

    /// Look a header up by name, ASCII-case-insensitively; the first match
    /// wins.
    pub fn get(&self, key: &str) -> (r: Option<&String>)
        ensures
            match r {
                Some(v) => spec_header_lookup(self.entries@, key@) == Some(v@),
                None => spec_header_lookup(self.entries@, key@) is None,
            },
    {
        let n = self.entries.len();
        let mut i: usize = 0;
        proof {
            assert(self.entries@.skip(0) =~= self.entries@);
        }
        while i < n
            invariant
                i <= n,
                n == self.entries@.len(),
                spec_header_lookup(self.entries@, key@) == spec_header_lookup(
                    self.entries@.skip(i as int),
                    key@,
                ),
            decreases n - i,
        {
            proof {
                assert(self.entries@.skip(i as int)[0] == self.entries@[i as int]);
                assert(self.entries@.skip(i as int).skip(1) =~= self.entries@.skip(i + 1));
            }
            if str_ci_equal(self.entries[i].name.as_str(), key) {
                return Some(&self.entries[i].value);
            }
            i = i + 1;
        }
        None
    }

    /// Whether a header with this name is present.
    pub fn contains_key(&self, key: &str) -> (r: bool)
        ensures
            r == (spec_header_lookup(self.entries@, key@) is Some),
    {
        match self.get(key) {
            Some(_) => true,
            None => false,
        }
    }
}

} // verus!
