//! The nested key/value options container handed to plugins.
//!
//! Entries are kept as a list of key/value pairs with pairwise-distinct
//! keys; `assoc_get` is the specification of lookup.

use vstd::prelude::*;

use crate::assoc::{assoc_get, lemma_assoc_get_absent, lemma_assoc_get_found,
    lemma_assoc_get_keeps_others, lemma_assoc_get_remove};
use crate::error::Error;

verus! {

/// A value held by an options container: text, a number, or a nested
/// container.
#[derive(Debug, PartialEq)]
pub enum OptionValue {
    String(String),
    U32(u32),
    Options(Box<Options>),
}

/// A nested key/value container, passed to plugins as an opaque payload.
#[derive(Debug, PartialEq)]
pub struct Options {
    entries: Vec<(String, OptionValue)>,
}

impl View for Options {
    type V = Seq<(String, OptionValue)>;

    closed spec fn view(&self) -> Seq<(String, OptionValue)> {
        self.entries@
    }
}

impl Options {
    /// Well-formed: no two entries share a key.
    pub open spec fn wf(self) -> bool {
        forall|i: int, j: int|
            0 <= i < j < self@.len() ==> self@[i].0@ != self@[j].0@
    }

    /// The value stored under `key`, if any.
    pub open spec fn spec_get(self, key: Seq<char>) -> Option<OptionValue> {
        assoc_get(self@, key)
    }

    /// An empty container.
    pub fn new() -> (r: Options)
        ensures
            r.wf(),
            r@.len() == 0,
            forall|k: Seq<char>| r.spec_get(k) is None,
    {
        let r = Options { entries: Vec::new() };
        proof {
            assert forall|k: Seq<char>| r.spec_get(k) is None by {
                lemma_assoc_get_absent(r@, k);
            }
        }
        r
    }

    /// How many entries the container holds.
    pub fn len(&self) -> (n: usize)
        ensures
            n == self@.len(),
    {
        self.entries.len()
    }

    /// The position of the entry whose key is `key`, if any.
    fn position_of(&self, key: &String) -> (r: Option<usize>)
        requires
            self.wf(),
        ensures
            match r {
                Some(i) => i < self@.len() && self@[i as int].0@ == key@,
                None => forall|j: int| 0 <= j < self@.len() ==> self@[j].0@ != key@,
            },
    {
        let n = self.entries.len();
        let mut i: usize = 0;
        while i < n
            invariant
                n == self@.len(),
                i <= n,
                forall|j: int| 0 <= j < i ==> self@[j].0@ != key@,
            decreases n - i,
        {
            if self.entries[i].0 == *key {
                return Some(i);
            }
            i = i + 1;
        }
        None
    }

    /// Stores `value` under `key`, replacing any value already there; no
    /// other key is touched.
    pub fn insert(&mut self, key: String, value: OptionValue)
        requires
            old(self).wf(),
        ensures
            final(self).wf(),
            final(self).spec_get(key@) == Some(value),
            forall|k: Seq<char>|
                k != key@ ==> final(self).spec_get(k) == old(self).spec_get(k),
            final(self)@.len() == old(self)@.len() + (
                if old(self).spec_get(key@) is None {
                    1int
                } else {
                    0int
                }
            ),
    {
        let ghost pre = self@;
        match self.position_of(&key) {
            Some(i) => {
                proof {
                    lemma_assoc_get_found(pre, key@, i as int);
                }
                self.entries[i].1 = value;
                proof {
                    let post = self@;
                    lemma_assoc_get_found(post, key@, i as int);
                    assert forall|k: Seq<char>| k != key@ implies assoc_get(post, k) == assoc_get(
                        pre,
                        k,
                    ) by {
                        lemma_assoc_get_keeps_others(pre, post, k);
                    }
                }
            },
            None => {
                proof {
                    lemma_assoc_get_absent(pre, key@);
                }
                self.entries.push((key, value));
                proof {
                    let post = self@;
                    lemma_assoc_get_found(post, post[post.len() - 1].0@, post.len() - 1);
                    assert forall|k: Seq<char>| k != post[post.len() - 1].0@ implies assoc_get(
                        post,
                        k,
                    ) == assoc_get(pre, k) by {
                        lemma_assoc_get_keeps_others(pre, post, k);
                    }
                }
            },
        }
    }

    /// The value stored under `key`, if any.
    pub fn get(&self, key: &String) -> (r: Option<&OptionValue>)
        requires
            self.wf(),
        ensures
            match r {
                Some(v) => self.spec_get(key@) == Some(*v),
                None => self.spec_get(key@) is None,
            },
    {
        match self.position_of(key) {
            Some(i) => {
                proof {
                    lemma_assoc_get_found(self@, key@, i as int);
                }
                Some(&self.entries[i].1)
            },
            None => {
                proof {
                    lemma_assoc_get_absent(self@, key@);
                }
                None
            },
        }
    }

    /// The number stored under `key`: `WrongType` if the entry holds
    /// something else, `ValueNotFound` if there is none.
    pub fn get_u32(&self, key: &String) -> (r: Result<u32, Error>)
        requires
            self.wf(),
        ensures
            match r {
                Ok(v) => self.spec_get(key@) == Some(OptionValue::U32(v)),
                Err(e) => match self.spec_get(key@) {
                    Some(v) => !(v is U32) && e is WrongType,
                    None => e is ValueNotFound,
                },
            },
    {
        match self.get(key) {
            Some(OptionValue::U32(v)) => Ok(*v),
            Some(_) => Err(Error::WrongType { expected: String::from_str("u32") }),
            None => Err(Error::ValueNotFound),
        }
    }

    /// The text stored under `key`: `WrongType` if the entry holds
    /// something else, `ValueNotFound` if there is none.
    pub fn get_string(&self, key: &String) -> (r: Result<&String, Error>)
        requires
            self.wf(),
        ensures
            match r {
                Ok(v) => self.spec_get(key@) == Some(OptionValue::String(*v)),
                Err(e) => match self.spec_get(key@) {
                    Some(v) => !(v is String) && e is WrongType,
                    None => e is ValueNotFound,
                },
            },
    {
        match self.get(key) {
            Some(OptionValue::String(v)) => Ok(v),
            Some(_) => Err(Error::WrongType { expected: String::from_str("string") }),
            None => Err(Error::ValueNotFound),
        }
    }

    /// Drops the entry stored under `key`, if any; no other key is touched.
    pub fn remove(&mut self, key: &String)
        requires
            old(self).wf(),
        ensures
            final(self).wf(),
            final(self).spec_get(key@) is None,
            forall|k: Seq<char>|
                k != key@ ==> final(self).spec_get(k) == old(self).spec_get(k),
    {
        let ghost pre = self@;
        match self.position_of(key) {
            Some(i) => {
                self.entries.remove(i);
                proof {
                    let post = self@;
                    assert forall|j: int| 0 <= j < post.len() implies post[j].0@ != key@ by {
                        if j < i {
                            assert(post[j] == pre[j]);
                        } else {
                            assert(post[j] == pre[j + 1]);
                        }
                    }
                    lemma_assoc_get_absent(post, key@);
                    assert forall|k: Seq<char>| k != key@ implies assoc_get(post, k) == assoc_get(
                        pre,
                        k,
                    ) by {
                        lemma_assoc_get_remove(pre, post, i as int, k);
                    }
                }
            },
            None => {
                proof {
                    lemma_assoc_get_absent(self@, key@);
                }
            },
        }
    }

    /// Empties the container.
    pub fn clear(&mut self)
        ensures
            final(self).wf(),
            final(self)@.len() == 0,
            forall|k: Seq<char>| final(self).spec_get(k) is None,
    {
        self.entries.clear();
        proof {
            assert forall|k: Seq<char>| self.spec_get(k) is None by {
                lemma_assoc_get_absent(self@, k);
            }
        }
    }
}

} // verus!
