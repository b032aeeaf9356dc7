//! An environment: variable names bound to raw values.
//!
//! The resolver never reads the process environment itself. Its caller hands
//! it an [`Environment`], filled from wherever the variables come from, so that
//! a lookup depends on nothing but its arguments.

use vstd::prelude::*;
use vstd::slice::slice_to_vec;
use vstd::utf8::*;

use crate::order::same_text;

verus! {

/// What a list of bindings binds: a later binding of a name hides an earlier
/// one.
pub open spec fn bindings(entries: Seq<(Seq<char>, Seq<u8>)>) -> Map<Seq<char>, Seq<u8>>
    decreases entries.len(),
{
    if entries.len() == 0 {
        Map::empty()
    } else {
        bindings(entries.drop_last()).insert(entries.last().0, entries.last().1)
    }
}

/// The text that the raw value `raw` stands for, if it is valid UTF-8.
pub open spec fn text_of(raw: Seq<u8>) -> Option<Seq<char>> {
    if valid_utf8(raw) {
        Some(decode_utf8(raw))
    } else {
        None
    }
}

/// Variable names bound to raw values, which need not be valid text.
#[derive(Debug, Clone)]
pub struct Environment {
    vars: Vec<(String, Vec<u8>)>,
}

impl View for Environment {
    type V = Map<Seq<char>, Seq<u8>>;

    closed spec fn view(&self) -> Map<Seq<char>, Seq<u8>> {
        bindings(self.vars.deep_view())
    }
}

impl Environment {
    /// An environment in which no variable is set.
    pub fn new() -> (env: Environment)
        ensures
            env@ == Map::<Seq<char>, Seq<u8>>::empty(),
    {
        Environment { vars: Vec::new() }
    }

    /// Binds `name` to `value`, in place of any value it had.
    pub fn set(&mut self, name: &str, value: &[u8])
        ensures
            final(self)@ == old(self)@.insert(name@, value@),
    {
        let ghost before = self.vars.deep_view();
        self.vars.push((name.to_owned(), slice_to_vec(value)));
        proof {
            let after = self.vars.deep_view();
            assert(after.drop_last() =~= before);
            assert(after.last() == (name@, value@));
        }
    }

    /// The raw value of `name`, if it is set.
    pub fn get(&self, name: &str) -> (r: Option<&Vec<u8>>)
        ensures
            match r {
                Some(value) => self@.contains_key(name@) && self@[name@] == value@,
                None => !self@.contains_key(name@),
            },
    {
        let ghost all = self.vars.deep_view();
        let mut i: usize = self.vars.len();
        proof {
            assert(all.take(i as int) =~= all);
        }
        while i > 0
            invariant
                i <= self.vars.len(),
                all == self.vars.deep_view(),
                bindings(all).contains_key(name@) == bindings(all.take(i as int)).contains_key(
                    name@,
                ),
                bindings(all).contains_key(name@) ==> bindings(all)[name@] == bindings(
                    all.take(i as int),
                )[name@],
            decreases i,
        {
            i -= 1;
            proof {
                assert(all.take(i + 1).drop_last() =~= all.take(i as int));
                assert(all.take(i + 1).last() == all[i as int]);
            }
            if same_text(self.vars[i].0.as_str(), name) {
                return Some(&self.vars[i].1);
            }
        }
        None
    }

    /// Is `name` set?
    pub fn contains(&self, name: &str) -> (r: bool)
        ensures
            r == self@.contains_key(name@),
    {
        self.get(name).is_some()
    }
}

/// Reads `raw` as text.
///
/// Calls `core::str::from_utf8`, which accepts exactly the byte strings that
/// are valid UTF-8 and then hands back the same bytes as a `str`.
#[verifier::external_body]
pub(crate) fn utf8_text(raw: &[u8]) -> (r: Option<&str>)
    ensures
        r is Some == valid_utf8(raw@),
        r matches Some(text) ==> encode_utf8(text@) == raw@,
{
    match core::str::from_utf8(raw) {
        Ok(text) => Some(text),
        Err(_) => None,
    }
}

/// The text that `raw` stands for, if it is valid UTF-8.
pub fn text_from(raw: &[u8]) -> (r: Option<String>)
    ensures
        match r {
            Some(text) => text_of(raw@) == Some(text@),
            None => text_of(raw@) is None,
        },
{
    match utf8_text(raw) {
        Some(text) => {
            proof {
                encode_utf8_decode_utf8(text@);
            }
            Some(text.to_owned())
        },
        None => None,
    }
}

} // verus!
