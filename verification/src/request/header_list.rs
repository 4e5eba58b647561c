//! Comma-separated protocol-header lists.

use crate::text::{comma_tokens, comma_tokens_of, strs, vec_contains_str};
use vstd::prelude::*;

verus! {

/// The tokens of one comma-separated protocol header, trimmed and with empty
/// tokens dropped.
#[derive(Debug)]
pub struct HeaderList {
    tokens: Vec<String>,
}

impl View for HeaderList {
    type V = Seq<Seq<char>>;

    closed spec fn view(&self) -> Seq<Seq<char>> {
        strs(self.tokens@)
    }
}

impl Default for HeaderList {
    fn default() -> (r: Self)
        ensures
            r@ == Seq::<Seq<char>>::empty(),
    {
        let r = HeaderList { tokens: Vec::new() };
        assert(r@ =~= Seq::<Seq<char>>::empty());
        r
    }
}

impl HeaderList {
    /// Parses an optional raw header value.
    pub fn parse(value: Option<&str>) -> (r: Self)
        ensures
            r@ == match value {
                Some(v) => comma_tokens(v@),
                None => Seq::<Seq<char>>::empty(),
            },
    {
        match value {
            Some(v) => HeaderList { tokens: comma_tokens_of(v) },
            None => HeaderList::default(),
        }
    }

    /// The tokens in header order.
    pub fn iter(&self) -> (r: &[String])
        ensures
            strs(r@) == self@,
    {
        self.tokens.as_slice()
    }

    /// Whether some token equals `expected`.
    pub fn contains(&self, expected: &str) -> (b: bool)
        ensures
            b == self@.contains(expected@),
    {
        vec_contains_str(&self.tokens, expected)
    }

    /// Whether the list has no token.
    pub fn is_empty(&self) -> (b: bool)
        ensures
            b == (self@.len() == 0),
    {
        self.tokens.len() == 0
    }
}

} // verus!
