//! The memory of the editor's colouring: the tokens of the text that was
//! coloured last, kept so that an unchanged text is not cut up again.

use crate::span::{all_nonempty, covers, on_char_boundaries};
use crate::syntax::{json_highlighter, lemma_tokens_of_text, tokens_of, Token};
use vstd::prelude::*;
use vstd::string::StringExecFns;
use vstd::utf8::{encode_utf8, encode_utf8_decode_utf8};

verus! {

/// Whether two texts are the same.
pub fn same_text(left: &str, right: &str) -> (same: bool)
    ensures
        same == (left@ == right@),
{
    let a = left.as_bytes();
    let b = right.as_bytes();
    proof {
        encode_utf8_decode_utf8(left@);
        encode_utf8_decode_utf8(right@);
    }
    if a.len() != b.len() {
        return false;
    }
    let mut i: usize = 0;
    while i < a.len()
        invariant
            i <= a@.len(),
            a@.len() == b@.len(),
            a@ == encode_utf8(left@),
            b@ == encode_utf8(right@),
            forall|k: int| 0 <= k < i ==> a@[k] == b@[k],
        decreases a@.len() - i,
    {
        if a[i] != b[i] {
            return false;
        }
        i = i + 1;
    }
    assert(a@ =~= b@);
    true
}

/// A copy of a list of tokens.
fn copy_tokens(tokens: &Vec<Token>) -> (copy: Vec<Token>)
    ensures
        copy@ == tokens@,
{
    let mut copy: Vec<Token> = Vec::new();
    let mut i: usize = 0;
    while i < tokens.len()
        invariant
            i <= tokens@.len(),
            copy@ == tokens@.take(i as int),
        decreases tokens@.len() - i,
    {
        copy.push(tokens[i]);
        assert(copy@ =~= tokens@.take(i + 1));
        i = i + 1;
    }
    assert(tokens@.take(tokens@.len() as int) =~= tokens@);
    copy
}

/// One remembered colouring: a text and its tokens.
pub struct LayoutCache {
    last_text: String,
    tokens: Option<Vec<Token>>,
}

impl Default for LayoutCache {
    fn default() -> (cache: LayoutCache)
        ensures
            cache.remembered() is None,
    {
        LayoutCache::new()
    }
}

impl LayoutCache {
    #[verifier::type_invariant]
    spec fn valid(self) -> bool {
        self.tokens matches Some(tokens) ==> tokens@ == tokens_of(self.last_text@) && encode_utf8(
            self.last_text@,
        ).len() <= usize::MAX
    }

    /// The text whose tokens are remembered, if any are.
    pub closed spec fn remembered(&self) -> Option<Seq<char>> {
        match self.tokens {
            Some(_) => Some(self.last_text@),
            None => None,
        }
    }

    /// A cache that remembers nothing.
    pub fn new() -> (cache: LayoutCache)
        ensures
            cache.remembered() is None,
    {
        LayoutCache { last_text: String::new(), tokens: None }
    }

    /// Whether the tokens of `text` are remembered.
    pub fn holds(&self, text: &str) -> (held: bool)
        ensures
            held == (self.remembered() == Some(text@)),
    {
        match &self.tokens {
            Some(_) => same_text(text, self.last_text.as_str()),
            None => false,
        }
    }

    /// The tokens of `text`: the remembered ones where `text` is the text
    /// that was coloured last, else new ones, which are remembered from now
    /// on in place of the old.
    pub fn layout(&mut self, text: &str) -> (tokens: Vec<Token>)
        ensures
            tokens@ == tokens_of(text@),
            covers(tokens@, 0, encode_utf8(text@).len() as int),
            all_nonempty(tokens@),
            on_char_boundaries(encode_utf8(text@), tokens@),
            final(self).remembered() == Some(text@),
    {
        proof {
            use_type_invariant(&*self);
        }
        if self.holds(text) {
            if let Some(tokens) = &self.tokens {
                proof {
                    lemma_tokens_of_text(text@);
                }
                return copy_tokens(tokens);
            }
        }
        let fresh = json_highlighter(text);
        let copy = copy_tokens(&fresh);
        *self = LayoutCache { last_text: String::from_str(text), tokens: Some(fresh) };
        copy
    }
}

} // verus!
