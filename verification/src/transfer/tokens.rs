//! The send tokens that a receiver honours.

use vstd::prelude::*;

use crate::text::{is_listed, same, texts};

verus! {

/// A set of tokens. Nothing in it occurs twice.
#[derive(Debug)]
pub struct TokenSet {
    tokens: Vec<String>,
}

impl View for TokenSet {
    type V = Set<Seq<char>>;

    closed spec fn view(&self) -> Set<Seq<char>> {
        texts(self.tokens@).to_set()
    }
}

impl TokenSet {
    /// Nothing occurs twice.
    pub closed spec fn wf(&self) -> bool {
        texts(self.tokens@).no_duplicates()
    }

    /// The empty set.
    pub fn new() -> (r: TokenSet)
        ensures
            r.wf(),
            r@ == Set::<Seq<char>>::empty(),
    {
        let r = TokenSet { tokens: Vec::new() };
        assert(r@ =~= Set::<Seq<char>>::empty());
        r
    }

    /// True when the token is honoured.
    pub fn contains(&self, token: &str) -> (r: bool)
        ensures
            r == self@.contains(token@),
    {
        is_listed(&self.tokens, token)
    }

    /// Adds a token; true when it was not there.
    pub fn insert(&mut self, token: String) -> (r: bool)
        requires
            old(self).wf(),
        ensures
            final(self).wf(),
            final(self)@ == old(self)@.insert(token@),
            r == !old(self)@.contains(token@),
    {
        let ghost before = texts(self.tokens@);
        if is_listed(&self.tokens, token.as_str()) {
            assert(self@ =~= old(self)@.insert(token@));
            return false;
        }
        let ghost t = token@;
        self.tokens.push(token);
        let ghost after = texts(self.tokens@);
        assert(after =~= before.push(t));
        assert forall|x: Seq<char>| after.contains(x) == (before.contains(x) || x == t) by {
            if before.contains(x) {
                let j = choose|j: int| 0 <= j < before.len() && before[j] == x;
                assert(after[j] == x);
            }
            if x == t {
                assert(after[before.len() as int] == x);
            }
        }
        assert(self@ =~= old(self)@.insert(t));
        true
    }

    /// Takes a token out; true when it was there.
    pub fn remove(&mut self, token: &str) -> (r: bool)
        requires
            old(self).wf(),
        ensures
            final(self).wf(),
            final(self)@ == old(self)@.remove(token@),
            r == old(self)@.contains(token@),
    {
        let ghost before = texts(self.tokens@);
        let mut i: usize = 0;
        while i < self.tokens.len()
            invariant
                i <= self.tokens@.len(),
                texts(self.tokens@) == before,
                *self == *old(self),
                self.wf(),
                forall|j: int| 0 <= j < i ==> before[j] != token@,
            decreases self.tokens@.len() - i,
        {
            if same(self.tokens[i].as_str(), token) {
                let ghost at = i as int;
                let _gone = self.tokens.remove(i);
                let ghost after = texts(self.tokens@);
                assert(after =~= before.remove(at));
                assert(before[at] == token@);
                assert forall|x: Seq<char>|
                    after.contains(x) == (before.contains(x) && x != token@) by {
                    if after.contains(x) {
                        let j = choose|j: int| 0 <= j < after.len() && after[j] == x;
                        if j < at {
                            assert(before[j] == x);
                        } else {
                            assert(before[j + 1] == x);
                        }
                    }
                    if before.contains(x) && x != token@ {
                        let j = choose|j: int| 0 <= j < before.len() && before[j] == x;
                        if j < at {
                            assert(after[j] == x);
                        } else {
                            assert(after[j - 1] == x);
                        }
                    }
                }
                assert(self@ =~= old(self)@.remove(token@));
                return true;
            }
            i = i + 1;
        }
        assert(!before.contains(token@));
        assert(self@ =~= old(self)@.remove(token@));
        false
    }

    /// Takes every token out.
    pub fn clear(&mut self)
        ensures
            final(self).wf(),
            final(self)@ == Set::<Seq<char>>::empty(),
    {
        self.tokens.clear();
        assert(self@ =~= Set::<Seq<char>>::empty());
    }
}

} // verus!
