use vstd::prelude::*;
use crate::lexing::token::{Token, TokenType};
use super::{ParserError, ParserResult};

verus! {

/// A cursor over a list of tokens.
#[derive(Debug, Clone, Copy)]
pub struct TokenReader<'a> {
    tokens: &'a [Token],
    index: usize,
}

/// The token kind at `i`, if `i` is inside the list.
pub open spec fn type_at(toks: Seq<Token>, i: int) -> Option<TokenType> {
    if 0 <= i < toks.len() {
        Some(toks[i].token_type)
    } else {
        None
    }
}

impl<'a> TokenReader<'a> {
    #[verifier::type_invariant]
    spec fn inv(&self) -> bool {
        self.index <= self.tokens@.len()
    }

    /// The tokens being read.
    pub closed spec fn toks(&self) -> Seq<Token> {
        self.tokens@
    }

    /// The offset of the current token.
    pub closed spec fn pos(&self) -> int {
        self.index as int
    }

    /// How many tokens are left to read.
    pub open spec fn remaining(&self) -> nat {
        (self.toks().len() - self.pos()) as nat
    }

    /// The kind of the current token, if any.
    pub open spec fn cur_type(&self) -> Option<TokenType> {
        type_at(self.toks(), self.pos())
    }

    /// The current token, if any.
    pub open spec fn cur_tok(&self) -> Option<Token> {
        if 0 <= self.pos() < self.toks().len() {
            Some(self.toks()[self.pos()])
        } else {
            None
        }
    }

    /// The reader is the same list, at the same place or further on.
    pub open spec fn same_or_further(&self, later: &TokenReader<'a>) -> bool {
        later.toks() == self.toks() && 0 <= self.pos() <= later.pos() <= later.toks().len()
    }

    /// A reader at `start_index` (or at the beginning); `None` for an empty list
    /// or a start past its end.
    pub fn new(tokens: &'a [Token], start_index: Option<usize>) -> (r: Option<Self>)
        ensures
            match r {
                Some(rd) => rd.toks() == tokens@ && tokens@.len() > 0 && match start_index {
                    Some(s) => s < tokens@.len() && rd.pos() == s,
                    None => rd.pos() == 0,
                },
                None => tokens@.len() == 0 || (start_index matches Some(s) && s >= tokens@.len()),
            },
    {
        if tokens.len() == 0 {
            return None;
        }
        match start_index {
            Some(s) => {
                if s >= tokens.len() {
                    None
                } else {
                    Some(TokenReader { tokens, index: s })
                }
            },
            None => Some(TokenReader { tokens, index: 0 }),
        }
    }

    pub fn index(&self) -> (r: usize)
        ensures
            0 <= self.pos() <= self.toks().len(),
            r == self.pos(),
            r <= self.toks().len(),
    {
        proof { use_type_invariant(self); }
        self.index
    }

    pub fn tokens(&self) -> (r: &'a [Token])
        ensures
            0 <= self.pos() <= self.toks().len(),
            r@ == self.toks(),
    {
        proof { use_type_invariant(self); }
        self.tokens
    }

    pub fn at_end(&self) -> (r: bool)
        ensures
            0 <= self.pos() <= self.toks().len(),
            r == (self.pos() >= self.toks().len()),
    {
        proof { use_type_invariant(self); }
        self.index >= self.tokens.len()
    }

    pub fn current(&self) -> (r: Option<Token>)
        ensures
            0 <= self.pos() <= self.toks().len(),
            self.pos() < self.toks().len() ==> r == Some(self.toks()[self.pos()]),
            self.pos() >= self.toks().len() ==> r is None,
    {
        proof { use_type_invariant(self); }
        if self.index < self.tokens.len() {
            Some(self.tokens[self.index].clone())
        } else {
            None
        }
    }

    pub fn current_type(&self) -> (r: Option<TokenType>)
        ensures
            0 <= self.pos() <= self.toks().len(),
            r == self.cur_type(),
    {
        proof { use_type_invariant(self); }
        if self.index < self.tokens.len() {
            Some(self.tokens[self.index].token_type)
        } else {
            None
        }
    }

    /// Moves past the current token and returns it.
    pub fn advance(&mut self) -> (r: Option<Token>)
        ensures
            0 <= old(self).pos() <= old(self).toks().len(),
            0 <= final(self).pos() <= final(self).toks().len(),
            final(self).toks() == old(self).toks(),
            old(self).pos() < old(self).toks().len() ==> r == Some(old(self).toks()[old(self).pos()])
                && final(self).pos() == old(self).pos() + 1,
            old(self).pos() >= old(self).toks().len() ==> r is None && *final(self) == *old(self),
    {
        proof { use_type_invariant(&*self); }
        if self.index < self.tokens.len() {
            let token = self.tokens[self.index].clone();
            self.index = self.index + 1;
            Some(token)
        } else {
            None
        }
    }

    /// The token `count` places after the current one.
    pub fn peek(&self, count: usize) -> (r: Option<Token>)
        ensures
            0 <= self.pos() <= self.toks().len(),
            self.pos() + count < self.toks().len() ==> r == Some(self.toks()[self.pos() + count]),
            self.pos() + count >= self.toks().len() ==> r is None,
    {
        proof { use_type_invariant(self); }
        if count < self.tokens.len() - self.index {
            Some(self.tokens[self.index + count].clone())
        } else {
            None
        }
    }

    /// Whether the token `count` places ahead has kind `t`.
    pub fn peek_is(&self, count: usize, t: TokenType) -> (r: bool)
        ensures
            0 <= self.pos() <= self.toks().len(),
            r == (type_at(self.toks(), self.pos() + count) == Some(t)),
    {
        proof { use_type_invariant(self); }
        if count < self.tokens.len() - self.index {
            self.tokens[self.index + count].token_type == t
        } else {
            false
        }
    }

    /// Whether the tokens from `count` places ahead on have the kinds `types`.
    pub fn peek_sequence_is(&self, count: usize, types: &[TokenType]) -> (r: bool)
        ensures
            0 <= self.pos() <= self.toks().len(),
            r == (forall|i: int|
                0 <= i < types@.len() ==> type_at(self.toks(), self.pos() + count + i) == Some(
                    #[trigger] types@[i],
                )),
    {
        proof { use_type_invariant(self); }
        let n = self.tokens.len();
        let mut i: usize = 0;
        while i < types.len()
            invariant
                n == self.toks().len(),
                i <= types@.len(),
                forall|j: int|
                    0 <= j < i ==> type_at(self.toks(), self.pos() + count + j) == Some(
                        #[trigger] types@[j],
                    ),
            decreases types.len() - i,
        {
            if count > usize::MAX - i {
                proof { use_type_invariant(self); }
                assert(type_at(self.toks(), self.pos() + count + i) is None);
                assert(type_at(self.toks(), self.pos() + count + i) != Some(types@[i as int]));
                return false;
            }
            if !self.peek_is(count + i, types[i]) {
                assert(types@[i as int] == types@[i as int]);
                return false;
            }
            i += 1;
        }
        true
    }

    pub fn previous(&self) -> (r: Option<Token>)
        ensures
            0 <= self.pos() <= self.toks().len(),
            self.pos() > 0 ==> r == Some(self.toks()[self.pos() - 1]),
            self.pos() == 0 ==> r is None,
    {
        proof { use_type_invariant(self); }
        if self.index != 0 {
            Some(self.tokens[self.index - 1].clone())
        } else {
            None
        }
    }

    /// Whether the current token has one of the kinds `tokens`.
    pub fn current_is(&self, tokens: &[TokenType]) -> (r: bool)
        ensures
            0 <= self.pos() <= self.toks().len(),
            r == (self.cur_type() matches Some(t) && tokens@.contains(t)),
    {
        proof { use_type_invariant(self); }
        match self.current_type() {
            Some(t) => type_in(tokens, t),
            None => false,
        }
    }

    /// Moves past the current token when it has kind `t`, and returns it.
    pub fn check(&mut self, t: TokenType) -> (r: Option<Token>)
        ensures
            0 <= old(self).pos() <= old(self).toks().len(),
            0 <= final(self).pos() <= final(self).toks().len(),
            old(self).cur_type() == Some(t) ==> r == Some(old(self).toks()[old(self).pos()])
                && final(self).toks() == old(self).toks() && final(self).pos() == old(self).pos() + 1,
            old(self).cur_type() != Some(t) ==> r is None && *final(self) == *old(self),
    {
        proof { use_type_invariant(&*self); }
        if self.current_type() == Some(t) {
            self.advance()
        } else {
            None
        }
    }

    /// Moves past the current token when its kind is one of `types`, and returns it.
    pub fn check_many(&mut self, types: &[TokenType]) -> (r: Option<Token>)
        ensures
            0 <= old(self).pos() <= old(self).toks().len(),
            0 <= final(self).pos() <= final(self).toks().len(),
            ({
                let hit = old(self).cur_type() matches Some(t) && types@.contains(t);
                &&& hit ==> r == Some(old(self).toks()[old(self).pos()]) && final(self).toks()
                    == old(self).toks() && final(self).pos() == old(self).pos() + 1
                &&& !hit ==> r is None && *final(self) == *old(self)
            }),
    {
        proof { use_type_invariant(&*self); }
        if self.current_is(types) {
            self.advance()
        } else {
            None
        }
    }

    /// Whether the tokens at the cursor have the kinds `types`.
    pub fn is_sequence(&self, types: &[TokenType]) -> (r: bool)
        ensures
            0 <= self.pos() <= self.toks().len(),
            r == (forall|i: int|
                0 <= i < types@.len() ==> type_at(self.toks(), self.pos() + i) == Some(
                    #[trigger] types@[i],
                )),
    {
        proof { use_type_invariant(self); }
        self.peek_sequence_is(0, types)
    }

    /// When the tokens at the cursor have the kinds `types`, moves past them and returns them.
    pub fn check_sequence(&mut self, types: &[TokenType]) -> (r: Option<Vec<Token>>)
        ensures
            0 <= old(self).pos() <= old(self).toks().len(),
            0 <= final(self).pos() <= final(self).toks().len(),
            ({
                let hit = forall|i: int|
                    0 <= i < types@.len() ==> type_at(old(self).toks(), old(self).pos() + i) == Some(
                        #[trigger] types@[i],
                    );
                &&& hit ==> (r matches Some(v) && v@ == old(self).toks().subrange(
                    old(self).pos(),
                    old(self).pos() + types@.len(),
                ))
                &&& hit ==> final(self).toks() == old(self).toks() && final(self).pos() == old(self).pos()
                    + types@.len()
                &&& !hit ==> r is None && *final(self) == *old(self)
            }),
    {
        proof { use_type_invariant(&*self); }
        if self.is_sequence(types) {
            proof {
                if types@.len() > 0 {
                    let last = types@.len() - 1;
                    assert(type_at(self.toks(), self.pos() + last) == Some(types@[last]));
                }
            }
            self.advance_count(types.len())
        } else {
            None
        }
    }

    /// Moves past the next `count` tokens and returns them; `None` (without
    /// moving) when fewer are left.
    pub fn advance_count(&mut self, count: usize) -> (r: Option<Vec<Token>>)
        ensures
            0 <= old(self).pos() <= old(self).toks().len(),
            0 <= final(self).pos() <= final(self).toks().len(),
            old(self).pos() + count <= old(self).toks().len() ==> (r matches Some(v) && v@
                == old(self).toks().subrange(old(self).pos(), old(self).pos() + count)),
            old(self).pos() + count <= old(self).toks().len() ==> final(self).toks() == old(self).toks()
                && final(self).pos() == old(self).pos() + count,
            old(self).pos() + count > old(self).toks().len() ==> r is None && *final(self) == *old(self),
    {
        proof { use_type_invariant(&*self); }
        if count == 0 {
            assert(old(self).toks().subrange(old(self).pos(), old(self).pos()) =~= Seq::<Token>::empty());
            return Some(Vec::new());
        }
        if count > self.tokens.len() - self.index {
            return None;
        }
        let mut tokens: Vec<Token> = Vec::new();
        let mut i: usize = 0;
        let ghost start = self.index as int;
        while i < count
            invariant
                self.tokens@ == old(self).tokens@,
                start == old(self).index,
                start + count <= self.tokens@.len(),
                i <= count,
                self.index == start + i,
                tokens@ == self.tokens@.subrange(start, start + i),
            decreases count - i,
        {
            let t = self.tokens[self.index].clone();
            self.index = self.index + 1;
            tokens.push(t);
            i += 1;
            assert(tokens@ =~= self.tokens@.subrange(start, start + i));
        }
        Some(tokens)
    }

    /// Like `check`, but a missing token is an error.
    pub fn expect(&mut self, t: TokenType) -> (r: ParserResult<Token>)
        ensures
            0 <= old(self).pos() <= old(self).toks().len(),
            0 <= final(self).pos() <= final(self).toks().len(),
            old(self).cur_type() == Some(t) ==> r == Ok::<Token, ParserError>(old(self).toks()[old(self).pos()])
                && final(self).toks() == old(self).toks() && final(self).pos() == old(self).pos() + 1,
            old(self).cur_type() != Some(t) ==> r == Err::<Token, ParserError>(ParserError::ExpectedToken(t, old(self).cur_tok()))
                && *final(self) == *old(self),
    {
        proof { use_type_invariant(&*self); }
        match self.check(t) {
            Some(token) => Ok(token),
            None => Err(ParserError::ExpectedToken(t, self.current())),
        }
    }

    /// Like `check_many`, but a missing token is an error.
    pub fn expect_many(&mut self, tokens: &[TokenType]) -> (r: ParserResult<Token>)
        ensures
            0 <= old(self).pos() <= old(self).toks().len(),
            0 <= final(self).pos() <= final(self).toks().len(),
            ({
                let hit = old(self).cur_type() matches Some(t) && tokens@.contains(t);
                &&& hit ==> r == Ok::<Token, ParserError>(old(self).toks()[old(self).pos()])
                    && final(self).toks() == old(self).toks() && final(self).pos() == old(self).pos() + 1
                &&& !hit ==> r is Err && *final(self) == *old(self)
            }),
    {
        proof { use_type_invariant(&*self); }
        match self.check_many(tokens) {
            Some(token) => Ok(token),
            None => Err(ParserError::ExpectedTokens(slice_to_vec(tokens), self.current())),
        }
    }

    /// Skips tokens until the current one has one of the kinds `tokens`, or the end.
    pub fn synchronize(&mut self, tokens: &[TokenType])
        ensures
            0 <= old(self).pos() <= old(self).toks().len(),
            0 <= final(self).pos() <= final(self).toks().len(),
            old(self).same_or_further(&*final(self)),
            final(self).pos() == final(self).toks().len() || (final(self).cur_type() matches Some(
                t,
            ) && tokens@.contains(t)),
            forall|i: int| old(self).pos() <= i < final(self).pos() ==> !tokens@.contains(
                #[trigger] final(self).toks()[i].token_type,
            ),
    {
        proof { use_type_invariant(&*self); }
        let n = self.tokens.len();
        while !self.current_is(tokens) && !self.at_end()
            invariant
                self.tokens@ == old(self).tokens@,
                n == self.tokens@.len(),
                old(self).index <= self.index <= self.tokens@.len(),
                forall|i: int| old(self).index <= i < self.index ==> !tokens@.contains(
                    #[trigger] self.tokens@[i].token_type,
                ),
            decreases self.tokens@.len() - self.index,
        {
            self.index = self.index + 1;
        }
    }
}

/// Whether `t` is one of `types`.
pub fn type_in(types: &[TokenType], t: TokenType) -> (r: bool)
    ensures
        r == types@.contains(t),
{
    let mut i: usize = 0;
    while i < types.len()
        invariant
            i <= types@.len(),
            forall|j: int| 0 <= j < i ==> types@[j] != t,
        decreases types.len() - i,
    {
        if types[i] == t {
            assert(types@[i as int] == t);
            return true;
        }
        i += 1;
    }
    false
}

fn slice_to_vec(types: &[TokenType]) -> (r: Vec<TokenType>)
    ensures
        r@ == types@,
{
    let mut v: Vec<TokenType> = Vec::new();
    let mut i: usize = 0;
    while i < types.len()
        invariant
            i <= types@.len(),
            v@ == types@.subrange(0, i as int),
        decreases types.len() - i,
    {
        v.push(types[i]);
        i += 1;
        assert(v@ =~= types@.subrange(0, i as int));
    }
    assert(v@ =~= types@);
    v
}

} // verus!
