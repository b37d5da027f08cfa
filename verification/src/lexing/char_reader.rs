use vstd::prelude::*;
use vstd::string::StringSliceAdditionalSpecFns;
use vstd::string::StrSliceExecFns;

verus! {

/// A cursor over the characters of a text.
pub struct CharReader {
    chars: Vec<char>,
    index: usize,
}

impl CharReader {
    #[verifier::type_invariant]
    spec fn inv(&self) -> bool {
        self.index <= self.chars@.len()
    }

    /// The characters being read.
    pub closed spec fn text(&self) -> Seq<char> {
        self.chars@
    }

    /// The offset of the current character.
    pub closed spec fn pos(&self) -> int {
        self.index as int
    }

    pub fn chars(&self) -> (r: &[char])
        ensures
            0 <= self.pos() <= self.text().len(),
            r@ == self.text(),
    {
        proof { use_type_invariant(self); }
        self.chars.as_slice()
    }

    pub fn index(&self) -> (r: usize)
        ensures
            0 <= self.pos() <= self.text().len(),
            r == self.pos(),
            r <= self.text().len(),
    {
        proof { use_type_invariant(self); }
        self.index
    }

    /// A reader at the start of `text`; `None` for an empty text.
    pub fn new(text: &str) -> (r: Option<Self>)
        ensures
            match r {
                Some(rd) => text@.len() > 0 && rd.text() == text@ && rd.pos() == 0,
                None => text@.len() == 0,
            },
    {
        if text.is_empty() {
            return None;
        }
        Some(CharReader { chars: crate::text::str_to_chars(text), index: 0 })
    }

    /// The character `count` places after the current one.
    pub fn peek(&self, count: usize) -> (r: Option<char>)
        ensures
            0 <= self.pos() <= self.text().len(),
            self.pos() + count < self.text().len() ==> r == Some(self.text()[self.pos() + count]),
            self.pos() + count >= self.text().len() ==> r is None,
    {
        proof { use_type_invariant(self); }
        if count < self.chars.len() - self.index {
            Some(self.chars[self.index + count])
        } else {
            None
        }
    }

    pub fn current(&self) -> (r: Option<char>)
        ensures
            0 <= self.pos() <= self.text().len(),
            self.pos() < self.text().len() ==> r == Some(self.text()[self.pos()]),
            self.pos() >= self.text().len() ==> r is None,
    {
        proof { use_type_invariant(self); }
        if self.index < self.chars.len() {
            Some(self.chars[self.index])
        } else {
            None
        }
    }

    /// Whether the current character is one of `chars`.
    pub fn current_is(&self, chars: &[char]) -> (r: bool)
        ensures
            0 <= self.pos() <= self.text().len(),
            r == (self.pos() < self.text().len() && chars@.contains(self.text()[self.pos()])),
    {
        proof { use_type_invariant(self); }
        match self.current() {
            Some(c) => slice_contains(chars, c),
            None => false,
        }
    }

    /// Moves past the current character and returns it.
    pub fn advance(&mut self) -> (r: Option<char>)
        ensures
            0 <= old(self).pos() <= old(self).text().len(),
            0 <= final(self).pos() <= final(self).text().len(),
            final(self).text() == old(self).text(),
            old(self).pos() < old(self).text().len() ==> r == Some(old(self).text()[old(self).pos()])
                && final(self).pos() == old(self).pos() + 1,
            old(self).pos() >= old(self).text().len() ==> r is None && final(self).pos() == old(self).pos(),
    {
        proof { use_type_invariant(&*self); }
        if self.index < self.chars.len() {
            let c = self.chars[self.index];
            self.index = self.index + 1;
            Some(c)
        } else {
            None
        }
    }

    pub fn at_end(&self) -> (r: bool)
        ensures
            0 <= self.pos() <= self.text().len(),
            r == (self.pos() >= self.text().len()),
    {
        proof { use_type_invariant(self); }
        self.index >= self.chars.len()
    }

    /// Moves past the current character when it is one of `cs`, and returns it.
    pub fn check(&mut self, cs: &[char]) -> (r: Option<char>)
        ensures
            0 <= old(self).pos() <= old(self).text().len(),
            0 <= final(self).pos() <= final(self).text().len(),
            final(self).text() == old(self).text(),
            ({
                let matched = old(self).pos() < old(self).text().len() && cs@.contains(
                    old(self).text()[old(self).pos()],
                );
                &&& matched ==> r == Some(old(self).text()[old(self).pos()]) && final(self).pos()
                    == old(self).pos() + 1
                &&& !matched ==> r is None && final(self).pos() == old(self).pos()
            }),
    {
        proof { use_type_invariant(&*self); }
        let c = match self.current() {
            Some(c) => c,
            None => return None,
        };
        if slice_contains(cs, c) {
            self.advance()
        } else {
            None
        }
    }

    /// When the text at the cursor starts with `cs`, moves past it (by as many
    /// characters as `cs` has bytes, stopping at the end) and returns it.
    pub fn check_many(&mut self, cs: &str) -> (r: Option<String>)
        ensures
            0 <= old(self).pos() <= old(self).text().len(),
            0 <= final(self).pos() <= final(self).text().len(),
            final(self).text() == old(self).text(),
            ({
                let matched = old(self).pos() + cs@.len() <= old(self).text().len()
                    && old(self).text().subrange(old(self).pos(), old(self).pos() + cs@.len()) == cs@;
                let moved = old(self).pos() + cs.len();
                &&& matched ==> (r matches Some(s) && s@ == cs@)
                &&& matched ==> final(self).pos() == (if moved <= old(self).text().len() {
                    moved
                } else {
                    old(self).text().len() as int
                })
                &&& !matched ==> r is None && final(self).pos() == old(self).pos()
            }),
    {
        proof { use_type_invariant(&*self); }
        if !matches_at(&self.chars, self.index, cs) {
            return None;
        }
        let bytes = cs.len();
        let ghost start = self.index;
        let mut k: usize = 0;
        while k < bytes
            invariant
                bytes == cs.len(),
                k <= bytes,
                self.chars@ == old(self).chars@,
                self.index <= self.chars@.len(),
                self.index == (if start + k <= self.chars@.len() {
                    start + k
                } else {
                    self.chars@.len() as int
                }),
            decreases bytes - k,
        {
            self.advance();
            k += 1;
        }
        Some(cs.to_owned())
    }

    /// Moves past any whitespace; tells whether some was read.
    pub fn read_spaces(&mut self) -> (r: bool)
        ensures
            0 <= old(self).pos() <= old(self).text().len(),
            0 <= final(self).pos() <= final(self).text().len(),
            final(self).text() == old(self).text(),
            old(self).pos() <= final(self).pos() <= final(self).text().len(),
            r == (final(self).pos() > old(self).pos()),
            forall|j: int| old(self).pos() <= j < final(self).pos() ==> is_whitespace(#[trigger] old(self).text()[j]),
            final(self).pos() < final(self).text().len() ==> !is_whitespace(final(self).text()[final(self).pos()]),
    {
        proof { use_type_invariant(&*self); }
        let mut read = false;
        let ghost start = self.index as int;
        while self.index < self.chars.len() && char_is_whitespace(self.chars[self.index])
            invariant
                self.chars@ == old(self).chars@,
                start == old(self).index,
                start <= self.index <= self.chars@.len(),
                read == (self.index > start),
                forall|j: int| start <= j < self.index ==> is_whitespace(#[trigger] self.chars@[j]),
            decreases self.chars@.len() - self.index,
        {
            read = true;
            self.index = self.index + 1;
        }
        read
    }

    /// Moves past every consecutive occurrence of `c`; returns how many.
    pub fn advance_count(&mut self, c: char) -> (r: usize)
        ensures
            0 <= old(self).pos() <= old(self).text().len(),
            0 <= final(self).pos() <= final(self).text().len(),
            final(self).text() == old(self).text(),
            final(self).pos() == old(self).pos() + r,
            final(self).pos() <= final(self).text().len(),
            forall|j: int| old(self).pos() <= j < final(self).pos() ==> #[trigger] old(self).text()[j] == c,
            final(self).pos() < final(self).text().len() ==> final(self).text()[final(self).pos()] != c,
    {
        proof { use_type_invariant(&*self); }
        let mut count: usize = 0;
        let ghost start = self.index as int;
        while self.index < self.chars.len() && self.chars[self.index] == c
            invariant
                self.chars@ == old(self).chars@,
                start == old(self).index,
                self.index == start + count,
                self.index <= self.chars@.len(),
                forall|j: int| start <= j < self.index ==> #[trigger] self.chars@[j] == c,
            decreases self.chars@.len() - self.index,
        {
            count += 1;
            self.index = self.index + 1;
        }
        count
    }
}

/// Whether `chars`, from offset `index` on, starts with the characters of `cs`.
pub fn matches_at(chars: &Vec<char>, index: usize, cs: &str) -> (r: bool)
    requires
        index <= chars@.len(),
    ensures
        r == (index + cs@.len() <= chars@.len() && chars@.subrange(
            index as int,
            index + cs@.len(),
        ) == cs@),
{
    let n = cs.unicode_len();
    if n > chars.len() - index {
        return false;
    }
    let mut i: usize = 0;
    while i < n
        invariant
            n == cs@.len(),
            index + n <= chars@.len(),
            chars@.len() <= usize::MAX,
            i <= n,
            forall|j: int| 0 <= j < i ==> chars@[index + j] == #[trigger] cs@[j],
        decreases n - i,
    {
        if chars[index + i] != cs.get_char(i) {
            assert(chars@.subrange(index as int, index + cs@.len())[i as int] != cs@[i as int]);
            return false;
        }
        i += 1;
    }
    assert(chars@.subrange(index as int, index + cs@.len()) =~= cs@);
    true
}

/// Whether `c` is one of the characters in `cs`.
pub fn slice_contains(cs: &[char], c: char) -> (r: bool)
    ensures
        r == cs@.contains(c),
{
    let mut i: usize = 0;
    while i < cs.len()
        invariant
            i <= cs@.len(),
            forall|j: int| 0 <= j < i ==> cs@[j] != c,
        decreases cs.len() - i,
    {
        if cs[i] == c {
            assert(cs@[i as int] == c);
            return true;
        }
        i += 1;
    }
    false
}

/// The whitespace characters of Unicode (`White_Space` property).
pub open spec fn is_whitespace(c: char) -> bool {
    c == ' ' || c == '\t' || c == '\n' || c == '\x0B' || c == '\x0C' || c == '\r' || c == '\u{85}'
        || c == '\u{A0}' || c == '\u{1680}' || ('\u{2000}' <= c && c <= '\u{200A}') || c
        == '\u{2028}' || c == '\u{2029}' || c == '\u{202F}' || c == '\u{205F}' || c == '\u{3000}'
}

/// `char::is_whitespace`.
pub fn char_is_whitespace(c: char) -> (r: bool)
    ensures
        r == is_whitespace(c),
{
    c == ' ' || c == '\t' || c == '\n' || c == '\x0B' || c == '\x0C' || c == '\r' || c == '\u{85}'
        || c == '\u{A0}' || c == '\u{1680}' || ('\u{2000}' <= c && c <= '\u{200A}') || c
        == '\u{2028}' || c == '\u{2029}' || c == '\u{202F}' || c == '\u{205F}' || c == '\u{3000}'
}

} // verus!
