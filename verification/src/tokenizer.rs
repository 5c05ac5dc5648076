//! Splitting raw text into lexemes: numeric literals, alphabetic words, and
//! single pieces of punctuation, with whitespace skipped between them.

use vstd::prelude::*;
use vstd::string::StrSliceExecFns;

verus! {

/// A lexeme: an identifier (an alphabetic word or a single piece of
/// punctuation), or a numeric literal.
pub enum Lexeme {
    Ident(String),
    Numeric(String),
}

impl From<String> for Lexeme {
    /// A bare string becomes an identifier lexeme.
    fn from(value: String) -> (r: Self) {
        Lexeme::Ident(value)
    }
}

impl vstd::std_specs::convert::FromSpecImpl<String> for Lexeme {
    open spec fn obeys_from_spec() -> bool {
        true
    }

    open spec fn from_spec(v: String) -> Self {
        Lexeme::Ident(v)
    }
}

/// Whether a character has the Unicode white-space property.  Named for
/// `char::is_whitespace`, whose result depends on the character alone.
pub uninterp spec fn is_unicode_whitespace(c: char) -> bool;

/// Relies on char::is_whitespace: whether `c` has the Unicode `White_Space`
/// property, a fixed classification of the character alone.
#[verifier::external_body]
fn char_is_whitespace(c: char) -> (r: bool)
    ensures
        r == is_unicode_whitespace(c),
{
    c.is_whitespace()
}

/// Relies on String's FromIterator of chars: collecting characters yields the
/// string holding exactly those characters in order.
#[verifier::external_body]
fn chars_to_string(v: &Vec<char>) -> (r: String)
    ensures
        r@ == v@,
{
    v.iter().collect()
}

/// Whether a character continues a numeric lexeme: an ASCII digit or a dot.
pub open spec fn spec_is_numeric(c: char) -> bool {
    (48 <= c as u32 && c as u32 <= 57) || c as u32 == 46
}

/// Whether a character continues a word lexeme: an ASCII letter.
pub open spec fn spec_is_alphabetic(c: char) -> bool {
    (65 <= c as u32 && c as u32 <= 90) || (97 <= c as u32 && c as u32 <= 122)
}

/// The first position at or after `i` that does not continue a numeric
/// lexeme.
pub open spec fn spec_numeric_end(cs: Seq<char>, i: int) -> int
    decreases cs.len() - i,
{
    if i < 0 || i >= cs.len() {
        i
    } else if spec_is_numeric(cs[i]) {
        spec_numeric_end(cs, i + 1)
    } else {
        i
    }
}

/// The first position at or after `i` that does not continue a word lexeme.
pub open spec fn spec_word_end(cs: Seq<char>, i: int) -> int
    decreases cs.len() - i,
{
    if i < 0 || i >= cs.len() {
        i
    } else if spec_is_alphabetic(cs[i]) {
        spec_word_end(cs, i + 1)
    } else {
        i
    }
}

/// The first position at or after `i` that holds no white-space character.
pub open spec fn spec_whitespace_end(cs: Seq<char>, i: int) -> int
    decreases cs.len() - i,
{
    if i < 0 || i >= cs.len() {
        i
    } else if is_unicode_whitespace(cs[i]) {
        spec_whitespace_end(cs, i + 1)
    } else {
        i
    }
}

/// A cursor over the characters of one piece of text.
pub struct Tokenizer {
    pub chars: Vec<char>,
    pub pos: usize,
}

/// Turn a piece of text into a lexeme cursor positioned at its start.
pub trait Tokenizable {
    fn tokens(self) -> Tokenizer;
}

/// The characters of a string, in order.
fn collect_chars(s: &str) -> (r: Vec<char>)
    ensures
        r@ == s@,
{
    let n = s.unicode_len();
    let mut v: Vec<char> = Vec::new();
    let mut i: usize = 0;
    while i < n
        invariant
            n == s@.len(),
            i <= n,
            v@ == s@.take(i as int),
        decreases n - i,
    {
        let c = s.get_char(i);
        v.push(c);
        proof {
            assert(v@ =~= s@.take(i + 1));
        }
        i += 1;
    }
    proof {
        assert(s@.take(n as int) =~= s@);
    }
    v
}

impl Tokenizable for &str {
    fn tokens(self) -> (t: Tokenizer)
        ensures
            t.chars@ == self@,
            t.pos == 0,
    {
        Tokenizer { chars: collect_chars(self), pos: 0 }
    }
}

impl Tokenizer {
    /// Whether this cursor's position lies within its text.
    pub open spec fn wf(self) -> bool {
        self.pos <= self.chars@.len()
    }

    /// Whether a character continues a numeric lexeme.
    pub fn is_numeric(c: &char) -> (r: bool)
        ensures
            r == spec_is_numeric(*c),
    {
        let u = *c as u32;
        (48 <= u && u <= 57) || u == 46
    }

    /// Whether a character continues a word lexeme.
    fn is_alphabetic(c: &char) -> (r: bool)
        ensures
            r == spec_is_alphabetic(*c),
    {
        let u = *c as u32;
        (65 <= u && u <= 90) || (97 <= u && u <= 122)
    }

    /// Collect the numeric lexeme starting at the current position: every
    /// consecutive digit or dot, as one `Numeric`.
    pub fn number(&mut self) -> (r: Lexeme)
        requires
            old(self).wf(),
        ensures
            final(self).wf(),
            final(self).chars == old(self).chars,
            final(self).pos == spec_numeric_end(old(self).chars@, old(self).pos as int),
            r matches Lexeme::Numeric(s) && s@ == old(self).chars@.subrange(
                old(self).pos as int,
                final(self).pos as int,
            ),
    {
        let ghost cs = self.chars@;
        let ghost start = self.pos as int;
        let mut collected: Vec<char> = Vec::new();
        proof {
            assert(collected@ =~= cs.subrange(start, start));
        }
        while self.pos < self.chars.len() && Tokenizer::is_numeric(&self.chars[self.pos])
            invariant
                self.wf(),
                self.chars == old(self).chars,
                cs == self.chars@,
                start == old(self).pos as int,
                start <= self.pos as int <= cs.len(),
                spec_numeric_end(cs, start) == spec_numeric_end(cs, self.pos as int),
                collected@ == cs.subrange(start, self.pos as int),
            decreases cs.len() - self.pos,
        {
            let c = self.chars[self.pos];
            collected.push(c);
            proof {
                assert(collected@ =~= cs.subrange(start, self.pos + 1));
            }
            self.pos = self.pos + 1;
        }
        proof {
            assert(spec_numeric_end(cs, self.pos as int) == self.pos as int);
        }
        Lexeme::Numeric(chars_to_string(&collected))
    }

    /// Collect the word lexeme starting at the current position: every
    /// consecutive ASCII letter, as one `Ident`.
    pub fn word(&mut self) -> (r: Lexeme)
        requires
            old(self).wf(),
        ensures
            final(self).wf(),
            final(self).chars == old(self).chars,
            final(self).pos == spec_word_end(old(self).chars@, old(self).pos as int),
            r matches Lexeme::Ident(s) && s@ == old(self).chars@.subrange(
                old(self).pos as int,
                final(self).pos as int,
            ),
    {
        let ghost cs = self.chars@;
        let ghost start = self.pos as int;
        let mut collected: Vec<char> = Vec::new();
        proof {
            assert(collected@ =~= cs.subrange(start, start));
        }
        while self.pos < self.chars.len() && Tokenizer::is_alphabetic(&self.chars[self.pos])
            invariant
                self.wf(),
                self.chars == old(self).chars,
                cs == self.chars@,
                start == old(self).pos as int,
                start <= self.pos as int <= cs.len(),
                spec_word_end(cs, start) == spec_word_end(cs, self.pos as int),
                collected@ == cs.subrange(start, self.pos as int),
            decreases cs.len() - self.pos,
        {
            let c = self.chars[self.pos];
            collected.push(c);
            proof {
                assert(collected@ =~= cs.subrange(start, self.pos + 1));
            }
            self.pos = self.pos + 1;
        }
        proof {
            assert(spec_word_end(cs, self.pos as int) == self.pos as int);
        }
        Lexeme::from(chars_to_string(&collected))
    }

    /// The next lexeme of the text, or `None` once only white space remains.
    /// White space is skipped; a digit or dot starts a numeric lexeme, a
    /// letter starts a word, and any other character is an identifier of its
    /// own.
    pub fn next(&mut self) -> (r: Option<Lexeme>)
        requires
            old(self).wf(),
        ensures
            final(self).wf(),
            final(self).chars == old(self).chars,
            ({
                let cs = old(self).chars@;
                let w = spec_whitespace_end(cs, old(self).pos as int);
                if w == cs.len() {
                    r is None && final(self).pos == cs.len()
                } else if spec_is_numeric(cs[w]) {
                    &&& final(self).pos == spec_numeric_end(cs, w)
                    &&& r matches Some(Lexeme::Numeric(s)) && s@ == cs.subrange(
                        w,
                        final(self).pos as int,
                    )
                } else if spec_is_alphabetic(cs[w]) {
                    &&& final(self).pos == spec_word_end(cs, w)
                    &&& r matches Some(Lexeme::Ident(s)) && s@ == cs.subrange(
                        w,
                        final(self).pos as int,
                    )
                } else {
                    &&& final(self).pos == w + 1
                    &&& r matches Some(Lexeme::Ident(s)) && s@ == seq![cs[w]]
                }
            }),
    {
        let ghost cs = self.chars@;
        let ghost start = self.pos as int;
        while self.pos < self.chars.len() && char_is_whitespace(self.chars[self.pos])
            invariant
                self.wf(),
                self.chars == old(self).chars,
                cs == self.chars@,
                start == old(self).pos as int,
                start <= self.pos as int <= cs.len(),
                spec_whitespace_end(cs, start) == spec_whitespace_end(cs, self.pos as int),
            decreases cs.len() - self.pos,
        {
            self.pos = self.pos + 1;
        }
        proof {
            assert(spec_whitespace_end(cs, self.pos as int) == self.pos as int);
        }
        if self.pos == self.chars.len() {
            return None;
        }
        let c = self.chars[self.pos];
        if Tokenizer::is_numeric(&c) {
            Some(self.number())
        } else if Tokenizer::is_alphabetic(&c) {
            Some(self.word())
        } else {
            self.pos = self.pos + 1;
            let single: Vec<char> = vec![c];
            proof {
                assert(single@ =~= seq![cs[start + (self.pos - 1 - start)]]);
            }
            Some(Lexeme::from(chars_to_string(&single)))
        }
    }
}

} // verus!
