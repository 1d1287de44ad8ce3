//! The engine's input collaborator: a pending-character buffer drained from
//! the front, with an end-of-stream sentinel and optional sanitization of
//! trailing line endings.

use vstd::prelude::*;

use crate::interpreter::{to_chars, BfInput};

verus! {

/// A sequence with every trailing line feed and carriage return removed.
pub open spec fn strip_trailing_newlines(s: Seq<char>) -> Seq<char>
    decreases s.len(),
{
    if s.len() > 0 && (s.last() == '\n' || s.last() == '\r') {
        strip_trailing_newlines(s.drop_last())
    } else {
        s
    }
}

/// What a buffer holds after being loaded with `s`: sanitized when the
/// source is configured to do so, the text as given otherwise.
pub open spec fn loaded_buffer(s: Seq<char>, sanitize: bool) -> Seq<char> {
    if sanitize {
        strip_trailing_newlines(s)
    } else {
        s
    }
}

/// The characters that `k` successive reads of a buffered source that is
/// never refilled return: the pending characters front to back, then the
/// end-of-stream sentinel on every further read.
pub open spec fn buffered_trace(pending: Seq<char>, eof: char, k: nat) -> Seq<char> {
    Seq::new(k, |i: int| if i < pending.len() { pending[i] } else { eof })
}

/// What is left pending after `k` reads of such a source.
pub open spec fn remaining_after(pending: Seq<char>, k: nat) -> Seq<char> {
    if k < pending.len() {
        pending.skip(k as int)
    } else {
        Seq::empty()
    }
}

/// A source of input characters: a pending buffer delivered front to back,
/// then (for a non-interactive source) an end-of-stream sentinel on every
/// further read. An interactive embedding refills the buffer through
/// `append_line` between reads.
pub struct InputSource {
    buffer: Vec<char>,
    eof_character: char,
    is_interactive: bool,
    should_sanitize: bool,
}

impl InputSource {
    /// The characters still pending, front first.
    pub closed spec fn pending(&self) -> Seq<char> {
        self.buffer@
    }

    /// The character returned once no input is left.
    pub closed spec fn eof(&self) -> char {
        self.eof_character
    }

    /// Whether the embedding is expected to refill the buffer from a live
    /// channel when it runs dry.
    pub closed spec fn interactive(&self) -> bool {
        self.is_interactive
    }

    /// Whether trailing line endings are stripped from loaded text.
    pub closed spec fn sanitize_enabled(&self) -> bool {
        self.should_sanitize
    }

    /// Build a source preloaded with `input`, sanitized when so configured.
    pub fn from(input: &String, eof: char, is_interactive: bool, should_sanitize: bool) -> (r:
        Self)
        ensures
            r.pending() == loaded_buffer(input@, should_sanitize),
            r.eof() == eof,
            r.interactive() == is_interactive,
            r.sanitize_enabled() == should_sanitize,
    {
        let mut instance = Self {
            buffer: to_chars(input.as_str()),
            eof_character: eof,
            is_interactive,
            should_sanitize,
        };

        instance.sanitize_buffer();

        instance
    }

    /// Strip trailing line endings from the pending buffer, when the source
    /// is configured to sanitize; otherwise leave it as it is.
    pub fn sanitize_buffer(&mut self)
        ensures
            final(self).pending() == loaded_buffer(old(self).pending(), old(self).sanitize_enabled()),
            final(self).eof() == old(self).eof(),
            final(self).interactive() == old(self).interactive(),
            final(self).sanitize_enabled() == old(self).sanitize_enabled(),
    {
        if !self.should_sanitize {
            return ;
        }

        while self.buffer.len() > 0 && (self.buffer[self.buffer.len() - 1] == '\n'
            || self.buffer[self.buffer.len() - 1] == '\r')
            invariant
                strip_trailing_newlines(self.buffer@) == strip_trailing_newlines(
                    old(self).pending(),
                ),
                self.eof_character == old(self).eof_character,
                self.is_interactive == old(self).is_interactive,
                self.should_sanitize == old(self).should_sanitize,
            decreases self.buffer@.len(),
        {
            self.buffer.pop();
        }
    }

    /// Append one more line of text to the pending buffer and sanitize it
    /// again, the refill an interactive embedding performs when the buffer
    /// has run dry.
    pub fn append_line(&mut self, line: &str)
        ensures
            final(self).pending() == loaded_buffer(
                old(self).pending() + line@,
                old(self).sanitize_enabled(),
            ),
            final(self).eof() == old(self).eof(),
            final(self).interactive() == old(self).interactive(),
            final(self).sanitize_enabled() == old(self).sanitize_enabled(),
    {
        let mut rest = to_chars(line);
        self.buffer.append(&mut rest);
        self.sanitize_buffer();
    }

    /// Whether any characters are still pending.
    pub fn has_pending(&self) -> (r: bool)
        ensures
            r == (self.pending().len() > 0),
    {
        self.buffer.len() > 0
    }

    /// Whether the embedding should refill this source from a live channel.
    pub fn is_interactive(&self) -> (r: bool)
        ensures
            r == self.interactive(),
    {
        self.is_interactive
    }
}

impl BfInput for InputSource {
    /// Pop and return the front pending character; once the buffer is empty,
    /// return the end-of-stream sentinel and change nothing, on this and
    /// every later read.
    fn read(&mut self) -> (c: char)
        ensures
            old(self).pending().len() > 0 ==> c == old(self).pending()[0] && final(self).pending()
                == old(self).pending().drop_first(),
            old(self).pending().len() == 0 ==> c == old(self).eof() && final(self).pending()
                == old(self).pending(),
            final(self).eof() == old(self).eof(),
            final(self).interactive() == old(self).interactive(),
            final(self).sanitize_enabled() == old(self).sanitize_enabled(),
    {
        if self.buffer.len() > 0 {
            let c = self.buffer.remove(0);
            proof {
                assert(self.buffer@ =~= old(self).buffer@.drop_first());
            }
            return c;
        }

        self.eof_character
    }
}

} // verus!
