//! The stream adapter: holds the lexical state across chunks.
//!
//! [`StripComments`] wraps a pull-based byte source and filters each chunk
//! the source delivers. The caller pulls a chunk from the source into a
//! buffer and hands it to [`StripComments::strip_chunk`], which runs the
//! transducer over the chunk in place; when the source is exhausted,
//! [`StripComments::finish`] performs the end-of-stream check. The lexical
//! state persists across calls, so comments and strings may span chunk
//! boundaries.

use crate::errors::StripError;
use crate::transducer::{
    in_block_comment, in_comment, in_line_comment, in_string, lemma_length_invariant,
    lemma_ok_prefix_at_failure, lemma_scan_snoc, maybe_comment_end, ok_prefix_len, scan_ok,
    scan_out, scan_state, step_emit, step_ok, step_state, top, State,
};
use vstd::prelude::*;

verus! {

/// The result of the end-of-stream check for final state `s`.
///
/// A line comment may be closed by the input simply ending, so
/// `InLineComment` is accepted alongside `Top`; an open string (or a
/// dangling escape) and an open block comment (or a pending `/`) are
/// rejected.
pub open spec fn eos_check(s: State) -> Result<(), StripError> {
    match s {
        State::Top => Ok(()),
        State::InLineComment => Ok(()),
        State::InString => Err(StripError::IncompleteString),
        State::StringEscape => Err(StripError::IncompleteString),
        State::InComment => Err(StripError::IncompleteComment),
        State::InBlockComment => Err(StripError::IncompleteComment),
        State::MaybeCommentEnd => Err(StripError::IncompleteComment),
    }
}

/// A filter over a pull-based byte source that blanks comments out of the
/// bytes flowing through it.
///
/// The instance owns the wrapped source and holds the current lexical state
/// as its only other state. It starts in [`State::Top`]; after the first
/// reported error it is permanently failed and every further call returns
/// that same error.
pub struct StripComments<T> {
    inner: T,
    state: State,
    failed: Option<StripError>,
}

impl<T> StripComments<T> {
    /// The current lexical state: the context implied by all bytes filtered
    /// so far.
    pub closed spec fn lex(&self) -> State {
        self.state
    }

    /// The first error this filter reported, if any. Once set, it never
    /// changes.
    pub closed spec fn failure(&self) -> Option<StripError> {
        self.failed
    }

    /// The wrapped byte source. The filter holds it for its caller and
    /// never touches it itself.
    pub closed spec fn source(&self) -> T {
        self.inner
    }

    /// Wraps a byte source. The filter starts at top level with no error
    /// recorded.
    pub fn new(input: T) -> (r: Self)
        ensures
            r.lex() == State::Top,
            r.failure() is None,
            r.source() == input,
    {
        Self { inner: input, state: State::Top, failed: None }
    }

    /// Runs the transducer over `buf[0..count]` in place: every byte that
    /// belongs to a comment becomes a space, every other byte stays as it
    /// is, and the lexical state advances byte by byte and persists for the
    /// next chunk. Bytes past `count` are left untouched; the buffer never
    /// changes length.
    ///
    /// Where the chunk holds a top-level `/` not followed by `*` or `/`,
    /// the call stops at that byte: the accepted prefix is already
    /// filtered, the offending byte and everything after it are unchanged,
    /// the error is returned, and the filter is permanently failed. A
    /// filter that has already failed changes nothing and returns its first
    /// error again.
    #[verifier::loop_isolation(false)]
    pub fn strip_chunk(&mut self, buf: &mut Vec<u8>, count: usize) -> (r: Result<(), StripError>)
        requires
            count <= old(buf)@.len(),
        ensures
            final(buf)@.len() == old(buf)@.len(),
            final(self).source() == old(self).source(),
            ({
                let e = old(self).failure();
                e is Some ==> r == Err::<(), StripError>(e->0) && final(self).lex()
                    == old(self).lex() && final(self).failure() == e && final(buf)@ == old(buf)@
            }),
            ({
                let s0 = old(self).lex();
                let inp = old(buf)@.take(count as int);
                old(self).failure() is None && scan_ok(s0, inp) ==> r == Ok::<(), StripError>(())
                    && final(self).failure() is None && final(self).lex() == scan_state(s0, inp)
                    && final(buf)@ == scan_out(s0, inp) + old(buf)@.skip(count as int)
            }),
            ({
                let s0 = old(self).lex();
                let inp = old(buf)@.take(count as int);
                let j = ok_prefix_len(s0, inp) as int;
                old(self).failure() is None && !scan_ok(s0, inp) ==> r == Err::<(), StripError>(
                    StripError::UnexpectedForwardSlash,
                ) && final(self).failure() == Some(StripError::UnexpectedForwardSlash)
                    && final(self).lex() == scan_state(s0, inp.take(j)) && final(buf)@
                    == scan_out(s0, inp.take(j)) + old(buf)@.skip(j)
            }),
    {
        match self.failed {
            Some(e) => {
                return Err(e);
            },
            None => {},
        }
        let ghost s0 = self.state;
        let ghost inp = buf@.take(count as int);
        let mut i: usize = 0;
        while i < count
            invariant
                i <= count,
                buf@.len() == old(buf)@.len(),
                scan_ok(s0, inp.take(i as int)),
                self.state == scan_state(s0, inp.take(i as int)),
                self.failed is None,
                self.inner == old(self).inner,
                buf@ == scan_out(s0, inp.take(i as int)) + old(buf)@.skip(i as int),
            decreases count - i,
        {
            proof {
                lemma_length_invariant(s0, inp.take(i as int));
                assert(buf@[i as int] == old(buf)@[i as int]);
                assert(inp[i as int] == old(buf)@[i as int]);
            }
            let mut c: u8 = buf[i];
            let ghost s_cur = self.state;
            match self.state {
                State::Top => {
                    self.state = top(&mut c);
                },
                State::InString => {
                    self.state = in_string(c);
                },
                State::StringEscape => {
                    self.state = State::InString;
                },
                State::InComment => {
                    match in_comment(&mut c) {
                        Ok(next) => {
                            self.state = next;
                        },
                        Err(e) => {
                            self.failed = Some(e);
                            proof {
                                lemma_ok_prefix_at_failure(s0, inp, i as int);
                            }
                            return Err(e);
                        },
                    }
                },
                State::InBlockComment => {
                    self.state = in_block_comment(&mut c);
                },
                State::MaybeCommentEnd => {
                    self.state = maybe_comment_end(&mut c);
                },
                State::InLineComment => {
                    self.state = in_line_comment(&mut c);
                },
            }
            buf.set(i, c);
            proof {
                assert(step_ok(s_cur, inp[i as int]));
                assert(self.state == step_state(s_cur, inp[i as int]));
                assert(c == step_emit(s_cur, inp[i as int]));
                lemma_scan_snoc(s0, inp.take(i as int), inp[i as int]);
                assert(inp.take(i as int).push(inp[i as int]) =~= inp.take(i as int + 1));
                lemma_length_invariant(s0, inp.take(i as int + 1));
                assert(buf@ =~= scan_out(s0, inp.take(i as int + 1)) + old(buf)@.skip(
                    i as int + 1,
                ));
            }
            i = i + 1;
        }
        proof {
            assert(inp.take(count as int) =~= inp);
        }
        Ok(())
    }

    /// The end-of-stream check, to be called once the wrapped source is
    /// exhausted. Maps the final lexical state to a verdict as
    /// [`eos_check`] states, and marks the filter failed on a rejection.
    pub fn finish(&mut self) -> (r: Result<(), StripError>)
        ensures
            final(self).lex() == old(self).lex(),
            final(self).source() == old(self).source(),
            old(self).failure() matches Some(e) ==> r == Err::<(), StripError>(e),
            old(self).failure() is None ==> r == eos_check(old(self).lex()),
            final(self).failure() == (if r is Err {
                Some(r->Err_0)
            } else {
                None::<StripError>
            }),
    {
        match self.failed {
            Some(e) => Err(e),
            None => {
                match self.state {
                    State::Top => Ok(()),
                    State::InLineComment => Ok(()),
                    State::InString | State::StringEscape => {
                        self.failed = Some(StripError::IncompleteString);
                        Err(StripError::IncompleteString)
                    },
                    State::InComment | State::InBlockComment | State::MaybeCommentEnd => {
                        self.failed = Some(StripError::IncompleteComment);
                        Err(StripError::IncompleteComment)
                    },
                }
            },
        }
    }
}

} // verus!
