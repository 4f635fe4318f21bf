//! The per-byte finite-state transducer.
//!
//! Given the current lexical state and one input byte, the transducer yields
//! the next lexical state and decides whether the byte is emitted unchanged
//! or blanked (replaced by a space). The spec functions [`step_state`],
//! [`step_blanks`], [`step_emit`] and [`step_ok`] state the full transition
//! table; the exec functions ([`top`], [`in_string`], [`in_comment`],
//! [`in_block_comment`], [`maybe_comment_end`], [`in_line_comment`]) are
//! proved against them. [`scan_state`], [`scan_ok`] and [`scan_out`] lift
//! the single step to whole byte sequences.

use crate::errors::StripError;
use vstd::prelude::*;

verus! {

/// ASCII double quote, `"`.
pub const QUOTE: u8 = 34;

/// ASCII backslash, `\`.
pub const BACKSLASH: u8 = 92;

/// ASCII forward slash, `/`.
pub const SLASH: u8 = 47;

/// ASCII asterisk, `*`.
pub const STAR: u8 = 42;

/// ASCII number sign, `#`.
pub const HASH: u8 = 35;

/// ASCII line feed.
pub const NEWLINE: u8 = 10;

/// ASCII space: the byte that replaces every comment byte.
pub const SPACE: u8 = 32;

/// The lexical context at a position of the input stream.
///
/// `Top` is the initial state. No state is terminal: only the end-of-stream
/// check cares which state the input left the transducer in.
#[derive(Clone, Copy, Debug, PartialEq, Eq, Structural)]
pub enum State {
    /// Outside of any string or comment.
    Top,
    /// Inside a double-quoted string literal.
    InString,
    /// Inside a string literal, immediately after a backslash.
    StringEscape,
    /// Immediately after a `/` seen at top level; the next byte decides
    /// which comment form begins (or the input is rejected).
    InComment,
    /// Inside a `/* ... */` block comment.
    InBlockComment,
    /// Inside a block comment, immediately after a `*`.
    MaybeCommentEnd,
    /// Inside a `// ...` or `# ...` line comment.
    InLineComment,
}

/// Whether the transducer accepts byte `c` in state `s`. The only rejection:
/// a byte other than `*` or `/` right after a top-level `/`.
pub open spec fn step_ok(s: State, c: u8) -> bool {
    match s {
        State::InComment => c == STAR || c == SLASH,
        _ => true,
    }
}

/// The state after consuming byte `c` in state `s`.
///
/// (For the rejected combination, `InComment` with a byte that is neither
/// `*` nor `/`, the value is immaterial; every use is guarded by
/// [`step_ok`].)
pub open spec fn step_state(s: State, c: u8) -> State {
    match s {
        State::Top => {
            if c == QUOTE {
                State::InString
            } else if c == SLASH {
                State::InComment
            } else if c == HASH {
                State::InLineComment
            } else {
                State::Top
            }
        },
        State::InString => {
            if c == QUOTE {
                State::Top
            } else if c == BACKSLASH {
                State::StringEscape
            } else {
                State::InString
            }
        },
        State::StringEscape => State::InString,
        State::InComment => {
            if c == STAR {
                State::InBlockComment
            } else {
                State::InLineComment
            }
        },
        State::InBlockComment => {
            if c == STAR {
                State::MaybeCommentEnd
            } else {
                State::InBlockComment
            }
        },
        State::MaybeCommentEnd => {
            if c == SLASH {
                State::Top
            } else {
                State::InBlockComment
            }
        },
        State::InLineComment => {
            if c == NEWLINE {
                State::Top
            } else {
                State::InLineComment
            }
        },
    }
}

/// Whether byte `c` consumed in state `s` belongs to a comment and is
/// therefore blanked. A newline ending a line comment is not part of the
/// comment; string content never is.
pub open spec fn step_blanks(s: State, c: u8) -> bool {
    match s {
        State::Top => c == SLASH || c == HASH,
        State::InString => false,
        State::StringEscape => false,
        State::InComment => true,
        State::InBlockComment => true,
        State::MaybeCommentEnd => true,
        State::InLineComment => c != NEWLINE,
    }
}

/// The byte emitted for input byte `c` consumed in state `s`: a space where
/// the byte belongs to a comment, the byte itself everywhere else.
pub open spec fn step_emit(s: State, c: u8) -> u8 {
    if step_blanks(s, c) {
        SPACE
    } else {
        c
    }
}

/// Whether every byte of `inp`, consumed from state `s` on, is accepted.
pub open spec fn scan_ok(s: State, inp: Seq<u8>) -> bool
    decreases inp.len(),
{
    inp.len() == 0 || (step_ok(s, inp[0]) && scan_ok(step_state(s, inp[0]), inp.drop_first()))
}

/// The state after consuming all of `inp` from state `s`.
pub open spec fn scan_state(s: State, inp: Seq<u8>) -> State
    decreases inp.len(),
{
    if inp.len() == 0 {
        s
    } else {
        scan_state(step_state(s, inp[0]), inp.drop_first())
    }
}

/// The bytes emitted for `inp` consumed from state `s`: each input byte
/// either unchanged or blanked, in its original position.
pub open spec fn scan_out(s: State, inp: Seq<u8>) -> Seq<u8>
    decreases inp.len(),
{
    if inp.len() == 0 {
        Seq::empty()
    } else {
        seq![step_emit(s, inp[0])] + scan_out(step_state(s, inp[0]), inp.drop_first())
    }
}

/// The length of the longest prefix of `inp` that is accepted from state
/// `s`; equals `inp.len()` exactly when the whole of `inp` is accepted.
pub open spec fn ok_prefix_len(s: State, inp: Seq<u8>) -> nat
    decreases inp.len(),
{
    if inp.len() == 0 {
        0
    } else if !step_ok(s, inp[0]) {
        0
    } else {
        1 + ok_prefix_len(step_state(s, inp[0]), inp.drop_first())
    }
}

proof fn lemma_take_drop_first(inp: Seq<u8>, i: int)
    requires
        1 <= i <= inp.len(),
    ensures
        inp.take(i).drop_first() == inp.drop_first().take(i - 1),
{
    assert(inp.take(i).drop_first() =~= inp.drop_first().take(i - 1));
}

/// Length invariant: the output of a scan has exactly the length of its
/// input. Every input byte is emitted, either unchanged or as a space, in
/// its original position; nothing is inserted, deleted or reordered.
pub proof fn lemma_length_invariant(s: State, inp: Seq<u8>)
    ensures
        scan_out(s, inp).len() == inp.len(),
    decreases inp.len(),
{
    if inp.len() > 0 {
        lemma_length_invariant(step_state(s, inp[0]), inp.drop_first());
    }
}

/// Chunk independence: scanning a concatenation is the same as scanning the
/// first part and then scanning the second from the state the first part
/// left behind. Splitting an input into arbitrarily many chunks and
/// concatenating the outputs therefore yields the same bytes, the same
/// final state, and the same verdict as scanning it whole.
pub proof fn lemma_chunk_independence(s: State, a: Seq<u8>, b: Seq<u8>)
    ensures
        scan_ok(s, a + b) == (scan_ok(s, a) && scan_ok(scan_state(s, a), b)),
        scan_state(s, a + b) == scan_state(scan_state(s, a), b),
        scan_out(s, a + b) == scan_out(s, a) + scan_out(scan_state(s, a), b),
    decreases a.len(),
{
    if a.len() == 0 {
        assert(a + b =~= b);
        assert(scan_out(s, a) + scan_out(scan_state(s, a), b) =~= scan_out(s, b));
    } else {
        let s1 = step_state(s, a[0]);
        assert((a + b).drop_first() =~= a.drop_first() + b);
        lemma_chunk_independence(s1, a.drop_first(), b);
        let tail_out = scan_out(s1, a.drop_first());
        let rest_out = scan_out(scan_state(s1, a.drop_first()), b);
        assert(seq![step_emit(s, a[0])] + (tail_out + rest_out) =~= (seq![step_emit(s, a[0])]
            + tail_out) + rest_out);
    }
}

/// Appending one byte to a scanned prefix advances the scan by one step.
pub proof fn lemma_scan_snoc(s: State, inp: Seq<u8>, c: u8)
    ensures
        scan_state(s, inp.push(c)) == step_state(scan_state(s, inp), c),
        scan_ok(s, inp.push(c)) == (scan_ok(s, inp) && step_ok(scan_state(s, inp), c)),
        scan_out(s, inp.push(c)) == scan_out(s, inp).push(step_emit(scan_state(s, inp), c)),
{
    reveal_with_fuel(scan_ok, 3);
    reveal_with_fuel(scan_state, 3);
    reveal_with_fuel(scan_out, 3);
    let e = scan_state(s, inp);
    assert(inp.push(c) =~= inp + seq![c]);
    lemma_chunk_independence(s, inp, seq![c]);
    assert(seq![c].drop_first() =~= Seq::<u8>::empty());
    assert(seq![c][0] == c);
    assert(scan_out(e, seq![c]) =~= seq![step_emit(e, c)]);
    assert(scan_out(s, inp) + seq![step_emit(e, c)] =~= scan_out(s, inp).push(step_emit(e, c)));
}

/// Each output byte depends only on the lexical state reached just before
/// it and on the input byte at its own position.
pub proof fn lemma_scan_out_at(s: State, inp: Seq<u8>, i: int)
    requires
        0 <= i < inp.len(),
    ensures
        scan_out(s, inp)[i] == step_emit(scan_state(s, inp.take(i)), inp[i]),
    decreases inp.len(),
{
    lemma_length_invariant(step_state(s, inp[0]), inp.drop_first());
    if i == 0 {
        assert(inp.take(0) =~= Seq::<u8>::empty());
    } else {
        let s1 = step_state(s, inp[0]);
        lemma_scan_out_at(s1, inp.drop_first(), i - 1);
        lemma_take_drop_first(inp, i);
        assert(inp.take(i)[0] == inp[0]);
        assert(scan_state(s, inp.take(i)) == scan_state(s1, inp.drop_first().take(i - 1)));
        assert(scan_out(s, inp)[i] == scan_out(s1, inp.drop_first())[i - 1]);
        assert(inp.drop_first()[i - 1] == inp[i]);
    }
}

/// Blanking: the byte at position `i` of the output is a space exactly when
/// the input byte at `i` is part of a comment (that is, [`step_blanks`]
/// holds of it in the state its prefix leads to), and is the input byte
/// itself everywhere else. No byte outside a comment is altered.
pub proof fn lemma_blanking(s: State, inp: Seq<u8>, i: int)
    requires
        0 <= i < inp.len(),
    ensures
        step_blanks(scan_state(s, inp.take(i)), inp[i]) ==> scan_out(s, inp)[i] == SPACE,
        !step_blanks(scan_state(s, inp.take(i)), inp[i]) ==> scan_out(s, inp)[i] == inp[i],
{
    lemma_scan_out_at(s, inp, i);
}

/// String opacity: a byte consumed inside a string literal (in `InString`
/// or `StringEscape`) is reproduced unchanged in the output, whatever it
/// is; comment syntax inside a string is ordinary content.
pub proof fn lemma_string_opacity(s: State, inp: Seq<u8>, i: int)
    requires
        0 <= i < inp.len(),
        scan_state(s, inp.take(i)) == State::InString || scan_state(s, inp.take(i))
            == State::StringEscape,
    ensures
        scan_out(s, inp)[i] == inp[i],
{
    lemma_scan_out_at(s, inp, i);
}

/// Escape transparency: a backslash inside a string consumes exactly one
/// following byte and returns to the string body, so a backslash-escaped
/// quote does not terminate the string, and both bytes pass through
/// unchanged.
pub proof fn lemma_escape_transparency(c: u8)
    ensures
        scan_ok(State::InString, seq![BACKSLASH, c]),
        scan_state(State::InString, seq![BACKSLASH, c]) == State::InString,
        scan_out(State::InString, seq![BACKSLASH, c]) == seq![BACKSLASH, c],
{
    reveal_with_fuel(scan_ok, 4);
    reveal_with_fuel(scan_state, 4);
    reveal_with_fuel(scan_out, 4);
    let pair = seq![BACKSLASH, c];
    assert(pair.drop_first() =~= seq![c]);
    assert(seq![c].drop_first() =~= Seq::<u8>::empty());
    assert(scan_out(State::InString, pair) =~= seq![BACKSLASH, c]);
}

/// The accepted prefix: the first `ok_prefix_len` bytes scan without error;
/// the whole input is accepted exactly when that length is the input's; and
/// where it is shorter, the byte right after the accepted prefix is the one
/// the transducer rejects.
pub proof fn lemma_ok_prefix(s: State, inp: Seq<u8>)
    ensures
        ok_prefix_len(s, inp) <= inp.len(),
        scan_ok(s, inp) <==> ok_prefix_len(s, inp) == inp.len(),
        scan_ok(s, inp.take(ok_prefix_len(s, inp) as int)),
        ok_prefix_len(s, inp) < inp.len() ==> !step_ok(
            scan_state(s, inp.take(ok_prefix_len(s, inp) as int)),
            inp[ok_prefix_len(s, inp) as int],
        ),
    decreases inp.len(),
{
    let j = ok_prefix_len(s, inp) as int;
    if inp.len() == 0 {
        assert(inp.take(0) =~= Seq::<u8>::empty());
    } else if !step_ok(s, inp[0]) {
        assert(inp.take(0) =~= Seq::<u8>::empty());
    } else {
        let s1 = step_state(s, inp[0]);
        lemma_ok_prefix(s1, inp.drop_first());
        lemma_take_drop_first(inp, j);
        assert(inp.take(j)[0] == inp[0]);
        assert(scan_state(s, inp.take(j)) == scan_state(s1, inp.drop_first().take(j - 1)));
        if j < inp.len() {
            assert(inp.drop_first()[j - 1] == inp[j]);
        }
    }
}

/// Where a scanned prefix of length `i` is accepted and the byte at `i` is
/// rejected, `i` is exactly the accepted prefix length, and the whole input
/// is not accepted.
pub proof fn lemma_ok_prefix_at_failure(s: State, inp: Seq<u8>, i: int)
    requires
        0 <= i < inp.len(),
        scan_ok(s, inp.take(i)),
        !step_ok(scan_state(s, inp.take(i)), inp[i]),
    ensures
        ok_prefix_len(s, inp) == i,
        !scan_ok(s, inp),
    decreases inp.len(),
{
    if i == 0 {
        assert(inp.take(0) =~= Seq::<u8>::empty());
    } else {
        let s1 = step_state(s, inp[0]);
        lemma_take_drop_first(inp, i);
        assert(inp.take(i)[0] == inp[0]);
        assert(scan_state(s, inp.take(i)) == scan_state(s1, inp.drop_first().take(i - 1)));
        assert(inp.drop_first()[i - 1] == inp[i]);
        lemma_ok_prefix_at_failure(s1, inp.drop_first(), i - 1);
    }
}

/// Handles one byte seen at top level: a quote opens a string, a `/` opens
/// comment detection (blanked), a `#` opens a line comment (blanked), and
/// everything else stays at top level unchanged.
pub fn top(c: &mut u8) -> (s: State)
    ensures
        s == step_state(State::Top, *old(c)),
        *final(c) == step_emit(State::Top, *old(c)),
{
    if *c == QUOTE {
        State::InString
    } else if *c == SLASH {
        *c = SPACE;
        State::InComment
    } else if *c == HASH {
        *c = SPACE;
        State::InLineComment
    } else {
        State::Top
    }
}

/// Handles one byte inside a string literal: a quote closes the string, a
/// backslash starts an escape, everything else is string content. The byte
/// is always emitted unchanged.
pub fn in_string(c: u8) -> (s: State)
    ensures
        s == step_state(State::InString, c),
{
    if c == QUOTE {
        State::Top
    } else if c == BACKSLASH {
        State::StringEscape
    } else {
        State::InString
    }
}

/// Handles the byte right after a top-level `/`: `*` opens a block comment,
/// `/` opens a line comment (both blanked), and any other byte is a lexical
/// error, left in place.
pub fn in_comment(c: &mut u8) -> (r: Result<State, StripError>)
    ensures
        step_ok(State::InComment, *old(c)) ==> r == Ok::<State, StripError>(
            step_state(State::InComment, *old(c)),
        ) && *final(c) == step_emit(State::InComment, *old(c)),
        !step_ok(State::InComment, *old(c)) ==> r == Err::<State, StripError>(
            StripError::UnexpectedForwardSlash,
        ) && *final(c) == *old(c),
{
    let new_state: State = if *c == STAR {
        State::InBlockComment
    } else if *c == SLASH {
        State::InLineComment
    } else {
        return Err(StripError::UnexpectedForwardSlash);
    };
    *c = SPACE;
    Ok(new_state)
}

/// Handles one byte inside a block comment: a `*` makes the comment a
/// candidate for closing. Every byte is blanked.
pub fn in_block_comment(c: &mut u8) -> (s: State)
    ensures
        s == step_state(State::InBlockComment, *old(c)),
        *final(c) == step_emit(State::InBlockComment, *old(c)),
{
    let old_c: u8 = *c;
    *c = SPACE;
    if old_c == STAR {
        State::MaybeCommentEnd
    } else {
        State::InBlockComment
    }
}

/// Handles the byte right after a `*` inside a block comment: a `/` closes
/// the comment, any other byte falls back to the comment body. Every byte is
/// blanked.
pub fn maybe_comment_end(c: &mut u8) -> (s: State)
    ensures
        s == step_state(State::MaybeCommentEnd, *old(c)),
        *final(c) == step_emit(State::MaybeCommentEnd, *old(c)),
{
    let old_c: u8 = *c;
    *c = SPACE;
    if old_c == SLASH {
        State::Top
    } else {
        State::InBlockComment
    }
}

/// Handles one byte inside a line comment: a newline closes the comment and
/// is emitted unchanged; every other byte is blanked.
pub fn in_line_comment(c: &mut u8) -> (s: State)
    ensures
        s == step_state(State::InLineComment, *old(c)),
        *final(c) == step_emit(State::InLineComment, *old(c)),
{
    if *c == NEWLINE {
        State::Top
    } else {
        *c = SPACE;
        State::InLineComment
    }
}

} // verus!
