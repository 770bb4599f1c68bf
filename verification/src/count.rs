//! The counting accumulator: the per-source result record, the transient
//! scan state carried between chunks, and the verified per-chunk update.

use vstd::prelude::*;
use vstd::slice::slice_to_vec;
use vstd::string::StrSliceExecFns;

use crate::scan::count_newlines;
use crate::scan::count_words;
use crate::scan::word_state;
use crate::scan::lead_len;
use crate::scan::is_cont;
use crate::scan::second_ok;
use crate::scan::cont_run;
use crate::scan::step_size;
use crate::scan::is_incomplete;
use crate::scan::stream_count;
use crate::scan::stream_rest;

verus! {

/// The tally of one source: how many line terminators, words, bytes and
/// decoded characters it held. The name is carried for display only.
#[derive(Debug, Clone)]
pub struct ResultOutput {
    pub name: String,
    pub line_count: usize,
    pub word_count: usize,
    pub byte_count: usize,
    pub character_count: usize,
}

impl ResultOutput {
    /// A fresh record for a source about to stream: all counters zero.
    pub fn new(file_name: String) -> (r: Self)
        ensures
            r.name == file_name,
            r.line_count == 0,
            r.word_count == 0,
            r.byte_count == 0,
            r.character_count == 0,
    {
        ResultOutput {
            name: file_name,
            line_count: 0,
            word_count: 0,
            byte_count: 0,
            character_count: 0,
        }
    }
}

/// Transient state carried between the chunks of one source and never
/// shared across sources: whether the scan stands inside a word, and the
/// bytes of an incomplete character encoding held back at a chunk edge.
pub struct ScanState {
    pub in_word: bool,
    pub pending: Vec<u8>,
}

impl ScanState {
    /// The state at the start of a source: outside any word, nothing held.
    pub fn new() -> (r: Self)
        ensures
            !r.in_word,
            r.pending@.len() == 0,
    {
        ScanState { in_word: false, pending: Vec::new() }
    }
}

/// The record invariant kept while a source streams: no counter outruns the
/// byte count, and the bytes held back at a chunk edge are consumed but not
/// yet counted as a character.
pub open spec fn counts_wf(r: ResultOutput, st: ScanState) -> bool {
    &&& r.line_count <= r.byte_count
    &&& r.word_count <= r.byte_count
    &&& r.character_count + st.pending@.len() <= r.byte_count
}

/// Scans a chunk for words from a given word-scan state; returns the number
/// of words begun in the chunk and the state after the chunk.
pub fn get_word_count_in_buffer(buffer: &[u8], in_word: bool) -> (r: (usize, bool))
    ensures
        r.0 == count_words(buffer@, in_word),
        r.1 == word_state(buffer@, in_word),
        r.0 <= buffer@.len(),
{
    let mut word_count: usize = 0;
    let mut on_word = in_word;
    let mut i: usize = 0;
    proof {
        assert(buffer@.skip(0) =~= buffer@);
    }
    while i < buffer.len()
        invariant
            i <= buffer@.len(),
            word_count <= i,
            count_words(buffer@, in_word) == word_count + count_words(
                buffer@.skip(i as int),
                on_word,
            ),
            word_state(buffer@, in_word) == word_state(buffer@.skip(i as int), on_word),
        decreases buffer@.len() - i,
    {
        proof {
            assert(buffer@.skip(i as int)[0] == buffer@[i as int]);
            assert(buffer@.skip(i as int).skip(1) =~= buffer@.skip(i as int + 1));
        }
        let c = buffer[i];
        if c == 10 || c == 32 || c == 13 || c == 9 {
            on_word = false;
        } else if !on_word {
            on_word = true;
            word_count = word_count + 1;
        }
        i = i + 1;
    }
    proof {
        assert(buffer@.skip(buffer@.len() as int) =~= Seq::<u8>::empty());
    }
    (word_count, on_word)
}

/// Counts the line terminators in a chunk.
pub fn count_newlines_in_buffer(buffer: &[u8]) -> (r: usize)
    ensures
        r == count_newlines(buffer@),
        r <= buffer@.len(),
{
    let mut lines: usize = 0;
    let mut i: usize = 0;
    proof {
        assert(buffer@.skip(0) =~= buffer@);
    }
    while i < buffer.len()
        invariant
            i <= buffer@.len(),
            lines <= i,
            count_newlines(buffer@) == lines + count_newlines(buffer@.skip(i as int)),
        decreases buffer@.len() - i,
    {
        proof {
            assert(buffer@.skip(i as int)[0] == buffer@[i as int]);
            assert(buffer@.skip(i as int).skip(1) =~= buffer@.skip(i as int + 1));
        }
        if buffer[i] == 10 {
            lines = lines + 1;
        }
        i = i + 1;
    }
    proof {
        assert(buffer@.skip(buffer@.len() as int) =~= Seq::<u8>::empty());
    }
    lines
}

/// The number of characters in an already decoded text buffer.
pub fn get_character_count(buffer: &str) -> (r: usize)
    ensures
        r == buffer@.len(),
{
    buffer.unicode_len()
}

fn lead_len_of(b: u8) -> (r: usize)
    ensures
        r == lead_len(b),
{
    if b < 0x80 {
        1
    } else if 0xC2 <= b && b <= 0xDF {
        2
    } else if 0xE0 <= b && b <= 0xEF {
        3
    } else if 0xF0 <= b && b <= 0xF4 {
        4
    } else {
        0
    }
}

fn is_second_ok(b0: u8, b1: u8) -> (r: bool)
    ensures
        r == second_ok(b0, b1),
{
    if b0 == 0xE0 {
        0xA0 <= b1 && b1 <= 0xBF
    } else if b0 == 0xED {
        0x80 <= b1 && b1 <= 0x9F
    } else if b0 == 0xF0 {
        0x90 <= b1 && b1 <= 0xBF
    } else if b0 == 0xF4 {
        0x80 <= b1 && b1 <= 0x8F
    } else {
        0x80 <= b1 && b1 <= 0xBF
    }
}

fn is_cont_byte(b: u8) -> (r: bool)
    ensures
        r == is_cont(b),
{
    0x80 <= b && b <= 0xBF
}

/// Streaming lossy decode of one chunk: decodes the held-back bytes
/// followed by the chunk, emits a count of complete characters, and holds
/// back a trailing incomplete encoding for the next chunk.
fn decode_chunk(pending: &mut Vec<u8>, chunk: &[u8]) -> (chars: usize)
    requires
        old(pending)@.len() + chunk@.len() <= usize::MAX,
    ensures
        chars == stream_count(old(pending)@ + chunk@),
        final(pending)@ == stream_rest(old(pending)@ + chunk@),
        chars + final(pending)@.len() <= old(pending)@.len() + chunk@.len(),
{
    let ghost whole: Seq<u8> = old(pending)@ + chunk@;
    let mut buf: Vec<u8> = Vec::new();
    buf.append(pending);
    let mut tail_vec: Vec<u8> = slice_to_vec(chunk);
    buf.append(&mut tail_vec);
    proof {
        assert(buf@ =~= whole);
        assert(whole.skip(0) =~= whole);
    }
    let mut i: usize = 0;
    let mut chars: usize = 0;
    while i < buf.len()
        invariant
            whole == old(pending)@ + chunk@,
            buf@ == whole,
            pending@.len() == 0,
            i <= whole.len(),
            chars <= i,
            stream_count(whole) == chars + stream_count(whole.skip(i as int)),
            stream_rest(whole) == stream_rest(whole.skip(i as int)),
        decreases whole.len() - i,
    {
        let ghost tail = whole.skip(i as int);
        let b0 = buf[i];
        let l = lead_len_of(b0);
        let rem = buf.len() - i;
        let mut c: usize = 0;
        if l >= 2 && rem >= 2 && is_second_ok(b0, buf[i + 1]) {
            c = 1;
            if l >= 3 && rem >= 3 && is_cont_byte(buf[i + 2]) {
                c = 2;
                if l >= 4 && rem >= 4 && is_cont_byte(buf[i + 3]) {
                    c = 3;
                }
            }
        }
        proof {
            assert(tail.len() == rem);
            assert(tail[0] == whole[i as int]);
            if rem >= 2 {
                assert(tail[1] == whole[i as int + 1]);
            }
            if rem >= 3 {
                assert(tail[2] == whole[i as int + 2]);
            }
            if rem >= 4 {
                assert(tail[3] == whole[i as int + 3]);
            }
            assert(c == cont_run(tail));
        }
        if rem < l && c == rem - 1 {
            proof {
                assert(is_incomplete(tail));
            }
            let mut held: Vec<u8> = Vec::new();
            let mut j: usize = i;
            while j < buf.len()
                invariant
                    i <= j <= buf@.len(),
                    buf@ == whole,
                    held@ == whole.subrange(i as int, j as int),
                decreases buf@.len() - j,
            {
                let b = buf[j];
                held.push(b);
                proof {
                    assert(whole.subrange(i as int, j as int + 1) =~= whole.subrange(
                        i as int,
                        j as int,
                    ).push(b));
                }
                j = j + 1;
            }
            proof {
                assert(held@ =~= tail);
                assert(stream_count(tail) == 0);
                assert(stream_rest(tail) == tail);
            }
            *pending = held;
            return chars;
        }
        proof {
            assert(!is_incomplete(tail));
            assert(step_size(tail) == 1 + c);
            assert(tail.skip(1 + c as int) =~= whole.skip(i as int + 1 + c as int));
        }
        chars = chars + 1;
        i = i + 1 + c;
    }
    proof {
        assert(whole.skip(whole.len() as int) =~= Seq::<u8>::empty());
    }
    chars
}

/// Consumes one chunk of a source, exactly once and in order: adds the
/// chunk's line terminators, newly begun words, bytes and completely
/// decoded characters to the record, and carries the word-scan state and
/// any incomplete trailing encoding over to the next chunk.
pub fn process_chunk(result: &mut ResultOutput, state: &mut ScanState, chunk: &[u8])
    requires
        counts_wf(*old(result), *old(state)),
        old(result).byte_count + chunk@.len() <= usize::MAX,
    ensures
        final(result).name == old(result).name,
        final(result).byte_count == old(result).byte_count + chunk@.len(),
        final(result).line_count == old(result).line_count + count_newlines(chunk@),
        final(result).word_count == old(result).word_count + count_words(
            chunk@,
            old(state).in_word,
        ),
        final(result).character_count == old(result).character_count + stream_count(
            old(state).pending@ + chunk@,
        ),
        final(state).in_word == word_state(chunk@, old(state).in_word),
        final(state).pending@ == stream_rest(old(state).pending@ + chunk@),
        counts_wf(*final(result), *final(state)),
{
    let lines = count_newlines_in_buffer(chunk);
    let words_scanned = get_word_count_in_buffer(chunk, state.in_word);
    let chars = decode_chunk(&mut state.pending, chunk);
    result.line_count = result.line_count + lines;
    result.word_count = result.word_count + words_scanned.0;
    result.byte_count = result.byte_count + chunk.len();
    result.character_count = result.character_count + chars;
    state.in_word = words_scanned.1;
}

/// Ends a source: an incomplete encoding still held back decodes to one
/// replacement character, so the record then counts every byte consumed.
pub fn finish(result: &mut ResultOutput, state: ScanState)
    requires
        counts_wf(*old(result), state),
    ensures
        final(result).name == old(result).name,
        final(result).line_count == old(result).line_count,
        final(result).word_count == old(result).word_count,
        final(result).byte_count == old(result).byte_count,
        final(result).character_count == old(result).character_count + (
        if state.pending@.len() > 0 {
            1nat
        } else {
            0nat
        }),
        final(result).character_count <= final(result).byte_count,
{
    if state.pending.len() > 0 {
        result.character_count = result.character_count + 1;
    }
}

/// Folds one record into a running total: lines, words and bytes are
/// summed; the name and the character count of the left record are kept,
/// so a total built from a fresh record reports zero characters and the
/// fixed total label.
pub fn merge(a: &ResultOutput, b: &ResultOutput) -> (r: ResultOutput)
    requires
        a.line_count + b.line_count <= usize::MAX,
        a.word_count + b.word_count <= usize::MAX,
        a.byte_count + b.byte_count <= usize::MAX,
    ensures
        r.name == a.name,
        r.line_count == a.line_count + b.line_count,
        r.word_count == a.word_count + b.word_count,
        r.byte_count == a.byte_count + b.byte_count,
        r.character_count == a.character_count,
{
    ResultOutput {
        name: a.name.clone(),
        line_count: a.line_count + b.line_count,
        word_count: a.word_count + b.word_count,
        byte_count: a.byte_count + b.byte_count,
        character_count: a.character_count,
    }
}

} // verus!
