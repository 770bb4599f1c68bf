//! The mathematical model of the counting engine: line, word and character
//! counts over byte sequences, and the laws that make the counts independent
//! of how an input is cut into chunks.

use vstd::prelude::*;

verus! {

/// The word-boundary characters: newline, space, carriage return, tab.
pub open spec fn is_boundary(b: u8) -> bool {
    b == 10 || b == 32 || b == 13 || b == 9
}

/// Number of line terminators (newline bytes) in a byte sequence.
pub open spec fn count_newlines(s: Seq<u8>) -> nat
    decreases s.len(),
{
    if s.len() == 0 {
        0
    } else {
        (if s[0] == 10 {
            1nat
        } else {
            0nat
        }) + count_newlines(s.skip(1))
    }
}

/// Number of words begun while scanning `s`, starting from word-scan state
/// `w` (true means the scan is currently inside a word). A word begins at
/// each non-boundary byte reached while outside a word.
pub open spec fn count_words(s: Seq<u8>, w: bool) -> nat
    decreases s.len(),
{
    if s.len() == 0 {
        0
    } else {
        (if !is_boundary(s[0]) && !w {
            1nat
        } else {
            0nat
        }) + count_words(s.skip(1), !is_boundary(s[0]))
    }
}

/// The word-scan state after scanning `s` from state `w`.
pub open spec fn word_state(s: Seq<u8>, w: bool) -> bool
    decreases s.len(),
{
    if s.len() == 0 {
        w
    } else {
        word_state(s.skip(1), !is_boundary(s[0]))
    }
}

/// How many bytes a UTF-8 encoded scalar value occupies, read off its
/// leading byte; 0 for a byte that cannot begin an encoding.
pub open spec fn lead_len(b: u8) -> nat {
    if b < 0x80 {
        1
    } else if 0xC2 <= b && b <= 0xDF {
        2
    } else if 0xE0 <= b && b <= 0xEF {
        3
    } else if 0xF0 <= b && b <= 0xF4 {
        4
    } else {
        0
    }
}

/// A UTF-8 continuation byte.
pub open spec fn is_cont(b: u8) -> bool {
    0x80 <= b && b <= 0xBF
}

/// Whether `b1` is acceptable as the second byte of an encoding led by
/// `b0`; the narrowed ranges rule out overlong encodings, surrogates and
/// scalar values above the Unicode maximum.
pub open spec fn second_ok(b0: u8, b1: u8) -> bool {
    if b0 == 0xE0 {
        0xA0 <= b1 && b1 <= 0xBF
    } else if b0 == 0xED {
        0x80 <= b1 && b1 <= 0x9F
    } else if b0 == 0xF0 {
        0x90 <= b1 && b1 <= 0xBF
    } else if b0 == 0xF4 {
        0x80 <= b1 && b1 <= 0x8F
    } else {
        is_cont(b1)
    }
}

/// The number of bytes after the lead of `s` that continue a well-formed
/// encoding, stopping at the first byte that does not fit, at the end of
/// `s`, or when the encoding is complete. Always at most 3 and at most
/// `s.len() - 1`.
pub open spec fn cont_run(s: Seq<u8>) -> nat
    recommends
        s.len() >= 1,
{
    let l = lead_len(s[0]);
    if l < 2 {
        0
    } else if s.len() < 2 || !second_ok(s[0], s[1]) {
        0
    } else if l < 3 {
        1
    } else if s.len() < 3 || !is_cont(s[2]) {
        1
    } else if l < 4 {
        2
    } else if s.len() < 4 || !is_cont(s[3]) {
        2
    } else {
        3
    }
}

/// How many bytes the first decoded unit of `s` consumes: a complete
/// encoding consumes its full width, and anything else consumes its
/// maximal well-formed part, at least the one leading byte (the unit then
/// stands for a replacement character).
pub open spec fn step_size(s: Seq<u8>) -> nat
    recommends
        s.len() >= 1,
{
    1 + cont_run(s)
}

/// `s` is a proper prefix of a single well-formed encoding: more bytes
/// could still complete it, so a streaming decoder must hold it back.
pub open spec fn is_incomplete(s: Seq<u8>) -> bool {
    s.len() > 0 && s.len() < lead_len(s[0]) && cont_run(s) == s.len() - 1
}

/// Characters a streaming decoder emits from `s` while it can still be
/// fed more bytes: it decodes unit by unit and holds back an incomplete
/// trailing encoding.
pub open spec fn stream_count(s: Seq<u8>) -> nat
    decreases s.len(),
{
    if s.len() == 0 || is_incomplete(s) {
        0
    } else {
        1 + stream_count(s.skip(step_size(s) as int))
    }
}

/// The bytes such a streaming decoder holds back from `s`: the incomplete
/// trailing encoding, or nothing.
pub open spec fn stream_rest(s: Seq<u8>) -> Seq<u8>
    decreases s.len(),
{
    if s.len() == 0 || is_incomplete(s) {
        s
    } else {
        stream_rest(s.skip(step_size(s) as int))
    }
}

/// Characters decoded from `s` taken as a whole, finished input: every
/// unit, a trailing incomplete encoding included, yields one character
/// (lossy decoding; ill-formed units stand for a replacement character).
pub open spec fn utf8_count(s: Seq<u8>) -> nat
    decreases s.len(),
{
    if s.len() == 0 {
        0
    } else {
        1 + utf8_count(s.skip(step_size(s) as int))
    }
}

/// Every byte of `s` is ASCII.
pub open spec fn all_ascii(s: Seq<u8>) -> bool {
    forall|i: int| 0 <= i < s.len() ==> s[i] < 0x80
}

/// `s` consists entirely of complete, well-formed UTF-8 encodings.
pub open spec fn wellformed_utf8(s: Seq<u8>) -> bool
    decreases s.len(),
{
    if s.len() == 0 {
        true
    } else {
        lead_len(s[0]) >= 1 && cont_run(s) == lead_len(s[0]) - 1 && wellformed_utf8(
            s.skip(step_size(s) as int),
        )
    }
}

/// Chunking does not change the line or word count: scanning a split input
/// chunk by chunk, carrying the word-scan state across the cut, counts
/// exactly what one scan of the whole input counts, and leaves the scan in
/// the same state. The byte total is additive as well.
pub proof fn lemma_scan_split(s: Seq<u8>, t: Seq<u8>, w: bool)
    ensures
        count_newlines(s + t) == count_newlines(s) + count_newlines(t),
        count_words(s + t, w) == count_words(s, w) + count_words(t, word_state(s, w)),
        word_state(s + t, w) == word_state(t, word_state(s, w)),
        (s + t).len() == s.len() + t.len(),
    decreases s.len(),
{
    if s.len() == 0 {
        assert(s + t =~= t);
    } else {
        assert((s + t).skip(1) =~= s.skip(1) + t);
        lemma_scan_split(s.skip(1), t, !is_boundary(s[0]));
    }
}

proof fn lemma_cont_run_append(s: Seq<u8>, t: Seq<u8>)
    requires
        s.len() >= 1,
        !is_incomplete(s),
    ensures
        cont_run(s + t) == cont_run(s),
        step_size(s + t) == step_size(s),
        !is_incomplete(s + t),
{
    if t.len() == 0 {
        assert(s + t =~= s);
    }
}

/// What a streaming decoder emits and holds back never exceeds what it was
/// fed: each emitted character consumes at least one byte.
pub proof fn lemma_stream_le(s: Seq<u8>)
    ensures
        stream_count(s) + stream_rest(s).len() <= s.len(),
    decreases s.len(),
{
    if s.len() == 0 || is_incomplete(s) {
    } else {
        lemma_stream_le(s.skip(step_size(s) as int));
    }
}

/// A streaming decoder holds back at most the three bytes of a proper
/// prefix of one encoding.
pub proof fn lemma_rest_incomplete(s: Seq<u8>)
    ensures
        stream_rest(s).len() == 0 || is_incomplete(stream_rest(s)),
        stream_rest(s).len() <= 3,
    decreases s.len(),
{
    if s.len() == 0 || is_incomplete(s) {
    } else {
        lemma_rest_incomplete(s.skip(step_size(s) as int));
    }
}

/// Chunking does not change the character count: decoding a split input
/// chunk by chunk, carrying the held-back bytes across the cut, emits
/// exactly the characters one streaming pass over the whole input emits,
/// and holds back the same bytes.
pub proof fn lemma_stream_split(s: Seq<u8>, t: Seq<u8>)
    ensures
        stream_count(s + t) == stream_count(s) + stream_count(stream_rest(s) + t),
        stream_rest(s + t) == stream_rest(stream_rest(s) + t),
    decreases s.len(),
{
    if s.len() == 0 {
        assert(s + t =~= t);
        assert(stream_rest(s) + t =~= t);
    } else if is_incomplete(s) {
        assert(stream_rest(s) + t =~= s + t);
    } else {
        let n = step_size(s) as int;
        lemma_cont_run_append(s, t);
        assert((s + t).skip(n) =~= s.skip(n) + t);
        lemma_stream_split(s.skip(n), t);
    }
}

/// Finishing a stream squares it with whole-input decoding: the characters
/// emitted while streaming, plus one replacement character if an incomplete
/// encoding was still held back at the end, are exactly the characters of
/// the input decoded as a finished whole.
pub proof fn lemma_stream_finish(s: Seq<u8>)
    ensures
        utf8_count(s) == stream_count(s) + (if stream_rest(s).len() > 0 {
            1nat
        } else {
            0nat
        }),
    decreases s.len(),
{
    if s.len() == 0 {
    } else if is_incomplete(s) {
        assert(step_size(s) == s.len());
        assert(s.skip(s.len() as int) =~= Seq::<u8>::empty());
        assert(utf8_count(Seq::<u8>::empty()) == 0);
        assert(utf8_count(s) == 1);
    } else {
        lemma_stream_finish(s.skip(step_size(s) as int));
    }
}

/// A character is encoded by at least one byte, so the character count
/// never exceeds the byte count.
pub proof fn lemma_character_count_le_bytes(s: Seq<u8>)
    ensures
        utf8_count(s) <= s.len(),
    decreases s.len(),
{
    if s.len() > 0 {
        lemma_character_count_le_bytes(s.skip(step_size(s) as int));
    }
}

/// On pure ASCII input every byte decodes to one character, so the
/// character count equals the byte count.
pub proof fn lemma_ascii_count(s: Seq<u8>)
    requires
        all_ascii(s),
    ensures
        utf8_count(s) == s.len(),
    decreases s.len(),
{
    if s.len() > 0 {
        assert forall|i: int| 0 <= i < s.skip(1).len() implies s.skip(1)[i] < 0x80 by {
            assert(s.skip(1)[i] == s[i + 1]);
        }
        lemma_ascii_count(s.skip(1));
    }
}

/// On input made of complete, well-formed encodings, the character count
/// equals the byte count exactly when the input is pure ASCII: every
/// non-ASCII encoding spends at least two bytes on its one character.
pub proof fn lemma_ascii_iff_equal(s: Seq<u8>)
    requires
        wellformed_utf8(s),
    ensures
        (utf8_count(s) == s.len()) <==> all_ascii(s),
    decreases s.len(),
{
    if s.len() > 0 {
        let l = lead_len(s[0]);
        let n = step_size(s) as int;
        lemma_ascii_iff_equal(s.skip(n));
        lemma_character_count_le_bytes(s.skip(n));
        if l == 1 {
            assert(s[0] < 0x80);
            assert(all_ascii(s) ==> all_ascii(s.skip(1))) by {
                if all_ascii(s) {
                    assert forall|i: int| 0 <= i < s.skip(1).len() implies s.skip(1)[i] < 0x80 by {
                        assert(s.skip(1)[i] == s[i + 1]);
                    }
                }
            }
            assert(all_ascii(s.skip(1)) ==> all_ascii(s)) by {
                if all_ascii(s.skip(1)) {
                    assert forall|i: int| 0 <= i < s.len() implies s[i] < 0x80 by {
                        if i > 0 {
                            assert(s[i] == s.skip(1)[i - 1]);
                        }
                    }
                }
            }
        } else {
            assert(0xC2 <= s[0]);
            assert(!all_ascii(s));
        }
    }
}

} // verus!
