use oxwc::count::{
    count_newlines_in_buffer, finish, get_character_count, get_word_count_in_buffer, merge,
    process_chunk, ResultOutput, ScanState,
};

fn count_all(chunks: &[&[u8]]) -> ResultOutput {
    let mut result = ResultOutput::new(String::new());
    let mut state = ScanState::new();
    for chunk in chunks {
        process_chunk(&mut result, &mut state, chunk);
    }
    finish(&mut result, state);
    result
}

#[test]
fn test_multibyte_count() {
    let sample = "™";
    let buffer = sample.as_bytes();
    assert_eq!(sample.len(), 3);
    assert_eq!(buffer.len(), 3);
    assert_eq!(get_character_count(sample), 1);
}

#[test]
fn test_word_split_across_chunks() {
    let result = count_all(&[b"ab", b"c"]);
    assert_eq!(result.word_count, 1);
    assert_eq!(result.byte_count, 3);
    assert_eq!(result.character_count, 3);
    assert_eq!(result.line_count, 0);
}

#[test]
fn test_line_count_no_trailing_newline() {
    let result = count_all(&[b"a\nb\nc"]);
    assert_eq!(result.line_count, 2);
    assert_eq!(result.word_count, 3);
    assert_eq!(result.byte_count, 5);
    assert_eq!(result.character_count, 5);
}

#[test]
fn test_multibyte_split_across_chunks() {
    let bytes = "a™b".as_bytes();
    assert_eq!(bytes.len(), 5);
    let result = count_all(&[&bytes[..2], &bytes[2..]]);
    assert_eq!(result.character_count, 3);
    assert_eq!(result.byte_count, 5);
    assert_eq!(result.word_count, 1);
    assert_eq!(result.line_count, 0);
}

#[test]
fn test_chunking_invariance() {
    let text: &[u8] = "one two\tthree\r\nfour five\n\nsix ™ seven".as_bytes();
    let whole = count_all(&[text]);
    let mut singles: Vec<&[u8]> = Vec::new();
    let mut i = 0;
    while i < text.len() {
        singles.push(&text[i..i + 1]);
        i += 1;
    }
    let split = count_all(&singles);
    assert_eq!(whole.line_count, split.line_count);
    assert_eq!(whole.word_count, split.word_count);
    assert_eq!(whole.byte_count, split.byte_count);
    assert_eq!(whole.character_count, split.character_count);
    let mut pairs: Vec<&[u8]> = Vec::new();
    let mut j = 0;
    while j < text.len() {
        let end = if j + 2 <= text.len() { j + 2 } else { text.len() };
        pairs.push(&text[j..end]);
        j = end;
    }
    let split2 = count_all(&pairs);
    assert_eq!(whole.line_count, split2.line_count);
    assert_eq!(whole.word_count, split2.word_count);
    assert_eq!(whole.byte_count, split2.byte_count);
    assert_eq!(whole.character_count, split2.character_count);
}

#[test]
fn test_empty_input() {
    let result = count_all(&[]);
    assert_eq!(result.line_count, 0);
    assert_eq!(result.word_count, 0);
    assert_eq!(result.byte_count, 0);
    assert_eq!(result.character_count, 0);
    let result2 = count_all(&[b""]);
    assert_eq!(result2.line_count, 0);
    assert_eq!(result2.word_count, 0);
    assert_eq!(result2.byte_count, 0);
    assert_eq!(result2.character_count, 0);
}

#[test]
fn test_invalid_bytes_replaced() {
    let result = count_all(&[&[0x80u8, 0x61u8]]);
    assert_eq!(result.character_count, 2);
    assert_eq!(result.byte_count, 2);
    let truncated = count_all(&[&[0xE2u8, 0x84u8]]);
    assert_eq!(truncated.character_count, 1);
    assert_eq!(truncated.byte_count, 2);
    let overlong = count_all(&[&[0xE0u8, 0x80u8, 0x80u8]]);
    assert_eq!(overlong.character_count, 3);
}

#[test]
fn test_character_count_at_most_bytes() {
    let ascii = count_all(&[b"plain ascii text"]);
    assert_eq!(ascii.character_count, ascii.byte_count);
    let wide = count_all(&["héllo ™".as_bytes()]);
    assert!(wide.character_count < wide.byte_count);
    assert_eq!(wide.character_count, 7);
    assert_eq!(wide.byte_count, 10);
}

#[test]
fn test_merge_totals() {
    let a = ResultOutput {
        name: "a".to_string(),
        line_count: 2,
        word_count: 4,
        byte_count: 10,
        character_count: 10,
    };
    let b = ResultOutput {
        name: "b".to_string(),
        line_count: 5,
        word_count: 1,
        byte_count: 20,
        character_count: 18,
    };
    let c = ResultOutput {
        name: "c".to_string(),
        line_count: 1,
        word_count: 7,
        byte_count: 5,
        character_count: 5,
    };
    let mut total = ResultOutput::new("total".to_string());
    total = merge(&total, &a);
    total = merge(&total, &b);
    total = merge(&total, &c);
    assert_eq!(total.line_count, 8);
    assert_eq!(total.word_count, 12);
    assert_eq!(total.byte_count, 35);
    assert_eq!(total.character_count, 0);
    assert_eq!(total.name, "total");
}

#[test]
fn test_word_count_in_buffer() {
    let (words, in_word) = get_word_count_in_buffer(b" hello  world", false);
    assert_eq!(words, 2);
    assert_eq!(in_word, true);
    let (more, still_in) = get_word_count_in_buffer(b"continuation next", true);
    assert_eq!(more, 1);
    assert_eq!(still_in, true);
    let (none, outside) = get_word_count_in_buffer(b" \t\r\n", true);
    assert_eq!(none, 0);
    assert_eq!(outside, false);
}

#[test]
fn test_newline_counter() {
    assert_eq!(count_newlines_in_buffer(b"a\nb\nc\n"), 3);
    assert_eq!(count_newlines_in_buffer(b"\r\r\t "), 0);
    assert_eq!(count_newlines_in_buffer(b""), 0);
}
