//! Verified output formatting: each selected counter right-justified in an
//! eight-column field, in the fixed order line, word, byte, character,
//! followed by a space, the source name and a newline.

use vstd::prelude::*;
use vstd::string::StringExecFns;

use crate::args::OutputOptions;
use crate::count::ResultOutput;

verus! {

/// The decimal digit character of a value below ten.
pub open spec fn digit_char(d: nat) -> char
    recommends
        d < 10,
{
    if d == 0 {
        '0'
    } else if d == 1 {
        '1'
    } else if d == 2 {
        '2'
    } else if d == 3 {
        '3'
    } else if d == 4 {
        '4'
    } else if d == 5 {
        '5'
    } else if d == 6 {
        '6'
    } else if d == 7 {
        '7'
    } else if d == 8 {
        '8'
    } else {
        '9'
    }
}

/// The decimal digits of a value, most significant first, no leading zeros
/// except for the value zero itself.
pub open spec fn dec_digits(n: nat) -> Seq<char>
    decreases n,
{
    if n < 10 {
        seq![digit_char(n)]
    } else {
        dec_digits(n / 10).push(digit_char(n % 10))
    }
}

/// A run of spaces.
pub open spec fn spaces(k: nat) -> Seq<char> {
    Seq::new(k, |i: int| ' ')
}

/// A value right-justified in an eight-column field: padded with spaces on
/// the left, or printed in full when it has more than eight digits.
pub open spec fn padded8(n: nat) -> Seq<char> {
    if dec_digits(n).len() >= 8 {
        dec_digits(n)
    } else {
        spaces((8 - dec_digits(n).len()) as nat) + dec_digits(n)
    }
}

/// One report line for a record: the selected counters in the fixed order
/// line, word, byte, character, then a space, the source name, a newline.
pub open spec fn line_spec(r: ResultOutput, o: OutputOptions) -> Seq<char> {
    (if o.line_count {
        padded8(r.line_count as nat)
    } else {
        Seq::empty()
    }) + (if o.word_count {
        padded8(r.word_count as nat)
    } else {
        Seq::empty()
    }) + (if o.byte_count {
        padded8(r.byte_count as nat)
    } else {
        Seq::empty()
    }) + (if o.character_count {
        padded8(r.character_count as nat)
    } else {
        Seq::empty()
    }) + seq![' '] + r.name@ + seq!['\n']
}

fn digit_str(d: usize) -> (r: &'static str)
    requires
        d < 10,
    ensures
        r@ == seq![digit_char(d as nat)],
{
    proof {
        reveal_strlit("0");
        reveal_strlit("1");
        reveal_strlit("2");
        reveal_strlit("3");
        reveal_strlit("4");
        reveal_strlit("5");
        reveal_strlit("6");
        reveal_strlit("7");
        reveal_strlit("8");
        reveal_strlit("9");
    }
    let r = if d == 0 {
        "0"
    } else if d == 1 {
        "1"
    } else if d == 2 {
        "2"
    } else if d == 3 {
        "3"
    } else if d == 4 {
        "4"
    } else if d == 5 {
        "5"
    } else if d == 6 {
        "6"
    } else if d == 7 {
        "7"
    } else {
        "8"
    };
    if d == 9 {
        proof {
            assert("9"@ =~= seq![digit_char(d as nat)]);
        }
        "9"
    } else {
        proof {
            assert(r@ =~= seq![digit_char(d as nat)]);
        }
        r
    }
}

proof fn lemma_dec_digits_len(n: nat)
    ensures
        1 <= dec_digits(n).len() <= n + 1,
    decreases n,
{
    if n >= 10 {
        lemma_dec_digits_len(n / 10);
    }
}

fn push_dec(buffer: &mut String, value: usize)
    ensures
        final(buffer)@ == old(buffer)@ + dec_digits(value as nat),
    decreases value,
{
    if value >= 10 {
        push_dec(buffer, value / 10);
        buffer.append(digit_str(value % 10));
        proof {
            assert(old(buffer)@ + dec_digits(value as nat / 10) + seq![
                digit_char(value as nat % 10),
            ] =~= old(buffer)@ + dec_digits(value as nat));
        }
    } else {
        buffer.append(digit_str(value));
        proof {
            assert(old(buffer)@ + seq![digit_char(value as nat)] =~= old(buffer)@ + dec_digits(
                value as nat,
            ));
        }
    }
}

fn dec_len(value: usize) -> (r: usize)
    ensures
        r == dec_digits(value as nat).len(),
    decreases value,
{
    if value < 10 {
        1
    } else {
        proof {
            lemma_dec_digits_len(value as nat / 10);
        }
        let rec = dec_len(value / 10);
        rec + 1
    }
}

/// Appends one counter value to a report line, right-justified in an
/// eight-column field.
pub fn write_part(buffer: &mut String, value: usize)
    ensures
        final(buffer)@ == old(buffer)@ + padded8(value as nat),
{
    let len = dec_len(value);
    let pad: usize = if len >= 8 {
        0
    } else {
        8 - len
    };
    let mut k: usize = 0;
    proof {
        assert(buffer@ + spaces(0) =~= buffer@);
    }
    while k < pad
        invariant
            k <= pad,
            pad <= 8,
            buffer@ == old(buffer)@ + spaces(k as nat),
        decreases pad - k,
    {
        buffer.append(" ");
        proof {
            reveal_strlit(" ");
            assert(" "@ =~= seq![' ']);
            assert(old(buffer)@ + spaces(k as nat) + seq![' '] =~= old(buffer)@ + spaces(
                k as nat + 1,
            ));
        }
        k = k + 1;
    }
    push_dec(buffer, value);
    proof {
        if len >= 8 {
            assert(old(buffer)@ + spaces(0) + dec_digits(value as nat) =~= old(buffer)@ + padded8(
                value as nat,
            ));
        } else {
            assert(old(buffer)@ + spaces((8 - len) as nat) + dec_digits(value as nat) =~= old(
                buffer,
            )@ + padded8(value as nat));
        }
    }
}

/// Builds the report line of one record under the selected output fields.
pub fn build_line(result: &ResultOutput, options: OutputOptions) -> (r: String)
    ensures
        r@ == line_spec(*result, options),
{
    let mut line = String::new();
    if options.line_count {
        write_part(&mut line, result.line_count);
    }
    if options.word_count {
        write_part(&mut line, result.word_count);
    }
    if options.byte_count {
        write_part(&mut line, result.byte_count);
    }
    if options.character_count {
        write_part(&mut line, result.character_count);
    }
    line.append(" ");
    line.append(result.name.as_str());
    line.append("\n");
    proof {
        reveal_strlit(" ");
        reveal_strlit("\n");
        assert(" "@ =~= seq![' ']);
        assert("\n"@ =~= seq!['\n']);
        assert(line@ =~= line_spec(*result, options));
    }
    line
}

} // verus!
