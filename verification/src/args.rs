use vstd::prelude::*;

verus! {

/// Which of the four counters are printed for each source, in the fixed
/// order line, word, byte, character.
#[derive(Debug, Clone, Copy)]
pub struct OutputOptions {
    /// Report the number of bytes read.
    pub byte_count: bool,
    /// Report the number of line terminators.
    pub line_count: bool,
    /// Report the number of whitespace-delimited words.
    pub word_count: bool,
    /// Report the number of decoded characters; cancels the byte count.
    pub character_count: bool,
}

/// The selection used when no field flag is given at all:
/// lines, words and bytes, but not characters.
pub open spec fn default_options() -> OutputOptions {
    OutputOptions {
        byte_count: true,
        line_count: true,
        word_count: true,
        character_count: false,
    }
}

/// How a requested set of field flags resolves into the set of printed
/// fields: no flag at all selects the default triple, and a byte-count
/// request is suppressed whenever a character count was also requested.
pub open spec fn resolve_options(o: OutputOptions) -> OutputOptions {
    if !o.byte_count && !o.line_count && !o.word_count && !o.character_count {
        default_options()
    } else if o.character_count && o.byte_count {
        OutputOptions {
            byte_count: false,
            line_count: o.line_count,
            word_count: o.word_count,
            character_count: o.character_count,
        }
    } else {
        o
    }
}

impl Default for OutputOptions {
    fn default() -> (r: Self)
        ensures
            r == default_options(),
    {
        OutputOptions {
            byte_count: true,
            line_count: true,
            word_count: true,
            character_count: false,
        }
    }
}

/// The command line: a verbosity counter, the requested output fields, and
/// the paths of the sources to count.
pub struct Cli {
    pub debug: u8,
    pub output: OutputOptions,
    pub files: Vec<String>,
}

impl Cli {
    /// Resolves the requested field flags into the fields actually printed.
    pub fn get_output_settings(&self) -> (r: OutputOptions)
        ensures
            r == resolve_options(self.output),
    {
        if self.output.byte_count || self.output.line_count || self.output.word_count
            || self.output.character_count {
            if self.output.character_count && self.output.byte_count {
                OutputOptions {
                    byte_count: false,
                    line_count: self.output.line_count,
                    word_count: self.output.word_count,
                    character_count: self.output.character_count,
                }
            } else {
                self.output
            }
        } else {
            OutputOptions::default()
        }
    }
}

/// Flag precedence: whenever both a byte count and a character count are
/// requested, only the character count remains selected; the other two
/// fields are left as requested.
pub proof fn lemma_character_count_overrides(o: OutputOptions)
    requires
        o.byte_count,
        o.character_count,
    ensures
        !resolve_options(o).byte_count,
        resolve_options(o).character_count,
        resolve_options(o).line_count == o.line_count,
        resolve_options(o).word_count == o.word_count,
{
}

} // verus!
