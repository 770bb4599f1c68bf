use oxwc::args::{Cli, OutputOptions};
use oxwc::count::ResultOutput;
use oxwc::format::{build_line, write_part};

#[test]
fn test_write_part_width() {
    let mut buffer = String::new();
    write_part(&mut buffer, 12);
    assert_eq!(buffer, "      12");
    write_part(&mut buffer, 0);
    assert_eq!(buffer, "      12       0");
    let mut wide = String::new();
    write_part(&mut wide, 123456789);
    assert_eq!(wide, "123456789");
    let mut exact = String::new();
    write_part(&mut exact, 12345678);
    assert_eq!(exact, "12345678");
}

#[test]
fn test_build_line_all_fields() {
    let record = ResultOutput {
        name: "Cargo.toml".to_string(),
        line_count: 12,
        word_count: 36,
        byte_count: 237,
        character_count: 237,
    };
    let options = OutputOptions {
        byte_count: true,
        line_count: true,
        word_count: true,
        character_count: true,
    };
    let line = build_line(&record, options);
    assert_eq!(line, "      12      36     237     237 Cargo.toml\n");
}

#[test]
fn test_build_line_selected_fields() {
    let record = ResultOutput {
        name: "notes".to_string(),
        line_count: 3,
        word_count: 17,
        byte_count: 99,
        character_count: 95,
    };
    let options = OutputOptions {
        byte_count: false,
        line_count: true,
        word_count: false,
        character_count: false,
    };
    let line = build_line(&record, options);
    assert_eq!(line, "       3 notes\n");
}

#[test]
fn test_flag_precedence_in_output() {
    let cli = Cli {
        debug: 0,
        output: OutputOptions {
            byte_count: true,
            line_count: false,
            word_count: false,
            character_count: true,
        },
        files: Vec::new(),
    };
    let options = cli.get_output_settings();
    assert_eq!(options.byte_count, false);
    assert_eq!(options.character_count, true);
    let record = ResultOutput {
        name: "f".to_string(),
        line_count: 1,
        word_count: 2,
        byte_count: 999,
        character_count: 4,
    };
    let line = build_line(&record, options);
    assert_eq!(line, "       4 f\n");
}
