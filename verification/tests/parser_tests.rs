use cli_menu::parse_std_in;
use cli_menu::stream::{LineSource, OutputSink};

fn lines_of(text: &str) -> Vec<String> {
    text.split('\n').map(|s| s.to_string()).collect()
}

#[test]
fn parses_i32_like_a_champ() {
    let input = "3";
    let mut source = LineSource::new(lines_of(input));
    let mut output = OutputSink::new();
    let actual: i32 = parse_std_in(&mut source, &mut output, "i32 plz");
    assert_eq!(actual, 3);
    let expected_output = "i32 plz\n";
    assert_eq!(expected_output, output.concat_output());
}

#[test]
fn parses_i32_on_2nd_try() {
    let input = "sup\n8\n9";
    let mut source = LineSource::new(lines_of(input));
    let mut output = OutputSink::new();
    let actual: i32 = parse_std_in(&mut source, &mut output, "i32 plz");
    assert_eq!(actual, 8);
    let expected_output = "i32 plz\nInvalid input.\ni32 plz\n";
    assert_eq!(expected_output, output.concat_output());
}

#[test]
fn retries_until_a_line_parses() {
    let mut source = LineSource::new(lines_of("abc\n8\n9"));
    let mut output = OutputSink::new();
    let actual: i32 = parse_std_in(&mut source, &mut output, "pick");
    assert_eq!(actual, 8);
    assert_eq!("pick\nInvalid input.\npick\n", output.concat_output());
}

#[test]
fn first_parse_writes_one_prompt_and_no_error() {
    let mut source = LineSource::new(lines_of("42\nleftover"));
    let mut output = OutputSink::new();
    let actual: usize = parse_std_in(&mut source, &mut output, "pick");
    assert_eq!(actual, 42);
    assert_eq!("pick\n", output.concat_output());
}

#[test]
fn trims_the_line_before_parsing() {
    let mut source = LineSource::new(vec!["  7\t".to_string()]);
    let mut output = OutputSink::new();
    let actual: usize = parse_std_in(&mut source, &mut output, "pick");
    assert_eq!(actual, 7);
    assert_eq!("pick\n", output.concat_output());
}

#[test]
fn empty_line_is_a_parse_failure() {
    let mut source = LineSource::new(lines_of("\n5"));
    let mut output = OutputSink::new();
    let actual: usize = parse_std_in(&mut source, &mut output, "pick");
    assert_eq!(actual, 5);
    assert_eq!("pick\nInvalid input.\npick\n", output.concat_output());
}

#[test]
fn source_hands_lines_out_in_order() {
    let mut source = LineSource::new(lines_of("a\nb"));
    assert_eq!(source.next_line(), Some("a".to_string()));
    assert_eq!(source.next_line(), Some("b".to_string()));
    assert_eq!(source.next_line(), None);
}

#[test]
fn sink_records_written_lines() {
    let mut sink = OutputSink::new();
    sink.write_line("one");
    sink.write_line("two");
    assert_eq!("one\ntwo\n", sink.concat_output());
}
