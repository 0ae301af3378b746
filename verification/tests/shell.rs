use minios::shell::command::{parse_command, Command};
use minios::shell::finish_cat_output;
use minios::shell::line::{on_key, on_key_crlf, KeyAction, LineBuffer, LineError};

#[test]
fn parser_trims_ascii_whitespace_before_matching() {
    assert_eq!(parse_command("  uptime  "), Command::Uptime);
}

#[test]
fn parser_recognizes_memory_command() {
    assert_eq!(parse_command("memory"), Command::Memory);
}

#[test]
fn parser_preserves_trimmed_unknown_input() {
    assert_eq!(parse_command("wat"), Command::Unknown("wat"));
}

#[test]
fn parser_recognizes_the_remaining_supported_commands() {
    assert_eq!(parse_command("help"), Command::Help);
    assert_eq!(parse_command("info"), Command::Info);
    assert_eq!(parse_command("clear"), Command::Clear);
    assert_eq!(parse_command("shutdown"), Command::Shutdown);
}

#[test]
fn parser_distinguishes_empty_input_from_unknown_input() {
    assert_eq!(parse_command(" \t"), Command::Empty);
    assert_eq!(parse_command("HELP"), Command::Unknown("HELP"));
}

#[test]
fn parser_treats_echo_payload_as_a_command() {
    assert_eq!(parse_command("echo hello"), Command::Echo("hello"));
}

#[test]
fn parser_treats_bare_echo_as_a_command() {
    assert_eq!(parse_command("echo"), Command::Echo(""));
}

#[test]
fn parser_does_not_match_echo_prefixes() {
    assert_eq!(parse_command("echoes"), Command::Unknown("echoes"));
}

#[test]
fn parser_recognizes_rv32_storage_commands() {
    assert_eq!(parse_command("ls"), Command::Ls(""));
    assert_eq!(parse_command("ls DOCS"), Command::Ls("DOCS"));
    assert_eq!(parse_command("cat HELLO.TXT"), Command::Cat("HELLO.TXT"));
    assert_eq!(
        parse_command("cat DOCS/NOTE.TXT"),
        Command::Cat("DOCS/NOTE.TXT")
    );
}

#[test]
fn parser_preserves_an_empty_cat_argument_for_a_usage_error() {
    assert_eq!(parse_command("cat"), Command::Cat(""));
    assert_eq!(parse_command("cat    "), Command::Cat(""));
}

#[test]
fn parser_does_not_match_storage_command_prefixes() {
    assert_eq!(parse_command("listing"), Command::Unknown("listing"));
    assert_eq!(parse_command("catalog"), Command::Unknown("catalog"));
}

#[test]
fn parser_recognizes_rm_with_and_without_an_argument() {
    assert_eq!(parse_command("rm"), Command::Rm(""));
    assert_eq!(parse_command("rm OLD.TXT"), Command::Rm("OLD.TXT"));
    assert_eq!(
        parse_command("rm DOCS/NOTE.TXT"),
        Command::Rm("DOCS/NOTE.TXT")
    );
}

#[test]
fn parser_recognizes_mkdir_and_rmdir_with_and_without_arguments() {
    assert_eq!(parse_command("mkdir"), Command::Mkdir(""));
    assert_eq!(parse_command("mkdir NEWDIR"), Command::Mkdir("NEWDIR"));
    assert_eq!(parse_command("rmdir"), Command::Rmdir(""));
    assert_eq!(parse_command("rmdir OLD"), Command::Rmdir("OLD"));
    assert_eq!(parse_command("rm X"), Command::Rm("X"));
    assert_eq!(parse_command("mkdirt"), Command::Unknown("mkdirt"));
}

#[test]
fn parser_skips_spaces_before_an_argument_but_keeps_inner_ones() {
    assert_eq!(parse_command("echo    a  b"), Command::Echo("a  b"));
    assert_eq!(parse_command("\r\ncat\tX"), Command::Unknown("cat\tX"));
    assert_eq!(parse_command("ls é"), Command::Ls("é"));
}

#[test]
fn removing_the_last_byte_restores_the_previous_text() {
    let mut line = LineBuffer::<3>::new();
    assert_eq!(line.push(b'a'), Ok(()));
    assert_eq!(line.push(b'b'), Ok(()));
    assert_eq!(line.backspace(), Some(b'b'));
    assert_eq!(line.as_str(), "a");
}

#[test]
fn pushing_past_capacity_marks_the_line_full() {
    let mut line = LineBuffer::<3>::new();
    line.push(b'a').unwrap();
    assert_eq!(line.push(b'c'), Ok(()));
    assert_eq!(line.push(b'd'), Ok(()));
    assert_eq!(line.push(b'e'), Err(LineError::Full));
}

#[test]
fn non_printable_input_cannot_enter_the_ascii_line() {
    let mut line = LineBuffer::<3>::new();

    assert_eq!(line.push(0x80), Err(LineError::NonPrintable));
    assert_eq!(line.as_str(), "");
}

#[test]
fn overflow_keeps_the_submitted_line_invalid_until_clear() {
    let mut line = LineBuffer::<1>::new();
    assert_eq!(line.push(b'a'), Ok(()));
    assert_eq!(line.push(b'b'), Err(LineError::Full));
    assert_eq!(line.finish(), Err(LineError::Full));

    line.clear();

    assert_eq!(line.finish(), Ok(""));
}

#[test]
fn backspace_after_overflow_keeps_the_submitted_line_invalid() {
    let mut line = LineBuffer::<1>::new();
    assert_eq!(line.push(b'a'), Ok(()));
    assert_eq!(line.push(b'b'), Err(LineError::Full));

    assert_eq!(line.backspace(), Some(b'a'));

    assert_eq!(line.finish(), Err(LineError::Full));
}

#[test]
fn keys_edit_and_submit_the_line() {
    let mut line = LineBuffer::<4>::new();
    assert_eq!(on_key(&mut line, b'l'), KeyAction::Echo(b'l'));
    assert_eq!(on_key(&mut line, b's'), KeyAction::Echo(b's'));
    assert_eq!(on_key(&mut line, b'x'), KeyAction::Echo(b'x'));
    assert_eq!(on_key(&mut line, 0x7f), KeyAction::Erase);
    assert_eq!(on_key(&mut line, 0x1b), KeyAction::Ignore);
    assert_eq!(on_key(&mut line, b'\r'), KeyAction::Submit);
    assert_eq!(line.finish(), Ok("ls"));
    line.clear();
    assert_eq!(on_key(&mut line, 0x08), KeyAction::Ignore);
}

#[test]
fn crlf_submits_once() {
    let mut line = LineBuffer::<4>::new();
    let mut after_cr = false;
    assert_eq!(on_key_crlf(&mut line, b'a', &mut after_cr), KeyAction::Echo(b'a'));
    assert_eq!(on_key_crlf(&mut line, b'\r', &mut after_cr), KeyAction::Submit);
    assert!(after_cr);
    assert_eq!(on_key_crlf(&mut line, b'\n', &mut after_cr), KeyAction::Ignore);
    assert!(!after_cr);
    assert_eq!(on_key_crlf(&mut line, b'\n', &mut after_cr), KeyAction::Submit);
}

#[test]
fn a_full_line_ignores_further_typing() {
    let mut line = LineBuffer::<1>::new();
    assert_eq!(on_key(&mut line, b'a'), KeyAction::Echo(b'a'));
    assert_eq!(on_key(&mut line, b'b'), KeyAction::Ignore);
    assert_eq!(line.finish(), Err(LineError::Full));
}

#[test]
fn cat_adds_a_newline_after_partial_output_before_an_error() {
    let mut output = [0; 1];
    let mut length = 0;
    let result = finish_cat_output(Err(()), Some(b'x'), |byte| {
        output[length] = byte;
        length += 1;
    });
    assert!(result.is_err());
    assert_eq!(&output[..length], b"\n");
}

#[test]
fn cat_does_not_duplicate_a_final_newline() {
    let mut called = false;
    let result = finish_cat_output(Ok::<(), ()>(()), Some(b'\n'), |_| called = true);
    assert!(result.is_ok());
    assert!(!called);
}

#[test]
fn cat_of_an_empty_file_adds_nothing() {
    let mut called = false;
    let result = finish_cat_output(Ok::<(), ()>(()), None, |_| called = true);
    assert!(result.is_ok());
    assert!(!called);
}

#[test]
fn a_refused_push_keeps_finish_full_even_after_erasing() {
    let mut line = LineBuffer::<2>::new();
    assert_eq!(line.push(b'a'), Ok(()));
    assert_eq!(line.push(0x01), Err(LineError::NonPrintable));
    assert_eq!(line.finish(), Ok("a"));
    assert_eq!(line.push(b'b'), Ok(()));
    assert_eq!(line.push(b'c'), Err(LineError::Full));
    assert_eq!(line.backspace(), Some(b'b'));
    assert_eq!(line.backspace(), Some(b'a'));
    assert_eq!(line.finish(), Err(LineError::Full));
    line.clear();
    assert_eq!(line.push(b'd'), Ok(()));
    assert_eq!(line.finish(), Ok("d"));
}

#[test]
fn cat_output_gets_a_newline_only_when_it_lacks_one() {
    let mut written = Vec::new();
    assert_eq!(finish_cat_output::<(), _>(Ok(()), Some(b'x'), |b| written.push(b)), Ok(()));
    assert_eq!(written, vec![b'\n']);
    let mut written = Vec::new();
    assert_eq!(finish_cat_output::<(), _>(Err(()), Some(b'\n'), |b| written.push(b)), Err(()));
    assert!(written.is_empty());
    let mut written = Vec::new();
    assert_eq!(finish_cat_output::<(), _>(Ok(()), None, |b| written.push(b)), Ok(()));
    assert!(written.is_empty());
}
