use emulator::{decode, segment, wrap_text, Command};

fn text_cmd(s: &str) -> Vec<u8> {
    let mut v = vec![0x01u8, s.len() as u8];
    v.extend_from_slice(s.as_bytes());
    v
}

#[test]
fn decode_empty_stream_yields_no_commands() {
    let cmds = decode(&Vec::new());
    assert_eq!(cmds.len(), 0);
}

#[test]
fn decode_text_command() {
    let cmds = decode(&text_cmd("HI"));
    assert_eq!(cmds.len(), 1);
    match &cmds[0] {
        Command::Text { offset, content } => {
            assert_eq!(*offset, 0);
            assert_eq!(content, &vec![b'H', b'I']);
        },
        _ => panic!("expected a text command"),
    }
}

#[test]
fn decode_unknown_opcode_resynchronizes_one_byte() {
    let cmds = decode(&vec![0xff, 0x04]);
    assert_eq!(cmds.len(), 2);
    match &cmds[0] {
        Command::Unknown { offset, opcode, raw } => {
            assert_eq!(*offset, 0);
            assert_eq!(*opcode, 0xff);
            assert!(raw.is_empty());
        },
        _ => panic!("expected an unknown command"),
    }
    match &cmds[1] {
        Command::Cut { offset } => assert_eq!(*offset, 1),
        _ => panic!("expected a cut command"),
    }
}

#[test]
fn decode_truncated_command_becomes_unknown_and_stops() {
    // A text command declaring 5 bytes with only 1 supplied.
    let cmds = decode(&vec![0x01, 5, b'A']);
    assert_eq!(cmds.len(), 1);
    match &cmds[0] {
        Command::Unknown { offset, opcode, raw } => {
            assert_eq!(*offset, 0);
            assert_eq!(*opcode, 0x01);
            assert_eq!(raw, &vec![5, b'A']);
        },
        _ => panic!("expected an unknown command"),
    }
}

#[test]
fn decode_style_clamps_scale() {
    let cmds = decode(&vec![0x02, 0x01, 9]);
    match &cmds[0] {
        Command::SetStyle { style, .. } => {
            assert!(style.bold);
            assert!(!style.underline);
            assert_eq!(style.scale, 1);
        },
        _ => panic!("expected a style command"),
    }
}

#[test]
fn segment_empty_stream_yields_zero_jobs() {
    let jobs = segment(Vec::new());
    assert_eq!(jobs.len(), 0);
}

#[test]
fn segment_counts_cuts_plus_trailing_remainder() {
    // Two cuts with a trailing remainder: three jobs.
    let mut bytes = text_cmd("A");
    bytes.push(0x04);
    bytes.extend_from_slice(&text_cmd("B"));
    bytes.push(0x04);
    bytes.extend_from_slice(&text_cmd("C"));
    let jobs = segment(decode(&bytes));
    assert_eq!(jobs.len(), 3);
    assert_eq!(jobs[0].commands.len(), 2);
    assert_eq!(jobs[1].commands.len(), 2);
    assert_eq!(jobs[2].commands.len(), 1);
}

#[test]
fn segment_without_trailing_remainder_counts_cuts_only() {
    let mut bytes = text_cmd("A");
    bytes.push(0x04);
    bytes.extend_from_slice(&text_cmd("B"));
    bytes.push(0x04);
    let jobs = segment(decode(&bytes));
    assert_eq!(jobs.len(), 2);
}

#[test]
fn segment_lone_cut_yields_one_job_of_the_cut() {
    let jobs = segment(decode(&vec![0x04]));
    assert_eq!(jobs.len(), 1);
    assert_eq!(jobs[0].commands.len(), 1);
    assert!(matches!(jobs[0].commands[0], Command::Cut { .. }));
}

#[test]
fn wrap_breaks_at_last_fitting_space() {
    let lines = wrap_text(&b"HELLO WORLD TEST".to_vec(), 5);
    assert_eq!(lines, vec![b"HELLO".to_vec(), b"WORLD".to_vec(), b"TEST".to_vec()]);
}

#[test]
fn wrap_hard_breaks_oversized_tokens() {
    let lines = wrap_text(&b"ABCDEFGH".to_vec(), 3);
    assert_eq!(lines, vec![b"ABC".to_vec(), b"DEF".to_vec(), b"GH".to_vec()]);
}

#[test]
fn wrap_drops_leading_break_space() {
    let lines = wrap_text(&b" ABCDE".to_vec(), 3);
    assert_eq!(lines, vec![b"ABC".to_vec(), b"DE".to_vec()]);
}

#[test]
fn wrap_is_idempotent_on_its_own_lines() {
    let lines = wrap_text(&b"HELLO WORLD TEST WRAP".to_vec(), 7);
    let mut rewrapped: Vec<Vec<u8>> = Vec::new();
    for l in &lines {
        rewrapped.extend(wrap_text(l, 7));
    }
    assert_eq!(rewrapped, lines);
}

#[test]
fn wrap_empty_text_yields_no_lines() {
    let lines = wrap_text(&Vec::new(), 10);
    assert_eq!(lines.len(), 0);
}
