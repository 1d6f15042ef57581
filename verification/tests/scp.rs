use fileport::scp::{
    ack_error, ack_step, eof_error, fetch_command, header_size, no_shell_error, scp_eof, scp_label,
    store_command, upload_header, AckStep, LineReader, MAX_LINE,
};
use fileport::FpError;

#[test]
fn scp_commands_quote_the_remote_path() {
    assert_eq!(fetch_command("/it test/file ä.bin"), "scp -f '/it test/file ä.bin'");
    assert_eq!(store_command("/a'b"), "scp -t '/a'\\''b'");
    assert_eq!(scp_label("foo", "127.0.0.1"), "scp://foo@127.0.0.1");
}

#[test]
fn upload_header_names_the_file_only() {
    assert_eq!(upload_header(300000, "/it test/file ä.bin"), "C0644 300000 file ä.bin\n");
    assert_eq!(upload_header(0, "/x/dir/"), "C0644 0 dir\n");
    assert_eq!(upload_header(u64::MAX, "f"), "C0644 18446744073709551615 f\n");
}

#[test]
fn header_size_reads_the_second_word() {
    assert_eq!(header_size("C0644 300000 file ä.bin").unwrap(), 300000);
    assert_eq!(header_size("C0644   +42 x").unwrap(), 42);
    assert!(matches!(header_size("C0644 abc x"), Err(FpError::Protocol(m)) if m == "SCP: unlesbarer Header „C0644 abc x“"));
    assert!(matches!(header_size("C0644"), Err(FpError::Protocol(m)) if m == "SCP: unlesbarer Header „C0644“"));
    assert!(matches!(header_size("\u{1}scp: /x: No such file or directory  "), Err(FpError::Protocol(m)) if m == "SCP: scp: /x: No such file or directory"));
    assert!(matches!(header_size("D0755 0 dir"), Err(FpError::Protocol(m)) if m == "SCP: unerwarteter Header „D0755 0 dir“"));
    assert!(matches!(header_size(""), Err(FpError::Protocol(m)) if m == "SCP: unerwarteter Header „“"));
}

#[test]
fn ack_bytes_have_their_meaning() {
    assert!(matches!(ack_step(0), AckStep::Done));
    assert!(matches!(ack_step(1), AckStep::ReadMessage));
    assert!(matches!(ack_step(2), AckStep::ReadMessage));
    assert!(matches!(ack_step(0x41), AckStep::Failed(FpError::Protocol(m)) if m == "SCP: unerwartete Antwort (0x41)"));
    assert!(matches!(ack_step(0xfe), AckStep::Failed(FpError::Protocol(m)) if m == "SCP: unerwartete Antwort (0xfe)"));
    assert!(matches!(ack_step(3), AckStep::Failed(FpError::Protocol(m)) if m == "SCP: unerwartete Antwort (0x03)"));
    assert!(matches!(ack_error("  scp: /x: Permission denied\n"), FpError::Protocol(m) if m == "SCP: scp: /x: Permission denied"));
}

#[test]
fn early_end_of_session_is_explained() {
    assert!(matches!(eof_error(true, "egal"), FpError::Protocol(m) if m == "SCP: Server hat die Sitzung beendet — ist scp auf dem Server installiert?"));
    assert!(matches!(eof_error(false, "broken pipe"), FpError::Protocol(m) if m == "broken pipe"));
    let eof = scp_eof(std::io::Error::from(std::io::ErrorKind::UnexpectedEof));
    assert!(matches!(eof, FpError::Protocol(m) if m == "SCP: Server hat die Sitzung beendet — ist scp auf dem Server installiert?"));
    let other = scp_eof(std::io::Error::new(std::io::ErrorKind::Other, "kaputt"));
    assert!(matches!(other, FpError::Protocol(m) if m == "kaputt"));
    let e = no_shell_error("SCP", &FpError::Protocol("kein exec".to_string()));
    assert!(matches!(e, FpError::Connect(m) if m == "Server erlaubt keine Shell-Kommandos (für SCP nötig): kein exec"));
}

#[test]
fn line_reader_splits_at_newline() {
    let mut r = LineReader::new();
    for b in b"C0644 5 a\xff" {
        assert!(matches!(r.feed(*b), Ok(None)));
    }
    let line = r.feed(b'\n').unwrap().unwrap();
    assert_eq!(line, "C0644 5 a\u{fffd}");
    assert!(matches!(r.feed(b'\n'), Ok(Some(l)) if l.is_empty()));
}

#[test]
fn line_reader_refuses_overlong_lines() {
    let mut r = LineReader::new();
    for _ in 0..MAX_LINE {
        assert!(matches!(r.feed(b'x'), Ok(None)));
    }
    assert!(matches!(r.feed(b'x'), Err(FpError::Protocol(m)) if m == "SCP: überlange Protokollzeile"));
}

#[test]
fn announced_size_is_read_back() {
    for (size, remote) in [(0u64, "/a"), (300000, "/it test/file ä.bin"), (u64::MAX, "/x/with space")] {
        let header = upload_header(size, remote);
        let line = header.strip_suffix('\n').unwrap();
        assert_eq!(header_size(line).unwrap(), size);
    }
}
