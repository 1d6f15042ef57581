use fileport::listing::{entries_below, entries_from_parsed, ftp_entries, ls_entries, ListedFile};
use fileport::ssh::{
    check_exit, home_dir, host_key_accepted, host_key_mismatch, key_file_error, list_command,
    login_refused, map_exec, mkdir_command, parse_file_size, remove_command, rename_command,
    shell_quote, size_command, ExecOutput,
};
use fileport::text::lines_of;
use fileport::{EntryKind, FpError};

const LS: &str = "total 12\n\
drwxr-xr-x  3 foo users 4096 Jan  5  2024 .\n\
drwxr-xr-x 10 foo users 4096 Jan  5  2024 ..\n\
drwxr-xr-x  2 foo users 4096 Mar  3  2023 it test\n\
-rw-r--r--  1 foo users  300 Feb 10  2022 file ä.bin\r\n\
lrwxrwxrwx  1 foo users    7 Feb 10  2022 link -> target\n\
kaputte Zeile\n";

#[test]
fn shell_quote_wraps_and_escapes_quotes() {
    assert_eq!(shell_quote("a b"), "'a b'");
    assert_eq!(shell_quote("a'b"), "'a'\\''b'");
    assert_eq!(shell_quote(""), "''");
    assert_eq!(shell_quote("''"), "''\\'''\\'''");
}

#[test]
fn remote_commands_quote_their_paths() {
    assert_eq!(list_command("/it test"), "LC_ALL=C ls -la '/it test'");
    assert_eq!(mkdir_command("/a'b"), "mkdir '/a'\\''b'");
    assert_eq!(remove_command("/d", true), "rm -r '/d'");
    assert_eq!(remove_command("/f", false), "rm '/f'");
    assert_eq!(rename_command("/a", "/b c"), "mv '/a' '/b c'");
    assert_eq!(size_command("/f ä"), "wc -c < '/f ä'");
}

#[test]
fn shell_errors_map_to_kinds() {
    assert!(matches!(map_exec("/x", "ls: cannot access '/x': No such file or directory\n"), FpError::NotFound(p) if p == "/x"));
    assert!(matches!(map_exec("/x", "rm: Permission denied"), FpError::Denied(p) if p == "/x"));
    assert!(matches!(map_exec("/x", "mv: Operation not permitted"), FpError::Denied(_)));
    assert!(matches!(map_exec("/x", "  disk full \n"), FpError::Protocol(m) if m == "/x: disk full"));
}

#[test]
fn exit_codes_decide_success() {
    assert_eq!(check_exit(b"out".to_vec(), "", 0, "/p").unwrap(), b"out".to_vec());
    assert!(matches!(check_exit(b"out".to_vec(), "No such file or directory", 2, "/p"), Err(FpError::NotFound(p)) if p == "/p"));
}

#[test]
fn home_dir_needs_an_absolute_path() {
    assert_eq!(home_dir(b"/home/foo\n"), "/home/foo");
    assert_eq!(home_dir(b"  relative\n"), "/");
    assert_eq!(home_dir(b""), "/");
    assert_eq!(home_dir(b"/h\xffx"), "/h\u{fffd}x");
}

#[test]
fn file_size_from_wc_output() {
    assert_eq!(parse_file_size(b"  300000\n", "/f").unwrap(), 300000);
    assert_eq!(parse_file_size(b"+5", "/f").unwrap(), 5);
    assert!(matches!(parse_file_size(b"wc: nope", "/f"), Err(FpError::Protocol(m)) if m == "/f: unlesbare Dateigröße"));
    assert!(parse_file_size(b"18446744073709551616", "/f").is_err());
    assert_eq!(parse_file_size(b"18446744073709551615", "/f").unwrap(), u64::MAX);
}

#[test]
fn exec_output_collects_streams() {
    let mut out = ExecOutput::new();
    out.data(b"ab");
    out.extended(1, b"err ");
    out.extended(2, b"ignored");
    out.data(b"c");
    out.extended(1, b"more");
    out.exit_status(3);
    let (stdout, stderr, exit) = out.finish();
    assert_eq!(stdout, b"abc".to_vec());
    assert_eq!(stderr, "err more");
    assert_eq!(exit, 3);
}

#[test]
fn host_keys_are_trusted_on_first_use() {
    let key = "ssh-ed25519 AAAAC3Nza key";
    assert!(host_key_accepted(None, key));
    assert!(host_key_accepted(Some(key), key));
    assert!(host_key_accepted(Some("  ssh-ed25519 AAAAC3Nza key\n"), key));
    assert!(!host_key_accepted(Some("ssh-ed25519 AAAAC3NzX key"), key));
    assert!(!host_key_accepted(Some(""), key));
}

#[test]
fn connection_error_texts() {
    assert!(matches!(host_key_mismatch("h"), FpError::Connect(m) if m == "Host-Key von h stimmt nicht mit dem gespeicherten überein"));
    assert!(matches!(login_refused("foo"), FpError::Auth(m) if m == "Server hat die Anmeldung als foo abgelehnt"));
    assert!(matches!(key_file_error("fehlt"), FpError::Auth(m) if m == "Schlüsseldatei: fehlt"));
}

#[test]
fn lines_follow_str_lines() {
    assert_eq!(lines_of("a\r\nb\n"), vec!["a", "b"]);
    assert_eq!(lines_of("a\rb"), vec!["a\rb"]);
    assert_eq!(lines_of("\n\nx"), vec!["", "", "x"]);
    assert!(lines_of("").is_empty());
}

#[test]
fn ls_listing_becomes_entries() {
    let entries = ls_entries("/home/foo", LS);
    let names: Vec<&str> = entries.iter().map(|e| e.name.as_str()).collect();
    assert_eq!(names, vec!["it test", "file ä.bin", "link", "kaputte Zeile"]);
    assert_eq!(entries[0].kind, EntryKind::Dir);
    assert_eq!(entries[0].path, "/home/foo/it test");
    assert_eq!(entries[0].modified, Some(1_677_801_600));
    assert_eq!(entries[1].kind, EntryKind::File);
    assert_eq!(entries[1].size, 300);
    assert_eq!(entries[1].modified, Some(1_644_451_200));
    assert_eq!(entries[2].kind, EntryKind::Symlink);
    assert_eq!(entries[2].path, "/home/foo/link");
    assert_eq!(entries[3].kind, EntryKind::File);
    assert_eq!(entries[3].modified, Some(0));
}

#[test]
fn ftp_listing_skips_dot_entries_and_unparsable_lines() {
    let lines: Vec<String> = LS.lines().skip(1).map(str::to_string).collect();
    let entries = ftp_entries("/", &lines);
    assert_eq!(entries.len(), 4);
    assert_eq!(entries[1].path, "/file ä.bin");
    let dos = vec!["10-19-20  03:19PM       <DIR>          pub".to_string()];
    let entries = ftp_entries("/srv/", &dos);
    assert_eq!(entries.len(), 1);
    assert_eq!(entries[0].path, "/srv/pub");
    assert_eq!(entries[0].kind, EntryKind::Dir);
    let bad = vec!["type=bogus; x".to_string(), "-rw-r--r-- 1 u g 5 Nov 5 2018 ok".to_string()];
    let entries = ftp_entries("/", &bad);
    assert_eq!(entries.len(), 1);
    assert_eq!(entries[0].name, "ok");
}

#[test]
fn list_line_parser_reads_posix_lines() {
    let lines = vec![
        "-rw-r--r-- 1 user group 1234 Nov 5 2018 example.txt".to_string(),
        "type=bogus; x".to_string(),
        "total 8".to_string(),
    ];
    let entries = ftp_entries("/d", &lines);
    assert_eq!(entries.len(), 2);
    assert_eq!(entries[0].name, "example.txt");
    assert_eq!(entries[0].path, "/d/example.txt");
    assert_eq!(entries[0].size, 1234);
    assert_eq!(entries[0].kind, EntryKind::File);
    assert_eq!(entries[1].name, "total 8");
}

#[test]
fn entries_below_keep_order_and_drop_dots() {
    let file = |name: &str, is_dir: bool| ListedFile { name: name.to_string(), is_dir, is_symlink: false, size: 1, modified: None };
    let entries = entries_below("/share", vec![file(".", true), file("b", false), file("..", true), file("a", true)]);
    assert_eq!(entries.len(), 2);
    assert_eq!(entries[0].path, "/share/b");
    assert_eq!(entries[1].kind, EntryKind::Dir);
    let none = entries_from_parsed("/", vec![None, None]);
    assert!(none.is_empty());
}

#[test]
fn bare_words_are_listed_as_plain_files() {
    let lines = vec!["readme".to_string(), "a=b".to_string(), ".".to_string(), "x;y".to_string()];
    let entries = ftp_entries("/srv", &lines);
    assert_eq!(entries[0].name, "readme");
    assert_eq!(entries[0].path, "/srv/readme");
    assert_eq!(entries[0].kind, EntryKind::File);
    assert_eq!((entries[0].size, entries[0].modified), (0, Some(0)));
    assert!(entries.iter().all(|e| e.name != "."));
    let ls = ls_entries("/", "total 4\nnotes\n");
    assert_eq!(ls.len(), 1);
    assert_eq!(ls[0].path, "/notes");
}

#[test]
fn lines_that_would_break_the_parser_are_recognised() {
    assert!(fileport::listing::parses_safely("-rw-r--r-- 1 u g 1290 Mar 29 2020 f29.txt"));
    assert!(!fileport::listing::parses_safely("modify=19691231235960; x"));
    assert!(!fileport::listing::parses_safely("type=file;modify=1969 12 31 23 59 60.5; y"));
    let lines = vec!["a".to_string(), "modify=19691231235960; x".to_string()];
    assert!(!fileport::listing::lines_parse_safely(&lines));
    assert!(fileport::listing::lines_parse_safely(&vec!["a".to_string()]));
    assert!(fileport::listing::ls_parses_safely("total 8\n-rw-r--r-- 1 u g 1290 Mar 29 2020 f29.txt\n"));
    let entries = ftp_entries("/d", &vec!["-rw-r--r-- 1 u g 1290 Mar 29 2020 f29.txt".to_string()]);
    assert_eq!(entries.len(), 1);
    assert_eq!(entries[0].name, "f29.txt");
    assert_eq!(entries[0].size, 1290);
}
