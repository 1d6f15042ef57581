use fileport::rsync::{
    remote_arg, rsync_failure, rsync_key_file, rsync_label, rsync_missing, rsync_spawn_error,
    ssh_transport, ProgressLines,
};
use fileport::{FpError, SshAuth};

fn feed_all(p: &mut ProgressLines, bytes: &[u8]) -> Vec<u64> {
    let mut seen = Vec::new();
    for b in bytes {
        if let Some(n) = p.feed(*b) {
            seen.push(n);
        }
    }
    seen
}

#[test]
fn key_file_is_required() {
    let key = SshAuth::KeyFile { path: "/home/foo/.ssh/id_ed25519".to_string(), passphrase: None };
    assert_eq!(rsync_key_file(&key).unwrap(), "/home/foo/.ssh/id_ed25519");
    let err = rsync_key_file(&SshAuth::Password("egal".to_string())).unwrap_err();
    assert!(matches!(err, FpError::Auth(m) if m == "rsync-Transfers laufen über das System-SSH und brauchen eine SSH-Schlüsseldatei — Passwort-Anmeldung wird hier nicht unterstützt"));
}

#[test]
fn transport_and_remote_argument() {
    assert_eq!(
        ssh_transport(2224, "/k ey"),
        "ssh -o BatchMode=yes -o StrictHostKeyChecking=accept-new -p 2224 -i '/k ey'"
    );
    assert_eq!(remote_arg("foo", "127.0.0.1", "/it test/file ä.bin"), "foo@127.0.0.1:'/it test/file ä.bin'");
    assert_eq!(rsync_label("foo", "127.0.0.1"), "rsync://foo@127.0.0.1");
}

#[test]
fn progress_lines_report_moved_bytes() {
    let mut p = ProgressLines::new();
    let out = b"file.bin\n     32,768  10%    0.00kB/s    0:00:00\r    300,000 100%   12.34MB/s    0:00:00 (xfr#1, to-chk=0/1)\n\nsent 300,123 bytes\n";
    assert_eq!(feed_all(&mut p, out), vec![32768, 300000]);
}

#[test]
fn progress_lines_without_digits_are_skipped() {
    let mut p = ProgressLines::new();
    assert_eq!(feed_all(&mut p, b"abc 50%\r"), Vec::<u64>::new());
    assert_eq!(feed_all(&mut p, b"1.2.3 5%\n"), vec![123]);
    assert_eq!(feed_all(&mut p, b"99 no percent\n"), Vec::<u64>::new());
    assert_eq!(p.feed(b'7'), None);
}

#[test]
fn rsync_failures_map_to_kinds() {
    assert!(matches!(rsync_failure("rsync: link_stat \"/x\" failed: No such file or directory (2)\n", "/x"), FpError::NotFound(p) if p == "/x"));
    assert!(matches!(rsync_failure("  foo@host: Permission denied (publickey).\n", "/x"), FpError::Auth(m) if m == "rsync/SSH: foo@host: Permission denied (publickey). — funktioniert die Schlüsseldatei ohne Passphrase-Abfrage?"));
    assert!(matches!(rsync_failure("permission denied", "/x"), FpError::Auth(_)));
    assert!(matches!(rsync_failure(" protocol version mismatch\n", "/x"), FpError::Protocol(m) if m == "rsync: protocol version mismatch"));
    assert!(matches!(rsync_missing(), FpError::Connect(m) if m == "Kein rsync-Programm gefunden — bitte rsync lokal installieren"));
    assert!(matches!(rsync_spawn_error("not found"), FpError::Connect(m) if m == "rsync ließ sich nicht starten: not found"));
}
