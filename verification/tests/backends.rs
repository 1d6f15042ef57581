use fileport::ftp::{connection_closed, ftp_label, map_ftp, socket_addr, tls_error, FtpFailure};
use fileport::objstore::{
    azure_label, dir_marker_key, gcs_label, list_prefix, map_obj, object_entries, object_key,
    s3_endpoint, s3_label, ListedObject, ListedPrefix, ObjFailure, DIR_MARKER,
};
use fileport::sftp::{handshake_error, map_sftp, sftp_file, sftp_label, subsystem_error, SftpFailure};
use fileport::smb::{
    map_smb, share_error, smb_addr, smb_connect_error, smb_label, smb_path, smb_port,
    split_account, SmbErrorKind, SMB_CHUNK,
};
use fileport::error::map_io;
use fileport::{EntryKind, FpError, LocalBackend};

#[test]
fn object_keys_drop_slashes() {
    assert_eq!(object_key("/it/file.bin"), "it/file.bin");
    assert_eq!(object_key("//a/b//"), "a/b");
    assert_eq!(list_prefix("/"), None);
    assert_eq!(list_prefix("/it/"), Some("it".to_string()));
    assert_eq!(dir_marker_key("/it/"), "it/.fileport-dir");
    assert_eq!(DIR_MARKER, ".fileport-dir");
}

#[test]
fn object_listing_shows_folders_then_files() {
    let prefixes = vec![ListedPrefix { key: "it/sub".to_string(), name: "sub".to_string() }];
    let objects = vec![
        ListedObject { location: "it".to_string(), name: "it".to_string(), size: 0, modified: 1 },
        ListedObject { location: "it/.fileport-dir".to_string(), name: ".fileport-dir".to_string(), size: 0, modified: 2 },
        ListedObject { location: "it/file.bin".to_string(), name: "file.bin".to_string(), size: 300000, modified: 1_700_000_000 },
        ListedObject { location: "it/x/".to_string(), name: String::new(), size: 0, modified: 3 },
    ];
    let entries = object_entries("it", prefixes, objects);
    assert_eq!(entries.len(), 2);
    assert_eq!((entries[0].name.as_str(), entries[0].path.as_str(), entries[0].kind), ("sub", "/it/sub", EntryKind::Dir));
    assert_eq!(entries[0].modified, None);
    assert_eq!((entries[1].name.as_str(), entries[1].path.as_str(), entries[1].kind), ("file.bin", "/it/file.bin", EntryKind::File));
    assert_eq!((entries[1].size, entries[1].modified), (300000, Some(1_700_000_000)));
}

#[test]
fn object_store_errors_and_labels() {
    assert!(matches!(map_obj("/x", ObjFailure::NotFound), FpError::NotFound(p) if p == "/x"));
    assert!(matches!(map_obj("/x", ObjFailure::PermissionDenied), FpError::Auth(m) if m == "/x: Zugriff abgelehnt"));
    assert!(matches!(map_obj("/x", ObjFailure::Unauthenticated), FpError::Auth(m) if m == "/x: Zugriff abgelehnt"));
    assert!(matches!(map_obj("/x", ObjFailure::Other("boom".to_string())), FpError::Protocol(m) if m == "boom"));
    assert_eq!(s3_endpoint("http://127.0.0.1:9000//"), ("http://127.0.0.1:9000".to_string(), true));
    assert_eq!(s3_endpoint("https://s3.example.org"), ("https://s3.example.org".to_string(), false));
    assert_eq!(s3_label("testbucket"), "s3://testbucket");
    assert_eq!(azure_label("acct", "cont"), "az://acct/cont");
    assert_eq!(gcs_label("b"), "gs://b");
}

#[test]
fn smb_paths_ports_and_accounts() {
    assert_eq!(smb_path("/it test/file ä.bin"), "it test/file ä.bin");
    assert_eq!(smb_path("/"), "");
    assert_eq!(smb_port(0), 445);
    assert_eq!(smb_port(1445), 1445);
    assert_eq!(smb_addr("nas", 0), "nas:445");
    assert_eq!(split_account("DOM\\foo"), ("DOM".to_string(), "foo".to_string()));
    assert_eq!(split_account("foo"), (String::new(), "foo".to_string()));
    assert_eq!(split_account("a\\b\\c"), ("a".to_string(), "b\\c".to_string()));
    assert_eq!(smb_label("nas", "share"), "smb://nas/share");
    assert_eq!(SMB_CHUNK, 256 * 1024);
}

#[test]
fn smb_errors_map_to_kinds() {
    assert!(matches!(map_smb("/x", SmbErrorKind::NotFound, "t"), FpError::NotFound(p) if p == "/x"));
    assert!(matches!(map_smb("/x", SmbErrorKind::AccessDenied, "t"), FpError::Denied(p) if p == "/x"));
    assert!(matches!(map_smb("/x", SmbErrorKind::AuthRequired, "logon failure"), FpError::Auth(m) if m == "logon failure"));
    assert!(matches!(map_smb("/x", SmbErrorKind::Other, "boom"), FpError::Protocol(m) if m == "/x: boom"));
    assert!(matches!(smb_connect_error(SmbErrorKind::AuthRequired, "foo", "t"), FpError::Auth(m) if m == "Server hat die Anmeldung als foo abgelehnt"));
    assert!(matches!(smb_connect_error(SmbErrorKind::Other, "foo", "refused"), FpError::Connect(m) if m == "refused"));
    assert!(matches!(share_error("it", "bad name"), FpError::Connect(m) if m == "Freigabe it: bad name"));
}

#[test]
fn sftp_status_and_files() {
    assert!(matches!(map_sftp("/x", SftpFailure::NoSuchFile), FpError::NotFound(p) if p == "/x"));
    assert!(matches!(map_sftp("/x", SftpFailure::PermissionDenied), FpError::Denied(p) if p == "/x"));
    assert!(matches!(map_sftp("/x", SftpFailure::Status("Failure".to_string())), FpError::Protocol(m) if m == "/x: Failure"));
    assert!(matches!(map_sftp("/x", SftpFailure::Other("eof".to_string())), FpError::Protocol(m) if m == "eof"));
    let f = sftp_file("a".to_string(), false, false, None, Some(7));
    assert_eq!((f.name.as_str(), f.size, f.modified), ("a", 0, Some(7)));
    assert_eq!(sftp_label("foo", "h"), "sftp://foo@h");
    assert!(matches!(subsystem_error("x"), FpError::Connect(m) if m == "SFTP-Subsystem: x"));
    assert!(matches!(handshake_error("y"), FpError::Connect(m) if m == "SFTP-Handshake: y"));
}

#[test]
fn ftp_replies_map_to_kinds() {
    assert!(matches!(map_ftp("/x", FtpFailure::Reply(550, "no".to_string())), FpError::NotFound(p) if p == "/x"));
    assert!(matches!(map_ftp("/x", FtpFailure::Reply(530, "Login incorrect".to_string())), FpError::Auth(m) if m == "Login incorrect"));
    assert!(matches!(map_ftp("/x", FtpFailure::Reply(532, "t".to_string())), FpError::Denied(_)));
    assert!(matches!(map_ftp("/x", FtpFailure::Reply(533, "t".to_string())), FpError::Denied(_)));
    assert!(matches!(map_ftp("/x", FtpFailure::Reply(421, "bye".to_string())), FpError::Protocol(m) if m == "/x: bye"));
    assert!(matches!(map_ftp("/x", FtpFailure::Other("io".to_string())), FpError::Protocol(m) if m == "io"));
    assert_eq!(ftp_label("foo", "127.0.0.1"), "ftps://foo@127.0.0.1");
    assert_eq!(socket_addr("127.0.0.1", 2121), "127.0.0.1:2121");
    assert!(matches!(tls_error("bad cert"), FpError::Connect(m) if m == "TLS: bad cert"));
    assert!(matches!(connection_closed(), FpError::Connect(m) if m == "FTP-Verbindung ist geschlossen"));
}

#[test]
fn io_errors_and_messages() {
    let nf = map_io("/nope", std::io::Error::from(std::io::ErrorKind::NotFound));
    assert!(matches!(nf, FpError::NotFound(ref p) if p == "/nope"));
    assert_eq!(nf.message(), "Nicht gefunden: /nope");
    let pd = map_io("/root", std::io::Error::from(std::io::ErrorKind::PermissionDenied));
    assert!(matches!(pd, FpError::Denied(ref p) if p == "/root"));
    let other = map_io("/f", std::io::Error::new(std::io::ErrorKind::Other, "kaputt"));
    assert!(matches!(other, FpError::Io(_)));
    assert_eq!(other.message(), "E/A-Fehler: kaputt");
    assert_eq!(FpError::Connect("x".to_string()).message(), "Verbindung fehlgeschlagen: x");
    assert_eq!(FpError::Auth("x".to_string()).message(), "Anmeldung fehlgeschlagen: x");
    assert_eq!(FpError::Denied("x".to_string()).message(), "Zugriff verweigert: x");
    assert_eq!(FpError::Protocol("x".to_string()).message(), "x");
    assert_eq!(FpError::Cancelled.message(), "Übertragung abgebrochen");
    assert!(FpError::Cancelled.is_cancelled());
    assert!(!FpError::proto("x".to_string()).is_cancelled());
}

#[test]
fn local_entries_from_metadata() {
    assert_eq!(LocalBackend.label(), "local");
    let e = LocalBackend::entry_for("/tmp/a.txt".to_string(), Some("a.txt".to_string()), false, false, 2, Some(5));
    assert_eq!((e.name.as_str(), e.kind, e.size, e.modified), ("a.txt", EntryKind::File, 2, Some(5)));
    let d = LocalBackend::entry_for("/".to_string(), None, false, true, 0, None);
    assert_eq!((d.name.as_str(), d.kind), ("/", EntryKind::Dir));
    let l = LocalBackend::entry_for("/l".to_string(), Some("l".to_string()), true, true, 0, None);
    assert_eq!(l.kind, EntryKind::Symlink);
}
