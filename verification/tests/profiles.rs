use fileport::profiles::{
    assign_id, find_profile, plan_connection, profile_not_found, remember_host_key, remove_profile,
    secret_to_store, upsert_profile, ConnectPlan,
};
use fileport::{Engine, FtpSecurity, Profile, Protocol, SshAuth, LOCAL_CONN};

fn profile(id: &str, protocol: Protocol) -> Profile {
    Profile {
        id: id.to_string(),
        name: format!("Profil {id}"),
        protocol,
        host: "example.org".to_string(),
        port: 0,
        user: "foo".to_string(),
        key_file: String::new(),
        host_key: String::new(),
        base_url: String::new(),
        account: String::new(),
        endpoint: String::new(),
        region: String::new(),
        bucket: String::new(),
        access_key: String::new(),
        path_style: false,
        accept_invalid_certs: false,
    }
}

#[test]
fn engine_keeps_local_and_numbers_connections() {
    let mut e: Engine<&str> = Engine::new("local");
    assert_eq!(*e.get(LOCAL_CONN).unwrap(), "local");
    let a = e.insert("sftp");
    let b = e.insert("s3");
    assert_eq!((a, b), (1, 2));
    assert_eq!(*e.get(a).unwrap(), "sftp");
    e.remove(a);
    assert_eq!(e.get(a).unwrap_err(), "Verbindung ist nicht mehr offen");
    assert_eq!(*e.get(b).unwrap(), "s3");
    e.remove(LOCAL_CONN);
    assert_eq!(*e.get(LOCAL_CONN).unwrap(), "local");
}

#[test]
fn saving_replaces_or_appends() {
    let mut list = vec![profile("p1", Protocol::Sftp), profile("p2", Protocol::Webdav)];
    let mut changed = profile("p1", Protocol::Ftps);
    changed.name = "neu".to_string();
    upsert_profile(&mut list, &changed);
    assert_eq!(list.len(), 2);
    assert_eq!(list[0].name, "neu");
    assert_eq!(list[0].protocol, Protocol::Ftps);
    upsert_profile(&mut list, &profile("p3", Protocol::S3));
    assert_eq!(list.len(), 3);
    assert_eq!(find_profile(&list, "p3"), Some(2));
    assert_eq!(find_profile(&list, "p9"), None);
}

#[test]
fn deleting_removes_every_copy() {
    let mut list = vec![profile("a", Protocol::Sftp), profile("b", Protocol::Sftp), profile("a", Protocol::Gcs)];
    remove_profile(&mut list, "a");
    assert_eq!(list.len(), 1);
    assert_eq!(list[0].id, "b");
    remove_profile(&mut list, "zzz");
    assert_eq!(list.len(), 1);
    assert_eq!(profile_not_found(), "Profil nicht gefunden");
}

#[test]
fn new_profiles_get_a_time_based_id() {
    let mut p = profile("", Protocol::Sftp);
    assign_id(&mut p, 1_767_225_600_123);
    assert_eq!(p.id, "p1767225600123");
    assign_id(&mut p, 5);
    assert_eq!(p.id, "p1767225600123");
    assert_eq!(secret_to_store(Some("geheim".to_string())), Some("geheim".to_string()));
    assert_eq!(secret_to_store(Some(String::new())), None);
    assert_eq!(secret_to_store(None), None);
}

#[test]
fn host_key_is_remembered_once() {
    let mut p = profile("p1", Protocol::Sftp);
    assert!(remember_host_key(&mut p, "ssh-ed25519 AAAA first"));
    assert_eq!(p.host_key, "ssh-ed25519 AAAA first");
    assert!(!remember_host_key(&mut p, "ssh-ed25519 BBBB second"));
    assert_eq!(p.host_key, "ssh-ed25519 AAAA first");
}

#[test]
fn sftp_profiles_use_key_or_password() {
    let mut p = profile("p1", Protocol::Sftp);
    match plan_connection(&p, "pw".to_string()) {
        Ok(ConnectPlan::Sftp(c)) => {
            assert_eq!(c.port, 22);
            assert!(matches!(c.auth, SshAuth::Password(ref s) if s == "pw"));
            assert!(c.expected_host_key.is_none());
        }
        _ => panic!("SFTP-Plan erwartet"),
    }
    p.key_file = "/k".to_string();
    p.port = 2222;
    p.host_key = "ssh-ed25519 AAAA".to_string();
    match plan_connection(&p, String::new()) {
        Ok(ConnectPlan::Sftp(c)) => {
            assert_eq!(c.port, 2222);
            assert!(matches!(c.auth, SshAuth::KeyFile { ref path, passphrase: None } if path == "/k"));
            assert_eq!(c.expected_host_key.as_deref(), Some("ssh-ed25519 AAAA"));
        }
        _ => panic!("SFTP-Plan erwartet"),
    }
}

#[test]
fn ftp_profiles_are_always_encrypted() {
    for (proto, port, sec) in [
        (Protocol::Ftp, 21, FtpSecurity::ExplicitTls),
        (Protocol::Ftps, 21, FtpSecurity::ExplicitTls),
        (Protocol::FtpsImplicit, 990, FtpSecurity::ImplicitTls),
    ] {
        match plan_connection(&profile("f", proto), "pw".to_string()) {
            Ok(ConnectPlan::Ftp(c)) => {
                assert_eq!(c.port, port);
                assert_eq!(c.security, sec);
                assert_eq!(c.password, "pw");
            }
            _ => panic!("FTP-Plan erwartet"),
        }
    }
}

#[test]
fn unencrypted_endpoints_are_refused() {
    let mut w = profile("w", Protocol::Webdav);
    w.base_url = "http://nas/dav".to_string();
    assert_eq!(plan_connection(&w, String::new()).err().unwrap(), "Nur https://-URLs — unverschlüsseltes WebDAV wird nicht unterstützt");
    w.base_url = "https://nas/dav".to_string();
    assert!(matches!(plan_connection(&w, String::new()), Ok(ConnectPlan::Webdav(_))));

    let mut s = profile("s", Protocol::S3);
    s.endpoint = "http://127.0.0.1:9000".to_string();
    assert_eq!(plan_connection(&s, String::new()).err().unwrap(), "Nur https://-Endpoints — unverschlüsselte Verbindungen sind deaktiviert");
    s.endpoint = String::new();
    match plan_connection(&s, "secret".to_string()) {
        Ok(ConnectPlan::S3(c)) => {
            assert!(c.endpoint.is_none());
            assert_eq!(c.region, "us-east-1");
            assert_eq!(c.secret_key, "secret");
        }
        _ => panic!("S3-Plan erwartet"),
    }
}

#[test]
fn azure_and_gcs_profiles() {
    let mut a = profile("a", Protocol::Azure);
    a.account = "acct".to_string();
    a.bucket = "cont".to_string();
    match plan_connection(&a, "key".to_string()) {
        Ok(ConnectPlan::Azure(c)) => {
            assert_eq!((c.account.as_str(), c.container.as_str(), c.access_key.as_str()), ("acct", "cont", "key"));
        }
        _ => panic!("Azure-Plan erwartet"),
    }
    let mut g = profile("g", Protocol::Gcs);
    g.bucket = "b".to_string();
    g.key_file = "/sa.json".to_string();
    match plan_connection(&g, String::new()) {
        Ok(ConnectPlan::Gcs(c)) => assert_eq!((c.bucket.as_str(), c.key_file.as_str()), ("b", "/sa.json")),
        _ => panic!("GCS-Plan erwartet"),
    }
}

#[test]
fn saving_twice_changes_nothing_more() {
    let mut list = vec![profile("p1", Protocol::Sftp)];
    let p = profile("p2", Protocol::Ftps);
    upsert_profile(&mut list, &p);
    upsert_profile(&mut list, &p);
    assert_eq!(list.len(), 2);
    assert_eq!(find_profile(&list, "p2"), Some(1));
}

#[test]
fn remembered_key_is_expected_next_time() {
    let mut p = profile("p1", Protocol::Sftp);
    assert!(remember_host_key(&mut p, "ssh-ed25519 AAAA seen"));
    match plan_connection(&p, "pw".to_string()) {
        Ok(ConnectPlan::Sftp(c)) => assert_eq!(c.expected_host_key.as_deref(), Some("ssh-ed25519 AAAA seen")),
        _ => panic!("SFTP-Plan erwartet"),
    }
}
