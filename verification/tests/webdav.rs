use fileport::webdav::{
    check_status, dav_url, entries_from_events, map_status, parse_propfind, read_xml_events,
    rel_path, uploaded_bytes, webdav_settings, XmlEvent,
};
use fileport::{EntryKind, FpError};

const APACHE: &str = r#"<?xml version="1.0" encoding="utf-8"?>
<D:multistatus xmlns:D="DAV:">
  <D:response>
    <D:href>/dav/docs/</D:href>
    <D:propstat><D:prop><D:resourcetype><D:collection/></D:resourcetype></D:prop>
      <D:status>HTTP/1.1 200 OK</D:status></D:propstat>
  </D:response>
  <D:response>
    <D:href>/dav/docs/Bericht%202026.pdf</D:href>
    <D:propstat><D:prop>
      <D:resourcetype/>
      <D:getcontentlength>12345</D:getcontentlength>
      <D:getlastmodified>Tue, 18 Aug 2026 10:00:00 GMT</D:getlastmodified>
    </D:prop><D:status>HTTP/1.1 200 OK</D:status></D:propstat>
  </D:response>
  <D:response>
    <D:href>/dav/docs/unter/</D:href>
    <D:propstat><D:prop><D:resourcetype><D:collection/></D:resourcetype></D:prop>
      <D:status>HTTP/1.1 200 OK</D:status></D:propstat>
  </D:response>
</D:multistatus>"#;

#[test]
fn parses_apache_style_multistatus() {
    let entries = parse_propfind(APACHE, "/dav", "/docs").unwrap();
    assert_eq!(entries.len(), 2);
    assert_eq!(entries[0].name, "Bericht 2026.pdf");
    assert_eq!(entries[0].path, "/docs/Bericht 2026.pdf");
    assert_eq!(entries[0].kind, EntryKind::File);
    assert_eq!(entries[0].size, 12345);
    assert!(entries[0].modified.is_some());
    assert_eq!(entries[1].name, "unter");
    assert_eq!(entries[1].kind, EntryKind::Dir);
}

#[test]
fn propfind_reads_the_date_as_unix_seconds() {
    let entries = parse_propfind(APACHE, "/dav", "/docs").unwrap();
    assert_eq!(entries[0].modified, Some(1_787_047_200));
    assert_eq!(entries[1].modified, None);
    assert_eq!(entries[1].size, 0);
}

#[test]
fn propfind_tag_names_are_case_insensitive() {
    let xml = r#"<?xml version="1.0"?>
<d:MultiStatus xmlns:d="DAV:">
  <d:RESPONSE><d:HREF>/files/a.txt</d:HREF>
    <d:propstat><d:prop><d:GetContentLength> 7 </d:GetContentLength></d:prop></d:propstat>
  </d:RESPONSE>
  <d:Response><d:Href>/files/sub/</d:Href>
    <d:propstat><d:prop><d:resourceType><d:Collection/></d:resourceType></d:prop></d:propstat>
  </d:Response>
</d:MultiStatus>"#;
    let entries = parse_propfind(xml, "/files", "/").unwrap();
    // dir "/" itself never matches, so both entries are listed
    assert_eq!(entries.len(), 2);
    assert_eq!(entries[0].path, "/a.txt");
    assert_eq!(entries[0].size, 7);
    assert_eq!(entries[0].kind, EntryKind::File);
    assert_eq!(entries[1].path, "/sub");
    assert_eq!(entries[1].kind, EntryKind::Dir);
}

#[test]
fn propfind_strips_scheme_and_host_from_hrefs() {
    let xml = r#"<multistatus xmlns="DAV:">
  <response><href>https://cloud.example.com/remote.php/dav/files/anna/</href></response>
  <response><href>https://cloud.example.com/remote.php/dav/files/anna/Fotos%20%C3%A4/</href>
    <propstat><prop><resourcetype><collection/></resourcetype></prop></propstat></response>
</multistatus>"#;
    let entries = parse_propfind(xml, "/remote.php/dav/files/anna", "").unwrap();
    // listing the root (dir "", the trimmed "/"), the root itself is left out
    assert_eq!(entries.len(), 1);
    assert_eq!(entries[0].path, "/Fotos ä");
    assert_eq!(entries[0].name, "Fotos ä");
    assert_eq!(entries[0].kind, EntryKind::Dir);
    let same = parse_propfind(xml, "/remote.php/dav/files/anna", "/").unwrap();
    assert_eq!(same.len(), 1);
    assert_eq!(same[0].path, "/Fotos ä");
}

#[test]
fn propfind_size_and_date_fall_back_on_garbage() {
    let xml = r#"<multistatus><response><href>/d/x</href>
<getcontentlength>lots</getcontentlength><getlastmodified>gestern</getlastmodified>
</response></multistatus>"#;
    let entries = parse_propfind(xml, "/d", "/other").unwrap();
    assert_eq!(entries.len(), 1);
    assert_eq!(entries[0].path, "/x");
    assert_eq!(entries[0].size, 0);
    assert_eq!(entries[0].modified, None);
}

#[test]
fn propfind_read_error_is_a_protocol_error() {
    let err = parse_propfind("<multistatus><response></wrong></multistatus>", "/d", "/").unwrap_err();
    match err {
        FpError::Protocol(msg) => assert!(msg.starts_with("PROPFIND-Antwort: ")),
        other => panic!("unexpected {other:?}"),
    }
}

#[test]
fn events_end_at_the_end_of_the_document() {
    let events = read_xml_events("<a>x</a>");
    assert!(matches!(events.last(), Some(XmlEvent::Eof)));
    assert!(matches!(&events[0], XmlEvent::Start(n) if n == "a"));
    assert!(matches!(&events[1], XmlEvent::Text(t) if t == "x"));
    assert!(matches!(&events[2], XmlEvent::End(n) if n == "a"));
}

#[test]
fn entries_from_events_stop_at_a_failure() {
    let events = vec![
        XmlEvent::Start("response".to_string()),
        XmlEvent::Start("href".to_string()),
        XmlEvent::Text("/b/f".to_string()),
        XmlEvent::End("response".to_string()),
        XmlEvent::Failed("kaputt".to_string()),
        XmlEvent::Start("response".to_string()),
    ];
    match entries_from_events(&events, "/b", "/") {
        Err(FpError::Protocol(msg)) => assert_eq!(msg, "PROPFIND-Antwort: kaputt"),
        other => panic!("unexpected {other:?}"),
    }
    let mut head = events;
    head.truncate(4);
    let ok = entries_from_events(&head, "/b", "/").unwrap();
    assert_eq!(ok.len(), 1);
    assert_eq!(ok[0].path, "/f");
}

#[test]
fn text_after_an_empty_property_tag_is_taken_for_it() {
    let events = vec![
        XmlEvent::Start("response".to_string()),
        XmlEvent::Empty("getcontentlength".to_string()),
        XmlEvent::Text(" 42 ".to_string()),
        XmlEvent::Text("99".to_string()),
        XmlEvent::End("RESPONSE".to_string()),
        XmlEvent::Eof,
    ];
    let entries = entries_from_events(&events, "", "/x").unwrap();
    assert_eq!(entries.len(), 1);
    assert_eq!(entries[0].size, 42);
    assert_eq!(entries[0].path, "/");
}

#[test]
fn rel_path_examples() {
    assert_eq!(rel_path("/dav/docs/", "/dav"), "/docs");
    assert_eq!(rel_path("/dav/", "/dav"), "/");
    assert_eq!(rel_path("/dav", "/dav"), "/");
    assert_eq!(rel_path("/other/x", "/dav"), "/other/x");
    assert_eq!(rel_path("http://h:8080/dav/a%2Fb", "/dav"), "/a/b");
    assert_eq!(rel_path("https://h", "/dav"), "h");
}

#[test]
fn urls_are_percent_encoded() {
    assert_eq!(dav_url("https://h/dav", "/a b/ä#.txt"), "https://h/dav/a%20b/%C3%A4%23.txt");
    assert_eq!(dav_url("https://h/dav", "///x"), "https://h/dav/x");
    assert_eq!(dav_url("https://h", "/100%[1]?{}|^`\"<>\\"), "https://h/100%25%5B1%5D%3F%7B%7D%7C%5E%60%22%3C%3E%5C");
    assert_eq!(dav_url("https://h", "/keep-_.~!$&'()*+,;=:@"), "https://h/keep-_.~!$&'()*+,;=:@");
}

#[test]
fn status_codes_map_to_error_kinds() {
    assert!(matches!(map_status("/a", 404), FpError::NotFound(p) if p == "/a"));
    assert!(matches!(map_status("/a", 401), FpError::Auth(m) if m == "Zugangsdaten abgelehnt (401)"));
    assert!(matches!(map_status("/a", 403), FpError::Denied(p) if p == "/a"));
    assert!(matches!(map_status("/a", 500), FpError::Protocol(m) if m == "/a: HTTP 500 Internal Server Error"));
    assert!(matches!(map_status("/a", 599), FpError::Protocol(m) if m == "/a: HTTP 599 <unknown status code>"));
    assert!(check_status("/a", 207).is_ok());
    assert!(matches!(check_status("/a", 409), Err(FpError::Protocol(m)) if m == "/a: HTTP 409 Conflict"));
    assert_eq!(uploaded_bytes(Some(9)), 9);
    assert_eq!(uploaded_bytes(None), 0);
}

#[test]
fn settings_from_base_url() {
    let s = webdav_settings("https://cloud.example.com/remote.php/dav/files/anna%20b/", "anna").unwrap();
    assert_eq!(s.base, "https://cloud.example.com/remote.php/dav/files/anna%20b");
    assert_eq!(s.base_path, "/remote.php/dav/files/anna b");
    assert_eq!(s.label, "dav://anna@cloud.example.com");
    match webdav_settings("kein url", "x") {
        Err(FpError::Connect(m)) => assert!(m.starts_with("Ungültige URL: ")),
        _ => panic!("expected a connect error"),
    }
}
