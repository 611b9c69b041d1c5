use rwui::config::{Button, Dropdown, GridRowElement, GuiDescr, Input, Label, Plot, Row, Tab, Textarea, H2};
use rwui::server::{
    page_response, quit_requested, registrations, route, static_file_header, upgrade_response, Link,
    Reply,
};

fn cell() -> GridRowElement {
    GridRowElement {
        dropdown: None,
        button: None,
        form: None,
        input: None,
        slider: None,
        textarea: None,
        label: None,
        h2: None,
        p: None,
        canvas: None,
        image: None,
        date: None,
        plot: None,
    }
}

fn lines(v: &[&str]) -> Vec<String> {
    v.iter().map(|s| s.to_string()).collect()
}

#[test]
fn registers_elements_with_their_links() {
    let mut a = cell();
    a.h2 = Some(H2 { id: "id_7".into(), text: "T".into(), mutable: true });
    a.button = Some(Button { id: "id_2".into(), text: "Go".into() });
    a.plot = Some(Plot { id: "id_47".into() });
    let mut b = cell();
    b.h2 = Some(H2 { id: "id_8".into(), text: "U".into(), mutable: false });
    b.textarea = Some(Textarea { id: "id_9".into(), text: "".into(), lines: 3 });
    b.label = Some(Label { id: "id_6".into(), text: "L".into(), mutable: false });
    b.dropdown = Some(Dropdown { id: "id_1".into(), defaultind: 0, items: vec![] });
    b.input = Some(Input { id: "id_3".into(), text: None });
    let gui = vec![
        GuiDescr { tab: Tab { id: None, text: None, rows: vec![Row { gridrow: vec![a] }] } },
        GuiDescr { tab: Tab { id: Some("t".into()), text: Some("T".into()), rows: vec![Row { gridrow: vec![b] }] } },
    ];
    let regs: Vec<(String, Link)> = registrations(&gui).into_iter().map(|r| (r.id, r.link)).collect();
    assert_eq!(
        regs,
        vec![
            ("id_7".to_string(), Link::Send),
            ("id_2".to_string(), Link::Plain),
            ("id_47".to_string(), Link::Send),
            ("id_8".to_string(), Link::Plain),
            ("id_9".to_string(), Link::Send),
            ("id_6".to_string(), Link::Plain),
            ("id_1".to_string(), Link::SendReceive),
            ("id_3".to_string(), Link::Plain),
        ]
    );
    assert!(registrations(&vec![]).is_empty());
}

#[test]
fn serves_static_files_with_their_type() {
    let r = route(&lines(&["GET /pkg/app.js HTTP/1.1", "Host: x"]), "pkg", "PAGE");
    assert_eq!(
        r,
        Some(Reply::File {
            path: "pkg/app.js".into(),
            header: "HTTP/1.1 200 OK\r\nContent-Type: text/javascript\r\n\r\n".into()
        })
    );
    let r = route(&lines(&["GET /pkg/app_bg.wasm HTTP/1.1"]), "pkg", "PAGE");
    assert_eq!(
        r,
        Some(Reply::File {
            path: "pkg/app_bg.wasm".into(),
            header: "HTTP/1.1 200 OK\r\nContent-Type: application/wasm\r\n\r\n".into()
        })
    );
    let r = route(&lines(&["GET /pkg/style.css HTTP/1.1"]), "pkg", "PAGE");
    assert_eq!(r, Some(Reply::File { path: "pkg/style.css".into(), header: "HTTP/1.1 200 OK\r\n\r\n".into() }));
    assert_eq!(static_file_header("x.js"), "HTTP/1.1 200 OK\r\nContent-Type: text/javascript\r\n\r\n");
}

#[test]
fn upgrades_element_sockets() {
    let r = route(
        &lines(&["GET /id_3 HTTP/1.1", "Upgrade: websocket", "Sec-WebSocket-Key:   dGhlIHNhbXBsZSBub25jZQ==  "]),
        "pkg",
        "PAGE",
    );
    let expected = "HTTP/1.1 101 Switching Protocols\r\nConnection: Upgrade\r\nSec-WebSocket-Accept: s3pPLMBiTxaQ9kYGzzhZRbK+xOo=\r\nUpgrade: websocket\r\n\r\n";
    assert_eq!(r, Some(Reply::Upgrade { response: expected.into() }));
    assert_eq!(upgrade_response("abc"), "HTTP/1.1 101 Switching Protocols\r\nConnection: Upgrade\r\nSec-WebSocket-Accept: abc\r\nUpgrade: websocket\r\n\r\n");
    assert_eq!(route(&lines(&["GET /id_3 HTTP/1.1", "Host: x"]), "pkg", "PAGE"), None);
}

#[test]
fn answers_anything_else_with_the_page() {
    let page = Some(Reply::Page { response: "HTTP/1.1 200 OK\r\n\r\nPAGE".into() });
    assert_eq!(route(&lines(&["GET / HTTP/1.1"]), "pkg", "PAGE"), page);
    assert_eq!(route(&lines(&["POST /pkg/a.js HTTP/1.1"]), "pkg", "PAGE"), page);
    assert_eq!(route(&lines(&["BREW"]), "pkg", "PAGE"), page);
    assert_eq!(page_response("x"), "HTTP/1.1 200 OK\r\n\r\nx");
}

#[test]
fn refuses_requests_the_server_cannot_read() {
    assert_eq!(route(&vec![], "pkg", "PAGE"), None);
    assert_eq!(route(&lines(&["   "]), "pkg", "PAGE"), None);
    assert_eq!(route(&lines(&["GET"]), "pkg", "PAGE"), None);
}

#[test]
fn quits_on_q() {
    assert!(quit_requested("q\n"));
    assert!(quit_requested("  Q  "));
    assert!(!quit_requested("quit"));
    assert!(!quit_requested(""));
}
