use rwui::config::{Button, Dropdown, GridRowElement, GuiDescr, Input, Label, Paragraph, Row, Slider, Tab, H2};
use rwui::dom::{Css, DomCfg, DomOp, PageFault, Reaction};
use rwui::message::RxTxMessage;
use rwui::net::{element_number, socket_address, Direction};
use rwui::server::{registrations, Link};

fn cell() -> GridRowElement {
    GridRowElement {
        dropdown: None,
        button: None,
        form: None,
        input: None,
        slider: None,
        textarea: None,
        label: None,
        h2: None,
        p: None,
        canvas: None,
        image: None,
        date: None,
        plot: None,
    }
}

fn create(node: usize, tag: &str) -> DomOp {
    DomOp::Create { node, tag: tag.into() }
}

fn attr(node: usize, name: &str, value: &str) -> DomOp {
    DomOp::SetAttribute { node, name: name.into(), value: value.into() }
}

fn inner(node: usize, html: &str) -> DomOp {
    DomOp::SetInnerHtml { node, html: html.into() }
}

fn child(parent: usize, child: usize) -> DomOp {
    DomOp::AppendChild { parent, child }
}

#[test]
fn generated_ids_count_up() {
    let mut dom = DomCfg::new(Css::Bulma, true);
    assert_eq!(dom.get_new_id(), "id_300");
    assert_eq!(dom.get_new_id(), "id_301");
    assert_eq!(dom.id_count, 302);
    dom.id_count = i32::MAX;
    assert_eq!(dom.get_new_id(), "id_2147483647");
    assert_eq!(dom.get_new_id(), "id_-2147483648");
}

#[test]
fn creates_elements_with_ids_and_debug_titles() {
    let mut dom = DomCfg::new(Css::Bulma, true);
    let e = dom.create_element("", "p");
    let f = dom.create_element("id_5", "div");
    assert_eq!((e.element, f.element), (0, 1));
    assert_eq!(
        dom.ops,
        vec![
            create(0, "p"),
            attr(0, "id", "id_300"),
            attr(0, "title", "id_300"),
            create(1, "div"),
            attr(1, "id", "id_5"),
            attr(1, "title", "id_5"),
        ]
    );
    assert_eq!(dom.get_attribute(1, "id"), Some("id_5".to_string()));
    assert_eq!(dom.get_attribute(1, "class"), None);
}

#[test]
fn buttons_follow_the_style_sheet() {
    let mut dom = DomCfg::new(Css::Bulma, false);
    dom.button("id_2", "Go");
    assert_eq!(
        dom.ops,
        vec![create(0, "button"), attr(0, "id", "id_2"), inner(0, "Go"), attr(0, "type", "button"), attr(0, "class", "button is-primary is-size-4")]
    );
    let mut dom = DomCfg::new(Css::Pico, false);
    dom.button("id_2", "Go");
    assert_eq!(dom.ops[4], attr(0, "class", "primary"));
}

#[test]
fn sizes_keep_the_class() {
    let mut dom = DomCfg::new(Css::Bulma, false);
    let r = dom.row("id_1");
    r.set_elem_size(&mut dom);
    assert_eq!(dom.get_attribute(r.element, "class"), Some("row is-size-4".to_string()));
    let l = dom.label("id_2", "L");
    assert_eq!(dom.get_attribute(l.element, "class"), Some("is-size-4".to_string()));
    let mut dom = DomCfg::new(Css::Pico, false);
    let l = dom.label("id_2", "L");
    assert_eq!(dom.get_attribute(l.element, "class"), None);
}

#[test]
fn styles_accumulate() {
    let mut dom = DomCfg::new(Css::Pico, false);
    let mut e = dom.textarea("id_4", 3, "hi");
    assert_eq!(e.style, " background-color: black; color: white;");
    assert_eq!(dom.get_attribute(e.element, "rows"), Some("3".to_string()));
    e.set_multi_cols(&mut dom, 3);
    assert_eq!(e.style, " background-color: black; color: white; float: left;; width: 33%;");
    assert_eq!(dom.get_attribute(e.element, "style"), Some(e.style.clone()));
    let mut h = dom.header2("id_5", "H");
    assert_eq!(h.style, " text-align: center;");
    h.set_multi_cols(&mut dom, -7);
    assert_eq!(h.style, " text-align: center; float: left;; width: -14%;");
}

#[test]
fn lists_select_their_first_entry() {
    let mut dom = DomCfg::new(Css::Pico, false);
    let sel = dom.create_element("id_1", "select");
    sel.set_list(&mut dom, &vec!["a".to_string(), "b".to_string()]);
    assert_eq!(
        dom.ops[2..].to_vec(),
        vec![
            create(1, "option"),
            attr(1, "id", "id_300"),
            inner(1, "a"),
            attr(1, "selected", ""),
            child(0, 1),
            create(2, "option"),
            attr(2, "id", "id_301"),
            inner(2, "b"),
            child(0, 2),
        ]
    );
}

#[test]
fn dropdowns_show_the_default_first() {
    let mut dom = DomCfg::new(Css::Pico, false);
    let choices = vec!["one".to_string(), "two".to_string(), "three".to_string()];
    dom.dropdown("id_1", &choices, 1);
    assert_eq!(
        dom.ops,
        vec![
            create(0, "select"),
            attr(0, "id", "id_1"),
            create(1, "option"),
            attr(1, "id", "id_1"),
            attr(1, "value", ""),
            attr(0, "aria-label", "two"),
            inner(1, "two"),
            child(0, 1),
            create(2, "option"),
            attr(2, "id", "id_300"),
            inner(2, "one"),
            child(0, 2),
            create(3, "option"),
            attr(3, "id", "id_301"),
            inner(3, "three"),
            child(0, 3),
        ]
    );
    let mut dom = DomCfg::new(Css::Pico, false);
    dom.dropdown("id_1", &choices, 7);
    assert_eq!(dom.ops.iter().filter(|o| matches!(o, DomOp::Create { .. })).count(), 5);
}

#[test]
fn builds_a_page_of_one_button() {
    let mut c = cell();
    c.button = Some(Button { id: "id_2".into(), text: "Go".into() });
    let gui = vec![GuiDescr { tab: Tab { id: None, text: None, rows: vec![Row { gridrow: vec![c] }] } }];
    let mut dom = DomCfg::new(Css::Pico, false);
    assert_eq!(dom.build_page(&gui), Ok(()));
    assert_eq!(
        dom.ops,
        vec![
            create(0, "div"),
            attr(0, "id", "id_300"),
            attr(0, "class", "tab"),
            create(1, "button"),
            attr(1, "id", "id_301"),
            attr(1, "class", "tablinks secondary"),
            inner(1, ""),
            child(0, 1),
            create(2, "div"),
            attr(2, "id", "id_302"),
            attr(2, "class", "tabcontent"),
            DomOp::Listen { node: 1, event: "click".into(), reaction: Reaction::ShowTab { tab: 0 } },
            attr(2, "style", "display: block;"),
            attr(1, "class", "tablinks active"),
            create(3, "button"),
            attr(3, "id", "id_2"),
            inner(3, "Go"),
            attr(3, "type", "button"),
            attr(3, "class", "primary"),
            DomOp::OpenSocket { node: 3, direction: Direction::ToServer, url: "ws://127.0.0.1:62002".into() },
            DomOp::Listen { node: 3, event: "click".into(), reaction: Reaction::SendPressed },
            create(4, "p"),
            attr(4, "id", "id_303"),
            attr(4, "class", "grid"),
            child(4, 3),
            DomOp::AppendToBody { node: 4 },
        ]
    );
}

#[test]
fn tabs_with_ids_go_into_the_tab_bar() {
    let mut c = cell();
    c.p = Some(Paragraph { id: None, text: Some("hello".into()) });
    let gui = vec![
        GuiDescr { tab: Tab { id: Some("t1".into()), text: Some("First".into()), rows: vec![Row { gridrow: vec![c.clone()] }] } },
        GuiDescr { tab: Tab { id: Some("t2".into()), text: Some("Second".into()), rows: vec![] } },
    ];
    let mut dom = DomCfg::new(Css::Pico, false);
    assert_eq!(dom.build_page(&gui), Ok(()));
    assert_eq!(dom.tabs.len(), 2);
    let bodies: Vec<usize> = dom.ops.iter().filter_map(|o| match o { DomOp::AppendToBody { node } => Some(*node), _ => None }).collect();
    assert_eq!(bodies, vec![0, dom.tabs[0].element]);
    assert_eq!(dom.get_attribute(dom.tabs[1].element, "id"), Some("t2".to_string()));
    assert_eq!(dom.get_attribute(dom.tabs[1].element, "style"), Some("display: none;".to_string()));
    let t1 = dom.tabs[0].element;
    assert!(dom.ops.contains(&inner(dom.tabs[1].child_1.unwrap(), "Second")));
    dom.enable_tab(1);
    assert_eq!(dom.get_attribute(dom.tabs[1].element, "style"), Some("display: block;".to_string()));
    assert_eq!(dom.get_attribute(t1, "style"), Some("display: none;".to_string()));
    assert_eq!(dom.get_attribute(dom.tabs[0].child_1.unwrap(), "class"), Some("tablinks secondary".to_string()));
}

#[test]
fn building_stops_at_faults() {
    let mut c = cell();
    c.button = Some(Button { id: "go".into(), text: "Go".into() });
    let gui = vec![GuiDescr { tab: Tab { id: None, text: None, rows: vec![Row { gridrow: vec![c] }] } }];
    let mut dom = DomCfg::new(Css::Pico, false);
    assert_eq!(dom.build_page(&gui), Err(PageFault::UnnumberedId));
    assert_eq!(dom.ops.last(), Some(&attr(3, "class", "primary")));

    let gui = vec![GuiDescr { tab: Tab { id: Some("t".into()), text: None, rows: vec![] } }];
    let mut dom = DomCfg::new(Css::Pico, false);
    assert_eq!(dom.build_page(&gui), Err(PageFault::MissingTabTitle));

    let mut c = cell();
    c.slider = Some(Slider { id: "id_4".into(), minmaxini: vec![0, 10] });
    let gui = vec![GuiDescr { tab: Tab { id: None, text: None, rows: vec![Row { gridrow: vec![c] }] } }];
    let mut dom = DomCfg::new(Css::Pico, false);
    assert_eq!(dom.build_page(&gui), Err(PageFault::ShortSliderRange));
}

#[test]
fn widgets_get_their_sockets() {
    let mut c = cell();
    c.h2 = Some(H2 { id: "id_7".into(), text: "T".into(), mutable: true });
    c.label = Some(Label { id: "id_6".into(), text: "L".into(), mutable: false });
    c.dropdown = Some(Dropdown { id: "id_1".into(), defaultind: -1, items: vec!["a".into()] });
    c.input = Some(Input { id: "id_3".into(), text: None });
    c.slider = Some(Slider { id: "id_4".into(), minmaxini: vec![0, 10, 5] });
    let gui = vec![GuiDescr { tab: Tab { id: None, text: None, rows: vec![Row { gridrow: vec![c] }] } }];
    let mut dom = DomCfg::new(Css::Bulma, false);
    assert_eq!(dom.build_page(&gui), Ok(()));
    let sockets: Vec<(Direction, String)> = dom.ops.iter().filter_map(|o| match o {
        DomOp::OpenSocket { direction, url, .. } => Some((*direction, url.clone())),
        _ => None,
    }).collect();
    assert_eq!(
        sockets,
        vec![
            (Direction::ToPage, "ws://127.0.0.1:61007".to_string()),
            (Direction::ToPage, "ws://127.0.0.1:61001".to_string()),
            (Direction::ToServer, "ws://127.0.0.1:62001".to_string()),
            (Direction::ToServer, "ws://127.0.0.1:62003".to_string()),
            (Direction::ToServer, "ws://127.0.0.1:62004".to_string()),
        ]
    );
    assert!(dom.ops.iter().any(|o| matches!(o, DomOp::Listen { reaction: Reaction::SendSelected, .. })));
}

#[test]
fn the_page_starts_from_id_0() {
    let mut dom = DomCfg::new(Css::Bulma, true);
    let t = dom.start().unwrap();
    assert!(t.ws_rx);
    assert_eq!(
        dom.ops,
        vec![
            create(0, "title"),
            attr(0, "id", "id_0"),
            attr(0, "title", "id_0"),
            inner(0, "title"),
            DomOp::AppendToBody { node: 0 },
            DomOp::OpenSocket { node: 0, direction: Direction::ToPage, url: "ws://127.0.0.1:61000".into() },
            DomOp::ReadPage { node: 0 },
        ]
    );
}

#[test]
fn updates_change_text_colours_and_lists() {
    let mut dom = DomCfg::new(Css::Pico, false);
    let mut e = dom.header2("id_7", "T");
    let n = dom.ops.len();
    let mut m: RxTxMessage<f64> = RxTxMessage::blank();
    m.text = "new header".into();
    m.backgroundcolor = "red".into();
    m.color = "white".into();
    m.list = vec!["x".into()];
    assert_eq!(e.apply_update(&mut dom, m), Ok(None));
    assert_eq!(
        dom.ops[n..].to_vec(),
        vec![
            inner(0, "new header"),
            attr(0, "style", " text-align: center; background-color: red;"),
            attr(0, "style", " text-align: center; background-color: red; color: white;"),
            create(1, "option"),
            attr(1, "id", "id_300"),
            inner(1, "x"),
            attr(1, "selected", ""),
            child(0, 1),
        ]
    );
    let before = dom.ops.len();
    assert_eq!(e.apply_update(&mut dom, RxTxMessage::<f64>::default()), Ok(None));
    assert_eq!(dom.ops.len(), before);
}

#[test]
fn page_and_server_agree_on_update_channels() {
    let mut a = cell();
    a.h2 = Some(H2 { id: "id_7".into(), text: "T".into(), mutable: true });
    a.button = Some(Button { id: "id_2".into(), text: "Go".into() });
    let mut b = cell();
    b.label = Some(Label { id: "id_6".into(), text: "L".into(), mutable: true });
    b.dropdown = Some(Dropdown { id: "id_1".into(), defaultind: 0, items: vec!["x".into(), "y".into()] });
    b.input = Some(Input { id: "id_3".into(), text: Some("name".into()) });
    let gui = vec![
        GuiDescr { tab: Tab { id: None, text: None, rows: vec![Row { gridrow: vec![a] }] } },
        GuiDescr { tab: Tab { id: Some("t".into()), text: Some("T".into()), rows: vec![Row { gridrow: vec![b] }] } },
    ];
    let mut dom = DomCfg::new(Css::Pico, false);
    assert_eq!(dom.build_page(&gui), Ok(()));
    let page_side: Vec<String> = dom.ops.iter().filter_map(|o| match o {
        DomOp::OpenSocket { direction: Direction::ToPage, url, .. } => Some(url.clone()),
        _ => None,
    }).collect();
    let server_side: Vec<String> = registrations(&gui)
        .into_iter()
        .filter(|r| r.link != Link::Plain)
        .map(|r| socket_address(Direction::ToPage, element_number(&r.id).unwrap()))
        .collect();
    assert_eq!(page_side.len(), 3);
    assert_eq!(page_side, server_side);
}

#[test]
fn server_updates_match_direct_changes() {
    let mut via_update = DomCfg::new(Css::Bulma, false);
    let mut e1 = via_update.label("id_5", "L");
    let mut direct = via_update.clone();
    let mut e2 = e1.duplicate();
    assert_eq!(e1.apply_update(&mut via_update, RxTxMessage::<f64>::text_update("hello")), Ok(None));
    direct.set_inner_html(e2.element, "hello");
    assert_eq!(e1.apply_update(&mut via_update, RxTxMessage::<f64>::background_update("blue")), Ok(None));
    e2.set_background_color(&mut direct, "blue");
    assert_eq!(e1.apply_update(&mut via_update, RxTxMessage::<f64>::color_update("yellow")), Ok(None));
    e2.set_color(&mut direct, "yellow");
    let list = vec!["a".to_string(), "b".to_string()];
    assert_eq!(e1.apply_update(&mut via_update, RxTxMessage::<f64>::list_update(list.clone())), Ok(None));
    e2.set_list(&mut direct, &list);
    assert_eq!(via_update.ops, direct.ops);
    assert_eq!(e1.style, e2.style);
    assert_eq!(e1.style, " background-color: blue; color: yellow;");
}

#[test]
fn created_elements_carry_their_ids() {
    let mut dom = DomCfg::new(Css::Bulma, true);
    let a = dom.create_element("id_9", "div");
    let b = dom.create_element("", "div");
    assert_eq!(dom.get_attribute(a.element, "id"), Some("id_9".to_string()));
    assert_eq!(dom.get_attribute(b.element, "id"), Some("id_300".to_string()));
}

#[test]
fn generated_ids_run_in_call_order() {
    let mut dom = DomCfg::new(Css::Pico, false);
    let a = dom.create_element("", "div");
    let b = dom.create_element("id_9", "div");
    let c = dom.create_element("", "p");
    let d = dom.create_element("", "p");
    let ids: Vec<Option<String>> = [a, b, c, d].iter().map(|e| dom.get_attribute(e.element, "id")).collect();
    assert_eq!(
        ids,
        vec![Some("id_300".into()), Some("id_9".into()), Some("id_301".into()), Some("id_302".into())]
    );
    assert_eq!(dom.id_count, 303);
}

#[test]
fn elements_open_their_sockets_by_number() {
    let mut dom = DomCfg::new(Css::Bulma, false);
    let mut e = dom.label("id_12", "L");
    e.add_websocket_rx(&mut dom);
    assert!(e.ws_rx && !e.ws_tx);
    assert_eq!(
        dom.ops.last(),
        Some(&DomOp::OpenSocket { node: e.element, direction: Direction::ToPage, url: "ws://127.0.0.1:61012".into() })
    );
    e.add_websocket_tx(&mut dom);
    assert!(e.ws_rx && e.ws_tx);
    assert_eq!(
        dom.ops.last(),
        Some(&DomOp::OpenSocket { node: e.element, direction: Direction::ToServer, url: "ws://127.0.0.1:62012".into() })
    );
    e.ws_read(&mut dom);
    assert_eq!(dom.ops.last(), Some(&DomOp::ReadUpdates { elem: e.duplicate() }));
}
