//! Server side decisions: which elements get a channel to the page, how an
//! HTTP request is answered, and when the console asks to quit.

use vstd::prelude::*;
use vstd::utf8::encode_utf8;
use crate::config::{GridRowElement, GuiDescr, Row};
use crate::text::{str_eq, contains_str, ends_with_str, find, split_whitespace_str, starts_with_str, suffix_from, trim, trim_str, views, words};

verus! {

/// How the server keeps an element it registers.
#[derive(Clone, Copy, Debug, PartialEq, Eq, Structural)]
pub enum Link {
    /// No channel to the page; the element can still get callbacks.
    Plain,
    /// A channel that sends updates to the page.
    Send,
    /// A channel that sends updates to the page and reads its replies.
    SendReceive,
}

/// An element the server registers under its id.
#[derive(Clone, Debug, PartialEq)]
pub struct Registration {
    pub id: String,
    pub link: Link,
}

/// A registration as plain values.
pub open spec fn reg_view(r: Registration) -> (Seq<char>, Link) {
    (r.id@, r.link)
}

/// Registrations as plain values.
pub open spec fn regs_view(v: Seq<Registration>) -> Seq<(Seq<char>, Link)> {
    v.map_values(|r: Registration| reg_view(r))
}

/// The registration of a grid element's header, if it has one.
pub open spec fn h2_registration(g: GridRowElement) -> Seq<(Seq<char>, Link)> {
    match g.h2 {
        Some(c) => seq![(c.id@, if c.mutable { Link::Send } else { Link::Plain })],
        None => seq![],
    }
}

/// The registration of a grid element's text area, if it has one.
pub open spec fn textarea_registration(g: GridRowElement) -> Seq<(Seq<char>, Link)> {
    match g.textarea {
        Some(c) => seq![(c.id@, Link::Send)],
        None => seq![],
    }
}

/// The registration of a grid element's label, if it has one.
pub open spec fn label_registration(g: GridRowElement) -> Seq<(Seq<char>, Link)> {
    match g.label {
        Some(c) => seq![(c.id@, if c.mutable { Link::Send } else { Link::Plain })],
        None => seq![],
    }
}

/// The registration of a grid element's drop-down, if it has one.
pub open spec fn dropdown_registration(g: GridRowElement) -> Seq<(Seq<char>, Link)> {
    match g.dropdown {
        Some(c) => seq![(c.id@, Link::SendReceive)],
        None => seq![],
    }
}

/// The registration of a grid element's button, if it has one.
pub open spec fn button_registration(g: GridRowElement) -> Seq<(Seq<char>, Link)> {
    match g.button {
        Some(c) => seq![(c.id@, Link::Plain)],
        None => seq![],
    }
}

/// The registration of a grid element's input, if it has one.
pub open spec fn input_registration(g: GridRowElement) -> Seq<(Seq<char>, Link)> {
    match g.input {
        Some(c) => seq![(c.id@, Link::Plain)],
        None => seq![],
    }
}

/// The registration of a grid element's date picker, if it has one.
pub open spec fn date_registration(g: GridRowElement) -> Seq<(Seq<char>, Link)> {
    match g.date {
        Some(c) => seq![(c.id@, Link::Plain)],
        None => seq![],
    }
}

/// The registration of a grid element's slider, if it has one.
pub open spec fn slider_registration(g: GridRowElement) -> Seq<(Seq<char>, Link)> {
    match g.slider {
        Some(c) => seq![(c.id@, Link::Plain)],
        None => seq![],
    }
}

/// The registration of a grid element's plot, if it has one.
pub open spec fn plot_registration(g: GridRowElement) -> Seq<(Seq<char>, Link)> {
    match g.plot {
        Some(c) => seq![(c.id@, Link::Send)],
        None => seq![],
    }
}

/// The registrations of one grid element, in the order the server makes
/// them: header, text area, label, drop-down, button, input, date, slider,
/// plot. Mutable headers and labels, text areas and plots get a sending
/// channel, drop-downs a two-way one, the others none.
pub open spec fn grid_registrations(g: GridRowElement) -> Seq<(Seq<char>, Link)> {
    h2_registration(g) + textarea_registration(g) + label_registration(g)
        + dropdown_registration(g) + button_registration(g) + input_registration(g)
        + date_registration(g) + slider_registration(g) + plot_registration(g)
}

/// The registrations of a row's elements, in order.
pub open spec fn row_registrations(cells: Seq<GridRowElement>) -> Seq<(Seq<char>, Link)>
    decreases cells.len(),
{
    if cells.len() == 0 {
        seq![]
    } else {
        row_registrations(cells.drop_last()) + grid_registrations(cells.last())
    }
}

/// The registrations of a tab's rows, in order.
pub open spec fn rows_registrations(rows: Seq<Row>) -> Seq<(Seq<char>, Link)>
    decreases rows.len(),
{
    if rows.len() == 0 {
        seq![]
    } else {
        rows_registrations(rows.drop_last()) + row_registrations(rows.last().gridrow@)
    }
}

/// The registrations of a whole GUI description, in order.
pub open spec fn gui_registrations(gui: Seq<GuiDescr>) -> Seq<(Seq<char>, Link)>
    decreases gui.len(),
{
    if gui.len() == 0 {
        seq![]
    } else {
        gui_registrations(gui.drop_last()) + rows_registrations(gui.last().tab.rows@)
    }
}

fn push_reg(out: &mut Vec<Registration>, id: &String, link: Link)
    ensures
        regs_view(final(out)@) == regs_view(old(out)@).push((id@, link)),
{
    out.push(Registration { id: id.clone(), link });
    assert(regs_view(final(out)@) =~= regs_view(old(out)@).push((id@, link)));
}

fn register_h2(out: &mut Vec<Registration>, g: &GridRowElement)
    ensures
        regs_view(final(out)@) == regs_view(old(out)@) + h2_registration(*g),
{
    match &g.h2 {
        Some(c) => push_reg(out, &c.id, if c.mutable { Link::Send } else { Link::Plain }),
        None => assert(regs_view(out@) == regs_view(out@) + h2_registration(*g)),
    }
}

fn register_textarea(out: &mut Vec<Registration>, g: &GridRowElement)
    ensures
        regs_view(final(out)@) == regs_view(old(out)@) + textarea_registration(*g),
{
    match &g.textarea {
        Some(c) => push_reg(out, &c.id, Link::Send),
        None => assert(regs_view(out@) == regs_view(out@) + textarea_registration(*g)),
    }
}

fn register_label(out: &mut Vec<Registration>, g: &GridRowElement)
    ensures
        regs_view(final(out)@) == regs_view(old(out)@) + label_registration(*g),
{
    match &g.label {
        Some(c) => push_reg(out, &c.id, if c.mutable { Link::Send } else { Link::Plain }),
        None => assert(regs_view(out@) == regs_view(out@) + label_registration(*g)),
    }
}

fn register_dropdown(out: &mut Vec<Registration>, g: &GridRowElement)
    ensures
        regs_view(final(out)@) == regs_view(old(out)@) + dropdown_registration(*g),
{
    match &g.dropdown {
        Some(c) => push_reg(out, &c.id, Link::SendReceive),
        None => assert(regs_view(out@) == regs_view(out@) + dropdown_registration(*g)),
    }
}

fn register_button(out: &mut Vec<Registration>, g: &GridRowElement)
    ensures
        regs_view(final(out)@) == regs_view(old(out)@) + button_registration(*g),
{
    match &g.button {
        Some(c) => push_reg(out, &c.id, Link::Plain),
        None => assert(regs_view(out@) == regs_view(out@) + button_registration(*g)),
    }
}

fn register_input(out: &mut Vec<Registration>, g: &GridRowElement)
    ensures
        regs_view(final(out)@) == regs_view(old(out)@) + input_registration(*g),
{
    match &g.input {
        Some(c) => push_reg(out, &c.id, Link::Plain),
        None => assert(regs_view(out@) == regs_view(out@) + input_registration(*g)),
    }
}

fn register_date(out: &mut Vec<Registration>, g: &GridRowElement)
    ensures
        regs_view(final(out)@) == regs_view(old(out)@) + date_registration(*g),
{
    match &g.date {
        Some(c) => push_reg(out, &c.id, Link::Plain),
        None => assert(regs_view(out@) == regs_view(out@) + date_registration(*g)),
    }
}

fn register_slider(out: &mut Vec<Registration>, g: &GridRowElement)
    ensures
        regs_view(final(out)@) == regs_view(old(out)@) + slider_registration(*g),
{
    match &g.slider {
        Some(c) => push_reg(out, &c.id, Link::Plain),
        None => assert(regs_view(out@) == regs_view(out@) + slider_registration(*g)),
    }
}

fn register_plot(out: &mut Vec<Registration>, g: &GridRowElement)
    ensures
        regs_view(final(out)@) == regs_view(old(out)@) + plot_registration(*g),
{
    match &g.plot {
        Some(c) => push_reg(out, &c.id, Link::Send),
        None => assert(regs_view(out@) == regs_view(out@) + plot_registration(*g)),
    }
}

/// Registers the elements of one grid cell.
fn register_grid(out: &mut Vec<Registration>, g: &GridRowElement)
    ensures
        regs_view(final(out)@) == regs_view(old(out)@) + grid_registrations(*g),
{
    let ghost s0 = regs_view(out@);
    register_h2(out, g);
    register_textarea(out, g);
    register_label(out, g);
    register_dropdown(out, g);
    register_button(out, g);
    register_input(out, g);
    register_date(out, g);
    register_slider(out, g);
    register_plot(out, g);
    assert(regs_view(out@) =~= s0 + grid_registrations(*g));
}

/// The elements the server registers for a GUI description, with the
/// channel each gets, in the order of the description.
pub fn registrations(gui: &Vec<GuiDescr>) -> (r: Vec<Registration>)
    ensures
        regs_view(r@) == gui_registrations(gui@),
{
    let mut out: Vec<Registration> = Vec::new();
    let mut t: usize = 0;
    while t < gui.len()
        invariant
            t <= gui@.len(),
            regs_view(out@) == gui_registrations(
                gui@.take(t as int),
            ),
        decreases gui@.len() - t,
    {
        let rows = &gui[t].tab.rows;
        let ghost before = regs_view(out@);
        let mut k: usize = 0;
        while k < rows.len()
            invariant
                k <= rows@.len(),
                regs_view(out@) == before + rows_registrations(
                    rows@.take(k as int),
                ),
            decreases rows@.len() - k,
        {
            let cells = &rows[k].gridrow;
            let ghost before_row = regs_view(out@);
            let mut c: usize = 0;
            while c < cells.len()
                invariant
                    c <= cells@.len(),
                    regs_view(out@) == before_row
                        + row_registrations(cells@.take(c as int)),
                decreases cells@.len() - c,
            {
                register_grid(&mut out, &cells[c]);
                assert(cells@.take(c + 1).drop_last() == cells@.take(c as int));
                c = c + 1;
            }
            assert(cells@.take(c as int) == cells@);
            assert(rows@.take(k + 1).drop_last() == rows@.take(k as int));
            k = k + 1;
        }
        assert(rows@.take(k as int) == rows@);
        assert(gui@.take(t + 1).drop_last() == gui@.take(t as int));
        t = t + 1;
    }
    assert(gui@.take(t as int) == gui@);
    out
}


/// The name of the text that `tungstenite::handshake::derive_accept_key`
/// returns for a request key: the SHA-1 digest of the key followed by the
/// websocket GUID, in base64.
pub uninterp spec fn ws_accept_key(key: Seq<u8>) -> Seq<char>;

/// Calls `tungstenite::handshake::derive_accept_key`; its result depends on
/// the key bytes alone and is given the name `ws_accept_key`.
#[verifier::external_body]
fn derive_accept_key(key: &[u8]) -> (r: String)
    ensures
        r@ == ws_accept_key(key@),
{
    tungstenite::handshake::derive_accept_key(key)
}

/// How the server answers one HTTP request.
#[derive(Clone, Debug, PartialEq)]
pub enum Reply {
    /// Send `header`, then the contents of the file at `path`.
    File { path: String, header: String },
    /// Send `response`, which switches the connection to a websocket.
    Upgrade { response: String },
    /// Send `response`: the page itself.
    Page { response: String },
}

/// A reply as plain values.
pub enum ReplyView {
    File { path: Seq<char>, header: Seq<char> },
    Upgrade { response: Seq<char> },
    Page { response: Seq<char> },
}

impl View for Reply {
    type V = ReplyView;

    open spec fn view(&self) -> ReplyView {
        match self {
            Reply::File { path, header } => ReplyView::File { path: path@, header: header@ },
            Reply::Upgrade { response } => ReplyView::Upgrade { response: response@ },
            Reply::Page { response } => ReplyView::Page { response: response@ },
        }
    }
}

/// Whether `s` begins with `p`.
pub open spec fn has_prefix(s: Seq<char>, p: Seq<char>) -> bool {
    p.len() <= s.len() && s.subrange(0, p.len() as int) == p
}

/// Whether `s` ends with `p`.
pub open spec fn has_suffix(s: Seq<char>, p: Seq<char>) -> bool {
    p.len() <= s.len() && s.subrange(s.len() - p.len(), s.len() as int) == p
}

/// The header sent before a static file: the status line, a content type
/// for JavaScript and WebAssembly files, and the empty line.
pub open spec fn file_header(path: Seq<char>) -> Seq<char> {
    "HTTP/1.1 200 OK\r\n"@ + (if has_suffix(path, ".js"@) {
        "Content-Type: text/javascript\r\n"@
    } else if has_suffix(path, ".wasm"@) {
        "Content-Type: application/wasm\r\n"@
    } else {
        Seq::empty()
    }) + "\r\n"@
}

/// The header sent before the static file at `path`.
pub fn static_file_header(path: &str) -> (r: String)
    ensures
        r@ == file_header(path@),
{
    let mut s = String::new();
    s.append("HTTP/1.1 200 OK\r\n");
    if ends_with_str(path, ".js") {
        s.append("Content-Type: text/javascript\r\n");
    } else if ends_with_str(path, ".wasm") {
        s.append("Content-Type: application/wasm\r\n");
    } else {
        assert(s@ == s@ + Seq::<char>::empty());
    }
    s.append("\r\n");
    s
}

/// The answer that switches a connection to a websocket, given the accept
/// key computed from the request's key.
pub open spec fn upgrade_reply(accept: Seq<char>) -> Seq<char> {
    "HTTP/1.1 101 Switching Protocols\r\nConnection: Upgrade\r\nSec-WebSocket-Accept: "@ + accept
        + "\r\nUpgrade: websocket\r\n\r\n"@
}

/// The answer that switches a connection to a websocket.
pub fn upgrade_response(accept: &str) -> (r: String)
    ensures
        r@ == upgrade_reply(accept@),
{
    let mut s = String::new();
    s.append("HTTP/1.1 101 Switching Protocols\r\nConnection: Upgrade\r\nSec-WebSocket-Accept: ");
    s.append(accept);
    s.append("\r\nUpgrade: websocket\r\n\r\n");
    s
}

/// The answer that sends the page: the status line, the empty line, the
/// page.
pub open spec fn page_reply(content: Seq<char>) -> Seq<char> {
    "HTTP/1.1 200 OK\r\n"@ + "\r\n"@ + content
}

/// The answer that sends the page.
pub fn page_response(content: &str) -> (r: String)
    ensures
        r@ == page_reply(content@),
{
    let mut s = String::new();
    s.append("HTTP/1.1 200 OK\r\n");
    s.append("\r\n");
    s.append(content);
    s
}

/// The websocket key of a request: the first header line that begins with
/// `Sec-WebSocket-Key: `, without that name and trimmed.
pub open spec fn request_key(lines: Seq<Seq<char>>) -> Option<Seq<char>>
    decreases lines.len(),
{
    if lines.len() == 0 {
        None
    } else if has_prefix(lines[0], "Sec-WebSocket-Key: "@) {
        Some(trim(lines[0].skip("Sec-WebSocket-Key: "@.len() as int)))
    } else {
        request_key(lines.drop_first())
    }
}

/// The websocket key of a request, if it has one.
pub fn find_request_key(lines: &Vec<String>) -> (r: Option<String>)
    ensures
        match r {
            Some(k) => request_key(views(lines@)) == Some(k@),
            None => request_key(views(lines@)) is None,
        },
{
    proof {
        reveal_strlit("Sec-WebSocket-Key: ");
    }
    let mut i: usize = 0;
    assert(views(lines@).skip(0) == views(lines@));
    while i < lines.len()
        invariant
            i <= lines@.len(),
            request_key(views(lines@)) == request_key(views(lines@).skip(i as int)),
        decreases lines@.len() - i,
    {
        assert(views(lines@).skip(i as int)[0] == lines@[i as int]@);
        assert(views(lines@).skip(i as int).drop_first() == views(lines@).skip(i + 1));
        let line = lines[i].as_str();
        proof {
            reveal_strlit("Sec-WebSocket-Key: ");
        }
        if starts_with_str(line, "Sec-WebSocket-Key: ") {
            let rest = suffix_from(line, 19);
            return Some(trim_str(rest.as_str()));
        }
        i = i + 1;
    }
    None
}

/// How the server answers a request whose header lines are `lines`, when it
/// serves the files under `rel_path` and the page `content`: a `GET` of a
/// path under `/<rel_path>/` gets that file, a `GET` of a path holding
/// `/id_` is switched to a websocket, anything else gets the page. `None`
/// where the request has no first line, no word on it, a `GET` without a
/// path, or an upgrade without a key.
pub open spec fn route_reply(
    lines: Seq<Seq<char>>,
    rel_path: Seq<char>,
    content: Seq<char>,
) -> Option<ReplyView> {
    if lines.len() == 0 || words(lines[0]).len() == 0 {
        None
    } else if words(lines[0])[0] == "GET"@ {
        let w = words(lines[0]);
        if w.len() < 2 {
            None
        } else if has_prefix(w[1], "/"@ + rel_path + "/"@) {
            Some(ReplyView::File { path: w[1].drop_first(), header: file_header(w[1].drop_first()) })
        } else if find(w[1], "/id_"@) is Some {
            match request_key(lines) {
                Some(k) => Some(ReplyView::Upgrade { response: upgrade_reply(ws_accept_key(encode_utf8(k))) }),
                None => None,
            }
        } else {
            Some(ReplyView::Page { response: page_reply(content) })
        }
    } else {
        Some(ReplyView::Page { response: page_reply(content) })
    }
}

/// How the server answers a request whose header lines are `lines`.
pub fn route(lines: &Vec<String>, rel_path: &str, content: &str) -> (r: Option<Reply>)
    ensures
        match r {
            Some(x) => route_reply(views(lines@), rel_path@, content@) == Some(x@),
            None => route_reply(views(lines@), rel_path@, content@) is None,
        },
{
    if lines.len() == 0 {
        return None;
    }
    let strs = split_whitespace_str(lines[0].as_str());
    assert(views(lines@)[0] == lines@[0]@);
    if strs.len() == 0 {
        return None;
    }
    assert(views(strs@)[0] == strs@[0]@);
    if str_eq(strs[0].as_str(), "GET") {
        if strs.len() < 2 {
            return None;
        }
        assert(views(strs@)[1] == strs@[1]@);
        let mut head = String::new();
        head.append("/");
        head.append(rel_path);
        head.append("/");
        let target = strs[1].as_str();
        if starts_with_str(target, head.as_str()) {
            proof {
                reveal_strlit("/");
            }
            let path = suffix_from(target, 1);
            assert(path@ == target@.drop_first());
            let header = static_file_header(path.as_str());
            return Some(Reply::File { path, header });
        } else if contains_str(target, "/id_") {
            match find_request_key(lines) {
                Some(k) => {
                    let accept = derive_accept_key(k.as_str().as_bytes());
                    return Some(Reply::Upgrade { response: upgrade_response(accept.as_str()) });
                },
                None => {
                    return None;
                },
            }
        }
    }
    Some(Reply::Page { response: page_response(content) })
}

/// Whether a console line asks to quit: `q` or `Q` once trimmed.
pub open spec fn is_quit(line: Seq<char>) -> bool {
    trim(line) == "q"@ || trim(line) == "Q"@
}

/// Whether a console line asks to quit.
pub fn quit_requested(line: &str) -> (r: bool)
    ensures
        r == is_quit(line@),
{
    let t = trim_str(line);
    str_eq(t.as_str(), "q") || str_eq(t.as_str(), "Q")
}

} // verus!
