//! The page as the browser side builds it. Every change to the document is
//! recorded as a `DomOp` in the order the page makes it; the host applies
//! the operations to the real document.

use vstd::prelude::*;
use crate::config::{GridRowElement, GuiDescr, Row};
use crate::net::{Direction, id_number, element_number, socket_address, socket_url};
use crate::text::{dec_int, fmt_i32, str_eq};

verus! {

/// The style sheet the page is written for.
#[derive(Clone, Copy, Debug, PartialEq, Eq, Structural)]
pub enum Css {
    Bulma,
    Pico,
}

/// What the page does when an element reports an event.
#[derive(Clone, Copy, Debug, PartialEq, Eq, Structural)]
pub enum Reaction {
    /// Send the selected value of the element to the server.
    SendSelected,
    /// Send the text `pressed` to the server.
    SendPressed,
    /// Send the value of input element `source` to the server.
    SendValue { source: usize },
    /// Show tab `tab` and hide the others.
    ShowTab { tab: usize },
}

/// One change to the document; elements are numbered in creation order.
#[derive(Clone, Debug, PartialEq)]
pub enum DomOp {
    /// Create element `node` with tag `tag`.
    Create { node: usize, tag: String },
    /// Set attribute `name` of `node` to `value`.
    SetAttribute { node: usize, name: String, value: String },
    /// Set the inner HTML of `node`.
    SetInnerHtml { node: usize, html: String },
    /// Append `child` to the children of `parent`.
    AppendChild { parent: usize, child: usize },
    /// Append `node` to the document body.
    AppendToBody { node: usize },
    /// Call `reaction` on each `event` of `node`.
    Listen { node: usize, event: String, reaction: Reaction },
    /// Open the websocket `url` for `node` in direction `direction`.
    OpenSocket { node: usize, direction: Direction, url: String },
    /// Apply each update that arrives on the socket of `elem` to a copy of
    /// `elem` as it is now.
    ReadUpdates { elem: Elem },
    /// Build the page described by each message that arrives on the socket
    /// of `node`.
    ReadPage { node: usize },
}

/// A document change as plain values.
pub enum DomOpView {
    Create { node: usize, tag: Seq<char> },
    SetAttribute { node: usize, name: Seq<char>, value: Seq<char> },
    SetInnerHtml { node: usize, html: Seq<char> },
    AppendChild { parent: usize, child: usize },
    AppendToBody { node: usize },
    Listen { node: usize, event: Seq<char>, reaction: Reaction },
    OpenSocket { node: usize, direction: Direction, url: Seq<char> },
    ReadUpdates { elem: ElemView },
    ReadPage { node: usize },
}

impl View for DomOp {
    type V = DomOpView;

    open spec fn view(&self) -> DomOpView {
        match self {
            DomOp::Create { node, tag } => DomOpView::Create { node: *node, tag: tag@ },
            DomOp::SetAttribute { node, name, value } => DomOpView::SetAttribute {
                node: *node,
                name: name@,
                value: value@,
            },
            DomOp::SetInnerHtml { node, html } => DomOpView::SetInnerHtml { node: *node, html: html@ },
            DomOp::AppendChild { parent, child } => DomOpView::AppendChild {
                parent: *parent,
                child: *child,
            },
            DomOp::AppendToBody { node } => DomOpView::AppendToBody { node: *node },
            DomOp::Listen { node, event, reaction } => DomOpView::Listen {
                node: *node,
                event: event@,
                reaction: *reaction,
            },
            DomOp::OpenSocket { node, direction, url } => DomOpView::OpenSocket {
                node: *node,
                direction: *direction,
                url: url@,
            },
            DomOp::ReadUpdates { elem } => DomOpView::ReadUpdates { elem: elem@ },
            DomOp::ReadPage { node } => DomOpView::ReadPage { node: *node },
        }
    }
}

/// An element of the page: its node, its accumulated inline style, the
/// node that holds its value (forms and tabs), and whether it has opened
/// its sockets.
#[derive(Clone, Debug, PartialEq)]
pub struct Elem {
    pub element: usize,
    pub style: String,
    pub child_1: Option<usize>,
    pub ws_rx: bool,
    pub ws_tx: bool,
}

/// An element as plain values.
pub struct ElemView {
    pub element: usize,
    pub style: Seq<char>,
    pub child_1: Option<usize>,
    pub ws_rx: bool,
    pub ws_tx: bool,
}

impl View for Elem {
    type V = ElemView;

    open spec fn view(&self) -> ElemView {
        ElemView {
            element: self.element,
            style: self.style@,
            child_1: self.child_1,
            ws_rx: self.ws_rx,
            ws_tx: self.ws_tx,
        }
    }
}

/// The page being built: the counter for generated ids, whether ids are
/// also shown as titles, the style sheet, the tabs, the document changes
/// made so far and the number of elements created.
#[derive(Clone, Debug, PartialEq)]
pub struct DomCfg {
    pub id_count: i32,
    pub debug: bool,
    pub css: Css,
    pub tabs: Vec<Elem>,
    pub ops: Vec<DomOp>,
    pub nodes: usize,
}

/// The page as plain values.
pub struct DomView {
    pub id_count: i32,
    pub debug: bool,
    pub css: Css,
    pub tabs: Seq<ElemView>,
    pub ops: Seq<DomOpView>,
    pub nodes: usize,
}

/// Document changes as plain values.
pub open spec fn ops_view(v: Seq<DomOp>) -> Seq<DomOpView> {
    v.map_values(|o: DomOp| o@)
}

/// Elements as plain values.
pub open spec fn elems_view(v: Seq<Elem>) -> Seq<ElemView> {
    v.map_values(|e: Elem| e@)
}

impl View for DomCfg {
    type V = DomView;

    open spec fn view(&self) -> DomView {
        DomView {
            id_count: self.id_count,
            debug: self.debug,
            css: self.css,
            tabs: elems_view(self.tabs@),
            ops: ops_view(self.ops@),
            nodes: self.nodes,
        }
    }
}

/// The id counter after one more id, wrapping at the end of `i32` as the
/// release build does.
pub open spec fn next_count(c: i32) -> i32 {
    if c == i32::MAX {
        i32::MIN
    } else {
        (c + 1) as i32
    }
}

/// The number of the next element, wrapping at the end of `usize`.
pub open spec fn next_node(n: usize) -> usize {
    if n == usize::MAX {
        0
    } else {
        (n + 1) as usize
    }
}

/// A generated element id: `id_` and the counter.
pub open spec fn id_text(c: i32) -> Seq<char> {
    "id_"@ + dec_int(c as int)
}

/// The value of attribute `name` of `node` after the changes `ops`: the one
/// the last of them that sets it wrote.
pub open spec fn attr(ops: Seq<DomOpView>, node: usize, name: Seq<char>) -> Option<Seq<char>>
    decreases ops.len(),
{
    if ops.len() == 0 {
        None
    } else {
        match ops.last() {
            DomOpView::SetAttribute { node: n, name: a, value: v } if n == node && a == name => Some(v),
            _ => attr(ops.drop_last(), node, name),
        }
    }
}

impl DomView {
    /// The page after one more document change.
    pub open spec fn emit(self, op: DomOpView) -> DomView {
        DomView { ops: self.ops.push(op), ..self }
    }

    /// The page after generating an id, and that id.
    pub open spec fn new_id(self) -> (DomView, Seq<char>) {
        (DomView { id_count: next_count(self.id_count), ..self }, id_text(self.id_count))
    }

    /// The page after creating an element with tag `tag` and id `id` (a
    /// generated one where `id` is empty), and that element: the element is
    /// created, its id set, and in debug mode its title set to its id.
    pub open spec fn create(self, id: Seq<char>, tag: Seq<char>) -> (DomView, ElemView) {
        let (d1, id_set) = if id.len() == 0 {
            self.new_id()
        } else {
            (self, id)
        };
        let node = d1.nodes;
        let d2 = DomView { nodes: next_node(node), ..d1 };
        let d3 = d2.emit(DomOpView::Create { node, tag }).emit(
            DomOpView::SetAttribute { node, name: "id"@, value: id_set },
        );
        let d4 = if d3.debug {
            d3.emit(DomOpView::SetAttribute { node, name: "title"@, value: id_set })
        } else {
            d3
        };
        (
            d4,
            ElemView { element: node, style: Seq::empty(), child_1: None, ws_rx: false, ws_tx: false },
        )
    }

    /// The page after setting an attribute.
    pub open spec fn set_attr(self, node: usize, name: Seq<char>, value: Seq<char>) -> DomView {
        self.emit(DomOpView::SetAttribute { node, name, value })
    }

    /// The page after setting an element's inner HTML.
    pub open spec fn set_inner(self, node: usize, html: Seq<char>) -> DomView {
        self.emit(DomOpView::SetInnerHtml { node, html })
    }

    /// The page after appending `child` to `parent`.
    pub open spec fn append(self, parent: usize, child: usize) -> DomView {
        self.emit(DomOpView::AppendChild { parent, child })
    }
}

impl DomCfg {
    /// A page with no element yet; generated ids start at `id_300`.
    pub fn new(css: Css, debug: bool) -> (r: DomCfg)
        ensures
            r@.id_count == 300,
            r@.debug == debug,
            r@.css == css,
            r@.tabs.len() == 0,
            r@.ops.len() == 0,
            r@.nodes == 0,
    {
        let r = DomCfg { id_count: 300, debug, css, tabs: Vec::new(), ops: Vec::new(), nodes: 0 };
        assert(r@.tabs =~= Seq::<ElemView>::empty());
        assert(r@.ops =~= Seq::<DomOpView>::empty());
        r
    }

    /// Records one document change.
    pub fn emit(&mut self, op: DomOp)
        ensures
            final(self)@ == old(self)@.emit(op@),
    {
        let ghost before = self.ops@;
        self.ops.push(op);
        assert(ops_view(self.ops@) =~= ops_view(before).push(op@)) by {
            assert forall|k: int| 0 <= k < self.ops@.len() implies #[trigger] ops_view(
                self.ops@,
            )[k] == ops_view(before).push(op@)[k] by {
                if k < before.len() {
                    assert(self.ops@[k] == before[k]);
                }
            }
        }
    }

    /// A new id, `id_<n>` for the current counter `n`, which then advances.
    pub fn get_new_id(&mut self) -> (r: String)
        ensures
            (final(self)@, r@) == old(self)@.new_id(),
    {
        let mut id = String::new();
        id.append("id_");
        let num = fmt_i32(self.id_count);
        id.append(num.as_str());
        self.id_count = if self.id_count == i32::MAX {
            i32::MIN
        } else {
            self.id_count + 1
        };
        id
    }

    /// Creates an element with tag `name` and id `id`, or a generated id
    /// where `id` is empty.
    pub fn create_element(&mut self, id: &str, name: &str) -> (r: Elem)
        ensures
            (final(self)@, r@) == old(self)@.create(id@, name@),
    {
        let id_set = if id.unicode_len() == 0 {
            self.get_new_id()
        } else {
            id.to_owned()
        };
        let node = self.nodes;
        self.nodes = if node == usize::MAX {
            0
        } else {
            node + 1
        };
        self.emit(DomOp::Create { node, tag: name.to_owned() });
        self.emit(DomOp::SetAttribute { node, name: "id".to_owned(), value: id_set.clone() });
        if self.debug {
            self.emit(DomOp::SetAttribute { node, name: "title".to_owned(), value: id_set });
        }
        let r = Elem { element: node, style: String::new(), child_1: None, ws_rx: false, ws_tx: false };
        r
    }

    /// Sets attribute `name` of `node` to `value`.
    pub fn set_attribute(&mut self, node: usize, name: &str, value: &str)
        ensures
            final(self)@ == old(self)@.set_attr(node, name@, value@),
    {
        self.emit(DomOp::SetAttribute { node, name: name.to_owned(), value: value.to_owned() });
    }

    /// Sets the inner HTML of `node`.
    pub fn set_inner_html(&mut self, node: usize, html: &str)
        ensures
            final(self)@ == old(self)@.set_inner(node, html@),
    {
        self.emit(DomOp::SetInnerHtml { node, html: html.to_owned() });
    }

    /// The current value of attribute `name` of `node`.
    pub fn get_attribute(&self, node: usize, name: &str) -> (r: Option<String>)
        ensures
            match r {
                Some(v) => attr(self@.ops, node, name@) == Some(v@),
                None => attr(self@.ops, node, name@) is None,
            },
    {
        let mut i = self.ops.len();
        assert(self@.ops.take(i as int) == self@.ops);
        while i > 0
            invariant
                i <= self.ops@.len(),
                attr(self@.ops, node, name@) == attr(self@.ops.take(i as int), node, name@),
            decreases i,
        {
            let ghost pre = self@.ops.take(i as int);
            assert(pre.drop_last() == self@.ops.take(i - 1));
            assert(pre.last() == self.ops@[i - 1]@);
            match &self.ops[i - 1] {
                DomOp::SetAttribute { node: n, name: a, value: v } => {
                    if *n == node && str_eq(a.as_str(), name) {
                        return Some(v.clone());
                    }
                },
                _ => {},
            }
            i = i - 1;
        }
        None
    }
}


/// Why building the page stops: the steps at which the page gives up.
#[derive(Clone, Copy, Debug, PartialEq, Eq, Structural)]
pub enum PageFault {
    /// An element that needs a socket has no number in its id.
    UnnumberedId,
    /// A tab with an id has no title.
    MissingTabTitle,
    /// A slider has fewer than three values (minimum, maximum, initial).
    ShortSliderRange,
}

/// Integer division rounding toward zero, as `/` on `i32` does.
pub open spec fn div_trunc(a: int, b: int) -> int {
    if a >= 0 {
        if b > 0 {
            a / b
        } else {
            -(a / -b)
        }
    } else {
        if b > 0 {
            -((-a) / b)
        } else {
            (-a) / (-b)
        }
    }
}

impl ElemView {
    /// The element with style `style`.
    pub open spec fn with_style(self, style: Seq<char>) -> ElemView {
        ElemView { style, ..self }
    }

    /// The page and element after appending `declaration` to the element's
    /// style and writing the style to the document.
    pub open spec fn restyle(self, d: DomView, declaration: Seq<char>) -> (DomView, ElemView) {
        let style = self.style + declaration;
        (d.set_attr(self.element, "style"@, style), self.with_style(style))
    }

    /// `set_background_color`: appends ` background-color: <color>;`.
    pub open spec fn background(self, d: DomView, color: Seq<char>) -> (DomView, ElemView) {
        self.restyle(d, " background-color: "@ + color + ";"@)
    }

    /// `set_color`: appends ` color: <color>;`.
    pub open spec fn foreground(self, d: DomView, color: Seq<char>) -> (DomView, ElemView) {
        self.restyle(d, " color: "@ + color + ";"@)
    }

    /// `set_multi_cols`: appends ` float: left;;`, then ` width: <w>%;` with
    /// `w` = 100 / `cols`, and writes the style.
    pub open spec fn multi_cols(self, d: DomView, cols: i32) -> (DomView, ElemView) {
        let style = self.style + " float: left;;"@ + " width: "@ + dec_int(div_trunc(100, cols as int))
            + "%;"@;
        (d.set_attr(self.element, "style"@, style), self.with_style(style))
    }

    /// The class an element gets in size 4 (Bulma): its current class with
    /// `is-size-4` added.
    pub open spec fn sized_class(current: Option<Seq<char>>) -> Seq<char> {
        match current {
            Some(c) if c.len() > 0 => c + " is-size-4"@,
            _ => "is-size-4"@,
        }
    }

    /// `set_elem_size`: with Bulma, adds class `is-size-4`; with Pico,
    /// nothing changes.
    pub open spec fn elem_size(self, d: DomView) -> DomView {
        match d.css {
            Css::Bulma => d.set_attr(
                self.element,
                "class"@,
                ElemView::sized_class(attr(d.ops, self.element, "class"@)),
            ),
            Css::Pico => d,
        }
    }

    /// The page after the element starts calling `reaction` on `event`.
    pub open spec fn listen(self, d: DomView, event: Seq<char>, reaction: Reaction) -> DomView {
        d.emit(DomOpView::Listen { node: self.element, event, reaction })
    }

    /// Opening the element's socket in direction `dir`: found from the
    /// number in the element's id; `None` where the id has no number.
    pub open spec fn open_socket(self, d: DomView, dir: Direction) -> Option<(DomView, ElemView)> {
        match attr(d.ops, self.element, "id"@) {
            Some(id) => match id_number(id) {
                Some(n) => Some(
                    (
                        d.emit(
                            DomOpView::OpenSocket {
                                node: self.element,
                                direction: dir,
                                url: socket_url(dir, n),
                            },
                        ),
                        match dir {
                            Direction::ToPage => ElemView { ws_rx: true, ..self },
                            Direction::ToServer => ElemView { ws_tx: true, ..self },
                        },
                    ),
                ),
                None => None,
            },
            None => None,
        }
    }
}

impl Elem {
    /// A copy of the element.
    pub fn duplicate(&self) -> (r: Elem)
        ensures
            r@ == self@,
    {
        Elem {
            element: self.element,
            style: self.style.clone(),
            child_1: self.child_1,
            ws_rx: self.ws_rx,
            ws_tx: self.ws_tx,
        }
    }

    /// Appends `to_append` to this element.
    pub fn append(&self, dom: &mut DomCfg, to_append: &Elem)
        ensures
            final(dom)@ == old(dom)@.append(self.element, to_append.element),
    {
        dom.emit(DomOp::AppendChild { parent: self.element, child: to_append.element });
    }

    fn restyle(&mut self, dom: &mut DomCfg, declaration: &str)
        ensures
            (final(dom)@, final(self)@) == old(self)@.restyle(old(dom)@, declaration@),
    {
        self.style.append(declaration);
        dom.set_attribute(self.element, "style", self.style.as_str());
    }

    /// Adds ` background-color: <color>;` to the element's style.
    pub fn set_background_color(&mut self, dom: &mut DomCfg, color: &str)
        ensures
            (final(dom)@, final(self)@) == old(self)@.background(old(dom)@, color@),
    {
        let mut decl = String::new();
        decl.append(" background-color: ");
        decl.append(color);
        decl.append(";");
        self.restyle(dom, decl.as_str());
    }

    /// Adds ` color: <color>;` to the element's style.
    pub fn set_color(&mut self, dom: &mut DomCfg, color: &str)
        ensures
            (final(dom)@, final(self)@) == old(self)@.foreground(old(dom)@, color@),
    {
        let mut decl = String::new();
        decl.append(" color: ");
        decl.append(color);
        decl.append(";");
        self.restyle(dom, decl.as_str());
    }

    /// Floats the element left with a width of one column out of `cols_nr`.
    pub fn set_multi_cols(&mut self, dom: &mut DomCfg, cols_nr: i32)
        requires
            cols_nr != 0,
        ensures
            (final(dom)@, final(self)@) == old(self)@.multi_cols(old(dom)@, cols_nr),
    {
        self.style.append(" float: left;;");
        self.style.append(" width: ");
        let c = cols_nr as i64;
        let w: i32 = if c > 0 {
            (100 / c) as i32
        } else {
            (-(100 / (-c))) as i32
        };
        assert(w == div_trunc(100, cols_nr as int));
        let wt = fmt_i32(w);
        self.style.append(wt.as_str());
        self.style.append("%;");
        dom.set_attribute(self.element, "style", self.style.as_str());
    }

    /// Gives the element text size 4 where the style sheet has sizes.
    pub fn set_elem_size(&self, dom: &mut DomCfg)
        ensures
            final(dom)@ == self@.elem_size(old(dom)@),
    {
        match dom.css {
            Css::Bulma => {
                let cur = dom.get_attribute(self.element, "class");
                let mut class = String::new();
                match cur {
                    Some(c) => {
                        if c.unicode_len() > 0 {
                            class.append(c.as_str());
                            class.append(" is-size-4");
                        } else {
                            class.append("is-size-4");
                        }
                    },
                    None => class.append("is-size-4"),
                }
                dom.set_attribute(self.element, "class", class.as_str());
            },
            Css::Pico => {},
        }
    }

    fn listen(&self, dom: &mut DomCfg, event: &str, reaction: Reaction)
        ensures
            final(dom)@ == self@.listen(old(dom)@, event@, reaction),
    {
        dom.emit(DomOp::Listen { node: self.element, event: event.to_owned(), reaction });
    }

    /// Calls `reaction` when the element is clicked.
    pub fn on_click(&self, dom: &mut DomCfg, reaction: Reaction)
        ensures
            final(dom)@ == self@.listen(old(dom)@, "click"@, reaction),
    {
        self.listen(dom, "click", reaction);
    }

    /// Calls `reaction` when the element's value changes.
    pub fn on_change(&self, dom: &mut DomCfg, reaction: Reaction)
        ensures
            final(dom)@ == self@.listen(old(dom)@, "change"@, reaction),
    {
        self.listen(dom, "change", reaction);
    }

    /// Calls `reaction` when the element is submitted.
    pub fn on_submit(&self, dom: &mut DomCfg, reaction: Reaction)
        ensures
            final(dom)@ == self@.listen(old(dom)@, "submit"@, reaction),
    {
        self.listen(dom, "submit", reaction);
    }

    /// Calls `reaction` on each key press in the element.
    pub fn on_keypress(&self, dom: &mut DomCfg, reaction: Reaction)
        ensures
            final(dom)@ == self@.listen(old(dom)@, "keypress"@, reaction),
    {
        self.listen(dom, "keypress", reaction);
    }

    /// Calls `reaction` on each input in the element.
    pub fn on_input(&self, dom: &mut DomCfg, reaction: Reaction)
        ensures
            final(dom)@ == self@.listen(old(dom)@, "input"@, reaction),
    {
        self.listen(dom, "input", reaction);
    }

    /// Calls `reaction` when the element loses focus.
    pub fn on_blur(&self, dom: &mut DomCfg, reaction: Reaction)
        ensures
            final(dom)@ == self@.listen(old(dom)@, "blur"@, reaction),
    {
        self.listen(dom, "blur", reaction);
    }

    /// The node whose value the element reports: its inner input where it
    /// has one, else itself.
    pub fn value_source(&self) -> (r: usize)
        ensures
            r == match self.child_1 {
                Some(c) => c,
                None => self.element,
            },
    {
        match self.child_1 {
            Some(c) => c,
            None => self.element,
        }
    }

    /// Opens the element's socket in direction `dir`, or reports that its id
    /// has no number.
    pub(crate) fn open_socket(&mut self, dom: &mut DomCfg, dir: Direction) -> (r: Result<(), PageFault>)
        ensures
            match old(self)@.open_socket(old(dom)@, dir) {
                Some((d, e)) => r is Ok && final(dom)@ == d && final(self)@ == e,
                None => r == Err::<(), PageFault>(PageFault::UnnumberedId) && final(dom)@ == old(dom)@
                    && final(self)@ == old(self)@,
            },
    {
        let id = match dom.get_attribute(self.element, "id") {
            Some(id) => id,
            None => return Err(PageFault::UnnumberedId),
        };
        let n = match element_number(id.as_str()) {
            Some(n) => n,
            None => return Err(PageFault::UnnumberedId),
        };
        let url = socket_address(dir, n);
        dom.emit(DomOp::OpenSocket { node: self.element, direction: dir, url });
        match dir {
            Direction::ToPage => self.ws_rx = true,
            Direction::ToServer => self.ws_tx = true,
        }
        Ok(())
    }

    /// Opens the socket on which the server sends updates to this element;
    /// the element's id must carry a number.
    pub fn add_websocket_rx(&mut self, dom: &mut DomCfg)
        requires
            old(self)@.open_socket(old(dom)@, Direction::ToPage) is Some,
        ensures
            (final(dom)@, final(self)@) == old(self)@.open_socket(old(dom)@, Direction::ToPage).unwrap(),
    {
        let _ = self.open_socket(dom, Direction::ToPage);
    }

    /// Opens the socket on which this element sends input to the server;
    /// the element's id must carry a number.
    pub fn add_websocket_tx(&mut self, dom: &mut DomCfg)
        requires
            old(self)@.open_socket(old(dom)@, Direction::ToServer) is Some,
        ensures
            (final(dom)@, final(self)@) == old(self)@.open_socket(old(dom)@, Direction::ToServer).unwrap(),
    {
        let _ = self.open_socket(dom, Direction::ToServer);
    }

    /// Applies each update that arrives on the element's socket, which must
    /// be open.
    pub fn ws_read(&self, dom: &mut DomCfg)
        requires
            self.ws_rx,
        ensures
            final(dom)@ == old(dom)@.emit(DomOpView::ReadUpdates { elem: self@ }),
    {
        dom.emit(DomOp::ReadUpdates { elem: self.duplicate() });
    }

    /// Builds the page described by each message that arrives on the
    /// element's socket, which must be open.
    pub fn ws_read_conf(&self, dom: &mut DomCfg)
        requires
            self.ws_rx,
        ensures
            final(dom)@ == old(dom)@.emit(DomOpView::ReadPage { node: self.element }),
    {
        dom.emit(DomOp::ReadPage { node: self.element });
    }
}


impl DomView {
    /// `title`: an element `title` showing `title`.
    pub open spec fn title(self, id: Seq<char>, title: Seq<char>) -> (DomView, ElemView) {
        let (d1, e) = self.create(id, "title"@);
        (d1.set_inner(e.element, title), e)
    }

    /// `row`: a `div` of class `row`.
    pub open spec fn row(self, id: Seq<char>) -> (DomView, ElemView) {
        let (d1, e) = self.create(id, "div"@);
        (d1.set_attr(e.element, "class"@, "row"@), e)
    }

    /// `col`: a `div` of class `column`.
    pub open spec fn col(self, id: Seq<char>) -> (DomView, ElemView) {
        let (d1, e) = self.create(id, "div"@);
        (d1.set_attr(e.element, "class"@, "column"@), e)
    }

    /// `input`: a text `input`, with `text` as placeholder where it is not
    /// empty, in size 4.
    pub open spec fn input(self, id: Seq<char>, text: Seq<char>) -> (DomView, ElemView) {
        let (d1, e) = self.create(id, "input"@);
        let d2 = d1.set_attr(e.element, "type"@, "text"@);
        let d3 = if text.len() > 0 {
            d2.set_attr(e.element, "placeholder"@, text)
        } else {
            d2
        };
        (e.elem_size(d3), e)
    }

    /// `date`: an `input` of type `date`, in size 4.
    pub open spec fn date(self, id: Seq<char>) -> (DomView, ElemView) {
        let (d1, e) = self.create(id, "input"@);
        let d2 = d1.set_attr(e.element, "type"@, "date"@);
        (e.elem_size(d2), e)
    }

    /// `textarea`: a `textarea` holding `text`, `lines` rows high, white on
    /// black, in size 4.
    pub open spec fn textarea(self, id: Seq<char>, lines: i32, text: Seq<char>) -> (DomView, ElemView) {
        let (d1, e) = self.create(id, "textarea"@);
        let d2 = d1.set_inner(e.element, text).set_attr(e.element, "type"@, "text"@).set_attr(
            e.element,
            "rows"@,
            dec_int(lines as int),
        );
        let (d3, e3) = e.background(d2, "black"@);
        let (d4, e4) = e3.foreground(d3, "white"@);
        (e4.elem_size(d4), e4)
    }

    /// `form`: a `form` holding a text `input` (whose value it reports) and
    /// a `Submit` button, in size 4; all three carry the id `id`.
    pub open spec fn form(self, id: Seq<char>) -> (DomView, ElemView) {
        let (d1, f) = self.create(id, "form"@);
        let (d2, e) = d1.create(id, "input"@);
        let (d3, b) = d2.create(id, "button"@);
        let d4 = d3.set_attr(b.element, "type"@, "submit"@).set_inner(b.element, "Submit"@).set_attr(
            e.element,
            "type"@,
            "text"@,
        );
        let f1 = ElemView { child_1: Some(e.element), ..f };
        let d5 = d4.append(f.element, e.element).append(f.element, b.element);
        (f1.elem_size(d5), f1)
    }

    /// `button`: a `button` showing `text`, of the style sheet's primary
    /// button class (Bulma's in size 4).
    pub open spec fn button(self, id: Seq<char>, text: Seq<char>) -> (DomView, ElemView) {
        let (d1, e) = self.create(id, "button"@);
        let d2 = d1.set_inner(e.element, text).set_attr(e.element, "type"@, "button"@);
        let class = match d2.css {
            Css::Bulma => "button is-primary is-size-4"@,
            Css::Pico => "primary"@,
        };
        (d2.set_attr(e.element, "class"@, class), e)
    }

    /// `label`: a `label` showing `text`, in size 4.
    pub open spec fn label(self, id: Seq<char>, text: Seq<char>) -> (DomView, ElemView) {
        let (d1, e) = self.create(id, "label"@);
        let d2 = d1.set_inner(e.element, text);
        (e.elem_size(d2), e)
    }

    /// `paragraph`: a `p` showing `text`.
    pub open spec fn paragraph(self, id: Seq<char>, text: Seq<char>) -> (DomView, ElemView) {
        let (d1, e) = self.create(id, "p"@);
        (d1.set_inner(e.element, text), e)
    }

    /// `header2`: a centred `h2` showing `text`, in size 4.
    pub open spec fn header2(self, id: Seq<char>, text: Seq<char>) -> (DomView, ElemView) {
        let (d1, h) = self.create(id, "h2"@);
        let h1 = h.with_style(h.style + " text-align: center;"@);
        let d2 = d1.set_inner(h.element, text);
        (h1.elem_size(d2), h1)
    }

    /// `plot`: a centred `div` to draw a chart in.
    pub open spec fn plot(self, id: Seq<char>) -> (DomView, ElemView) {
        let (d1, e) = self.create(id, "div"@);
        (d1, e.with_style(e.style + " text-align: center;"@))
    }

    /// `slider`: an `input` of type `range` from `min` to `max` set at
    /// `value`, in size 4.
    pub open spec fn slider(self, id: Seq<char>, min: i32, max: i32, value: i32) -> (DomView, ElemView) {
        let (d1, e) = self.create(id, "input"@);
        let d2 = d1.set_attr(e.element, "type"@, "range"@).set_attr(
            e.element,
            "min"@,
            dec_int(min as int),
        ).set_attr(e.element, "max"@, dec_int(max as int)).set_attr(
            e.element,
            "value"@,
            dec_int(value as int),
        );
        (e.elem_size(d2), e)
    }

    /// `tab`: a `div` of class `tab`, the bar of tab buttons.
    pub open spec fn tab(self, id: Seq<char>) -> (DomView, ElemView) {
        let (d1, e) = self.create(id, "div"@);
        (d1.set_attr(e.element, "class"@, "tab"@), e)
    }

    /// The page after appending each of `children` to `parent`, in order.
    pub open spec fn append_all(self, parent: usize, children: Seq<ElemView>) -> DomView
        decreases children.len(),
    {
        if children.len() == 0 {
            self
        } else {
            self.append_all(parent, children.drop_last()).append(parent, children.last().element)
        }
    }

    /// `gridrow`: a `p` of class `grid` holding `children`, in order.
    pub open spec fn gridrow(self, children: Seq<ElemView>) -> (DomView, ElemView) {
        let (d1, e) = self.create(Seq::empty(), "p"@);
        (d1.set_attr(e.element, "class"@, "grid"@).append_all(e.element, children), e)
    }
}

impl DomCfg {
    /// An element `title` showing `title`.
    pub fn title(&mut self, id: &str, title: &str) -> (r: Elem)
        ensures
            (final(self)@, r@) == old(self)@.title(id@, title@),
    {
        let e = self.create_element(id, "title");
        self.set_inner_html(e.element, title);
        e
    }

    /// A `div` of class `row`.
    pub fn row(&mut self, id: &str) -> (r: Elem)
        ensures
            (final(self)@, r@) == old(self)@.row(id@),
    {
        let e = self.create_element(id, "div");
        self.set_attribute(e.element, "class", "row");
        e
    }

    /// A `div` of class `column`.
    pub fn col(&mut self, id: &str) -> (r: Elem)
        ensures
            (final(self)@, r@) == old(self)@.col(id@),
    {
        let e = self.create_element(id, "div");
        self.set_attribute(e.element, "class", "column");
        e
    }

    /// A text input with placeholder `text` (none where it is empty).
    pub fn input(&mut self, id: &str, text: &str) -> (r: Elem)
        ensures
            (final(self)@, r@) == old(self)@.input(id@, text@),
    {
        let e = self.create_element(id, "input");
        self.set_attribute(e.element, "type", "text");
        if text.unicode_len() > 0 {
            self.set_attribute(e.element, "placeholder", text);
        }
        e.set_elem_size(self);
        e
    }

    /// A date picker.
    pub fn date(&mut self, id: &str) -> (r: Elem)
        ensures
            (final(self)@, r@) == old(self)@.date(id@),
    {
        let e = self.create_element(id, "input");
        self.set_attribute(e.element, "type", "date");
        e.set_elem_size(self);
        e
    }

    /// A text area of `lines` rows holding `text`, white on black.
    pub fn textarea(&mut self, id: &str, lines: i32, text: &str) -> (r: Elem)
        ensures
            (final(self)@, r@) == old(self)@.textarea(id@, lines, text@),
    {
        let mut e = self.create_element(id, "textarea");
        self.set_inner_html(e.element, text);
        self.set_attribute(e.element, "type", "text");
        let rows = fmt_i32(lines);
        self.set_attribute(e.element, "rows", rows.as_str());
        e.set_background_color(self, "black");
        e.set_color(self, "white");
        e.set_elem_size(self);
        e
    }

    /// A form with a text input and a submit button.
    pub fn form(&mut self, id: &str) -> (r: Elem)
        ensures
            (final(self)@, r@) == old(self)@.form(id@),
    {
        let mut f = self.create_element(id, "form");
        let e = self.create_element(id, "input");
        let b = self.create_element(id, "button");
        self.set_attribute(b.element, "type", "submit");
        self.set_inner_html(b.element, "Submit");
        self.set_attribute(e.element, "type", "text");
        f.child_1 = Some(e.element);
        f.append(self, &e);
        f.append(self, &b);
        f.set_elem_size(self);
        f
    }

    /// A button showing `text`.
    pub fn button(&mut self, id: &str, text: &str) -> (r: Elem)
        ensures
            (final(self)@, r@) == old(self)@.button(id@, text@),
    {
        let e = self.create_element(id, "button");
        self.set_inner_html(e.element, text);
        self.set_attribute(e.element, "type", "button");
        match self.css {
            Css::Bulma => self.set_attribute(e.element, "class", "button is-primary is-size-4"),
            Css::Pico => self.set_attribute(e.element, "class", "primary"),
        }
        e
    }

    /// A label showing `text`.
    pub fn label(&mut self, id: &str, text: &str) -> (r: Elem)
        ensures
            (final(self)@, r@) == old(self)@.label(id@, text@),
    {
        let e = self.create_element(id, "label");
        self.set_inner_html(e.element, text);
        e.set_elem_size(self);
        e
    }

    /// A paragraph showing `text`.
    pub fn paragraph(&mut self, id: &str, text: &str) -> (r: Elem)
        ensures
            (final(self)@, r@) == old(self)@.paragraph(id@, text@),
    {
        let e = self.create_element(id, "p");
        self.set_inner_html(e.element, text);
        e
    }

    /// A centred second-level header showing `text`.
    pub fn header2(&mut self, id: &str, text: &str) -> (r: Elem)
        ensures
            (final(self)@, r@) == old(self)@.header2(id@, text@),
    {
        let mut h2 = self.create_element(id, "h2");
        h2.style.append(" text-align: center;");
        self.set_inner_html(h2.element, text);
        h2.set_elem_size(self);
        h2
    }

    /// A centred area to draw a chart in.
    pub fn plot(&mut self, id: &str) -> (r: Elem)
        ensures
            (final(self)@, r@) == old(self)@.plot(id@),
    {
        let mut e = self.create_element(id, "div");
        e.style.append(" text-align: center;");
        e
    }

    /// A range slider from `min` to `max` set at `value`.
    pub fn slider(&mut self, id: &str, min: i32, max: i32, value: i32) -> (r: Elem)
        ensures
            (final(self)@, r@) == old(self)@.slider(id@, min, max, value),
    {
        let e = self.create_element(id, "input");
        self.set_attribute(e.element, "type", "range");
        let t = fmt_i32(min);
        self.set_attribute(e.element, "min", t.as_str());
        let t = fmt_i32(max);
        self.set_attribute(e.element, "max", t.as_str());
        let t = fmt_i32(value);
        self.set_attribute(e.element, "value", t.as_str());
        e.set_elem_size(self);
        e
    }

    /// The bar of tab buttons.
    pub fn tab(&mut self, id: &str) -> (r: Elem)
        ensures
            (final(self)@, r@) == old(self)@.tab(id@),
    {
        let e = self.create_element(id, "div");
        self.set_attribute(e.element, "class", "tab");
        e
    }

    /// A grid row holding `children` in order.
    pub fn gridrow(&mut self, children: &Vec<Elem>) -> (r: Elem)
        ensures
            (final(self)@, r@) == old(self)@.gridrow(elems_view(children@)),
    {
        proof {
            reveal_strlit("");
            assert(""@ =~= Seq::<char>::empty());
        }
        let e = self.create_element("", "p");
        self.set_attribute(e.element, "class", "grid");
        let ghost d0 = self@;
        let mut i: usize = 0;
        while i < children.len()
            invariant
                i <= children@.len(),
                self@ == d0.append_all(e.element, elems_view(children@).take(i as int)),
            decreases children@.len() - i,
        {
            e.append(self, &children[i]);
            assert(elems_view(children@).take(i + 1).last() == children@[i as int]@);
            assert(elems_view(children@).take(i + 1).drop_last() == elems_view(children@).take(
                i as int,
            ));
            i = i + 1;
        }
        assert(elems_view(children@).take(i as int) == elems_view(children@));
        e
    }
}


impl DomView {
    /// One option of a list: a new `option` showing `choice`, selected when
    /// it is the first, appended to `parent`.
    pub open spec fn list_option(self, parent: usize, ind: int, choice: Seq<char>) -> DomView {
        let (d1, op) = self.create(Seq::empty(), "option"@);
        let d2 = d1.set_inner(op.element, choice);
        let d3 = if ind == 0 {
            d2.set_attr(op.element, "selected"@, Seq::empty())
        } else {
            d2
        };
        d3.append(parent, op.element)
    }

    /// `set_list`: one option per entry of `list`, in order, the first one
    /// selected.
    pub open spec fn list_options(self, parent: usize, list: Seq<Seq<char>>) -> DomView
        decreases list.len(),
    {
        if list.len() == 0 {
            self
        } else {
            self.list_options(parent, list.drop_last()).list_option(
                parent,
                list.len() - 1,
                list.last(),
            )
        }
    }

    /// The options of a drop-down after the first: a new `option` for each
    /// choice but the default one, in order.
    pub open spec fn other_options(self, sel: usize, choices: Seq<Seq<char>>, default: int) -> DomView
        decreases choices.len(),
    {
        if choices.len() == 0 {
            self
        } else {
            let d1 = self.other_options(sel, choices.drop_last(), default);
            if choices.len() - 1 == default {
                d1
            } else {
                let (d2, op) = d1.create(Seq::empty(), "option"@);
                d2.set_inner(op.element, choices.last()).append(sel, op.element)
            }
        }
    }

    /// `dropdown`: a `select` in size 4 whose first option, of value "",
    /// shows `choices[default]` (and labels the list) where that exists,
    /// followed by the other choices in order.
    pub open spec fn dropdown(self, id: Seq<char>, choices: Seq<Seq<char>>, default: usize) -> (DomView, ElemView) {
        let (d1, sel) = self.create(id, "select"@);
        let d2 = sel.elem_size(d1);
        let (d3, op1) = d2.create(id, "option"@);
        let d4 = d3.set_attr(op1.element, "value"@, Seq::empty());
        let d5 = if choices.len() > 0 && default < choices.len() {
            d4.set_attr(sel.element, "aria-label"@, choices[default as int]).set_inner(
                op1.element,
                choices[default as int],
            )
        } else {
            d4
        };
        (d5.append(sel.element, op1.element).other_options(sel.element, choices, default as int), sel)
    }
}

impl Elem {
    /// Fills the element with one option per entry of `list`, the first
    /// one selected.
    pub fn set_list(&self, dom: &mut DomCfg, list: &Vec<String>)
        ensures
            final(dom)@ == old(dom)@.list_options(self.element, crate::text::views(list@)),
    {
        proof {
            reveal_strlit("");
            assert(""@ =~= Seq::<char>::empty());
        }
        let ghost d0 = dom@;
        let mut i: usize = 0;
        while i < list.len()
            invariant
                i <= list@.len(),
                dom@ == d0.list_options(self.element, crate::text::views(list@).take(i as int)),
            decreases list@.len() - i,
        {
            proof {
                reveal_strlit("");
                assert(""@ =~= Seq::<char>::empty());
            }
            let ghost pre = crate::text::views(list@).take(i + 1);
            assert(pre.drop_last() == crate::text::views(list@).take(i as int));
            assert(pre.last() == list@[i as int]@);
            let ghost before = dom@;
            let op = dom.create_element("", "option");
            dom.set_inner_html(op.element, list[i].as_str());
            if i == 0 {
                dom.set_attribute(op.element, "selected", "");
            }
            self.append(dom, &op);
            assert(dom@ == before.list_option(self.element, i as int, list@[i as int]@));
            assert(pre.len() == i + 1);
            i = i + 1;
        }
        assert(crate::text::views(list@).take(i as int) == crate::text::views(list@));
    }
}

impl DomCfg {
    /// A drop-down list of `choices` showing `choices[defaultind]` first.
    pub fn dropdown(&mut self, id: &str, choices: &Vec<String>, defaultind: usize) -> (r: Elem)
        ensures
            (final(self)@, r@) == old(self)@.dropdown(id@, crate::text::views(choices@), defaultind),
    {
        proof {
            reveal_strlit("");
            assert(""@ =~= Seq::<char>::empty());
        }
        let sel = self.create_element(id, "select");
        sel.set_elem_size(self);
        let op1 = self.create_element(id, "option");
        self.set_attribute(op1.element, "value", "");
        if choices.len() > 0 && defaultind < choices.len() {
            self.set_attribute(sel.element, "aria-label", choices[defaultind].as_str());
            self.set_inner_html(op1.element, choices[defaultind].as_str());
        }
        self.emit(DomOp::AppendChild { parent: sel.element, child: op1.element });
        let ghost d0 = self@;
        let ghost cs = crate::text::views(choices@);
        let mut ind: usize = 0;
        while ind < choices.len()
            invariant
                ind <= choices@.len(),
                cs == crate::text::views(choices@),
                self@ == d0.other_options(sel.element, cs.take(ind as int), defaultind as int),
            decreases choices@.len() - ind,
        {
            proof {
                reveal_strlit("");
                assert(""@ =~= Seq::<char>::empty());
            }
            assert(cs.take(ind + 1).drop_last() == cs.take(ind as int));
            assert(cs.take(ind + 1).last() == choices@[ind as int]@);
            if ind == defaultind {
            } else {
                let op = self.create_element("", "option");
                self.set_inner_html(op.element, choices[ind].as_str());
                sel.append(self, &op);
            }
            ind = ind + 1;
        }
        assert(cs.take(ind as int) == cs);
        sel
    }
}


/// The id of `node` after `ops` (empty where it has none), as
/// `Element::id` reads it.
pub open spec fn id_of(ops: Seq<DomOpView>, node: usize) -> Seq<char> {
    match attr(ops, node, "id"@) {
        Some(v) => v,
        None => Seq::empty(),
    }
}

impl DomView {
    /// The page after showing or hiding the tab content `content`, whose
    /// button is `button`.
    pub open spec fn show_tab(self, content: usize, button: usize, shown: bool) -> DomView {
        if shown {
            self.set_attr(content, "style"@, "display: block;"@).set_attr(
                button,
                "class"@,
                "tablinks active"@,
            )
        } else {
            self.set_attr(content, "style"@, "display: none;"@).set_attr(
                button,
                "class"@,
                "tablinks secondary"@,
            )
        }
    }

    /// `tab_content`: a button titled `title` added to the tab bar `tab`,
    /// and a `div` of class `tabcontent` that the button shows; the first
    /// tab content is shown, the others hidden. The content joins the tabs.
    pub open spec fn tab_content(self, tab: ElemView, id: Seq<char>, title: Seq<char>) -> (DomView, ElemView) {
        let (d1, bt) = self.create(Seq::empty(), "button"@);
        let d2 = d1.set_attr(bt.element, "class"@, "tablinks secondary"@).set_inner(
            bt.element,
            title,
        ).append(tab.element, bt.element);
        let (d3, div2) = d2.create(id, "div"@);
        let d4 = d3.set_attr(div2.element, "class"@, "tabcontent"@);
        let content = ElemView { child_1: Some(bt.element), ..div2 };
        let d5 = d4.emit(
            DomOpView::Listen {
                node: bt.element,
                event: "click"@,
                reaction: Reaction::ShowTab { tab: d4.tabs.len() as usize },
            },
        );
        let d6 = d5.show_tab(content.element, bt.element, d5.tabs.len() == 0);
        (DomView { tabs: d6.tabs.push(content), ..d6 }, content)
    }

    /// Hiding, among `tabs`, each one whose id differs from `id`.
    pub open spec fn hide_others(self, tabs: Seq<ElemView>, id: Seq<char>) -> DomView
        decreases tabs.len(),
    {
        if tabs.len() == 0 {
            self
        } else {
            let d1 = self.hide_others(tabs.drop_last(), id);
            let t = tabs.last();
            if id_of(d1.ops, t.element) != id {
                d1.show_tab(t.element, t.child_1.unwrap(), false)
            } else {
                d1
            }
        }
    }

    /// `enable_this_tab` for tab `k`: it is shown, and every tab with
    /// another id hidden.
    pub open spec fn enable_tab(self, k: int) -> DomView {
        let me = self.tabs[k];
        let d1 = self.show_tab(me.element, me.child_1.unwrap(), true);
        d1.hide_others(self.tabs, id_of(d1.ops, me.element))
    }

    /// Whether every tab has a button.
    pub open spec fn tabs_have_buttons(self) -> bool {
        forall|i: int| 0 <= i < self.tabs.len() ==> (#[trigger] self.tabs[i]).child_1 is Some
    }
}

impl DomCfg {
    fn show_tab(&mut self, content: usize, button: usize, shown: bool)
        ensures
            final(self)@ == old(self)@.show_tab(content, button, shown),
    {
        if shown {
            self.set_attribute(content, "style", "display: block;");
            self.set_attribute(button, "class", "tablinks active");
        } else {
            self.set_attribute(content, "style", "display: none;");
            self.set_attribute(button, "class", "tablinks secondary");
        }
    }

    /// Adds a tab to the tab bar `tab`: a button titled `title` and the
    /// content it shows, which is returned.
    pub fn tab_content(&mut self, tab: &Elem, id: &str, title: &str) -> (r: Elem)
        ensures
            (final(self)@, r@) == old(self)@.tab_content(tab@, id@, title@),
    {
        proof {
            reveal_strlit("");
            assert(""@ =~= Seq::<char>::empty());
        }
        let bt = self.create_element("", "button");
        self.set_attribute(bt.element, "class", "tablinks secondary");
        self.set_inner_html(bt.element, title);
        tab.append(self, &bt);
        let mut div2 = self.create_element(id, "div");
        self.set_attribute(div2.element, "class", "tabcontent");
        div2.child_1 = Some(bt.element);
        let k = self.tabs.len();
        assert(k == self@.tabs.len());
        bt.on_click(self, Reaction::ShowTab { tab: k });
        let first = self.tabs.len() == 0;
        self.show_tab(div2.element, bt.element, first);
        let ghost before = self.tabs@;
        self.tabs.push(div2.duplicate());
        assert(elems_view(self.tabs@) =~= elems_view(before).push(div2@)) by {
            assert forall|i: int| 0 <= i < self.tabs@.len() implies #[trigger] elems_view(
                self.tabs@,
            )[i] == elems_view(before).push(div2@)[i] by {
                if i < before.len() {
                    assert(self.tabs@[i] == before[i]);
                }
            }
        }
        div2
    }

    /// Shows tab `k` and hides every tab with another id.
    pub fn enable_tab(&mut self, k: usize)
        requires
            k < old(self)@.tabs.len(),
            old(self)@.tabs_have_buttons(),
        ensures
            final(self)@ == old(self)@.enable_tab(k as int),
    {
        let ghost d0 = self@;
        let me = self.tabs[k].duplicate();
        assert(self@.tabs[k as int] == me@);
        assert(self@.tabs[k as int].child_1 is Some);
        let me_button = match me.child_1 {
            Some(b) => b,
            None => k,
        };
        self.show_tab(me.element, me_button, true);
        let me_id = match self.get_attribute(me.element, "id") {
            Some(v) => v,
            None => String::new(),
        };
        let ghost tabs = d0.tabs;
        let ghost d1 = self@;
        assert(tabs == elems_view(self.tabs@));
        let mut i: usize = 0;
        while i < self.tabs.len()
            invariant
                i <= tabs.len(),
                tabs == elems_view(self.tabs@),
                forall|j: int| 0 <= j < tabs.len() ==> (#[trigger] tabs[j]).child_1 is Some,
                self@ == d1.hide_others(tabs.take(i as int), me_id@),
            decreases tabs.len() - i,
        {
            assert(tabs.take(i + 1).drop_last() == tabs.take(i as int));
            assert(tabs.take(i + 1).last() == self.tabs@[i as int]@);
            let t_el = self.tabs[i].element;
            let t_button = match self.tabs[i].child_1 {
                Some(b) => b,
                None => t_el,
            };
            let t_id = match self.get_attribute(t_el, "id") {
                Some(v) => v,
                None => String::new(),
            };
            if !str_eq(t_id.as_str(), me_id.as_str()) {
                self.show_tab(t_el, t_button, false);
            }
            i = i + 1;
        }
        assert(tabs.take(i as int) == tabs);
    }
}


/// Building the page: the page so far, the elements of the row being
/// built, and the fault that stopped the building, if any.
pub struct Build {
    pub dom: DomView,
    pub elems: Seq<ElemView>,
    pub fault: Option<PageFault>,
}

impl Build {
    /// Building goes on with page `d` and element `e` added to the row.
    pub open spec fn add(self, d: DomView, e: ElemView) -> Build {
        Build { dom: d, elems: self.elems.push(e), fault: None }
    }

    /// Building stops at page `d` with fault `f`.
    pub open spec fn stop(self, d: DomView, f: PageFault) -> Build {
        Build { dom: d, elems: self.elems, fault: Some(f) }
    }

    /// Adds `e` after opening its socket for updates and reading them.
    pub open spec fn add_receiving(self, d: DomView, e: ElemView) -> Build {
        match e.open_socket(d, Direction::ToPage) {
            Some((d1, e1)) => self.add(d1.emit(DomOpView::ReadUpdates { elem: e1 }), e1),
            None => self.stop(d, PageFault::UnnumberedId),
        }
    }

    /// Adds `e` after opening its socket to the server and sending its
    /// value on each change.
    pub open spec fn add_sending(self, d: DomView, e: ElemView) -> Build {
        match e.open_socket(d, Direction::ToServer) {
            Some((d1, e1)) => self.add(
                e1.listen(
                    d1,
                    "change"@,
                    Reaction::SendValue {
                        source: match e1.child_1 {
                            Some(c) => c,
                            None => e1.element,
                        },
                    },
                ),
                e1,
            ),
            None => self.stop(d, PageFault::UnnumberedId),
        }
    }

    /// The header of a grid cell: receiving updates when mutable.
    pub open spec fn h2_cell(self, g: GridRowElement) -> Build {
        if self.fault is Some {
            self
        } else {
            match g.h2 {
                None => self,
                Some(c) => {
                    let (d1, h) = self.dom.header2(c.id@, c.text@);
                    if c.mutable {
                        self.add_receiving(d1, h)
                    } else {
                        self.add(d1, h)
                    }
                },
            }
        }
    }

    /// The text area of a grid cell, receiving updates.
    pub open spec fn textarea_cell(self, g: GridRowElement) -> Build {
        if self.fault is Some {
            self
        } else {
            match g.textarea {
                None => self,
                Some(c) => {
                    let (d1, e) = self.dom.textarea(c.id@, c.lines, c.text@);
                    self.add_receiving(d1, e)
                },
            }
        }
    }

    /// The label of a grid cell: receiving updates when mutable.
    pub open spec fn label_cell(self, g: GridRowElement) -> Build {
        if self.fault is Some {
            self
        } else {
            match g.label {
                None => self,
                Some(c) => {
                    let (d1, e) = self.dom.label(c.id@, c.text@);
                    if c.mutable {
                        self.add_receiving(d1, e)
                    } else {
                        self.add(d1, e)
                    }
                },
            }
        }
    }

    /// The paragraph of a grid cell; a missing id or text is empty.
    pub open spec fn p_cell(self, g: GridRowElement) -> Build {
        if self.fault is Some {
            self
        } else {
            match g.p {
                None => self,
                Some(c) => {
                    let text = match c.text {
                        Some(t) => t@,
                        None => Seq::empty(),
                    };
                    let id = match c.id {
                        Some(i) => i@,
                        None => Seq::empty(),
                    };
                    let (d1, e) = self.dom.paragraph(id, text);
                    self.add(d1, e)
                },
            }
        }
    }

    /// The drop-down of a grid cell: receiving updates, and sending the
    /// selected value on each change.
    pub open spec fn dropdown_cell(self, g: GridRowElement) -> Build {
        if self.fault is Some {
            self
        } else {
            match g.dropdown {
                None => self,
                Some(c) => {
                    let (d1, e) = self.dom.dropdown(
                        c.id@,
                        crate::text::views(c.items@),
                        c.defaultind as usize,
                    );
                    match e.open_socket(d1, Direction::ToPage) {
                        None => self.stop(d1, PageFault::UnnumberedId),
                        Some((d2, e2)) => {
                            let d3 = d2.emit(DomOpView::ReadUpdates { elem: e2 });
                            match e2.open_socket(d3, Direction::ToServer) {
                                None => self.stop(d3, PageFault::UnnumberedId),
                                Some((d4, e4)) => self.add(
                                    e4.listen(d4, "change"@, Reaction::SendSelected),
                                    e4,
                                ),
                            }
                        },
                    }
                },
            }
        }
    }

    /// The button of a grid cell, sending `pressed` on each click.
    pub open spec fn button_cell(self, g: GridRowElement) -> Build {
        if self.fault is Some {
            self
        } else {
            match g.button {
                None => self,
                Some(c) => {
                    let (d1, e) = self.dom.button(c.id@, c.text@);
                    match e.open_socket(d1, Direction::ToServer) {
                        None => self.stop(d1, PageFault::UnnumberedId),
                        Some((d2, e2)) => self.add(
                            e2.listen(d2, "click"@, Reaction::SendPressed),
                            e2,
                        ),
                    }
                },
            }
        }
    }

    /// The input of a grid cell (empty placeholder where it has no text),
    /// sending its value on each change.
    pub open spec fn input_cell(self, g: GridRowElement) -> Build {
        if self.fault is Some {
            self
        } else {
            match g.input {
                None => self,
                Some(c) => {
                    let text = match c.text {
                        Some(t) => t@,
                        None => Seq::empty(),
                    };
                    let (d1, e) = self.dom.input(c.id@, text);
                    self.add_sending(d1, e)
                },
            }
        }
    }

    /// The date picker of a grid cell, sending its value on each change.
    pub open spec fn date_cell(self, g: GridRowElement) -> Build {
        if self.fault is Some {
            self
        } else {
            match g.date {
                None => self,
                Some(c) => {
                    let (d1, e) = self.dom.date(c.id@);
                    self.add_sending(d1, e)
                },
            }
        }
    }

    /// The slider of a grid cell, sending its value on each change; it
    /// needs its minimum, maximum and initial value.
    pub open spec fn slider_cell(self, g: GridRowElement) -> Build {
        if self.fault is Some {
            self
        } else {
            match g.slider {
                None => self,
                Some(c) => {
                    if c.minmaxini@.len() < 3 {
                        self.stop(self.dom, PageFault::ShortSliderRange)
                    } else {
                        let (d1, e) = self.dom.slider(
                            c.id@,
                            c.minmaxini@[0],
                            c.minmaxini@[1],
                            c.minmaxini@[2],
                        );
                        self.add_sending(d1, e)
                    }
                },
            }
        }
    }

    /// The chart area of a grid cell, receiving updates.
    pub open spec fn plot_cell(self, g: GridRowElement) -> Build {
        if self.fault is Some {
            self
        } else {
            match g.plot {
                None => self,
                Some(c) => {
                    let (d1, e) = self.dom.plot(c.id@);
                    self.add_receiving(d1, e)
                },
            }
        }
    }

    /// The elements of a grid cell, in the order header, text area, label,
    /// paragraph, drop-down, button, input, date, slider, chart.
    #[verifier::opaque]
    pub open spec fn cell(self, g: GridRowElement) -> Build {
        self.h2_cell(g).textarea_cell(g).label_cell(g).p_cell(g).dropdown_cell(g).button_cell(
            g,
        ).input_cell(g).date_cell(g).slider_cell(g).plot_cell(g)
    }

    /// The elements of the cells of a row, in order.
    pub open spec fn cells(self, cells: Seq<GridRowElement>) -> Build
        decreases cells.len(),
    {
        if cells.len() == 0 {
            self
        } else {
            self.cells(cells.drop_last()).cell(cells.last())
        }
    }
}

/// The outcome of a building step as a `Build`.
pub open spec fn outcome(d: DomCfg, es: Seq<Elem>, r: Result<(), PageFault>) -> Build {
    Build {
        dom: d@,
        elems: elems_view(es),
        fault: match r {
            Ok(_) => None,
            Err(f) => Some(f),
        },
    }
}

/// The start of a building step as a `Build`.
pub open spec fn running(d: DomCfg, es: Seq<Elem>) -> Build {
    Build { dom: d@, elems: elems_view(es), fault: None }
}

fn push_elem(elems: &mut Vec<Elem>, e: Elem)
    ensures
        elems_view(final(elems)@) == elems_view(old(elems)@).push(e@),
{
    let ghost before = elems@;
    elems.push(e);
    assert(elems_view(elems@) =~= elems_view(before).push(e@)) by {
        assert forall|i: int| 0 <= i < elems@.len() implies #[trigger] elems_view(elems@)[i]
            == elems_view(before).push(e@)[i] by {
            if i < before.len() {
                assert(elems@[i] == before[i]);
            }
        }
    }
}

fn add_receiving(dom: &mut DomCfg, elems: &mut Vec<Elem>, e: Elem) -> (r: Result<(), PageFault>)
    ensures
        outcome(*final(dom), final(elems)@, r) == running(*old(dom), old(elems)@).add_receiving(
            old(dom)@,
            e@,
        ),
{
    let mut e = e;
    e.open_socket(dom, Direction::ToPage)?;
    e.ws_read(dom);
    push_elem(elems, e);
    Ok(())
}

fn add_sending(dom: &mut DomCfg, elems: &mut Vec<Elem>, e: Elem) -> (r: Result<(), PageFault>)
    ensures
        outcome(*final(dom), final(elems)@, r) == running(*old(dom), old(elems)@).add_sending(
            old(dom)@,
            e@,
        ),
{
    let mut e = e;
    e.open_socket(dom, Direction::ToServer)?;
    let source = e.value_source();
    e.on_change(dom, Reaction::SendValue { source });
    push_elem(elems, e);
    Ok(())
}

fn h2_cell(dom: &mut DomCfg, elems: &mut Vec<Elem>, g: &GridRowElement) -> (r: Result<
    (),
    PageFault,
>)
    ensures
        outcome(*final(dom), final(elems)@, r) == running(*old(dom), old(elems)@).h2_cell(*g),
{
    match &g.h2 {
        Some(c) => {
            let e = dom.header2(c.id.as_str(), c.text.as_str());
            if c.mutable {
                add_receiving(dom, elems, e)
            } else {
                push_elem(elems, e);
                Ok(())
            }
        },
        None => Ok(()),
    }
}

fn textarea_cell(dom: &mut DomCfg, elems: &mut Vec<Elem>, g: &GridRowElement) -> (r: Result<
    (),
    PageFault,
>)
    ensures
        outcome(*final(dom), final(elems)@, r) == running(*old(dom), old(elems)@).textarea_cell(*g),
{
    match &g.textarea {
        Some(c) => {
            let e = dom.textarea(c.id.as_str(), c.lines, c.text.as_str());
            add_receiving(dom, elems, e)
        },
        None => Ok(()),
    }
}

fn label_cell(dom: &mut DomCfg, elems: &mut Vec<Elem>, g: &GridRowElement) -> (r: Result<
    (),
    PageFault,
>)
    ensures
        outcome(*final(dom), final(elems)@, r) == running(*old(dom), old(elems)@).label_cell(*g),
{
    match &g.label {
        Some(c) => {
            let e = dom.label(c.id.as_str(), c.text.as_str());
            if c.mutable {
                add_receiving(dom, elems, e)
            } else {
                push_elem(elems, e);
                Ok(())
            }
        },
        None => Ok(()),
    }
}

fn p_cell(dom: &mut DomCfg, elems: &mut Vec<Elem>, g: &GridRowElement) -> (r: Result<
    (),
    PageFault,
>)
    ensures
        outcome(*final(dom), final(elems)@, r) == running(*old(dom), old(elems)@).p_cell(*g),
{
    proof {
        reveal_strlit("");
        assert(""@ =~= Seq::<char>::empty());
    }
    match &g.p {
        Some(c) => {
            let text = match &c.text {
                Some(t) => t.clone(),
                None => String::new(),
            };
            let id = match &c.id {
                Some(i) => i.clone(),
                None => String::new(),
            };
            let e = dom.paragraph(id.as_str(), text.as_str());
            push_elem(elems, e);
            Ok(())
        },
        None => Ok(()),
    }
}

fn dropdown_cell(dom: &mut DomCfg, elems: &mut Vec<Elem>, g: &GridRowElement) -> (r: Result<
    (),
    PageFault,
>)
    ensures
        outcome(*final(dom), final(elems)@, r) == running(*old(dom), old(elems)@).dropdown_cell(*g),
{
    match &g.dropdown {
        Some(c) => {
            let mut e = dom.dropdown(c.id.as_str(), &c.items, c.defaultind as usize);
            e.open_socket(dom, Direction::ToPage)?;
            e.ws_read(dom);
            e.open_socket(dom, Direction::ToServer)?;
            e.on_change(dom, Reaction::SendSelected);
            push_elem(elems, e);
            Ok(())
        },
        None => Ok(()),
    }
}

fn button_cell(dom: &mut DomCfg, elems: &mut Vec<Elem>, g: &GridRowElement) -> (r: Result<
    (),
    PageFault,
>)
    ensures
        outcome(*final(dom), final(elems)@, r) == running(*old(dom), old(elems)@).button_cell(*g),
{
    match &g.button {
        Some(c) => {
            let mut e = dom.button(c.id.as_str(), c.text.as_str());
            e.open_socket(dom, Direction::ToServer)?;
            e.on_click(dom, Reaction::SendPressed);
            push_elem(elems, e);
            Ok(())
        },
        None => Ok(()),
    }
}

fn input_cell(dom: &mut DomCfg, elems: &mut Vec<Elem>, g: &GridRowElement) -> (r: Result<
    (),
    PageFault,
>)
    ensures
        outcome(*final(dom), final(elems)@, r) == running(*old(dom), old(elems)@).input_cell(*g),
{
    proof {
        reveal_strlit("");
        assert(""@ =~= Seq::<char>::empty());
    }
    match &g.input {
        Some(c) => {
            let text = match &c.text {
                Some(t) => t.clone(),
                None => String::new(),
            };
            let e = dom.input(c.id.as_str(), text.as_str());
            add_sending(dom, elems, e)
        },
        None => Ok(()),
    }
}

fn date_cell(dom: &mut DomCfg, elems: &mut Vec<Elem>, g: &GridRowElement) -> (r: Result<
    (),
    PageFault,
>)
    ensures
        outcome(*final(dom), final(elems)@, r) == running(*old(dom), old(elems)@).date_cell(*g),
{
    match &g.date {
        Some(c) => {
            let e = dom.date(c.id.as_str());
            add_sending(dom, elems, e)
        },
        None => Ok(()),
    }
}

fn slider_cell(dom: &mut DomCfg, elems: &mut Vec<Elem>, g: &GridRowElement) -> (r: Result<
    (),
    PageFault,
>)
    ensures
        outcome(*final(dom), final(elems)@, r) == running(*old(dom), old(elems)@).slider_cell(*g),
{
    match &g.slider {
        Some(c) => {
            if c.minmaxini.len() < 3 {
                return Err(PageFault::ShortSliderRange);
            }
            let e = dom.slider(c.id.as_str(), c.minmaxini[0], c.minmaxini[1], c.minmaxini[2]);
            add_sending(dom, elems, e)
        },
        None => Ok(()),
    }
}

fn plot_cell(dom: &mut DomCfg, elems: &mut Vec<Elem>, g: &GridRowElement) -> (r: Result<
    (),
    PageFault,
>)
    ensures
        outcome(*final(dom), final(elems)@, r) == running(*old(dom), old(elems)@).plot_cell(*g),
{
    match &g.plot {
        Some(c) => {
            let e = dom.plot(c.id.as_str());
            add_receiving(dom, elems, e)
        },
        None => Ok(()),
    }
}


/// A building step that has stopped changes nothing more.
pub proof fn lemma_cell_stopped(b: Build, g: GridRowElement)
    requires
        b.fault is Some,
    ensures
        b.cell(g) == b,
{
    reveal(Build::cell);
}

/// Once the cells of a row have stopped, the later cells change nothing.
pub proof fn lemma_cells_stopped(b: Build, cells: Seq<GridRowElement>, i: int)
    requires
        0 <= i <= cells.len(),
        b.cells(cells.take(i)).fault is Some,
    ensures
        b.cells(cells) == b.cells(cells.take(i)),
    decreases cells.len() - i,
{
    if i < cells.len() {
        assert(cells.take(i + 1).drop_last() == cells.take(i));
        lemma_cell_stopped(b.cells(cells.take(i)), cells.take(i + 1).last());
        lemma_cells_stopped(b, cells, i + 1);
    } else {
        assert(cells.take(i) == cells);
    }
}

fn build_cell(dom: &mut DomCfg, elems: &mut Vec<Elem>, g: &GridRowElement) -> (r: Result<
    (),
    PageFault,
>)
    ensures
        outcome(*final(dom), final(elems)@, r) == running(*old(dom), old(elems)@).cell(*g),
{
    reveal(Build::cell);
    h2_cell(dom, elems, g)?;
    textarea_cell(dom, elems, g)?;
    label_cell(dom, elems, g)?;
    p_cell(dom, elems, g)?;
    dropdown_cell(dom, elems, g)?;
    button_cell(dom, elems, g)?;
    input_cell(dom, elems, g)?;
    date_cell(dom, elems, g)?;
    slider_cell(dom, elems, g)?;
    plot_cell(dom, elems, g)
}

impl Build {
    /// A row of the page: its cells' elements in a grid row, which goes
    /// into the tab content `tbc` (then moved to the end of the body) when
    /// the page has tabs, else straight to the end of the body.
    pub open spec fn row(self, tbc: ElemView, row: Row, valid: bool) -> Build {
        if self.fault is Some {
            self
        } else {
            let b1 = Build { dom: self.dom, elems: Seq::empty(), fault: None }.cells(row.gridrow@);
            if b1.fault is Some {
                Build { dom: b1.dom, elems: Seq::empty(), fault: b1.fault }
            } else {
                let (d2, gd) = b1.dom.gridrow(b1.elems);
                let d3 = if valid {
                    d2.append(tbc.element, gd.element).emit(DomOpView::AppendToBody { node: tbc.element })
                } else {
                    d2.emit(DomOpView::AppendToBody { node: gd.element })
                };
                Build { dom: d3, elems: Seq::empty(), fault: None }
            }
        }
    }

    /// The rows of a tab, in order.
    pub open spec fn rows(self, tbc: ElemView, rows: Seq<Row>, valid: bool) -> Build
        decreases rows.len(),
    {
        if rows.len() == 0 {
            self
        } else {
            self.rows(tbc, rows.drop_last(), valid).row(tbc, rows.last(), valid)
        }
    }
}

/// Once the rows of a tab have stopped, the later rows change nothing.
pub proof fn lemma_rows_stopped(b: Build, tbc: ElemView, rows: Seq<Row>, valid: bool, i: int)
    requires
        0 <= i <= rows.len(),
        b.rows(tbc, rows.take(i), valid).fault is Some,
    ensures
        b.rows(tbc, rows, valid) == b.rows(tbc, rows.take(i), valid),
    decreases rows.len() - i,
{
    if i < rows.len() {
        assert(rows.take(i + 1).drop_last() == rows.take(i));
        lemma_rows_stopped(b, tbc, rows, valid, i + 1);
    } else {
        assert(rows.take(i) == rows);
    }
}

fn build_row(dom: &mut DomCfg, tbc: &Elem, row: &Row, valid: bool) -> (r: Result<(), PageFault>)
    ensures
        outcome(*final(dom), Seq::empty(), r) == running(*old(dom), Seq::empty()).row(tbc@, *row, valid),
{
    let mut elems: Vec<Elem> = Vec::new();
    let ghost b0 = Build { dom: dom@, elems: Seq::empty(), fault: None };
    assert(elems_view(elems@) =~= Seq::<ElemView>::empty());
    assert(row.gridrow@.take(0) =~= Seq::<GridRowElement>::empty());
    let mut i: usize = 0;
    while i < row.gridrow.len()
        invariant
            i <= row.gridrow@.len(),
            b0 == (Build { dom: old(dom)@, elems: Seq::empty(), fault: None }),
            running(*dom, elems@) == b0.cells(row.gridrow@.take(i as int)),
        decreases row.gridrow@.len() - i,
    {
        assert(row.gridrow@.take(i + 1).drop_last() == row.gridrow@.take(i as int));
        assert(row.gridrow@.take(i + 1).last() == row.gridrow@[i as int]);
        let r = build_cell(dom, &mut elems, &row.gridrow[i]);
        match r {
            Err(f) => {
                proof {
                    assert(outcome(*dom, elems@, r) == b0.cells(row.gridrow@.take(i + 1)));
                    lemma_cells_stopped(b0, row.gridrow@, i + 1);
                    assert(b0.cells(row.gridrow@) == outcome(*dom, elems@, r));
                    assert(b0 == Build { dom: old(dom)@, elems: Seq::empty(), fault: None });
                    assert(elems_view(Seq::<Elem>::empty()) =~= Seq::<ElemView>::empty());
                }
                return Err(f);
            },
            Ok(()) => {},
        }
        i = i + 1;
    }
    assert(row.gridrow@.take(i as int) == row.gridrow@);
    let gd = dom.gridrow(&elems);
    if valid {
        tbc.append(dom, &gd);
        dom.emit(DomOp::AppendToBody { node: tbc.element });
    } else {
        dom.emit(DomOp::AppendToBody { node: gd.element });
    }
    Ok(())
}


impl Build {
    /// A tab of the page: its content added to the tab bar `tb` (which
    /// joins the body with the first tab that has an id); a tab with an id
    /// gets it and its title; then its rows. `valid` tells whether the page
    /// has tabs; the new value of it comes second.
    pub open spec fn tab_entry(self, tb: ElemView, t: GuiDescr, valid: bool) -> (Build, bool) {
        if self.fault is Some {
            (self, valid)
        } else {
            let (d1, tbc) = self.dom.tab_content(tb, Seq::empty(), Seq::empty());
            let d2 = if t.tab.id is Some && !valid {
                d1.emit(DomOpView::AppendToBody { node: tb.element })
            } else {
                d1
            };
            let v2 = valid || t.tab.id is Some;
            match t.tab.id {
                Some(id) => {
                    let d3 = d2.set_attr(tbc.element, "id"@, id@);
                    match t.tab.text {
                        None => (
                            Build { dom: d3, elems: Seq::empty(), fault: Some(PageFault::MissingTabTitle) },
                            v2,
                        ),
                        Some(text) => (
                            Build {
                                dom: d3.set_inner(tbc.child_1.unwrap(), text@),
                                elems: Seq::empty(),
                                fault: None,
                            }.rows(tbc, t.tab.rows@, v2),
                            v2,
                        ),
                    }
                },
                None => (
                    Build { dom: d2, elems: Seq::empty(), fault: None }.rows(tbc, t.tab.rows@, v2),
                    v2,
                ),
            }
        }
    }

    /// The tabs of the page, in order.
    pub open spec fn tab_entries(self, tb: ElemView, gui: Seq<GuiDescr>, valid: bool) -> (Build, bool)
        decreases gui.len(),
    {
        if gui.len() == 0 {
            (self, valid)
        } else {
            let (b1, v1) = self.tab_entries(tb, gui.drop_last(), valid);
            b1.tab_entry(tb, gui.last(), v1)
        }
    }
}

impl DomView {
    /// `ws_read_conf` on a page description: a tab bar, then each tab with
    /// its rows; where the page gives up, the changes made until then stay.
    pub open spec fn page(self, gui: Seq<GuiDescr>) -> Build {
        let (d1, tb) = self.tab(Seq::empty());
        Build { dom: d1, elems: Seq::empty(), fault: None }.tab_entries(tb, gui, false).0
    }
}

/// Once the tabs have stopped, the later tabs change nothing.
pub proof fn lemma_tabs_stopped(b: Build, tb: ElemView, gui: Seq<GuiDescr>, valid: bool, i: int)
    requires
        0 <= i <= gui.len(),
        b.tab_entries(tb, gui.take(i), valid).0.fault is Some,
    ensures
        b.tab_entries(tb, gui, valid).0 == b.tab_entries(tb, gui.take(i), valid).0,
    decreases gui.len() - i,
{
    if i < gui.len() {
        assert(gui.take(i + 1).drop_last() == gui.take(i));
        lemma_tabs_stopped(b, tb, gui, valid, i + 1);
    } else {
        assert(gui.take(i) == gui);
    }
}

fn build_rows(dom: &mut DomCfg, tbc: &Elem, rows: &Vec<Row>, valid: bool) -> (r: Result<
    (),
    PageFault,
>)
    ensures
        outcome(*final(dom), Seq::empty(), r) == running(*old(dom), Seq::empty()).rows(
            tbc@,
            rows@,
            valid,
        ),
{
    let ghost b0 = running(*dom, Seq::empty());
    assert(rows@.take(0) =~= Seq::<Row>::empty());
    assert(elems_view(Seq::<Elem>::empty()) =~= Seq::<ElemView>::empty());
    let mut i: usize = 0;
    while i < rows.len()
        invariant
            i <= rows@.len(),
            b0 == running(*old(dom), Seq::empty()),
            elems_view(Seq::<Elem>::empty()) == Seq::<ElemView>::empty(),
            running(*dom, Seq::empty()) == b0.rows(tbc@, rows@.take(i as int), valid),
        decreases rows@.len() - i,
    {
        assert(rows@.take(i + 1).drop_last() == rows@.take(i as int));
        assert(rows@.take(i + 1).last() == rows@[i as int]);
        let r = build_row(dom, tbc, &rows[i], valid);
        match r {
            Err(f) => {
                proof {
                    lemma_rows_stopped(b0, tbc@, rows@, valid, i + 1);
                }
                return Err(f);
            },
            Ok(()) => {},
        }
        i = i + 1;
    }
    assert(rows@.take(i as int) == rows@);
    Ok(())
}

fn build_tab(dom: &mut DomCfg, tb: &Elem, t: &GuiDescr, valid: bool) -> (r: Result<bool, PageFault>)
    ensures
        match r {
            Ok(v) => outcome(*final(dom), Seq::empty(), Ok(())) == running(
                *old(dom),
                Seq::empty(),
            ).tab_entry(tb@, *t, valid).0 && v == running(*old(dom), Seq::empty()).tab_entry(
                tb@,
                *t,
                valid,
            ).1,
            Err(f) => outcome(*final(dom), Seq::empty(), Err(f)) == running(
                *old(dom),
                Seq::empty(),
            ).tab_entry(tb@, *t, valid).0,
        },
{
    proof {
        reveal_strlit("");
        assert(""@ =~= Seq::<char>::empty());
        assert(elems_view(Seq::<Elem>::empty()) =~= Seq::<ElemView>::empty());
    }
    let tbc = dom.tab_content(tb, "", "");
    let has_id = t.tab.id.is_some();
    if has_id && !valid {
        dom.emit(DomOp::AppendToBody { node: tb.element });
    }
    let v2 = valid || has_id;
    match &t.tab.id {
        Some(id) => {
            dom.set_attribute(tbc.element, "id", id.as_str());
            match &t.tab.text {
                None => {
                    return Err(PageFault::MissingTabTitle);
                },
                Some(text) => {
                    let b = match tbc.child_1 {
                        Some(b) => b,
                        None => tbc.element,
                    };
                    dom.set_inner_html(b, text.as_str());
                },
            }
        },
        None => {},
    }
    build_rows(dom, &tbc, &t.tab.rows, v2)?;
    Ok(v2)
}

impl DomCfg {
    /// Builds the page that `gui` describes: a tab bar, then each tab with
    /// its rows of widgets, each widget connected to the server as its kind
    /// requires. Where the description makes the page give up, the changes
    /// made until then stay and the fault is returned.
    pub fn build_page(&mut self, gui: &Vec<GuiDescr>) -> (r: Result<(), PageFault>)
        ensures
            outcome(*final(self), Seq::empty(), r) == old(self)@.page(gui@),
    {
        proof {
            reveal_strlit("");
            assert(""@ =~= Seq::<char>::empty());
            assert(elems_view(Seq::<Elem>::empty()) =~= Seq::<ElemView>::empty());
        }
        let tb = self.tab("");
        let ghost b0 = running(*self, Seq::empty());
        assert(gui@.take(0) =~= Seq::<GuiDescr>::empty());
        let mut valid = false;
        let mut i: usize = 0;
        while i < gui.len()
            invariant
                i <= gui@.len(),
                b0 == (Build { dom: old(self)@.tab(Seq::empty()).0, elems: Seq::empty(), fault: None }),
                tb@ == old(self)@.tab(Seq::empty()).1,
                elems_view(Seq::<Elem>::empty()) == Seq::<ElemView>::empty(),
                running(*self, Seq::empty()) == b0.tab_entries(tb@, gui@.take(i as int), false).0,
                valid == b0.tab_entries(tb@, gui@.take(i as int), false).1,
            decreases gui@.len() - i,
        {
            assert(gui@.take(i + 1).drop_last() == gui@.take(i as int));
            assert(gui@.take(i + 1).last() == gui@[i as int]);
            let r = build_tab(self, &tb, &gui[i], valid);
            match r {
                Err(f) => {
                    proof {
                        lemma_tabs_stopped(b0, tb@, gui@, false, i + 1);
                    }
                    return Err(f);
                },
                Ok(v) => {
                    valid = v;
                },
            }
            i = i + 1;
        }
        assert(gui@.take(i as int) == gui@);
        Ok(())
    }
}

} // verus!
