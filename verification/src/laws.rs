//! Properties that hold across the library's functions.

use vstd::prelude::*;
use vstd::seq_lib::lemma_concat_associative;
use crate::config::{GridRowElement, GuiDescr, Row};
use crate::message::{RxTxMessage, blank_but, is_blank};
use crate::update::apply;
use crate::plot::normal_style;
use crate::dom::{Build, DomOpView, DomView, ElemView, attr, id_of, id_text, next_node};
use crate::server::{Link, ReplyView, has_prefix, route_reply, is_quit, grid_registrations, row_registrations, rows_registrations, gui_registrations, h2_registration, textarea_registration, label_registration, dropdown_registration, button_registration, input_registration, date_registration, slider_registration, plot_registration};
use crate::net::{Direction, id_number, listen_addr, socket_url};
use crate::text::{words, trim, trim_start, trim_end, is_ws, all_digits, dec, dec_int, digit_char, digits_value, find, find_from, is_digit, occurs_at, pad3, parse_u8, skip_plus, views};

verus! {

/// The decimal notation of a number is made of digits only, begins with
/// one, and reads back as the number.
pub proof fn lemma_dec_reads_back(n: nat)
    ensures
        dec(n).len() > 0,
        all_digits(dec(n)),
        is_digit(dec(n)[0]),
        digits_value(dec(n)) == n,
    decreases n,
{
    lemma_digit_char(n % 10);
    if n < 10 {
        assert(dec(n).drop_last() =~= Seq::<char>::empty());
        assert(digits_value(Seq::<char>::empty()) == 0);
        assert(dec(n).last() == digit_char(n));
        assert(digits_value(dec(n)) == digits_value(dec(n).drop_last()) * 10 + ((dec(n).last() as int - 48) as nat));
    } else {
        lemma_dec_reads_back(n / 10);
        let d = dec(n / 10);
        assert(dec(n) == d.push(digit_char(n % 10)));
        assert(dec(n).drop_last() == d);
        assert(dec(n).last() == digit_char(n % 10));
        assert((n / 10) * 10 + n % 10 == n) by (nonlinear_arith);
        assert forall|i: int| 0 <= i < dec(n).len() implies is_digit(#[trigger] dec(n)[i]) by {
            if i < d.len() {
                assert(dec(n)[i] == d[i]);
            }
        }
    }
}

/// The character of a digit is a digit, of code 48 more than it.
pub proof fn lemma_digit_char(d: nat)
    requires
        d < 10,
    ensures
        digit_char(d) as int == d + 48,
        is_digit(digit_char(d)),
{
    let b = (d + 48) as u8;
    assert(b as int == d + 48);
    assert((b as char) as int == b as int);
}

/// A leading zero does not change the value of digits.
pub proof fn lemma_leading_zero(s: Seq<char>)
    ensures
        digits_value(seq!['0'] + s) == digits_value(s),
    decreases s.len(),
{
    assert('0' as int == 48);
    if s.len() == 0 {
        assert((seq!['0'] + s).drop_last() =~= Seq::<char>::empty());
        assert((seq!['0'] + s).last() == '0');
        assert(digits_value(Seq::<char>::empty()) == 0);
        assert(s =~= Seq::<char>::empty());
    } else {
        lemma_leading_zero(s.drop_last());
        assert((seq!['0'] + s).drop_last() == seq!['0'] + s.drop_last());
        assert((seq!['0'] + s).last() == s.last());
    }
}

/// Different numbers have different decimal notations.
pub proof fn lemma_dec_injective(a: nat, b: nat)
    requires
        dec(a) == dec(b),
    ensures
        a == b,
{
    lemma_dec_reads_back(a);
    lemma_dec_reads_back(b);
}

/// Different counter values give different generated ids: the ids a page
/// generates never repeat until its counter wraps around.
pub proof fn law_generated_ids_distinct(a: i32, b: i32)
    requires
        a != b,
    ensures
        id_text(a) != id_text(b),
{
    reveal_strlit("id_");
    if id_text(a) == id_text(b) {
        assert(dec_int(a as int) == id_text(a).skip(3));
        assert(dec_int(b as int) == id_text(b).skip(3));
        lemma_dec_reads_back(if a < 0 { (-a) as nat } else { a as nat });
        lemma_dec_reads_back(if b < 0 { (-b) as nat } else { b as nat });
        if a < 0 && b < 0 {
            assert(dec((-a) as nat) == dec_int(a as int).drop_first());
            assert(dec((-b) as nat) == dec_int(b as int).drop_first());
            lemma_dec_injective((-a) as nat, (-b) as nat);
        } else if a >= 0 && b >= 0 {
            lemma_dec_injective(a as nat, b as nat);
        } else {
            assert(dec_int(a as int)[0] != dec_int(b as int)[0]);
        }
    }
}

/// The element number of `id_<n>` is `n`, for every `n` a `u8` holds.
pub proof fn law_id_number_of_numbered_id(n: u8)
    ensures
        id_number("id_"@ + dec(n as nat)) == Some(n),
{
    let s = "id_"@ + dec(n as nat);
    reveal_strlit("id_");
    assert(s.subrange(0, 3) == "id_"@);
    assert(occurs_at(s, "id_"@, 0));
    assert(find(s, "id_"@) == Some(0int));
    assert(s.skip(3) == dec(n as nat));
    lemma_dec_reads_back(n as nat);
    assert(skip_plus(dec(n as nat)) == dec(n as nat));
}

/// The page connects each element's socket exactly where the server
/// listens for that element: the URL is the listening address behind
/// `ws://`, the same for both sides and both directions.
pub proof fn law_socket_meets_listener(d: Direction, n: u8)
    ensures
        socket_url(d, n) == "ws://"@ + listen_addr(d, n),
        socket_url(Direction::ToPage, n) != socket_url(Direction::ToServer, n),
{
    reveal_strlit("61");
    reveal_strlit("62");
    reveal_strlit("ws://");
    reveal_strlit("127.0.0.1:");
    let a = socket_url(Direction::ToPage, n);
    let b = socket_url(Direction::ToServer, n);
    assert(a[16] == '1');
    assert(b[16] == '2');
}

/// Reading an attribute gives back what the last write to it wrote.
pub proof fn law_attribute_read_after_write(d: DomView, node: usize, name: Seq<char>, value: Seq<char>)
    ensures
        attr(d.set_attr(node, name, value).ops, node, name) == Some(value),
{
}

/// Writing an attribute leaves every other attribute, of every element, as
/// it was.
pub proof fn law_attribute_write_is_local(
    d: DomView,
    node: usize,
    name: Seq<char>,
    value: Seq<char>,
    other_node: usize,
    other_name: Seq<char>,
)
    requires
        node != other_node || name != other_name,
    ensures
        attr(d.set_attr(node, name, value).ops, other_node, other_name) == attr(
            d.ops,
            other_node,
            other_name,
        ),
{
    assert(d.set_attr(node, name, value).ops.drop_last() == d.ops);
}

/// Style changes only add to an element's style: the earlier style is kept
/// in front, for background colour, text colour and columns alike.
pub proof fn law_style_only_grows(e: ElemView, d: DomView, color: Seq<char>, cols: i32)
    ensures
        e.background(d, color).1.style.subrange(0, e.style.len() as int) == e.style,
        e.foreground(d, color).1.style.subrange(0, e.style.len() as int) == e.style,
        e.multi_cols(d, cols).1.style.subrange(0, e.style.len() as int) == e.style,
{
    assert(e.background(d, color).1.style.subrange(0, e.style.len() as int) =~= e.style);
    assert(e.foreground(d, color).1.style.subrange(0, e.style.len() as int) =~= e.style);
    assert(e.multi_cols(d, cols).1.style.subrange(0, e.style.len() as int) =~= e.style);
}

/// The zero-padded number in a port reads back as the number.
pub proof fn law_pad3_reads_back(n: u8)
    ensures
        parse_u8(pad3(n as nat)) == Some(n),
{
    lemma_dec_reads_back(n as nat);
    let p = pad3(n as nat);
    let d = dec(n as nat);
    assert forall|i: int| 0 <= i < p.len() implies is_digit(#[trigger] p[i]) by {
        if n < 10 {
            if i >= 2 {
                assert(p[i] == d[i - 2]);
            }
        } else if n < 100 {
            if i >= 1 {
                assert(p[i] == d[i - 1]);
            }
        }
    }
    assert(skip_plus(p) == p);
    if n < 10 {
        lemma_leading_zero(d);
        lemma_leading_zero(seq!['0'] + d);
        assert(p == seq!['0'] + (seq!['0'] + d));
    } else if n < 100 {
        lemma_leading_zero(d);
    }
}


/// The number of sockets for updates from the server that the changes
/// `ops` open.
pub open spec fn page_sockets(ops: Seq<DomOpView>) -> nat
    decreases ops.len(),
{
    if ops.len() == 0 {
        0
    } else {
        page_sockets(ops.drop_last()) + (if ops.last() matches DomOpView::OpenSocket {
            direction: Direction::ToPage,
            ..
        } {
            1nat
        } else {
            0nat
        })
    }
}

/// One more change adds one to the count when it opens an update socket.
pub broadcast proof fn lemma_page_sockets_push(ops: Seq<DomOpView>, op: DomOpView)
    ensures
        #[trigger] page_sockets(ops.push(op)) == page_sockets(ops) + (if op matches DomOpView::OpenSocket {
            direction: Direction::ToPage,
            ..
        } {
            1nat
        } else {
            0nat
        }),
{
    assert(ops.push(op).drop_last() == ops);
}

/// The number of registrations that come with a channel to the page.
pub open spec fn sending_links(regs: Seq<(Seq<char>, Link)>) -> nat
    decreases regs.len(),
{
    if regs.len() == 0 {
        0
    } else {
        sending_links(regs.drop_last()) + (if regs.last().1 != Link::Plain {
            1nat
        } else {
            0nat
        })
    }
}

/// Counting channels distributes over concatenation.
pub broadcast proof fn lemma_sending_links_concat(a: Seq<(Seq<char>, Link)>, b: Seq<(Seq<char>, Link)>)
    ensures
        #[trigger] sending_links(a + b) == sending_links(a) + sending_links(b),
    decreases b.len(),
{
    if b.len() == 0 {
        assert(a + b == a);
    } else {
        lemma_sending_links_concat(a, b.drop_last());
        assert((a + b).drop_last() == a + b.drop_last());
    }
}

/// Adding the other options of a drop-down opens no socket.
pub proof fn lemma_other_options_no_socket(d: DomView, sel: usize, choices: Seq<Seq<char>>, default: int)
    ensures
        page_sockets(d.other_options(sel, choices, default).ops) == page_sockets(d.ops),
    decreases choices.len(),
{
    broadcast use lemma_page_sockets_push;
    if choices.len() > 0 {
        lemma_other_options_no_socket(d, sel, choices.drop_last(), default);
    }
}

/// The header part of a cell opens one update socket exactly when the
/// server registers the header with a sending channel.
proof fn lemma_h2_part(b: Build, g: GridRowElement)
    requires
        b.h2_cell(g).fault is None,
    ensures
        page_sockets(b.h2_cell(g).dom.ops) == page_sockets(b.dom.ops) + sending_links(h2_registration(g)),
{
    broadcast use lemma_page_sockets_push;
    reveal_with_fuel(sending_links, 2);
}

/// The text area part of a cell: the sockets for updates that it opens
/// match its registration's sending channels.
proof fn lemma_textarea_part(b: Build, g: GridRowElement)
    requires
        b.textarea_cell(g).fault is None,
    ensures
        page_sockets(b.textarea_cell(g).dom.ops) == page_sockets(b.dom.ops) + sending_links(textarea_registration(g)),
{
    broadcast use lemma_page_sockets_push;
    reveal_with_fuel(sending_links, 2);
}

/// The label part of a cell: the sockets for updates that it opens
/// match its registration's sending channels.
proof fn lemma_label_part(b: Build, g: GridRowElement)
    requires
        b.label_cell(g).fault is None,
    ensures
        page_sockets(b.label_cell(g).dom.ops) == page_sockets(b.dom.ops) + sending_links(label_registration(g)),
{
    broadcast use lemma_page_sockets_push;
    reveal_with_fuel(sending_links, 2);
}

/// The paragraph part of a cell: the sockets for updates that it opens
/// match its registration's sending channels.
proof fn lemma_p_part(b: Build, g: GridRowElement)
    requires
        b.p_cell(g).fault is None,
    ensures
        page_sockets(b.p_cell(g).dom.ops) == page_sockets(b.dom.ops),
{
    broadcast use lemma_page_sockets_push;
    reveal_with_fuel(sending_links, 2);
}

/// The drop-down part of a cell: the sockets for updates that it opens
/// match its registration's sending channels.
proof fn lemma_dropdown_part(b: Build, g: GridRowElement)
    requires
        b.dropdown_cell(g).fault is None,
    ensures
        page_sockets(b.dropdown_cell(g).dom.ops) == page_sockets(b.dom.ops) + sending_links(dropdown_registration(g)),
{
    broadcast use lemma_page_sockets_push;
    reveal_with_fuel(sending_links, 2);
    match g.dropdown {
        Some(c) => {
            let (d1, sel) = b.dom.create(c.id@, "select"@);
            let d2 = sel.elem_size(d1);
            let (d3, op1) = d2.create(c.id@, "option"@);
            let d4 = d3.set_attr(op1.element, "value"@, Seq::empty());
            let choices = crate::text::views(c.items@);
            let default = c.defaultind as usize;
            let d5 = if choices.len() > 0 && default < choices.len() {
                d4.set_attr(sel.element, "aria-label"@, choices[default as int]).set_inner(
                    op1.element,
                    choices[default as int],
                )
            } else {
                d4
            };
            lemma_other_options_no_socket(d5.append(sel.element, op1.element), sel.element, choices, default as int);
        },
        None => {},
    }
}

/// The button part of a cell: the sockets for updates that it opens
/// match its registration's sending channels.
proof fn lemma_button_part(b: Build, g: GridRowElement)
    requires
        b.button_cell(g).fault is None,
    ensures
        page_sockets(b.button_cell(g).dom.ops) == page_sockets(b.dom.ops) + sending_links(button_registration(g)),
{
    broadcast use lemma_page_sockets_push;
    reveal_with_fuel(sending_links, 2);
}

/// The input part of a cell: the sockets for updates that it opens
/// match its registration's sending channels.
proof fn lemma_input_part(b: Build, g: GridRowElement)
    requires
        b.input_cell(g).fault is None,
    ensures
        page_sockets(b.input_cell(g).dom.ops) == page_sockets(b.dom.ops) + sending_links(input_registration(g)),
{
    broadcast use lemma_page_sockets_push;
    reveal_with_fuel(sending_links, 2);
}

/// The date picker part of a cell: the sockets for updates that it opens
/// match its registration's sending channels.
proof fn lemma_date_part(b: Build, g: GridRowElement)
    requires
        b.date_cell(g).fault is None,
    ensures
        page_sockets(b.date_cell(g).dom.ops) == page_sockets(b.dom.ops) + sending_links(date_registration(g)),
{
    broadcast use lemma_page_sockets_push;
    reveal_with_fuel(sending_links, 2);
}

/// The slider part of a cell: the sockets for updates that it opens
/// match its registration's sending channels.
proof fn lemma_slider_part(b: Build, g: GridRowElement)
    requires
        b.slider_cell(g).fault is None,
    ensures
        page_sockets(b.slider_cell(g).dom.ops) == page_sockets(b.dom.ops) + sending_links(slider_registration(g)),
{
    broadcast use lemma_page_sockets_push;
    reveal_with_fuel(sending_links, 2);
}

/// The chart area part of a cell: the sockets for updates that it opens
/// match its registration's sending channels.
proof fn lemma_plot_part(b: Build, g: GridRowElement)
    requires
        b.plot_cell(g).fault is None,
    ensures
        page_sockets(b.plot_cell(g).dom.ops) == page_sockets(b.dom.ops) + sending_links(plot_registration(g)),
{
    broadcast use lemma_page_sockets_push;
    reveal_with_fuel(sending_links, 2);
}

/// A building step that has stopped stays stopped through a cell.
proof fn lemma_cell_keeps_fault(b: Build, g: GridRowElement)
    ensures
        b.fault is Some ==> b.cell(g).fault is Some,
        b.cell(g).fault is None ==> b.fault is None,
{
    reveal(Build::cell);
}

/// Each element of a grid cell that the server registers with a channel
/// to the page gets exactly one socket for updates on the page, and no
/// other element gets one: over a cell that builds without a fault, the
/// page opens as many update sockets as the cell's registrations have
/// sending channels.
pub proof fn law_cell_sockets_match_channels(b: Build, g: GridRowElement)
    requires
        b.cell(g).fault is None,
    ensures
        page_sockets(b.cell(g).dom.ops) == page_sockets(b.dom.ops) + sending_links(grid_registrations(g)),
{
    reveal(Build::cell);
    let b1 = b.h2_cell(g);
    let b2 = b1.textarea_cell(g);
    let b3 = b2.label_cell(g);
    let b4 = b3.p_cell(g);
    let b5 = b4.dropdown_cell(g);
    let b6 = b5.button_cell(g);
    let b7 = b6.input_cell(g);
    let b8 = b7.date_cell(g);
    let b9 = b8.slider_cell(g);
    let b10 = b9.plot_cell(g);
    assert(b10 == b.cell(g));
    lemma_h2_part(b, g);
    lemma_textarea_part(b1, g);
    lemma_label_part(b2, g);
    lemma_p_part(b3, g);
    lemma_dropdown_part(b4, g);
    lemma_button_part(b5, g);
    lemma_input_part(b6, g);
    lemma_date_part(b7, g);
    lemma_slider_part(b8, g);
    lemma_plot_part(b9, g);
    broadcast use lemma_sending_links_concat;
}

/// Over the cells of a row that build without a fault, the page opens as
/// many update sockets as the row's registrations have sending channels.
pub proof fn lemma_cells_sockets(b: Build, cells: Seq<GridRowElement>)
    requires
        b.cells(cells).fault is None,
    ensures
        page_sockets(b.cells(cells).dom.ops) == page_sockets(b.dom.ops) + sending_links(row_registrations(cells)),
    decreases cells.len(),
{
    if cells.len() == 0 {
        assert(row_registrations(cells) =~= Seq::<(Seq<char>, Link)>::empty());
    } else {
        let b0 = b.cells(cells.drop_last());
        lemma_cell_keeps_fault(b0, cells.last());
        lemma_cells_sockets(b, cells.drop_last());
        law_cell_sockets_match_channels(b0, cells.last());
        lemma_sending_links_concat(row_registrations(cells.drop_last()), grid_registrations(cells.last()));
    }
}

/// Appending children opens no socket.
pub proof fn lemma_append_all_no_socket(d: DomView, parent: usize, children: Seq<ElemView>)
    ensures
        page_sockets(d.append_all(parent, children).ops) == page_sockets(d.ops),
    decreases children.len(),
{
    broadcast use lemma_page_sockets_push;
    if children.len() > 0 {
        lemma_append_all_no_socket(d, parent, children.drop_last());
    }
}

/// Over a row that builds without a fault, the page opens as many update
/// sockets as the row's registrations have sending channels.
pub proof fn lemma_row_sockets(b: Build, tbc: ElemView, row: Row, valid: bool)
    requires
        b.row(tbc, row, valid).fault is None,
    ensures
        page_sockets(b.row(tbc, row, valid).dom.ops) == page_sockets(b.dom.ops) + sending_links(row_registrations(row.gridrow@)),
{
    broadcast use lemma_page_sockets_push;
    let b0 = Build { dom: b.dom, elems: Seq::empty(), fault: None };
    let b1 = b0.cells(row.gridrow@);
    lemma_cells_sockets(b0, row.gridrow@);
    let (d1, e) = b1.dom.create(Seq::empty(), "p"@);
    lemma_append_all_no_socket(d1.set_attr(e.element, "class"@, "grid"@), e.element, b1.elems);
}

/// Over the rows of a tab that build without a fault, the page opens as
/// many update sockets as the tab's registrations have sending channels.
pub proof fn lemma_rows_sockets(b: Build, tbc: ElemView, rows: Seq<Row>, valid: bool)
    requires
        b.rows(tbc, rows, valid).fault is None,
    ensures
        page_sockets(b.rows(tbc, rows, valid).dom.ops) == page_sockets(b.dom.ops) + sending_links(rows_registrations(rows)),
    decreases rows.len(),
{
    if rows.len() == 0 {
        assert(rows_registrations(rows) =~= Seq::<(Seq<char>, Link)>::empty());
    } else {
        let b0 = b.rows(tbc, rows.drop_last(), valid);
        lemma_rows_sockets(b, tbc, rows.drop_last(), valid);
        lemma_row_sockets(b0, tbc, rows.last(), valid);
        lemma_sending_links_concat(rows_registrations(rows.drop_last()), row_registrations(rows.last().gridrow@));
    }
}

/// Over a tab that builds without a fault, the page opens as many update
/// sockets as the tab's registrations have sending channels.
pub proof fn lemma_tab_entry_sockets(b: Build, tb: ElemView, t: GuiDescr, valid: bool)
    requires
        b.tab_entry(tb, t, valid).0.fault is None,
    ensures
        page_sockets(b.tab_entry(tb, t, valid).0.dom.ops) == page_sockets(b.dom.ops) + sending_links(rows_registrations(t.tab.rows@)),
{
    broadcast use lemma_page_sockets_push;
    let (d1, tbc) = b.dom.tab_content(tb, Seq::empty(), Seq::empty());
    let d2 = if t.tab.id is Some && !valid {
        d1.emit(DomOpView::AppendToBody { node: tb.element })
    } else {
        d1
    };
    let v2 = valid || t.tab.id is Some;
    match t.tab.id {
        Some(id) => {
            let d3 = d2.set_attr(tbc.element, "id"@, id@);
            match t.tab.text {
                None => {},
                Some(text) => {
                    lemma_rows_sockets(
                        Build { dom: d3.set_inner(tbc.child_1.unwrap(), text@), elems: Seq::empty(), fault: None },
                        tbc,
                        t.tab.rows@,
                        v2,
                    );
                },
            }
        },
        None => {
            lemma_rows_sockets(Build { dom: d2, elems: Seq::empty(), fault: None }, tbc, t.tab.rows@, v2);
        },
    }
}

/// Over tabs that build without a fault, the page opens as many update
/// sockets as their registrations have sending channels.
pub proof fn lemma_tab_entries_sockets(b: Build, tb: ElemView, gui: Seq<GuiDescr>, valid: bool)
    requires
        b.tab_entries(tb, gui, valid).0.fault is None,
    ensures
        page_sockets(b.tab_entries(tb, gui, valid).0.dom.ops) == page_sockets(b.dom.ops) + sending_links(gui_registrations(gui)),
    decreases gui.len(),
{
    if gui.len() == 0 {
        assert(gui_registrations(gui) =~= Seq::<(Seq<char>, Link)>::empty());
    } else {
        let (b0, v0) = b.tab_entries(tb, gui.drop_last(), valid);
        lemma_tab_entries_sockets(b, tb, gui.drop_last(), valid);
        lemma_tab_entry_sockets(b0, tb, gui.last(), v0);
        lemma_sending_links_concat(gui_registrations(gui.drop_last()), rows_registrations(gui.last().tab.rows@));
    }
}

/// The page and the server agree on the update channels: when a GUI
/// description builds into a page without a fault, the page opens one
/// socket for updates per element that the server registers with a
/// channel to the page, and no more.
pub proof fn law_page_sockets_match_channels(d: DomView, gui: Seq<GuiDescr>)
    requires
        d.page(gui).fault is None,
    ensures
        page_sockets(d.page(gui).dom.ops) == page_sockets(d.ops) + sending_links(gui_registrations(gui)),
{
    broadcast use lemma_page_sockets_push;
    let (d1, tb) = d.tab(Seq::empty());
    lemma_tab_entries_sockets(Build { dom: d1, elems: Seq::empty(), fault: None }, tb, gui, false);
}

/// A message that asks for nothing changes neither the page nor the
/// element it arrives for.
pub proof fn law_blank_update_changes_nothing<V>(e: ElemView, d: DomView, m: RxTxMessage<V>)
    requires
        is_blank(m),
    ensures
        apply(e, d, m) == (d, e),
{
}

/// A message that carries only a text (as the server's text update does)
/// makes the page show that text in the element, and changes nothing else.
pub proof fn law_text_update_shows_text<V>(e: ElemView, d: DomView, m: RxTxMessage<V>)
    requires
        blank_but(m, true, false, false, false, false),
        m.text@.len() > 0,
    ensures
        apply(e, d, m) == (d.set_inner(e.element, m.text@), e),
{
}

/// A message that carries only a background colour gives the element that
/// background, as setting it on the page directly does.
pub proof fn law_background_update_sets_background<V>(e: ElemView, d: DomView, m: RxTxMessage<V>)
    requires
        blank_but(m, false, true, false, false, false),
        m.backgroundcolor@.len() > 0,
    ensures
        apply(e, d, m) == e.background(d, m.backgroundcolor@),
{
}

/// A message that carries only a text colour gives the element that
/// colour, as setting it on the page directly does.
pub proof fn law_color_update_sets_color<V>(e: ElemView, d: DomView, m: RxTxMessage<V>)
    requires
        blank_but(m, false, false, true, false, false),
        m.color@.len() > 0,
    ensures
        apply(e, d, m) == e.foreground(d, m.color@),
{
}

/// A message that carries only list entries fills the element with one
/// option per entry, as filling it on the page directly does.
pub proof fn law_list_update_sets_list<V>(e: ElemView, d: DomView, m: RxTxMessage<V>)
    requires
        blank_but(m, false, false, false, true, false),
        m.list@.len() > 0,
    ensures
        apply(e, d, m) == (d.list_options(e.element, views(m.list@)), e),
{
}

/// A created element carries the id it was created with, or the generated
/// one where none was given.
pub proof fn law_created_element_has_its_id(d: DomView, id: Seq<char>, tag: Seq<char>)
    ensures
        attr(d.create(id, tag).0.ops, d.create(id, tag).1.element, "id"@) == Some(
            if id.len() == 0 {
                id_text(d.id_count)
            } else {
                id
            },
        ),
{
    reveal_strlit("id");
    reveal_strlit("title");
    assert("title"@ != "id"@) by {
        assert("title"@.len() != "id"@.len());
    }
    reveal_with_fuel(attr, 3);
}

/// The addresses of the sockets for updates that the changes `ops` open,
/// in order.
pub open spec fn update_urls(ops: Seq<DomOpView>) -> Seq<Seq<char>>
    decreases ops.len(),
{
    if ops.len() == 0 {
        seq![]
    } else {
        update_urls(ops.drop_last()) + match ops.last() {
            DomOpView::OpenSocket { direction: Direction::ToPage, url, .. } => seq![url],
            _ => seq![],
        }
    }
}

/// One more change adds its address when it opens a socket for updates.
pub broadcast proof fn lemma_update_urls_push(ops: Seq<DomOpView>, op: DomOpView)
    ensures
        #[trigger] update_urls(ops.push(op)) == update_urls(ops) + match op {
            DomOpView::OpenSocket { direction: Direction::ToPage, url, .. } => seq![url],
            _ => seq![],
        },
{
    assert(ops.push(op).drop_last() == ops);
}

/// Where the server's channels to the page can be reached: for each
/// registration with such a channel and a numbered id, the address of the
/// element's update socket, in order.
pub open spec fn channel_urls(regs: Seq<(Seq<char>, Link)>) -> Seq<Seq<char>>
    decreases regs.len(),
{
    if regs.len() == 0 {
        seq![]
    } else {
        channel_urls(regs.drop_last()) + if regs.last().1 != Link::Plain {
            match id_number(regs.last().0) {
                Some(n) => seq![socket_url(Direction::ToPage, n)],
                None => seq![],
            }
        } else {
            seq![]
        }
    }
}

/// The addresses of registrations distribute over concatenation.
pub broadcast proof fn lemma_channel_urls_concat(a: Seq<(Seq<char>, Link)>, b: Seq<(Seq<char>, Link)>)
    ensures
        #[trigger] channel_urls(a + b) == channel_urls(a) + channel_urls(b),
    decreases b.len(),
{
    if b.len() == 0 {
        assert(a + b == a);
    } else {
        lemma_channel_urls_concat(a, b.drop_last());
        assert((a + b).drop_last() == a + b.drop_last());
    }
}

/// Whether every registration with a channel to the page has an id.
pub open spec fn senders_named(regs: Seq<(Seq<char>, Link)>) -> bool {
    forall|i: int| 0 <= i < regs.len() && (#[trigger] regs[i]).1 != Link::Plain ==> regs[i].0.len() > 0
}

/// One more change leaves an attribute as it was unless it sets it.
pub broadcast proof fn lemma_attr_push(ops: Seq<DomOpView>, op: DomOpView, node: usize, name: Seq<char>)
    ensures
        #[trigger] attr(ops.push(op), node, name) == match op {
            DomOpView::SetAttribute { node: n, name: a, value: v } => if n == node && a == name {
                Some(v)
            } else {
                attr(ops, node, name)
            },
            _ => attr(ops, node, name),
        },
{
    assert(ops.push(op).drop_last() == ops);
}

/// The names of the attributes the builders set besides the id.
proof fn lemma_names_differ_from_id()
    ensures
        "title"@ != "id"@,
        "class"@ != "id"@,
        "type"@ != "id"@,
        "rows"@ != "id"@,
        "style"@ != "id"@,
        "value"@ != "id"@,
        "aria-label"@ != "id"@,
        "placeholder"@ != "id"@,
        "min"@ != "id"@,
        "max"@ != "id"@,
{
    reveal_strlit("id");
    reveal_strlit("title");
    reveal_strlit("class");
    reveal_strlit("type");
    reveal_strlit("rows");
    reveal_strlit("style");
    reveal_strlit("value");
    reveal_strlit("aria-label");
    reveal_strlit("placeholder");
    reveal_strlit("min");
    reveal_strlit("max");
    assert("title"@.len() != "id"@.len());
    assert("class"@.len() != "id"@.len());
    assert("type"@.len() != "id"@.len());
    assert("rows"@.len() != "id"@.len());
    assert("style"@.len() != "id"@.len());
    assert("value"@.len() != "id"@.len());
    assert("aria-label"@.len() != "id"@.len());
    assert("placeholder"@.len() != "id"@.len());
    assert("min"@.len() == "id"@.len() + 1);
    assert("max"@.len() == "id"@.len() + 1);
}

/// The header part of a cell opens its update socket where the server's
/// channel for the header can be reached.
proof fn lemma_h2_urls(b: Build, g: GridRowElement)
    requires
        b.h2_cell(g).fault is None,
        senders_named(h2_registration(g)),
    ensures
        update_urls(b.h2_cell(g).dom.ops) == update_urls(b.dom.ops) + channel_urls(h2_registration(g)),
{
    broadcast use {lemma_update_urls_push, lemma_attr_push};
    lemma_names_differ_from_id();
    reveal_with_fuel(channel_urls, 2);
    if b.fault is None {
        if let Some(c) = g.h2 {
            assert(h2_registration(g)[0].0 == c.id@);
            if c.mutable {
                assert(c.id@.len() > 0);
            }
        }
    }
}

/// How many elements are created, starting from number `x`, until `y` is
/// the number of the next one.
pub open spec fn node_dist(x: usize, y: usize) -> int {
    if y >= x {
        y - x
    } else {
        y + usize::MAX + 1 - x
    }
}

/// One more element adds one to the distance, short of a full turn.
proof fn lemma_node_dist_next(x: usize, y: usize)
    requires
        node_dist(x, y) < usize::MAX,
    ensures
        node_dist(x, next_node(y)) == node_dist(x, y) + 1,
{
}

/// Adding the other options of a drop-down opens no socket for updates,
/// and leaves the id of every element created before them as it was.
proof fn lemma_other_options_keep_id(d: DomView, sel: usize, choices: Seq<Seq<char>>, default: int, x: usize)
    requires
        node_dist(x, d.nodes) >= 1,
        node_dist(x, d.nodes) + choices.len() <= usize::MAX,
    ensures
        attr(d.other_options(sel, choices, default).ops, x, "id"@) == attr(d.ops, x, "id"@),
        update_urls(d.other_options(sel, choices, default).ops) == update_urls(d.ops),
        node_dist(x, d.nodes) <= node_dist(x, d.other_options(sel, choices, default).nodes),
        node_dist(x, d.other_options(sel, choices, default).nodes) <= node_dist(x, d.nodes) + choices.len(),
    decreases choices.len(),
{
    broadcast use {lemma_update_urls_push, lemma_attr_push};
    lemma_names_differ_from_id();
    if choices.len() > 0 {
        lemma_other_options_keep_id(d, sel, choices.drop_last(), default, x);
        let d1 = d.other_options(sel, choices.drop_last(), default);
        lemma_node_dist_next(x, d1.nodes);
    }
}

/// The text area part of a cell: the update sockets it opens are where the
/// server's channels for it can be reached.
proof fn lemma_textarea_urls(b: Build, g: GridRowElement)
    requires
        b.textarea_cell(g).fault is None,
        senders_named(textarea_registration(g)),
    ensures
        update_urls(b.textarea_cell(g).dom.ops) == update_urls(b.dom.ops) + channel_urls(textarea_registration(g)),
{
    broadcast use {lemma_update_urls_push, lemma_attr_push};
    lemma_names_differ_from_id();
    reveal_with_fuel(channel_urls, 2);
    if b.fault is None {
        if let Some(c) = g.textarea {
            assert(textarea_registration(g)[0].0 == c.id@);
            assert(textarea_registration(g)[0].1 != Link::Plain ==> c.id@.len() > 0);
        }
    }
}

/// The label part of a cell: the update sockets it opens are where the
/// server's channels for it can be reached.
proof fn lemma_label_urls(b: Build, g: GridRowElement)
    requires
        b.label_cell(g).fault is None,
        senders_named(label_registration(g)),
    ensures
        update_urls(b.label_cell(g).dom.ops) == update_urls(b.dom.ops) + channel_urls(label_registration(g)),
{
    broadcast use {lemma_update_urls_push, lemma_attr_push};
    lemma_names_differ_from_id();
    reveal_with_fuel(channel_urls, 2);
    if b.fault is None {
        if let Some(c) = g.label {
            assert(label_registration(g)[0].0 == c.id@);
            assert(label_registration(g)[0].1 != Link::Plain ==> c.id@.len() > 0);
        }
    }
}

/// The paragraph part of a cell: the update sockets it opens are where the
/// server's channels for it can be reached.
proof fn lemma_p_urls(b: Build, g: GridRowElement)
    requires
        b.p_cell(g).fault is None,
    ensures
        update_urls(b.p_cell(g).dom.ops) == update_urls(b.dom.ops),
{
    broadcast use {lemma_update_urls_push, lemma_attr_push};
    lemma_names_differ_from_id();
    reveal_with_fuel(channel_urls, 2);
}

/// The button part of a cell: the update sockets it opens are where the
/// server's channels for it can be reached.
proof fn lemma_button_urls(b: Build, g: GridRowElement)
    requires
        b.button_cell(g).fault is None,
    ensures
        update_urls(b.button_cell(g).dom.ops) == update_urls(b.dom.ops) + channel_urls(button_registration(g)),
{
    broadcast use {lemma_update_urls_push, lemma_attr_push};
    lemma_names_differ_from_id();
    reveal_with_fuel(channel_urls, 2);
}

/// The input part of a cell: the update sockets it opens are where the
/// server's channels for it can be reached.
proof fn lemma_input_urls(b: Build, g: GridRowElement)
    requires
        b.input_cell(g).fault is None,
    ensures
        update_urls(b.input_cell(g).dom.ops) == update_urls(b.dom.ops) + channel_urls(input_registration(g)),
{
    broadcast use {lemma_update_urls_push, lemma_attr_push};
    lemma_names_differ_from_id();
    reveal_with_fuel(channel_urls, 2);
}

/// The date picker part of a cell: the update sockets it opens are where the
/// server's channels for it can be reached.
proof fn lemma_date_urls(b: Build, g: GridRowElement)
    requires
        b.date_cell(g).fault is None,
    ensures
        update_urls(b.date_cell(g).dom.ops) == update_urls(b.dom.ops) + channel_urls(date_registration(g)),
{
    broadcast use {lemma_update_urls_push, lemma_attr_push};
    lemma_names_differ_from_id();
    reveal_with_fuel(channel_urls, 2);
}

/// The slider part of a cell: the update sockets it opens are where the
/// server's channels for it can be reached.
proof fn lemma_slider_urls(b: Build, g: GridRowElement)
    requires
        b.slider_cell(g).fault is None,
    ensures
        update_urls(b.slider_cell(g).dom.ops) == update_urls(b.dom.ops) + channel_urls(slider_registration(g)),
{
    broadcast use {lemma_update_urls_push, lemma_attr_push};
    lemma_names_differ_from_id();
    reveal_with_fuel(channel_urls, 2);
}

/// The chart area part of a cell: the update sockets it opens are where the
/// server's channels for it can be reached.
proof fn lemma_plot_urls(b: Build, g: GridRowElement)
    requires
        b.plot_cell(g).fault is None,
        senders_named(plot_registration(g)),
    ensures
        update_urls(b.plot_cell(g).dom.ops) == update_urls(b.dom.ops) + channel_urls(plot_registration(g)),
{
    broadcast use {lemma_update_urls_push, lemma_attr_push};
    lemma_names_differ_from_id();
    reveal_with_fuel(channel_urls, 2);
    if b.fault is None {
        if let Some(c) = g.plot {
            assert(plot_registration(g)[0].0 == c.id@);
            assert(plot_registration(g)[0].1 != Link::Plain ==> c.id@.len() > 0);
        }
    }
}

/// Whether a cell's drop-down, if it has one, has fewer entries than
/// element numbers could count.
pub open spec fn dropdown_fits(g: GridRowElement) -> bool {
    match g.dropdown {
        Some(c) => c.items@.len() + 2 <= usize::MAX,
        None => true,
    }
}

/// The drop-down part of a cell: its update socket is where the server's
/// channel for it can be reached.
proof fn lemma_dropdown_urls(b: Build, g: GridRowElement)
    requires
        b.dropdown_cell(g).fault is None,
        senders_named(dropdown_registration(g)),
        dropdown_fits(g),
    ensures
        update_urls(b.dropdown_cell(g).dom.ops) == update_urls(b.dom.ops) + channel_urls(dropdown_registration(g)),
{
    broadcast use {lemma_update_urls_push, lemma_attr_push};
    lemma_names_differ_from_id();
    reveal_with_fuel(channel_urls, 2);
    if b.fault is None {
        if let Some(c) = g.dropdown {
            assert(dropdown_registration(g)[0].0 == c.id@);
            assert(c.id@.len() > 0);
            let choices = crate::text::views(c.items@);
            let default = c.defaultind as usize;
            let (d1, sel) = b.dom.create(c.id@, "select"@);
            let d2 = sel.elem_size(d1);
            let (d3, op1) = d2.create(c.id@, "option"@);
            let d4 = d3.set_attr(op1.element, "value"@, Seq::empty());
            let d5 = if choices.len() > 0 && default < choices.len() {
                d4.set_attr(sel.element, "aria-label"@, choices[default as int]).set_inner(
                    op1.element,
                    choices[default as int],
                )
            } else {
                d4
            };
            let d6 = d5.append(sel.element, op1.element);
            assert(node_dist(sel.element, d1.nodes) == 1);
            assert(op1.element != sel.element);
            lemma_node_dist_next(sel.element, d2.nodes);
            assert(attr(d6.ops, sel.element, "id"@) == Some(c.id@));
            lemma_other_options_keep_id(d6, sel.element, choices, default as int, sel.element);
        }
    }
}

/// Registrations are named exactly when both parts of them are.
pub broadcast proof fn lemma_senders_named_concat(a: Seq<(Seq<char>, Link)>, b: Seq<(Seq<char>, Link)>)
    ensures
        #[trigger] senders_named(a + b) <==> senders_named(a) && senders_named(b),
{
    if senders_named(a + b) {
        assert forall|i: int| 0 <= i < b.len() && (#[trigger] b[i]).1 != Link::Plain implies b[i].0.len() > 0 by {
            assert((a + b)[a.len() + i] == b[i]);
        }
        assert forall|i: int| 0 <= i < a.len() && (#[trigger] a[i]).1 != Link::Plain implies a[i].0.len() > 0 by {
            assert((a + b)[i] == a[i]);
        }
    }
}

/// The registrations of a cell, part by part: each part is named where
/// the whole is, and the addresses are those of the parts in order.
proof fn lemma_grid_registrations_split(g: GridRowElement)
    ensures
        senders_named(grid_registrations(g)) ==> {
            &&& senders_named(h2_registration(g))
            &&& senders_named(textarea_registration(g))
            &&& senders_named(label_registration(g))
            &&& senders_named(dropdown_registration(g))
            &&& senders_named(plot_registration(g))
        },
        channel_urls(grid_registrations(g)) == channel_urls(h2_registration(g)) + channel_urls(
            textarea_registration(g),
        ) + channel_urls(label_registration(g)) + channel_urls(dropdown_registration(g))
            + channel_urls(button_registration(g)) + channel_urls(input_registration(g))
            + channel_urls(date_registration(g)) + channel_urls(slider_registration(g))
            + channel_urls(plot_registration(g)),
{
    let r1 = h2_registration(g);
    let r2 = r1 + textarea_registration(g);
    let r3 = r2 + label_registration(g);
    let r4 = r3 + dropdown_registration(g);
    let r5 = r4 + button_registration(g);
    let r6 = r5 + input_registration(g);
    let r7 = r6 + date_registration(g);
    let r8 = r7 + slider_registration(g);
    let r9 = r8 + plot_registration(g);
    assert(r9 == grid_registrations(g));
    lemma_senders_named_concat(r8, plot_registration(g));
    lemma_senders_named_concat(r7, slider_registration(g));
    lemma_senders_named_concat(r6, date_registration(g));
    lemma_senders_named_concat(r5, input_registration(g));
    lemma_senders_named_concat(r4, button_registration(g));
    lemma_senders_named_concat(r3, dropdown_registration(g));
    lemma_senders_named_concat(r2, label_registration(g));
    lemma_senders_named_concat(r1, textarea_registration(g));
    lemma_channel_urls_concat(r1, textarea_registration(g));
    lemma_channel_urls_concat(r2, label_registration(g));
    lemma_channel_urls_concat(r3, dropdown_registration(g));
    lemma_channel_urls_concat(r4, button_registration(g));
    lemma_channel_urls_concat(r5, input_registration(g));
    lemma_channel_urls_concat(r6, date_registration(g));
    lemma_channel_urls_concat(r7, slider_registration(g));
    lemma_channel_urls_concat(r8, plot_registration(g));
}

/// Each element of a grid cell that the server registers with a channel to
/// the page gets its socket for updates on the page, at the address where
/// that channel can be reached, in the order of the registrations; no
/// other element gets one. This holds of every cell that builds without a
/// fault, whose elements with such a channel have ids, and whose
/// drop-down's entries leave room in the element numbers.
pub proof fn law_cell_update_sockets_reach_channels(b: Build, g: GridRowElement)
    requires
        b.cell(g).fault is None,
        senders_named(grid_registrations(g)),
        dropdown_fits(g),
    ensures
        update_urls(b.cell(g).dom.ops) == update_urls(b.dom.ops) + channel_urls(grid_registrations(g)),
{
    reveal(Build::cell);
    lemma_grid_registrations_split(g);
    let b1 = b.h2_cell(g);
    let b2 = b1.textarea_cell(g);
    let b3 = b2.label_cell(g);
    let b4 = b3.p_cell(g);
    let b5 = b4.dropdown_cell(g);
    let b6 = b5.button_cell(g);
    let b7 = b6.input_cell(g);
    let b8 = b7.date_cell(g);
    let b9 = b8.slider_cell(g);
    let b10 = b9.plot_cell(g);
    assert(b10 == b.cell(g));
    let u = update_urls(b.dom.ops);
    let c1 = channel_urls(h2_registration(g));
    let c2 = channel_urls(textarea_registration(g));
    let c3 = channel_urls(label_registration(g));
    let c4 = channel_urls(dropdown_registration(g));
    let c5 = channel_urls(button_registration(g));
    let c6 = channel_urls(input_registration(g));
    let c7 = channel_urls(date_registration(g));
    let c8 = channel_urls(slider_registration(g));
    let c9 = channel_urls(plot_registration(g));
    lemma_h2_urls(b, g);
    lemma_textarea_urls(b1, g);
    lemma_concat_associative(u, c1, c2);
    lemma_label_urls(b2, g);
    lemma_concat_associative(u, c1 + c2, c3);
    lemma_p_urls(b3, g);
    lemma_dropdown_urls(b4, g);
    lemma_concat_associative(u, c1 + c2 + c3, c4);
    lemma_button_urls(b5, g);
    lemma_concat_associative(u, c1 + c2 + c3 + c4, c5);
    lemma_input_urls(b6, g);
    lemma_concat_associative(u, c1 + c2 + c3 + c4 + c5, c6);
    lemma_date_urls(b7, g);
    lemma_concat_associative(u, c1 + c2 + c3 + c4 + c5 + c6, c7);
    lemma_slider_urls(b8, g);
    lemma_concat_associative(u, c1 + c2 + c3 + c4 + c5 + c6 + c7, c8);
    lemma_plot_urls(b9, g);
    lemma_concat_associative(u, c1 + c2 + c3 + c4 + c5 + c6 + c7 + c8, c9);
}

/// Whether every drop-down of the cells leaves room in the element numbers.
pub open spec fn cells_fit(cells: Seq<GridRowElement>) -> bool {
    forall|k: int| 0 <= k < cells.len() ==> dropdown_fits(#[trigger] cells[k])
}

/// Whether every drop-down of the rows leaves room in the element numbers.
pub open spec fn rows_fit(rows: Seq<Row>) -> bool {
    forall|j: int| #![trigger rows[j]] 0 <= j < rows.len() ==> cells_fit(rows[j].gridrow@)
}

/// Whether every drop-down of the GUI description leaves room in the
/// element numbers.
pub open spec fn gui_fits(gui: Seq<GuiDescr>) -> bool {
    forall|i: int| #![trigger gui[i]] 0 <= i < gui.len() ==> rows_fit(gui[i].tab.rows@)
}

/// Over the cells of a row, the update sockets the page opens are where
/// the server's channels for the row can be reached.
proof fn lemma_cells_urls(b: Build, cells: Seq<GridRowElement>)
    requires
        b.cells(cells).fault is None,
        senders_named(row_registrations(cells)),
        cells_fit(cells),
    ensures
        update_urls(b.cells(cells).dom.ops) == update_urls(b.dom.ops) + channel_urls(row_registrations(cells)),
    decreases cells.len(),
{
    if cells.len() == 0 {
        assert(row_registrations(cells) =~= Seq::<(Seq<char>, Link)>::empty());
        assert(update_urls(b.dom.ops) + channel_urls(row_registrations(cells)) =~= update_urls(b.dom.ops));
    } else {
        let init = cells.drop_last();
        let b0 = b.cells(init);
        lemma_cell_keeps_fault(b0, cells.last());
        lemma_senders_named_concat(row_registrations(init), grid_registrations(cells.last()));
        assert(cells_fit(init)) by {
            assert forall|k: int| 0 <= k < init.len() implies dropdown_fits(#[trigger] init[k]) by {
                assert(init[k] == cells[k]);
            }
        }
        assert(dropdown_fits(cells[cells.len() - 1]));
        lemma_cells_urls(b, init);
        law_cell_update_sockets_reach_channels(b0, cells.last());
        lemma_channel_urls_concat(row_registrations(init), grid_registrations(cells.last()));
        lemma_concat_associative(
            update_urls(b.dom.ops),
            channel_urls(row_registrations(init)),
            channel_urls(grid_registrations(cells.last())),
        );
    }
}

/// Over a row, the update sockets the page opens are where the server's
/// channels for the row can be reached.
proof fn lemma_row_urls(b: Build, tbc: ElemView, row: Row, valid: bool)
    requires
        b.row(tbc, row, valid).fault is None,
        senders_named(row_registrations(row.gridrow@)),
        cells_fit(row.gridrow@),
    ensures
        update_urls(b.row(tbc, row, valid).dom.ops) == update_urls(b.dom.ops) + channel_urls(row_registrations(row.gridrow@)),
{
    broadcast use lemma_update_urls_push;
    let b0 = Build { dom: b.dom, elems: Seq::empty(), fault: None };
    let b1 = b0.cells(row.gridrow@);
    lemma_cells_urls(b0, row.gridrow@);
    let (d1, e) = b1.dom.create(Seq::empty(), "p"@);
    lemma_append_all_no_update_socket(d1.set_attr(e.element, "class"@, "grid"@), e.element, b1.elems);
}

/// Appending children opens no socket for updates.
proof fn lemma_append_all_no_update_socket(d: DomView, parent: usize, children: Seq<ElemView>)
    ensures
        update_urls(d.append_all(parent, children).ops) == update_urls(d.ops),
    decreases children.len(),
{
    broadcast use lemma_update_urls_push;
    if children.len() > 0 {
        lemma_append_all_no_update_socket(d, parent, children.drop_last());
    }
}

/// Over the rows of a tab, the update sockets the page opens are where the
/// server's channels for the tab can be reached.
proof fn lemma_rows_urls(b: Build, tbc: ElemView, rows: Seq<Row>, valid: bool)
    requires
        b.rows(tbc, rows, valid).fault is None,
        senders_named(rows_registrations(rows)),
        rows_fit(rows),
    ensures
        update_urls(b.rows(tbc, rows, valid).dom.ops) == update_urls(b.dom.ops) + channel_urls(rows_registrations(rows)),
    decreases rows.len(),
{
    if rows.len() == 0 {
        assert(rows_registrations(rows) =~= Seq::<(Seq<char>, Link)>::empty());
        assert(update_urls(b.dom.ops) + channel_urls(rows_registrations(rows)) =~= update_urls(b.dom.ops));
    } else {
        let init = rows.drop_last();
        let b0 = b.rows(tbc, init, valid);
        lemma_senders_named_concat(rows_registrations(init), row_registrations(rows.last().gridrow@));
        assert(rows_fit(init)) by {
            assert forall|j: int| 0 <= j < init.len() implies cells_fit(#[trigger] init[j].gridrow@) by {
                assert(init[j] == rows[j]);
            }
        }
        assert(rows[rows.len() - 1] == rows.last());
        lemma_rows_urls(b, tbc, init, valid);
        lemma_row_urls(b0, tbc, rows.last(), valid);
        lemma_channel_urls_concat(rows_registrations(init), row_registrations(rows.last().gridrow@));
        lemma_concat_associative(
            update_urls(b.dom.ops),
            channel_urls(rows_registrations(init)),
            channel_urls(row_registrations(rows.last().gridrow@)),
        );
    }
}

/// Over a tab, the update sockets the page opens are where the server's
/// channels for the tab can be reached.
proof fn lemma_tab_entry_urls(b: Build, tb: ElemView, t: GuiDescr, valid: bool)
    requires
        b.tab_entry(tb, t, valid).0.fault is None,
        senders_named(rows_registrations(t.tab.rows@)),
        rows_fit(t.tab.rows@),
    ensures
        update_urls(b.tab_entry(tb, t, valid).0.dom.ops) == update_urls(b.dom.ops) + channel_urls(rows_registrations(t.tab.rows@)),
{
    broadcast use lemma_update_urls_push;
    let (d1, tbc) = b.dom.tab_content(tb, Seq::empty(), Seq::empty());
    let d2 = if t.tab.id is Some && !valid {
        d1.emit(DomOpView::AppendToBody { node: tb.element })
    } else {
        d1
    };
    let v2 = valid || t.tab.id is Some;
    match t.tab.id {
        Some(id) => {
            let d3 = d2.set_attr(tbc.element, "id"@, id@);
            match t.tab.text {
                None => {},
                Some(text) => {
                    lemma_rows_urls(
                        Build { dom: d3.set_inner(tbc.child_1.unwrap(), text@), elems: Seq::empty(), fault: None },
                        tbc,
                        t.tab.rows@,
                        v2,
                    );
                },
            }
        },
        None => {
            lemma_rows_urls(Build { dom: d2, elems: Seq::empty(), fault: None }, tbc, t.tab.rows@, v2);
        },
    }
}

/// Over tabs, the update sockets the page opens are where the server's
/// channels for them can be reached.
proof fn lemma_tab_entries_urls(b: Build, tb: ElemView, gui: Seq<GuiDescr>, valid: bool)
    requires
        b.tab_entries(tb, gui, valid).0.fault is None,
        senders_named(gui_registrations(gui)),
        gui_fits(gui),
    ensures
        update_urls(b.tab_entries(tb, gui, valid).0.dom.ops) == update_urls(b.dom.ops) + channel_urls(gui_registrations(gui)),
    decreases gui.len(),
{
    if gui.len() == 0 {
        assert(gui_registrations(gui) =~= Seq::<(Seq<char>, Link)>::empty());
        assert(update_urls(b.dom.ops) + channel_urls(gui_registrations(gui)) =~= update_urls(b.dom.ops));
    } else {
        let init = gui.drop_last();
        let (b0, v0) = b.tab_entries(tb, init, valid);
        lemma_senders_named_concat(gui_registrations(init), rows_registrations(gui.last().tab.rows@));
        assert(gui_fits(init)) by {
            assert forall|i: int| 0 <= i < init.len() implies rows_fit(#[trigger] init[i].tab.rows@) by {
                assert(init[i] == gui[i]);
            }
        }
        assert(gui[gui.len() - 1] == gui.last());
        lemma_tab_entries_urls(b, tb, init, valid);
        lemma_tab_entry_urls(b0, tb, gui.last(), v0);
        lemma_channel_urls_concat(gui_registrations(init), rows_registrations(gui.last().tab.rows@));
        lemma_concat_associative(
            update_urls(b.dom.ops),
            channel_urls(gui_registrations(init)),
            channel_urls(rows_registrations(gui.last().tab.rows@)),
        );
    }
}

/// The page reaches the server's channels: when a GUI description builds
/// into a page without a fault, the sockets for updates that the page opens
/// are, in order, at the addresses of the elements the server registers
/// with a channel to the page, one each, and there are no others. This
/// holds where each such element has an id and no drop-down has more
/// entries than element numbers leave room for.
pub proof fn law_page_update_sockets_reach_channels(d: DomView, gui: Seq<GuiDescr>)
    requires
        d.page(gui).fault is None,
        senders_named(gui_registrations(gui)),
        gui_fits(gui),
    ensures
        update_urls(d.page(gui).dom.ops) == update_urls(d.ops) + channel_urls(gui_registrations(gui)),
{
    broadcast use lemma_update_urls_push;
    let (d1, tb) = d.tab(Seq::empty());
    lemma_tab_entries_urls(Build { dom: d1, elems: Seq::empty(), fault: None }, tb, gui, false);
}

/// No two sockets share an address: different elements, or the two
/// directions of one element, listen on different local ports.
pub proof fn law_listen_addresses_distinct(d1: Direction, n1: u8, d2: Direction, n2: u8)
    requires
        d1 != d2 || n1 != n2,
    ensures
        listen_addr(d1, n1) != listen_addr(d2, n2),
{
    reveal_strlit("61");
    reveal_strlit("62");
    reveal_strlit("127.0.0.1:");
    let a = listen_addr(d1, n1);
    let b = listen_addr(d2, n2);
    if a == b {
        assert(a[11] == b[11]);
        if d1 == d2 {
            assert(a.skip(12) == pad3(n1 as nat));
            assert(b.skip(12) == pad3(n2 as nat));
            law_pad3_reads_back(n1);
            law_pad3_reads_back(n2);
        }
    }
}

/// Drawing a chart again changes its style at most once more: normalising
/// is settled after two drawings, and after one unless the chart was a
/// line chart (which becomes a scatter chart drawn with lines, then with
/// markers).
pub proof fn law_normal_style_settles(plot_type: Seq<char>, mode: Seq<char>)
    ensures
        ({
            let (m1, t1) = normal_style(plot_type, mode);
            let (m2, t2) = normal_style(t1, m1);
            &&& normal_style(t2, m2) == (m2, t2)
            &&& plot_type != "lines"@ ==> (m2, t2) == (m1, t1)
        }),
{
    reveal_strlit("scatter");
    reveal_strlit("lines");
    reveal_strlit("bar");
    reveal_strlit("box");
    reveal_strlit("markers");
    reveal_strlit("s");
    assert("scatter"@ != "lines"@ && "scatter"@ != "bar"@ && "scatter"@ != "box"@) by {
        assert("scatter"@.len() == 7 && "lines"@.len() == 5 && "bar"@.len() == 3 && "box"@.len() == 3);
    }
    assert("lines"@ != "bar"@ && "lines"@ != "box"@) by {
        assert("lines"@.len() == 5 && "bar"@.len() == 3 && "box"@.len() == 3);
    }
    assert("bar"@ != "box"@) by {
        assert("bar"@[1] != "box"@[1]);
    }
}

/// The page after creating one element per request `(id, tag)`, in order.
pub open spec fn create_each(d: DomView, reqs: Seq<(Seq<char>, Seq<char>)>) -> DomView
    decreases reqs.len(),
{
    if reqs.len() == 0 {
        d
    } else {
        create_each(d, reqs.drop_last()).create(reqs.last().0, reqs.last().1).0
    }
}

/// How many of the requests ask for a generated id (give an empty id).
pub open spec fn generated_count(reqs: Seq<(Seq<char>, Seq<char>)>) -> nat
    decreases reqs.len(),
{
    if reqs.len() == 0 {
        0
    } else {
        generated_count(reqs.drop_last()) + if reqs.last().0.len() == 0 {
            1nat
        } else {
            0nat
        }
    }
}

/// The id that request `i` gives its element, when the requests are made in
/// order on page `d`.
pub open spec fn assigned_id(d: DomView, reqs: Seq<(Seq<char>, Seq<char>)>, i: int) -> Option<Seq<char>> {
    let (d1, e) = create_each(d, reqs.take(i)).create(reqs[i].0, reqs[i].1);
    attr(d1.ops, e.element, "id"@)
}

/// The requests before `j` ask for at least as many generated ids as those
/// before `i <= j`, and one more where request `i` asks for one.
proof fn lemma_generated_count_grows(reqs: Seq<(Seq<char>, Seq<char>)>, i: int, j: int)
    requires
        0 <= i < j <= reqs.len(),
    ensures
        generated_count(reqs.take(i)) + (if reqs[i].0.len() == 0 { 1int } else { 0int }) <= generated_count(
            reqs.take(j),
        ),
    decreases j - i,
{
    assert(reqs.take(j).drop_last() == reqs.take(j - 1));
    assert(reqs.take(j).last() == reqs[j - 1]);
    if j - 1 > i {
        lemma_generated_count_grows(reqs, i, j - 1);
    }
}

/// Each request for a generated id moves the counter on by one.
proof fn lemma_create_each_counter(d: DomView, reqs: Seq<(Seq<char>, Seq<char>)>)
    requires
        d.id_count + generated_count(reqs) <= i32::MAX,
    ensures
        create_each(d, reqs).id_count == d.id_count + generated_count(reqs),
    decreases reqs.len(),
{
    if reqs.len() > 0 {
        lemma_create_each_counter(d, reqs.drop_last());
    }
}

/// Generated ids run in call order: when elements are created one after
/// another, the `k`-th one created without an id gets `id_<c + k>`, where
/// `c` is the counter at the start, and every other one gets the id it was
/// given; so generated ids never repeat. Each generated id moves the counter
/// on by one, and a given id leaves it as it was. This holds while the
/// counter does not pass the end of `i32`.
pub proof fn law_generated_ids_run_in_order(d: DomView, reqs: Seq<(Seq<char>, Seq<char>)>)
    requires
        d.id_count + generated_count(reqs) <= i32::MAX,
    ensures
        create_each(d, reqs).id_count == d.id_count + generated_count(reqs),
        forall|i: int|
            0 <= i < reqs.len() ==> #[trigger] assigned_id(d, reqs, i) == Some(
                if reqs[i].0.len() == 0 {
                    id_text((d.id_count + generated_count(reqs.take(i))) as i32)
                } else {
                    reqs[i].0
                },
            ),
        forall|i: int, j: int|
            0 <= i < j < reqs.len() && reqs[i].0.len() == 0 && reqs[j].0.len() == 0 ==> #[trigger] assigned_id(
                d,
                reqs,
                i,
            ) != #[trigger] assigned_id(d, reqs, j),
{
    lemma_create_each_counter(d, reqs);
    assert forall|i: int| 0 <= i < reqs.len() implies #[trigger] assigned_id(d, reqs, i) == Some(
        if reqs[i].0.len() == 0 {
            id_text((d.id_count + generated_count(reqs.take(i))) as i32)
        } else {
            reqs[i].0
        },
    ) by {
        lemma_generated_count_grows(reqs, i, reqs.len() as int);
        assert(reqs.take(reqs.len() as int) == reqs);
        lemma_create_each_counter(d, reqs.take(i));
        law_created_element_has_its_id(create_each(d, reqs.take(i)), reqs[i].0, reqs[i].1);
    }
    assert forall|i: int, j: int|
        0 <= i < j < reqs.len() && reqs[i].0.len() == 0 && reqs[j].0.len() == 0 implies #[trigger] assigned_id(
            d,
            reqs,
            i,
        ) != #[trigger] assigned_id(d, reqs, j) by {
        lemma_generated_count_grows(reqs, i, j);
        lemma_generated_count_grows(reqs, j, reqs.len() as int);
        assert(reqs.take(reqs.len() as int) == reqs);
        assert(assigned_id(d, reqs, i) == Some(id_text((d.id_count + generated_count(reqs.take(i))) as i32)));
        assert(assigned_id(d, reqs, j) == Some(id_text((d.id_count + generated_count(reqs.take(j))) as i32)));
        law_generated_ids_distinct(
            (d.id_count + generated_count(reqs.take(i))) as i32,
            (d.id_count + generated_count(reqs.take(j))) as i32,
        );
    }
}

/// The inner HTML texts that the changes `ops` set, in order.
pub open spec fn inner_texts(ops: Seq<DomOpView>) -> Seq<Seq<char>>
    decreases ops.len(),
{
    if ops.len() == 0 {
        seq![]
    } else {
        inner_texts(ops.drop_last()) + match ops.last() {
            DomOpView::SetInnerHtml { html, .. } => seq![html],
            _ => seq![],
        }
    }
}

/// How many elements with tag `tag` the changes `ops` create.
pub open spec fn created_count(ops: Seq<DomOpView>, tag: Seq<char>) -> nat
    decreases ops.len(),
{
    if ops.len() == 0 {
        0
    } else {
        created_count(ops.drop_last(), tag) + match ops.last() {
            DomOpView::Create { tag: t, .. } => if t == tag {
                1nat
            } else {
                0nat
            },
            _ => 0nat,
        }
    }
}

/// How many children the changes `ops` append to `parent`.
pub open spec fn appended_count(ops: Seq<DomOpView>, parent: usize) -> nat
    decreases ops.len(),
{
    if ops.len() == 0 {
        0
    } else {
        appended_count(ops.drop_last(), parent) + match ops.last() {
            DomOpView::AppendChild { parent: p, .. } => if p == parent {
                1nat
            } else {
                0nat
            },
            _ => 0nat,
        }
    }
}

/// One more change adds its text when it sets inner HTML.
pub broadcast proof fn lemma_inner_texts_push(ops: Seq<DomOpView>, op: DomOpView)
    ensures
        #[trigger] inner_texts(ops.push(op)) == inner_texts(ops) + match op {
            DomOpView::SetInnerHtml { html, .. } => seq![html],
            _ => seq![],
        },
{
    assert(ops.push(op).drop_last() == ops);
}

/// One more change adds one when it creates an element with the tag.
pub broadcast proof fn lemma_created_count_push(ops: Seq<DomOpView>, op: DomOpView, tag: Seq<char>)
    ensures
        #[trigger] created_count(ops.push(op), tag) == created_count(ops, tag) + match op {
            DomOpView::Create { tag: t, .. } => if t == tag {
                1nat
            } else {
                0nat
            },
            _ => 0nat,
        },
{
    assert(ops.push(op).drop_last() == ops);
}

/// One more change adds one when it appends a child to the parent.
pub broadcast proof fn lemma_appended_count_push(ops: Seq<DomOpView>, op: DomOpView, parent: usize)
    ensures
        #[trigger] appended_count(ops.push(op), parent) == appended_count(ops, parent) + match op {
            DomOpView::AppendChild { parent: p, .. } => if p == parent {
                1nat
            } else {
                0nat
            },
            _ => 0nat,
        },
{
    assert(ops.push(op).drop_last() == ops);
}

/// The choices of a drop-down other than the default one, in order.
pub open spec fn other_choices(choices: Seq<Seq<char>>, default: int) -> Seq<Seq<char>>
    decreases choices.len(),
{
    if choices.len() == 0 {
        seq![]
    } else {
        other_choices(choices.drop_last(), default) + if choices.len() - 1 == default {
            seq![]
        } else {
            seq![choices.last()]
        }
    }
}

/// The other choices are the choices with the default one removed, or all
/// of them where the default is out of range.
proof fn lemma_other_choices_remove(choices: Seq<Seq<char>>, default: int)
    ensures
        other_choices(choices, default) == if 0 <= default < choices.len() {
            choices.remove(default)
        } else {
            choices
        },
    decreases choices.len(),
{
    if choices.len() > 0 {
        let init = choices.drop_last();
        lemma_other_choices_remove(init, default);
        if 0 <= default < init.len() {
            assert(init.remove(default).push(choices.last()) =~= choices.remove(default));
        } else if default == init.len() {
            assert(choices.remove(default) =~= init);
        } else {
            assert(init.push(choices.last()) =~= choices);
        }
    }
}

/// Adding the other options shows the other choices in order, one new
/// option each, appended to the drop-down.
proof fn lemma_other_options_texts(d: DomView, sel: usize, choices: Seq<Seq<char>>, default: int)
    ensures
        inner_texts(d.other_options(sel, choices, default).ops) == inner_texts(d.ops) + other_choices(choices, default),
        created_count(d.other_options(sel, choices, default).ops, "option"@) == created_count(d.ops, "option"@)
            + other_choices(choices, default).len(),
        appended_count(d.other_options(sel, choices, default).ops, sel) == appended_count(d.ops, sel)
            + other_choices(choices, default).len(),
        created_count(d.other_options(sel, choices, default).ops, "select"@) == created_count(d.ops, "select"@),
    decreases choices.len(),
{
    broadcast use {lemma_inner_texts_push, lemma_created_count_push, lemma_appended_count_push};
    reveal_strlit("option");
    reveal_strlit("select");
    assert("option"@ != "select"@) by {
        assert("option"@[0] != "select"@[0]);
    }
    if choices.len() > 0 {
        lemma_other_options_texts(d, sel, choices.drop_last(), default);
        let a = inner_texts(d.ops);
        let b = other_choices(choices.drop_last(), default);
        if choices.len() - 1 != default {
            lemma_concat_associative(a, b, seq![choices.last()]);
        } else {
            assert(b + seq![] =~= b);
        }
    }
}

/// A drop-down lists its choices with the default first: its first option
/// shows the default choice (where the default is in range), and the other
/// choices follow in order, each in an option of its own; every option is
/// appended to the drop-down, and one `select` is created.
pub proof fn law_dropdown_options_in_order(d: DomView, id: Seq<char>, choices: Seq<Seq<char>>, default: usize)
    ensures
        ({
            let (d1, sel) = d.dropdown(id, choices, default);
            let rest = if default < choices.len() {
                choices.remove(default as int)
            } else {
                choices
            };
            &&& inner_texts(d1.ops) == inner_texts(d.ops) + (if default < choices.len() {
                seq![choices[default as int]]
            } else {
                seq![]
            }) + rest
            &&& created_count(d1.ops, "option"@) == created_count(d.ops, "option"@) + 1 + rest.len()
            &&& created_count(d1.ops, "select"@) == created_count(d.ops, "select"@) + 1
            &&& appended_count(d1.ops, sel.element) == appended_count(d.ops, sel.element) + 1 + rest.len()
        }),
{
    broadcast use {lemma_inner_texts_push, lemma_created_count_push, lemma_appended_count_push};
    reveal_strlit("option");
    reveal_strlit("select");
    assert("option"@ != "select"@) by {
        assert("option"@[0] != "select"@[0]);
    }
    let (d1, sel) = d.create(id, "select"@);
    let d2 = sel.elem_size(d1);
    let (d3, op1) = d2.create(id, "option"@);
    let d4 = d3.set_attr(op1.element, "value"@, Seq::empty());
    let d5 = if choices.len() > 0 && default < choices.len() {
        d4.set_attr(sel.element, "aria-label"@, choices[default as int]).set_inner(
            op1.element,
            choices[default as int],
        )
    } else {
        d4
    };
    let d6 = d5.append(sel.element, op1.element);
    lemma_other_options_texts(d6, sel.element, choices, default as int);
    lemma_other_choices_remove(choices, default as int);
    if default < choices.len() {
        assert(inner_texts(d6.ops) == inner_texts(d.ops) + seq![choices[default as int]]);
    } else {
        assert(inner_texts(d6.ops) == inner_texts(d.ops));
        assert(inner_texts(d.ops) + seq![] =~= inner_texts(d.ops));
    }
}

/// A slider is a range input that starts at its initial value: the
/// element built for `(min, max, value)` has type `range` and its `min`,
/// `max` and `value` attributes hold the decimal text of `min`, `max` and
/// `value`.
pub proof fn law_slider_starts_at_its_value(d: DomView, id: Seq<char>, min: i32, max: i32, value: i32)
    ensures
        ({
            let (d1, e) = d.slider(id, min, max, value);
            &&& attr(d1.ops, e.element, "type"@) == Some("range"@)
            &&& attr(d1.ops, e.element, "min"@) == Some(dec_int(min as int))
            &&& attr(d1.ops, e.element, "max"@) == Some(dec_int(max as int))
            &&& attr(d1.ops, e.element, "value"@) == Some(dec_int(value as int))
        }),
{
    broadcast use lemma_attr_push;
    reveal_strlit("type");
    reveal_strlit("min");
    reveal_strlit("max");
    reveal_strlit("value");
    reveal_strlit("class");
    assert("type"@ != "min"@ && "type"@ != "max"@ && "type"@ != "value"@ && "type"@ != "class"@) by {
        assert("type"@.len() == 4 && "min"@.len() == 3 && "max"@.len() == 3 && "value"@.len() == 5);
        assert("class"@[0] != "type"@[0]);
    }
    assert("min"@ != "max"@) by {
        assert("min"@[1] != "max"@[1]);
    }
    assert("min"@ != "value"@ && "max"@ != "value"@ && "min"@ != "class"@ && "max"@ != "class"@) by {
        assert("min"@.len() == 3 && "max"@.len() == 3 && "value"@.len() == 5 && "class"@.len() == 5);
    }
    assert("value"@ != "class"@) by {
        assert("value"@[0] != "class"@[0]);
    }
}

/// Every request that asks neither for a served file nor for an element's
/// socket is answered with the page: a `GET` of any path that is not under
/// `/<rel_path>/` and does not hold `/id_`, and any request that is not a
/// `GET`, get `HTTP/1.1 200 OK`, an empty line and the page.
pub proof fn law_other_requests_get_the_page(lines: Seq<Seq<char>>, rel_path: Seq<char>, content: Seq<char>)
    requires
        lines.len() > 0,
        words(lines[0]).len() > 0,
        words(lines[0])[0] != "GET"@ || (words(lines[0]).len() >= 2 && !has_prefix(
            words(lines[0])[1],
            "/"@ + rel_path + "/"@,
        ) && find(words(lines[0])[1], "/id_"@) is None),
    ensures
        route_reply(lines, rel_path, content) == Some(
            ReplyView::Page { response: "HTTP/1.1 200 OK\r\n\r\n"@ + content },
        ),
{
    reveal_strlit("HTTP/1.1 200 OK\r\n\r\n");
    reveal_strlit("HTTP/1.1 200 OK\r\n");
    reveal_strlit("\r\n");
    assert("HTTP/1.1 200 OK\r\n"@ + "\r\n"@ =~= "HTTP/1.1 200 OK\r\n\r\n"@);
}

/// Trimming the start drops exactly the leading whitespace.
proof fn lemma_trim_start_shape(s: Seq<char>) -> (a: int)
    ensures
        0 <= a <= s.len(),
        trim_start(s) == s.skip(a),
        forall|j: int| 0 <= j < a ==> is_ws(#[trigger] s[j]),
        a < s.len() ==> !is_ws(s[a]),
    decreases s.len(),
{
    if s.len() > 0 && is_ws(s[0]) {
        let a1 = lemma_trim_start_shape(s.drop_first());
        assert(s.drop_first().skip(a1) == s.skip(a1 + 1));
        assert forall|j: int| 0 <= j < a1 + 1 implies is_ws(#[trigger] s[j]) by {
            if j > 0 {
                assert(s[j] == s.drop_first()[j - 1]);
            }
        }
        a1 + 1
    } else {
        assert(s.skip(0) == s);
        0
    }
}

/// Trimming the end drops exactly the trailing whitespace.
proof fn lemma_trim_end_shape(s: Seq<char>) -> (b: int)
    ensures
        0 <= b <= s.len(),
        trim_end(s) == s.take(b),
        forall|j: int| b <= j < s.len() ==> is_ws(#[trigger] s[j]),
        b > 0 ==> !is_ws(s[b - 1]),
    decreases s.len(),
{
    if s.len() > 0 && is_ws(s.last()) {
        let b1 = lemma_trim_end_shape(s.drop_last());
        assert(s.drop_last().take(b1) == s.take(b1));
        assert forall|j: int| b1 <= j < s.len() implies is_ws(#[trigger] s[j]) by {
            if j < s.len() - 1 {
                assert(s[j] == s.drop_last()[j]);
            }
        }
        b1
    } else {
        assert(s.take(s.len() as int) == s);
        s.len() as int
    }
}

/// Trimming keeps the characters between the first and the last one that
/// are not whitespace.
proof fn lemma_trim_shape(s: Seq<char>) -> (r: (int, int))
    ensures
        0 <= r.0 <= r.1 <= s.len(),
        trim(s) == s.subrange(r.0, r.1),
        forall|j: int| 0 <= j < s.len() && !(r.0 <= j < r.1) ==> is_ws(#[trigger] s[j]),
        r.0 < r.1 ==> !is_ws(s[r.0]) && !is_ws(s[r.1 - 1]),
{
    let a = lemma_trim_start_shape(s);
    let t = s.skip(a);
    let b = lemma_trim_end_shape(t);
    assert(t.take(b) == s.subrange(a, a + b));
    assert forall|j: int| 0 <= j < s.len() && !(a <= j < a + b) implies is_ws(#[trigger] s[j]) by {
        if j >= a + b {
            assert(s[j] == t[j - a]);
        }
    }
    if b > 0 {
        assert(s[a] == t[0]);
        if a < s.len() {
        }
        assert(s[a + b - 1] == t[b - 1]);
    }
    (a, a + b)
}

/// A console line asks to quit exactly when it holds one `q` or `Q` and
/// nothing else but whitespace; in particular an empty or blank line never
/// asks to quit.
pub proof fn law_quit_needs_one_q(line: Seq<char>)
    ensures
        is_quit(line) <==> exists|i: int|
            0 <= i < line.len() && (line[i] == 'q' || line[i] == 'Q') && forall|j: int|
                0 <= j < line.len() && j != i ==> is_ws(#[trigger] line[j]),
        (forall|j: int| 0 <= j < line.len() ==> is_ws(#[trigger] line[j])) ==> !is_quit(line),
{
    reveal_strlit("q");
    reveal_strlit("Q");
    let (a, b) = lemma_trim_shape(line);
    assert(!is_ws('q') && !is_ws('Q'));
    if is_quit(line) {
        assert(trim(line).len() == 1);
        assert(b == a + 1);
        assert(line[a] == trim(line)[0]);
        assert(line[a] == 'q' || line[a] == 'Q');
        assert forall|j: int| 0 <= j < line.len() && j != a implies is_ws(#[trigger] line[j]) by {}
    }
    if exists|i: int|
        0 <= i < line.len() && (line[i] == 'q' || line[i] == 'Q') && forall|j: int|
            0 <= j < line.len() && j != i ==> is_ws(#[trigger] line[j]) {
        let i = choose|i: int|
            0 <= i < line.len() && (line[i] == 'q' || line[i] == 'Q') && forall|j: int|
                0 <= j < line.len() && j != i ==> is_ws(#[trigger] line[j]);
        assert(a <= i < b) by {
            if !(a <= i < b) {
                assert(is_ws(line[i]));
            }
        }
        assert(!is_ws(line[a]));
        assert(a == i);
        assert(!is_ws(line[b - 1]));
        assert(b - 1 == i);
        assert(trim(line) =~= seq![line[i]]);
        if line[i] == 'q' {
            assert(trim(line) =~= "q"@);
        } else {
            assert(trim(line) =~= "Q"@);
        }
    }
    if forall|j: int| 0 <= j < line.len() ==> is_ws(#[trigger] line[j]) {
        if is_quit(line) {
            assert(is_ws(line[a]));
        }
    }
}

/// Hiding the tabs whose id differs from `id`: every such tab ends hidden
/// with its button marked secondary, ids stay as they were, and elements
/// with id `id` keep their style.
proof fn lemma_hide_others(d: DomView, tabs: Seq<ElemView>, id: Seq<char>)
    ensures
        forall|x: usize| #[trigger] attr(d.hide_others(tabs, id).ops, x, "id"@) == attr(d.ops, x, "id"@),
        forall|j: int|
            0 <= j < tabs.len() && id_of(d.ops, (#[trigger] tabs[j]).element) != id ==> {
                &&& attr(d.hide_others(tabs, id).ops, tabs[j].element, "style"@) == Some("display: none;"@)
                &&& attr(d.hide_others(tabs, id).ops, tabs[j].child_1.unwrap(), "class"@) == Some(
                    "tablinks secondary"@,
                )
            },
        forall|x: usize|
            id_of(d.ops, x) == id ==> #[trigger] attr(d.hide_others(tabs, id).ops, x, "style"@) == attr(
                d.ops,
                x,
                "style"@,
            ),
    decreases tabs.len(),
{
    broadcast use lemma_attr_push;
    lemma_names_differ_from_id();
    reveal_strlit("style");
    reveal_strlit("class");
    assert("style"@ != "class"@) by {
        assert("style"@[0] != "class"@[0]);
    }
    if tabs.len() > 0 {
        let init = tabs.drop_last();
        lemma_hide_others(d, init, id);
        let d1 = d.hide_others(init, id);
        let t = tabs.last();
        assert(id_of(d1.ops, t.element) == id_of(d.ops, t.element));
        assert forall|j: int|
            0 <= j < tabs.len() && id_of(d.ops, (#[trigger] tabs[j]).element) != id implies {
                &&& attr(d.hide_others(tabs, id).ops, tabs[j].element, "style"@) == Some("display: none;"@)
                &&& attr(d.hide_others(tabs, id).ops, tabs[j].child_1.unwrap(), "class"@) == Some(
                    "tablinks secondary"@,
                )
            } by {
            if j < init.len() {
                assert(tabs[j] == init[j]);
            }
        }
        assert forall|x: usize| id_of(d.ops, x) == id implies #[trigger] attr(
            d.hide_others(tabs, id).ops,
            x,
            "style"@,
        ) == attr(d.ops, x, "style"@) by {
            assert(id_of(d1.ops, x) == id_of(d.ops, x));
        }
    }
}

/// Clicking a tab shows it and hides every tab with another id, over all
/// the tabs: after `enable_tab(k)`, tab `k` has style `display: block;`,
/// and each tab whose id differs from tab `k`'s has style `display: none;`
/// and its button the class `tablinks secondary`.
pub proof fn law_enable_tab_shows_only_it(d: DomView, k: int)
    requires
        0 <= k < d.tabs.len(),
        d.tabs_have_buttons(),
    ensures
        attr(d.enable_tab(k).ops, d.tabs[k].element, "style"@) == Some("display: block;"@),
        forall|j: int|
            0 <= j < d.tabs.len() && id_of(d.ops, (#[trigger] d.tabs[j]).element) != id_of(
                d.ops,
                d.tabs[k].element,
            ) ==> {
                &&& attr(d.enable_tab(k).ops, d.tabs[j].element, "style"@) == Some("display: none;"@)
                &&& attr(d.enable_tab(k).ops, d.tabs[j].child_1.unwrap(), "class"@) == Some(
                    "tablinks secondary"@,
                )
            },
{
    broadcast use lemma_attr_push;
    lemma_names_differ_from_id();
    reveal_strlit("style");
    reveal_strlit("class");
    assert("style"@ != "class"@) by {
        assert("style"@[0] != "class"@[0]);
    }
    let me = d.tabs[k];
    let d1 = d.show_tab(me.element, me.child_1.unwrap(), true);
    let id = id_of(d1.ops, me.element);
    assert(id == id_of(d.ops, me.element));
    assert forall|x: usize| #[trigger] id_of(d1.ops, x) == id_of(d.ops, x) by {}
    lemma_hide_others(d1, d.tabs, id);
}

/// An item is in a concatenation exactly when it is in one of its parts.
pub broadcast proof fn lemma_contains_concat<A>(a: Seq<A>, b: Seq<A>, x: A)
    ensures
        #[trigger] (a + b).contains(x) <==> a.contains(x) || b.contains(x),
{
    if (a + b).contains(x) {
        let i = choose|i: int| 0 <= i < (a + b).len() && (a + b)[i] == x;
        if i >= a.len() {
            assert(b[i - a.len()] == x);
        }
    }
    if a.contains(x) {
        let i = choose|i: int| 0 <= i < a.len() && a[i] == x;
        assert((a + b)[i] == x);
    }
    if b.contains(x) {
        let i = choose|i: int| 0 <= i < b.len() && b[i] == x;
        assert((a + b)[a.len() + i] == x);
    }
}

/// How many elements of a cell the server keeps: its header, text area,
/// label, drop-down, button, input, date picker, slider and chart, those
/// the cell has.
pub open spec fn kept_count(g: GridRowElement) -> nat {
    (if g.h2 is Some { 1nat } else { 0nat }) + (if g.textarea is Some { 1nat } else { 0nat }) + (if g.label is Some {
        1nat
    } else {
        0nat
    }) + (if g.dropdown is Some { 1nat } else { 0nat }) + (if g.button is Some { 1nat } else { 0nat }) + (
    if g.input is Some {
        1nat
    } else {
        0nat
    }) + (if g.date is Some { 1nat } else { 0nat }) + (if g.slider is Some { 1nat } else { 0nat }) + (
    if g.plot is Some {
        1nat
    } else {
        0nat
    })
}

/// The server keeps every element of a cell that has one of the kept
/// kinds, each once under its id: buttons, inputs, date pickers and
/// sliders with no channel, text areas and charts with a sending channel,
/// drop-downs with a two-way one, headers and labels with a sending
/// channel exactly when mutable; and nothing else.
pub proof fn law_cell_elements_registered(g: GridRowElement)
    ensures
        grid_registrations(g).len() == kept_count(g),
        g.h2 matches Some(c) ==> grid_registrations(g).contains(
            (c.id@, if c.mutable { Link::Send } else { Link::Plain }),
        ),
        g.textarea matches Some(c) ==> grid_registrations(g).contains((c.id@, Link::Send)),
        g.label matches Some(c) ==> grid_registrations(g).contains(
            (c.id@, if c.mutable { Link::Send } else { Link::Plain }),
        ),
        g.dropdown matches Some(c) ==> grid_registrations(g).contains((c.id@, Link::SendReceive)),
        g.button matches Some(c) ==> grid_registrations(g).contains((c.id@, Link::Plain)),
        g.input matches Some(c) ==> grid_registrations(g).contains((c.id@, Link::Plain)),
        g.date matches Some(c) ==> grid_registrations(g).contains((c.id@, Link::Plain)),
        g.slider matches Some(c) ==> grid_registrations(g).contains((c.id@, Link::Plain)),
        g.plot matches Some(c) ==> grid_registrations(g).contains((c.id@, Link::Send)),
{
    broadcast use lemma_contains_concat;
    if let Some(c) = g.h2 {
        assert(h2_registration(g)[0] == (c.id@, if c.mutable { Link::Send } else { Link::Plain }));
    }
    if let Some(c) = g.textarea {
        assert(textarea_registration(g)[0] == (c.id@, Link::Send));
    }
    if let Some(c) = g.label {
        assert(label_registration(g)[0] == (c.id@, if c.mutable { Link::Send } else { Link::Plain }));
    }
    if let Some(c) = g.dropdown {
        assert(dropdown_registration(g)[0] == (c.id@, Link::SendReceive));
    }
    if let Some(c) = g.button {
        assert(button_registration(g)[0] == (c.id@, Link::Plain));
    }
    if let Some(c) = g.input {
        assert(input_registration(g)[0] == (c.id@, Link::Plain));
    }
    if let Some(c) = g.date {
        assert(date_registration(g)[0] == (c.id@, Link::Plain));
    }
    if let Some(c) = g.slider {
        assert(slider_registration(g)[0] == (c.id@, Link::Plain));
    }
    if let Some(c) = g.plot {
        assert(plot_registration(g)[0] == (c.id@, Link::Send));
    }
}

/// Whether `r` is the entry the server keeps for one of the cell's
/// elements: the element's id with the channel its kind and mutability
/// call for.
pub open spec fn kept_entry(g: GridRowElement, r: (Seq<char>, Link)) -> bool {
    ||| g.h2 matches Some(c) && r == (c.id@, if c.mutable { Link::Send } else { Link::Plain })
    ||| g.textarea matches Some(c) && r == (c.id@, Link::Send)
    ||| g.label matches Some(c) && r == (c.id@, if c.mutable { Link::Send } else { Link::Plain })
    ||| g.dropdown matches Some(c) && r == (c.id@, Link::SendReceive)
    ||| g.button matches Some(c) && r == (c.id@, Link::Plain)
    ||| g.input matches Some(c) && r == (c.id@, Link::Plain)
    ||| g.date matches Some(c) && r == (c.id@, Link::Plain)
    ||| g.slider matches Some(c) && r == (c.id@, Link::Plain)
    ||| g.plot matches Some(c) && r == (c.id@, Link::Send)
}

/// How many elements the server keeps for the cells.
pub open spec fn kept_in_cells(cells: Seq<GridRowElement>) -> nat
    decreases cells.len(),
{
    if cells.len() == 0 {
        0
    } else {
        kept_in_cells(cells.drop_last()) + kept_count(cells.last())
    }
}

/// How many elements the server keeps for the rows.
pub open spec fn kept_in_rows(rows: Seq<Row>) -> nat
    decreases rows.len(),
{
    if rows.len() == 0 {
        0
    } else {
        kept_in_rows(rows.drop_last()) + kept_in_cells(rows.last().gridrow@)
    }
}

/// How many elements the server keeps for a GUI description.
pub open spec fn kept_in_gui(gui: Seq<GuiDescr>) -> nat
    decreases gui.len(),
{
    if gui.len() == 0 {
        0
    } else {
        kept_in_gui(gui.drop_last()) + kept_in_rows(gui.last().tab.rows@)
    }
}

proof fn lemma_cells_registered(cells: Seq<GridRowElement>)
    ensures
        row_registrations(cells).len() == kept_in_cells(cells),
        forall|k: int, r: (Seq<char>, Link)|
            0 <= k < cells.len() && kept_entry(#[trigger] cells[k], r) ==> #[trigger] row_registrations(cells).contains(r),
    decreases cells.len(),
{
    broadcast use lemma_contains_concat;
    if cells.len() > 0 {
        let init = cells.drop_last();
        lemma_cells_registered(init);
        law_cell_elements_registered(cells.last());
        assert forall|k: int, r: (Seq<char>, Link)|
            0 <= k < cells.len() && kept_entry(#[trigger] cells[k], r) implies #[trigger] row_registrations(cells).contains(r) by {
            if k < init.len() {
                assert(cells[k] == init[k]);
                assert(row_registrations(init).contains(r));
            } else {
                assert(grid_registrations(cells.last()).contains(r));
            }
        }
    }
}

proof fn lemma_rows_registered(rows: Seq<Row>)
    ensures
        rows_registrations(rows).len() == kept_in_rows(rows),
        forall|j: int, k: int, r: (Seq<char>, Link)|
            0 <= j < rows.len() && 0 <= k < rows[j].gridrow@.len() && kept_entry(
                #[trigger] rows[j].gridrow@[k],
                r,
            ) ==> #[trigger] rows_registrations(rows).contains(r),
    decreases rows.len(),
{
    broadcast use lemma_contains_concat;
    if rows.len() > 0 {
        let init = rows.drop_last();
        lemma_rows_registered(init);
        lemma_cells_registered(rows.last().gridrow@);
        assert forall|j: int, k: int, r: (Seq<char>, Link)|
            0 <= j < rows.len() && 0 <= k < rows[j].gridrow@.len() && kept_entry(
                #[trigger] rows[j].gridrow@[k],
                r,
            ) implies #[trigger] rows_registrations(rows).contains(r) by {
            if j < init.len() {
                assert(rows[j] == init[j]);
                assert(rows_registrations(init).contains(r));
            } else {
                assert(rows[j] == rows.last());
                assert(row_registrations(rows.last().gridrow@).contains(r));
            }
        }
    }
}

/// The server keeps every element of a GUI description that has one of
/// the kept kinds (header, text area, label, drop-down, button, input, date
/// picker, slider, chart) under its id with the channel its kind calls for,
/// and no more entries than there are such elements: with distinct ids,
/// each appears exactly once.
pub proof fn law_gui_elements_registered(gui: Seq<GuiDescr>)
    ensures
        gui_registrations(gui).len() == kept_in_gui(gui),
        forall|i: int, j: int, k: int, r: (Seq<char>, Link)|
            0 <= i < gui.len() && 0 <= j < gui[i].tab.rows@.len() && 0 <= k
                < gui[i].tab.rows@[j].gridrow@.len() && kept_entry(
                #[trigger] gui[i].tab.rows@[j].gridrow@[k],
                r,
            ) ==> #[trigger] gui_registrations(gui).contains(r),
    decreases gui.len(),
{
    broadcast use lemma_contains_concat;
    if gui.len() > 0 {
        let init = gui.drop_last();
        law_gui_elements_registered(init);
        lemma_rows_registered(gui.last().tab.rows@);
        assert forall|i: int, j: int, k: int, r: (Seq<char>, Link)|
            0 <= i < gui.len() && 0 <= j < gui[i].tab.rows@.len() && 0 <= k
                < gui[i].tab.rows@[j].gridrow@.len() && kept_entry(
                #[trigger] gui[i].tab.rows@[j].gridrow@[k],
                r,
            ) implies #[trigger] gui_registrations(gui).contains(r) by {
            if i < init.len() {
                assert(gui[i] == init[i]);
                assert(gui_registrations(init).contains(r));
            } else {
                assert(gui[i] == gui.last());
                assert(rows_registrations(gui.last().tab.rows@).contains(r));
            }
        }
    }
}

} // verus!
