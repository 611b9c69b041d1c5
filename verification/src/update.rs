//! What the page does with an update that arrives for one of its elements,
//! and how the page starts.

use vstd::prelude::*;
use crate::dom::{DomCfg, DomOp, DomOpView, DomView, Elem, ElemView, PageFault};
use crate::message::RxTxMessage;
use crate::net::Direction;
use crate::plot::{Figure, PlotConf, figure, figure_of, normal_style};
use crate::text::views;

verus! {

/// Why an update cannot be applied in full.
#[derive(Clone, Copy, Debug, PartialEq, Eq, Structural)]
pub enum UpdateFault {
    /// The chart has more series than names.
    UnnamedSeries,
}

/// The page and element after applying update `m` to element `e`: new
/// inner HTML for a text, a new background colour, a new text colour, the
/// entries of a list, each where the message gives one.
pub open spec fn apply<V>(e: ElemView, d: DomView, m: RxTxMessage<V>) -> (DomView, ElemView) {
    let d1 = if m.text@.len() > 0 {
        d.set_inner(e.element, m.text@)
    } else {
        d
    };
    let (d2, e2) = if m.backgroundcolor@.len() > 0 {
        e.background(d1, m.backgroundcolor@)
    } else {
        (d1, e)
    };
    let (d3, e3) = if m.color@.len() > 0 {
        e2.foreground(d2, m.color@)
    } else {
        (d2, e2)
    };
    let d4 = if m.list@.len() > 0 {
        d3.list_options(e3.element, views(m.list@))
    } else {
        d3
    };
    (d4, e3)
}

impl Elem {
    /// What drawing chart `plt_conf` in this element shows; the chart is
    /// left normalised.
    pub fn draw_plot<V: Copy>(&self, plt_conf: &mut PlotConf<V>) -> (r: Figure<V>)
        requires
            old(plt_conf).y@.len() <= old(plt_conf).names@.len(),
        ensures
            figure_of(r, *old(plt_conf)),
            (final(plt_conf).mode@, final(plt_conf).plot_type@) == normal_style(
                old(plt_conf).plot_type@,
                old(plt_conf).mode@,
            ),
            final(plt_conf).x == old(plt_conf).x,
            final(plt_conf).y == old(plt_conf).y,
            final(plt_conf).x_cat == old(plt_conf).x_cat,
            final(plt_conf).y_cat == old(plt_conf).y_cat,
            final(plt_conf).names == old(plt_conf).names,
            final(plt_conf).title == old(plt_conf).title,
            final(plt_conf).width == old(plt_conf).width,
            final(plt_conf).height == old(plt_conf).height,
    {
        figure(plt_conf)
    }

    /// Applies an update from the server to this element; a chart in it is
    /// returned to be drawn in the element.
    pub fn apply_update<V: Copy>(&mut self, dom: &mut DomCfg, msg: RxTxMessage<V>) -> (r: Result<
        Option<Figure<V>>,
        UpdateFault,
    >)
        ensures
            (final(dom)@, final(self)@) == apply(old(self)@, old(dom)@, msg),
            match msg.plot_conf {
                None => r == Ok::<Option<Figure<V>>, UpdateFault>(None),
                Some(c) => if c.y@.len() <= c.names@.len() {
                    r matches Ok(Some(f)) && figure_of(f, c)
                } else {
                    r == Err::<Option<Figure<V>>, UpdateFault>(UpdateFault::UnnamedSeries)
                },
            },
    {
        if msg.text.unicode_len() > 0 {
            dom.set_inner_html(self.element, msg.text.as_str());
        }
        if msg.backgroundcolor.unicode_len() > 0 {
            self.set_background_color(dom, msg.backgroundcolor.as_str());
        }
        if msg.color.unicode_len() > 0 {
            self.set_color(dom, msg.color.as_str());
        }
        if msg.list.len() > 0 {
            self.set_list(dom, &msg.list);
        }
        match msg.plot_conf {
            None => Ok(None),
            Some(c) => {
                let mut c = c;
                if c.y.len() <= c.names.len() {
                    let f = self.draw_plot(&mut c);
                    Ok(Some(f))
                } else {
                    Err(UpdateFault::UnnamedSeries)
                }
            },
        }
    }
}

/// How the page starts: a `title` element with id `id_0` joins the body,
/// opens its socket for updates, and builds the page from each description
/// that arrives on it.
pub open spec fn start_page(d: DomView) -> Option<(DomView, ElemView)> {
    let (d1, t) = d.title("id_0"@, "title"@);
    let d2 = d1.emit(DomOpView::AppendToBody { node: t.element });
    match t.open_socket(d2, Direction::ToPage) {
        Some((d3, t3)) => Some((d3.emit(DomOpView::ReadPage { node: t3.element }), t3)),
        None => None,
    }
}

impl DomCfg {
    /// Starts the page.
    pub fn start(&mut self) -> (r: Result<Elem, PageFault>)
        ensures
            match start_page(old(self)@) {
                Some((d, t)) => r matches Ok(e) && e@ == t && final(self)@ == d,
                None => r is Err,
            },
    {
        let mut title = self.title("id_0", "title");
        self.emit(DomOp::AppendToBody { node: title.element });
        title.open_socket(self, Direction::ToPage)?;
        title.ws_read_conf(self);
        Ok(title)
    }
}

} // verus!
