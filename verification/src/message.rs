//! The message the server sends to one element of the page: each field that
//! is not empty asks for one change.

use vstd::prelude::*;
use crate::plot::PlotConf;
use crate::text::views;

verus! {

/// An update for one element: new text, text-area text, colours, image,
/// list entries, or a chart to draw.
#[derive(Clone, Debug, PartialEq)]
pub struct RxTxMessage<V> {
    pub text: String,
    pub textarea: String,
    pub backgroundcolor: String,
    pub color: String,
    pub imagename: String,
    pub list: Vec<String>,
    pub plot_conf: Option<PlotConf<V>>,
}

/// Whether a message asks for nothing but what the flags allow: new text,
/// a background colour, a text colour, list entries, a chart.
pub open spec fn blank_but<V>(
    m: RxTxMessage<V>,
    text: bool,
    background: bool,
    color: bool,
    list: bool,
    plot: bool,
) -> bool {
    &&& text || m.text@.len() == 0
    &&& m.textarea@.len() == 0
    &&& background || m.backgroundcolor@.len() == 0
    &&& color || m.color@.len() == 0
    &&& m.imagename@.len() == 0
    &&& list || m.list@.len() == 0
    &&& plot || m.plot_conf is None
}

/// Whether a message asks for nothing.
pub open spec fn is_blank<V>(m: RxTxMessage<V>) -> bool {
    blank_but(m, false, false, false, false, false)
}

impl<V> Default for RxTxMessage<V> {
    /// A message that asks for nothing.
    fn default() -> (r: Self)
        ensures
            is_blank(r),
    {
        RxTxMessage {
            text: String::new(),
            textarea: String::new(),
            backgroundcolor: String::new(),
            color: String::new(),
            imagename: String::new(),
            list: Vec::new(),
            plot_conf: None,
        }
    }
}

impl<V> RxTxMessage<V> {
    /// A message that asks for nothing.
    pub fn blank() -> (r: Self)
        ensures
            is_blank(r),
    {
        RxTxMessage {
            text: String::new(),
            textarea: String::new(),
            backgroundcolor: String::new(),
            color: String::new(),
            imagename: String::new(),
            list: Vec::new(),
            plot_conf: None,
        }
    }

    /// The message `WsElem::set_inner_text` sends: only the text.
    pub fn text_update(text: &str) -> (r: Self)
        ensures
            r.text@ == text@,
            blank_but(r, true, false, false, false, false),
    {
        let mut m = Self::blank();
        m.text = text.to_owned();
        m
    }

    /// The message `WsElem::set_background_color` sends: only the
    /// background colour.
    pub fn background_update(color: &str) -> (r: Self)
        ensures
            r.backgroundcolor@ == color@,
            blank_but(r, false, true, false, false, false),
    {
        let mut m = Self::blank();
        m.backgroundcolor = color.to_owned();
        m
    }

    /// The message `WsElem::set_color` sends: only the text colour.
    pub fn color_update(color: &str) -> (r: Self)
        ensures
            r.color@ == color@,
            blank_but(r, false, false, true, false, false),
    {
        let mut m = Self::blank();
        m.color = color.to_owned();
        m
    }

    /// The message `WsElem::set_list` sends: only the list.
    pub fn list_update(list: Vec<String>) -> (r: Self)
        ensures
            r.list@ == list@,
            blank_but(r, false, false, false, true, false),
    {
        let mut m = Self::blank();
        m.list = list;
        m
    }

    /// The message `WsElem::draw_plot` sends: only the chart.
    pub fn plot_update(plot_conf: PlotConf<V>) -> (r: Self)
        ensures
            r.plot_conf == Some(plot_conf),
            blank_but(r, false, false, false, false, true),
    {
        let mut m = Self::blank();
        m.plot_conf = Some(plot_conf);
        m
    }
}

} // verus!
