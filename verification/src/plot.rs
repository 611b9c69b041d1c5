//! Chart configuration and the traces drawn from it. The chart values are
//! of a type `V` that the library only copies.

use vstd::prelude::*;
use crate::text::{str_eq, views};

verus! {

/// A chart: series `y[i]` named `names[i]`, over the numeric abscissae `x`
/// (line and scatter charts) or the categories `x_cat` (bar charts).
#[derive(Clone, Debug, PartialEq)]
pub struct PlotConf<V> {
    pub x: Vec<V>,
    pub y: Vec<Vec<V>>,
    pub x_cat: Vec<String>,
    pub y_cat: Vec<String>,
    pub names: Vec<String>,
    pub mode: String,
    pub plot_type: String,
    pub title: String,
    pub width: i64,
    pub height: i64,
}

impl<V> PlotConf<V> {
    /// An empty chart of 400 by 400.
    pub fn new() -> (r: Self)
        ensures
            r.x@.len() == 0,
            r.y@.len() == 0,
            r.x_cat@.len() == 0,
            r.y_cat@.len() == 0,
            r.names@.len() == 0,
            r.mode@.len() == 0,
            r.plot_type@.len() == 0,
            r.title@.len() == 0,
            r.width == 400,
            r.height == 400,
    {
        PlotConf {
            x: Vec::new(),
            y: Vec::new(),
            x_cat: Vec::new(),
            y_cat: Vec::new(),
            names: Vec::new(),
            mode: String::new(),
            plot_type: String::new(),
            title: String::new(),
            width: 400,
            height: 400,
        }
    }
}

impl<V> Default for PlotConf<V> {
    /// An empty chart of 400 by 400.
    fn default() -> (r: Self)
        ensures
            r.x@.len() == 0,
            r.y@.len() == 0,
            r.x_cat@.len() == 0,
            r.y_cat@.len() == 0,
            r.names@.len() == 0,
            r.mode@.len() == 0,
            r.plot_type@.len() == 0,
            r.title@.len() == 0,
            r.width == 400,
            r.height == 400,
    {
        PlotConf::new()
    }
}

/// The title and size of a chart.
#[derive(Clone, Debug, PartialEq)]
pub struct PlotLayout {
    pub title: String,
    pub width: i64,
    pub height: i64,
}

/// The abscissae of one trace.
#[derive(Clone, Debug, PartialEq)]
pub enum TraceX<V> {
    Numbers(Vec<V>),
    Categories(Vec<String>),
    Absent,
}

/// One series as drawn.
#[derive(Clone, Debug, PartialEq)]
pub struct Trace<V> {
    pub x: TraceX<V>,
    pub y: Vec<V>,
    pub name: String,
    pub mode: String,
    pub plot_type: String,
}

/// What is drawn: the traces and the layout.
#[derive(Clone, Debug, PartialEq)]
pub struct Figure<V> {
    pub data: Vec<Trace<V>>,
    pub layout: PlotLayout,
}

/// The abscissae of a trace as plain values.
pub enum TraceXView<V> {
    Numbers(Seq<V>),
    Categories(Seq<Seq<char>>),
    Absent,
}

/// A trace as plain values.
pub struct TraceView<V> {
    pub x: TraceXView<V>,
    pub y: Seq<V>,
    pub name: Seq<char>,
    pub mode: Seq<char>,
    pub plot_type: Seq<char>,
}

impl<V> View for Trace<V> {
    type V = TraceView<V>;

    open spec fn view(&self) -> TraceView<V> {
        TraceView {
            x: match self.x {
                TraceX::Numbers(v) => TraceXView::Numbers(v@),
                TraceX::Categories(c) => TraceXView::Categories(views(c@)),
                TraceX::Absent => TraceXView::Absent,
            },
            y: self.y@,
            name: self.name@,
            mode: self.mode@,
            plot_type: self.plot_type@,
        }
    }
}

/// The drawing mode and chart type after normalisation: scatter charts are
/// drawn with markers, line charts are scatter charts drawn with lines, bar
/// charts get mode `s`, box charts an empty mode; other types keep both.
pub open spec fn normal_style(plot_type: Seq<char>, mode: Seq<char>) -> (Seq<char>, Seq<char>) {
    if plot_type == "scatter"@ {
        ("markers"@, plot_type)
    } else if plot_type == "lines"@ {
        ("lines"@, "scatter"@)
    } else if plot_type == "bar"@ {
        ("s"@, plot_type)
    } else if plot_type == "box"@ {
        (Seq::empty(), plot_type)
    } else {
        (mode, plot_type)
    }
}

/// Sets the drawing mode and chart type as `normal_style` says; nothing
/// else changes.
pub fn normalize_style<V>(conf: &mut PlotConf<V>)
    ensures
        (final(conf).mode@, final(conf).plot_type@) == normal_style(old(conf).plot_type@, old(conf).mode@),
        final(conf).x == old(conf).x,
        final(conf).y == old(conf).y,
        final(conf).x_cat == old(conf).x_cat,
        final(conf).y_cat == old(conf).y_cat,
        final(conf).names == old(conf).names,
        final(conf).title == old(conf).title,
        final(conf).width == old(conf).width,
        final(conf).height == old(conf).height,
{
    if str_eq(conf.plot_type.as_str(), "scatter") {
        conf.mode = "markers".to_string();
    } else if str_eq(conf.plot_type.as_str(), "lines") {
        conf.mode = "lines".to_string();
        conf.plot_type = "scatter".to_string();
    } else if str_eq(conf.plot_type.as_str(), "bar") {
        conf.mode = "s".to_string();
    } else if str_eq(conf.plot_type.as_str(), "box") {
        conf.mode = String::new();
    }
}

/// Trace `i` of a chart drawn as type `ty` in mode `mode`: series `y[i]`
/// under the name `names[i]`, with the categories as abscissae for a bar
/// chart, none for a box chart and the numbers `x` otherwise.
pub open spec fn trace_view<V>(conf: PlotConf<V>, ty: Seq<char>, mode: Seq<char>, i: int) -> TraceView<V> {
    TraceView {
        x: if ty == "bar"@ {
            TraceXView::Categories(views(conf.x_cat@))
        } else if ty == "box"@ {
            TraceXView::Absent
        } else {
            TraceXView::Numbers(conf.x@)
        },
        y: conf.y@[i]@,
        name: conf.names@[i]@,
        mode,
        plot_type: ty,
    }
}

/// Whether `f` is what drawing chart `conf` shows: its style normalised,
/// one trace per series in order, and the chart's title and size.
pub open spec fn figure_of<V>(f: Figure<V>, conf: PlotConf<V>) -> bool {
    let (mode, ty) = normal_style(conf.plot_type@, conf.mode@);
    &&& f.data@.len() == conf.y@.len()
    &&& forall|i: int| 0 <= i < f.data@.len() ==> #[trigger] f.data@[i]@ == trace_view(conf, ty, mode, i)
    &&& f.layout.title@ == conf.title@
    &&& f.layout.width == conf.width
    &&& f.layout.height == conf.height
}

fn copy_values<V: Copy>(v: &Vec<V>) -> (r: Vec<V>)
    ensures
        r@ == v@,
{
    let mut r: Vec<V> = Vec::new();
    let mut i: usize = 0;
    while i < v.len()
        invariant
            i <= v@.len(),
            r@ == v@.take(i as int),
        decreases v@.len() - i,
    {
        r.push(v[i]);
        assert(r@ == v@.take(i + 1));
        i = i + 1;
    }
    assert(v@.take(i as int) == v@);
    r
}

/// A copy of a vector of strings.
pub fn copy_strings(v: &Vec<String>) -> (r: Vec<String>)
    ensures
        views(r@) == views(v@),
{
    let mut r: Vec<String> = Vec::new();
    let mut i: usize = 0;
    while i < v.len()
        invariant
            i <= v@.len(),
            r@.len() == i,
            views(r@) == views(v@.take(i as int)),
        decreases v@.len() - i,
    {
        let c = v[i].clone();
        assert(c@ == v@[i as int]@);
        let ghost before = r@;
        r.push(c);
        assert(r@ == before.push(c));
        assert(r@.len() == i + 1);
        assert(views(r@)[i as int] == r@[i as int]@);
        assert(views(v@.take(i + 1))[i as int] == v@[i as int]@);
        assert forall|k: int| 0 <= k < i + 1 implies #[trigger] views(r@)[k] == views(
            v@.take(i + 1),
        )[k] by {
            if k < i {
                assert(views(before)[k] == views(v@.take(i as int))[k]);
            }
        }
        assert(views(r@) =~= views(v@.take(i + 1)));
        i = i + 1;
    }
    assert(v@.take(i as int) == v@);
    r
}

fn trace<V: Copy>(conf: &PlotConf<V>, i: usize) -> (r: Trace<V>)
    requires
        i < conf.y@.len(),
        i < conf.names@.len(),
    ensures
        r@ == trace_view(*conf, conf.plot_type@, conf.mode@, i as int),
{
    let x = if str_eq(conf.plot_type.as_str(), "bar") {
        TraceX::Categories(copy_strings(&conf.x_cat))
    } else if str_eq(conf.plot_type.as_str(), "box") {
        TraceX::Absent
    } else {
        TraceX::Numbers(copy_values(&conf.x))
    };
    Trace {
        x,
        y: copy_values(&conf.y[i]),
        name: conf.names[i].clone(),
        mode: conf.mode.clone(),
        plot_type: conf.plot_type.clone(),
    }
}

/// The traces of a chart, one per series, in order.
pub fn traces<V: Copy>(conf: &PlotConf<V>) -> (r: Vec<Trace<V>>)
    requires
        conf.y@.len() <= conf.names@.len(),
    ensures
        r@.len() == conf.y@.len(),
        forall|i: int| 0 <= i < r@.len() ==> #[trigger] r@[i]@ == trace_view(*conf, conf.plot_type@, conf.mode@, i),
{
    let mut r: Vec<Trace<V>> = Vec::new();
    let mut i: usize = 0;
    while i < conf.y.len()
        invariant
            i <= conf.y@.len(),
            conf.y@.len() <= conf.names@.len(),
            r@.len() == i,
            forall|k: int| 0 <= k < i ==> #[trigger] r@[k]@ == trace_view(*conf, conf.plot_type@, conf.mode@, k),
        decreases conf.y@.len() - i,
    {
        r.push(trace(conf, i));
        i = i + 1;
    }
    r
}

/// The layout of a chart: its title and size.
pub fn layout<V>(conf: &PlotConf<V>) -> (r: PlotLayout)
    ensures
        r.title@ == conf.title@,
        r.width == conf.width,
        r.height == conf.height,
{
    PlotLayout { title: conf.title.clone(), width: conf.width, height: conf.height }
}

/// What drawing a chart shows: its style normalised, then one trace per
/// series and the layout. The chart is left normalised.
pub fn figure<V: Copy>(conf: &mut PlotConf<V>) -> (r: Figure<V>)
    requires
        old(conf).y@.len() <= old(conf).names@.len(),
    ensures
        (final(conf).mode@, final(conf).plot_type@) == normal_style(old(conf).plot_type@, old(conf).mode@),
        final(conf).x == old(conf).x,
        final(conf).y == old(conf).y,
        final(conf).x_cat == old(conf).x_cat,
        final(conf).y_cat == old(conf).y_cat,
        final(conf).names == old(conf).names,
        final(conf).title == old(conf).title,
        final(conf).width == old(conf).width,
        final(conf).height == old(conf).height,
        figure_of(r, *old(conf)),
{
    normalize_style(conf);
    let data = traces(conf);
    let layout = layout(conf);
    Figure { data, layout }
}

} // verus!
