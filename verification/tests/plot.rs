use rwui::message::RxTxMessage;
use rwui::plot::{figure, PlotConf, TraceX};
use rwui::dom::{Css, DomCfg};
use rwui::update::UpdateFault;

fn conf(ty: &str) -> PlotConf<f64> {
    let mut c = PlotConf::default();
    c.x = vec![1.0, 2.0, 3.0];
    c.y = vec![vec![1.0, 2.0, 4.0], vec![2.0, 4.0, 8.0]];
    c.x_cat = vec!["aa".into(), "bb".into(), "cc".into()];
    c.names = vec!["uno".into(), "due".into()];
    c.plot_type = ty.into();
    c.title = "test".into();
    c
}

#[test]
fn default_chart_is_square() {
    let c: PlotConf<f64> = PlotConf::default();
    assert_eq!((c.width, c.height), (400, 400));
    assert!(c.y.is_empty() && c.mode.is_empty() && c.plot_type.is_empty());
}

#[test]
fn line_charts_become_scatter_lines() {
    let mut c = conf("lines");
    let f = figure(&mut c);
    assert_eq!((c.mode.as_str(), c.plot_type.as_str()), ("lines", "scatter"));
    assert_eq!(f.data.len(), 2);
    assert_eq!(f.data[1].x, TraceX::Numbers(vec![1.0, 2.0, 3.0]));
    assert_eq!(f.data[1].y, vec![2.0, 4.0, 8.0]);
    assert_eq!(f.data[1].name, "due");
    assert_eq!((f.data[0].mode.as_str(), f.data[0].plot_type.as_str()), ("lines", "scatter"));
    assert_eq!((f.layout.title.as_str(), f.layout.width, f.layout.height), ("test", 400, 400));
}

#[test]
fn chart_types_choose_abscissae_and_mode() {
    let f = figure(&mut conf("scatter"));
    assert_eq!(f.data[0].mode, "markers");
    let f = figure(&mut conf("bar"));
    assert_eq!(f.data[0].mode, "s");
    assert_eq!(f.data[0].x, TraceX::Categories(vec!["aa".into(), "bb".into(), "cc".into()]));
    let f = figure(&mut conf("box"));
    assert_eq!(f.data[0].mode, "");
    assert_eq!(f.data[0].x, TraceX::Absent);
    let mut c = conf("pie");
    c.mode = "m".into();
    let f = figure(&mut c);
    assert_eq!((f.data[0].mode.as_str(), f.data[0].plot_type.as_str()), ("m", "pie"));
}

#[test]
fn messages_ask_for_one_change() {
    let m = RxTxMessage::<f64>::text_update("hello");
    assert_eq!(m.text, "hello");
    assert!(m.color.is_empty() && m.list.is_empty() && m.plot_conf.is_none());
    let m = RxTxMessage::<f64>::background_update("red");
    assert_eq!(m.backgroundcolor, "red");
    assert!(m.text.is_empty());
    let m = RxTxMessage::<f64>::color_update("white");
    assert_eq!(m.color, "white");
    let m = RxTxMessage::<f64>::list_update(vec!["a".into()]);
    assert_eq!(m.list, vec!["a".to_string()]);
    let m = RxTxMessage::plot_update(conf("bar"));
    assert_eq!(m.plot_conf, Some(conf("bar")));
}

#[test]
fn chart_updates_need_a_name_per_series() {
    let mut dom = DomCfg::new(Css::Pico, false);
    let mut e = dom.plot("id_47");
    let mut c = conf("lines");
    let f = e.apply_update(&mut dom, RxTxMessage::plot_update(c.clone())).unwrap().unwrap();
    assert_eq!(f.data.len(), 2);
    c.names.pop();
    assert_eq!(e.apply_update(&mut dom, RxTxMessage::plot_update(c)), Err(UpdateFault::UnnamedSeries));
}

#[test]
fn drawing_again_settles_the_style() {
    let mut c = conf("lines");
    figure(&mut c);
    figure(&mut c);
    assert_eq!((c.mode.as_str(), c.plot_type.as_str()), ("markers", "scatter"));
    figure(&mut c);
    assert_eq!((c.mode.as_str(), c.plot_type.as_str()), ("markers", "scatter"));
    let mut b = conf("bar");
    figure(&mut b);
    let once = (b.mode.clone(), b.plot_type.clone());
    figure(&mut b);
    assert_eq!((b.mode.clone(), b.plot_type.clone()), once);
    assert_eq!(once, ("s".to_string(), "bar".to_string()));
}

#[test]
fn drawing_in_an_element_normalises_the_chart() {
    let mut dom = DomCfg::new(Css::Bulma, false);
    let e = dom.plot("id_3");
    let mut c: PlotConf<f64> = PlotConf::default();
    c.plot_type = "bar".into();
    c.x_cat = vec!["aa".into(), "bb".into()];
    c.y = vec![vec![1.0, 2.0]];
    c.names = vec!["uno".into()];
    let f = e.draw_plot(&mut c);
    assert_eq!((c.mode.as_str(), c.plot_type.as_str()), ("s", "bar"));
    assert_eq!(f.data.len(), 1);
    assert_eq!(f.data[0].x, TraceX::Categories(vec!["aa".into(), "bb".into()]));
    assert_eq!((f.data[0].mode.as_str(), f.data[0].plot_type.as_str()), ("s", "bar"));
    let mut l: PlotConf<f64> = PlotConf::default();
    l.plot_type = "lines".into();
    let g = e.draw_plot(&mut l);
    assert!(g.data.is_empty());
    assert_eq!((l.mode.as_str(), l.plot_type.as_str()), ("lines", "scatter"));
    assert_eq!((g.layout.title.as_str(), g.layout.width, g.layout.height), ("", 400, 400));
}
