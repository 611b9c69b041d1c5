//! The GUI description: tabs of rows of grid elements, each element with
//! the id by which both sides address it.

use vstd::prelude::*;

verus! {

/// One cell of a grid row; each kind of widget present in it is shown.
#[derive(Clone, Debug, PartialEq)]
pub struct GridRowElement {
    pub dropdown: Option<Dropdown>,
    pub button: Option<Button>,
    pub form: Option<Form>,
    pub input: Option<Input>,
    pub slider: Option<Slider>,
    pub textarea: Option<Textarea>,
    pub label: Option<Label>,
    pub h2: Option<H2>,
    pub p: Option<Paragraph>,
    pub canvas: Option<Canvas>,
    pub image: Option<Image>,
    pub date: Option<Date>,
    pub plot: Option<Plot>,
}

/// A date picker.
#[derive(Clone, Debug, PartialEq)]
pub struct Date {
    pub id: String,
}

/// A chart area.
#[derive(Clone, Debug, PartialEq)]
pub struct Plot {
    pub id: String,
}

/// A paragraph of fixed text.
#[derive(Clone, Debug, PartialEq)]
pub struct Paragraph {
    pub id: Option<String>,
    pub text: Option<String>,
}

/// A drop-down list showing `items[defaultind]` first.
#[derive(Clone, Debug, PartialEq)]
pub struct Dropdown {
    pub id: String,
    pub defaultind: i32,
    pub items: Vec<String>,
}

/// A push button.
#[derive(Clone, Debug, PartialEq)]
pub struct Button {
    pub id: String,
    pub text: String,
}

/// A form with one text field and a submit button.
#[derive(Clone, Debug, PartialEq)]
pub struct Form {
    pub id: String,
    pub text: String,
}

/// A text input with an optional placeholder.
#[derive(Clone, Debug, PartialEq)]
pub struct Input {
    pub id: String,
    pub text: Option<String>,
}

/// A range slider; `minmaxini` holds its minimum, maximum and initial value.
#[derive(Clone, Debug, PartialEq)]
pub struct Slider {
    pub id: String,
    pub minmaxini: Vec<i32>,
}

/// A multi-line text area.
#[derive(Clone, Debug, PartialEq)]
pub struct Textarea {
    pub id: String,
    pub text: String,
    pub lines: i32,
}

/// A label; a mutable one can be changed by the server.
#[derive(Clone, Debug, PartialEq)]
pub struct Label {
    pub id: String,
    pub text: String,
    pub mutable: bool,
}

/// A second-level header; a mutable one can be changed by the server.
#[derive(Clone, Debug, PartialEq)]
pub struct H2 {
    pub id: String,
    pub text: String,
    pub mutable: bool,
}

/// A drawing canvas.
#[derive(Clone, Debug, PartialEq)]
pub struct Canvas {
    pub id: String,
    pub width: i32,
    pub height: i32,
}

/// An image.
#[derive(Clone, Debug, PartialEq)]
pub struct Image {
    pub id: String,
}

/// One entry of the GUI description: a tab.
#[derive(Clone, Debug, PartialEq)]
pub struct GuiDescr {
    pub tab: Tab,
}

/// A tab: an optional id and title, and its rows.
#[derive(Clone, Debug, PartialEq)]
pub struct Tab {
    pub id: Option<String>,
    pub text: Option<String>,
    pub rows: Vec<Row>,
}

/// A grid row.
#[derive(Clone, Debug, PartialEq)]
pub struct Row {
    pub gridrow: Vec<GridRowElement>,
}

} // verus!
