//! Form widgets: the state each widget carries.  Turning a widget into
//! markup happens outside the library.

use vstd::prelude::*;

use crate::db::models::opt_str_view;

verus! {

/// An input field.
pub struct Input {
    pub name: String,
    pub class: Option<String>,
    pub value: Option<String>,
    pub size: Option<i8>,
    pub writable: bool,
}

impl Input {
    /// A writable input field with no class, value or size.
    pub fn new(name: &str) -> (r: Input)
        ensures
            r.name@ == name@,
            r.class is None,
            r.value is None,
            r.size is None,
            r.writable,
    {
        Input {
            name: name.to_owned(),
            class: Option::None,
            value: Option::None,
            size: Option::None,
            writable: true,
        }
    }

    pub fn class(self, class: &str) -> (r: Input)
        ensures
            r.name@ == self.name@,
            opt_str_view(r.class) == Option::Some(class@),
            r.value == self.value,
            r.size == self.size,
            r.writable == self.writable,
    {
        Input { class: Option::Some(class.to_owned()), ..self }
    }

    pub fn value(self, value: &str) -> (r: Input)
        ensures
            r.name@ == self.name@,
            r.class == self.class,
            opt_str_view(r.value) == Option::Some(value@),
            r.size == self.size,
            r.writable == self.writable,
    {
        Input { value: Option::Some(value.to_owned()), ..self }
    }

    pub fn size(self, size: i8) -> (r: Input)
        ensures
            r == (Input { size: Option::Some(size), ..self }),
    {
        Input { size: Option::Some(size), ..self }
    }

    pub fn writable(self, writable: bool) -> (r: Input)
        ensures
            r == (Input { writable, ..self }),
    {
        Input { writable, ..self }
    }
}

/// One option of a selection field.
pub struct SelectOption {
    pub name: String,
    pub label: String,
    pub selected: bool,
}

impl SelectOption {
    /// An unselected option.
    pub fn new(name: &str, label: &str) -> (r: SelectOption)
        ensures
            r.name@ == name@,
            r.label@ == label@,
            !r.selected,
    {
        SelectOption { name: name.to_owned(), label: label.to_owned(), selected: false }
    }

    pub fn selected(self, s: bool) -> (r: SelectOption)
        ensures
            r == (SelectOption { selected: s, ..self }),
    {
        SelectOption { selected: s, ..self }
    }
}

/// A selection field.
pub struct Select {
    pub name: String,
    pub options: Vec<SelectOption>,
    pub multiple: bool,
}

impl Select {
    /// A single-choice selection with no options yet.
    pub fn new(name: &str) -> (r: Select)
        ensures
            r.name@ == name@,
            r.options@.len() == 0,
            !r.multiple,
    {
        Select { name: name.to_owned(), options: Vec::new(), multiple: false }
    }

    pub fn multiple(self, mult: bool) -> (r: Select)
        ensures
            r.name@ == self.name@,
            r.options == self.options,
            r.multiple == mult,
    {
        Select { multiple: mult, ..self }
    }

    pub fn set_options(self, opts: Vec<SelectOption>) -> (r: Select)
        ensures
            r.name@ == self.name@,
            r.options == opts,
            r.multiple == self.multiple,
    {
        Select { options: opts, ..self }
    }
}

/// A form submission button.
pub struct SubmitButton {
    pub label: String,
}

impl SubmitButton {
    /// A button with the default label.
    pub fn new() -> (r: SubmitButton)
        ensures
            r.label@ == "Submit"@,
    {
        SubmitButton { label: "Submit".to_owned() }
    }

    pub fn label(self, l: &str) -> (r: SubmitButton)
        ensures
            r.label@ == l@,
    {
        SubmitButton { label: l.to_owned() }
    }
}

} // verus!
