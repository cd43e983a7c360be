//! Page scaffolding: the state a page, navigation bar and modal dialog
//! carry.  Rendering happens outside the library.

use vstd::prelude::*;

use crate::db::models::opt_str_view;

verus! {

/// A navigation entry.
pub enum NavItem {
    Link { href: String, text: String },
}

impl NavItem {
    /// A navigation link.
    pub fn link(href: &str, text: &str) -> (r: NavItem)
        ensures
            r matches NavItem::Link { href: h, text: t } && h@ == href@ && t@ == text@,
    {
        NavItem::Link { href: href.to_owned(), text: text.to_owned() }
    }
}

/// A modal dialog.
pub struct ModalDialog {
    /// The HTML id used to identify this dialog.
    pub id: String,
    /// Title to display; the id stands in when unset.
    pub title: Option<String>,
    /// Whether the dialog offers a way to close it.
    pub closeable: bool,
    /// Whether the dialog is open from inception.
    pub start_open: bool,
    /// The body markup, if any.
    pub body: Option<String>,
    /// The footer markup, if any.
    pub footer: Option<String>,
}

impl ModalDialog {
    /// A closed, closeless dialog with no title, body or footer.
    pub fn new(id: &str) -> (r: ModalDialog)
        ensures
            r.id@ == id@,
            r.title is None,
            !r.closeable,
            !r.start_open,
            r.body is None,
            r.footer is None,
    {
        ModalDialog {
            id: id.to_owned(),
            title: Option::None,
            closeable: false,
            start_open: false,
            body: Option::None,
            footer: Option::None,
        }
    }

    pub fn title(self, title: &str) -> (r: Self)
        ensures
            opt_str_view(r.title) == Option::Some(title@),
            r.id@ == self.id@,
            r.closeable == self.closeable,
            r.start_open == self.start_open,
            r.body == self.body,
            r.footer == self.footer,
    {
        ModalDialog { title: Option::Some(title.to_owned()), ..self }
    }

    pub fn closeable(self, closeable: bool) -> (r: Self)
        ensures
            r == (ModalDialog { closeable, ..self }),
    {
        ModalDialog { closeable, ..self }
    }

    pub fn start_open(self, start_open: bool) -> (r: Self)
        ensures
            r == (ModalDialog { start_open, ..self }),
    {
        ModalDialog { start_open, ..self }
    }

    pub fn body(self, body: String) -> (r: Self)
        ensures
            opt_str_view(r.body) == Option::Some(body@),
            r.id@ == self.id@,
            r.title == self.title,
            r.closeable == self.closeable,
            r.start_open == self.start_open,
            r.footer == self.footer,
    {
        ModalDialog { body: Option::Some(body), ..self }
    }

    pub fn footer(self, footer: String) -> (r: Self)
        ensures
            opt_str_view(r.footer) == Option::Some(footer@),
            r.id@ == self.id@,
            r.title == self.title,
            r.closeable == self.closeable,
            r.start_open == self.start_open,
            r.body == self.body,
    {
        ModalDialog { footer: Option::Some(footer), ..self }
    }
}

/// A page under construction: its title, content, one-time flash message,
/// link prefix, navigation entries and the signed-in user.
pub struct Page {
    pub title: String,
    pub content: Option<String>,
    pub flash: Option<(String, String)>,
    pub prefix: String,
    pub nav: Vec<NavItem>,
    pub user: Option<(String, String)>,
}

impl Page {
    /// An empty page with this title and the root link prefix.
    pub fn new(title: &str) -> (r: Page)
        ensures
            r.title@ == title@,
            r.content is None,
            r.flash is None,
            r.prefix@ == "/"@,
            r.nav@.len() == 0,
            r.user is None,
    {
        Page {
            title: title.to_owned(),
            content: Option::None,
            flash: Option::None,
            prefix: "/".to_owned(),
            nav: Vec::new(),
            user: Option::None,
        }
    }

    pub fn content(self, c: String) -> (r: Self)
        ensures
            opt_str_view(r.content) == Option::Some(c@),
            r.title@ == self.title@,
            r.flash == self.flash,
            r.prefix@ == self.prefix@,
            r.nav == self.nav,
            r.user == self.user,
    {
        Page { content: Option::Some(c), ..self }
    }

    pub fn flash(self, f: Option<(String, String)>) -> (r: Self)
        ensures
            r == (Page { flash: f, ..self }),
    {
        Page { flash: f, ..self }
    }

    pub fn link_prefix(self, prefix: &str) -> (r: Self)
        ensures
            r.prefix@ == prefix@,
            r.title@ == self.title@,
            r.content == self.content,
            r.flash == self.flash,
            r.nav == self.nav,
            r.user == self.user,
    {
        Page { prefix: prefix.to_owned(), ..self }
    }

    pub fn nav(self, m: Vec<NavItem>) -> (r: Self)
        ensures
            r == (Page { nav: m, ..self }),
    {
        Page { nav: m, ..self }
    }

    pub fn user(self, username: &str, display_name: &str) -> (r: Self)
        ensures
            r.user matches Some(u) && u.0@ == username@ && u.1@ == display_name@,
            r.title@ == self.title@,
            r.content == self.content,
            r.flash == self.flash,
            r.prefix@ == self.prefix@,
            r.nav == self.nav,
    {
        Page { user: Option::Some((username.to_owned(), display_name.to_owned())), ..self }
    }
}

} // verus!
