//! The parts of the reader's screen, as far as they decide anything: which
//! book is selected, what is scrolled, who has the focus. Drawing is left to
//! whoever holds a terminal.

use crate::bible::Bible;
use crate::config::VERSION;
use crate::events::{AppEvent, UserAction};
use crate::markup::same_text;
use std::sync::Arc;
use vstd::prelude::*;
use vstd::string::*;

verus! {

/// A part of the screen that takes events.
pub trait Component {
    /// Takes one event.
    fn update(&mut self, event: &AppEvent);
}

/// Whether a part has the focus after `event`, where it had it or had it not
/// before.
pub open spec fn focus_after(focused: bool, event: AppEvent) -> bool {
    match event {
        AppEvent::Focus => true,
        AppEvent::Defocus => false,
        _ => focused,
    }
}

/// The screen that is shown first. It decides nothing.
#[derive(Clone, Copy, Debug)]
pub struct SplashScreen;

impl Component for SplashScreen {
    fn update(&mut self, event: &AppEvent) {
    }
}

/// The pane of references.
#[derive(Debug)]
pub struct References {
    focused: bool,
}

impl References {
    /// Whether the pane has the focus.
    pub closed spec fn has_focus(&self) -> bool {
        self.focused
    }

    /// A pane without the focus.
    pub fn new() -> (pane: Self)
        ensures
            !pane.has_focus(),
    {
        Self { focused: false }
    }

    /// Whether the pane has the focus.
    pub fn focused(&self) -> (focused: bool)
        ensures
            focused == self.has_focus(),
    {
        self.focused
    }
}

impl Component for References {
    fn update(&mut self, event: &AppEvent)
        ensures
            final(self).has_focus() == focus_after(old(self).has_focus(), *event),
    {
        match event {
            AppEvent::Focus => {
                self.focused = true;
            },
            AppEvent::Defocus => {
                self.focused = false;
            },
            _ => {},
        }
    }
}

/// The pane of word numbers.
#[derive(Debug)]
pub struct Strongs {
    focused: bool,
}

impl Strongs {
    /// Whether the pane has the focus.
    pub closed spec fn has_focus(&self) -> bool {
        self.focused
    }

    /// A pane without the focus.
    pub fn new() -> (pane: Self)
        ensures
            !pane.has_focus(),
    {
        Self { focused: false }
    }

    /// Whether the pane has the focus.
    pub fn focused(&self) -> (focused: bool)
        ensures
            focused == self.has_focus(),
    {
        self.focused
    }
}

impl Component for Strongs {
    fn update(&mut self, event: &AppEvent)
        ensures
            final(self).has_focus() == focus_after(old(self).has_focus(), *event),
    {
        match event {
            AppEvent::Focus => {
                self.focused = true;
            },
            AppEvent::Defocus => {
                self.focused = false;
            },
            _ => {},
        }
    }
}

/// The line at the foot of the screen.
#[derive(Debug)]
pub struct LogosFooter {
    left_side: String,
    right_side: String,
}

impl LogosFooter {
    /// The text at the left: the name of the application and its version.
    pub closed spec fn left(&self) -> Seq<char> {
        self.left_side@
    }

    /// The text at the right: the key that quits.
    pub closed spec fn right(&self) -> Seq<char> {
        self.right_side@
    }

    /// The footer of the application.
    pub fn new() -> (footer: Self)
        ensures
            footer.left() == "   logos ["@ + VERSION@ + "]"@,
            footer.right() == "q: quit "@,
    {
        let mut left_side = "   logos [".to_owned();
        left_side.append(VERSION);
        left_side.append("]");
        Self { left_side, right_side: "q: quit ".to_owned() }
    }

    /// The text at the left.
    pub fn left_side(&self) -> (text: &str)
        ensures
            text@ == self.left(),
    {
        self.left_side.as_str()
    }

    /// The text at the right.
    pub fn right_side(&self) -> (text: &str)
        ensures
            text@ == self.right(),
    {
        self.right_side.as_str()
    }
}

impl Component for LogosFooter {
    fn update(&mut self, event: &AppEvent)
        ensures
            final(self).left() == old(self).left(),
            final(self).right() == old(self).right(),
    {
    }
}

/// What a [`BooksView`] holds.
pub struct BooksModel {
    pub books: Seq<Seq<char>>,
    pub selected: nat,
    pub scrolled: nat,
    pub focused: bool,
}

impl BooksModel {
    /// The list after `event`. With the focus, moving down selects the next
    /// book unless the last is selected, and moving up the book before
    /// unless the first is.
    pub open spec fn updated(self, event: AppEvent) -> BooksModel {
        match event {
            AppEvent::Focus => BooksModel { focused: true, ..self },
            AppEvent::Defocus => BooksModel { focused: false, ..self },
            AppEvent::UserAction(UserAction::MoveDown) => if self.focused && self.selected + 1
                < self.books.len() {
                BooksModel { selected: self.selected + 1, ..self }
            } else {
                self
            },
            AppEvent::UserAction(UserAction::MoveUp) => if self.focused && self.selected > 0 {
                BooksModel { selected: (self.selected - 1) as nat, ..self }
            } else {
                self
            },
            _ => self,
        }
    }

    /// The list scrolled so that the selected book is among the `visible`
    /// lines: up to the selected book where it stands above them, and down by
    /// as much as it stands below them.
    pub open spec fn revealed(self, visible: nat) -> BooksModel {
        let up = if self.selected < self.scrolled {
            self.selected
        } else {
            self.scrolled
        };
        let down = if visible > 0 && self.selected > up + visible - 1 {
            (self.selected - visible + 1) as nat
        } else {
            up
        };
        BooksModel { scrolled: down, ..self }
    }
}

/// Each of `books` behind `prefix`.
pub open spec fn prefixed(books: Seq<Seq<char>>, prefix: Seq<char>) -> Seq<Seq<char>> {
    books.map_values(|b: Seq<char>| prefix + b)
}

/// The views of `texts`, in order.
pub open spec fn text_views(texts: Seq<String>) -> Seq<Seq<char>> {
    texts.map_values(|t: String| t@)
}

/// The list of books, one of them selected.
#[derive(Debug)]
pub struct BooksView {
    books: Vec<String>,
    selected_book_index: usize,
    scrolled_offset: usize,
    focused: bool,
    all_lines: Vec<String>,
    selected_lines: Vec<String>,
}

impl View for BooksView {
    type V = BooksModel;

    closed spec fn view(&self) -> BooksModel {
        BooksModel {
            books: text_views(self.books@),
            selected: self.selected_book_index as nat,
            scrolled: self.scrolled_offset as nat,
            focused: self.focused,
        }
    }
}

impl BooksView {
    /// The selected place is a place of the list, and the lines are those
    /// of the books, always.
    #[verifier::type_invariant]
    spec fn sound(&self) -> bool {
        &&& self.selected_book_index < self.books@.len() || self.selected_book_index == 0
        &&& text_views(self.all_lines@) == prefixed(text_views(self.books@), "  "@)
        &&& text_views(self.selected_lines@) == prefixed(text_views(self.books@), "> "@)
    }

    /// The line of each book as it is drawn while the book is not selected.
    pub closed spec fn lines(&self) -> Seq<Seq<char>> {
        text_views(self.all_lines@)
    }

    /// The line of each book as it is drawn while the book is selected.
    pub closed spec fn marked_lines(&self) -> Seq<Seq<char>> {
        text_views(self.selected_lines@)
    }

    /// The line of each of `books`: the book's name behind `prefix`.
    pub fn build_all_lines(books: &Vec<String>, prefix: &str) -> (lines: Vec<String>)
        ensures
            text_views(lines@) == prefixed(text_views(books@), prefix@),
    {
        let mut lines: Vec<String> = Vec::new();
        let mut k: usize = 0;
        while k < books.len()
            invariant
                k <= books.len(),
                lines@.len() == k,
                forall|j: int| 0 <= j < k ==> (#[trigger] lines@[j])@ == prefix@ + books@[j]@,
            decreases books.len() - k,
        {
            let mut line = prefix.to_owned();
            line.append(books[k].as_str());
            lines.push(line);
            k = k + 1;
        }
        proof {
            assert(text_views(lines@) =~= prefixed(text_views(books@), prefix@));
        }
        lines
    }

    /// The list of `books` with the first book selected, not scrolled and
    /// without the focus.
    pub fn new(books: Vec<String>) -> (list: Self)
        ensures
            list@ == (BooksModel {
                books: text_views(books@),
                selected: 0,
                scrolled: 0,
                focused: false,
            }),
            list.lines() == prefixed(text_views(books@), "  "@),
            list.marked_lines() == prefixed(text_views(books@), "> "@),
    {
        let all_lines = BooksView::build_all_lines(&books, "  ");
        let selected_lines = BooksView::build_all_lines(&books, "> ");
        BooksView {
            books,
            selected_book_index: 0,
            scrolled_offset: 0,
            focused: false,
            all_lines,
            selected_lines,
        }
    }

    /// The name of the selected book.
    pub fn selected_book(&self) -> (name: &str)
        requires
            self@.books.len() > 0,
        ensures
            self@.selected < self@.books.len(),
            name@ == self@.books[self@.selected as int],
    {
        proof {
            use_type_invariant(self);
        }
        self.books[self.selected_book_index].as_str()
    }

    /// Whether the list has the focus.
    pub fn focused(&self) -> (focused: bool)
        ensures
            focused == self@.focused,
    {
        self.focused
    }

    /// The place of the selected book.
    pub fn selected_index(&self) -> (place: usize)
        ensures
            place == self@.selected,
            self@.selected < self@.books.len() || self@.selected == 0,
    {
        proof {
            use_type_invariant(self);
        }
        self.selected_book_index
    }

    /// The place of the first book that is drawn.
    pub fn scrolled_offset(&self) -> (place: usize)
        ensures
            place == self@.scrolled,
    {
        self.scrolled_offset
    }

    /// The number of books.
    pub fn len(&self) -> (count: usize)
        ensures
            count == self@.books.len(),
    {
        self.books.len()
    }

    /// The line of the book at `place`, as it is drawn while the book is
    /// selected or while it is not.
    pub fn line(&self, place: usize, selected: bool) -> (line: &str)
        requires
            place < self@.books.len(),
        ensures
            line@ == if selected {
                "> "@ + self@.books[place as int]
            } else {
                "  "@ + self@.books[place as int]
            },
    {
        proof {
            use_type_invariant(self);
            assert(text_views(self.all_lines@).len() == self.books@.len());
            assert(text_views(self.selected_lines@).len() == self.books@.len());
            assert(text_views(self.all_lines@)[place as int] == self.all_lines@[place as int]@);
            assert(text_views(self.selected_lines@)[place as int]
                == self.selected_lines@[place as int]@);
        }
        if selected {
            self.selected_lines[place].as_str()
        } else {
            self.all_lines[place].as_str()
        }
    }

    /// Scrolls the list so that the selected book is among the `visible`
    /// lines.
    pub fn reveal_selection(&mut self, visible: usize)
        ensures
            final(self)@ == old(self)@.revealed(visible as nat),
    {
        proof {
            use_type_invariant(&*self);
        }
        if self.selected_book_index < self.scrolled_offset {
            self.scrolled_offset = self.selected_book_index;
        }
        if visible > 0 && self.selected_book_index - self.scrolled_offset > visible - 1 {
            self.scrolled_offset = self.selected_book_index - (visible - 1);
        }
    }
}

impl Component for BooksView {
    fn update(&mut self, event: &AppEvent)
        ensures
            final(self)@ == old(self)@.updated(*event),
    {
        proof {
            use_type_invariant(&*self);
        }
        match event {
            AppEvent::Focus => {
                self.focused = true;
            },
            AppEvent::Defocus => {
                self.focused = false;
            },
            AppEvent::UserAction(action) => {
                if self.focused {
                    match action {
                        UserAction::MoveDown => {
                            if self.selected_book_index < self.books.len()
                                && self.selected_book_index + 1 < self.books.len() {
                                self.selected_book_index = self.selected_book_index + 1;
                            }
                        },
                        UserAction::MoveUp => {
                            if self.selected_book_index > 0 {
                                self.selected_book_index = self.selected_book_index - 1;
                            }
                        },
                        _ => {},
                    }
                }
            },
            _ => {},
        }
    }
}

/// What a [`BookReader`] holds, but for the document.
pub struct ReaderModel {
    pub book: Seq<char>,
    pub scrolled: nat,
    pub focused: bool,
    pub book_changed: bool,
    pub view_dirty: bool,
    pub columns: nat,
}

impl ReaderModel {
    /// The reader with the book `book`: another book is shown from its
    /// beginning, the same book as before.
    pub open spec fn with_book(self, book: Seq<char>) -> ReaderModel {
        if self.book != book {
            ReaderModel { book, scrolled: 0, book_changed: true, ..self }
        } else {
            self
        }
    }

    /// The reader after `event`. With the focus, moving down scrolls by one
    /// line and moving up scrolls back by one, as far as there is a line.
    pub open spec fn updated(self, event: AppEvent) -> ReaderModel {
        match event {
            AppEvent::Focus => ReaderModel { focused: true, ..self },
            AppEvent::Defocus => ReaderModel { focused: false, ..self },
            AppEvent::UserAction(UserAction::MoveDown) => if self.focused {
                ReaderModel {
                    scrolled: if self.scrolled < usize::MAX {
                        self.scrolled + 1
                    } else {
                        self.scrolled
                    },
                    view_dirty: true,
                    ..self
                }
            } else {
                self
            },
            AppEvent::UserAction(UserAction::MoveUp) => if self.focused {
                ReaderModel {
                    scrolled: if self.scrolled > 0 {
                        (self.scrolled - 1) as nat
                    } else {
                        0
                    },
                    view_dirty: true,
                    ..self
                }
            } else {
                self
            },
            _ => self,
        }
    }
}

/// The cells of one column of text in a pane of `width` by `height` cells
/// with a border of one cell, set in `columns` columns.
pub open spec fn column_cells(width: u16, height: u16, columns: nat) -> nat {
    let inner_width: nat = if width >= 2 {
        (width - 2) as nat
    } else {
        0
    };
    let inner_height: nat = if height >= 2 {
        (height - 2) as nat
    } else {
        0
    };
    let count: nat = if columns == 0 {
        1
    } else {
        columns
    };
    (inner_width / count) * inner_height
}

/// The heights of the two rows of columns that a page of `height` lines is
/// drawn as while it is scrolled by `scrolled` lines; none while the page
/// stands still. The upper row loses a line with every line scrolled, the
/// lower row gains it, and two lines part them.
pub open spec fn row_heights(height: u16, scrolled: nat) -> Option<(u16, u16)> {
    let page: nat = if height == 0 {
        1
    } else {
        height as nat
    };
    let phase = scrolled % page;
    if phase == 0 {
        None
    } else {
        let top: nat = if height >= phase + 2 {
            (height - phase - 2) as nat
        } else {
            0
        };
        if height >= top + 2 {
            Some((top as u16, (height - top - 2) as u16))
        } else {
            None
        }
    }
}

/// The pane that shows a book.
pub struct BookReader {
    bible: Arc<Bible>,
    current_book_name: String,
    scrolled_offset: usize,
    focused: bool,
    book_changed: bool,
    view_dirty: bool,
    num_columns: usize,
}

impl View for BookReader {
    type V = ReaderModel;

    closed spec fn view(&self) -> ReaderModel {
        ReaderModel {
            book: self.current_book_name@,
            scrolled: self.scrolled_offset as nat,
            focused: self.focused,
            book_changed: self.book_changed,
            view_dirty: self.view_dirty,
            columns: self.num_columns as nat,
        }
    }
}

impl BookReader {
    /// A reader of the book `current_book_name` of `bible`, set in two
    /// columns, not scrolled and without the focus.
    pub fn new(bible: Arc<Bible>, current_book_name: String) -> (reader: Self)
        ensures
            reader.document() == *bible,
            reader@ == (ReaderModel {
                book: current_book_name@,
                scrolled: 0,
                focused: false,
                book_changed: true,
                view_dirty: true,
                columns: 2,
            }),
    {
        BookReader {
            bible,
            current_book_name,
            scrolled_offset: 0,
            focused: false,
            book_changed: true,
            view_dirty: true,
            num_columns: 2,
        }
    }

    /// Shows the book `book`.
    pub fn set_book(&mut self, book: &str)
        ensures
            final(self).document() == old(self).document(),
            final(self)@ == old(self)@.with_book(book@),
    {
        if !same_text(self.current_book_name.as_str(), book) {
            self.current_book_name = book.to_owned();
            self.scrolled_offset = 0;
            self.book_changed = true;
        }
    }

    /// The document that is read.
    pub closed spec fn document(&self) -> Bible {
        *self.bible
    }

    /// The document that is read.
    pub fn bible(&self) -> (bible: &Bible)
        ensures
            *bible == self.document(),
    {
        &self.bible
    }

    /// The name of the book that is shown.
    pub fn book(&self) -> (name: &str)
        ensures
            name@ == self@.book,
    {
        self.current_book_name.as_str()
    }

    /// Whether the reader has the focus.
    pub fn focused(&self) -> (focused: bool)
        ensures
            focused == self@.focused,
    {
        self.focused
    }

    /// By how many lines the book is scrolled.
    pub fn scrolled_offset(&self) -> (lines: usize)
        ensures
            lines == self@.scrolled,
    {
        self.scrolled_offset
    }

    /// In how many columns the book is set.
    pub fn num_columns(&self) -> (columns: usize)
        ensures
            columns == self@.columns,
    {
        self.num_columns
    }

    /// The cells of one column of text in a pane of `width` by `height`
    /// cells, set in `num_columns` columns.
    pub fn chars_per_column(width: u16, height: u16, num_columns: usize) -> (cells: usize)
        ensures
            cells == column_cells(width, height, num_columns as nat),
    {
        let inner_width = width.saturating_sub(2);
        let inner_height = height.saturating_sub(2);
        let count: usize = if num_columns == 0 {
            1
        } else {
            num_columns
        };
        let col_width = inner_width as usize / count;
        proof {
            assert(col_width * (inner_height as usize) <= 0xffff * 0xffff) by (nonlinear_arith)
                requires
                    col_width <= 0xffff,
                    inner_height <= 0xffff,
            ;
        }
        col_width * (inner_height as usize)
    }

    /// The heights of the two rows of columns that a page of `height` lines
    /// is drawn as while it is scrolled; none while it stands still.
    pub fn layout_rows(height: u16, scrolled_offset: usize) -> (rows: Option<(u16, u16)>)
        ensures
            rows == row_heights(height, scrolled_offset as nat),
    {
        let page: usize = if height == 0 {
            1
        } else {
            height as usize
        };
        let phase = scrolled_offset % page;
        if phase == 0 {
            return None;
        }
        let top: u16 = if height as usize >= phase + 2 {
            (height as usize - phase - 2) as u16
        } else {
            0
        };
        if height >= 2 && top <= height - 2 {
            Some((top, height - top - 2))
        } else {
            None
        }
    }
}

impl Component for BookReader {
    fn update(&mut self, event: &AppEvent)
        ensures
            final(self)@ == old(self)@.updated(*event),
    {
        match event {
            AppEvent::Focus => {
                self.focused = true;
            },
            AppEvent::Defocus => {
                self.focused = false;
            },
            AppEvent::UserAction(action) => {
                if self.focused {
                    match action {
                        UserAction::MoveDown => {
                            self.scrolled_offset = self.scrolled_offset.saturating_add(1);
                            self.view_dirty = true;
                        },
                        UserAction::MoveUp => {
                            self.scrolled_offset = self.scrolled_offset.saturating_sub(1);
                            self.view_dirty = true;
                        },
                        _ => {},
                    }
                }
            },
            _ => {},
        }
    }
}

} // verus!
