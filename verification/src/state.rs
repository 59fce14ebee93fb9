//! The screens of the application and the steps between them.
//!
//! A screen takes an event and says which screen comes next. Reading the
//! document from disk is not done here: the dashboard asks for it, and is
//! handed the document when it is there.

use crate::bible::Bible;
use crate::components::{
    focus_after, BookReader, BooksModel, BooksView, Component, LogosFooter, ReaderModel,
    References, SplashScreen, Strongs,
};
use crate::events::{AppEvent, UserAction};
use std::sync::Arc;
use vstd::prelude::*;
use vstd::string::*;

verus! {

/// What every screen shares: the document.
pub struct AppDataInner {
    pub bible: Arc<Bible>,
}

/// The shared data, cheap to hand on.
pub struct AppData(pub Arc<AppDataInner>);

impl AppData {
    /// The shared data around the document `bible`.
    pub fn new(bible: Bible) -> (data: AppData)
        ensures
            *data.0.bible == bible,
    {
        AppData(Arc::new(AppDataInner { bible: Arc::new(bible) }))
    }

    /// The document.
    pub fn bible(&self) -> (bible: &Bible)
        ensures
            *bible == *self.0.bible,
    {
        &self.0.bible
    }
}

/// The panes of the reader's screen that can have the focus.
#[derive(Clone, Copy, Debug, PartialEq, Eq, Structural)]
pub enum FocusedWindow {
    Books,
    Reader,
    References,
    Strongs,
}

impl FocusedWindow {
    /// The pane behind this one; behind the last comes the first.
    pub open spec fn after(self) -> FocusedWindow {
        match self {
            FocusedWindow::Books => FocusedWindow::Reader,
            FocusedWindow::Reader => FocusedWindow::References,
            FocusedWindow::References => FocusedWindow::Strongs,
            FocusedWindow::Strongs => FocusedWindow::Books,
        }
    }

    /// The pane before this one; before the first comes the last.
    pub open spec fn before(self) -> FocusedWindow {
        match self {
            FocusedWindow::Books => FocusedWindow::Strongs,
            FocusedWindow::Reader => FocusedWindow::Books,
            FocusedWindow::References => FocusedWindow::Reader,
            FocusedWindow::Strongs => FocusedWindow::References,
        }
    }

    /// The pane behind this one.
    pub fn next(self) -> (window: Self)
        ensures
            window == self.after(),
    {
        match self {
            FocusedWindow::Books => FocusedWindow::Reader,
            FocusedWindow::Reader => FocusedWindow::References,
            FocusedWindow::References => FocusedWindow::Strongs,
            FocusedWindow::Strongs => FocusedWindow::Books,
        }
    }

    /// The pane before this one.
    pub fn prev(self) -> (window: Self)
        ensures
            window == self.before(),
    {
        match self {
            FocusedWindow::Books => FocusedWindow::Strongs,
            FocusedWindow::Reader => FocusedWindow::Books,
            FocusedWindow::References => FocusedWindow::Reader,
            FocusedWindow::Strongs => FocusedWindow::References,
        }
    }
}

/// Going to the next pane and back leads to the same pane, and four steps
/// forward lead around all panes.
pub proof fn lemma_focus_goes_round(window: FocusedWindow)
    ensures
        window.after().before() == window,
        window.before().after() == window,
        window.after().after().after().after() == window,
{
}

/// What the reader's screen holds.
pub struct ScreenModel {
    pub books: BooksModel,
    pub reader: ReaderModel,
    pub references: bool,
    pub strongs: bool,
    pub focused: FocusedWindow,
}

impl ScreenModel {
    /// The screen with the focus on `window` and on no other pane.
    pub open spec fn focus(self, window: FocusedWindow) -> ScreenModel {
        ScreenModel {
            books: BooksModel { focused: window == FocusedWindow::Books, ..self.books },
            reader: ReaderModel { focused: window == FocusedWindow::Reader, ..self.reader },
            references: window == FocusedWindow::References,
            strongs: window == FocusedWindow::Strongs,
            focused: window,
        }
    }

    /// The screen after the user moved up or down: the pane with the focus
    /// takes the event, and the reader shows the book that the list selects.
    pub open spec fn moved(self, event: AppEvent) -> ScreenModel {
        match self.focused {
            FocusedWindow::Books => {
                let books = self.books.updated(event);
                ScreenModel {
                    books,
                    reader: if books.books.len() > 0 && books.selected < books.books.len() {
                        self.reader.with_book(books.books[books.selected as int])
                    } else {
                        self.reader
                    },
                    ..self
                }
            },
            FocusedWindow::Reader => ScreenModel { reader: self.reader.updated(event), ..self },
            FocusedWindow::References => ScreenModel {
                references: focus_after(self.references, event),
                ..self
            },
            FocusedWindow::Strongs => ScreenModel {
                strongs: focus_after(self.strongs, event),
                ..self
            },
        }
    }

    /// The screen after `event`. Quitting changes nothing of the screen.
    pub open spec fn updated(self, event: AppEvent) -> ScreenModel {
        match event {
            AppEvent::UserAction(UserAction::Quit) => self,
            AppEvent::UserAction(UserAction::IncrementWindow) => self.focus(self.focused.after()),
            AppEvent::UserAction(UserAction::DecrementWindow) => self.focus(self.focused.before()),
            AppEvent::UserAction(UserAction::MoveDown) => self.moved(event),
            AppEvent::UserAction(UserAction::MoveUp) => self.moved(event),
            _ => ScreenModel {
                books: self.books.updated(event),
                reader: self.reader.updated(event),
                references: focus_after(self.references, event),
                strongs: focus_after(self.strongs, event),
                focused: self.focused,
            },
        }
    }
}

/// The reader's screen: the list of books, the book, the two side panes and
/// the footer.
pub struct DefaultReader {
    pub books_view: BooksView,
    pub book_reader: BookReader,
    pub footer: LogosFooter,
    pub references: References,
    pub strongs: Strongs,
    focused: FocusedWindow,
}

impl View for DefaultReader {
    type V = ScreenModel;

    closed spec fn view(&self) -> ScreenModel {
        ScreenModel {
            books: self.books_view@,
            reader: self.book_reader@,
            references: self.references.has_focus(),
            strongs: self.strongs.has_focus(),
            focused: self.focused,
        }
    }
}

impl DefaultReader {
    /// The reader's screen for the books of `bible`, with the first book
    /// shown and the focus on the list of books. There is no such screen for
    /// a document without books.
    pub fn new(bible: Arc<Bible>) -> (screen: Option<Self>)
        ensures
            screen is Some <==> bible.index().names.len() > 0,
            screen matches Some(s) ==> s@.focused == FocusedWindow::Books && s@.books.focused
                && s@.books.books == bible.index().names && s@.books.selected == 0
                && s@.reader.book == bible.index().names[0] && !s@.reader.focused
                && !s@.references && !s@.strongs,
    {
        let names = bible.get_books();
        if names.len() == 0 {
            return None;
        }
        let mut books: Vec<String> = Vec::new();
        let mut k: usize = 0;
        while k < names.len()
            invariant
                k <= names.len(),
                books@.len() == k,
                forall|j: int| 0 <= j < k ==> (#[trigger] books@[j])@ == names@[j]@,
            decreases names.len() - k,
        {
            books.push(names[k].clone());
            k = k + 1;
        }
        proof {
            assert(crate::components::text_views(books@) =~= bible.index().names);
        }
        let first = books[0].clone();
        let book_reader = BookReader::new(bible.clone(), first);
        let mut books_view = BooksView::new(books);
        books_view.update(&AppEvent::Focus);
        Some(
            DefaultReader {
                books_view,
                book_reader,
                footer: LogosFooter::new(),
                references: References::new(),
                strongs: Strongs::new(),
                focused: FocusedWindow::Books,
            },
        )
    }

    /// The pane that has the focus.
    pub fn focused(&self) -> (window: FocusedWindow)
        ensures
            window == self@.focused,
    {
        self.focused
    }

    /// Takes the focus from every pane.
    fn defocus_all(&mut self)
        ensures
            final(self)@ == (ScreenModel {
                books: BooksModel { focused: false, ..old(self)@.books },
                reader: ReaderModel { focused: false, ..old(self)@.reader },
                references: false,
                strongs: false,
                focused: old(self)@.focused,
            }),
    {
        self.books_view.update(&AppEvent::Defocus);
        self.book_reader.update(&AppEvent::Defocus);
        self.references.update(&AppEvent::Defocus);
        self.strongs.update(&AppEvent::Defocus);
    }

    /// Gives the focus to `window` and takes it from every other pane.
    pub fn focus(&mut self, window: FocusedWindow)
        ensures
            final(self)@ == old(self)@.focus(window),
    {
        self.defocus_all();
        self.focused = window;
        match window {
            FocusedWindow::Books => {
                self.books_view.update(&AppEvent::Focus);
            },
            FocusedWindow::Reader => {
                self.book_reader.update(&AppEvent::Focus);
            },
            FocusedWindow::References => {
                self.references.update(&AppEvent::Focus);
            },
            FocusedWindow::Strongs => {
                self.strongs.update(&AppEvent::Focus);
            },
        }
    }

    /// Takes one event and says whether the user asked to quit.
    pub fn update(&mut self, event: &AppEvent) -> (quit: bool)
        ensures
            quit == (*event == AppEvent::UserAction(UserAction::Quit)),
            final(self)@ == old(self)@.updated(*event),
    {
        match event {
            AppEvent::UserAction(UserAction::Quit) => {
                return true;
            },
            AppEvent::UserAction(UserAction::IncrementWindow) => {
                self.focus(self.focused.next());
            },
            AppEvent::UserAction(UserAction::DecrementWindow) => {
                self.focus(self.focused.prev());
            },
            AppEvent::UserAction(UserAction::MoveDown) | AppEvent::UserAction(
                UserAction::MoveUp,
            ) => {
                match self.focused {
                    FocusedWindow::Books => {
                        self.books_view.update(event);
                        if self.books_view.len() > 0 && self.books_view.selected_index()
                            < self.books_view.len() {
                            self.book_reader.set_book(self.books_view.selected_book());
                        }
                    },
                    FocusedWindow::Reader => {
                        self.book_reader.update(event);
                    },
                    FocusedWindow::References => {
                        self.references.update(event);
                    },
                    FocusedWindow::Strongs => {
                        self.strongs.update(event);
                    },
                }
            },
            _ => {
                self.books_view.update(event);
                self.book_reader.update(event);
                self.references.update(event);
                self.strongs.update(event);
                self.footer.update(event);
            },
        }
        false
    }
}

/// The screen that is shown first, until the reader is opened.
pub struct Dashboard {
    pub app_data: Option<AppData>,
    pub splash: SplashScreen,
}

impl Dashboard {
    /// The dashboard before the document is there.
    pub fn new() -> (dashboard: Self)
        ensures
            dashboard.app_data is None,
    {
        Dashboard { app_data: None, splash: SplashScreen }
    }
}

/// The screen that is shown first. It goes on to the reader by itself.
pub struct StartupScreen {
    pub app_data: Option<AppData>,
    pub splash: SplashScreen,
}

impl StartupScreen {
    /// The startup screen before the document is there.
    pub fn new() -> (screen: Self)
        ensures
            screen.app_data is None,
    {
        StartupScreen { app_data: None, splash: SplashScreen }
    }
}

/// The screens of the application, and its end.
pub enum AppStateEnum {
    Dashboard(Dashboard),
    DefaultReader(DefaultReader),
    Exit,
}

/// What a screen asks of whoever runs the application.
#[derive(Clone, Copy, Debug, PartialEq, Eq, Structural)]
pub enum Demand {
    Nothing,
    /// Read the document and hand it over with `AppStateEnum::loaded`.
    Load,
}

impl AppStateEnum {
    /// The shared data of a screen that has it. The reader's screen holds the
    /// document directly and the end holds nothing.
    pub fn get_app_data(self) -> (data: Option<AppData>)
        ensures
            data is Some <==> (self matches AppStateEnum::Dashboard(d) && d.app_data is Some),
    {
        match self {
            AppStateEnum::Dashboard(dashboard) => dashboard.app_data,
            AppStateEnum::DefaultReader(_) => None,
            AppStateEnum::Exit => None,
        }
    }

    /// Hands the document to the dashboard. Every other screen stays as it
    /// is.
    pub fn loaded(self, data: AppData) -> (next: AppStateEnum)
        ensures
            match self {
                AppStateEnum::Dashboard(_) => next matches AppStateEnum::Dashboard(d)
                    && d.app_data == Some(data),
                AppStateEnum::DefaultReader(_) => next is DefaultReader,
                AppStateEnum::Exit => next is Exit,
            },
    {
        match self {
            AppStateEnum::Dashboard(dashboard) => AppStateEnum::Dashboard(
                Dashboard { app_data: Some(data), splash: dashboard.splash },
            ),
            other => other,
        }
    }

    /// Takes one event and gives the screen that comes next. On the
    /// dashboard the start of the application asks for the document, quitting
    /// ends the application, and opening the reader leads to the reader's
    /// screen once the document is there and holds a book. The reader's
    /// screen ends the application when the user quits. The end stays the
    /// end.
    pub fn update(self, event: AppEvent) -> (next: (AppStateEnum, Demand))
        ensures
            match self {
                AppStateEnum::Dashboard(d) => match event {
                    AppEvent::AppStart => next.0 is Dashboard && next.1 == Demand::Load,
                    AppEvent::UserAction(UserAction::Quit) => next.0 is Exit && next.1
                        == Demand::Nothing,
                    AppEvent::UserAction(UserAction::OpenReader) => next.1 == Demand::Nothing && (
                    next.0 is DefaultReader <==> (d.app_data matches Some(data)
                        && data.0.bible.index().names.len() > 0)) && (next.0 is DefaultReader
                        || next.0 is Dashboard),
                    _ => next.0 is Dashboard && next.1 == Demand::Nothing,
                },
                AppStateEnum::DefaultReader(r) => next.1 == Demand::Nothing && if event
                    == AppEvent::UserAction(UserAction::Quit) {
                    next.0 is Exit
                } else {
                    next.0 matches AppStateEnum::DefaultReader(s) && s@ == r@.updated(event)
                },
                AppStateEnum::Exit => next.0 is Exit && next.1 == Demand::Nothing,
            },
    {
        match self {
            AppStateEnum::Dashboard(mut dashboard) => {
                dashboard.splash.update(&event);
                match event {
                    AppEvent::AppStart => (AppStateEnum::Dashboard(dashboard), Demand::Load),
                    AppEvent::UserAction(UserAction::Quit) => (
                        AppStateEnum::Exit,
                        Demand::Nothing,
                    ),
                    AppEvent::UserAction(UserAction::OpenReader) => {
                        let opened = match &dashboard.app_data {
                            Some(data) => DefaultReader::new(data.0.bible.clone()),
                            None => None,
                        };
                        match opened {
                            Some(reader) => (AppStateEnum::DefaultReader(reader), Demand::Nothing),
                            None => (AppStateEnum::Dashboard(dashboard), Demand::Nothing),
                        }
                    },
                    _ => (AppStateEnum::Dashboard(dashboard), Demand::Nothing),
                }
            },
            AppStateEnum::DefaultReader(mut reader) => {
                if reader.update(&event) {
                    (AppStateEnum::Exit, Demand::Nothing)
                } else {
                    (AppStateEnum::DefaultReader(reader), Demand::Nothing)
                }
            },
            AppStateEnum::Exit => (AppStateEnum::Exit, Demand::Nothing),
        }
    }
}

} // verus!
