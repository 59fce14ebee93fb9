use logos::bible::Bible;
use logos::components::{BookReader, BooksView, Component, LogosFooter, References, SplashScreen, Strongs};
use logos::config::{get_translations, translation_file, VERSION};
use logos::events::{AppEvent, Key, KeyMap, UserAction, NO_MODIFIERS, SHIFT};
use logos::error::Error;
use logos::filesystem::{
    has_ending, is_xml_file, is_xml_name, is_xz_compressed_xml, is_xz_xml_name, source_by_name,
    source_of, Source,
};
use logos::state::{AppData, AppStateEnum, Dashboard, DefaultReader, Demand, FocusedWindow, StartupScreen};
use std::sync::Arc;

fn bible() -> Bible {
    let doc = [
        "<osis>",
        "<div type=\"book\"><title short=\"Genesis\">Genesis</title><chapter sID=\"1\"/><verse sID=\"1\"/>In the beginning<verse eID=\"1\"/></div>",
        "<div type=\"book\"><title short=\"Exodus\">Exodus</title><chapter sID=\"1\"/><verse sID=\"1\"/>Now these<verse eID=\"1\"/></div>",
        "<div type=\"book\"><title short=\"Acts\">Acts</title><chapter sID=\"1\"/><verse sID=\"1\"/>The former<verse eID=\"1\"/></div>",
        "</osis>",
    ]
    .concat();
    Bible::from_text("memory.xml".to_string(), doc).unwrap()
}

fn books() -> Vec<String> {
    vec!["Genesis".to_string(), "Exodus".to_string(), "Acts".to_string()]
}

fn act(action: UserAction) -> AppEvent {
    AppEvent::UserAction(action)
}

#[test]
fn keys_stand_for_actions() {
    let map = KeyMap::default();
    assert_eq!(map.get(&Key::Char('q'), NO_MODIFIERS), Some(UserAction::Quit));
    assert_eq!(map.get(&Key::Char('j'), NO_MODIFIERS), Some(UserAction::MoveDown));
    assert_eq!(map.get(&Key::Char('k'), NO_MODIFIERS), Some(UserAction::MoveUp));
    assert_eq!(map.get(&Key::Char('r'), NO_MODIFIERS), Some(UserAction::OpenReader));
    assert_eq!(map.get(&Key::Tab, NO_MODIFIERS), Some(UserAction::IncrementWindow));
    assert_eq!(map.get(&Key::BackTab, SHIFT), Some(UserAction::DecrementWindow));
    assert_eq!(map.get(&Key::Char('1'), NO_MODIFIERS), Some(UserAction::JumpToWindow(0)));
    assert_eq!(map.get(&Key::Char('5'), NO_MODIFIERS), Some(UserAction::JumpToWindow(4)));
}

#[test]
fn keys_with_other_modifiers_stand_for_nothing() {
    let map = KeyMap::default();
    assert_eq!(map.get(&Key::Char('q'), SHIFT), None);
    assert_eq!(map.get(&Key::BackTab, NO_MODIFIERS), None);
    assert_eq!(map.get(&Key::Tab, SHIFT), None);
    assert_eq!(map.get(&Key::Char('q'), 2), None);
    assert_eq!(map.get(&Key::Char('6'), NO_MODIFIERS), None);
    assert_eq!(map.get(&Key::Other, NO_MODIFIERS), None);
}

#[test]
fn the_focus_goes_round_the_panes() {
    assert_eq!(FocusedWindow::Books.next(), FocusedWindow::Reader);
    assert_eq!(FocusedWindow::Reader.next(), FocusedWindow::References);
    assert_eq!(FocusedWindow::References.next(), FocusedWindow::Strongs);
    assert_eq!(FocusedWindow::Strongs.next(), FocusedWindow::Books);
    for window in [FocusedWindow::Books, FocusedWindow::Reader, FocusedWindow::References, FocusedWindow::Strongs] {
        assert_eq!(window.next().prev(), window);
        assert_eq!(window.prev().next(), window);
    }
    assert_eq!(FocusedWindow::Books.prev(), FocusedWindow::Strongs);
}

#[test]
fn side_panes_take_and_lose_the_focus() {
    let mut references = References::new();
    assert!(!references.focused());
    references.update(&AppEvent::Focus);
    assert!(references.focused());
    references.update(&act(UserAction::MoveDown));
    assert!(references.focused());
    references.update(&AppEvent::Defocus);
    assert!(!references.focused());
    let mut strongs = Strongs::new();
    assert!(!strongs.focused());
    strongs.update(&AppEvent::Focus);
    assert!(strongs.focused());
    strongs.update(&AppEvent::AppStart);
    assert!(strongs.focused());
    strongs.update(&AppEvent::Defocus);
    assert!(!strongs.focused());
    let mut splash = SplashScreen;
    splash.update(&AppEvent::Focus);
}

#[test]
fn the_footer_names_the_application() {
    let mut footer = LogosFooter::new();
    assert_eq!(footer.left_side(), format!("   logos [{}]", VERSION));
    assert_eq!(footer.right_side(), "q: quit ");
    footer.update(&AppEvent::Focus);
    assert_eq!(footer.right_side(), "q: quit ");
}

#[test]
fn the_list_draws_each_book_behind_a_prefix() {
    assert_eq!(
        BooksView::build_all_lines(&books(), "> "),
        vec!["> Genesis".to_string(), "> Exodus".to_string(), "> Acts".to_string()]
    );
    assert!(BooksView::build_all_lines(&Vec::new(), "> ").is_empty());
    let list = BooksView::new(books());
    assert_eq!(list.line(1, false), "  Exodus");
    assert_eq!(list.line(1, true), "> Exodus");
    assert_eq!(list.len(), 3);
}

#[test]
fn the_list_selects_within_its_books() {
    let mut list = BooksView::new(books());
    assert_eq!(list.selected_book(), "Genesis");
    assert!(!list.focused());
    list.update(&act(UserAction::MoveDown));
    assert_eq!(list.selected_book(), "Genesis");
    list.update(&AppEvent::Focus);
    assert!(list.focused());
    list.update(&act(UserAction::MoveUp));
    assert_eq!(list.selected_index(), 0);
    list.update(&act(UserAction::MoveDown));
    assert_eq!(list.selected_book(), "Exodus");
    list.update(&act(UserAction::MoveDown));
    list.update(&act(UserAction::MoveDown));
    assert_eq!(list.selected_book(), "Acts");
    assert_eq!(list.selected_index(), 2);
    list.update(&act(UserAction::Quit));
    list.update(&AppEvent::Defocus);
    list.update(&act(UserAction::MoveUp));
    assert_eq!(list.selected_index(), 2);
}

#[test]
fn an_empty_list_selects_nothing() {
    let mut list = BooksView::new(Vec::new());
    list.update(&AppEvent::Focus);
    list.update(&act(UserAction::MoveDown));
    list.update(&act(UserAction::MoveUp));
    assert_eq!(list.selected_index(), 0);
    assert_eq!(list.len(), 0);
}

#[test]
fn the_list_scrolls_to_the_selected_book() {
    let names: Vec<String> = (0..10).map(|k| format!("Book {}", k)).collect();
    let mut list = BooksView::new(names);
    list.update(&AppEvent::Focus);
    for _ in 0..6 {
        list.update(&act(UserAction::MoveDown));
    }
    list.reveal_selection(4);
    assert_eq!(list.scrolled_offset(), 3);
    list.reveal_selection(4);
    assert_eq!(list.scrolled_offset(), 3);
    for _ in 0..5 {
        list.update(&act(UserAction::MoveUp));
    }
    list.reveal_selection(4);
    assert_eq!(list.scrolled_offset(), 1);
    list.reveal_selection(0);
    assert_eq!(list.scrolled_offset(), 1);
    list.reveal_selection(1);
    assert_eq!(list.scrolled_offset(), 1);
}

#[test]
fn the_reader_scrolls_with_the_focus() {
    let mut reader = BookReader::new(Arc::new(bible()), "Genesis".to_string());
    assert_eq!(reader.book(), "Genesis");
    assert_eq!(reader.num_columns(), 2);
    assert_eq!(reader.scrolled_offset(), 0);
    reader.update(&act(UserAction::MoveDown));
    assert_eq!(reader.scrolled_offset(), 0);
    reader.update(&AppEvent::Focus);
    assert!(reader.focused());
    reader.update(&act(UserAction::MoveUp));
    assert_eq!(reader.scrolled_offset(), 0);
    reader.update(&act(UserAction::MoveDown));
    reader.update(&act(UserAction::MoveDown));
    assert_eq!(reader.scrolled_offset(), 2);
    reader.update(&act(UserAction::MoveUp));
    assert_eq!(reader.scrolled_offset(), 1);
    reader.set_book("Genesis");
    assert_eq!(reader.scrolled_offset(), 1);
    reader.set_book("Exodus");
    assert_eq!(reader.book(), "Exodus");
    assert_eq!(reader.scrolled_offset(), 0);
    assert_eq!(reader.bible().get_books().len(), 3);
}

#[test]
fn a_pane_is_shared_between_its_columns() {
    assert_eq!(BookReader::chars_per_column(82, 22, 2), 800);
    assert_eq!(BookReader::chars_per_column(82, 22, 3), 520);
    assert_eq!(BookReader::chars_per_column(82, 22, 0), 1600);
    assert_eq!(BookReader::chars_per_column(1, 22, 2), 0);
    assert_eq!(BookReader::chars_per_column(82, 2, 2), 0);
    assert_eq!(BookReader::chars_per_column(u16::MAX, u16::MAX, 1), 65533 * 65533);
}

#[test]
fn a_scrolled_page_is_drawn_as_two_rows() {
    assert_eq!(BookReader::layout_rows(20, 0), None);
    assert_eq!(BookReader::layout_rows(20, 40), None);
    assert_eq!(BookReader::layout_rows(20, 1), Some((17, 1)));
    assert_eq!(BookReader::layout_rows(20, 5), Some((13, 5)));
    assert_eq!(BookReader::layout_rows(20, 19), Some((0, 18)));
    assert_eq!(BookReader::layout_rows(20, 25), Some((13, 5)));
    assert_eq!(BookReader::layout_rows(0, 3), None);
    assert_eq!(BookReader::layout_rows(1, 3), None);
    assert_eq!(BookReader::layout_rows(2, 3), Some((0, 0)));
}

#[test]
fn the_screen_moves_the_focus() {
    let mut screen = DefaultReader::new(Arc::new(bible())).unwrap();
    assert_eq!(screen.focused(), FocusedWindow::Books);
    assert!(screen.books_view.focused());
    assert!(!screen.update(&act(UserAction::IncrementWindow)));
    assert_eq!(screen.focused(), FocusedWindow::Reader);
    assert!(!screen.books_view.focused());
    assert!(screen.book_reader.focused());
    screen.update(&act(UserAction::IncrementWindow));
    assert!(screen.references.focused());
    assert!(!screen.book_reader.focused());
    screen.update(&act(UserAction::IncrementWindow));
    assert!(screen.strongs.focused());
    screen.update(&act(UserAction::IncrementWindow));
    assert!(screen.books_view.focused());
    assert!(!screen.strongs.focused());
    screen.update(&act(UserAction::DecrementWindow));
    assert_eq!(screen.focused(), FocusedWindow::Strongs);
    screen.focus(FocusedWindow::Reader);
    assert!(screen.book_reader.focused());
    assert!(!screen.strongs.focused());
}

#[test]
fn the_screen_shows_the_selected_book() {
    let mut screen = DefaultReader::new(Arc::new(bible())).unwrap();
    assert_eq!(screen.book_reader.book(), "Genesis");
    screen.update(&act(UserAction::MoveDown));
    assert_eq!(screen.books_view.selected_book(), "Exodus");
    assert_eq!(screen.book_reader.book(), "Exodus");
    screen.update(&act(UserAction::IncrementWindow));
    screen.update(&act(UserAction::MoveDown));
    assert_eq!(screen.book_reader.scrolled_offset(), 1);
    assert_eq!(screen.books_view.selected_book(), "Exodus");
    assert!(screen.update(&act(UserAction::Quit)));
    assert!(!screen.update(&act(UserAction::JumpToWindow(2))));
    assert_eq!(screen.focused(), FocusedWindow::Reader);
}

#[test]
fn there_is_no_screen_for_a_document_without_books() {
    let empty = Bible::from_text(String::new(), "<osis/>".to_string()).unwrap();
    assert!(DefaultReader::new(Arc::new(empty)).is_none());
}

#[test]
fn the_dashboard_asks_for_the_document_and_opens_the_reader() {
    let state = AppStateEnum::Dashboard(Dashboard::new());
    let (state, demand) = state.update(AppEvent::AppStart);
    assert_eq!(demand, Demand::Load);
    assert!(matches!(state, AppStateEnum::Dashboard(_)));
    let (state, demand) = state.update(act(UserAction::OpenReader));
    assert_eq!(demand, Demand::Nothing);
    assert!(matches!(state, AppStateEnum::Dashboard(_)));
    let state = state.loaded(AppData::new(bible()));
    let (state, _) = state.update(act(UserAction::MoveDown));
    assert!(matches!(state, AppStateEnum::Dashboard(_)));
    let (state, demand) = state.update(act(UserAction::OpenReader));
    assert_eq!(demand, Demand::Nothing);
    assert!(matches!(state, AppStateEnum::DefaultReader(_)));
    let (state, _) = state.update(act(UserAction::MoveDown));
    match &state {
        AppStateEnum::DefaultReader(screen) => assert_eq!(screen.book_reader.book(), "Exodus"),
        _ => panic!("the reader was left"),
    }
    let (state, _) = state.update(act(UserAction::Quit));
    assert!(matches!(state, AppStateEnum::Exit));
    let (state, demand) = state.update(AppEvent::AppStart);
    assert!(matches!(state, AppStateEnum::Exit));
    assert_eq!(demand, Demand::Nothing);
}

#[test]
fn the_dashboard_quits() {
    let (state, _) = AppStateEnum::Dashboard(Dashboard::new()).update(act(UserAction::Quit));
    assert!(matches!(state, AppStateEnum::Exit));
    assert!(state.get_app_data().is_none());
    let state = AppStateEnum::Dashboard(Dashboard::new()).loaded(AppData::new(bible()));
    let data = state.get_app_data().unwrap();
    assert_eq!(data.bible().get_books().len(), 3);
    assert!(StartupScreen::new().app_data.is_none());
}

#[test]
fn files_are_told_by_their_names() {
    assert!(is_xml_file("assets/eng-kjv.osis.xml"));
    assert!(!is_xml_file("assets/eng-kjv.osis.xml.xz"));
    assert!(!is_xml_file("assets/xml"));
    assert!(!is_xml_file("assets/eng.XML"));
    assert!(is_xz_compressed_xml("assets/eng-kjv.osis.xml.xz"));
    assert!(is_xz_compressed_xml("notxml.xz"));
    assert!(!is_xz_compressed_xml("assets/eng-kjv.osis.xml"));
    assert!(!is_xz_compressed_xml("archive.tar.xz"));
    assert!(!is_xz_compressed_xml(".xz"));
}

#[test]
fn names_are_told_by_their_parts() {
    let some = |text: &str| Some(text.to_string());
    assert!(is_xml_name(&some("xml")));
    assert!(!is_xml_name(&some("xz")));
    assert!(!is_xml_name(&None));
    assert!(is_xz_xml_name(&some("xz"), &some("bible.xml")));
    assert!(is_xz_xml_name(&some("xz"), &some("xml")));
    assert!(!is_xz_xml_name(&some("xz"), &some("ml")));
    assert!(!is_xz_xml_name(&some("xz"), &None));
    assert!(!is_xz_xml_name(&some("gz"), &some("bible.xml")));
    assert!(!is_xz_xml_name(&None, &some("bible.xml")));
    assert!(has_ending("bible.xml", "xml"));
    assert!(has_ending("xml", ""));
    assert!(!has_ending("bible.xml", "bible"));
    assert!(!has_ending("ml", "xml"));
}

#[test]
fn one_translation_is_known() {
    let translations = get_translations();
    assert_eq!(translations, vec![("KJV".to_string(), "assets/eng-kjv.osis.xml.xz".to_string())]);
    assert_eq!(translation_file("KJV").unwrap(), "assets/eng-kjv.osis.xml.xz");
    assert!(matches!(
        translation_file("KVJ"),
        Err(Error::UnsupprtedTranslation(name)) if name == "KVJ"
    ));
}

#[test]
fn a_file_that_is_no_markup_is_no_file_for_a_document() {
    assert_eq!(source_of("assets/eng-kjv.osis.xml.xz").unwrap(), Source::Compressed);
    assert_eq!(source_of("assets/eng-kjv.osis.xml").unwrap(), Source::Plain);
    assert!(matches!(source_of("assets/eng-kjv.osis.txt"), Err(Error::InvalidBibleFile)));
    assert!(matches!(source_of("archive.tar.xz"), Err(Error::InvalidBibleFile)));
    assert!(matches!(source_of(""), Err(Error::InvalidBibleFile)));
    let some = |text: &str| Some(text.to_string());
    assert_eq!(source_by_name(&some("xz"), &some("a.xml")).unwrap(), Source::Compressed);
    assert_eq!(source_by_name(&some("xml"), &some("a")).unwrap(), Source::Plain);
    assert!(matches!(source_by_name(&None, &some("xml")), Err(Error::InvalidBibleFile)));
}

#[test]
fn a_document_remembers_where_it_came_from() {
    let bible = bible();
    assert_eq!(bible.disk_file(), "memory.xml");
    assert_eq!(bible.translation(), "KJV");
}

#[test]
fn a_path_taken_for_markup_holds_its_extension() {
    let paths = [
        "a.xml",
        "a.xml.xz",
        "xml.xz",
        "dir.xml/file",
        "dir.xz/file.xml",
        "file.xml/",
        "file.xml.xz/.",
        ".xml",
        ".xz",
        "xml",
        "a.b.xml.c",
        "",
        "..",
        "a.xz",
    ];
    for path in paths {
        if is_xml_file(path) {
            assert!(path.contains(".xml"), "{}", path);
        }
        if is_xz_compressed_xml(path) {
            assert!(path.contains(".xz") && path.contains("xml"), "{}", path);
        }
        match source_of(path) {
            Ok(Source::Plain) => assert!(is_xml_file(path) && !is_xz_compressed_xml(path)),
            Ok(Source::Compressed) => assert!(is_xz_compressed_xml(path)),
            Err(error) => {
                assert!(matches!(error, Error::InvalidBibleFile));
                assert!(!is_xml_file(path) && !is_xz_compressed_xml(path));
            }
        }
    }
    assert!(is_xml_file("dir.xz/file.xml"));
    assert!(!is_xml_file("dir.xml/file"));
    assert!(is_xz_compressed_xml("a.xml.xz"));
}
