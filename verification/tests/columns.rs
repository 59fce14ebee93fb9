use logos::bible::Bible;
use logos::book_column::{
    chapter_texts, count_digits, Column, ColumnChapter, ColumnVerse, Filled, Style, TextSpan,
    VerseText,
};
use logos::components::BookReader;
use logos::error::Error;
use logos::plain::{decimal_text, digit_text, normalize};
use logos::wordwrap::{place_word, words_of};

fn doc() -> String {
    [
        "<osis><osisText>",
        "<div type=\"book\" osisID=\"Gen\"><title type=\"main\" short=\"Genesis\">The First Book</title>",
        "<chapter osisID=\"Gen.1\" sID=\"Gen.1\"/>",
        "<verse osisID=\"Gen.1.1\" sID=\"Gen.1.1\"/>In the beginning<verse eID=\"Gen.1.1\"/>",
        "<verse osisID=\"Gen.1.2\" sID=\"Gen.1.2\"/>was the Word<verse eID=\"Gen.1.2\"/>",
        "<chapter eID=\"Gen.1\"/>",
        "<chapter osisID=\"Gen.2\" sID=\"Gen.2\"/>",
        "<verse osisID=\"Gen.2.1\" sID=\"Gen.2.1\"/>Thus the<note>n</note>heavens<verse eID=\"Gen.2.1\"/>",
        "<chapter eID=\"Gen.2\"/>",
        "</div>",
        "</osisText></osis>",
    ]
    .concat()
}

fn bible() -> Bible {
    Bible::from_text("memory.xml".to_string(), doc()).unwrap()
}

fn verse(show_number: bool, number: usize, text: &str) -> ColumnVerse {
    ColumnVerse { show_number, number, text: text.to_string() }
}

fn shown(verse: &ColumnVerse) -> (bool, usize, String) {
    (verse.show_number, verse.number, verse.text.clone())
}

fn chapter_shown(chapter: &ColumnChapter) -> (bool, usize, Vec<(bool, usize, String)>) {
    (chapter.show_heading, chapter.number, chapter.verses.iter().map(shown).collect())
}

fn column_shown(column: &Column) -> (usize, usize, Vec<(bool, usize, Vec<(bool, usize, String)>)>) {
    (column.width, column.height, column.chapters.iter().map(chapter_shown).collect())
}

fn texts(verses: &[(usize, &str)]) -> Vec<VerseText> {
    verses.iter().map(|(number, text)| VerseText { number: *number, text: text.to_string() }).collect()
}

fn words(column: &Column) -> Vec<String> {
    column
        .chapters
        .iter()
        .flat_map(|c| c.verses.iter())
        .flat_map(|v| v.text.split_whitespace().map(|w| w.to_string()))
        .collect()
}

#[test]
fn digits_are_counted() {
    assert_eq!(count_digits(0), 1);
    assert_eq!(count_digits(9), 1);
    assert_eq!(count_digits(10), 2);
    assert_eq!(count_digits(999), 3);
    assert_eq!(count_digits(1000), 4);
    assert_eq!(count_digits(usize::MAX), usize::MAX.to_string().len());
}

#[test]
fn a_number_takes_its_digits_where_it_is_shown() {
    assert_eq!(verse(true, 1, "x").get_number_consumption(), 1);
    assert_eq!(verse(true, 10, "x").get_number_consumption(), 2);
    assert_eq!(verse(true, 119, "x").get_number_consumption(), 3);
    assert_eq!(verse(true, 0, "x").get_number_consumption(), 1);
    assert_eq!(verse(false, 119, "x").get_number_consumption(), 0);
}

#[test]
fn a_new_verse_drops_leading_white_space() {
    assert_eq!(shown(&ColumnVerse::new(true, 3, "  \tIn the  ")), (true, 3, "In the  ".to_string()));
    assert_eq!(shown(&ColumnVerse::new(false, 4, "In")), (false, 4, "In".to_string()));
    assert_eq!(shown(&ColumnVerse::new(false, 4, " \n ")), (false, 4, String::new()));
    assert_eq!(shown(&ColumnVerse::new(true, 1, "\u{a0}\u{e9}")), (true, 1, "\u{e9}".to_string()));
}

#[test]
fn a_verse_costs_what_wrapping_its_words_costs() {
    let v = verse(true, 1, "In the beginning");
    assert_eq!(v.consumed_chars(10, 0), 19);
    assert_eq!(v.consumed_chars(20, 0), 18);
    assert_eq!(v.consumed_chars(20, 5), 24);
    assert_eq!(v.checked_cost(10, 0), Some(19));
    assert_eq!(verse(true, 12, "a").consumed_chars(10, 0), 4);
    assert_eq!(verse(false, 12, "a").consumed_chars(10, 0), 2);
    assert_eq!(verse(false, 3, "ab").consumed_chars(5, 9), 2);
    assert_eq!(verse(true, 42, "").consumed_chars(10, 0), 2);
    assert_eq!(verse(false, 42, " ").consumed_chars(10, 0), 0);
}

#[test]
fn white_space_between_words_costs_nothing_more() {
    assert_eq!(
        verse(true, 1, "In   the \n beginning ").consumed_chars(10, 0),
        verse(true, 1, "In the beginning").consumed_chars(10, 0)
    );
}

#[test]
fn a_word_longer_than_the_line_is_counted_whole() {
    assert_eq!(verse(false, 1, "abcdefghijkl").consumed_chars(5, 0), 17);
    assert_eq!(verse(false, 1, "abcdefghijkl mn").consumed_chars(5, 0), 19);
}

#[test]
fn regions_list_the_lines_of_a_verse() {
    let v = verse(true, 1, "In the beginning");
    assert_eq!(v.get_consumption_regions(10, 0), vec![(10, 6), (9, 10)]);
    assert_eq!(v.get_consumption_regions(20, 0), vec![(18, 16)]);
    assert_eq!(verse(true, 7, "").get_consumption_regions(10, 0), vec![(1, 0)]);
    let cells: usize = v.get_consumption_regions(10, 0).iter().map(|r| r.0).sum();
    assert_eq!(cells, v.consumed_chars(10, 0));
}

#[test]
fn a_verse_is_split_between_two_words() {
    let (first, second) = verse(true, 1, "In the beginning").split(10, 0, 10);
    assert_eq!(shown(&first), (true, 1, "In the".to_string()));
    assert_eq!(shown(&second.unwrap()), (false, 1, "beginning".to_string()));
    let (first, second) = verse(true, 1, "In the beginning").split(10, 0, 7);
    assert_eq!(shown(&first), (true, 1, "In".to_string()));
    assert_eq!(shown(&second.unwrap()), (false, 1, "the beginning".to_string()));
}

#[test]
fn a_verse_that_fits_is_not_split() {
    let (first, second) = verse(true, 1, "In the beginning").split(10, 0, 19);
    assert_eq!(shown(&first), (true, 1, "In the beginning".to_string()));
    assert!(second.is_none());
    let (first, second) = verse(true, 1, "In the beginning  ").split(10, 0, 100);
    assert_eq!(shown(&first), (true, 1, "In the beginning".to_string()));
    assert!(second.is_none());
}

#[test]
fn a_verse_of_which_no_word_fits_is_carried_on_whole() {
    let (first, second) = verse(true, 1, "In the beginning").split(10, 0, 3);
    assert_eq!(shown(&first), (true, 1, String::new()));
    assert_eq!(shown(&second.unwrap()), (false, 1, "In the beginning".to_string()));
    let (first, second) = verse(true, 1, "In the beginning").split(10, 0, 0);
    assert_eq!(shown(&first), (true, 1, String::new()));
    assert_eq!(shown(&second.unwrap()), (false, 1, "In the beginning".to_string()));
}

#[test]
fn a_split_keeps_the_white_space_of_its_parts() {
    let (first, second) = verse(false, 7, "  a   b  ").split(10, 0, 2);
    assert_eq!(shown(&first), (false, 7, "  a".to_string()));
    assert_eq!(shown(&second.unwrap()), (false, 7, "b  ".to_string()));
}

#[test]
fn a_split_never_breaks_a_word() {
    let text = "For God so loved the world that he gave his only begotten Son";
    let all: Vec<&str> = text.split_whitespace().collect();
    for width in 1..24 {
        for budget in 0..90 {
            let (first, second) = verse(true, 16, text).split(width, 0, budget);
            let mut found: Vec<String> =
                first.text.split_whitespace().map(|w| w.to_string()).collect();
            if let Some(second) = &second {
                assert!(!second.show_number);
                assert!(!second.text.is_empty());
                found.extend(second.text.split_whitespace().map(|w| w.to_string()));
            }
            assert_eq!(found, all, "width {} budget {}", width, budget);
            assert_eq!(first.text.trim_end(), first.text);
            if !first.text.is_empty() {
                assert!(first.consumed_chars(width, 0) <= budget);
            }
        }
    }
}

#[test]
fn a_split_keeps_the_cost() {
    let whole = verse(true, 1, "In the beginning");
    let (first, second) = verse(true, 1, "In the beginning").split(10, 0, 10);
    assert_eq!(first.consumed_chars(10, 0), 8);
    assert_eq!(second.unwrap().consumed_chars(10, 8), 11);
    assert_eq!(whole.consumed_chars(10, 0), 8 + 11);
}

#[test]
fn a_split_keeps_the_cost_for_every_budget() {
    let text = "For God so loved the world that he gave his only begotten Son";
    for width in 1usize..24 {
        let cost = verse(true, 16, text).consumed_chars(width, 0);
        for budget in 0..90 {
            let (first, second) = verse(true, 16, text).split(width, 0, budget);
            let mut cursor = (2usize, width.saturating_sub(2));
            for word in words_of(&first.text) {
                cursor = place_word(cursor.0, cursor.1, word.bytes, width).unwrap();
            }
            assert_eq!(cursor.0, first.consumed_chars(width, 0));
            match second {
                Some(second) => {
                    let rest = second.consumed_chars(width, width - cursor.1);
                    assert_eq!(cursor.0 + rest, cost, "width {} budget {}", width, budget);
                    assert!(cost > budget);
                }
                None => assert_eq!(cursor.0, cost),
            }
        }
    }
}

#[test]
fn a_chapter_costs_its_heading_its_verses_and_the_rest_of_the_line() {
    let chapter = ColumnChapter {
        show_heading: true,
        number: 1,
        verses: vec![verse(true, 1, "In the beginning"), verse(true, 2, "was the Word")],
    };
    assert_eq!(chapter.consumed_chars(10), 50);
    let resumed = ColumnChapter {
        show_heading: false,
        number: 1,
        verses: vec![verse(true, 1, "In the beginning"), verse(true, 2, "was the Word")],
    };
    assert_eq!(resumed.consumed_chars(10), 40);
    assert_eq!(resumed.consumed_chars(0), 26);
    let bare = ColumnChapter { show_heading: true, number: 4, verses: Vec::new() };
    assert_eq!(bare.consumed_chars(10), 10);
    let even = ColumnChapter { show_heading: false, number: 4, verses: vec![verse(false, 1, "abcd")] };
    assert_eq!(even.consumed_chars(5), 5);
}

#[test]
fn a_chapter_is_split_at_the_verse_that_does_not_fit() {
    let chapter = ColumnChapter {
        show_heading: true,
        number: 1,
        verses: vec![verse(true, 1, "In the beginning"), verse(true, 2, "was the Word")],
    };
    let (first, second) = chapter.split(10, 30);
    assert_eq!(
        chapter_shown(&first),
        (true, 1, vec![(true, 1, "In the beginning".to_string()), (true, 2, String::new())])
    );
    assert_eq!(
        chapter_shown(&second.unwrap()),
        (false, 1, vec![(false, 2, "was the Word".to_string())])
    );
}

#[test]
fn a_chapter_split_carries_the_verses_behind_the_split() {
    let chapter = ColumnChapter {
        show_heading: true,
        number: 3,
        verses: vec![
            verse(true, 1, "In the beginning"),
            verse(true, 2, "was the Word"),
            verse(true, 3, "and the Word"),
        ],
    };
    let (first, second) = chapter.split(10, 18);
    assert_eq!(chapter_shown(&first), (true, 3, vec![(true, 1, "In the".to_string())]));
    assert_eq!(
        chapter_shown(&second.unwrap()),
        (
            false,
            3,
            vec![
                (false, 1, "beginning".to_string()),
                (true, 2, "was the Word".to_string()),
                (true, 3, "and the Word".to_string()),
            ]
        )
    );
}

#[test]
fn a_chapter_that_fits_is_not_split() {
    let chapter = ColumnChapter {
        show_heading: false,
        number: 1,
        verses: vec![verse(true, 1, "In the beginning"), verse(true, 2, "was the Word")],
    };
    let (first, second) = chapter.split(10, 33);
    assert_eq!(first.verses.len(), 2);
    assert!(!first.show_heading);
    assert!(second.is_none());
    let (first, second) = ColumnChapter { show_heading: true, number: 2, verses: Vec::new() }.split(10, 0);
    assert_eq!(chapter_shown(&first), (true, 2, Vec::new()));
    assert!(second.is_none());
}

#[test]
fn a_column_costs_its_chapters_and_the_lines_between_them() {
    let column = Column {
        width: 10,
        height: 5,
        chapters: vec![
            ColumnChapter { show_heading: true, number: 1, verses: vec![verse(true, 1, "In the beginning")] },
            ColumnChapter { show_heading: true, number: 2, verses: vec![verse(true, 2, "was the Word")] },
        ],
    };
    assert_eq!(column.chars_consumed(), 70);
    let resumed = Column {
        width: 10,
        height: 5,
        chapters: vec![
            ColumnChapter { show_heading: true, number: 1, verses: vec![verse(true, 1, "In the beginning")] },
            ColumnChapter { show_heading: false, number: 2, verses: vec![verse(true, 2, "was the Word")] },
        ],
    };
    assert_eq!(resumed.chars_consumed(), 50);
    assert_eq!(Column::new(10, 5).chars_consumed(), 0);
    assert_eq!(column_shown(&Column::new(7, 3)), (7, 3, Vec::new()));
}

#[test]
fn heading_and_a_split_verse_fill_a_column_of_twenty_cells() {
    let mut column = Column::new(10, 2);
    let filled = column.push_chapter(
        10,
        2,
        20,
        1,
        texts(&[(1, "In the beginning"), (2, "was the Word")]),
    );
    assert_eq!(column_shown(&column), (10, 2, vec![(true, 1, vec![(true, 1, "In the".to_string())])]));
    assert_eq!(column.chars_consumed(), 20);
    match filled {
        Filled::Split(Some(rest)) => {
            assert_eq!(
                column_shown(&rest),
                (10, 2, vec![(false, 1, vec![(false, 1, "beginning".to_string())])])
            );
        }
        other => panic!("the verse was not split: {:?}", other),
    }
}

#[test]
fn a_chapter_is_not_begun_without_room_for_its_heading() {
    let mut column = Column::new(10, 2);
    assert!(matches!(column.push_chapter(10, 2, 10, 1, texts(&[(1, "In")])), Filled::Full));
    assert!(matches!(column.push_chapter(10, 2, 0, 1, texts(&[(1, "In")])), Filled::Full));
    assert!(column.chapters.is_empty());
    assert!(matches!(column.push_chapter(10, 2, 11, 1, texts(&[(1, "")])), Filled::More(0)));
    assert_eq!(column.chapters.len(), 1);
    assert!(matches!(column.push_chapter(10, 2, 20, 2, texts(&[(1, "In")])), Filled::Full));
    assert!(matches!(column.push_chapter(10, 2, 21, 2, Vec::new()), Filled::More(0)));
    assert_eq!(column.chapters.len(), 2);
}

#[test]
fn whole_chapters_leave_what_they_did_not_take() {
    let mut column = Column::new(20, 10);
    let filled = column.push_chapter(
        20,
        10,
        200,
        1,
        texts(&[(1, "In the beginning"), (2, "was the Word")]),
    );
    assert!(matches!(filled, Filled::More(128)));
    let filled = column.push_chapter(20, 10, 128, 2, texts(&[(1, "Thus the heavens")]));
    assert!(matches!(filled, Filled::More(50)));
    assert_eq!(column.chapters.len(), 2);
    assert_eq!(column.chars_consumed(), 120);
}

#[test]
fn a_verse_whose_number_does_not_fit_is_not_begun() {
    let mut column = Column::new(10, 3);
    let filled = column.push_chapter(10, 3, 25, 1, texts(&[(1, "aaaa bbbb"), (12, "cc")]));
    assert_eq!(
        column_shown(&column),
        (10, 3, vec![(true, 1, vec![(true, 1, "aaaa bbbb".to_string())])])
    );
    match filled {
        Filled::Split(Some(rest)) => {
            assert_eq!(column_shown(&rest), (10, 3, vec![(false, 1, vec![(true, 12, "cc".to_string())])]));
        }
        other => panic!("the verse was not carried on: {:?}", other),
    }
    assert!(column.chars_consumed() <= 30);
}

#[test]
fn a_repeated_number_is_not_shown_again() {
    let mut column = Column::new(20, 10);
    column.push_chapter(20, 10, 200, 1, texts(&[(3, "a"), (3, "b"), (4, "c"), (0, "d")]));
    let flags: Vec<bool> = column.chapters[0].verses.iter().map(|v| v.show_number).collect();
    assert_eq!(flags, vec![true, false, true, true]);
    let mut column = Column::new(20, 10);
    column.push_chapter(20, 10, 200, 1, texts(&[(0, "a")]));
    assert!(!column.chapters[0].verses[0].show_number);
}

#[test]
fn chapters_are_read_out_of_the_document() {
    let bible = bible();
    let chapter = bible.get_chapter_index("Genesis", 2).unwrap();
    let verses = chapter_texts(&bible, chapter);
    assert_eq!(verses.len(), 1);
    assert_eq!(verses[0].number, 1);
    assert_eq!(verses[0].text, "Thus the n heavens");
    let chapter = bible.get_chapter_index("Genesis", 1).unwrap();
    let numbers: Vec<usize> = chapter_texts(&bible, chapter).iter().map(|v| v.number).collect();
    assert_eq!(numbers, vec![1, 2]);
}

#[test]
fn a_column_is_built_from_a_book() {
    let bible = bible();
    let (column, rest) = Column::from(10, 2, &bible, "Genesis", 1, None).unwrap();
    assert_eq!(column_shown(&column), (10, 2, vec![(true, 1, vec![(true, 1, "In the".to_string())])]));
    assert_eq!(
        column_shown(&rest.unwrap()),
        (10, 2, vec![(false, 1, vec![(false, 1, "beginning".to_string())])])
    );
}

#[test]
fn a_large_column_takes_the_whole_book() {
    let bible = bible();
    let (column, rest) = Column::from(20, 10, &bible, "Genesis", 1, None).unwrap();
    assert!(rest.is_none());
    assert_eq!(
        column_shown(&column),
        (
            20,
            10,
            vec![
                (
                    true,
                    1,
                    vec![
                        (true, 1, "In the beginning".to_string()),
                        (true, 2, "was the Word".to_string()),
                    ]
                ),
                (true, 2, vec![(true, 1, "Thus the n heavens".to_string())]),
            ]
        )
    );
    assert_eq!(column.chars_consumed(), 120);
}

#[test]
fn a_column_begins_with_what_was_carried_on() {
    let bible = bible();
    let (_, rest) = Column::from(10, 2, &bible, "Genesis", 1, None).unwrap();
    let (column, rest) = Column::from(10, 2, &bible, "Genesis", 2, rest).unwrap();
    assert!(rest.is_none());
    assert_eq!(
        column_shown(&column),
        (10, 2, vec![(false, 1, vec![(false, 1, "beginning".to_string())])])
    );
    let (_, rest) = Column::from(10, 2, &bible, "Genesis", 1, None).unwrap();
    let (column, rest) = Column::from(10, 4, &bible, "Genesis", 2, rest).unwrap();
    assert_eq!(
        column_shown(&column),
        (
            10,
            2,
            vec![
                (false, 1, vec![(false, 1, "beginning".to_string())]),
                (true, 2, vec![(true, 1, "Thus the".to_string())]),
            ]
        )
    );
    assert_eq!(
        column_shown(&rest.unwrap()),
        (10, 4, vec![(false, 2, vec![(false, 1, "n heavens".to_string())])])
    );
}

#[test]
fn a_column_behind_the_last_chapter_holds_the_carry_alone() {
    let bible = bible();
    let (column, rest) = Column::from(10, 2, &bible, "Genesis", 3, None).unwrap();
    assert!(rest.is_none());
    assert!(column.chapters.is_empty());
    let carry = Column {
        width: 10,
        height: 2,
        chapters: vec![ColumnChapter { show_heading: false, number: 2, verses: vec![verse(false, 1, "heavens")] }],
    };
    let (column, rest) = Column::from(10, 2, &bible, "Genesis", 9, Some(carry)).unwrap();
    assert!(rest.is_none());
    assert_eq!(column_shown(&column), (10, 2, vec![(false, 2, vec![(false, 1, "heavens".to_string())])]));
}

#[test]
fn a_column_of_no_cells_holds_nothing() {
    let bible = bible();
    for (width, height) in [(0, 0), (0, 5), (5, 0)] {
        let (column, rest) = Column::from(width, height, &bible, "Genesis", 1, None).unwrap();
        assert!(column.chapters.is_empty());
        assert!(rest.is_none());
    }
}

#[test]
fn a_carry_that_is_too_large_stays_alone() {
    let bible = bible();
    let carry = Column {
        width: 10,
        height: 2,
        chapters: vec![ColumnChapter {
            show_heading: false,
            number: 1,
            verses: vec![verse(false, 1, "one two three four five six seven eight nine ten")],
        }],
    };
    let (column, rest) = Column::from(10, 2, &bible, "Genesis", 2, Some(carry)).unwrap();
    assert!(rest.is_none());
    assert_eq!(column.chapters.len(), 1);
    assert!(column.chars_consumed() > 20);
}

#[test]
fn an_unknown_book_is_not_paged() {
    let bible = bible();
    assert!(matches!(
        Column::from(10, 2, &bible, "Nope", 1, None),
        Err(Error::BookNotFound(name)) if name == "Nope"
    ));
    assert!(matches!(Column::from(10, 2, &bible, "Nope", 0, None), Err(Error::BookNotFound(_))));
}

#[test]
fn chapter_zero_is_not_paged() {
    let bible = bible();
    assert!(matches!(
        Column::from(10, 2, &bible, "Genesis", 0, None),
        Err(Error::ChapterNotFound(name, 0)) if name == "Genesis"
    ));
}

#[test]
fn a_column_never_takes_more_cells_than_it_has() {
    let bible = bible();
    for width in 0..40 {
        for height in 0..8 {
            for start in 1..4 {
                let (column, rest) = Column::from(width, height, &bible, "Genesis", start, None).unwrap();
                assert!(column.chars_consumed() <= width * height, "{} by {}", width, height);
                if let Some(rest) = rest {
                    if rest.chars_consumed() <= width * height {
                        let (next, _) = Column::from(width, height, &bible, "Genesis", start + 1, Some(rest)).unwrap();
                        assert!(next.chars_consumed() <= width * height, "{} by {}", width, height);
                    }
                }
            }
        }
    }
}

#[test]
fn building_twice_gives_the_same_column() {
    let bible = bible();
    for (width, height) in [(10, 2), (10, 4), (20, 10), (7, 3), (1, 1)] {
        let carry = || {
            Some(Column {
                width,
                height,
                chapters: vec![ColumnChapter { show_heading: false, number: 1, verses: vec![verse(false, 2, "Word")] }],
            })
        };
        let once = Column::from(width, height, &bible, "Genesis", 1, None).unwrap();
        let again = Column::from(width, height, &bible, "Genesis", 1, None).unwrap();
        assert_eq!(format!("{:?}", once), format!("{:?}", again));
        let once = Column::from(width, height, &bible, "Genesis", 2, carry()).unwrap();
        let again = Column::from(width, height, &bible, "Genesis", 2, carry()).unwrap();
        assert_eq!(format!("{:?}", once), format!("{:?}", again));
    }
}

#[test]
fn a_column_and_its_carry_hold_the_words_in_order() {
    let bible = bible();
    let book: Vec<String> = ["In", "the", "beginning", "was", "the", "Word", "Thus", "the", "n", "heavens"]
        .iter()
        .map(|w| w.to_string())
        .collect();
    for width in 1..30 {
        for height in 1..8 {
            let (column, rest) = Column::from(width, height, &bible, "Genesis", 1, None).unwrap();
            let mut found = words(&column);
            if let Some(rest) = &rest {
                found.extend(words(rest));
            }
            assert_eq!(found[..], book[..found.len()], "{} by {}", width, height);
        }
    }
}

#[test]
fn a_carry_ends_a_verse_in_the_next_column() {
    let bible = bible();
    let (first, rest) = Column::from(12, 2, &bible, "Genesis", 2, None).unwrap();
    assert_eq!(words(&first), vec!["Thus", "the", "n", "heavens"][..3].iter().map(|w| w.to_string()).collect::<Vec<_>>());
    let rest = rest.unwrap();
    assert_eq!(rest.chapters[0].number, 2);
    let (second, rest) = Column::from(12, 2, &bible, "Genesis", 3, Some(rest)).unwrap();
    assert!(rest.is_none());
    assert_eq!(words(&second), vec!["heavens".to_string()]);
    assert!(!second.chapters[0].show_heading);
    assert!(!second.chapters[0].verses[0].show_number);
}

fn run(limit: usize) -> Vec<(String, String)> {
    BookReader::column_text(&bible(), "Genesis", limit)
}

fn pair(number: &str, text: &str) -> (String, String) {
    (number.to_string(), text.to_string())
}

#[test]
fn a_book_reads_as_one_run_of_numbered_verses() {
    assert_eq!(
        run(1000),
        vec![
            pair("1 ", "In the beginning "),
            pair("2 ", "was the Word "),
            pair("1 ", "Thus the n heavens "),
        ]
    );
}

#[test]
fn a_run_ends_with_the_verse_that_reaches_the_limit() {
    assert_eq!(run(0), vec![pair("1 ", "In the beginning ")]);
    assert_eq!(run(19), vec![pair("1 ", "In the beginning ")]);
    assert_eq!(run(20).len(), 2);
    assert_eq!(run(34).len(), 2);
    assert_eq!(run(35).len(), 3);
    assert!(BookReader::column_text(&bible(), "Nope", 100).is_empty());
}

#[test]
fn numbers_are_written_in_decimal() {
    assert_eq!(decimal_text(0), "0");
    assert_eq!(decimal_text(7), "7");
    assert_eq!(decimal_text(10), "10");
    assert_eq!(decimal_text(1904), "1904");
    assert_eq!(decimal_text(usize::MAX), usize::MAX.to_string());
    for d in 0..10 {
        assert_eq!(digit_text(d), d.to_string());
    }
}

#[test]
fn white_space_is_made_plain() {
    assert_eq!(normalize("  In   the\nbeginning "), "In the beginning");
    assert_eq!(normalize("one"), "one");
    assert_eq!(normalize(" \t "), "");
    assert_eq!(normalize(""), "");
    assert_eq!(normalize("caf\u{e9}\u{a0}au lait"), "caf\u{e9} au lait");
}

fn looks(lines: &[Vec<TextSpan>]) -> Vec<Vec<(Style, String)>> {
    lines.iter().map(|line| line.iter().map(|s| (s.style, s.text.clone())).collect()).collect()
}

#[test]
fn a_column_is_handed_out_as_lines_of_plain_text() {
    let column = Column {
        width: 20,
        height: 10,
        chapters: vec![
            ColumnChapter {
                show_heading: false,
                number: 3,
                verses: vec![verse(false, 16, "  only begotten Son")],
            },
            ColumnChapter {
                show_heading: true,
                number: 4,
                verses: vec![verse(true, 1, "When therefore"), verse(true, 12, "our father")],
            },
            ColumnChapter { show_heading: true, number: 5, verses: Vec::new() },
        ],
    };
    assert_eq!(
        looks(&column.lines()),
        vec![
            vec![(Style::Body, "only begotten Son ".to_string())],
            vec![],
            vec![(Style::Heading, "Chapter 4".to_string())],
            vec![
                (Style::Number, "1 ".to_string()),
                (Style::Body, "When therefore ".to_string()),
                (Style::Number, "12 ".to_string()),
                (Style::Body, "our father ".to_string()),
            ],
            vec![],
            vec![(Style::Heading, "Chapter 5".to_string())],
        ]
    );
}

#[test]
fn the_first_heading_of_a_column_stands_at_its_top() {
    let (column, _) = Column::from(10, 2, &bible(), "Genesis", 1, None).unwrap();
    assert_eq!(
        looks(&column.lines()),
        vec![
            vec![(Style::Heading, "Chapter 1".to_string())],
            vec![(Style::Number, "1 ".to_string()), (Style::Body, "In the ".to_string())],
        ]
    );
    assert!(Column::new(10, 2).lines().is_empty());
}
