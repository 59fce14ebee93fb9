use logos::wordwrap::{
    chars_of, fit_words, is_whitespace, place_word, scan_words, set_lines, utf8_len, walk_words,
    words_of, Word,
};

fn lens(words: &[Word]) -> Vec<usize> {
    words.iter().map(|w| w.bytes).collect()
}

fn spans(words: &[Word]) -> Vec<(usize, usize)> {
    words.iter().map(|w| (w.start, w.end)).collect()
}

#[test]
fn white_space_is_what_the_standard_says() {
    for code in 0..=0x10FFFFu32 {
        if let Some(c) = char::from_u32(code) {
            assert_eq!(is_whitespace(c), c.is_whitespace(), "U+{:04X}", code);
        }
    }
}

#[test]
fn characters_are_measured_in_bytes() {
    for code in 0..=0x10FFFFu32 {
        if let Some(c) = char::from_u32(code) {
            assert_eq!(utf8_len(c), c.len_utf8(), "U+{:04X}", code);
        }
    }
}

#[test]
fn characters_are_listed_in_order() {
    assert_eq!(chars_of("a\u{e9}b"), vec!['a', '\u{e9}', 'b']);
    assert!(chars_of("").is_empty());
}

#[test]
fn words_are_runs_without_white_space() {
    let words = words_of("  In the\tbeginning \n");
    assert_eq!(spans(&words), vec![(2, 4), (5, 8), (9, 18)]);
    assert_eq!(lens(&words), vec![2, 3, 9]);
    assert!(words_of("").is_empty());
    assert!(words_of(" \t\n").is_empty());
    assert_eq!(spans(&words_of("one")), vec![(0, 3)]);
}

#[test]
fn words_agree_with_the_standard_split() {
    for text in ["In the beginning", "  a  b ", "\u{a0}x\u{2003}y", "caf\u{e9} \u{1F600} z", ""] {
        let expected: Vec<usize> = text.split_whitespace().map(|w| w.len()).collect();
        assert_eq!(lens(&words_of(text)), expected, "{:?}", text);
        let chars: Vec<char> = text.chars().collect();
        let found: Vec<String> = scan_words(&chars)
            .iter()
            .map(|w| chars[w.start..w.end].iter().collect())
            .collect();
        let expected: Vec<String> = text.split_whitespace().map(|w| w.to_string()).collect();
        assert_eq!(found, expected, "{:?}", text);
    }
}

#[test]
fn words_are_measured_in_bytes_and_placed_by_characters() {
    let words = words_of("caf\u{e9} \u{1F600}");
    assert_eq!(spans(&words), vec![(0, 4), (5, 6)]);
    assert_eq!(lens(&words), vec![5, 4]);
}

#[test]
fn a_word_that_fits_costs_its_length_and_a_separator() {
    assert_eq!(place_word(4, 6, 3, 10), Some((8, 2)));
    assert_eq!(place_word(0, 4, 3, 10), Some((4, 0)));
}

#[test]
fn a_word_that_wraps_costs_its_length_and_the_rest_of_the_line() {
    assert_eq!(place_word(8, 2, 9, 10), Some((19, 1)));
    assert_eq!(place_word(0, 3, 3, 10), Some((6, 7)));
    assert_eq!(place_word(5, 0, 10, 10), Some((15, 0)));
}

#[test]
fn a_word_longer_than_a_line_leaves_nothing_of_the_line() {
    assert_eq!(place_word(2, 3, 12, 10), Some((17, 0)));
}

#[test]
fn a_cost_beyond_the_machine_is_none() {
    assert_eq!(place_word(usize::MAX - 2, 10, 5, 10), None);
    assert_eq!(place_word(usize::MAX - 2, 1, 5, 10), None);
    assert_eq!(place_word(usize::MAX - 6, 10, 5, 10), Some((usize::MAX, 4)));
}

#[test]
fn walking_adds_up_the_words() {
    let words = words_of("In the beginning");
    assert_eq!(walk_words(&words, 1, 9, 10), Some(19));
    assert_eq!(walk_words(&words, 0, 10, 10), Some(19));
    assert_eq!(walk_words(&words, 0, 20, 20), Some(17));
    assert_eq!(walk_words(&Vec::new(), 3, 7, 10), Some(3));
    assert_eq!(walk_words(&words, usize::MAX - 3, 9, 10), None);
}

#[test]
fn fitting_counts_the_words_within_the_budget() {
    let words = words_of("In the beginning");
    assert_eq!(fit_words(&words, 1, 9, 10, 10), 2);
    assert_eq!(fit_words(&words, 1, 9, 10, 8), 2);
    assert_eq!(fit_words(&words, 1, 9, 10, 7), 1);
    assert_eq!(fit_words(&words, 1, 9, 10, 3), 0);
    assert_eq!(fit_words(&words, 1, 9, 10, 19), 3);
    assert_eq!(fit_words(&words, 1, 9, 10, 18), 2);
    assert_eq!(fit_words(&words, 1, 9, 10, 0), 0);
}

#[test]
fn lines_list_cells_and_bytes() {
    let words = words_of("In the beginning");
    assert_eq!(set_lines(&words, 1, 9, 10), vec![(10, 6), (9, 10)]);
    assert_eq!(set_lines(&words, 0, 20, 20), vec![(17, 16)]);
    assert_eq!(set_lines(&Vec::new(), 2, 8, 10), vec![(2, 0)]);
    let lines = set_lines(&words, 1, 9, 10);
    assert_eq!(lines.iter().map(|l| l.0).sum::<usize>(), walk_words(&words, 1, 9, 10).unwrap());
    assert_eq!(lines.iter().map(|l| l.1).sum::<usize>(), "In the beginning".len());
}

#[test]
fn a_first_word_that_wraps_covers_no_separator() {
    let words = words_of("beginning was");
    assert_eq!(set_lines(&words, 2, 3, 10), vec![(5, 0), (10, 9), (3, 4)]);
}
