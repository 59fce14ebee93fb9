//! Columns of verse text.
//!
//! A column is a page of `width * height` cells. It is filled chapter by
//! chapter and verse by verse; each verse is charged what wrapping its words
//! costs, and the verse that no longer fits is split between two words.

use crate::bible::{joined, position_of, spans_ok, Bible, BookSpans, Chapter, ChapterSpans};
use crate::error::{Error, ErrorModel};
use crate::plain::{decimal, decimal_text};
use crate::wordwrap::{
    chars_of, clip, fit_count, fit_words, is_whitespace, lemma_fit_count, lemma_lens_of_match,
    lemma_walk_concat, lemma_walk_grows, lemma_walk_shift, lemma_word_spans_ordered,
    lemma_walk_prefix, lemma_words_part, lines_held, lines_of, next_word, set_lines, walk,
    walk_words, word_lens, word_spans, words, words_end, words_of, Cursor,
};
use vstd::arithmetic::div_mod::{
    lemma_add_mod_noop, lemma_fundamental_div_mod, lemma_mod_bound, lemma_mod_multiples_vanish,
    lemma_small_mod, lemma_sub_mod_noop,
};
use vstd::prelude::*;
use vstd::string::*;

verus! {

/// What a [`ColumnVerse`] holds.
pub struct VerseModel {
    pub show_number: bool,
    pub number: usize,
    pub text: Seq<char>,
}

/// A verse, or the part of one, as a column shows it.
#[derive(Debug)]
pub struct ColumnVerse {
    pub show_number: bool,
    pub number: usize,
    pub text: String,
}

impl View for ColumnVerse {
    type V = VerseModel;

    open spec fn view(&self) -> VerseModel {
        VerseModel { show_number: self.show_number, number: self.number, text: self.text@ }
    }
}

/// The number of decimal digits of `n`.
pub open spec fn digits(n: nat) -> nat
    decreases n,
{
    if n < 10 {
        1
    } else {
        1 + digits(n / 10)
    }
}

/// The cells that a verse number takes: its digits where it is shown, nothing
/// where it is not. The separator behind it is not counted.
pub open spec fn number_cells(show_number: bool, number: nat) -> nat {
    if show_number {
        digits(number)
    } else {
        0
    }
}

/// The cursor at the first word of a verse that begins `offset` cells into a
/// line of `width` cells: the number is consumed, and the rest of the line is
/// left, as far as there is any.
pub open spec fn line_start(width: nat, offset: nat, cells: nat) -> Cursor {
    Cursor {
        consumed: cells,
        remaining: if offset + cells <= width {
            (width - offset - cells) as nat
        } else {
            0
        },
    }
}

impl VerseModel {
    /// The cursor at the first word of this verse.
    pub open spec fn start(self, width: nat, offset: nat) -> Cursor {
        line_start(width, offset, number_cells(self.show_number, self.number as nat))
    }

    /// The cells that the verse consumes when it begins `offset` cells into a
    /// line and its words are wrapped into lines of `width` cells.
    pub open spec fn cost(self, width: nat, offset: nat) -> nat {
        walk(self.start(width, offset), word_lens(self.text), width).consumed
    }

    /// The lines that the verse is wrapped into. Each line is the pair of the
    /// cells that it consumes, with what is wasted at its end, and of the
    /// bytes of text that it covers: its words, and a separator before each
    /// word but the first of the verse.
    pub open spec fn regions(self, width: nat, offset: nat) -> Seq<(nat, nat)> {
        lines_of(self.start(width, offset), word_lens(self.text), width)
    }

    /// How many leading words of the verse fit into `budget` cells.
    pub open spec fn fit(self, width: nat, offset: nat, budget: nat) -> nat {
        fit_count(self.start(width, offset), word_lens(self.text), width, budget)
    }

    /// The part of the verse that stays when it is split at `budget` cells:
    /// the text up to the end of the last word that fits.
    pub open spec fn head(self, width: nat, offset: nat, budget: nat) -> VerseModel {
        let fit = self.fit(width, offset, budget);
        VerseModel {
            show_number: self.show_number,
            number: self.number,
            text: if fit == 0 {
                Seq::empty()
            } else {
                self.text.take(word_spans(self.text, 0)[fit - 1].1)
            },
        }
    }

    /// The part of the verse that is carried on when it is split at `budget`
    /// cells: the text from the first word that does not fit, without the
    /// number. There is none where every word fits.
    pub open spec fn tail(self, width: nat, offset: nat, budget: nat) -> Option<VerseModel> {
        let fit = self.fit(width, offset, budget);
        if fit < word_spans(self.text, 0).len() {
            Some(
                VerseModel {
                    show_number: false,
                    number: self.number,
                    text: self.text.skip(word_spans(self.text, 0)[fit as int].0),
                },
            )
        } else {
            None
        }
    }
}

impl VerseModel {
    /// The cells that are left of the last line behind the verse.
    pub open spec fn line_left(self, width: nat, offset: nat) -> nat {
        walk(self.start(width, offset), word_lens(self.text), width).remaining
    }
}

/// The words of an optional part of a verse; none where there is no part.
pub open spec fn part_words(part: Option<VerseModel>) -> Seq<Seq<char>> {
    match part {
        Some(verse) => words(verse.text),
        None => Seq::empty(),
    }
}

/// The cells that an optional part of a verse consumes; none where there is
/// no part.
pub open spec fn part_cost(part: Option<VerseModel>, width: nat, offset: nat) -> nat {
    match part {
        Some(verse) => verse.cost(width, offset),
        None => 0,
    }
}

/// The first part of a split verse is the text up to the end of the last
/// word that fits, and holds exactly the words that fit.
pub proof fn lemma_head_words(verse: VerseModel, width: nat, offset: nat, budget: nat)
    ensures
        verse.fit(width, offset, budget) <= word_lens(verse.text).len(),
        word_lens(verse.head(width, offset, budget).text) == word_lens(verse.text).take(
            verse.fit(width, offset, budget) as int,
        ),
        words(verse.head(width, offset, budget).text) == words(verse.text).take(
            verse.fit(width, offset, budget) as int,
        ),
{
    let fit = verse.fit(width, offset, budget) as int;
    lemma_fit_count(verse.start(width, offset), word_lens(verse.text), width, budget);
    lemma_words_part(verse.text, fit);
    assert(verse.head(width, offset, budget).text =~= verse.text.take(
        words_end(verse.text, 0, fit),
    ));
}

/// Splitting a verse keeps its words and its cost. The words of the two
/// parts, one after the other, are the words of the verse. The first part
/// holds as many words as fit into the budget and no more. And the cells of
/// the first part, with the cells of the second part where it goes on in the
/// line that the first part ended in, are the cells of the whole verse.
pub proof fn lemma_split_conserves(verse: VerseModel, width: nat, offset: nat, budget: nat)
    ensures
        words(verse.text) == words(verse.head(width, offset, budget).text) + part_words(
            verse.tail(width, offset, budget),
        ),
        verse.head(width, offset, budget).line_left(width, offset) <= width,
        verse.head(width, offset, budget).cost(width, offset) + part_cost(
            verse.tail(width, offset, budget),
            width,
            (width - verse.head(width, offset, budget).line_left(width, offset)) as nat,
        ) == verse.cost(width, offset),
        verse.fit(width, offset, budget) > 0 ==> verse.head(width, offset, budget).cost(
            width,
            offset,
        ) <= budget,
        verse.tail(width, offset, budget) is None ==> verse.head(width, offset, budget).cost(
            width,
            offset,
        ) == verse.cost(width, offset),
        verse.tail(width, offset, budget) is Some ==> verse.cost(width, offset) > budget,
{
    let fit = verse.fit(width, offset, budget) as int;
    let lens = word_lens(verse.text);
    let start = verse.start(width, offset);
    let head = verse.head(width, offset, budget);
    lemma_head_words(verse, width, offset, budget);
    lemma_fit_count(start, lens, width, budget);
    lemma_words_part(verse.text, fit);
    assert(head.start(width, offset) == start);
    lemma_walk_grows(start, lens.take(fit), width);
    assert(lens =~= lens.take(fit) + lens.skip(fit));
    lemma_walk_concat(start, lens.take(fit), lens.skip(fit), width);
    let end = walk(start, lens.take(fit), width);
    match verse.tail(width, offset, budget) {
        Some(tail) => {
            assert(word_lens(tail.text) == lens.skip(fit));
            assert(words(verse.text) =~= words(verse.text).take(fit) + words(verse.text).skip(
                fit,
            ));
            let resumed = (width - end.remaining) as nat;
            let fresh = Cursor { consumed: 0, remaining: end.remaining };
            assert(tail.start(width, resumed) == fresh);
            lemma_walk_shift(fresh, lens.skip(fit), width, end.consumed);
            lemma_walk_prefix(start, lens, width, fit + 1);
        },
        None => {
            assert(lens.take(fit) =~= lens);
            assert(words(verse.text).take(fit) =~= words(verse.text));
            assert(words(verse.text) + Seq::<Seq<char>>::empty() =~= words(verse.text));
        },
    }
}

/// The view of an optional verse.
pub open spec fn verse_view(verse: Option<ColumnVerse>) -> Option<VerseModel> {
    match verse {
        Some(v) => Some(v@),
        None => None,
    }
}

/// Counts the decimal digits of `number`.
pub fn count_digits(number: usize) -> (count: usize)
    ensures
        count == digits(number as nat),
{
    let mut count: usize = 1;
    let mut rest: usize = number;
    while rest >= 10
        invariant
            1 <= count,
            count + rest <= number + 1,
            count + digits(rest as nat) == 1 + digits(number as nat),
        decreases rest,
    {
        rest = rest / 10;
        count = count + 1;
    }
    count
}

impl ColumnVerse {
    /// A verse with the given text, without the white space that `text`
    /// begins with.
    pub fn new(show_number: bool, number: usize, text: &str) -> (verse: Self)
        ensures
            verse@ == (VerseModel {
                show_number,
                number,
                text: text@.skip(next_word(text@, 0)),
            }),
    {
        let chars = chars_of(text);
        let n = chars.len();
        let mut start: usize = 0;
        while start < n && is_whitespace(chars[start])
            invariant
                n == chars@.len(),
                start <= n,
                next_word(chars@, 0) == next_word(chars@, start as int),
            decreases n - start,
        {
            start = start + 1;
        }
        let rest = text.substring_char(start, n);
        proof {
            assert(text@.subrange(start as int, n as int) =~= text@.skip(start as int));
        }
        Self { show_number, number, text: rest.to_owned() }
    }

    /// The cells that the verse number takes, not counting the separator
    /// behind it.
    pub fn get_number_consumption(&self) -> (cells: usize)
        ensures
            cells == number_cells(self.show_number, self.number as nat),
    {
        if self.show_number {
            count_digits(self.number)
        } else {
            0
        }
    }

    /// The cursor at the first word of the verse, as machine integers.
    fn start_cursor(&self, width: usize, starting_offset: usize) -> (cursor: (usize, usize))
        ensures
            self@.start(width as nat, starting_offset as nat) == (Cursor {
                consumed: cursor.0 as nat,
                remaining: cursor.1 as nat,
            }),
            cursor.0 + cursor.1 <= usize::MAX,
    {
        let cells = self.get_number_consumption();
        let remaining = if starting_offset <= width && cells <= width - starting_offset {
            width - starting_offset - cells
        } else {
            0
        };
        (cells, remaining)
    }

    /// The lines that the verse is wrapped into when it begins
    /// `starting_offset` cells into a line of `width` cells: for each line
    /// the cells that it consumes and the bytes of text that it covers. The
    /// bytes saturate at the largest machine integer.
    pub fn get_consumption_regions(&self, width: usize, starting_offset: usize) -> (regions: Vec<
        (usize, usize),
    >)
        ensures
            regions@ == lines_held(self@.regions(width as nat, starting_offset as nat)),
            forall|k: int|
                0 <= k < regions@.len() ==> (#[trigger] regions@[k]).0 == self@.regions(
                    width as nat,
                    starting_offset as nat,
                )[k].0,
    {
        let words = words_of(self.text.as_str());
        let (cells, remaining) = self.start_cursor(width, starting_offset);
        proof {
            lemma_lens_of_match(self.text@, words@);
        }
        set_lines(&words, cells, remaining, width)
    }

    /// The cells that the verse consumes when it begins `starting_offset`
    /// cells into a line and its words are wrapped into lines of `width`
    /// cells; `None` where that number does not fit a machine integer.
    pub fn checked_cost(&self, width: usize, starting_offset: usize) -> (cost: Option<usize>)
        ensures
            match cost {
                Some(c) => c == self@.cost(width as nat, starting_offset as nat),
                None => self@.cost(width as nat, starting_offset as nat) > usize::MAX,
            },
    {
        let words = words_of(self.text.as_str());
        let (cells, remaining) = self.start_cursor(width, starting_offset);
        proof {
            lemma_lens_of_match(self.text@, words@);
        }
        walk_words(&words, cells, remaining, width)
    }

    /// The cells that the verse consumes when it begins `starting_offset`
    /// cells into a line and its words are wrapped into lines of `width`
    /// cells. The result saturates at the largest machine integer.
    pub fn consumed_chars(&self, width: usize, starting_offset: usize) -> (cells: usize)
        ensures
            cells == clip(self@.cost(width as nat, starting_offset as nat)),
    {
        match self.checked_cost(width, starting_offset) {
            Some(cost) => cost,
            None => usize::MAX,
        }
    }

    /// Splits the verse at `budget` cells, between two words. The first part
    /// holds the words that fit, up to the end of the last of them, and keeps
    /// the number. The second part begins at the first word that does not
    /// fit and shows no number; there is none where every word fits.
    pub fn split(self, width: usize, starting_offset: usize, budget: usize) -> (parts: (
        ColumnVerse,
        Option<ColumnVerse>,
    ))
        ensures
            parts.0@ == self@.head(width as nat, starting_offset as nat, budget as nat),
            verse_view(parts.1) == self@.tail(width as nat, starting_offset as nat, budget as nat),
    {
        let text = self.text.as_str();
        let words = words_of(text);
        let (cells, remaining) = self.start_cursor(width, starting_offset);
        proof {
            lemma_lens_of_match(self.text@, words@);
            lemma_word_spans_ordered(self.text@, 0);
        }
        let fit = fit_words(&words, cells, remaining, width, budget);
        let first_end = if fit == 0 {
            0
        } else {
            words[fit - 1].end
        };
        let first = text.substring_char(0, first_end);
        proof {
            assert(self.text@.subrange(0, first_end as int) =~= self.text@.take(first_end as int));
            assert(self.text@.take(0) =~= Seq::<char>::empty());
        }
        let second = if fit < words.len() {
            let length = text.unicode_len();
            let rest = text.substring_char(words[fit].start, length);
            proof {
                assert(self.text@.subrange(words@[fit as int].start as int, length as int)
                    =~= self.text@.skip(words@[fit as int].start as int));
            }
            Some(ColumnVerse { show_number: false, number: self.number, text: rest.to_owned() })
        } else {
            None
        };
        (
            ColumnVerse {
                show_number: self.show_number,
                number: self.number,
                text: first.to_owned(),
            },
            second,
        )
    }
}

/// What a [`ColumnChapter`] holds.
pub struct ChapterModel {
    pub show_heading: bool,
    pub number: usize,
    pub verses: Seq<VerseModel>,
}

/// A chapter, or the part of one, as a column shows it. A chapter that goes
/// on from the column before shows no heading.
#[derive(Debug)]
pub struct ColumnChapter {
    pub show_heading: bool,
    pub number: usize,
    pub verses: Vec<ColumnVerse>,
}

/// The views of `verses`, in order.
pub open spec fn verse_views(verses: Seq<ColumnVerse>) -> Seq<VerseModel> {
    verses.map_values(|v: ColumnVerse| v@)
}

impl View for ColumnChapter {
    type V = ChapterModel;

    open spec fn view(&self) -> ChapterModel {
        ChapterModel {
            show_heading: self.show_heading,
            number: self.number,
            verses: verse_views(self.verses@),
        }
    }
}

/// The view of an optional chapter.
pub open spec fn chapter_view(chapter: Option<ColumnChapter>) -> Option<ChapterModel> {
    match chapter {
        Some(c) => Some(c@),
        None => None,
    }
}

/// The cells that `verses` consume together, each begun at the start of a
/// line.
pub open spec fn verses_cost(verses: Seq<VerseModel>, width: nat) -> nat
    decreases verses.len(),
{
    if verses.len() == 0 {
        0
    } else {
        verses_cost(verses.drop_last(), width) + verses.last().cost(width, 0)
    }
}

/// The cells that are left of the last line after `cells` cells were written
/// into lines of `width` cells.
pub open spec fn line_rest(cells: nat, width: nat) -> nat {
    if width == 0 || cells % width == 0 {
        0
    } else {
        (width - cells % width) as nat
    }
}

/// The verses of a chapter split at `budget` cells: the verses that fit and
/// the first part of the one that does not, and behind them what is carried
/// on.
pub open spec fn split_verses(verses: Seq<VerseModel>, width: nat, budget: nat) -> (
    Seq<VerseModel>,
    Seq<VerseModel>,
)
    decreases verses.len(),
{
    if verses.len() == 0 {
        (Seq::empty(), Seq::empty())
    } else {
        let verse = verses.first();
        let cost = verse.cost(width, 0);
        if cost <= budget {
            let rest = split_verses(verses.drop_first(), width, (budget - cost) as nat);
            (seq![verse] + rest.0, rest.1)
        } else {
            (
                seq![verse.head(width, 0, budget)],
                match verse.tail(width, 0, budget) {
                    Some(tail) => seq![tail] + verses.drop_first(),
                    None => verses.drop_first(),
                },
            )
        }
    }
}

impl ChapterModel {
    /// The cells of the heading line: a line where the heading is shown.
    pub open spec fn heading_cost(self, width: nat) -> nat {
        if self.show_heading {
            width
        } else {
            0
        }
    }

    /// The cells that the chapter consumes: its heading, its verses, and what
    /// is left of the last line.
    pub open spec fn cost(self, width: nat) -> nat {
        self.heading_cost(width) + verses_cost(self.verses, width) + line_rest(
            verses_cost(self.verses, width),
            width,
        )
    }

    /// The budget that is left for the verses once the heading is paid.
    pub open spec fn verse_budget(self, width: nat, budget: nat) -> nat {
        if budget >= self.heading_cost(width) {
            (budget - self.heading_cost(width)) as nat
        } else {
            0
        }
    }

    /// The part of the chapter that stays when it is split at `budget` cells.
    pub open spec fn head(self, width: nat, budget: nat) -> ChapterModel {
        ChapterModel {
            show_heading: self.show_heading,
            number: self.number,
            verses: split_verses(self.verses, width, self.verse_budget(width, budget)).0,
        }
    }

    /// The part of the chapter that is carried on when it is split at `budget`
    /// cells, without a heading; none where nothing is left.
    pub open spec fn tail(self, width: nat, budget: nat) -> Option<ChapterModel> {
        let rest = split_verses(self.verses, width, self.verse_budget(width, budget)).1;
        if rest.len() == 0 {
            None
        } else {
            Some(ChapterModel { show_heading: false, number: self.number, verses: rest })
        }
    }
}

/// Adding a verse to a list adds its view to the views.
pub proof fn lemma_verse_views_push(verses: Seq<ColumnVerse>, verse: ColumnVerse)
    ensures
        verse_views(verses.push(verse)) == verse_views(verses).push(verse@),
{
    assert(verse_views(verses.push(verse)) =~= verse_views(verses).push(verse@));
}

impl ColumnChapter {
    /// The cells that the verses consume together, or `None` where that
    /// number does not fit a machine integer.
    fn checked_verses_cost(&self, width: usize) -> (cost: Option<usize>)
        ensures
            match cost {
                Some(c) => c == verses_cost(self@.verses, width as nat),
                None => verses_cost(self@.verses, width as nat) > usize::MAX,
            },
    {
        let ghost views = self@.verses;
        let mut total: usize = 0;
        let mut k: usize = 0;
        proof {
            assert(views.take(0) =~= Seq::<VerseModel>::empty());
        }
        while k < self.verses.len()
            invariant
                k <= self.verses.len(),
                views == self@.verses,
                total == verses_cost(views.take(k as int), width as nat),
            decreases self.verses.len() - k,
        {
            proof {
                assert(views.take(k as int + 1).drop_last() =~= views.take(k as int));
                assert(views.take(k as int + 1).last() == self.verses@[k as int]@);
                lemma_verses_cost_prefix(views, width as nat, k as int + 1);
            }
            let cost = match self.verses[k].checked_cost(width, 0) {
                Some(c) => c,
                None => {
                    return None;
                },
            };
            total = match total.checked_add(cost) {
                Some(t) => t,
                None => {
                    return None;
                },
            };
            k = k + 1;
        }
        proof {
            assert(views.take(k as int) =~= views);
        }
        Some(total)
    }

    /// The cells that the chapter consumes: a line for the heading where it
    /// is shown, the verses, and what is left of the last line. The result
    /// saturates at the largest machine integer.
    pub fn consumed_chars(&self, width: usize) -> (cells: usize)
        ensures
            cells == clip(self@.cost(width as nat)),
    {
        let header = if self.show_heading {
            width
        } else {
            0
        };
        let verse_cost = match self.checked_verses_cost(width) {
            Some(c) => c,
            None => {
                return usize::MAX;
            },
        };
        let remainder = if width == 0 || verse_cost % width == 0 {
            0
        } else {
            width - verse_cost % width
        };
        header.saturating_add(verse_cost).saturating_add(remainder)
    }
}

impl ColumnChapter {
    /// Splits the chapter at `budget` cells. The first part keeps the heading,
    /// the verses that fit and the first part of the verse that does not; the
    /// second part shows no heading and holds what is carried on. There is no
    /// second part where nothing is left for it.
    pub fn split(self, width: usize, budget: usize) -> (parts: (
        ColumnChapter,
        Option<ColumnChapter>,
    ))
        ensures
            parts.0@ == self@.head(width as nat, budget as nat),
            chapter_view(parts.1) == self@.tail(width as nat, budget as nat),
    {
        let ghost views = self@.verses;
        let ghost whole = split_verses(views, width as nat, self@.verse_budget(width as nat, budget as nat));
        let show_heading = self.show_heading;
        let number = self.number;
        let mut left = budget.saturating_sub(
            if show_heading {
                width
            } else {
                0
            },
        );
        let mut first: Vec<ColumnVerse> = Vec::new();
        let mut second: Vec<ColumnVerse> = Vec::new();
        let mut filling = true;
        proof {
            assert(views.skip(0) =~= views);
            assert(verse_views(first@) + whole.0 =~= whole.0);
        }
        for verse in it: self.verses
            invariant
                views == verse_views(it.seq()),
                filling ==> second@.len() == 0 && whole.0 == verse_views(first@) + split_verses(
                    views.skip(it.index() as int),
                    width as nat,
                    left as nat,
                ).0 && whole.1 == split_verses(
                    views.skip(it.index() as int),
                    width as nat,
                    left as nat,
                ).1,
                !filling ==> whole.0 == verse_views(first@) && whole.1 == verse_views(second@)
                    + views.skip(it.index() as int),
        {
            let ghost rest = views.skip(it.index() as int);
            proof {
                assert(rest.first() == verse@);
                assert(rest.drop_first() =~= views.skip(it.index() as int + 1));
                lemma_verse_views_push(first@, verse);
                lemma_verse_views_push(second@, verse);
            }
            if filling {
                let cost = verse.checked_cost(width, 0);
                let fits = match cost {
                    Some(c) => c <= left,
                    None => false,
                };
                if fits {
                    let ghost tail = split_verses(
                        rest.drop_first(),
                        width as nat,
                        (left - cost.unwrap()) as nat,
                    );
                    proof {
                        assert(verse_views(first@) + (seq![verse@] + tail.0) =~= verse_views(
                            first@,
                        ).push(verse@) + tail.0);
                    }
                    left = left - cost.unwrap();
                    first.push(verse);
                } else {
                    let ghost old_first = first@;
                    let (a, b) = verse.split(width, 0, left);
                    proof {
                        lemma_verse_views_push(old_first, a);
                        assert(verse_views(old_first) + seq![a@] =~= verse_views(old_first).push(
                            a@,
                        ));
                    }
                    first.push(a);
                    match b {
                        Some(b) => {
                            proof {
                                lemma_verse_views_push(second@, b);
                                assert(verse_views(second@).push(b@) + rest.drop_first() =~= seq![
                                    b@,
                                ] + rest.drop_first());
                            }
                            second.push(b);
                        },
                        None => {
                            proof {
                                assert(verse_views(second@) + rest.drop_first()
                                    =~= rest.drop_first());
                            }
                        },
                    }
                    filling = false;
                }
            } else {
                proof {
                    assert(verse_views(second@) + rest =~= verse_views(second@).push(verse@)
                        + rest.drop_first());
                }
                second.push(verse);
            }
        }
        proof {
            let end = views.skip(views.len() as int);
            assert(end =~= Seq::<VerseModel>::empty());
            assert(verse_views(first@) + Seq::<VerseModel>::empty() =~= verse_views(first@));
            assert(verse_views(second@) + end =~= verse_views(second@));
        }
        let rest = if second.len() == 0 {
            None
        } else {
            Some(ColumnChapter { show_heading: false, number, verses: second })
        };
        (ColumnChapter { show_heading, number, verses: first }, rest)
    }
}

/// What some of the verses cost, all of them cost at least.
pub proof fn lemma_verses_cost_prefix(verses: Seq<VerseModel>, width: nat, k: int)
    requires
        0 <= k <= verses.len(),
    ensures
        verses_cost(verses.take(k), width) <= verses_cost(verses, width),
    decreases verses.len() - k,
{
    if k < verses.len() {
        lemma_verses_cost_prefix(verses, width, k + 1);
        assert(verses.take(k + 1).drop_last() =~= verses.take(k));
    } else {
        assert(verses.take(k) =~= verses);
    }
}

/// What a [`Column`] holds.
pub struct ColumnModel {
    pub width: usize,
    pub height: usize,
    pub chapters: Seq<ChapterModel>,
}

/// A page of `width * height` cells and the chapters that it shows.
#[derive(Debug)]
pub struct Column {
    pub width: usize,
    pub height: usize,
    pub chapters: Vec<ColumnChapter>,
}

/// The views of `chapters`, in order.
pub open spec fn chapter_views(chapters: Seq<ColumnChapter>) -> Seq<ChapterModel> {
    chapters.map_values(|c: ColumnChapter| c@)
}

impl View for Column {
    type V = ColumnModel;

    open spec fn view(&self) -> ColumnModel {
        ColumnModel {
            width: self.width,
            height: self.height,
            chapters: chapter_views(self.chapters@),
        }
    }
}

/// The view of an optional column.
pub open spec fn column_view(column: Option<Column>) -> Option<ColumnModel> {
    match column {
        Some(c) => Some(c@),
        None => None,
    }
}

/// The cells that `chapters` consume in a column of lines of `width` cells:
/// each chapter's own cells, and an empty line before every chapter but the
/// first that shows its heading.
pub open spec fn chapters_cost(chapters: Seq<ChapterModel>, width: nat) -> nat
    decreases chapters.len(),
{
    if chapters.len() == 0 {
        0
    } else {
        chapters_cost(chapters.drop_last(), width) + (if chapters.len() > 1
            && chapters.last().show_heading {
            width
        } else {
            0
        }) + chapters.last().cost(width)
    }
}

impl ColumnModel {
    /// The cells that the column's chapters consume.
    pub open spec fn cost(self) -> nat {
        chapters_cost(self.chapters, self.width as nat)
    }
}

/// Adding a chapter to a list adds its view to the views.
pub proof fn lemma_chapter_views_push(chapters: Seq<ColumnChapter>, chapter: ColumnChapter)
    ensures
        chapter_views(chapters.push(chapter)) == chapter_views(chapters).push(chapter@),
{
    assert(chapter_views(chapters.push(chapter)) =~= chapter_views(chapters).push(chapter@));
}

impl Column {
    /// An empty column of the given size.
    pub fn new(width: usize, height: usize) -> (column: Column)
        ensures
            column@ == (ColumnModel { width, height, chapters: Seq::empty() }),
    {
        let column = Column { width, height, chapters: Vec::new() };
        proof {
            assert(chapter_views(column.chapters@) =~= Seq::<ChapterModel>::empty());
        }
        column
    }

    /// The cells that the column's chapters consume, in lines of the column's
    /// own width. The result saturates at the largest machine integer.
    pub fn chars_consumed(&self) -> (cells: usize)
        ensures
            cells == clip(self@.cost()),
    {
        let ghost views = self@.chapters;
        let mut total: usize = 0;
        let mut k: usize = 0;
        proof {
            assert(views.take(0) =~= Seq::<ChapterModel>::empty());
        }
        while k < self.chapters.len()
            invariant
                k <= self.chapters.len(),
                views == self@.chapters,
                total == clip(chapters_cost(views.take(k as int), self.width as nat)),
            decreases self.chapters.len() - k,
        {
            proof {
                assert(views.take(k as int + 1).drop_last() =~= views.take(k as int));
                assert(views.take(k as int + 1).last() == self.chapters@[k as int]@);
            }
            let chapter = &self.chapters[k];
            let separator = if k > 0 && chapter.show_heading {
                self.width
            } else {
                0
            };
            total = total.saturating_add(separator).saturating_add(
                chapter.consumed_chars(self.width),
            );
            k = k + 1;
        }
        proof {
            assert(views.take(k as int) =~= views);
        }
        total
    }
}

/// A verse as a book holds it: its number and its text.
#[derive(Debug)]
pub struct VerseText {
    pub number: usize,
    pub text: String,
}

/// What a [`VerseText`] holds.
pub struct VerseTextModel {
    pub number: usize,
    pub text: Seq<char>,
}

impl View for VerseText {
    type V = VerseTextModel;

    open spec fn view(&self) -> VerseTextModel {
        VerseTextModel { number: self.number, text: self.text@ }
    }
}

/// The views of `verses`, in order.
pub open spec fn text_views(verses: Seq<VerseText>) -> Seq<VerseTextModel> {
    verses.map_values(|v: VerseText| v@)
}

/// How the attempt to add a chapter to a column ended.
#[derive(Debug)]
pub enum Filled {
    /// The chapter was not begun: the empty line before it or its heading no
    /// longer fits.
    Full,
    /// The chapter was begun and a verse no longer fit. The column is
    /// complete; what is carried on, if anything, is a column of its own.
    Split(Option<Column>),
    /// The whole chapter was added, and this many cells are left.
    More(usize),
}

/// What a [`Filled`] holds.
pub enum FilledModel {
    Full,
    Split(Option<ColumnModel>),
    More(nat),
}

impl View for Filled {
    type V = FilledModel;

    open spec fn view(&self) -> FilledModel {
        match self {
            Filled::Full => FilledModel::Full,
            Filled::Split(rest) => FilledModel::Split(column_view(*rest)),
            Filled::More(left) => FilledModel::More(*left as nat),
        }
    }
}

/// The verse of a book as a column shows it. The number is shown unless it
/// repeats the number of the verse before.
pub open spec fn shown_verse(verse: VerseTextModel, last: usize) -> VerseModel {
    VerseModel { show_number: verse.number != last, number: verse.number, text: verse.text }
}

/// A column that carries on a chapter with one verse, without a heading.
pub open spec fn carried(width: usize, height: usize, number: usize, verse: VerseModel) -> ColumnModel {
    ColumnModel {
        width,
        height,
        chapters: seq![ChapterModel { show_heading: false, number, verses: seq![verse] }],
    }
}

/// Fills the chapter `number` with `verses` while `remaining` cells last.
/// `taken` holds the verses that the chapter has already, `last` the number of
/// the last of them. A verse that fits is taken whole. The first that does
/// not fit ends the column: it is split between the last word that fits and
/// the next, and the second part is carried on; where not even its number
/// fits, the whole verse is carried on. A chapter that is filled to its end
/// pays one more line.
pub open spec fn fill_verses(
    width: usize,
    height: usize,
    number: usize,
    verses: Seq<VerseTextModel>,
    last: usize,
    taken: Seq<VerseModel>,
    remaining: nat,
) -> (ChapterModel, FilledModel)
    decreases verses.len(),
{
    if verses.len() == 0 {
        (
            ChapterModel { show_heading: true, number, verses: taken },
            FilledModel::More(
                if remaining >= width {
                    (remaining - width) as nat
                } else {
                    0
                },
            ),
        )
    } else {
        let verse = shown_verse(verses.first(), last);
        let cost = verse.cost(width as nat, 0);
        if cost <= remaining {
            fill_verses(
                width,
                height,
                number,
                verses.drop_first(),
                verse.number,
                taken.push(verse),
                (remaining - cost) as nat,
            )
        } else if number_cells(verse.show_number, verse.number as nat) > remaining {
            (
                ChapterModel { show_heading: true, number, verses: taken },
                FilledModel::Split(Some(carried(width, height, number, verse))),
            )
        } else {
            (
                ChapterModel {
                    show_heading: true,
                    number,
                    verses: taken.push(verse.head(width as nat, 0, remaining)),
                },
                FilledModel::Split(
                    match verse.tail(width as nat, 0, remaining) {
                        Some(rest) => Some(carried(width, height, number, rest)),
                        None => None,
                    },
                ),
            )
        }
    }
}

/// A chapter that was begun is filled to its end or ends the column.
pub proof fn lemma_fill_verses_begun(
    width: usize,
    height: usize,
    number: usize,
    verses: Seq<VerseTextModel>,
    last: usize,
    taken: Seq<VerseModel>,
    remaining: nat,
)
    ensures
        !(fill_verses(width, height, number, verses, last, taken, remaining).1 is Full),
        fill_verses(width, height, number, verses, last, taken, remaining).0.show_heading,
        fill_verses(width, height, number, verses, last, taken, remaining).0.number == number,
    decreases verses.len(),
{
    if verses.len() > 0 {
        let verse = shown_verse(verses.first(), last);
        let cost = verse.cost(width as nat, 0);
        if cost <= remaining {
            lemma_fill_verses_begun(
                width,
                height,
                number,
                verses.drop_first(),
                verse.number,
                taken.push(verse),
                (remaining - cost) as nat,
            );
        }
    }
}

/// Whether `column` carries on the chapter `number` and nothing else: one
/// chapter of that number, without its heading, with one verse.
pub open spec fn carries(column: ColumnModel, width: usize, height: usize, number: usize) -> bool {
    &&& column.width == width
    &&& column.height == height
    &&& column.chapters.len() == 1
    &&& !column.chapters[0].show_heading
    &&& column.chapters[0].number == number
    &&& column.chapters[0].verses.len() == 1
}

/// What a chapter carries on shows no heading again, and shows the number of
/// its verse only where the column did not begin that verse: a part of a
/// verse whose first part stands in the column never shows the number again.
pub proof fn lemma_fill_verses_carry(
    width: usize,
    height: usize,
    number: usize,
    verses: Seq<VerseTextModel>,
    last: usize,
    taken: Seq<VerseModel>,
    remaining: nat,
)
    ensures
        fill_verses(width, height, number, verses, last, taken, remaining).1 matches FilledModel::Split(
            Some(rest),
        ) ==> {
            &&& carries(rest, width, height, number)
            &&& rest.chapters[0].verses[0].show_number ==> number_cells(
                true,
                rest.chapters[0].verses[0].number as nat,
            ) > 0 && fill_verses(width, height, number, verses, last, taken, remaining).0.verses.len()
                <= taken.len() + verses.len() - 1
        },
        fill_verses(width, height, number, verses, last, taken, remaining).0.verses.len()
            >= taken.len(),
        fill_verses(width, height, number, verses, last, taken, remaining).0.verses.take(
            taken.len() as int,
        ) == taken,
    decreases verses.len(),
{
    let filled = fill_verses(width, height, number, verses, last, taken, remaining);
    assert(taken.take(taken.len() as int) =~= taken);
    if verses.len() > 0 {
        let verse = shown_verse(verses.first(), last);
        let cost = verse.cost(width as nat, 0);
        if cost <= remaining {
            lemma_fill_verses_carry(
                width,
                height,
                number,
                verses.drop_first(),
                verse.number,
                taken.push(verse),
                (remaining - cost) as nat,
            );
            assert(filled.0.verses.take(taken.len() as int) =~= filled.0.verses.take(
                taken.len() as int + 1,
            ).take(taken.len() as int));
            assert(taken.push(verse).take(taken.len() as int) =~= taken);
        } else if number_cells(verse.show_number, verse.number as nat) > remaining {
        } else {
            assert(taken.push(verse.head(width as nat, 0, remaining)).take(taken.len() as int)
                =~= taken);
        }
    }
}

/// The empty line before a chapter: none before the first of a column.
pub open spec fn separator(column: ColumnModel, width: usize) -> nat {
    if column.chapters.len() == 0 {
        0
    } else {
        width as nat
    }
}

/// Adds the chapter `number` with `verses` to `column` while `remaining`
/// cells last. The chapter is not begun unless the empty line before it and
/// its heading leave at least one cell.
pub open spec fn add_chapter(
    column: ColumnModel,
    width: usize,
    height: usize,
    remaining: nat,
    number: usize,
    verses: Seq<VerseTextModel>,
) -> (ColumnModel, FilledModel) {
    let gap = separator(column, width);
    if gap >= remaining || width >= remaining - gap {
        (column, FilledModel::Full)
    } else {
        let filled = fill_verses(
            width,
            height,
            number,
            verses,
            0,
            Seq::empty(),
            (remaining - gap - width) as nat,
        );
        (
            ColumnModel {
                width: column.width,
                height: column.height,
                chapters: column.chapters.push(filled.0),
            },
            filled.1,
        )
    }
}

impl Column {
    /// Adds the chapter `number` with `verses` to the column while
    /// `remaining` cells last, in lines of `width` cells, and says how it
    /// ended. What is carried on is a column of `width` by `height` cells.
    pub fn push_chapter(
        &mut self,
        width: usize,
        height: usize,
        remaining: usize,
        number: usize,
        verses: Vec<VerseText>,
    ) -> (filled: Filled)
        ensures
            (final(self)@, filled@) == add_chapter(
                old(self)@,
                width,
                height,
                remaining as nat,
                number,
                text_views(verses@),
            ),
    {
        let ghost texts = text_views(verses@);
        let ghost before = self@;
        let gap = if self.chapters.len() == 0 {
            0
        } else {
            width
        };
        if gap >= remaining || width >= remaining - gap {
            return Filled::Full;
        }
        let mut left = remaining - gap - width;
        let ghost start = left as nat;
        let mut chapter = ColumnChapter { show_heading: true, number, verses: Vec::new() };
        let mut last: usize = 0;
        proof {
            assert(texts.skip(0) =~= texts);
            assert(verse_views(chapter.verses@) =~= Seq::<VerseModel>::empty());
        }
        for verse in it: verses
            invariant
                texts == text_views(it.seq()),
                before == self@,
                before == old(self)@,
                gap == separator(before, width),
                gap < remaining,
                width < remaining - gap,
                start == remaining - gap - width,
                chapter.show_heading,
                chapter.number == number,
                fill_verses(width, height, number, texts, 0, Seq::empty(), start) == fill_verses(
                    width,
                    height,
                    number,
                    texts.skip(it.index() as int),
                    last,
                    verse_views(chapter.verses@),
                    left as nat,
                ),
        {
            let ghost rest = texts.skip(it.index() as int);
            let ghost taken = chapter.verses@;
            proof {
                assert(rest.first() == verse@);
                assert(rest.drop_first() =~= texts.skip(it.index() as int + 1));
            }
            let current = ColumnVerse {
                show_number: verse.number != last,
                number: verse.number,
                text: verse.text,
            };
            assert(current@ == shown_verse(rest.first(), last));
            last = current.number;
            let cost = current.checked_cost(width, 0);
            let fits = match cost {
                Some(c) => c <= left,
                None => false,
            };
            if fits {
                proof {
                    lemma_verse_views_push(taken, current);
                }
                left = left - cost.unwrap();
                chapter.verses.push(current);
            } else {
                let rest_column = if current.get_number_consumption() > left {
                    let carried_on = Column {
                        width,
                        height,
                        chapters: vec![
                            ColumnChapter {
                                show_heading: false,
                                number,
                                verses: vec![current],
                            },
                        ],
                    };
                    proof {
                        assert(carried_on@.chapters =~= seq![carried_on.chapters@[0]@]);
                        assert(carried_on.chapters@[0]@.verses =~= seq![
                            carried_on.chapters@[0].verses@[0]@,
                        ]);
                    }
                    Some(carried_on)
                } else {
                    let (first, second) = current.split(width, 0, left);
                    proof {
                        lemma_verse_views_push(taken, first);
                    }
                    chapter.verses.push(first);
                    match second {
                        Some(second) => {
                            let carried_on = Column {
                                width,
                                height,
                                chapters: vec![
                                    ColumnChapter {
                                        show_heading: false,
                                        number,
                                        verses: vec![second],
                                    },
                                ],
                            };
                            proof {
                                assert(carried_on@.chapters =~= seq![carried_on.chapters@[0]@]);
                                assert(carried_on.chapters@[0]@.verses =~= seq![
                                    carried_on.chapters@[0].verses@[0]@,
                                ]);
                            }
                            Some(carried_on)
                        },
                        None => None,
                    }
                };
                proof {
                    lemma_chapter_views_push(self.chapters@, chapter);
                }
                self.chapters.push(chapter);
                return Filled::Split(rest_column);
            }
        }
        proof {
            assert(texts.skip(texts.len() as int) =~= Seq::<VerseTextModel>::empty());
            lemma_chapter_views_push(self.chapters@, chapter);
        }
        self.chapters.push(chapter);
        Filled::More(left.saturating_sub(width))
    }
}

/// The verses of a chapter of the document `doc` with their numbers, counted
/// from one, and their texts.
pub open spec fn verse_texts(doc: Seq<u8>, chapter: ChapterSpans) -> Seq<VerseTextModel> {
    Seq::new(
        chapter.len(),
        |k: int| VerseTextModel { number: (k + 1) as usize, text: joined(doc, chapter[k]) },
    )
}

/// Fills `column` with the chapters of `book` from the place `from` on, while
/// `remaining` cells last. The filling ends with the first chapter that
/// cannot be begun, with the first verse that does not fit, or with the book.
pub open spec fn fill(
    column: ColumnModel,
    width: usize,
    height: usize,
    remaining: nat,
    doc: Seq<u8>,
    book: BookSpans,
    from: int,
) -> (ColumnModel, Option<ColumnModel>)
    decreases book.len() - from,
{
    if from < 0 || from >= book.len() {
        (column, None)
    } else {
        let added = add_chapter(
            column,
            width,
            height,
            remaining,
            (from + 1) as usize,
            verse_texts(doc, book[from]),
        );
        match added.1 {
            FilledModel::Full => (column, None),
            FilledModel::Split(rest) => (added.0, rest),
            FilledModel::More(left) => fill(added.0, width, height, left, doc, book, from + 1),
        }
    }
}

/// The column that the filling begins with: what was carried on from the
/// column before, or an empty column.
pub open spec fn first_column(width: usize, height: usize, overflow: Option<ColumnModel>) -> ColumnModel {
    match overflow {
        Some(column) => column,
        None => ColumnModel { width, height, chapters: Seq::empty() },
    }
}

/// The cells that are left of `width * height` once `column` is paid; none
/// where the column takes more than that.
pub open spec fn cells_left(width: usize, height: usize, column: ColumnModel) -> nat {
    if column.cost() <= width * height {
        (width * height - column.cost()) as nat
    } else {
        0
    }
}

/// Whether what was carried on can begin a column of `width * height`
/// cells: it is laid out in lines of the same width and takes no more cells
/// than the column has.
pub open spec fn carry_fits(width: usize, height: usize, overflow: Option<ColumnModel>) -> bool {
    match overflow {
        Some(column) => column.width == width && column.cost() <= width * height,
        None => true,
    }
}

/// The view of what building a column gives.
pub open spec fn page_view(result: Result<(Column, Option<Column>), Error>) -> Result<
    (ColumnModel, Option<ColumnModel>),
    ErrorModel,
> {
    match result {
        Ok((column, rest)) => Ok((column@, column_view(rest))),
        Err(error) => Err(error@),
    }
}

/// The column of `width * height` cells that begins with what was carried
/// on and goes on with the chapter `start_chapter` of the book `book`, and
/// what is carried on behind it. A book that the index does not hold is not
/// found, and neither is the chapter zero. Behind the last chapter of the
/// book the column holds what was carried on and nothing else.
pub open spec fn page(
    width: usize,
    height: usize,
    names: Seq<Seq<char>>,
    books: Seq<BookSpans>,
    doc: Seq<u8>,
    book: Seq<char>,
    start_chapter: usize,
    overflow: Option<ColumnModel>,
) -> Result<(ColumnModel, Option<ColumnModel>), ErrorModel> {
    match position_of(names, book) {
        None => Err(ErrorModel::BookNotFound(book)),
        Some(place) => if start_chapter == 0 {
            Err(ErrorModel::ChapterNotFound(book, 0))
        } else {
            Ok(
                fill(
                    first_column(width, height, overflow),
                    width,
                    height,
                    cells_left(width, height, first_column(width, height, overflow)),
                    doc,
                    books[place],
                    start_chapter - 1,
                ),
            )
        },
    }
}

/// Building a column twice from the same arguments gives the same column and
/// the same carry: whatever two calls return for one size, document, book,
/// chapter and carry is equal.
pub proof fn lemma_page_repeats(
    width: usize,
    height: usize,
    names: Seq<Seq<char>>,
    books: Seq<BookSpans>,
    doc: Seq<u8>,
    book: Seq<char>,
    start_chapter: usize,
    overflow: Option<ColumnModel>,
    once: Result<(ColumnModel, Option<ColumnModel>), ErrorModel>,
    again: Result<(ColumnModel, Option<ColumnModel>), ErrorModel>,
)
    requires
        once == page(width, height, names, books, doc, book, start_chapter, overflow),
        again == page(width, height, names, books, doc, book, start_chapter, overflow),
    ensures
        once == again,
{
}

/// A column never takes more cells than it has, as long as what was carried
/// on into it did not.
pub proof fn lemma_page_within_budget(
    width: usize,
    height: usize,
    names: Seq<Seq<char>>,
    books: Seq<BookSpans>,
    doc: Seq<u8>,
    book: Seq<char>,
    start_chapter: usize,
    overflow: Option<ColumnModel>,
)
    requires
        carry_fits(width, height, overflow),
    ensures
        page(width, height, names, books, doc, book, start_chapter, overflow) matches Ok(built)
            ==> built.0.cost() <= width * height,
{
    match position_of(names, book) {
        Some(place) => {
            if start_chapter != 0 {
                let first = first_column(width, height, overflow);
                lemma_fill_room(
                    first,
                    width,
                    height,
                    cells_left(width, height, first),
                    doc,
                    books[place],
                    start_chapter - 1,
                    height as nat,
                );
            }
        },
        None => {},
    }
}

/// What was carried on into a column stays at its front: filling only adds
/// chapters behind the chapters that the column has.
pub proof fn lemma_fill_keeps_front(
    column: ColumnModel,
    width: usize,
    height: usize,
    remaining: nat,
    doc: Seq<u8>,
    book: BookSpans,
    from: int,
)
    ensures
        fill(column, width, height, remaining, doc, book, from).0.chapters.len()
            >= column.chapters.len(),
        fill(column, width, height, remaining, doc, book, from).0.chapters.take(
            column.chapters.len() as int,
        ) == column.chapters,
        fill(column, width, height, remaining, doc, book, from).0.width == column.width,
        fill(column, width, height, remaining, doc, book, from).0.height == column.height,
    decreases book.len() - from,
{
    assert(column.chapters.take(column.chapters.len() as int) =~= column.chapters);
    if 0 <= from < book.len() {
        let added = add_chapter(
            column,
            width,
            height,
            remaining,
            (from + 1) as usize,
            verse_texts(doc, book[from]),
        );
        assert(added.0.chapters.take(column.chapters.len() as int) =~= column.chapters);
        match added.1 {
            FilledModel::More(left) => {
                lemma_fill_keeps_front(added.0, width, height, left, doc, book, from + 1);
                let end = fill(added.0, width, height, left, doc, book, from + 1).0;
                assert(end.chapters.take(column.chapters.len() as int) =~= end.chapters.take(
                    added.0.chapters.len() as int,
                ).take(column.chapters.len() as int));
            },
            _ => {},
        }
    }
}

/// Reads the verses of a chapter out of the document.
pub fn chapter_texts(bible: &Bible, chapter: &Chapter) -> (verses: Vec<VerseText>)
    requires
        forall|k: int| 0 <= k < chapter@.len() ==> spans_ok(bible.document(), #[trigger] chapter@[k]),
    ensures
        text_views(verses@) == verse_texts(bible.document(), chapter@),
{
    let mut verses: Vec<VerseText> = Vec::new();
    let mut k: usize = 0;
    while k < chapter.verses.len()
        invariant
            k <= chapter.verses.len(),
            forall|j: int|
                0 <= j < chapter@.len() ==> spans_ok(bible.document(), #[trigger] chapter@[j]),
            verses@.len() == k,
            forall|j: int|
                0 <= j < k ==> (#[trigger] verses@[j])@ == (VerseTextModel {
                    number: (j + 1) as usize,
                    text: joined(bible.document(), chapter@[j]),
                }),
        decreases chapter.verses.len() - k,
    {
        proof {
            assert(chapter@[k as int] == chapter.verses@[k as int]@);
        }
        let text = bible.verse_text(&chapter.verses[k]);
        verses.push(VerseText { number: k + 1, text });
        k = k + 1;
    }
    proof {
        assert(text_views(verses@) =~= verse_texts(bible.document(), chapter@));
    }
    verses
}

impl Column {
    /// Builds one column of the book `book`, beginning with the chapter
    /// `start_chapter`, counted from one. Where `overflow` holds what was
    /// carried on from the column before, the column begins with that. The
    /// result is the column and what is carried on to the next.
    pub fn from(
        width: usize,
        height: usize,
        bible: &Bible,
        book: &str,
        start_chapter: usize,
        overflow: Option<Column>,
    ) -> (result: Result<(Column, Option<Column>), Error>)
        requires
            width * height <= usize::MAX,
        ensures
            page_view(result) == page(
                width,
                height,
                bible.index().names,
                bible.index().books,
                bible.document(),
                book@,
                start_chapter,
                column_view(overflow),
            ),
            carry_fits(width, height, column_view(overflow)) ==> (result matches Ok(built)
                ==> built.0@.cost() <= width * height),
    {
        let mut column = match overflow {
            Some(column) => column,
            None => Column::new(width, height),
        };
        let budget = width * height;
        let mut remaining = budget.saturating_sub(column.chars_consumed());
        let place = match bible.find_book(book) {
            Some(place) => place,
            None => {
                return Err(Error::BookNotFound(book.to_owned()));
            },
        };
        if start_chapter == 0 {
            return Err(Error::ChapterNotFound(book.to_owned(), 0));
        }
        let found = bible.book_at(place);
        let ghost doc = bible.document();
        let ghost spans = bible.index().books[place as int];
        let ghost first = column@;
        let ghost cells = remaining as nat;
        let mut at: usize = start_chapter - 1;
        proof {
            assert(spans == found@);
            if carry_fits(width, height, column_view(overflow)) {
                lemma_fill_room(
                    first,
                    width,
                    height,
                    cells,
                    doc,
                    spans,
                    start_chapter - 1,
                    height as nat,
                );
            }
        }
        while at < found.chapters.len()
            invariant
                spans == found@,
                spans == bible.index().books[place as int],
                position_of(bible.index().names, book@) == Some(place as int),
                start_chapter >= 1,
                first == first_column(width, height, column_view(overflow)),
                cells == cells_left(width, height, first),
                carry_fits(width, height, column_view(overflow)) ==> fill(
                    first,
                    width,
                    height,
                    cells,
                    doc,
                    spans,
                    start_chapter - 1,
                ).0.cost() <= width * height,
                doc == bible.document(),
                forall|c: int, v: int|
                    0 <= c < found@.len() && 0 <= v < found@[c].len() ==> spans_ok(
                        doc,
                        #[trigger] found@[c][v],
                    ),
                fill(first, width, height, cells, doc, spans, start_chapter - 1) == fill(
                    column@,
                    width,
                    height,
                    remaining as nat,
                    doc,
                    spans,
                    at as int,
                ),
            decreases found.chapters.len() - at,
        {
            let chapter = &found.chapters[at];
            proof {
                assert(spans[at as int] == chapter@);
                assert forall|k: int| 0 <= k < chapter@.len() implies spans_ok(
                    doc,
                    #[trigger] chapter@[k],
                ) by {
                    assert(found@[at as int][k] == chapter@[k]);
                }
            }
            let verses = chapter_texts(bible, chapter);
            proof {
                lemma_fill_verses_begun(
                    width,
                    height,
                    (at + 1) as usize,
                    text_views(verses@),
                    0,
                    Seq::empty(),
                    (remaining - separator(column@, width) - width) as nat,
                );
            }
            match column.push_chapter(width, height, remaining, at + 1, verses) {
                Filled::Full => {
                    return Ok((column, None));
                },
                Filled::Split(rest) => {
                    return Ok((column, rest));
                },
                Filled::More(left) => {
                    remaining = left;
                },
            }
            at = at + 1;
        }
        Ok((column, None))
    }
}

/// Cells and what is left of their last line make whole lines.
pub proof fn lemma_line_rest(cells: nat, width: nat)
    requires
        width > 0,
    ensures
        (cells + line_rest(cells, width)) % width == 0,
        line_rest(cells, width) < width,
{
    let w = width as int;
    let over = cells as int % w;
    let lines = cells as int / w;
    lemma_fundamental_div_mod(cells as int, w);
    lemma_mod_bound(cells as int, w);
    if over != 0 {
        assert(cells + (w - over) == w * (lines + 1) + 0) by (nonlinear_arith)
            requires
                cells == w * lines + over,
        ;
        lemma_mod_multiples_vanish(lines + 1, 0, w);
        lemma_small_mod(0, width);
    }
}

/// Two counts of whole lines make whole lines.
pub proof fn lemma_lines_add(a: nat, b: nat, width: nat)
    requires
        width > 0,
        a % width == 0,
        b % width == 0,
    ensures
        (a + b) % width == 0,
{
    lemma_add_mod_noop(a as int, b as int, width as int);
    lemma_small_mod(0, width);
}

/// What whole lines leave of whole lines are whole lines.
pub proof fn lemma_lines_sub(a: nat, b: nat, width: nat)
    requires
        width > 0,
        a % width == 0,
        b % width == 0,
        b <= a,
    ensures
        (a - b) % (width as int) == 0,
{
    lemma_sub_mod_noop(a as int, b as int, width as int);
    lemma_small_mod(0, width);
}

/// A number of lines are whole lines.
pub proof fn lemma_lines_whole(width: nat, lines: nat)
    requires
        width > 0,
    ensures
        (width * lines) % width == 0,
        width % width == 0,
        0nat % width == 0,
{
    lemma_mod_multiples_vanish(lines as int, 0, width as int);
    lemma_mod_multiples_vanish(1, 0, width as int);
    lemma_small_mod(0, width);
    assert(width * 1 == width) by (nonlinear_arith);
}

/// Cells that fit into whole lines still fit with what is left of their last
/// line.
pub proof fn lemma_lines_fit(cells: nat, width: nat, room: nat)
    requires
        width > 0,
        room % width == 0,
        cells <= room,
    ensures
        cells + line_rest(cells, width) <= room,
{
    lemma_line_rest(cells, width);
    let total = cells + line_rest(cells, width);
    if total > room {
        lemma_lines_sub(total, room, width);
        lemma_small_mod((total - room) as nat, width);
    }
}

/// A chapter takes whole lines.
pub proof fn lemma_chapter_lines(chapter: ChapterModel, width: nat)
    requires
        width > 0,
    ensures
        chapter.cost(width) % width == 0,
{
    lemma_line_rest(verses_cost(chapter.verses, width), width);
    lemma_lines_whole(width, 1);
    lemma_lines_add(
        chapter.heading_cost(width),
        verses_cost(chapter.verses, width) + line_rest(verses_cost(chapter.verses, width), width),
        width,
    );
}

/// The chapters of a column take whole lines.
pub proof fn lemma_chapters_lines(chapters: Seq<ChapterModel>, width: nat)
    requires
        width > 0,
    ensures
        chapters_cost(chapters, width) % width == 0,
    decreases chapters.len(),
{
    lemma_lines_whole(width, 1);
    if chapters.len() > 0 {
        lemma_chapters_lines(chapters.drop_last(), width);
        lemma_chapter_lines(chapters.last(), width);
        let gap: nat = if chapters.len() > 1 && chapters.last().show_heading {
            width
        } else {
            0
        };
        lemma_lines_add(chapters_cost(chapters.drop_last(), width), gap, width);
        lemma_lines_add(
            chapters_cost(chapters.drop_last(), width) + gap,
            chapters.last().cost(width),
            width,
        );
    }
}

/// The first part of a split verse stays within the budget that its number
/// fits into.
pub proof fn lemma_head_fits(verse: VerseModel, width: nat, budget: nat)
    requires
        number_cells(verse.show_number, verse.number as nat) <= budget,
    ensures
        verse.head(width, 0, budget).cost(width, 0) <= budget,
{
    lemma_split_conserves(verse, width, 0, budget);
    if verse.fit(width, 0, budget) == 0 {
        lemma_head_words(verse, width, 0, budget);
        assert(word_lens(verse.text).take(0) =~= Seq::<nat>::empty());
    }
}

/// Filling a chapter stays within the room of whole lines that its verses
/// were given: the verses of the filled chapter fit into the room, and where
/// the chapter was filled to its end, what it leaves fits beside its lines.
pub proof fn lemma_fill_verses_room(
    width: usize,
    height: usize,
    number: usize,
    verses: Seq<VerseTextModel>,
    last: usize,
    taken: Seq<VerseModel>,
    remaining: nat,
    room: nat,
)
    requires
        width > 0,
        room % (width as nat) == 0,
        verses_cost(taken, width as nat) + remaining <= room,
    ensures
        ({
            let filled = fill_verses(width, height, number, verses, last, taken, remaining);
            let cells = verses_cost(filled.0.verses, width as nat);
            &&& cells + line_rest(cells, width as nat) <= room
            &&& filled.1 matches FilledModel::More(left) ==> cells + line_rest(cells, width as nat)
                + left <= room
        }),
    decreases verses.len(),
{
    let w = width as nat;
    if verses.len() == 0 {
        let cells = verses_cost(taken, w);
        lemma_lines_fit(cells, w, room);
        lemma_line_rest(cells, w);
    } else {
        let verse = shown_verse(verses.first(), last);
        let cost = verse.cost(w, 0);
        if cost <= remaining {
            assert(taken.push(verse).drop_last() =~= taken);
            lemma_fill_verses_room(
                width,
                height,
                number,
                verses.drop_first(),
                verse.number,
                taken.push(verse),
                (remaining - cost) as nat,
                room,
            );
        } else if number_cells(verse.show_number, verse.number as nat) > remaining {
            lemma_lines_fit(verses_cost(taken, w), w, room);
        } else {
            let head = verse.head(w, 0, remaining);
            lemma_head_fits(verse, w, remaining);
            assert(taken.push(head).drop_last() =~= taken);
            lemma_lines_fit(verses_cost(taken.push(head), w), w, room);
        }
    }
}

/// Adding a chapter keeps a column within its cells: where the column's
/// chapters and the cells that are left for it fit into a number of lines,
/// the column with the chapter does, together with what is left behind it.
pub proof fn lemma_add_chapter_room(
    column: ColumnModel,
    width: usize,
    height: usize,
    remaining: nat,
    number: usize,
    verses: Seq<VerseTextModel>,
    lines: nat,
)
    requires
        column.width == width,
        column.cost() + remaining <= width as nat * lines,
    ensures
        ({
            let added = add_chapter(column, width, height, remaining, number, verses);
            &&& added.0.width == width
            &&& added.0.cost() <= width as nat * lines
            &&& added.1 matches FilledModel::More(left) ==> added.0.cost() + left <= width as nat
                * lines
        }),
{
    let w = width as nat;
    let room = w * lines;
    let gap = separator(column, width);
    if !(gap >= remaining || width >= remaining - gap) {
        assert(w > 0) by (nonlinear_arith)
            requires
                remaining <= w * lines,
                remaining > 0,
        ;
        let begun = (remaining - gap - width) as nat;
        let filled = fill_verses(width, height, number, verses, 0, Seq::empty(), begun);
        lemma_fill_verses_begun(width, height, number, verses, 0, Seq::empty(), begun);
        lemma_chapters_lines(column.chapters, w);
        lemma_lines_whole(w, lines);
        let used = column.cost() + gap + w;
        lemma_lines_add(column.cost(), gap, w);
        lemma_lines_add(column.cost() + gap, w, w);
        lemma_lines_sub(room, used, w);
        let space = (room - used) as nat;
        lemma_fill_verses_room(width, height, number, verses, 0, Seq::empty(), begun, space);
        let chapters = column.chapters.push(filled.0);
        assert(chapters.drop_last() =~= column.chapters);
        assert(chapters.last() == filled.0);
    }
}

/// Filling a column keeps it within its cells.
pub proof fn lemma_fill_room(
    column: ColumnModel,
    width: usize,
    height: usize,
    remaining: nat,
    doc: Seq<u8>,
    book: BookSpans,
    from: int,
    lines: nat,
)
    requires
        column.width == width,
        column.cost() + remaining <= width as nat * lines,
    ensures
        fill(column, width, height, remaining, doc, book, from).0.cost() <= width as nat * lines,
    decreases book.len() - from,
{
    if 0 <= from < book.len() {
        let added = add_chapter(
            column,
            width,
            height,
            remaining,
            (from + 1) as usize,
            verse_texts(doc, book[from]),
        );
        lemma_add_chapter_room(
            column,
            width,
            height,
            remaining,
            (from + 1) as usize,
            verse_texts(doc, book[from]),
            lines,
        );
        match added.1 {
            FilledModel::More(left) => {
                lemma_fill_room(added.0, width, height, left, doc, book, from + 1, lines);
            },
            _ => {},
        }
    }
}

/// The words of `verses`, verse by verse.
pub open spec fn verses_words(verses: Seq<VerseModel>) -> Seq<Seq<char>>
    decreases verses.len(),
{
    if verses.len() == 0 {
        Seq::empty()
    } else {
        verses_words(verses.drop_last()) + words(verses.last().text)
    }
}

/// The words of the verses of a book, verse by verse.
pub open spec fn texts_words(verses: Seq<VerseTextModel>) -> Seq<Seq<char>>
    decreases verses.len(),
{
    if verses.len() == 0 {
        Seq::empty()
    } else {
        texts_words(verses.drop_last()) + words(verses.last().text)
    }
}

/// The words of `chapters`, chapter by chapter.
pub open spec fn chapters_words(chapters: Seq<ChapterModel>) -> Seq<Seq<char>>
    decreases chapters.len(),
{
    if chapters.len() == 0 {
        Seq::empty()
    } else {
        chapters_words(chapters.drop_last()) + verses_words(chapters.last().verses)
    }
}

/// The words of what is carried on; none where nothing is.
pub open spec fn carry_words(rest: Option<ColumnModel>) -> Seq<Seq<char>> {
    match rest {
        Some(column) => chapters_words(column.chapters),
        None => Seq::empty(),
    }
}

/// The words of what a chapter carries on; none where it ended otherwise.
pub open spec fn outcome_words(outcome: FilledModel) -> Seq<Seq<char>> {
    match outcome {
        FilledModel::Split(rest) => carry_words(rest),
        _ => Seq::empty(),
    }
}

/// How many of `verses` the filling of a chapter reads, whole or in part:
/// every verse that fits, and the first that does not.
pub open spec fn verses_read(width: usize, verses: Seq<VerseTextModel>, last: usize, remaining: nat) -> nat
    decreases verses.len(),
{
    if verses.len() == 0 {
        0
    } else {
        let verse = shown_verse(verses.first(), last);
        let cost = verse.cost(width as nat, 0);
        if cost <= remaining {
            1 + verses_read(width, verses.drop_first(), verse.number, (remaining - cost) as nat)
        } else {
            1
        }
    }
}

/// The words of a list of verses of a book with one more verse in front.
pub proof fn lemma_texts_words_front(verse: VerseTextModel, verses: Seq<VerseTextModel>)
    ensures
        texts_words(seq![verse] + verses) == words(verse.text) + texts_words(verses),
    decreases verses.len(),
{
    let all = seq![verse] + verses;
    if verses.len() == 0 {
        assert(all.drop_last() =~= Seq::<VerseTextModel>::empty());
        assert(all.last() == verse);
        assert(texts_words(all.drop_last()) =~= Seq::<Seq<char>>::empty());
        assert(texts_words(verses) =~= Seq::<Seq<char>>::empty());
        assert(texts_words(all) =~= words(verse.text) + texts_words(verses));
    } else {
        assert(all.drop_last() =~= seq![verse] + verses.drop_last());
        lemma_texts_words_front(verse, verses.drop_last());
        assert(texts_words(all) =~= words(verse.text) + texts_words(verses));
    }
}

/// Filling a chapter neither drops a word nor repeats one. The words of the
/// filled chapter, with the words of what it carries on, are the words of the
/// verses that the chapter had before and of the verses that were read, in
/// their order. A chapter that is filled to its end has read all its verses.
pub proof fn lemma_fill_verses_in_order(
    width: usize,
    height: usize,
    number: usize,
    verses: Seq<VerseTextModel>,
    last: usize,
    taken: Seq<VerseModel>,
    remaining: nat,
)
    ensures
        verses_read(width, verses, last, remaining) <= verses.len(),
        verses_words(fill_verses(width, height, number, verses, last, taken, remaining).0.verses)
            + outcome_words(fill_verses(width, height, number, verses, last, taken, remaining).1)
            == verses_words(taken) + texts_words(
            verses.take(verses_read(width, verses, last, remaining) as int),
        ),
        fill_verses(width, height, number, verses, last, taken, remaining).1 is More
            ==> verses_read(width, verses, last, remaining) == verses.len(),
        fill_verses(width, height, number, verses, last, taken, remaining).1 is Split
            ==> verses_read(width, verses, last, remaining) >= 1,
    decreases verses.len(),
{
    let filled = fill_verses(width, height, number, verses, last, taken, remaining);
    let read = verses_read(width, verses, last, remaining) as int;
    let none = Seq::<Seq<char>>::empty();
    if verses.len() == 0 {
        assert(verses.take(0) =~= Seq::<VerseTextModel>::empty());
        assert(verses_words(taken) + none =~= verses_words(taken));
    } else {
        let verse = shown_verse(verses.first(), last);
        let cost = verse.cost(width as nat, 0);
        let one = seq![verses.first()];
        assert(one.drop_last() =~= Seq::<VerseTextModel>::empty());
        assert(texts_words(one) =~= words(verse.text)) by {
            reveal_with_fuel(texts_words, 2);
        }
        if cost <= remaining {
            let rest = verses.drop_first();
            let more = verses_read(width, rest, verse.number, (remaining - cost) as nat) as int;
            lemma_fill_verses_in_order(
                width,
                height,
                number,
                rest,
                verse.number,
                taken.push(verse),
                (remaining - cost) as nat,
            );
            assert(taken.push(verse).drop_last() =~= taken);
            assert(verses.take(read) =~= one + rest.take(more));
            lemma_texts_words_front(verses.first(), rest.take(more));
            assert(verses_words(taken.push(verse)) + texts_words(rest.take(more)) =~= verses_words(
                taken,
            ) + (words(verse.text) + texts_words(rest.take(more))));
        } else {
            assert(verses.take(1) =~= one);
            if number_cells(verse.show_number, verse.number as nat) > remaining {
                let carry = carried(width, height, number, verse);
                assert(carry.chapters.drop_last() =~= Seq::<ChapterModel>::empty());
                assert(carry.chapters.last().verses.drop_last() =~= Seq::<VerseModel>::empty());
                assert(chapters_words(carry.chapters) =~= words(verse.text)) by {
                    reveal_with_fuel(chapters_words, 2);
                    reveal_with_fuel(verses_words, 2);
                }
            } else {
                let head = verse.head(width as nat, 0, remaining);
                lemma_split_conserves(verse, width as nat, 0, remaining);
                assert(taken.push(head).drop_last() =~= taken);
                match verse.tail(width as nat, 0, remaining) {
                    Some(rest) => {
                        let carry = carried(width, height, number, rest);
                        assert(carry.chapters.drop_last() =~= Seq::<ChapterModel>::empty());
                        assert(carry.chapters.last().verses.drop_last() =~= Seq::<
                            VerseModel,
                        >::empty());
                        assert(chapters_words(carry.chapters) =~= words(rest.text)) by {
                            reveal_with_fuel(chapters_words, 2);
                            reveal_with_fuel(verses_words, 2);
                        }
                        assert(verses_words(taken.push(head)) + words(rest.text) =~= verses_words(
                            taken,
                        ) + (words(head.text) + words(rest.text)));
                    },
                    None => {
                        assert(verses_words(taken.push(head)) + none =~= verses_words(taken) + (
                        words(head.text) + none));
                    },
                }
            }
        }
    }
}

/// The words that filling a column reads from a book: the words of every
/// chapter that is added whole, and of the verses that are read of the
/// chapter that ends the column.
pub open spec fn words_read(
    column: ColumnModel,
    width: usize,
    height: usize,
    remaining: nat,
    doc: Seq<u8>,
    book: BookSpans,
    from: int,
) -> Seq<Seq<char>>
    decreases book.len() - from,
{
    if from < 0 || from >= book.len() {
        Seq::empty()
    } else {
        let verses = verse_texts(doc, book[from]);
        let added = add_chapter(column, width, height, remaining, (from + 1) as usize, verses);
        match added.1 {
            FilledModel::Full => Seq::empty(),
            FilledModel::Split(_) => texts_words(
                verses.take(
                    verses_read(
                        width,
                        verses,
                        0,
                        (remaining - separator(column, width) - width) as nat,
                    ) as int,
                ),
            ),
            FilledModel::More(left) => texts_words(verses) + words_read(
                added.0,
                width,
                height,
                left,
                doc,
                book,
                from + 1,
            ),
        }
    }
}

/// Building a column neither drops a word nor repeats one. The words of the
/// column, with the words of what is carried on, are the words that the
/// column began with and the words that were read from the book, in the
/// order of the book.
pub proof fn lemma_fill_in_order(
    column: ColumnModel,
    width: usize,
    height: usize,
    remaining: nat,
    doc: Seq<u8>,
    book: BookSpans,
    from: int,
)
    ensures
        chapters_words(fill(column, width, height, remaining, doc, book, from).0.chapters)
            + carry_words(fill(column, width, height, remaining, doc, book, from).1)
            == chapters_words(column.chapters) + words_read(
            column,
            width,
            height,
            remaining,
            doc,
            book,
            from,
        ),
    decreases book.len() - from,
{
    let none = Seq::<Seq<char>>::empty();
    let had = chapters_words(column.chapters);
    if from < 0 || from >= book.len() {
        assert(had + none =~= had);
    } else {
        let verses = verse_texts(doc, book[from]);
        let number = (from + 1) as usize;
        let added = add_chapter(column, width, height, remaining, number, verses);
        let gap = separator(column, width);
        if gap >= remaining || width >= remaining - gap {
            assert(had + none =~= had);
        } else {
            let begun = (remaining - gap - width) as nat;
            let filled = fill_verses(width, height, number, verses, 0, Seq::empty(), begun);
            lemma_fill_verses_begun(width, height, number, verses, 0, Seq::empty(), begun);
            lemma_fill_verses_in_order(width, height, number, verses, 0, Seq::empty(), begun);
            assert(added.0.chapters.drop_last() =~= column.chapters);
            assert(added.0.chapters.last() == filled.0);
            let read = verses_read(width, verses, 0, begun) as int;
            assert(none + texts_words(verses.take(read)) =~= texts_words(verses.take(read)));
            match added.1 {
                FilledModel::More(left) => {
                    lemma_fill_in_order(added.0, width, height, left, doc, book, from + 1);
                    assert(verses.take(read) =~= verses);
                    assert(verses_words(filled.0.verses) + none =~= verses_words(
                        filled.0.verses,
                    ));
                    let later = words_read(added.0, width, height, left, doc, book, from + 1);
                    assert((had + texts_words(verses)) + later =~= had + (texts_words(verses)
                        + later));
                },
                FilledModel::Split(rest) => {
                    assert((had + verses_words(filled.0.verses)) + carry_words(rest) =~= had + (
                    verses_words(filled.0.verses) + carry_words(rest)));
                },
                FilledModel::Full => {},
            }
        }
    }
}

/// How a piece of a line is meant to look.
#[derive(Clone, Copy, Debug, PartialEq, Eq, Structural)]
pub enum Style {
    /// The heading of a chapter.
    Heading,
    /// The number of a verse.
    Number,
    /// The text of a verse.
    Body,
}

/// A piece of a line: its text, and how it is meant to look.
#[derive(Debug)]
pub struct TextSpan {
    pub style: Style,
    pub text: String,
}

/// What a [`TextSpan`] holds.
pub struct SpanModel {
    pub style: Style,
    pub text: Seq<char>,
}

impl View for TextSpan {
    type V = SpanModel;

    open spec fn view(&self) -> SpanModel {
        SpanModel { style: self.style, text: self.text@ }
    }
}

/// The views of the pieces of one line.
pub open spec fn line_view(line: Vec<TextSpan>) -> Seq<SpanModel> {
    line@.map_values(|s: TextSpan| s@)
}

/// The views of `lines`, in order.
pub open spec fn line_views(lines: Seq<Vec<TextSpan>>) -> Seq<Seq<SpanModel>> {
    lines.map_values(|l: Vec<TextSpan>| line_view(l))
}

/// The pieces that one verse adds to the line of its chapter: its number
/// with a space behind it where the number is shown, and its text, without
/// the white space that it begins with, with a space behind it.
pub open spec fn verse_spans(verse: VerseModel) -> Seq<SpanModel> {
    let body = SpanModel {
        style: Style::Body,
        text: verse.text.skip(next_word(verse.text, 0)) + seq![' '],
    };
    if verse.show_number {
        seq![
            SpanModel { style: Style::Number, text: decimal(verse.number as nat) + seq![' '] },
            body,
        ]
    } else {
        seq![body]
    }
}

/// The pieces of the line of a chapter: those of its verses, in order.
pub open spec fn verses_spans(verses: Seq<VerseModel>) -> Seq<SpanModel>
    decreases verses.len(),
{
    if verses.len() == 0 {
        Seq::empty()
    } else {
        verses_spans(verses.drop_last()) + verse_spans(verses.last())
    }
}

/// The heading of the chapter `number`.
pub open spec fn heading(number: usize) -> SpanModel {
    SpanModel { style: Style::Heading, text: "Chapter "@ + decimal(number as nat) }
}

/// The lines of one chapter. A chapter that shows its heading begins with
/// it, behind an empty line unless the chapter is the first of its column.
/// The verses follow as one line, which the terminal wraps; a chapter
/// without verses has no such line.
pub open spec fn chapter_lines(chapter: ChapterModel, first: bool) -> Seq<Seq<SpanModel>> {
    let above: Seq<Seq<SpanModel>> = if !chapter.show_heading {
        Seq::empty()
    } else if first {
        seq![seq![heading(chapter.number)]]
    } else {
        seq![Seq::empty(), seq![heading(chapter.number)]]
    };
    if chapter.verses.len() == 0 {
        above
    } else {
        above.push(verses_spans(chapter.verses))
    }
}

/// The lines of `chapters`, chapter by chapter.
pub open spec fn chapters_lines(chapters: Seq<ChapterModel>) -> Seq<Seq<SpanModel>>
    decreases chapters.len(),
{
    if chapters.len() == 0 {
        Seq::empty()
    } else {
        chapters_lines(chapters.drop_last()) + chapter_lines(
            chapters.last(),
            chapters.len() == 1,
        )
    }
}

impl ColumnVerse {
    /// Adds the pieces of the verse to `line`.
    pub fn push_spans(&self, line: &mut Vec<TextSpan>)
        ensures
            line_view(*final(line)) == line_view(*old(line)) + verse_spans(self@),
    {
        let ghost before = line_view(*line);
        if self.show_number {
            let mut number = decimal_text(self.number);
            number.append(" ");
            let span = TextSpan { style: Style::Number, text: number };
            proof {
                reveal_strlit(" ");
                assert(" "@ =~= seq![' ']);
                assert(line@.push(span).map_values(|s: TextSpan| s@) =~= before.push(span@));
            }
            line.push(span);
        }
        let ghost middle = line_view(*line);
        let trimmed = ColumnVerse::new(false, self.number, self.text.as_str());
        let mut text = trimmed.text;
        text.append(" ");
        let span = TextSpan { style: Style::Body, text };
        proof {
            reveal_strlit(" ");
            assert(" "@ =~= seq![' ']);
            assert(line@.push(span).map_values(|s: TextSpan| s@) =~= middle.push(span@));
            assert(middle.push(span@) =~= before + verse_spans(self@));
        }
        line.push(span);
    }
}

impl ColumnChapter {
    /// Adds the lines of the chapter to `lines`; `first` says that the
    /// chapter is the first of its column.
    pub fn push_lines(&self, first: bool, lines: &mut Vec<Vec<TextSpan>>)
        ensures
            line_views(final(lines)@) == line_views(old(lines)@) + chapter_lines(self@, first),
    {
        let ghost before = line_views(lines@);
        if self.show_heading {
            if !first {
                let blank: Vec<TextSpan> = Vec::new();
                proof {
                    assert(line_view(blank) =~= Seq::<SpanModel>::empty());
                    assert(line_views(lines@.push(blank)) =~= line_views(lines@).push(
                        line_view(blank),
                    ));
                }
                lines.push(blank);
            }
            let mut text = "Chapter ".to_owned();
            text.append(decimal_text(self.number).as_str());
            let mut line: Vec<TextSpan> = Vec::new();
            line.push(TextSpan { style: Style::Heading, text });
            proof {
                assert(line_view(line) =~= seq![heading(self.number)]);
                assert(line_views(lines@.push(line)) =~= line_views(lines@).push(line_view(line)));
            }
            lines.push(line);
        }
        let ghost above = line_views(lines@);
        proof {
            assert(above =~= before + chapter_lines(
                ChapterModel { verses: Seq::empty(), ..self@ },
                first,
            ));
        }
        if self.verses.len() > 0 {
            let mut line: Vec<TextSpan> = Vec::new();
            let mut k: usize = 0;
            let ghost verses = self@.verses;
            proof {
                assert(line_view(line) =~= Seq::<SpanModel>::empty());
                assert(verses.take(0) =~= Seq::<VerseModel>::empty());
            }
            while k < self.verses.len()
                invariant
                    k <= self.verses.len(),
                    verses == self@.verses,
                    line_view(line) == verses_spans(verses.take(k as int)),
                decreases self.verses.len() - k,
            {
                proof {
                    assert(verses.take(k as int + 1).drop_last() =~= verses.take(k as int));
                    assert(verses.take(k as int + 1).last() == self.verses@[k as int]@);
                }
                self.verses[k].push_spans(&mut line);
                k = k + 1;
            }
            proof {
                assert(verses.take(k as int) =~= verses);
                assert(line_views(lines@.push(line)) =~= above.push(line_view(line)));
                assert(above.push(line_view(line)) =~= before + chapter_lines(self@, first));
            }
            lines.push(line);
        }
    }
}

impl Column {
    /// The lines of the column as plain text, each piece with the way it is
    /// meant to look: the headings of the chapters, the numbers of the verses
    /// and their text.
    pub fn lines(&self) -> (lines: Vec<Vec<TextSpan>>)
        ensures
            line_views(lines@) == chapters_lines(self@.chapters),
    {
        let mut lines: Vec<Vec<TextSpan>> = Vec::new();
        let ghost chapters = self@.chapters;
        let mut k: usize = 0;
        proof {
            assert(line_views(lines@) =~= Seq::<Seq<SpanModel>>::empty());
            assert(chapters.take(0) =~= Seq::<ChapterModel>::empty());
        }
        while k < self.chapters.len()
            invariant
                k <= self.chapters.len(),
                chapters == self@.chapters,
                line_views(lines@) == chapters_lines(chapters.take(k as int)),
            decreases self.chapters.len() - k,
        {
            proof {
                assert(chapters.take(k as int + 1).drop_last() =~= chapters.take(k as int));
                assert(chapters.take(k as int + 1).last() == self.chapters@[k as int]@);
            }
            self.chapters[k].push_lines(k == 0, &mut lines);
            k = k + 1;
        }
        proof {
            assert(chapters.take(k as int) =~= chapters);
        }
        lines
    }
}

} // verus!
