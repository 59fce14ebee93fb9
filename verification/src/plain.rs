//! The text of a book as one run of numbered verses, for a pane that wraps
//! the text itself.

use crate::bible::{joined, position_of, spans_ok, Bible, BookSpans, ChapterSpans, Spans};
use crate::components::BookReader;
use crate::wordwrap::{
    clip, lemma_word_spans_ordered, text_bytes, word_spans, words, words_match, words_of,
};
use vstd::prelude::*;
use vstd::string::*;

verus! {

/// The character of the digit `d`.
pub open spec fn digit(d: nat) -> char {
    if d == 0 {
        '0'
    } else if d == 1 {
        '1'
    } else if d == 2 {
        '2'
    } else if d == 3 {
        '3'
    } else if d == 4 {
        '4'
    } else if d == 5 {
        '5'
    } else if d == 6 {
        '6'
    } else if d == 7 {
        '7'
    } else if d == 8 {
        '8'
    } else {
        '9'
    }
}

/// The number `n` in decimal digits.
pub open spec fn decimal(n: nat) -> Seq<char>
    decreases n,
{
    if n < 10 {
        seq![digit(n)]
    } else {
        decimal(n / 10).push(digit(n % 10))
    }
}

/// `items` with one space between each two.
pub open spec fn spaced(items: Seq<Seq<char>>) -> Seq<char>
    decreases items.len(),
{
    if items.len() == 0 {
        Seq::empty()
    } else if items.len() == 1 {
        items.last()
    } else {
        spaced(items.drop_last()) + seq![' '] + items.last()
    }
}

/// `text` with its white space made plain: its words with one space between
/// each two.
pub open spec fn normalized(text: Seq<char>) -> Seq<char> {
    spaced(words(text))
}

/// A verse as a run of text shows it: its number with a space behind it, and
/// its text, made plain, with a space behind it.
pub open spec fn plain_span(doc: Seq<u8>, number: nat, spans: Spans) -> (Seq<char>, Seq<char>) {
    (decimal(number) + seq![' '], normalized(joined(doc, spans)) + seq![' '])
}

/// The bytes of a verse as a run of text shows it.
pub open spec fn span_size(span: (Seq<char>, Seq<char>)) -> nat {
    text_bytes(span.0) + text_bytes(span.1)
}

/// The verses of a chapter from the place `from` on, up to and with the
/// verse at which the bytes counted reach `limit`; with them, the bytes
/// counted at the end, and whether the limit was reached.
pub open spec fn chapter_run(
    doc: Seq<u8>,
    chapter: ChapterSpans,
    from: int,
    count: nat,
    limit: nat,
) -> (Seq<(Seq<char>, Seq<char>)>, nat, bool)
    decreases chapter.len() - from,
{
    if from < 0 || from >= chapter.len() {
        (Seq::empty(), count, false)
    } else {
        let span = plain_span(doc, (from + 1) as nat, chapter[from]);
        let counted = count + span_size(span);
        if counted >= limit {
            (seq![span], counted, true)
        } else {
            let rest = chapter_run(doc, chapter, from + 1, counted, limit);
            (seq![span] + rest.0, rest.1, rest.2)
        }
    }
}

/// The verses of a book from the chapter at the place `from` on, up to and
/// with the verse at which the bytes counted reach `limit`.
pub open spec fn book_run(doc: Seq<u8>, book: BookSpans, from: int, count: nat, limit: nat) -> Seq<
    (Seq<char>, Seq<char>),
>
    decreases book.len() - from,
{
    if from < 0 || from >= book.len() {
        Seq::empty()
    } else {
        run_behind(doc, book, from, chapter_run(doc, book[from], 0, count, limit), limit)
    }
}

/// A run of verses of the chapter at the place `at`, and behind it the
/// verses of the chapters that follow unless the limit was reached.
pub open spec fn run_behind(
    doc: Seq<u8>,
    book: BookSpans,
    at: int,
    run: (Seq<(Seq<char>, Seq<char>)>, nat, bool),
    limit: nat,
) -> Seq<(Seq<char>, Seq<char>)>
    decreases book.len() - at, 0nat,
{
    if run.2 || at < 0 || at >= book.len() {
        run.0
    } else {
        run.0 + book_run(doc, book, at + 1, run.1, limit)
    }
}

/// The text of the book `name` as one run of numbered verses, up to and with
/// the verse at which its bytes reach `limit`; nothing for a book that the
/// index does not hold.
pub open spec fn plain_text(
    names: Seq<Seq<char>>,
    books: Seq<BookSpans>,
    doc: Seq<u8>,
    name: Seq<char>,
    limit: nat,
) -> Seq<(Seq<char>, Seq<char>)> {
    match position_of(names, name) {
        Some(place) => book_run(doc, books[place], 0, 0, limit),
        None => Seq::empty(),
    }
}

/// The views of `spans`, in order.
pub open spec fn span_views(spans: Seq<(String, String)>) -> Seq<(Seq<char>, Seq<char>)> {
    spans.map_values(|s: (String, String)| (s.0@, s.1@))
}

/// The digit `d` as text.
pub fn digit_text(d: usize) -> (text: &'static str)
    requires
        d < 10,
    ensures
        text@ == seq![digit(d as nat)],
{
    proof {
        reveal_strlit("0");
        reveal_strlit("1");
        reveal_strlit("2");
        reveal_strlit("3");
        reveal_strlit("4");
        reveal_strlit("5");
        reveal_strlit("6");
        reveal_strlit("7");
        reveal_strlit("8");
        reveal_strlit("9");
    }
    let text = if d == 0 {
        "0"
    } else if d == 1 {
        "1"
    } else if d == 2 {
        "2"
    } else if d == 3 {
        "3"
    } else if d == 4 {
        "4"
    } else if d == 5 {
        "5"
    } else if d == 6 {
        "6"
    } else if d == 7 {
        "7"
    } else if d == 8 {
        "8"
    } else {
        "9"
    };
    proof {
        assert(text@ =~= seq![digit(d as nat)]);
    }
    text
}

/// The number `n` in decimal digits.
pub fn decimal_text(n: usize) -> (text: String)
    ensures
        text@ == decimal(n as nat),
    decreases n,
{
    if n < 10 {
        digit_text(n).to_owned()
    } else {
        let mut text = decimal_text(n / 10);
        text.append(digit_text(n % 10));
        proof {
            assert(decimal((n / 10) as nat) + seq![digit((n % 10) as nat)] =~= decimal(
                (n / 10) as nat,
            ).push(digit((n % 10) as nat)));
        }
        text
    }
}

/// `text` with its white space made plain: its words with one space between
/// each two.
pub fn normalize(text: &str) -> (plain: String)
    ensures
        plain@ == normalized(text@),
{
    let found = words_of(text);
    let ghost all = words(text@);
    let mut plain = String::new();
    let mut k: usize = 0;
    proof {
        lemma_word_spans_ordered(text@, 0);
        assert(all.take(0) =~= Seq::<Seq<char>>::empty());
    }
    while k < found.len()
        invariant
            k <= found.len(),
            all == words(text@),
            words_match(text@, found@),
            forall|j: int|
                0 <= j < word_spans(text@, 0).len() ==> 0 <= (#[trigger] word_spans(text@, 0)[j]).0
                    < word_spans(text@, 0)[j].1 <= text@.len(),
            plain@ == spaced(all.take(k as int)),
        decreases found.len() - k,
    {
        proof {
            assert(all.take(k as int + 1).drop_last() =~= all.take(k as int));
            assert(all.take(k as int + 1).last() == all[k as int]);
            assert(found@[k as int].start == word_spans(text@, 0)[k as int].0);
        }
        let ghost before = plain@;
        if k > 0 {
            plain.append(" ");
            proof {
                reveal_strlit(" ");
                assert(" "@ =~= seq![' ']);
            }
        } else {
            proof {
                assert(before + all[0] =~= all[0]);
            }
        }
        plain.append(text.substring_char(found[k].start, found[k].end));
        k = k + 1;
    }
    proof {
        assert(all.take(k as int) =~= all);
    }
    plain
}

impl BookReader {
    /// The text of the book `book` as one run of numbered verses, up to and
    /// with the verse at which its bytes reach `char_limit`: for each verse
    /// its number with a space behind it, and its text, made plain, with a
    /// space behind it. A book that the document does not hold has no text.
    pub fn column_text(bible: &Bible, book: &str, char_limit: usize) -> (spans: Vec<
        (String, String),
    >)
        ensures
            span_views(spans@) == plain_text(
                bible.index().names,
                bible.index().books,
                bible.document(),
                book@,
                char_limit as nat,
            ),
    {
        let mut spans: Vec<(String, String)> = Vec::new();
        proof {
            assert(span_views(spans@) =~= Seq::<(Seq<char>, Seq<char>)>::empty());
        }
        let place = match bible.find_book(book) {
            Some(place) => place,
            None => {
                return spans;
            },
        };
        let found = bible.book_at(place);
        let ghost doc = bible.document();
        let ghost limit = char_limit as nat;
        let ghost whole = book_run(doc, found@, 0, 0, limit);
        let ghost mut counted: nat = 0;
        let mut char_count: usize = 0;
        let mut c: usize = 0;
        proof {
            assert(span_views(spans@) + whole =~= whole);
        }
        while c < found.chapters.len()
            invariant_except_break
                whole == span_views(spans@) + book_run(doc, found@, c as int, counted, limit),
            invariant
                c <= found.chapters.len(),
                doc == bible.document(),
                limit == char_limit as nat,
                char_count == clip(counted),
                forall|i: int, j: int|
                    0 <= i < found@.len() && 0 <= j < found@[i].len() ==> spans_ok(
                        doc,
                        #[trigger] found@[i][j],
                    ),
            ensures
                whole == span_views(spans@),
            decreases found.chapters.len() - c,
        {
            let chapter = &found.chapters[c];
            let mut v: usize = 0;
            proof {
                assert(found@[c as int] == chapter@);
            }
            while v < chapter.verses.len()
                invariant_except_break
                    whole == span_views(spans@) + run_behind(
                        doc,
                        found@,
                        c as int,
                        chapter_run(doc, chapter@, v as int, counted, limit),
                        limit,
                    ),
                invariant
                    v <= chapter.verses.len(),
                    c < found.chapters.len(),
                    found@[c as int] == chapter@,
                    doc == bible.document(),
                    limit == char_limit as nat,
                    char_count == clip(counted),
                    forall|j: int| 0 <= j < chapter@.len() ==> spans_ok(doc, #[trigger] chapter@[j]),
                ensures
                    v == chapter.verses.len() ==> whole == span_views(spans@) + book_run(
                        doc,
                        found@,
                        c as int + 1,
                        counted,
                        limit,
                    ),
                    v < chapter.verses.len() ==> whole == span_views(spans@),
                    char_count == clip(counted),
                decreases chapter.verses.len() - v,
            {
                proof {
                    assert(chapter@[v as int] == chapter.verses@[v as int]@);
                }
                let text = bible.verse_text(&chapter.verses[v]);
                let mut body = normalize(text.as_str());
                body.append(" ");
                let mut number = decimal_text(v + 1);
                number.append(" ");
                proof {
                    reveal_strlit(" ");
                    assert(" "@ =~= seq![' ']);
                }
                let ghost span = plain_span(doc, (v + 1) as nat, chapter@[v as int]);
                let ghost old_spans = span_views(spans@);
                let ghost rest = chapter_run(doc, chapter@, v as int + 1, counted + span_size(span), limit);
                assert((number@, body@) == span);
                let size = number.as_str().as_bytes().len().saturating_add(
                    body.as_str().as_bytes().len(),
                );
                char_count = char_count.saturating_add(size);
                proof {
                    counted = counted + span_size(span);
                    assert(span_views(spans@.push((number, body))) =~= old_spans.push(span));
                    assert(old_spans.push(span) =~= old_spans + seq![span]);
                    if counted < limit {
                        if rest.2 {
                            assert(old_spans + (seq![span] + rest.0) =~= old_spans.push(span)
                                + rest.0);
                        } else {
                            let later = book_run(doc, found@, c as int + 1, rest.1, limit);
                            assert(old_spans + ((seq![span] + rest.0) + later) =~= old_spans.push(
                                span,
                            ) + (rest.0 + later));
                        }
                    }
                }
                spans.push((number, body));
                if char_count >= char_limit {
                    break ;
                }
                v = v + 1;
            }
            if v < chapter.verses.len() {
                break ;
            }
            c = c + 1;
        }
        proof {
            assert(book_run(doc, found@, found@.len() as int, counted, limit) =~= Seq::<
                (Seq<char>, Seq<char>),
            >::empty());
            assert(span_views(spans@) + Seq::<(Seq<char>, Seq<char>)>::empty() =~= span_views(
                spans@,
            ));
        }
        spans
    }
}

} // verus!
