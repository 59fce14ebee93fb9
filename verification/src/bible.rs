//! A document and its index of books, chapters and verses.
//!
//! The index holds no text. A verse is a list of spans, each the byte
//! positions of a piece of the document's text; the document is kept beside
//! the index, and a verse's text is read out of it when it is asked for.

use crate::error::{Error, ErrorModel};
use crate::markup::{
    attr, attr_value, has_attr, has_attr_val, has_attr_value, open_reader, pending_reads,
    read_markup, reader_position, same_text, ends_once, markup_reads, AttributeModel, Markup,
    MarkupModel, Read,
};
use vstd::prelude::*;
use vstd::string::*;
use vstd::utf8::*;

verus! {

/// The spans of one verse.
pub type Spans = Seq<(usize, usize)>;

/// The verses of one chapter.
pub type ChapterSpans = Seq<Spans>;

/// The chapters of one book.
pub type BookSpans = Seq<ChapterSpans>;

/// A verse as a view into the document: the byte positions at which each
/// piece of its text begins and ends.
#[derive(Default, Debug)]
pub struct VerseView {
    pub text: Vec<(usize, usize)>,
}

/// A chapter: its verses in the order of the document. The verse at place
/// `k` has the number `k + 1`.
#[derive(Default, Debug)]
pub struct Chapter {
    pub verses: Vec<VerseView>,
}

/// A book: its chapters in the order of the document. The chapter at place
/// `k` has the number `k + 1`.
#[derive(Default, Debug)]
pub struct Book {
    pub chapters: Vec<Chapter>,
}

impl View for VerseView {
    type V = Spans;

    open spec fn view(&self) -> Spans {
        self.text@
    }
}

impl View for Chapter {
    type V = ChapterSpans;

    open spec fn view(&self) -> ChapterSpans {
        self.verses@.map_values(|v: VerseView| v@)
    }
}

impl View for Book {
    type V = BookSpans;

    open spec fn view(&self) -> BookSpans {
        self.chapters@.map_values(|c: Chapter| c@)
    }
}

/// The views of `books`, in order.
pub open spec fn book_views(books: Seq<Book>) -> Seq<BookSpans> {
    books.map_values(|b: Book| b@)
}

/// The views of `names`, in order.
pub open spec fn name_views(names: Seq<String>) -> Seq<Seq<char>> {
    names.map_values(|n: String| n@)
}

impl Book {
    /// The number of chapters of the book.
    pub fn get_num_chapters(&self) -> (count: usize)
        ensures
            count == self@.len(),
    {
        self.chapters.len()
    }

    /// Opens a new chapter behind the others.
    fn open_chapter(&mut self)
        ensures
            final(self)@ == old(self)@.push(Seq::empty()),
    {
        let chapter = Chapter { verses: Vec::new() };
        proof {
            assert(chapter@ =~= Seq::<Spans>::empty());
            assert(self.chapters@.push(chapter).map_values(|c: Chapter| c@) =~= self@.push(
                chapter@,
            ));
        }
        self.chapters.push(chapter);
    }

    /// Opens a new verse behind the others of the last chapter.
    fn open_verse(&mut self)
        requires
            old(self)@.len() > 0,
        ensures
            final(self)@ == old(self)@.update(
                old(self)@.len() - 1,
                old(self)@.last().push(Seq::empty()),
            ),
    {
        let last = self.chapters.len() - 1;
        let ghost before = self.chapters@;
        let chapter = &mut self.chapters[last];
        let verse = VerseView { text: Vec::new() };
        proof {
            assert(chapter.verses@.push(verse).map_values(|v: VerseView| v@)
                =~= chapter@.push(verse@));
        }
        chapter.verses.push(verse);
        proof {
            assert(self@ =~= before.map_values(|c: Chapter| c@).update(
                last as int,
                before[last as int]@.push(Seq::empty()),
            ));
        }
    }

    /// Adds a span to the last verse of the last chapter.
    fn add_span(&mut self, span: (usize, usize))
        requires
            old(self)@.len() > 0,
            old(self)@.last().len() > 0,
        ensures
            final(self)@ == old(self)@.update(
                old(self)@.len() - 1,
                old(self)@.last().update(
                    old(self)@.last().len() - 1,
                    old(self)@.last().last().push(span),
                ),
            ),
    {
        let last = self.chapters.len() - 1;
        let ghost before = self.chapters@;
        let chapter = &mut self.chapters[last];
        let ghost verses = chapter.verses@;
        let place = chapter.verses.len() - 1;
        let verse = &mut chapter.verses[place];
        verse.text.push(span);
        proof {
            assert(chapter@ =~= verses.map_values(|v: VerseView| v@).update(
                place as int,
                verses[place as int]@.push(span),
            ));
            assert(self@ =~= before.map_values(|c: Chapter| c@).update(
                last as int,
                before[last as int]@.update(place as int, verses[place as int]@.push(span)),
            ));
        }
    }
}

impl Chapter {
    /// The number of verses of the chapter.
    pub fn get_num_verses(&self) -> (count: usize)
        ensures
            count == self@.len(),
    {
        self.verses.len()
    }
}

/// Whether `span` marks a piece of `doc` that is not empty and that begins and
/// ends between two characters.
pub open spec fn span_ok(doc: Seq<u8>, span: (usize, usize)) -> bool {
    &&& span.0 < span.1 <= doc.len()
    &&& is_char_boundary(doc, span.0 as int)
    &&& is_char_boundary(doc, span.1 as int)
}

/// Whether the spans of a verse mark pieces of `doc`, none of them reaching
/// into the next.
pub open spec fn spans_ok(doc: Seq<u8>, spans: Spans) -> bool {
    &&& forall|k: int| 0 <= k < spans.len() ==> span_ok(doc, #[trigger] spans[k])
    &&& forall|j: int, k: int|
        0 <= j < k < spans.len() ==> (#[trigger] spans[j]).1 <= (#[trigger] spans[k]).0
}

/// Whether every verse of `books` marks pieces of `doc`.
pub open spec fn books_ok(doc: Seq<u8>, books: Seq<BookSpans>) -> bool {
    forall|b: int, c: int, v: int|
        0 <= b < books.len() && 0 <= c < books[b].len() && 0 <= v < books[b][c].len() ==> spans_ok(
            doc,
            #[trigger] books[b][c][v],
        )
}

/// The place of the first of `names` that equals `name`.
pub open spec fn position_of(names: Seq<Seq<char>>, name: Seq<char>) -> Option<int>
    decreases names.len(),
{
    if names.len() == 0 {
        None
    } else {
        match position_of(names.drop_last(), name) {
            Some(place) => Some(place),
            None => if names.last() == name {
                Some(names.len() - 1)
            } else {
                None
            },
        }
    }
}

/// No name stands at two places.
pub open spec fn distinct(names: Seq<Seq<char>>) -> bool {
    forall|j: int, k: int| 0 <= j < k < names.len() ==> names[j] != names[k]
}

/// The place that `position_of` finds holds the name, and no place before it
/// does; where it finds none, no place holds the name.
pub proof fn lemma_position_of(names: Seq<Seq<char>>, name: Seq<char>)
    ensures
        match position_of(names, name) {
            Some(place) => 0 <= place < names.len() && names[place] == name && forall|j: int|
                0 <= j < place ==> names[j] != name,
            None => forall|j: int| 0 <= j < names.len() ==> names[j] != name,
        },
    decreases names.len(),
{
    if names.len() > 0 {
        let front = names.drop_last();
        lemma_position_of(front, name);
        assert forall|j: int| 0 <= j < front.len() implies front[j] == names[j] by {}
        match position_of(front, name) {
            Some(place) => {
                assert(names[place] == front[place]);
                assert forall|j: int| 0 <= j < place implies names[j] != name by {
                    assert(front[j] == names[j]);
                }
            },
            None => {
                assert forall|j: int| 0 <= j < names.len() - 1 implies names[j] != name by {
                    assert(front[j] == names[j]);
                }
            },
        }
    }
}

/// An index: the names of the books in the order in which the document
/// introduces them, and beside each name its book.
pub struct IndexModel {
    pub names: Seq<Seq<char>>,
    pub books: Seq<BookSpans>,
}

impl IndexModel {
    /// Whether the index fits the document: a book for each name, no name
    /// twice, and every span a piece of the document.
    pub open spec fn fits(self, doc: Seq<u8>) -> bool {
        &&& self.names.len() == self.books.len()
        &&& distinct(self.names)
        &&& books_ok(doc, self.books)
    }
}

/// The state of the indexer between two events.
pub struct BuilderModel {
    pub names: Seq<Seq<char>>,
    pub books: Seq<BookSpans>,
    /// The place of the book that chapters and verses go to, once a book was
    /// opened.
    pub current: Option<int>,
    /// A book has begun and its title is awaited.
    pub awaiting_title: bool,
    /// A verse has begun and has not ended.
    pub in_verse: bool,
    /// A text event did not mark a piece of the document.
    pub failed: bool,
}

/// Whether the text of `length` bytes that the reader met at `offset` can be
/// added to `spans`: it is a piece of `doc` and lies behind the spans so far.
pub open spec fn text_fits(doc: Seq<u8>, spans: Spans, offset: u64, length: usize) -> bool {
    &&& offset + length <= usize::MAX
    &&& span_ok(doc, (offset as usize, (offset + length) as usize))
    &&& (spans.len() > 0 ==> spans.last().1 <= offset)
}

impl BuilderModel {
    /// The state before the first event.
    pub open spec fn start() -> BuilderModel {
        BuilderModel {
            names: Seq::empty(),
            books: Seq::empty(),
            current: None,
            awaiting_title: false,
            in_verse: false,
            failed: false,
        }
    }

    /// Whether the state is sound for `doc`.
    pub open spec fn fits(self, doc: Seq<u8>) -> bool {
        &&& (IndexModel { names: self.names, books: self.books }).fits(doc)
        &&& match self.current {
            Some(place) => 0 <= place < self.names.len(),
            None => self.names.len() == 0,
        }
    }

    /// Makes the book `name` the current one, as a new book behind the
    /// others where the index has none of that name.
    pub open spec fn open_book(self, name: Seq<char>) -> BuilderModel {
        match position_of(self.names, name) {
            Some(place) => BuilderModel { current: Some(place), ..self },
            None => BuilderModel {
                names: self.names.push(name),
                books: self.books.push(Seq::empty()),
                current: Some(self.names.len() as int),
                ..self
            },
        }
    }

    /// Opens a chapter in the current book. Before any book was opened the
    /// chapter goes to a book without a name.
    pub open spec fn open_chapter(self) -> BuilderModel {
        match self.current {
            Some(place) => BuilderModel {
                books: self.books.update(place, self.books[place].push(Seq::empty())),
                ..self
            },
            None => BuilderModel {
                names: self.names.push(Seq::empty()),
                books: self.books.push(seq![Seq::empty()]),
                current: Some(self.names.len() as int),
                ..self
            },
        }
    }

    /// Whether the current book has a chapter.
    pub open spec fn has_chapter(self) -> bool {
        self.current is Some && self.books[self.current->0].len() > 0
    }

    /// Whether the last chapter of the current book has a verse.
    pub open spec fn has_verse(self) -> bool {
        self.has_chapter() && self.books[self.current->0].last().len() > 0
    }

    /// Begins a verse, in the last chapter of the current book where there
    /// is one.
    pub open spec fn open_verse(self) -> BuilderModel {
        if self.has_chapter() {
            let place = self.current->0;
            let book = self.books[place];
            BuilderModel {
                books: self.books.update(
                    place,
                    book.update(book.len() - 1, book.last().push(Seq::empty())),
                ),
                in_verse: true,
                ..self
            }
        } else {
            BuilderModel { in_verse: true, ..self }
        }
    }

    /// Takes a text event of `length` bytes met at `offset`. Inside a verse,
    /// text that is not empty becomes a span of the last verse; it fails the
    /// indexing where it marks no piece of the document.
    pub open spec fn add_text(self, doc: Seq<u8>, offset: u64, length: usize) -> BuilderModel {
        if !self.in_verse || length == 0 || !self.has_verse() {
            self
        } else {
            let place = self.current->0;
            let book = self.books[place];
            let chapter = book.last();
            if text_fits(doc, chapter.last(), offset, length) {
                BuilderModel {
                    books: self.books.update(
                        place,
                        book.update(
                            book.len() - 1,
                            chapter.update(
                                chapter.len() - 1,
                                chapter.last().push((offset as usize, (offset + length) as usize)),
                            ),
                        ),
                    ),
                    ..self
                }
            } else {
                BuilderModel { failed: true, ..self }
            }
        }
    }

    /// Takes an opening tag. A `div` of type `book` announces a book; the
    /// `title` that follows names it by its `short` attribute.
    pub open spec fn on_start(self, name: Seq<char>, attributes: Seq<AttributeModel>) -> BuilderModel {
        if name == "div"@ && has_attr_value(attributes, "type"@, "book"@) {
            BuilderModel { awaiting_title: true, ..self }
        } else if name == "title"@ && self.awaiting_title {
            let opened = match attr_value(attributes, "short"@) {
                Some(short) => self.open_book(short),
                None => self,
            };
            BuilderModel { awaiting_title: false, ..opened }
        } else {
            self
        }
    }

    /// Takes a tag that closes itself. A `chapter` with `sID` opens a chapter,
    /// a `verse` with `sID` begins a verse, a `verse` with `eID` ends it. A
    /// verse that is never ended stays open: it takes the text that follows,
    /// up to the next verse or to the end of the document, and is no failure.
    pub open spec fn on_empty(self, name: Seq<char>, attributes: Seq<AttributeModel>) -> BuilderModel {
        if name == "chapter"@ && attr_value(attributes, "sID"@) is Some {
            self.open_chapter()
        } else if name == "verse"@ && attr_value(attributes, "sID"@) is Some {
            self.open_verse()
        } else if name == "verse"@ && attr_value(attributes, "eID"@) is Some {
            BuilderModel { in_verse: false, ..self }
        } else {
            self
        }
    }

    /// Takes one read. After a failure nothing changes any more.
    pub open spec fn step(self, doc: Seq<u8>, read: Read) -> BuilderModel {
        if self.failed {
            self
        } else {
            match read.1 {
                MarkupModel::Start(name, attributes) => self.on_start(name, attributes),
                MarkupModel::Empty(name, attributes) => self.on_empty(name, attributes),
                MarkupModel::Text(length) => self.add_text(doc, read.0, length),
                _ => self,
            }
        }
    }

    /// Takes `reads` one after the other.
    pub open spec fn run(self, doc: Seq<u8>, reads: Seq<Read>) -> BuilderModel
        decreases reads.len(),
    {
        if reads.len() == 0 {
            self
        } else {
            self.run(doc, reads.drop_last()).step(doc, reads.last())
        }
    }
}

/// An index as the indexer hands it out.
#[derive(Debug)]
pub struct Index {
    pub names: Vec<String>,
    pub books: Vec<Book>,
}

impl View for Index {
    type V = IndexModel;

    open spec fn view(&self) -> IndexModel {
        IndexModel { names: name_views(self.names@), books: book_views(self.books@) }
    }
}

/// The indexer: it takes the events of a document one by one and builds the
/// index.
pub struct IndexBuilder<'a> {
    raw: &'a str,
    names: Vec<String>,
    books: Vec<Book>,
    current: Option<usize>,
    awaiting_title: bool,
    in_verse: bool,
    failed: bool,
}

impl<'a> View for IndexBuilder<'a> {
    type V = BuilderModel;

    closed spec fn view(&self) -> BuilderModel {
        BuilderModel {
            names: name_views(self.names@),
            books: book_views(self.books@),
            current: match self.current {
                Some(place) => Some(place as int),
                None => None,
            },
            awaiting_title: self.awaiting_title,
            in_verse: self.in_verse,
            failed: self.failed,
        }
    }
}

impl<'a> IndexBuilder<'a> {
    /// The bytes of the document that is indexed.
    pub closed spec fn document(&self) -> Seq<u8> {
        self.raw.spec_bytes()
    }

    /// Whether the indexer's state is sound for its document.
    pub open spec fn inv(&self) -> bool {
        self@.fits(self.document())
    }

    /// An indexer for the document `raw`, before the first event.
    pub fn new(raw: &'a str) -> (builder: Self)
        ensures
            builder@ == BuilderModel::start(),
            builder.document() == raw.spec_bytes(),
            builder.inv(),
    {
        let builder = IndexBuilder {
            raw,
            names: Vec::new(),
            books: Vec::new(),
            current: None,
            awaiting_title: false,
            in_verse: false,
            failed: false,
        };
        proof {
            assert(name_views(builder.names@) =~= Seq::<Seq<char>>::empty());
            assert(book_views(builder.books@) =~= Seq::<BookSpans>::empty());
        }
        builder
    }

    /// Whether a text event did not mark a piece of the document.
    pub fn failed(&self) -> (failed: bool)
        ensures
            failed == self@.failed,
    {
        self.failed
    }

    /// Hands out the index.
    pub fn finish(self) -> (index: Index)
        ensures
            index@ == (IndexModel { names: self@.names, books: self@.books }),
    {
        Index { names: self.names, books: self.books }
    }

    /// Makes the book `name` the current one.
    fn open_book(&mut self, name: String)
        requires
            old(self).inv(),
        ensures
            final(self).inv(),
            final(self).document() == old(self).document(),
            final(self)@ == old(self)@.open_book(name@),
    {
        let ghost names = name_views(self.names@);
        let mut k: usize = 0;
        while k < self.names.len()
            invariant
                k <= self.names.len(),
                names == name_views(self.names@),
                *self == *old(self),
                self.inv(),
                forall|j: int| 0 <= j < k ==> names[j] != name@,
            decreases self.names.len() - k,
        {
            if same_text(self.names[k].as_str(), name.as_str()) {
                proof {
                    lemma_position_of(names, name@);
                    assert(names[k as int] == name@);
                    match position_of(names, name@) {
                        Some(place) => {
                            if place < k {
                                assert(names[place] != name@);
                            }
                        },
                        None => {},
                    }
                    assert(position_of(names, name@) == Some(k as int));
                }
                self.current = Some(k);
                return ;
            }
            k = k + 1;
        }
        proof {
            lemma_position_of(names, name@);
            assert(name_views(self.names@.push(name)) =~= names.push(name@));
        }
        let book = Book { chapters: Vec::new() };
        proof {
            assert(book@ =~= Seq::<ChapterSpans>::empty());
            assert(book_views(self.books@.push(book)) =~= book_views(self.books@).push(book@));
        }
        self.current = Some(self.names.len());
        self.names.push(name);
        self.books.push(book);
    }

    /// Opens a chapter in the current book.
    fn open_chapter(&mut self)
        requires
            old(self).inv(),
        ensures
            final(self).inv(),
            final(self).document() == old(self).document(),
            final(self)@ == old(self)@.open_chapter(),
    {
        let ghost before = book_views(self.books@);
        match self.current {
            Some(place) => {
                self.books[place].open_chapter();
                proof {
                    assert(book_views(self.books@) =~= before.update(
                        place as int,
                        before[place as int].push(Seq::empty()),
                    ));
                }
            },
            None => {
                let name = String::new();
                let mut book = Book { chapters: Vec::new() };
                proof {
                    assert(book@ =~= Seq::<ChapterSpans>::empty());
                }
                book.open_chapter();
                proof {
                    assert(book@ =~= seq![Seq::<Spans>::empty()]);
                    assert(name_views(self.names@.push(name)) =~= name_views(self.names@).push(
                        name@,
                    ));
                    assert(book_views(self.books@.push(book)) =~= before.push(book@));
                }
                self.current = Some(self.names.len());
                self.names.push(name);
                self.books.push(book);
            },
        }
    }

    /// Begins a verse in the last chapter of the current book.
    fn open_verse(&mut self)
        requires
            old(self).inv(),
        ensures
            final(self).inv(),
            final(self).document() == old(self).document(),
            final(self)@ == old(self)@.open_verse(),
    {
        let ghost before = book_views(self.books@);
        match self.current {
            Some(place) => {
                if self.books[place].chapters.len() > 0 {
                    self.books[place].open_verse();
                    proof {
                        let book = before[place as int];
                        assert(book_views(self.books@) =~= before.update(
                            place as int,
                            book.update(book.len() - 1, book.last().push(Seq::empty())),
                        ));
                    }
                }
            },
            None => {},
        }
        self.in_verse = true;
    }

    /// Takes a text event of `length` bytes met at `offset`.
    fn add_text(&mut self, offset: u64, length: usize)
        requires
            old(self).inv(),
        ensures
            final(self).inv(),
            final(self).document() == old(self).document(),
            final(self)@ == old(self)@.add_text(old(self).document(), offset, length),
    {
        if !self.in_verse || length == 0 {
            return ;
        }
        let place = match self.current {
            Some(place) => place,
            None => {
                return ;
            },
        };
        let ghost before = book_views(self.books@);
        let ghost doc = self.document();
        let chapters = &self.books[place].chapters;
        if chapters.len() == 0 {
            return ;
        }
        let verses = &chapters[chapters.len() - 1].verses;
        if verses.len() == 0 {
            return ;
        }
        let spans = &verses[verses.len() - 1].text;
        let ghost verse = before[place as int].last().last();
        assert(verse == spans@);
        let size = self.raw.as_bytes().len();
        let fits = offset <= usize::MAX as u64 && length <= size && offset as usize <= size - length
            && self.raw.is_char_boundary(offset as usize) && self.raw.is_char_boundary(
            offset as usize + length,
        ) && (spans.len() == 0 || spans[spans.len() - 1].1 <= offset as usize);
        assert(fits == text_fits(doc, verse, offset, length));
        if fits {
            let span = (offset as usize, offset as usize + length);
            self.books[place].add_span(span);
            proof {
                let book = before[place as int];
                let chapter = book.last();
                assert(book_views(self.books@) =~= before.update(
                    place as int,
                    book.update(
                        book.len() - 1,
                        chapter.update(chapter.len() - 1, chapter.last().push(span)),
                    ),
                ));
                assert(spans_ok(doc, verse));
                assert(spans_ok(doc, verse.push(span))) by {
                    assert forall|j: int, k: int| 0 <= j < k < verse.len() + 1 implies (
                    #[trigger] verse.push(span)[j]).1 <= (#[trigger] verse.push(span)[k]).0 by {
                        if k == verse.len() {
                            assert(span_ok(doc, verse[verse.len() - 1]));
                            if j < verse.len() - 1 {
                                assert(verse[j].1 <= verse[verse.len() - 1].0);
                            }
                        }
                    }
                }
            }
        } else {
            self.failed = true;
        }
    }

    /// Takes the event `markup` that the reader met at `offset`.
    pub fn record(&mut self, offset: u64, markup: &Markup)
        requires
            old(self).inv(),
        ensures
            final(self).inv(),
            final(self).document() == old(self).document(),
            final(self)@ == old(self)@.step(old(self).document(), (offset, markup@)),
    {
        if self.failed {
            return ;
        }
        match markup {
            Markup::Start(name, attributes) => {
                if same_text(name.as_str(), "div") && has_attr_val(attributes, "type", "book") {
                    self.awaiting_title = true;
                } else if same_text(name.as_str(), "title") && self.awaiting_title {
                    match attr(attributes, "short") {
                        Some(short) => {
                            self.open_book(short);
                        },
                        None => {},
                    }
                    self.awaiting_title = false;
                }
            },
            Markup::Empty(name, attributes) => {
                if same_text(name.as_str(), "chapter") && has_attr(attributes, "sID") {
                    self.open_chapter();
                } else if same_text(name.as_str(), "verse") && has_attr(attributes, "sID") {
                    self.open_verse();
                } else if same_text(name.as_str(), "verse") && has_attr(attributes, "eID") {
                    self.in_verse = false;
                }
            },
            Markup::Text(length) => {
                self.add_text(offset, *length);
            },
            _ => {},
        }
    }
}

/// Text inside a verse is kept. Where a text event that is not empty meets
/// an open verse and marks a piece of the document, the verse has one span
/// more afterwards, the span of that text; where it marks no piece of the
/// document, the indexing has failed.
pub proof fn lemma_text_is_kept(state: BuilderModel, doc: Seq<u8>, offset: u64, length: usize)
    requires
        !state.failed,
        state.in_verse,
        length > 0,
        state.has_verse(),
        0 <= state.current->0 < state.books.len(),
    ensures
        ({
            let place = state.current->0;
            let before = state.books[place].last().last();
            let next = state.step(doc, (offset, MarkupModel::Text(length)));
            if text_fits(doc, before, offset, length) {
                &&& !next.failed
                &&& next.has_verse()
                &&& next.books[place].last().last() == before.push(
                    (offset as usize, (offset + length) as usize),
                )
                &&& span_ok(doc, next.books[place].last().last().last())
            } else {
                next.failed
            }
        }),
{
    let place = state.current->0;
    let book = state.books[place];
    let chapter = book.last();
    let span = (offset as usize, (offset + length) as usize);
    if text_fits(doc, chapter.last(), offset, length) {
        let verse = chapter.last().push(span);
        let new_chapter = chapter.update(chapter.len() - 1, verse);
        let new_book = book.update(book.len() - 1, new_chapter);
        let next = state.step(doc, (offset, MarkupModel::Text(length)));
        assert(next.books == state.books.update(place, new_book));
        assert(next.books[place] == new_book);
        assert(new_book.last() == new_chapter);
        assert(new_chapter.last() == verse);
        assert(verse.last() == span);
    }
}

/// One read never takes a name away, nor moves one: the names before it
/// stay where they are.
pub proof fn lemma_step_keeps_names(state: BuilderModel, doc: Seq<u8>, read: Read)
    ensures
        state.step(doc, read).names.len() >= state.names.len(),
        state.step(doc, read).names.take(state.names.len() as int) == state.names,
{
    let next = state.step(doc, read);
    assert(next.names.take(state.names.len() as int) =~= state.names);
}

/// The names of the books stand in the order in which the document
/// introduces them: the names that some of the reads have given stay at the
/// front, in their order, whatever reads follow.
pub proof fn lemma_run_keeps_names(start: BuilderModel, doc: Seq<u8>, reads: Seq<Read>, k: int)
    requires
        0 <= k <= reads.len(),
    ensures
        start.run(doc, reads).names.len() >= start.run(doc, reads.take(k)).names.len(),
        start.run(doc, reads).names.take(start.run(doc, reads.take(k)).names.len() as int)
            == start.run(doc, reads.take(k)).names,
    decreases reads.len() - k,
{
    let early = start.run(doc, reads.take(k)).names;
    if k == reads.len() {
        assert(reads.take(k) =~= reads);
        assert(early.take(early.len() as int) =~= early);
    } else {
        assert(reads.drop_last().take(k) =~= reads.take(k));
        lemma_run_keeps_names(start, doc, reads.drop_last(), k);
        let before = start.run(doc, reads.drop_last());
        lemma_step_keeps_names(before, doc, reads.last());
        let after = start.run(doc, reads).names;
        assert(after.take(early.len() as int) =~= after.take(before.names.len() as int).take(
            early.len() as int,
        ));
    }
}

/// A book that is opened for the first time goes behind all books before
/// it.
pub proof fn lemma_new_book_goes_last(state: BuilderModel, name: Seq<char>)
    requires
        position_of(state.names, name) is None,
    ensures
        state.open_book(name).names == state.names.push(name),
        state.open_book(name).current == Some(state.names.len() as int),
{
}

/// What the indexer says of a text event that marks no piece of the
/// document.
pub open spec fn span_failure() -> Seq<char> {
    "text event outside the document"@
}

/// The index that `reads` give for the document `text`, or the failure. The
/// last read ends the reading; the reads before it are taken one by one. A
/// text event that marks no piece of the document fails the indexing, and so
/// does the reader's complaint; there is no index of a part of a document.
pub open spec fn index_of(text: Seq<char>, reads: Seq<Read>) -> Result<IndexModel, ErrorModel> {
    let end = BuilderModel::start().run(encode_utf8(text), reads.drop_last());
    if end.failed {
        Err(ErrorModel::BibleIndex(span_failure()))
    } else {
        match reads.last().1 {
            MarkupModel::Failed(reason) => Err(ErrorModel::BibleIndex(reason)),
            _ => Ok(IndexModel { names: end.names, books: end.books }),
        }
    }
}

/// A failure stays: once some of the reads have failed the indexing, all of
/// them have.
pub proof fn lemma_failed_stays(start: BuilderModel, doc: Seq<u8>, reads: Seq<Read>, k: int)
    requires
        0 <= k <= reads.len(),
        start.run(doc, reads.take(k)).failed,
    ensures
        start.run(doc, reads).failed,
    decreases reads.len() - k,
{
    if k == reads.len() {
        assert(reads.take(k) =~= reads);
    } else {
        assert(reads.drop_last().take(k) =~= reads.take(k));
        lemma_failed_stays(start, doc, reads.drop_last(), k);
    }
}

/// Reads the markup of `raw` from its first event to its end and builds the
/// index of its books, chapters and verses.
pub fn build_index(raw: &str) -> (result: Result<Index, Error>)
    ensures
        match result {
            Ok(index) => index_of(raw@, markup_reads(raw@)) == Ok::<IndexModel, ErrorModel>(index@)
                && index@.fits(encode_utf8(raw@)),
            Err(error) => index_of(raw@, markup_reads(raw@)) == Err::<IndexModel, ErrorModel>(
                error@,
            ),
        },
{
    let ghost reads = markup_reads(raw@);
    let ghost doc = encode_utf8(raw@);
    let mut reader = open_reader(raw);
    let mut buffer: Vec<u8> = Vec::new();
    let mut builder = IndexBuilder::new(raw);
    let ghost mut done: int = 0;
    proof {
        assert(reads.skip(0) =~= reads);
        assert(reads.take(0) =~= Seq::<Read>::empty());
    }
    loop
        invariant
            reads == markup_reads(raw@),
            doc == encode_utf8(raw@),
            ends_once(reads),
            0 <= done < reads.len(),
            pending_reads(reader) == reads.skip(done),
            builder.inv(),
            builder.document() == doc,
            builder@ == BuilderModel::start().run(doc, reads.take(done)),
            !builder@.failed,
        decreases reads.len() - done,
    {
        let offset = reader_position(&reader);
        let markup = read_markup(&mut reader, &mut buffer);
        proof {
            assert(reads.skip(done)[0] == reads[done]);
            assert(reads.skip(done).skip(1) =~= reads.skip(done + 1));
            assert(reads.take(done + 1).drop_last() =~= reads.take(done));
            assert(reads.take(done + 1).last() == reads[done]);
            if markup@.is_last() {
                assert(done == reads.len() - 1);
                assert(reads.drop_last() =~= reads.take(done));
            }
        }
        match markup {
            Markup::Eof => {
                return Ok(builder.finish());
            },
            Markup::Failed(reason) => {
                return Err(Error::BibleIndex(reason));
            },
            other => {
                builder.record(offset, &other);
                if builder.failed() {
                    proof {
                        assert(reads.drop_last().take(done + 1) =~= reads.take(done + 1));
                        lemma_failed_stays(BuilderModel::start(), doc, reads.drop_last(), done + 1);
                    }
                    return Err(Error::BibleIndex("text event outside the document".to_owned()));
                }
            },
        }
        buffer.clear();
        proof {
            done = done + 1;
        }
    }
}

/// The text that `span` marks in `doc`.
pub open spec fn piece(doc: Seq<u8>, span: (usize, usize)) -> Seq<char> {
    decode_utf8(doc.subrange(span.0 as int, span.1 as int))
}

/// The pieces of a verse, in order.
pub open spec fn pieces(doc: Seq<u8>, spans: Spans) -> Seq<Seq<char>> {
    spans.map_values(|span: (usize, usize)| piece(doc, span))
}

/// The text of a verse: its pieces with one space between each two.
pub open spec fn joined(doc: Seq<u8>, spans: Spans) -> Seq<char>
    decreases spans.len(),
{
    if spans.len() == 0 {
        Seq::empty()
    } else if spans.len() == 1 {
        piece(doc, spans.last())
    } else {
        joined(doc, spans.drop_last()) + seq![' '] + piece(doc, spans.last())
    }
}

/// A span that marks a piece of the document marks text that is not empty.
pub proof fn lemma_piece_not_empty(doc: Seq<u8>, span: (usize, usize))
    requires
        valid_utf8(doc),
        span_ok(doc, span),
    ensures
        piece(doc, span).len() > 0,
{
    let head = doc.subrange(0, span.1 as int);
    valid_utf8_split(doc, span.1 as int);
    lemma_boundary_in_head(doc, span);
    valid_utf8_split(head, span.0 as int);
    let bytes = head.subrange(span.0 as int, head.len() as int);
    assert(bytes =~= doc.subrange(span.0 as int, span.1 as int));
    decode_utf8_encode_utf8(bytes);
    if piece(doc, span).len() == 0 {
        assert(encode_utf8(piece(doc, span)) =~= Seq::<u8>::empty());
    }
}

/// Where a span begins between two characters of the document, it also does
/// in the part of the document that ends with the span.
pub proof fn lemma_boundary_in_head(doc: Seq<u8>, span: (usize, usize))
    requires
        valid_utf8(doc),
        span_ok(doc, span),
    ensures
        is_char_boundary(doc.subrange(0, span.1 as int), span.0 as int),
{
    let head = doc.subrange(0, span.1 as int);
    valid_utf8_split(doc, span.1 as int);
    is_char_boundary_iff_not_is_continuation_byte(doc, span.0 as int);
    is_char_boundary_iff_not_is_continuation_byte(head, span.0 as int);
    assert(head[span.0 as int] == doc[span.0 as int]);
}

/// A verse with a span has text: every verse that the index holds with at
/// least one span reads back as text that is not empty.
pub proof fn lemma_verse_text_not_empty(doc: Seq<u8>, spans: Spans)
    requires
        valid_utf8(doc),
        spans_ok(doc, spans),
        spans.len() > 0,
    ensures
        joined(doc, spans).len() > 0,
{
    lemma_piece_not_empty(doc, spans.last());
}

/// The text that `span` marks in `raw`.
pub fn slice<'a>(raw: &'a str, span: (usize, usize)) -> (text: &'a str)
    requires
        span_ok(raw.spec_bytes(), span),
    ensures
        text.spec_bytes() == raw.spec_bytes().subrange(span.0 as int, span.1 as int),
        text@ == piece(raw.spec_bytes(), span),
        text@.len() > 0,
{
    proof {
        encode_utf8_valid_utf8(raw@);
        lemma_boundary_in_head(raw.spec_bytes(), span);
        lemma_piece_not_empty(raw.spec_bytes(), span);
    }
    let (head, _) = raw.split_at(span.1);
    let (_, text) = head.split_at(span.0);
    proof {
        assert(text.spec_bytes() =~= raw.spec_bytes().subrange(span.0 as int, span.1 as int));
        encode_utf8_decode_utf8(text@);
    }
    text
}

/// A document with its index.
#[derive(Debug)]
pub struct Bible {
    translation: String,
    disk_file: String,
    index: Index,
    raw: String,
}

impl Bible {
    /// The index of the document.
    pub closed spec fn index(&self) -> IndexModel {
        self.index@
    }

    /// The books of the index, in the order of their names.
    pub closed spec fn books(&self) -> Seq<Book> {
        self.index.books@
    }

    /// The text of the document.
    pub closed spec fn text(&self) -> Seq<char> {
        self.raw@
    }

    /// The bytes of the document.
    pub open spec fn document(&self) -> Seq<u8> {
        encode_utf8(self.text())
    }

    /// The index fits the document, always.
    #[verifier::type_invariant]
    spec fn sound(&self) -> bool {
        self.index@.fits(encode_utf8(self.raw@))
    }

    /// Indexes the document `raw`, which was read from `disk_file`, and keeps
    /// it with its index.
    pub fn from_text(disk_file: String, raw: String) -> (result: Result<Bible, Error>)
        ensures
            match result {
                Ok(bible) => index_of(raw@, markup_reads(raw@)) == Ok::<IndexModel, ErrorModel>(
                    bible.index(),
                ) && bible.text() == raw@ && bible.index().fits(bible.document()) && book_views(
                    bible.books(),
                ) == bible.index().books && bible.file_name() == disk_file@
                    && bible.translation_name() == "KJV"@,
                Err(error) => index_of(raw@, markup_reads(raw@)) == Err::<IndexModel, ErrorModel>(
                    error@,
                ),
            },
    {
        match build_index(raw.as_str()) {
            Ok(index) => Ok(Bible { translation: "KJV".to_owned(), disk_file, index, raw }),
            Err(error) => Err(error),
        }
    }

    /// The name of the translation that the document holds.
    pub closed spec fn translation_name(&self) -> Seq<char> {
        self.translation@
    }

    /// The name of the file that the document was read from.
    pub closed spec fn file_name(&self) -> Seq<char> {
        self.disk_file@
    }

    /// The name of the translation that the document holds.
    pub fn translation(&self) -> (name: &str)
        ensures
            name@ == self.translation_name(),
    {
        self.translation.as_str()
    }

    /// The name of the file that the document was read from.
    pub fn disk_file(&self) -> (name: &str)
        ensures
            name@ == self.file_name(),
    {
        self.disk_file.as_str()
    }

    /// The whole text of the document.
    pub fn get_raw_data(&self) -> (raw: &str)
        ensures
            raw@ == self.text(),
    {
        self.raw.as_str()
    }

    /// The names of the books, in the order in which the document introduces
    /// them.
    pub fn get_books(&self) -> (names: Vec<&String>)
        ensures
            names@.len() == self.index().names.len(),
            forall|k: int| 0 <= k < names@.len() ==> (#[trigger] names@[k])@ == self.index().names[k],
    {
        let mut names: Vec<&String> = Vec::new();
        let mut k: usize = 0;
        while k < self.index.names.len()
            invariant
                k <= self.index.names.len(),
                names@.len() == k,
                forall|j: int| 0 <= j < k ==> (#[trigger] names@[j])@ == self.index@.names[j],
            decreases self.index.names.len() - k,
        {
            names.push(&self.index.names[k]);
            k = k + 1;
        }
        names
    }

    /// The place of the book `name` among the books.
    pub fn find_book(&self, name: &str) -> (place: Option<usize>)
        ensures
            match place {
                Some(p) => position_of(self.index().names, name@) == Some(p as int) && p
                    < self.books().len(),
                None => position_of(self.index().names, name@) is None,
            },
            self.index().fits(self.document()),
            self.index().books == book_views(self.books()),
    {
        proof {
            use_type_invariant(self);
            lemma_position_of(self.index@.names, name@);
        }
        let ghost names = self.index@.names;
        let mut k: usize = 0;
        while k < self.index.names.len()
            invariant
                k <= self.index.names.len(),
                names == self.index@.names,
                self.index@.fits(encode_utf8(self.raw@)),
                forall|j: int| 0 <= j < k ==> names[j] != name@,
            decreases self.index.names.len() - k,
        {
            if same_text(self.index.names[k].as_str(), name) {
                proof {
                    lemma_position_of(names, name@);
                    assert(names[k as int] == name@);
                    match position_of(names, name@) {
                        Some(place) => {
                            if place < k {
                                assert(names[place] != name@);
                            }
                        },
                        None => {},
                    }
                }
                return Some(k);
            }
            k = k + 1;
        }
        None
    }

    /// The book at `place`, with the assurance that its verses mark pieces
    /// of the document.
    pub fn book_at(&self, place: usize) -> (book: &Book)
        requires
            place < self.books().len(),
        ensures
            *book == self.books()[place as int],
            book@ == self.index().books[place as int],
            forall|c: int, v: int|
                0 <= c < book@.len() && 0 <= v < book@[c].len() ==> spans_ok(
                    self.document(),
                    #[trigger] book@[c][v],
                ),
    {
        proof {
            use_type_invariant(self);
            assert(self.index@.books[place as int] == self.index.books@[place as int]@);
            assert forall|c: int, v: int|
                0 <= c < self.index.books@[place as int]@.len() && 0 <= v
                    < self.index.books@[place as int]@[c].len() implies spans_ok(
                self.document(),
                #[trigger] self.index.books@[place as int]@[c][v],
            ) by {
                assert(spans_ok(self.document(), self.index@.books[place as int][c][v]));
            }
        }
        &self.index.books[place]
    }

    /// The book `name`.
    pub fn get_book_index(&self, name: &str) -> (result: Result<&Book, Error>)
        ensures
            match result {
                Ok(book) => position_of(self.index().names, name@) is Some && *book == self.books()[position_of(
                    self.index().names,
                    name@,
                )->0],
                Err(error) => position_of(self.index().names, name@) is None && error@
                    == ErrorModel::BookNotFound(name@),
            },
    {
        match self.find_book(name) {
            Some(place) => Ok(&self.index.books[place]),
            None => Err(Error::BookNotFound(name.to_owned())),
        }
    }

    /// The chapter `chapter` of the book `name`. Chapters are counted from
    /// one.
    pub fn get_chapter_index(&self, name: &str, chapter: usize) -> (result: Result<
        &Chapter,
        Error,
    >)
        ensures
            match result {
                Ok(found) => {
                    &&& position_of(self.index().names, name@) is Some
                    &&& 1 <= chapter <= self.books()[position_of(self.index().names, name@)->0]@.len()
                    &&& *found == self.books()[position_of(
                        self.index().names,
                        name@,
                    )->0].chapters@[chapter - 1]
                },
                Err(error) => if chapter == 0 {
                    error@ == ErrorModel::ChapterNotFound(name@, chapter)
                } else if position_of(self.index().names, name@) is None {
                    error@ == ErrorModel::BookNotFound(name@)
                } else {
                    &&& chapter > self.books()[position_of(self.index().names, name@)->0]@.len()
                    &&& error@ == ErrorModel::ChapterNotFound(name@, chapter)
                },
            },
    {
        if chapter == 0 {
            return Err(Error::ChapterNotFound(name.to_owned(), chapter));
        }
        let book = match self.get_book_index(name) {
            Ok(book) => book,
            Err(error) => {
                return Err(error);
            },
        };
        if chapter <= book.chapters.len() {
            Ok(&book.chapters[chapter - 1])
        } else {
            Err(Error::ChapterNotFound(name.to_owned(), chapter))
        }
    }

    /// The verse `verse` of the chapter `chapter` of the book `name`.
    /// Chapters and verses are counted from one.
    pub fn get_verse_index(&self, name: &str, chapter: usize, verse: usize) -> (result: Result<
        &VerseView,
        Error,
    >)
        ensures
            match result {
                Ok(found) => {
                    &&& position_of(self.index().names, name@) is Some
                    &&& 1 <= chapter <= self.books()[position_of(self.index().names, name@)->0]@.len()
                    &&& 1 <= verse <= self.books()[position_of(
                        self.index().names,
                        name@,
                    )->0].chapters@[chapter - 1]@.len()
                    &&& *found == self.books()[position_of(
                        self.index().names,
                        name@,
                    )->0].chapters@[chapter - 1].verses@[verse - 1]
                    &&& spans_ok(self.document(), found@)
                },
                Err(error) => if chapter == 0 {
                    error@ == ErrorModel::VerseNotFound(name@, chapter, verse)
                } else if position_of(self.index().names, name@) is None {
                    error@ == ErrorModel::BookNotFound(name@)
                } else if chapter > self.books()[position_of(self.index().names, name@)->0]@.len() {
                    error@ == ErrorModel::ChapterNotFound(name@, chapter)
                } else {
                    &&& verse == 0 || verse > self.books()[position_of(
                        self.index().names,
                        name@,
                    )->0].chapters@[chapter - 1]@.len()
                    &&& error@ == ErrorModel::VerseNotFound(name@, chapter, verse)
                },
            },
    {
        if chapter == 0 {
            return Err(Error::VerseNotFound(name.to_owned(), chapter, verse));
        }
        let found = match self.get_chapter_index(name, chapter) {
            Ok(found) => found,
            Err(error) => {
                return Err(error);
            },
        };
        if 1 <= verse && verse <= found.verses.len() {
            proof {
                use_type_invariant(self);
                lemma_position_of(self.index().names, name@);
                let place = position_of(self.index().names, name@)->0;
                assert(self.index@.books[place] == self.index.books@[place]@);
                assert(self.index@.books[place][chapter - 1] == self.index.books@[place].chapters@[chapter
                    - 1]@);
                assert(self.index@.books[place][chapter - 1][verse - 1] == found.verses@[verse
                    - 1]@);
            }
            Ok(&found.verses[verse - 1])
        } else {
            Err(Error::VerseNotFound(name.to_owned(), chapter, verse))
        }
    }

    /// The pieces of text of the verse `verse` of the chapter `chapter` of
    /// the book `name`, in order, each read out of the document.
    pub fn get_verse_iter(&self, name: &str, chapter: usize, verse: usize) -> (result: Result<
        Vec<&str>,
        Error,
    >)
        ensures
            match result {
                Ok(texts) => {
                    &&& position_of(self.index().names, name@) is Some
                    &&& 1 <= chapter <= self.books()[position_of(self.index().names, name@)->0]@.len()
                    &&& 1 <= verse <= self.books()[position_of(
                        self.index().names,
                        name@,
                    )->0].chapters@[chapter - 1]@.len()
                    &&& texts@.map_values(|t: &str| t@) == pieces(
                        self.document(),
                        self.books()[position_of(
                            self.index().names,
                            name@,
                        )->0].chapters@[chapter - 1].verses@[verse - 1]@,
                    )
                    &&& forall|k: int| 0 <= k < texts@.len() ==> (#[trigger] texts@[k])@.len() > 0
                },
                Err(error) => if chapter == 0 {
                    error@ == ErrorModel::VerseNotFound(name@, chapter, verse)
                } else if position_of(self.index().names, name@) is None {
                    error@ == ErrorModel::BookNotFound(name@)
                } else if chapter > self.books()[position_of(self.index().names, name@)->0]@.len() {
                    error@ == ErrorModel::ChapterNotFound(name@, chapter)
                } else {
                    &&& verse == 0 || verse > self.books()[position_of(
                        self.index().names,
                        name@,
                    )->0].chapters@[chapter - 1]@.len()
                    &&& error@ == ErrorModel::VerseNotFound(name@, chapter, verse)
                },
            },
    {
        let found = match self.get_verse_index(name, chapter, verse) {
            Ok(found) => found,
            Err(error) => {
                return Err(error);
            },
        };
        let raw = self.raw.as_str();
        let ghost doc = self.document();
        let mut texts: Vec<&str> = Vec::new();
        let mut k: usize = 0;
        while k < found.text.len()
            invariant
                k <= found.text.len(),
                raw.spec_bytes() == doc,
                spans_ok(doc, found@),
                texts@.len() == k,
                forall|j: int|
                    0 <= j < k ==> (#[trigger] texts@[j])@ == piece(doc, found@[j]) && texts@[j]@.len()
                        > 0,
            decreases found.text.len() - k,
        {
            texts.push(slice(raw, found.text[k]));
            k = k + 1;
        }
        proof {
            assert(texts@.map_values(|t: &str| t@) =~= pieces(doc, found@));
        }
        Ok(texts)
    }

    /// The text of a verse of this document: its pieces with one space
    /// between each two.
    pub fn verse_text(&self, verse: &VerseView) -> (text: String)
        requires
            spans_ok(self.document(), verse@),
        ensures
            text@ == joined(self.document(), verse@),
    {
        let raw = self.raw.as_str();
        let ghost doc = self.document();
        let mut text = String::new();
        let mut k: usize = 0;
        proof {
            assert(verse@.take(0) =~= Seq::<(usize, usize)>::empty());
        }
        while k < verse.text.len()
            invariant
                k <= verse.text.len(),
                raw.spec_bytes() == doc,
                spans_ok(doc, verse@),
                text@ == joined(doc, verse@.take(k as int)),
            decreases verse.text.len() - k,
        {
            proof {
                assert(verse@.take(k as int + 1).drop_last() =~= verse@.take(k as int));
                assert(verse@.take(k as int + 1).last() == verse@[k as int]);
            }
            if k > 0 {
                text.append(" ");
                proof {
                    reveal_strlit(" ");
                    assert(" "@ =~= seq![' ']);
                }
            } else {
                proof {
                    assert(text@ + piece(doc, verse@[0]) =~= piece(doc, verse@[0]));
                }
            }
            text.append(slice(raw, verse.text[k]));
            k = k + 1;
        }
        proof {
            assert(verse@.take(k as int) =~= verse@);
        }
        text
    }
}

} // verus!
