//! Words of a text and the arithmetic of wrapping them into lines.
//!
//! A text is a sequence of characters; its words are the maximal runs of
//! characters that are not white space. A word is measured in the bytes of its
//! UTF-8 encoding. Wrapping is a walk over the word lengths that keeps a
//! cursor: how many cells have been consumed so far, and how many are left on
//! the current line.

use vstd::prelude::*;
use vstd::utf8::*;

verus! {

/// Whether `c` has Unicode's `White_Space` property.
pub open spec fn is_space(c: char) -> bool {
    let u = c as u32;
    ||| 0x09 <= u <= 0x0D
    ||| u == 0x20
    ||| u == 0x85
    ||| u == 0xA0
    ||| u == 0x1680
    ||| 0x2000 <= u <= 0x200A
    ||| u == 0x2028
    ||| u == 0x2029
    ||| u == 0x202F
    ||| u == 0x205F
    ||| u == 0x3000
}

/// Tells white space from the characters that words are made of.
pub fn is_whitespace(c: char) -> (b: bool)
    ensures
        b == is_space(c),
{
    let u: u32 = c as u32;
    (0x09 <= u && u <= 0x0D) || u == 0x20 || u == 0x85 || u == 0xA0 || u == 0x1680 || (0x2000 <= u
        && u <= 0x200A) || u == 0x2028 || u == 0x2029 || u == 0x202F || u == 0x205F || u == 0x3000
}

/// The number of bytes that `c` takes in UTF-8.
pub open spec fn char_bytes(c: char) -> nat {
    encode_scalar(c as u32).len()
}

/// The number of bytes that `c` takes in UTF-8, between one and four.
pub fn utf8_len(c: char) -> (n: usize)
    ensures
        n == char_bytes(c),
        1 <= n <= 4,
{
    let u: u32 = c as u32;
    proof {
        char_is_scalar(c);
    }
    if u < 0x80 {
        1
    } else if u < 0x800 {
        2
    } else if u < 0x10000 {
        3
    } else {
        4
    }
}

/// The number of bytes that `text` takes in UTF-8.
pub open spec fn text_bytes(text: Seq<char>) -> nat {
    encode_utf8(text).len()
}

/// Encoding distributes over concatenation.
pub proof fn lemma_encode_concat(a: Seq<char>, b: Seq<char>)
    ensures
        encode_utf8(a + b) =~= encode_utf8(a) + encode_utf8(b),
    decreases a.len(),
{
    if a.len() == 0 {
        assert(a + b =~= b);
    } else {
        assert((a + b).drop_first() =~= a.drop_first() + b);
        lemma_encode_concat(a.drop_first(), b);
    }
}

/// A piece of a text takes no more bytes than the text.
pub proof fn lemma_text_bytes_subrange(text: Seq<char>, from: int, to: int)
    requires
        0 <= from <= to <= text.len(),
    ensures
        text_bytes(text.subrange(from, to)) <= text_bytes(text),
{
    let head = text.subrange(0, from);
    let mid = text.subrange(from, to);
    let tail = text.subrange(to, text.len() as int);
    assert(text =~= head + (mid + tail));
    lemma_encode_concat(mid, tail);
    lemma_encode_concat(head, mid + tail);
}

/// Extending a piece by one character adds that character's bytes.
pub proof fn lemma_text_bytes_extend(text: Seq<char>, from: int, to: int)
    requires
        0 <= from <= to < text.len(),
    ensures
        text_bytes(text.subrange(from, to + 1)) == text_bytes(text.subrange(from, to))
            + char_bytes(text[to]),
{
    let piece = text.subrange(from, to);
    let one = seq![text[to]];
    assert(text.subrange(from, to + 1) =~= piece + one);
    lemma_encode_concat(piece, one);
    assert(one.drop_first() =~= Seq::<char>::empty());
    assert(encode_utf8(one) =~= encode_scalar(text[to] as u32)) by {
        reveal_with_fuel(encode_utf8, 2);
    }
}

/// The first position at or after `from` that holds no white space, or the
/// length of the text where only white space follows.
pub open spec fn next_word(text: Seq<char>, from: int) -> int
    decreases text.len() - from,
{
    if 0 <= from < text.len() && is_space(text[from]) {
        next_word(text, from + 1)
    } else {
        from
    }
}

/// The first position at or after `from` that holds white space, or the length
/// of the text where none follows.
pub open spec fn word_stop(text: Seq<char>, from: int) -> int
    decreases text.len() - from,
{
    if 0 <= from < text.len() && !is_space(text[from]) {
        word_stop(text, from + 1)
    } else {
        from
    }
}

/// What lies between `from` and the next word is white space.
pub proof fn lemma_next_word(text: Seq<char>, from: int)
    requires
        0 <= from <= text.len(),
    ensures
        from <= next_word(text, from) <= text.len(),
        next_word(text, from) < text.len() ==> !is_space(text[next_word(text, from)]),
        forall|j: int| from <= j < next_word(text, from) ==> is_space(#[trigger] text[j]),
    decreases text.len() - from,
{
    if from < text.len() && is_space(text[from]) {
        lemma_next_word(text, from + 1);
    }
}

/// What lies between `from` and the end of the word is no white space.
pub proof fn lemma_word_stop(text: Seq<char>, from: int)
    requires
        0 <= from <= text.len(),
    ensures
        from <= word_stop(text, from) <= text.len(),
        word_stop(text, from) < text.len() ==> is_space(text[word_stop(text, from)]),
        forall|j: int| from <= j < word_stop(text, from) ==> !is_space(#[trigger] text[j]),
        from < text.len() && !is_space(text[from]) ==> from < word_stop(text, from),
    decreases text.len() - from,
{
    if from < text.len() && !is_space(text[from]) {
        lemma_word_stop(text, from + 1);
    }
}

/// The words of `text` that begin at or after `from`, each as the positions
/// of its first character and of the one behind its last.
pub open spec fn word_spans(text: Seq<char>, from: int) -> Seq<(int, int)>
    decreases text.len() - from,
    via word_spans_decreases
{
    let start = next_word(text, from);
    if from < 0 || start >= text.len() {
        Seq::empty()
    } else {
        seq![(start, word_stop(text, start))] + word_spans(text, word_stop(text, start))
    }
}

#[via_fn]
proof fn word_spans_decreases(text: Seq<char>, from: int) {
    if 0 <= from <= text.len() {
        lemma_next_word(text, from);
        let start = next_word(text, from);
        if start < text.len() {
            lemma_word_stop(text, start);
        }
    }
}

/// Every word lies inside the text, is not empty, and ends before the next
/// one begins.
pub proof fn lemma_word_spans_ordered(text: Seq<char>, from: int)
    requires
        0 <= from <= text.len(),
    ensures
        forall|k: int|
            0 <= k < word_spans(text, from).len() ==> from <= (#[trigger] word_spans(
                text,
                from,
            )[k]).0 < word_spans(text, from)[k].1 <= text.len(),
        forall|j: int, k: int|
            0 <= j < k < word_spans(text, from).len() ==> (#[trigger] word_spans(text, from)[j]).1
                <= (#[trigger] word_spans(text, from)[k]).0,
    decreases text.len() - from,
{
    lemma_next_word(text, from);
    let start = next_word(text, from);
    if start < text.len() {
        lemma_word_stop(text, start);
        let stop = word_stop(text, start);
        lemma_word_spans_ordered(text, stop);
        let rest = word_spans(text, stop);
        let all = word_spans(text, from);
        assert(all =~= seq![(start, stop)] + rest);
        assert forall|k: int| 0 <= k < all.len() implies from <= (#[trigger] all[k]).0 < all[k].1
            <= text.len() by {
            if k > 0 {
                assert(all[k] == rest[k - 1]);
            }
        }
        assert forall|j: int, k: int| 0 <= j < k < all.len() implies (#[trigger] all[j]).1 <= (
        #[trigger] all[k]).0 by {
            assert(all[k] == rest[k - 1]);
            if j > 0 {
                assert(all[j] == rest[j - 1]);
            }
        }
    }
}

/// The bytes of the word that `span` marks in `text`.
pub open spec fn span_bytes(text: Seq<char>, span: (int, int)) -> nat {
    text_bytes(text.subrange(span.0, span.1))
}

/// The byte lengths of the words of `text`, in order.
pub open spec fn word_lens(text: Seq<char>) -> Seq<nat> {
    Seq::new(word_spans(text, 0).len(), |k: int| span_bytes(text, word_spans(text, 0)[k]))
}

/// The words of `text`, in order.
pub open spec fn words(text: Seq<char>) -> Seq<Seq<char>> {
    Seq::new(
        word_spans(text, 0).len(),
        |k: int| text.subrange(word_spans(text, 0)[k].0, word_spans(text, 0)[k].1),
    )
}

/// In the first `end` characters of a text the next word is found where it
/// is found in the whole text, or not at all.
pub proof fn lemma_next_word_take(text: Seq<char>, end: int, from: int)
    requires
        0 <= from <= end <= text.len(),
    ensures
        next_word(text.take(end), from) == if next_word(text, from) < end {
            next_word(text, from)
        } else {
            end
        },
    decreases end - from,
{
    lemma_next_word(text, from);
    if from < end {
        assert(text.take(end)[from] == text[from]);
        if is_space(text[from]) {
            lemma_next_word_take(text, end, from + 1);
        }
    }
}

/// In the first `end` characters of a text a word ends where it ends in the
/// whole text, or with the `end`.
pub proof fn lemma_word_stop_take(text: Seq<char>, end: int, from: int)
    requires
        0 <= from <= end <= text.len(),
    ensures
        word_stop(text.take(end), from) == if word_stop(text, from) < end {
            word_stop(text, from)
        } else {
            end
        },
    decreases end - from,
{
    lemma_word_stop(text, from);
    if from < end {
        assert(text.take(end)[from] == text[from]);
        if !is_space(text[from]) {
            lemma_word_stop_take(text, end, from + 1);
        }
    }
}

/// The position behind the `count`-th of the words from `from` on, or `from`
/// itself where `count` is zero.
pub open spec fn words_end(text: Seq<char>, from: int, count: int) -> int {
    if count <= 0 {
        from
    } else {
        word_spans(text, from)[count - 1].1
    }
}

/// A text cut behind one of its words holds exactly the words up to that one.
pub proof fn lemma_word_spans_take(text: Seq<char>, from: int, count: int)
    requires
        0 <= from <= text.len(),
        0 <= count <= word_spans(text, from).len(),
    ensures
        from <= words_end(text, from, count) <= text.len(),
        word_spans(text.take(words_end(text, from, count)), from) == word_spans(text, from).take(
            count,
        ),
    decreases count,
{
    let all = word_spans(text, from);
    let end = words_end(text, from, count);
    lemma_word_spans_ordered(text, from);
    lemma_next_word(text, from);
    let cut = text.take(end);
    if count == 0 {
        lemma_next_word(cut, from);
        assert(word_spans(cut, from) =~= all.take(0));
    } else {
        let start = next_word(text, from);
        lemma_word_stop(text, start);
        let stop = word_stop(text, start);
        let rest = word_spans(text, stop);
        assert(all =~= seq![(start, stop)] + rest);
        assert(all[0] == (start, stop));
        if count > 1 {
            assert(all[count - 1] == rest[count - 2]);
        }
        assert(stop <= end);
        lemma_next_word_take(text, end, from);
        lemma_word_stop_take(text, end, start);
        assert(next_word(cut, from) == start);
        assert(word_stop(cut, start) == stop);
        lemma_word_spans_take(text, stop, count - 1);
        assert(words_end(text, stop, count - 1) == end);
        assert(word_spans(cut, from) =~= seq![(start, stop)] + word_spans(cut, stop));
        assert(all.take(count) =~= seq![(start, stop)] + rest.take(count - 1));
    }
}

/// Behind the first `skipped` characters of a text the next word is found
/// where it is found in the whole text.
pub proof fn lemma_next_word_skip(text: Seq<char>, skipped: int, from: int)
    requires
        0 <= skipped,
        0 <= from,
        skipped + from <= text.len(),
    ensures
        next_word(text.skip(skipped), from) == next_word(text, skipped + from) - skipped,
    decreases text.len() - skipped - from,
{
    if skipped + from < text.len() {
        assert(text.skip(skipped)[from] == text[skipped + from]);
        if is_space(text[skipped + from]) {
            lemma_next_word_skip(text, skipped, from + 1);
        }
    }
}

/// Behind the first `skipped` characters of a text a word ends where it ends
/// in the whole text.
pub proof fn lemma_word_stop_skip(text: Seq<char>, skipped: int, from: int)
    requires
        0 <= skipped,
        0 <= from,
        skipped + from <= text.len(),
    ensures
        word_stop(text.skip(skipped), from) == word_stop(text, skipped + from) - skipped,
    decreases text.len() - skipped - from,
{
    if skipped + from < text.len() {
        assert(text.skip(skipped)[from] == text[skipped + from]);
        if !is_space(text[skipped + from]) {
            lemma_word_stop_skip(text, skipped, from + 1);
        }
    }
}

/// `spans`, each moved back by `by` positions.
pub open spec fn moved_back(spans: Seq<(int, int)>, by: int) -> Seq<(int, int)> {
    Seq::new(spans.len(), |k: int| (spans[k].0 - by, spans[k].1 - by))
}

/// What is left of a text behind its first `skipped` characters holds the
/// words of the text from there on, at positions counted from there.
pub proof fn lemma_word_spans_skip(text: Seq<char>, skipped: int, from: int)
    requires
        0 <= skipped,
        0 <= from,
        skipped + from <= text.len(),
    ensures
        word_spans(text.skip(skipped), from) == moved_back(
            word_spans(text, skipped + from),
            skipped,
        ),
    decreases text.len() - skipped - from,
{
    let left = text.skip(skipped);
    lemma_next_word_skip(text, skipped, from);
    lemma_next_word(text, skipped + from);
    let start = next_word(text, skipped + from);
    if start < text.len() {
        lemma_word_stop_skip(text, skipped, start - skipped);
        lemma_word_stop(text, start);
        let stop = word_stop(text, start);
        lemma_word_spans_skip(text, skipped, stop - skipped);
        assert(word_spans(left, from) =~= seq![(start - skipped, stop - skipped)] + word_spans(
            left,
            stop - skipped,
        ));
        assert(word_spans(text, skipped + from) =~= seq![(start, stop)] + word_spans(text, stop));
        assert(word_spans(left, from) =~= moved_back(word_spans(text, skipped + from), skipped));
    } else {
        assert(word_spans(left, from) =~= moved_back(word_spans(text, skipped + from), skipped));
    }
}

/// From the start of one of its words on, a text holds that word and the
/// words behind it.
pub proof fn lemma_word_spans_from(text: Seq<char>, from: int, count: int)
    requires
        0 <= from <= text.len(),
        0 <= count < word_spans(text, from).len(),
    ensures
        from <= word_spans(text, from)[count].0 < text.len(),
        word_spans(text, word_spans(text, from)[count].0) == word_spans(text, from).skip(count),
    decreases count,
{
    let all = word_spans(text, from);
    lemma_word_spans_ordered(text, from);
    lemma_next_word(text, from);
    let start = next_word(text, from);
    lemma_word_stop(text, start);
    let stop = word_stop(text, start);
    let rest = word_spans(text, stop);
    assert(all =~= seq![(start, stop)] + rest);
    if count == 0 {
        assert(next_word(text, start) == start);
        assert(word_spans(text, start) =~= all);
        assert(all.skip(0) =~= all);
    } else {
        assert(all[count] == rest[count - 1]);
        lemma_word_spans_from(text, stop, count - 1);
        assert(all.skip(count) =~= rest.skip(count - 1));
    }
}

/// Cutting a text between two of its words parts its words: the first part
/// holds the words before the cut, the second part the words behind it.
pub proof fn lemma_words_part(text: Seq<char>, count: int)
    requires
        0 <= count <= word_spans(text, 0).len(),
    ensures
        words(text.take(words_end(text, 0, count))) == words(text).take(count),
        word_lens(text.take(words_end(text, 0, count))) == word_lens(text).take(count),
        count < word_spans(text, 0).len() ==> words(text.skip(word_spans(text, 0)[count].0))
            == words(text).skip(count),
        count < word_spans(text, 0).len() ==> word_lens(text.skip(word_spans(text, 0)[count].0))
            == word_lens(text).skip(count),
{
    let all = word_spans(text, 0);
    lemma_word_spans_ordered(text, 0);
    lemma_word_spans_take(text, 0, count);
    let end = words_end(text, 0, count);
    let head = text.take(end);
    assert forall|k: int| 0 <= k < count implies head.subrange(all[k].0, all[k].1)
        == text.subrange(all[k].0, all[k].1) by {
        if k < count - 1 {
            assert(all[k].1 <= all[count - 1].0);
        }
        assert(head.subrange(all[k].0, all[k].1) =~= text.subrange(all[k].0, all[k].1));
    }
    assert(words(head) =~= words(text).take(count));
    assert(word_lens(head) =~= word_lens(text).take(count));
    if count < all.len() {
        let start = all[count].0;
        lemma_word_spans_from(text, 0, count);
        lemma_word_spans_skip(text, start, 0);
        let tail = text.skip(start);
        assert(word_spans(tail, 0) == moved_back(all.skip(count), start));
        assert forall|k: int| count <= k < all.len() implies tail.subrange(
            all[k].0 - start,
            all[k].1 - start,
        ) == text.subrange(all[k].0, all[k].1) by {
            if k > count {
                assert(all[count].1 <= all[k].0);
            }
            assert(tail.subrange(all[k].0 - start, all[k].1 - start) =~= text.subrange(
                all[k].0,
                all[k].1,
            ));
        }
        assert(words(tail) =~= words(text).skip(count));
        assert(word_lens(tail) =~= word_lens(text).skip(count));
    }
}

/// A word as the scan found it: the positions of its first character and of
/// the one behind its last, and its length in bytes.
#[derive(Clone, Copy, Debug)]
pub struct Word {
    pub start: usize,
    pub end: usize,
    pub bytes: usize,
}

/// Whether `words` lists exactly the words of `text`, each with its place and
/// its bytes.
pub open spec fn words_match(text: Seq<char>, words: Seq<Word>) -> bool {
    &&& words.len() == word_spans(text, 0).len()
    &&& forall|k: int|
        0 <= k < words.len() ==> {
            &&& (#[trigger] words[k]).start == word_spans(text, 0)[k].0
            &&& words[k].end == word_spans(text, 0)[k].1
            &&& words[k].bytes == span_bytes(text, word_spans(text, 0)[k])
        }
}

/// The byte lengths that `words` records.
pub open spec fn lens_of(words: Seq<Word>) -> Seq<nat> {
    Seq::new(words.len(), |k: int| words[k].bytes as nat)
}

/// A scan that matches a text records that text's word lengths.
pub proof fn lemma_lens_of_match(text: Seq<char>, words: Seq<Word>)
    requires
        words_match(text, words),
    ensures
        lens_of(words) == word_lens(text),
{
    assert(lens_of(words) =~= word_lens(text));
}

/// The characters of `text`, one by one.
pub fn chars_of(text: &str) -> (chars: Vec<char>)
    ensures
        chars@ == text@,
{
    let mut chars: Vec<char> = Vec::new();
    for c in it: text.chars()
        invariant
            it.seq() == text@,
            chars@ == it.seq().take(it.index()),
    {
        proof {
            assert(it.seq().take(it.index() + 1) =~= it.seq().take(it.index()).push(c));
        }
        chars.push(c);
    }
    proof {
        assert(text@.take(text@.len() as int) =~= text@);
    }
    chars
}

/// Finds the words of a text in one pass over its characters.
pub fn scan_words(chars: &Vec<char>) -> (words: Vec<Word>)
    requires
        text_bytes(chars@) <= usize::MAX,
    ensures
        words_match(chars@, words@),
{
    let n = chars.len();
    let mut words: Vec<Word> = Vec::new();
    let mut at: usize = 0;
    let ghost all = word_spans(chars@, 0);
    loop
        invariant
            n == chars@.len(),
            at <= n,
            text_bytes(chars@) <= usize::MAX,
            all == word_spans(chars@, 0),
            words@.len() <= all.len(),
            all.skip(words@.len() as int) == word_spans(chars@, at as int),
            forall|k: int|
                0 <= k < words@.len() ==> {
                    &&& (#[trigger] words@[k]).start == all[k].0
                    &&& words@[k].end == all[k].1
                    &&& words@[k].bytes == span_bytes(chars@, all[k])
                },
        ensures
            words_match(chars@, words@),
        decreases n - at,
    {
        let mut start: usize = at;
        while start < n && is_whitespace(chars[start])
            invariant
                n == chars@.len(),
                at <= start <= n,
                next_word(chars@, at as int) == next_word(chars@, start as int),
            decreases n - start,
        {
            start = start + 1;
        }
        if start >= n {
            proof {
                assert(all.skip(words@.len() as int).len() == 0);
            }
            break ;
        }
        let mut end: usize = start;
        let mut bytes: usize = 0;
        proof {
            assert(chars@.subrange(start as int, start as int) =~= Seq::<char>::empty());
        }
        while end < n && !is_whitespace(chars[end])
            invariant
                n == chars@.len(),
                start <= end <= n,
                text_bytes(chars@) <= usize::MAX,
                word_stop(chars@, start as int) == word_stop(chars@, end as int),
                bytes == text_bytes(chars@.subrange(start as int, end as int)),
            decreases n - end,
        {
            proof {
                lemma_text_bytes_extend(chars@, start as int, end as int);
                lemma_text_bytes_subrange(chars@, start as int, end as int + 1);
            }
            bytes = bytes + utf8_len(chars[end]);
            end = end + 1;
        }
        proof {
            let rest = word_spans(chars@, at as int);
            assert(rest =~= seq![(start as int, end as int)] + word_spans(chars@, end as int));
            assert(rest[0] == (start as int, end as int));
            assert(all[words@.len() as int] == rest[0]);
            assert(all.skip(words@.len() as int + 1) =~= rest.skip(1));
            assert(rest.skip(1) =~= word_spans(chars@, end as int));
            lemma_word_stop(chars@, start as int);
        }
        words.push(Word { start, end, bytes });
        at = end;
    }
    words
}

/// The words of `text`, each with its place and its bytes.
pub fn words_of(text: &str) -> (words: Vec<Word>)
    ensures
        words_match(text@, words@),
{
    // The bytes of a text are counted by a machine integer, so the bytes of
    // each of its words are.
    let _size = text.as_bytes().len();
    let chars = chars_of(text);
    scan_words(&chars)
}

/// Where a walk stands: the cells consumed so far, and the cells left on the
/// current line.
pub struct Cursor {
    pub consumed: nat,
    pub remaining: nat,
}

/// Places one word of `len` bytes. A word that fits on the line with the
/// separator behind it costs `len + 1`. One that does not fit wastes what is
/// left of the line and opens a new line of `width` cells with itself; a word
/// longer than a line leaves nothing of the new line.
pub open spec fn place(cursor: Cursor, len: nat, width: nat) -> Cursor {
    if len + 1 <= cursor.remaining {
        Cursor {
            consumed: cursor.consumed + len + 1,
            remaining: (cursor.remaining - len - 1) as nat,
        }
    } else {
        Cursor {
            consumed: cursor.consumed + cursor.remaining + len,
            remaining: if len <= width {
                (width - len) as nat
            } else {
                0
            },
        }
    }
}

/// Places the words of `lens` one after the other.
pub open spec fn walk(cursor: Cursor, lens: Seq<nat>, width: nat) -> Cursor
    decreases lens.len(),
{
    if lens.len() == 0 {
        cursor
    } else {
        place(walk(cursor, lens.drop_last(), width), lens.last(), width)
    }
}

/// How many of the leading words of `lens` can be placed while no more than
/// `budget` cells are consumed.
pub open spec fn fit_count(cursor: Cursor, lens: Seq<nat>, width: nat, budget: nat) -> nat
    decreases lens.len(),
{
    if lens.len() == 0 {
        0
    } else {
        let next = place(cursor, lens.first(), width);
        if next.consumed <= budget {
            1 + fit_count(next, lens.drop_first(), width, budget)
        } else {
            0
        }
    }
}

/// A walk over two runs of words is the walk over the second, begun where the
/// walk over the first ended.
pub proof fn lemma_walk_concat(cursor: Cursor, a: Seq<nat>, b: Seq<nat>, width: nat)
    ensures
        walk(cursor, a + b, width) == walk(walk(cursor, a, width), b, width),
    decreases b.len(),
{
    if b.len() == 0 {
        assert(a + b =~= a);
    } else {
        assert((a + b).drop_last() =~= a + b.drop_last());
        assert((a + b).last() == b.last());
        lemma_walk_concat(cursor, a, b.drop_last(), width);
    }
}

/// A walk never gives back what it has consumed, and never has more than a
/// line left once the line it began on was no longer than that.
pub proof fn lemma_walk_grows(cursor: Cursor, lens: Seq<nat>, width: nat)
    ensures
        cursor.consumed <= walk(cursor, lens, width).consumed,
        cursor.remaining <= width ==> walk(cursor, lens, width).remaining <= width,
    decreases lens.len(),
{
    if lens.len() > 0 {
        lemma_walk_grows(cursor, lens.drop_last(), width);
    }
}

/// A walk consumes the same cells wherever the count of consumed cells
/// began.
pub proof fn lemma_walk_shift(cursor: Cursor, lens: Seq<nat>, width: nat, by: nat)
    ensures
        walk(
            Cursor { consumed: cursor.consumed + by, remaining: cursor.remaining },
            lens,
            width,
        ) == (Cursor {
            consumed: walk(cursor, lens, width).consumed + by,
            remaining: walk(cursor, lens, width).remaining,
        }),
    decreases lens.len(),
{
    if lens.len() > 0 {
        lemma_walk_shift(cursor, lens.drop_last(), width, by);
    }
}

/// What a walk has consumed after some of the words, it has also consumed
/// after all of them.
pub proof fn lemma_walk_prefix(cursor: Cursor, lens: Seq<nat>, width: nat, k: int)
    requires
        0 <= k <= lens.len(),
    ensures
        walk(cursor, lens.take(k), width).consumed <= walk(cursor, lens, width).consumed,
{
    assert(lens =~= lens.take(k) + lens.skip(k));
    lemma_walk_concat(cursor, lens.take(k), lens.skip(k), width);
    lemma_walk_grows(walk(cursor, lens.take(k), width), lens.skip(k), width);
}

/// The words counted by `fit_count` stay within the budget, and the word
/// behind them, if there is one, does not.
pub proof fn lemma_fit_count(cursor: Cursor, lens: Seq<nat>, width: nat, budget: nat)
    ensures
        fit_count(cursor, lens, width, budget) <= lens.len(),
        fit_count(cursor, lens, width, budget) > 0 ==> walk(
            cursor,
            lens.take(fit_count(cursor, lens, width, budget) as int),
            width,
        ).consumed <= budget,
        fit_count(cursor, lens, width, budget) < lens.len() ==> walk(
            cursor,
            lens.take(fit_count(cursor, lens, width, budget) as int + 1),
            width,
        ).consumed > budget,
    decreases lens.len(),
{
    if lens.len() > 0 {
        let next = place(cursor, lens.first(), width);
        let one = seq![lens.first()];
        let rest = lens.drop_first();
        assert(one.drop_last() =~= Seq::<nat>::empty());
        assert(walk(cursor, one, width) == next) by {
            reveal_with_fuel(walk, 2);
        }
        if next.consumed <= budget {
            lemma_fit_count(next, rest, width, budget);
            let k = fit_count(next, rest, width, budget) as int;
            assert(lens.take(k + 1) =~= one + rest.take(k));
            lemma_walk_concat(cursor, one, rest.take(k), width);
            if k < rest.len() {
                assert(lens.take(k + 2) =~= one + rest.take(k + 1));
                lemma_walk_concat(cursor, one, rest.take(k + 1), width);
            }
            if k == 0 {
                assert(rest.take(0) =~= Seq::<nat>::empty());
            }
        } else {
            assert(lens.take(1) =~= one);
        }
    }
}

/// The lines of a walk so far. Each finished line is the pair of the cells
/// that it consumed, with what was wasted at its end, and of the bytes of
/// text that it covers; `consumed` and `covered` say the same of the line that
/// is still open, and `remaining` is what is left of it.
pub struct Lines {
    pub finished: Seq<(nat, nat)>,
    pub consumed: nat,
    pub covered: nat,
    pub remaining: nat,
}

/// Sets one word of `len` bytes into the lines. A word that fits goes on in
/// the open line. One that does not fit finishes the open line, which takes
/// what was left of it as wasted, and opens a new line with itself. A word
/// covers its bytes and the separator before it; the first word of a text has
/// no separator before it.
pub open spec fn set_word(lines: Lines, len: nat, width: nat, first: bool) -> Lines {
    let covers = if first {
        len
    } else {
        len + 1
    };
    if len + 1 <= lines.remaining {
        Lines {
            finished: lines.finished,
            consumed: lines.consumed + len + 1,
            covered: lines.covered + covers,
            remaining: (lines.remaining - len - 1) as nat,
        }
    } else {
        Lines {
            finished: lines.finished.push((lines.consumed + lines.remaining, lines.covered)),
            consumed: len,
            covered: covers,
            remaining: if len <= width {
                (width - len) as nat
            } else {
                0
            },
        }
    }
}

/// Sets the words of `lens` into lines, one after the other, from a cursor.
pub open spec fn set_words(cursor: Cursor, lens: Seq<nat>, width: nat) -> Lines
    decreases lens.len(),
{
    if lens.len() == 0 {
        Lines {
            finished: Seq::empty(),
            consumed: cursor.consumed,
            covered: 0,
            remaining: cursor.remaining,
        }
    } else {
        set_word(set_words(cursor, lens.drop_last(), width), lens.last(), width, lens.len() == 1)
    }
}

/// The lines that the words of `lens` make, the last line included.
pub open spec fn lines_of(cursor: Cursor, lens: Seq<nat>, width: nat) -> Seq<(nat, nat)> {
    let lines = set_words(cursor, lens, width);
    lines.finished.push((lines.consumed, lines.covered))
}

/// The cells that `lines` consume together.
pub open spec fn lines_cells(lines: Seq<(nat, nat)>) -> nat
    decreases lines.len(),
{
    if lines.len() == 0 {
        0
    } else {
        lines_cells(lines.drop_last()) + lines.last().0
    }
}

/// The lines of a walk consume together what the walk consumes, and the open
/// line has left what the walk has left.
pub proof fn lemma_lines_cells(cursor: Cursor, lens: Seq<nat>, width: nat)
    ensures
        lines_cells(set_words(cursor, lens, width).finished) + set_words(
            cursor,
            lens,
            width,
        ).consumed == walk(cursor, lens, width).consumed,
        set_words(cursor, lens, width).remaining == walk(cursor, lens, width).remaining,
        lines_cells(lines_of(cursor, lens, width)) == walk(cursor, lens, width).consumed,
    decreases lens.len(),
{
    let lines = set_words(cursor, lens, width);
    assert(lines_of(cursor, lens, width).drop_last() =~= lines.finished);
    if lens.len() > 0 {
        let before = set_words(cursor, lens.drop_last(), width);
        lemma_lines_cells(cursor, lens.drop_last(), width);
        if !(lens.last() + 1 <= before.remaining) {
            assert(lines.finished.drop_last() =~= before.finished);
        }
    }
}

/// `value`, or the largest machine integer where it is larger than that.
pub open spec fn clip(value: nat) -> usize {
    if value <= usize::MAX {
        value as usize
    } else {
        usize::MAX
    }
}

/// Places one word. The result is `None` where the cells consumed no longer
/// fit a machine integer.
pub fn place_word(consumed: usize, remaining: usize, len: usize, width: usize) -> (next: Option<
    (usize, usize),
>)
    ensures
        match next {
            Some((c, r)) => place(
                Cursor { consumed: consumed as nat, remaining: remaining as nat },
                len as nat,
                width as nat,
            ) == (Cursor { consumed: c as nat, remaining: r as nat }),
            None => place(
                Cursor { consumed: consumed as nat, remaining: remaining as nat },
                len as nat,
                width as nat,
            ).consumed > usize::MAX,
        },
{
    if len < remaining {
        match consumed.checked_add(len + 1) {
            Some(c) => Some((c, remaining - len - 1)),
            None => None,
        }
    } else {
        let left: usize = if len <= width {
            width - len
        } else {
            0
        };
        match consumed.checked_add(remaining) {
            Some(wasted) => match wasted.checked_add(len) {
                Some(c) => Some((c, left)),
                None => None,
            },
            None => None,
        }
    }
}

/// Walks over all of `words`, from a cursor at `consumed` and `remaining`.
/// The result is the number of cells consumed at the end, or `None` where
/// that number does not fit a machine integer.
pub fn walk_words(words: &Vec<Word>, consumed: usize, remaining: usize, width: usize) -> (cost:
    Option<usize>)
    ensures
        match cost {
            Some(c) => c == walk(
                Cursor { consumed: consumed as nat, remaining: remaining as nat },
                lens_of(words@),
                width as nat,
            ).consumed,
            None => walk(
                Cursor { consumed: consumed as nat, remaining: remaining as nat },
                lens_of(words@),
                width as nat,
            ).consumed > usize::MAX,
        },
{
    let ghost origin = Cursor { consumed: consumed as nat, remaining: remaining as nat };
    let ghost lens = lens_of(words@);
    let mut used = consumed;
    let mut left = remaining;
    let mut k: usize = 0;
    proof {
        assert(lens.take(0) =~= Seq::<nat>::empty());
    }
    while k < words.len()
        invariant
            k <= words.len(),
            lens == lens_of(words@),
            origin == (Cursor { consumed: consumed as nat, remaining: remaining as nat }),
            walk(origin, lens.take(k as int), width as nat) == (Cursor {
                consumed: used as nat,
                remaining: left as nat,
            }),
        decreases words.len() - k,
    {
        proof {
            assert(lens.take(k as int + 1).drop_last() =~= lens.take(k as int));
            assert(lens.take(k as int + 1).last() == words@[k as int].bytes as nat);
        }
        match place_word(used, left, words[k].bytes, width) {
            Some((c, r)) => {
                used = c;
                left = r;
            },
            None => {
                proof {
                    lemma_walk_prefix(origin, lens, width as nat, k as int + 1);
                }
                return None;
            },
        }
        k = k + 1;
    }
    proof {
        assert(lens.take(k as int) =~= lens);
    }
    Some(used)
}

/// Counts how many of the leading `words` can be placed, from a cursor at
/// `consumed` and `remaining`, while no more than `budget` cells are consumed.
pub fn fit_words(
    words: &Vec<Word>,
    consumed: usize,
    remaining: usize,
    width: usize,
    budget: usize,
) -> (count: usize)
    ensures
        count == fit_count(
            Cursor { consumed: consumed as nat, remaining: remaining as nat },
            lens_of(words@),
            width as nat,
            budget as nat,
        ),
        count <= words@.len(),
{
    let ghost origin = Cursor { consumed: consumed as nat, remaining: remaining as nat };
    let ghost lens = lens_of(words@);
    let mut used = consumed;
    let mut left = remaining;
    let mut k: usize = 0;
    proof {
        assert(lens.skip(0) =~= lens);
    }
    while k < words.len()
        invariant
            k <= words.len(),
            lens == lens_of(words@),
            origin == (Cursor { consumed: consumed as nat, remaining: remaining as nat }),
            fit_count(origin, lens, width as nat, budget as nat) == k + fit_count(
                Cursor { consumed: used as nat, remaining: left as nat },
                lens.skip(k as int),
                width as nat,
                budget as nat,
            ),
        decreases words.len() - k,
    {
        proof {
            assert(lens.skip(k as int).first() == words@[k as int].bytes as nat);
            assert(lens.skip(k as int).drop_first() =~= lens.skip(k as int + 1));
        }
        match place_word(used, left, words[k].bytes, width) {
            Some((c, r)) => {
                if c > budget {
                    return k;
                }
                used = c;
                left = r;
            },
            None => {
                return k;
            },
        }
        k = k + 1;
    }
    proof {
        assert(lens.skip(k as int) =~= Seq::<nat>::empty());
    }
    k
}

/// The lines as machine integers hold them: the cells exactly, the bytes
/// saturated at the largest machine integer.
pub open spec fn lines_held(lines: Seq<(nat, nat)>) -> Seq<(usize, usize)> {
    Seq::new(lines.len(), |k: int| (lines[k].0 as usize, clip(lines[k].1)))
}

/// Sets all of `words` into lines, from a cursor at `consumed` and
/// `remaining`, and lists the lines.
pub fn set_lines(words: &Vec<Word>, consumed: usize, remaining: usize, width: usize) -> (lines:
    Vec<(usize, usize)>)
    requires
        consumed + remaining <= usize::MAX,
    ensures
        lines@ == lines_held(
            lines_of(
                Cursor { consumed: consumed as nat, remaining: remaining as nat },
                lens_of(words@),
                width as nat,
            ),
        ),
        forall|k: int|
            0 <= k < lines@.len() ==> (#[trigger] lines@[k]).0 == lines_of(
                Cursor { consumed: consumed as nat, remaining: remaining as nat },
                lens_of(words@),
                width as nat,
            )[k].0,
{
    let ghost origin = Cursor { consumed: consumed as nat, remaining: remaining as nat };
    let ghost lens = lens_of(words@);
    let mut lines: Vec<(usize, usize)> = Vec::new();
    let mut used = consumed;
    let mut covered: usize = 0;
    let mut left = remaining;
    let mut k: usize = 0;
    proof {
        assert(lens.take(0) =~= Seq::<nat>::empty());
        assert(lines@ =~= lines_held(set_words(origin, lens.take(0), width as nat).finished));
    }
    while k < words.len()
        invariant
            k <= words.len(),
            lens == lens_of(words@),
            origin == (Cursor { consumed: consumed as nat, remaining: remaining as nat }),
            used + left <= usize::MAX,
            set_words(origin, lens.take(k as int), width as nat).consumed == used,
            set_words(origin, lens.take(k as int), width as nat).remaining == left,
            clip(set_words(origin, lens.take(k as int), width as nat).covered) == covered,
            lines@ == lines_held(set_words(origin, lens.take(k as int), width as nat).finished),
            forall|j: int|
                0 <= j < lines@.len() ==> (#[trigger] lines@[j]).0 == set_words(
                    origin,
                    lens.take(k as int),
                    width as nat,
                ).finished[j].0,
        decreases words.len() - k,
    {
        let ghost before = set_words(origin, lens.take(k as int), width as nat);
        proof {
            assert(lens.take(k as int + 1).drop_last() =~= lens.take(k as int));
            assert(lens.take(k as int + 1).last() == words@[k as int].bytes as nat);
        }
        let len = words[k].bytes;
        let covers = if k == 0 {
            len
        } else {
            len.saturating_add(1)
        };
        if len < left {
            used = used + len + 1;
            left = left - len - 1;
            covered = covered.saturating_add(covers);
        } else {
            proof {
                assert(lines@.push(((used + left) as usize, covered)) =~= lines_held(
                    before.finished.push((before.consumed + before.remaining, before.covered)),
                ));
            }
            lines.push((used + left, covered));
            used = len;
            left = if len <= width {
                width - len
            } else {
                0
            };
            covered = covers;
        }
        k = k + 1;
    }
    proof {
        assert(lens.take(k as int) =~= lens);
        let end = set_words(origin, lens, width as nat);
        assert(lines@.push((used, covered)) =~= lines_held(
            end.finished.push((end.consumed, end.covered)),
        ));
    }
    lines.push((used, covered));
    lines
}

} // verus!
