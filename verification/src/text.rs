//! Plain-text frames and status text.

use vstd::prelude::*;
use vstd::string::*;

verus! {

/// Whether a text ends in a line feed.
pub open spec fn ends_with_newline(text: Seq<char>) -> bool {
    text.len() > 0 && text.last() == '\n'
}

/// The text without the line feeds that end it.
pub open spec fn stripped(text: Seq<char>) -> Seq<char>
    decreases text.len(),
{
    if ends_with_newline(text) {
        stripped(text.drop_last())
    } else {
        text
    }
}

/// The text closed by exactly one line feed: what is left of it without the
/// line feeds that end it, and one line feed.
pub open spec fn normalized(text: Seq<char>) -> Seq<char> {
    stripped(text).push('\n')
}

/// What is left without the closing line feeds is a prefix of the text, ends
/// in no line feed, and is followed by line feeds only.
pub proof fn lemma_stripped(text: Seq<char>)
    ensures
        stripped(text).len() <= text.len(),
        stripped(text) == text.take(stripped(text).len() as int),
        !ends_with_newline(stripped(text)),
        forall|i: int| stripped(text).len() <= i < text.len() ==> #[trigger] text[i] == '\n',
        stripped(stripped(text)) == stripped(text),
        stripped(text.push('\n')) == stripped(text),
    decreases text.len(),
{
    assert(text.push('\n').drop_last() =~= text);
    if ends_with_newline(text) {
        let rest = text.drop_last();
        lemma_stripped(rest);
        assert(rest.take(stripped(rest).len() as int) =~= text.take(stripped(rest).len() as int));
        assert forall|i: int| stripped(text).len() <= i < text.len() implies #[trigger] text[i]
            == '\n' by {
            if i < rest.len() {
                assert(rest[i] == text[i]);
            }
        }
    } else {
        assert(text.take(text.len() as int) =~= text);
    }
}

/// A closed text ends in exactly one line feed, and before it stands the
/// text as it was, without the line feeds that ended it. A text that does
/// not end in a line feed gets one appended; one that ends in just one is
/// left as it is; closing twice is closing once.
pub proof fn lemma_normalized(text: Seq<char>)
    ensures
        ends_with_newline(normalized(text)),
        !ends_with_newline(normalized(text).drop_last()),
        normalized(text).drop_last() == stripped(text),
        !ends_with_newline(text) ==> normalized(text) == text.push('\n'),
        ends_with_newline(text) && !ends_with_newline(text.drop_last()) ==> normalized(text)
            == text,
        normalized(normalized(text)) == normalized(text),
{
    lemma_stripped(text);
    lemma_stripped(stripped(text));
    assert(stripped(text).push('\n').drop_last() =~= stripped(text));
    if ends_with_newline(text) && !ends_with_newline(text.drop_last()) {
        assert(text.drop_last().push('\n') =~= text);
    }
}

/// Closes the text of a frame with exactly one line feed: line feeds at its
/// end are taken away and one is put there. Nothing else changes.
pub fn normalize_frame_text(text: String) -> (r: String)
    ensures
        r@ == normalized(text@),
{
    let len: usize = text.as_str().unicode_len();
    let mut keep: usize = len;
    assert(text@.take(keep as int) =~= text@);
    while keep > 0 && text.as_str().get_char(keep - 1) == '\n'
        invariant
            keep <= len,
            len == text@.len(),
            stripped(text@) == stripped(text@.take(keep as int)),
        decreases keep,
    {
        assert(text@.take(keep as int).drop_last() =~= text@.take(keep - 1));
        keep = keep - 1;
    }
    if len - keep == 1 {
        // one line feed at the end: the text is closed as it stands
        assert(text@.take(keep as int).push('\n') =~= text@);
        return text;
    }
    proof {
        reveal_strlit("\n");
    }
    let r = String::from_str(text.as_str().substring_char(0, keep)).concat("\n");
    assert(r@ =~= text@.take(keep as int).push('\n'));
    r
}

/// The first `width` characters of `input`, or all of it if it has fewer.
pub fn truncate_to_width(input: &str, width: usize) -> (r: String)
    ensures
        r@ == input@.take(if width < input@.len() { width as int } else { input@.len() as int }),
{
    let len: usize = input.unicode_len();
    let keep: usize = if width < len { width } else { len };
    String::from_str(input.substring_char(0, keep))
}

/// Position of the first line feed at or behind `from`, or the length of
/// `bytes` if there is none.
pub open spec fn line_end(bytes: Seq<u8>, from: int) -> int
    decreases bytes.len() - from,
{
    if from >= bytes.len() {
        bytes.len() as int
    } else if bytes[from] == 10 {
        from
    } else {
        line_end(bytes, from + 1)
    }
}

/// A line without the carriage return that may end it.
pub open spec fn without_cr(line: Seq<u8>) -> Seq<u8> {
    if line.len() > 0 && line.last() == 13 {
        line.drop_last()
    } else {
        line
    }
}

/// The lines of a text from position `from` on.
pub open spec fn lines_from(bytes: Seq<u8>, from: int) -> Seq<Seq<u8>>
    decreases bytes.len() - from,
{
    let end = line_end(bytes, from);
    if from < 0 || from >= bytes.len() || end < from {
        Seq::empty()
    } else if end >= bytes.len() {
        seq![bytes.subrange(from, bytes.len() as int)]
    } else {
        seq![without_cr(bytes.subrange(from, end))].add(lines_from(bytes, end + 1))
    }
}

/// The lines of a text. A line ends at a line feed, or at a carriage return
/// with a line feed behind it; neither belongs to the line. What follows the
/// last line feed is a line too, unless it is empty.
pub open spec fn lines_of(bytes: Seq<u8>) -> Seq<Seq<u8>> {
    lines_from(bytes, 0)
}

/// Length of the longest of the lines.
pub open spec fn widest(lines: Seq<Seq<u8>>) -> nat
    decreases lines.len(),
{
    if lines.len() == 0 {
        0
    } else {
        let rest = widest(lines.drop_last());
        if lines.last().len() > rest {
            lines.last().len()
        } else {
            rest
        }
    }
}

/// The end of a line lies between its start and the end of the text, on a
/// line feed if inside the text, with no line feed before it.
pub proof fn lemma_line_end(bytes: Seq<u8>, from: int)
    requires
        0 <= from <= bytes.len(),
    ensures
        from <= line_end(bytes, from) <= bytes.len(),
        line_end(bytes, from) < bytes.len() ==> bytes[line_end(bytes, from)] == 10,
        forall|i: int| from <= i < line_end(bytes, from) ==> bytes[i] != 10,
    decreases bytes.len() - from,
{
    if from < bytes.len() && bytes[from] != 10 {
        lemma_line_end(bytes, from + 1);
    }
}

/// A text cut into its lines.
pub struct TextLines<'a> {
    bytes: &'a [u8],
    spans: Vec<(usize, usize)>,
}

impl<'a> TextLines<'a> {
    #[verifier::type_invariant]
    spec fn inv(self) -> bool {
        forall|i: int|
            0 <= i < self.spans@.len() ==> (#[trigger] self.spans@[i]).0 <= self.spans@[i].1
                <= self.bytes@.len()
    }

    /// The lines, each as its bytes.
    pub closed spec fn lines(self) -> Seq<Seq<u8>> {
        Seq::new(
            self.spans@.len(),
            |i: int| self.bytes@.subrange(self.spans@[i].0 as int, self.spans@[i].1 as int),
        )
    }

    /// Cuts a text into its lines.
    pub fn split(bytes: &'a [u8]) -> (text: TextLines<'a>)
        ensures
            text.lines() == lines_of(bytes@),
    {
        let mut spans: Vec<(usize, usize)> = Vec::new();
        let mut from: usize = 0;
        let len: usize = bytes.len();
        let ghost done: Seq<Seq<u8>> = Seq::empty();
        while from < len
            invariant
                from <= len,
                len == bytes@.len(),
                done.len() == spans@.len(),
                forall|i: int|
                    0 <= i < spans@.len() ==> (#[trigger] spans@[i]).0 <= spans@[i].1 <= len
                        && done[i] == bytes@.subrange(spans@[i].0 as int, spans@[i].1 as int),
                lines_of(bytes@) == done.add(lines_from(bytes@, from as int)),
            decreases len - from,
        {
            let mut end: usize = from;
            while end < len && bytes[end] != 10
                invariant
                    from <= end <= len,
                    len == bytes@.len(),
                    line_end(bytes@, from as int) == line_end(bytes@, end as int),
                decreases len - end,
            {
                end = end + 1;
            }
            proof {
                lemma_line_end(bytes@, from as int);
            }
            let ghost rest = lines_from(bytes@, from as int);
            if end >= len {
                spans.push((from, len));
                proof {
                    let line = bytes@.subrange(from as int, len as int);
                    assert(rest =~= seq![line]);
                    assert(lines_from(bytes@, len as int) =~= Seq::<Seq<u8>>::empty());
                    assert(done.push(line).add(lines_from(bytes@, len as int)) =~= done.add(rest));
                    done = done.push(line);
                }
                from = len;
            } else {
                let stop: usize = if end > from && bytes[end - 1] == 13 {
                    end - 1
                } else {
                    end
                };
                spans.push((from, stop));
                proof {
                    let whole = bytes@.subrange(from as int, end as int);
                    let line = bytes@.subrange(from as int, stop as int);
                    assert(without_cr(whole) =~= line);
                    assert(rest =~= seq![line].add(lines_from(bytes@, end + 1)));
                    assert(done.push(line).add(lines_from(bytes@, end + 1)) =~= done.add(rest));
                    done = done.push(line);
                }
                from = end + 1;
            }
        }
        proof {
            assert(lines_from(bytes@, from as int) =~= Seq::<Seq<u8>>::empty());
            assert(done.add(Seq::<Seq<u8>>::empty()) =~= done);
        }
        let text = TextLines { bytes, spans };
        assert(text.lines() =~= done);
        text
    }

    /// Number of lines.
    pub fn height(&self) -> (n: usize)
        ensures
            n == self.lines().len(),
    {
        self.spans.len()
    }

    /// Length of the longest line.
    pub fn width(&self) -> (w: usize)
        ensures
            w == widest(self.lines()),
    {
        proof {
            use_type_invariant(self);
        }
        let mut w: usize = 0;
        let mut i: usize = 0;
        assert(self.lines().take(0) =~= Seq::<Seq<u8>>::empty());
        while i < self.spans.len()
            invariant
                i <= self.spans@.len(),
                self.lines().len() == self.spans@.len(),
                forall|j: int|
                    0 <= j < self.spans@.len() ==> (#[trigger] self.spans@[j]).0
                        <= self.spans@[j].1 <= self.bytes@.len(),
                w == widest(self.lines().take(i as int)),
            decreases self.spans@.len() - i,
        {
            let span: (usize, usize) = self.spans[i];
            let n: usize = span.1 - span.0;
            proof {
                let upto = self.lines().take(i + 1);
                assert(upto.drop_last() =~= self.lines().take(i as int));
                assert(upto.last().len() == n);
            }
            if n > w {
                w = n;
            }
            i = i + 1;
        }
        assert(self.lines().take(self.spans@.len() as int) =~= self.lines());
        w
    }

    /// The byte at column `col` of line `row`, if the line reaches that far.
    pub fn byte_at(&self, row: usize, col: usize) -> (b: Option<u8>)
        ensures
            b == (if row < self.lines().len() && col < self.lines()[row as int].len() {
                Some(self.lines()[row as int][col as int])
            } else {
                None
            }),
    {
        proof {
            use_type_invariant(self);
        }
        if row >= self.spans.len() {
            return None;
        }
        let span: (usize, usize) = self.spans[row];
        if col >= span.1 - span.0 {
            return None;
        }
        Some(self.bytes[span.0 + col])
    }
}

} // verus!
