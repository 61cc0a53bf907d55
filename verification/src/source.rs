use vstd::prelude::*;
use crate::text::{chars_of, string_of};

verus! {

/// Identifies one text held by a `SourceMap`: its index there.
#[derive(Debug, Clone, Copy, PartialEq, Eq, Hash, Structural)]
pub struct SourceId(pub usize);

/// A range of byte offsets, `start..end`, in one source text.
#[derive(Debug, Clone, Copy, PartialEq, Eq, Structural)]
pub struct Span {
    pub source_id: SourceId,
    pub start: usize,
    pub end: usize,
}

pub open spec fn min_nat(a: usize, b: usize) -> usize {
    if a <= b { a } else { b }
}

pub open spec fn max_nat(a: usize, b: usize) -> usize {
    if a >= b { a } else { b }
}

impl Span {
    pub fn new(source_id: SourceId, start: usize, end: usize) -> (s: Self)
        ensures
            s == (Span { source_id, start, end }),
    {
        Span { source_id, start, end }
    }

    /// The smallest span that covers both spans.
    pub fn merge(self, other: Span) -> (s: Self)
        requires
            self.source_id == other.source_id,
        ensures
            s.source_id == self.source_id,
            s.start == min_nat(self.start, other.start),
            s.end == max_nat(self.end, other.end),
    {
        let start = if self.start <= other.start { self.start } else { other.start };
        let end = if self.end >= other.end { self.end } else { other.end };
        Span::new(self.source_id, start, end)
    }
}

/// Maps `generated_start..generated_end` of a generated text back to `original`.
#[derive(Debug, Clone, Copy)]
pub struct SourceSegment {
    pub generated_start: usize,
    pub generated_end: usize,
    pub original: Span,
}

/// One text known to a `SourceMap`.
#[derive(Debug)]
pub struct SourceFile {
    pub id: SourceId,
    pub path: String,
    pub text: String,
    pub chars: Vec<char>,
    pub offsets: Vec<usize>,
    pub mappings: Vec<SourceSegment>,
}

/// How many bytes UTF-8 gives a character.
pub open spec fn utf8_width(c: char) -> nat {
    let v = c as u32;
    if v <= 0x7F { 1 } else if v <= 0x7FF { 2 } else if 0x800 <= v <= 0xFFFF && !(0xD800 <= v <= 0xDFFF) { 3 } else { 4 }
}

/// How many bytes UTF-8 gives a text.
pub open spec fn bytes_len(s: Seq<char>) -> nat
    decreases s.len(),
{
    if s.len() == 0 { 0 } else { bytes_len(s.drop_last()) + utf8_width(s.last()) }
}

/// The byte offset of the character at index `k` of `s`.
pub open spec fn byte_at(s: Seq<char>, k: int) -> nat {
    bytes_len(s.take(k))
}

/// The index of the character that byte offset `b` falls in, counting from `k`: the last
/// index whose byte offset is at most `b` (the length for offsets past the end).
pub open spec fn index_from(s: Seq<char>, b: int, k: int) -> int
    decreases s.len() - k,
{
    if 0 <= k < s.len() && byte_at(s, k + 1) <= b { index_from(s, b, k + 1) } else { k }
}

/// The character index of byte offset `b`.
pub open spec fn char_index_at(s: Seq<char>, b: int) -> int {
    index_from(s, b, 0)
}

pub proof fn lemma_bytes_first(s: Seq<char>)
    requires
        s.len() > 0,
    ensures
        bytes_len(s) == utf8_width(s[0]) + bytes_len(s.drop_first()),
    decreases s.len(),
{
    if s.len() > 1 {
        lemma_bytes_first(s.drop_last());
        assert(s.drop_last().drop_first() =~= s.drop_first().drop_last());
        assert(s.drop_last()[0] == s[0]);
        assert(s.drop_first().last() == s.last());
    } else {
        assert(s.drop_last() =~= Seq::<char>::empty());
        assert(s.drop_first() =~= Seq::<char>::empty());
    }
}

/// The UTF-8 encoding of a text has as many bytes as `bytes_len` counts.
pub proof fn lemma_encode_len(s: Seq<char>)
    ensures
        vstd::utf8::encode_utf8(s).len() == bytes_len(s),
    decreases s.len(),
{
    if s.len() > 0 {
        lemma_encode_len(s.drop_first());
        lemma_bytes_first(s);
    }
}

/// Byte offsets grow with character indices, by at least one byte per character.
pub proof fn lemma_byte_at_mono(s: Seq<char>, i: int, j: int)
    requires
        0 <= i <= j <= s.len(),
    ensures
        byte_at(s, i) + (j - i) <= byte_at(s, j),
    decreases j - i,
{
    if i < j {
        lemma_byte_at_mono(s, i, j - 1);
        assert(s.take(j).drop_last() =~= s.take(j - 1));
    }
}

/// `index_from` lands on an index whose byte offset is at most `b`, where the next one is past it.
pub proof fn lemma_index_from(s: Seq<char>, b: int, k: int)
    requires
        0 <= k <= s.len(),
        byte_at(s, k) <= b,
    ensures
        k <= index_from(s, b, k) <= s.len(),
        byte_at(s, index_from(s, b, k)) <= b,
        index_from(s, b, k) < s.len() ==> byte_at(s, index_from(s, b, k) + 1) > b,
    decreases s.len() - k,
{
    if k < s.len() && byte_at(s, k + 1) <= b {
        lemma_index_from(s, b, k + 1);
    }
}

/// At a byte offset that starts a character, the character index is that character's.
pub proof fn lemma_char_index_of_byte(s: Seq<char>, k: int)
    requires
        0 <= k <= s.len(),
    ensures
        char_index_at(s, byte_at(s, k) as int) == k,
{
    assert(s.take(0) =~= Seq::<char>::empty());
    lemma_index_from(s, byte_at(s, k) as int, 0);
    let r = char_index_at(s, byte_at(s, k) as int);
    if r < k {
        lemma_byte_at_mono(s, r + 1, k);
    } else if r > k {
        lemma_byte_at_mono(s, k + 1, r);
        lemma_byte_at_mono(s, k, k + 1);
    }
}

/// The number of line breaks in `s`.
pub open spec fn newline_count(s: Seq<char>) -> nat
    decreases s.len(),
{
    if s.len() == 0 {
        0
    } else {
        newline_count(s.drop_last()) + if s.last() == '\n' { 1nat } else { 0nat }
    }
}

/// The offset just after the last line break among the first `o` characters (0 if none).
pub open spec fn line_start_before(s: Seq<char>, o: int) -> int
    decreases o,
{
    if o <= 0 {
        0
    } else if s[o - 1] == '\n' {
        o
    } else {
        line_start_before(s, o - 1)
    }
}

/// `r` is where line number `line` (counted from 1) starts in `s`.
pub open spec fn is_line_start(s: Seq<char>, line: int, r: int) -> bool {
    &&& 0 <= r <= s.len()
    &&& newline_count(s.take(r)) == line - 1
    &&& (r == 0 || s[r - 1] == '\n')
}

/// The offset just after the first line break at or after `k` (the length if none).
pub open spec fn line_end_from(s: Seq<char>, k: int) -> int
    decreases s.len() - k,
{
    if k < 0 || k >= s.len() {
        s.len() as int
    } else if s[k] == '\n' {
        k + 1
    } else {
        line_end_from(s, k + 1)
    }
}

/// `s` without its trailing carriage returns and line feeds.
pub open spec fn trim_line_end(s: Seq<char>) -> Seq<char>
    decreases s.len(),
{
    if s.len() > 0 && (s.last() == '\r' || s.last() == '\n') {
        trim_line_end(s.drop_last())
    } else {
        s
    }
}

proof fn lemma_newline_count_step(s: Seq<char>, i: int)
    requires
        0 <= i < s.len(),
    ensures
        newline_count(s.take(i + 1)) == newline_count(s.take(i)) + if s[i] == '\n' { 1nat } else { 0nat },
{
    assert(s.take(i + 1).drop_last() =~= s.take(i));
}

proof fn lemma_newline_count_mono(s: Seq<char>, i: int, j: int)
    requires
        0 <= i <= j <= s.len(),
    ensures
        newline_count(s.take(i)) <= newline_count(s.take(j)),
    decreases j - i,
{
    if i < j {
        lemma_newline_count_mono(s, i, j - 1);
        lemma_newline_count_step(s, j - 1);
    }
}

impl SourceFile {
    /// The characters of the text.
    pub open spec fn view(&self) -> Seq<char> {
        self.chars@
    }

    pub closed spec fn wf(&self) -> bool {
        &&& self.chars@ == self.text@
        &&& self.offsets@.len() == self.chars@.len() + 1
        &&& forall|k: int| 0 <= k <= self.chars@.len() ==> #[trigger] self.offsets@[k] == byte_at(self.chars@, k)
    }

    /// The byte offset of every character index of a well-formed text is known, up to its end.
    pub proof fn lemma_offsets(&self)
        requires
            self.wf(),
        ensures
            bytes_len(self@) <= usize::MAX,
    {
        assert(self.chars@.take(self.chars@.len() as int) =~= self.chars@);
        assert(self.offsets@[self.chars@.len() as int] == byte_at(self.chars@, self.chars@.len() as int));
    }

    pub closed spec fn segments(&self) -> Seq<SourceSegment> {
        self.mappings@
    }

    fn new(id: SourceId, path: String, text: String) -> (f: Self)
        ensures
            f.wf(),
            f.id == id,
            f.path@ == path@,
            f.text@ == text@,
            f@ == text@,
            f.segments().len() == 0,
    {
        let chars = chars_of(text.as_str());
        let total = text.as_str().as_bytes().len();
        proof {
            lemma_encode_len(text@);
            assert(chars@.take(chars@.len() as int) =~= chars@);
        }
        let mut offsets: Vec<usize> = Vec::new();
        offsets.push(0);
        assert(chars@.take(0) =~= Seq::<char>::empty());
        let mut k: usize = 0;
        let mut at: usize = 0;
        while k < chars.len()
            invariant
                k <= chars@.len(),
                chars@ == text@,
                total == bytes_len(chars@),
                chars@.take(chars@.len() as int) == chars@,
                offsets@.len() == k + 1,
                at == byte_at(chars@, k as int),
                forall|j: int| 0 <= j <= k ==> #[trigger] offsets@[j] == byte_at(chars@, j),
            decreases chars.len() - k,
        {
            let v = chars[k] as u32;
            let w: usize = if v <= 0x7F { 1 } else if v <= 0x7FF { 2 } else if 0x800 <= v && v <= 0xFFFF && !(0xD800 <= v && v <= 0xDFFF) { 3 } else { 4 };
            proof {
                assert(chars@.take(k + 1).drop_last() =~= chars@.take(k as int));
                assert(chars@.take(k + 1).last() == chars@[k as int]);
                lemma_byte_at_mono(chars@, k + 1, chars@.len() as int);
                assert(w == utf8_width(chars@[k as int]));
                assert(byte_at(chars@, k + 1) == at + w);
            }
            at = at + w;
            offsets.push(at);
            k = k + 1;
        }
        SourceFile { id, path, text, chars, offsets, mappings: Vec::new() }
    }

    /// The byte offset of character index `k`.
    pub fn byte_offset(&self, k: usize) -> (r: usize)
        requires
            self.wf(),
            k <= self@.len(),
        ensures
            r == byte_at(self@, k as int),
    {
        self.offsets[k]
    }

    /// The number of bytes of the text.
    pub fn byte_len(&self) -> (r: usize)
        requires
            self.wf(),
        ensures
            r == bytes_len(self@),
    {
        assert(self@.take(self@.len() as int) =~= self@);
        self.offsets[self.chars.len()]
    }

    /// The index of the character that byte offset `b` falls in (the length past the end).
    pub fn char_index(&self, b: usize) -> (r: usize)
        requires
            self.wf(),
        ensures
            r == char_index_at(self@, b as int),
            r <= self@.len(),
    {
        let ghost s = self@;
        assert(s.take(0) =~= Seq::<char>::empty());
        let mut k: usize = 0;
        while k < self.chars.len() && self.offsets[k + 1] <= b
            invariant
                self.wf(),
                s == self@,
                k <= s.len(),
                char_index_at(s, b as int) == index_from(s, b as int, k as int),
            decreases self.chars.len() - k,
        {
            k = k + 1;
        }
        k
    }

    /// The number of characters of the text.
    pub fn len(&self) -> (n: usize)
        ensures
            n == self@.len(),
    {
        self.chars.len()
    }

    /// The character at `i`.
    pub fn char_at(&self, i: usize) -> (c: char)
        requires
            i < self@.len(),
        ensures
            c == self@[i as int],
    {
        self.chars[i]
    }

    /// The text between two character offsets.
    pub fn slice(&self, from: usize, to: usize) -> (r: String)
        requires
            from <= to <= self@.len(),
        ensures
            r@ == self@.subrange(from as int, to as int),
    {
        string_of(&self.chars.as_slice()[from..to])
    }

    fn duplicate(&self) -> (r: Self)
        ensures
            r.id == self.id,
            r.path@ == self.path@,
            r.text@ == self.text@,
            r@ == self@,
            r.wf() == self.wf(),
            r.segments() == self.segments(),
    {
        SourceFile {
            id: self.id,
            path: self.path.clone(),
            text: self.text.clone(),
            chars: self.chars.clone(),
            offsets: self.offsets.clone(),
            mappings: self.mappings.clone(),
        }
    }

    /// The line (from 1) and column (from 1, in characters) of byte offset `offset`, clamped
    /// to the text; an offset inside a character counts as that character's start.
    pub fn line_column(&self, offset: usize) -> (r: (usize, usize))
        requires
            self.wf(),
        ensures
            ({
                let o = char_index_at(self@, offset as int);
                &&& r.0 == sat_add(newline_count(self@.take(o)) as usize, 1)
                &&& r.1 == sat_add((o - line_start_before(self@, o)) as usize, 1)
            }),
    {
        let o = self.char_index(offset);
        let mut count: usize = 0;
        let mut start: usize = 0;
        let mut i: usize = 0;
        while i < o
            invariant
                o <= self.chars.len(),
                i <= o,
                count == newline_count(self@.take(i as int)),
                start == line_start_before(self@, i as int),
                start <= i,
                count <= i,
            decreases o - i,
        {
            proof {
                lemma_newline_count_step(self@, i as int);
            }
            if self.chars[i] == '\n' {
                count = count + 1;
                start = i + 1;
            }
            i = i + 1;
        }
        (count.saturating_add(1), (o - start).saturating_add(1))
    }

    /// The character index where line number `line` (counted from 1) starts.
    pub fn line_start_index(&self, line: usize) -> (r: usize)
        requires
            1 <= line <= newline_count(self@) + 1,
        ensures
            is_line_start(self@, line as int, r as int),
    {
        if line == 1 {
            assert(self@.take(0) =~= Seq::<char>::empty());
            return 0;
        }
        let mut count: usize = 0;
        let mut i: usize = 0;
        assert(self@.take(self@.len() as int) =~= self@);
        while i < self.chars.len()
            invariant
                i <= self.chars.len(),
                count == newline_count(self@.take(i as int)),
                count < line - 1,
                2 <= line <= newline_count(self@) + 1,
                self@.take(self@.len() as int) == self@,
            decreases self.chars.len() - i,
        {
            proof {
                lemma_newline_count_step(self@, i as int);
            }
            if self.chars[i] == '\n' {
                count = count + 1;
                if count == line - 1 {
                    return i + 1;
                }
            }
            i = i + 1;
        }
        assert(false);
        0
    }

    /// The byte offset where line number `line` (counted from 1) starts.
    pub fn line_start(&self, line: usize) -> (r: usize)
        requires
            self.wf(),
            1 <= line <= newline_count(self@) + 1,
        ensures
            exists|k: int| is_line_start(self@, line as int, k) && r == byte_at(self@, k),
    {
        let k = self.line_start_index(line);
        self.byte_offset(k)
    }

    /// The text of line number `line` (counted from 1), without its line break.
    pub fn line(&self, line: usize) -> (r: String)
        requires
            1 <= line <= newline_count(self@) + 1,
        ensures
            exists|start: int|
                is_line_start(self@, line as int, start)
                && r@ == trim_line_end(self@.subrange(start, line_end_from(self@, start))),
    {
        let start = self.line_start_index(line);
        let mut end = start;
        while end < self.chars.len() && self.chars[end] != '\n'
            invariant
                start <= end <= self.chars.len(),
                line_end_from(self@, start as int) == line_end_from(self@, end as int),
            decreases self.chars.len() - end,
        {
            end = end + 1;
        }
        if end < self.chars.len() {
            end = end + 1;
        }
        assert(end == line_end_from(self@, start as int));
        let mut e = end;
        while e > start && (self.chars[e - 1] == '\r' || self.chars[e - 1] == '\n')
            invariant
                start <= e <= end <= self.chars.len(),
                trim_line_end(self@.subrange(start as int, e as int))
                    == trim_line_end(self@.subrange(start as int, end as int)),
            decreases e,
        {
            assert(self@.subrange(start as int, e as int).drop_last()
                =~= self@.subrange(start as int, e - 1));
            e = e - 1;
        }
        assert(trim_line_end(self@.subrange(start as int, e as int))
            == self@.subrange(start as int, e as int));
        self.slice(start, e)
    }

    /// Where the line holding character index `offset` (clamped to the text) starts, and the
    /// character index just after its line break.
    pub fn line_bounds(&self, offset: usize) -> (r: (usize, usize))
        ensures
            ({
                let o = min_nat(offset, self@.len() as usize) as int;
                &&& r.0 == line_start_before(self@, o)
                &&& r.1 == line_end_from(self@, r.0 as int)
                &&& r.0 <= o <= self@.len()
                &&& r.0 <= r.1 <= self@.len()
            }),
    {
        let o = if offset <= self.chars.len() { offset } else { self.chars.len() };
        let mut start: usize = 0;
        let mut i: usize = 0;
        while i < o
            invariant
                o <= self.chars.len(),
                i <= o,
                start == line_start_before(self@, i as int),
                start <= i,
            decreases o - i,
        {
            if self.chars[i] == '\n' {
                start = i + 1;
            }
            i = i + 1;
        }
        let mut end = start;
        while end < self.chars.len() && self.chars[end] != '\n'
            invariant
                start <= end <= self.chars.len(),
                line_end_from(self@, start as int) == line_end_from(self@, end as int),
            decreases self.chars.len() - end,
        {
            end = end + 1;
        }
        if end < self.chars.len() {
            end = end + 1;
        }
        (start, end)
    }

    /// The text from `start` to `end` without its trailing carriage returns and line feeds.
    pub fn trimmed(&self, start: usize, end: usize) -> (r: String)
        requires
            start <= end <= self@.len(),
        ensures
            r@ == trim_line_end(self@.subrange(start as int, end as int)),
    {
        let mut e = end;
        while e > start && (self.chars[e - 1] == '\r' || self.chars[e - 1] == '\n')
            invariant
                start <= e <= end <= self.chars.len(),
                trim_line_end(self@.subrange(start as int, e as int))
                    == trim_line_end(self@.subrange(start as int, end as int)),
            decreases e,
        {
            assert(self@.subrange(start as int, e as int).drop_last()
                =~= self@.subrange(start as int, e - 1));
            e = e - 1;
        }
        assert(trim_line_end(self@.subrange(start as int, e as int))
            == self@.subrange(start as int, e as int));
        self.slice(start, e)
    }

    /// The number of line breaks in the text.
    pub fn newlines(&self) -> (n: usize)
        ensures
            n == newline_count(self@),
    {
        let mut n: usize = 0;
        let mut i: usize = 0;
        assert(self@.take(self@.len() as int) =~= self@);
        while i < self.chars.len()
            invariant
                i <= self.chars.len(),
                n == newline_count(self@.take(i as int)),
                n <= i,
            decreases self.chars.len() - i,
        {
            proof {
                lemma_newline_count_step(self@, i as int);
            }
            if self.chars[i] == '\n' {
                n = n + 1;
            }
            i = i + 1;
        }
        n
    }
}

/// A span of character indices of `s` as byte offsets, each index clamped to the text.
pub open spec fn byte_span_of(s: Seq<char>, span: Span) -> Span {
    Span {
        source_id: span.source_id,
        start: byte_at(s, if span.start <= s.len() { span.start as int } else { s.len() as int }) as usize,
        end: byte_at(s, if span.end <= s.len() { span.end as int } else { s.len() as int }) as usize,
    }
}

/// A span of character indices of `source` as byte offsets, each index clamped to the text.
pub fn byte_span(source: &SourceFile, span: Span) -> (r: Span)
    requires
        source.wf(),
    ensures
        r == byte_span_of(source@, span),
{
    let n = source.len();
    let a = if span.start <= n { span.start } else { n };
    let b = if span.end <= n { span.end } else { n };
    Span::new(span.source_id, source.byte_offset(a), source.byte_offset(b))
}

/// A segment given in character indices, as byte offsets of the generated text `g` and of the
/// original text `o`.
pub open spec fn byte_segment_of(g: Seq<char>, o: Seq<char>, s: SourceSegment) -> SourceSegment {
    SourceSegment {
        generated_start: byte_at(g, if s.generated_start <= g.len() { s.generated_start as int } else { g.len() as int }) as usize,
        generated_end: byte_at(g, if s.generated_end <= g.len() { s.generated_end as int } else { g.len() as int }) as usize,
        original: byte_span_of(o, s.original),
    }
}

/// All texts of one compilation: files, included files and generated texts.
#[derive(Debug)]
pub struct SourceMap {
    files: Vec<SourceFile>,
}

impl SourceMap {
    pub closed spec fn len(&self) -> nat {
        self.files@.len()
    }

    pub closed spec fn file(&self, i: int) -> SourceFile {
        self.files@[i]
    }

    /// Every file is well formed, sits at its own index, and maps only into earlier files.
    pub closed spec fn wf(&self) -> bool {
        forall|i: int| 0 <= i < self.files@.len() ==> {
            &&& (#[trigger] self.files@[i]).wf()
            &&& self.files@[i].id.0 == i
            &&& forall|k: int| 0 <= k < self.files@[i].mappings@.len()
                ==> (#[trigger] self.files@[i].mappings@[k]).original.source_id.0 < i
        }
    }

    /// In a well-formed map each text's id is its index, its text is its characters, and it
    /// maps only into earlier texts.
    pub proof fn lemma_file(&self, i: int)
        requires
            self.wf(),
            0 <= i < self.len(),
        ensures
            self.file(i).id.0 == i,
            self.file(i).wf(),
            self.file(i).text@ == self.file(i)@,
            forall|k: int| 0 <= k < self.file(i).segments().len() ==> (#[trigger] self.file(i).segments()[k]).original.source_id.0 < i,
    {
        assert(self.files@[i].wf());
    }

    /// Whether `span` names a text of this map.
    pub open spec fn has(&self, span: Span) -> bool {
        span.source_id.0 < self.len()
    }

    pub fn new() -> (m: Self)
        ensures
            m.wf(),
            m.len() == 0,
    {
        SourceMap { files: Vec::new() }
    }

    /// Adds a text; its id is the number of texts held before.
    pub fn add_text(&mut self, path: String, text: String) -> (id: SourceId)
        requires
            old(self).wf(),
        ensures
            final(self).wf(),
            id.0 == old(self).len(),
            final(self).len() == old(self).len() + 1,
            forall|i: int| 0 <= i < old(self).len() ==> final(self).file(i) == old(self).file(i),
            final(self).file(id.0 as int)@ == text@,
            final(self).file(id.0 as int).path@ == path@,
            final(self).file(id.0 as int).segments().len() == 0,
    {
        let id = SourceId(self.files.len());
        let file = SourceFile::new(id, path, text);
        self.files.push(file);
        proof {
            assert forall|i: int| 0 <= i < self.files@.len() implies {
                &&& (#[trigger] self.files@[i]).wf()
                &&& self.files@[i].id.0 == i
                &&& forall|k: int| 0 <= k < self.files@[i].mappings@.len()
                    ==> (#[trigger] self.files@[i].mappings@[k]).original.source_id.0 < i
            } by {
                if i < old(self).files@.len() {
                    assert(self.files@[i] == old(self).files@[i]);
                }
            }
        }
        id
    }

    /// The segments of `mappings`, given in character indices of `text` and of the earlier
    /// texts they name, as byte offsets.
    pub fn byte_segments(&self, text: &str, mappings: &Vec<SourceSegment>) -> (r: Vec<SourceSegment>)
        requires
            self.wf(),
            forall|k: int| 0 <= k < mappings@.len() ==> (#[trigger] mappings@[k]).original.source_id.0 < self.len(),
        ensures
            r@.len() == mappings@.len(),
            forall|k: int| 0 <= k < mappings@.len() ==> (#[trigger] r@[k])
                == byte_segment_of(text@, self.file(mappings@[k].original.source_id.0 as int)@, mappings@[k]),
    {
        let file = SourceFile::new(SourceId(self.files.len()), String::new(), String::from_str(text));
        let mut converted: Vec<SourceSegment> = Vec::new();
        let mut i: usize = 0;
        while i < mappings.len()
            invariant
                self.wf(),
                file.wf(),
                file@ == text@,
                i <= mappings@.len(),
                converted@.len() == i,
                forall|k: int| 0 <= k < mappings@.len() ==> (#[trigger] mappings@[k]).original.source_id.0 < self.len(),
                forall|k: int| 0 <= k < i ==> (#[trigger] converted@[k])
                    == byte_segment_of(text@, self.file(mappings@[k].original.source_id.0 as int)@, mappings@[k]),
            decreases mappings.len() - i,
        {
            let seg = mappings[i];
            let n = file.len();
            let a = if seg.generated_start <= n { seg.generated_start } else { n };
            let b = if seg.generated_end <= n { seg.generated_end } else { n };
            let original_file = &self.files[seg.original.source_id.0];
            proof { self.lemma_file(seg.original.source_id.0 as int); }
            let original = byte_span(original_file, seg.original);
            converted.push(SourceSegment { generated_start: file.byte_offset(a), generated_end: file.byte_offset(b), original });
            i = i + 1;
        }
        converted
    }

    /// Adds a generated text with the segments, in byte offsets, that map it back to earlier
    /// texts.
    pub fn add_generated(&mut self, path: String, text: String, mappings: Vec<SourceSegment>) -> (id: SourceId)
        requires
            old(self).wf(),
            forall|k: int| 0 <= k < mappings@.len() ==> (#[trigger] mappings@[k]).original.source_id.0 < old(self).len(),
        ensures
            final(self).wf(),
            id.0 == old(self).len(),
            final(self).len() == old(self).len() + 1,
            forall|i: int| 0 <= i < old(self).len() ==> final(self).file(i) == old(self).file(i),
            final(self).file(id.0 as int)@ == text@,
            final(self).file(id.0 as int).path@ == path@,
            final(self).file(id.0 as int).segments() == mappings@,
    {
        let id = SourceId(self.files.len());
        let mut file = SourceFile::new(id, path, text);
        file.mappings = mappings;
        self.files.push(file);
        proof {
            assert forall|i: int| 0 <= i < self.files@.len() implies {
                &&& (#[trigger] self.files@[i]).wf()
                &&& self.files@[i].id.0 == i
                &&& forall|k: int| 0 <= k < self.files@[i].mappings@.len()
                    ==> (#[trigger] self.files@[i].mappings@[k]).original.source_id.0 < i
            } by {
                if i < old(self).files@.len() {
                    assert(self.files@[i] == old(self).files@[i]);
                }
            }
        }
        id
    }

    /// A map holding one text, and that text's id.
    pub fn from_text(path: String, text: String) -> (r: (Self, SourceId))
        ensures
            r.0.wf(),
            r.0.len() == 1,
            r.1.0 == 0,
            r.0.file(0)@ == text@,
            r.0.file(0).path@ == path@,
    {
        let mut sources = SourceMap::new();
        let id = sources.add_text(path, text);
        (sources, id)
    }

    /// The text with id `id`.
    pub fn get(&self, id: SourceId) -> (f: &SourceFile)
        requires
            id.0 < self.len(),
        ensures
            *f == self.file(id.0 as int),
    {
        &self.files[id.0]
    }

    /// A copy of the map.
    pub fn duplicate(&self) -> (r: Self)
        requires
            self.wf(),
        ensures
            r.wf(),
            r.len() == self.len(),
            forall|i: int| 0 <= i < self.len() ==> {
                &&& (#[trigger] r.file(i))@ == self.file(i)@
                &&& r.file(i).id == self.file(i).id
                &&& r.file(i).path@ == self.file(i).path@
                &&& r.file(i).segments() == self.file(i).segments()
            },
    {
        let mut files: Vec<SourceFile> = Vec::new();
        let mut i: usize = 0;
        while i < self.files.len()
            invariant
                self.wf(),
                i <= self.files.len(),
                files@.len() == i,
                forall|j: int| 0 <= j < i ==> {
                    &&& (#[trigger] files@[j])@ == self.files@[j]@
                    &&& files@[j].id == self.files@[j].id
                    &&& files@[j].path@ == self.files@[j].path@
                    &&& files@[j].text@ == self.files@[j].text@
                    &&& files@[j].wf() == self.files@[j].wf()
                    &&& files@[j].segments() == self.files@[j].segments()
                },
            decreases self.files.len() - i,
        {
            files.push(self.files[i].duplicate());
            i = i + 1;
        }
        let r = SourceMap { files };
        assert forall|j: int| 0 <= j < r.files@.len() implies {
            &&& (#[trigger] r.files@[j]).wf()
            &&& r.files@[j].id.0 == j
            &&& forall|k: int| 0 <= k < r.files@[j].mappings@.len()
                ==> (#[trigger] r.files@[j].mappings@[k]).original.source_id.0 < j
        } by {
            assert(self.files@[j].wf());
            assert(r.files@[j].mappings@ == self.files@[j].mappings@);
        }
        r
    }

    /// Follows a span in a generated text back to the text it was generated from.
    /// The first segment that holds `span.start` decides; at the very end of the text the last
    /// segment does. Without such a segment the span is its own answer.
    pub fn resolve(&self, span: Span) -> (r: (&SourceFile, Span))
        requires
            self.wf(),
            self.has(span),
        ensures
            self.has(r.1),
            *r.0 == self.file(r.1.source_id.0 as int),
            r.1 == match chosen_segment(self.file(span.source_id.0 as int).segments(), span.start, bytes_len(self.file(span.source_id.0 as int)@)) {
                Some(s) => mapped_span(s, span),
                None => span,
            },
    {
        let generated = self.get(span.source_id);
        proof { self.lemma_file(span.source_id.0 as int); }
        let ghost segs = generated.mappings@;
        let mut i: usize = 0;
        let n = generated.mappings.len();
        while i < n
            invariant
                n == segs.len(),
                segs == generated.mappings@,
                i <= n,
                first_holding_from(segs, span.start, 0) == first_holding_from(segs, span.start, i as int),
            ensures
                i <= n,
                first_holding_from(segs, span.start, 0) == first_holding_from(segs, span.start, i as int),
                i < n ==> segment_holds(segs[i as int], span.start),
            decreases n - i,
        {
            let segment = generated.mappings[i];
            if span.start >= segment.generated_start && span.start < segment.generated_end {
                break;
            }
            i = i + 1;
        }
        proof {
            if i < n {
                assert(first_holding_from(segs, span.start, i as int) == Some(i as int));
            } else {
                assert(first_holding_from(segs, span.start, i as int) == None::<int>);
            }
        }
        let segment = if i < n {
            generated.mappings[i]
        } else if span.start == generated.byte_len() && n > 0 {
            generated.mappings[n - 1]
        } else {
            return (generated, span);
        };
        assert(self.files@[span.source_id.0 as int].wf());
        assert(self.files@[span.source_id.0 as int].wf());
        assert(segs.contains(segment));
        (self.get(segment.original.source_id), map_span(segment, span))
    }
}

pub open spec fn segment_holds(s: SourceSegment, o: usize) -> bool {
    s.generated_start <= o < s.generated_end
}

/// The index of the first segment from `k` on that holds offset `o`.
pub open spec fn first_holding_from(segs: Seq<SourceSegment>, o: usize, k: int) -> Option<int>
    decreases segs.len() - k,
{
    if k < 0 || k >= segs.len() {
        None
    } else if segment_holds(segs[k], o) {
        Some(k)
    } else {
        first_holding_from(segs, o, k + 1)
    }
}

/// The segment that decides where offset `o` of a generated text of length `len` comes from.
pub open spec fn chosen_segment(segs: Seq<SourceSegment>, o: usize, len: nat) -> Option<SourceSegment> {
    match first_holding_from(segs, o, 0) {
        Some(k) => Some(segs[k]),
        None => if o == len && segs.len() > 0 { Some(segs.last()) } else { None },
    }
}

pub open spec fn sat_add(a: usize, b: usize) -> usize {
    if a + b <= usize::MAX { (a + b) as usize } else { usize::MAX }
}

pub open spec fn sat_sub(a: usize, b: usize) -> usize {
    if a >= b { (a - b) as usize } else { 0 }
}

/// The span that `span` of a generated text maps to through segment `s`: its start shifted
/// into the original range and kept inside it, its width kept (at least one character).
pub open spec fn mapped_span(s: SourceSegment, span: Span) -> Span {
    let offset = sat_sub(span.start, s.generated_start);
    let last = sat_sub(s.original.end, 1);
    let shifted = sat_add(s.original.start, offset);
    let start = if shifted <= last { shifted } else { last };
    let width0 = sat_sub(span.end, span.start);
    let width = if width0 >= 1 { width0 } else { 1 };
    let reach = sat_add(start, width);
    let capped = if reach <= s.original.end { reach } else { s.original.end };
    let end = if capped >= sat_add(start, 1) { capped } else { sat_add(start, 1) };
    Span { source_id: s.original.source_id, start, end }
}

fn map_span(s: SourceSegment, span: Span) -> (r: Span)
    ensures
        r == mapped_span(s, span),
{
    let offset = span.start.saturating_sub(s.generated_start);
    let last = s.original.end.saturating_sub(1);
    let shifted = s.original.start.saturating_add(offset);
    let start = if shifted <= last { shifted } else { last };
    let width0 = span.end.saturating_sub(span.start);
    let width = if width0 >= 1 { width0 } else { 1 };
    let reach = start.saturating_add(width);
    let capped = if reach <= s.original.end { reach } else { s.original.end };
    let next = start.saturating_add(1);
    let end = if capped >= next { capped } else { next };
    Span::new(s.original.source_id, start, end)
}

} // verus!
