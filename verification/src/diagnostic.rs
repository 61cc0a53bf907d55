use vstd::prelude::*;
use crate::source::{SourceMap, SourceFile, Span, min_nat, sat_add, line_start_before, line_end_from, trim_line_end, newline_count, char_index_at};
use crate::text::{decimal, usize_to_string};

verus! {

/// How grave a diagnostic is.
#[derive(Debug, Clone, Copy, PartialEq, Eq, Structural)]
pub enum Severity {
    Error,
    Warning,
}

/// A message about a span of source text, with optional help.
#[derive(Debug)]
pub struct Diagnostic {
    pub span: Span,
    pub message: String,
    pub help: Option<String>,
    pub severity: Severity,
}

impl Diagnostic {
    pub fn error(span: Span, message: String) -> (d: Self)
        ensures
            d.span == span,
            d.message@ == message@,
            d.help.is_none(),
            d.severity == Severity::Error,
    {
        Diagnostic { span, message, help: None, severity: Severity::Error }
    }

    pub fn warning(span: Span, message: String) -> (d: Self)
        ensures
            d.span == span,
            d.message@ == message@,
            d.help.is_none(),
            d.severity == Severity::Warning,
    {
        Diagnostic { span, message, help: None, severity: Severity::Warning }
    }

    pub fn with_help(self, help: String) -> (d: Self)
        ensures
            d.span == self.span,
            d.message@ == self.message@,
            d.help matches Some(h) && h@ == help@,
            d.severity == self.severity,
    {
        Diagnostic { span: self.span, message: self.message, help: Some(help), severity: self.severity }
    }

    /// A copy of the diagnostic.
    pub fn duplicate(&self) -> (d: Self)
        ensures
            d.span == self.span,
            d.message@ == self.message@,
            d.severity == self.severity,
            match (d.help, self.help) {
                (Some(a), Some(b)) => a@ == b@,
                (None, None) => true,
                _ => false,
            },
    {
        let help = match &self.help {
            Some(h) => Some(h.clone()),
            None => None,
        };
        Diagnostic { span: self.span, message: self.message.clone(), help, severity: self.severity }
    }

    /// The diagnostic as `path:line:column: severity: message`, the source line, a caret
    /// marker under the span, and the help if there is any.
    pub fn render(&self, sources: &SourceMap) -> (out: String)
        requires
            sources.wf(),
            sources.has(self.span),
        ensures
            out@ == rendered(sources.file(self.span.source_id.0 as int), self),
    {
        let source = sources.get(self.span.source_id);
        proof { sources.lemma_file(self.span.source_id.0 as int); }
        let (line, column) = source.line_column(self.span.start);
        let st = source.char_index(self.span.start);
        let en = source.char_index(self.span.end);
        let (ls, le) = source.line_bounds(st);
        let _n = source.len();
        assert(min_nat(st, source@.len() as usize) == st);
        let text = source.trimmed(ls, le);
        let ghost t = text@;
        assert(trim_len_le(source@.subrange(ls as int, le as int))) by {
            lemma_trim_len(source@.subrange(ls as int, le as int));
        }
        let tl = text.as_str().unicode_len();
        let line_end = ls + tl;
        let upto = if st <= line_end { st } else { line_end };
        let marker_start = upto - ls;
        let marker_end = if en <= line_end { en } else { line_end };
        let from = if st <= marker_end { st } else { marker_end };
        let width0 = marker_end - from;
        let marker_width = if width0 >= 1 { width0 } else { 1 };
        let line_text = usize_to_string(line);
        let number_width = line_text.as_str().unicode_len();
        let severity = match self.severity {
            Severity::Error => "error",
            Severity::Warning => "warning",
        };
        let mut out = String::new();
        out.append(source.path.as_str());
        out.append(":");
        out.append(line_text.as_str());
        out.append(":");
        out.append(usize_to_string(column).as_str());
        out.append(": ");
        out.append(severity);
        out.append(": ");
        out.append(self.message.as_str());
        out.append("\n  ");
        out.append(line_text.as_str());
        out.append(" | ");
        out.append(text.as_str());
        out.append("\n  ");
        out.append(repeat(' ', number_width).as_str());
        out.append(" | ");
        out.append(repeat(' ', marker_start).as_str());
        out.append(repeat('^', marker_width).as_str());
        match &self.help {
            Some(help) => {
                out.append("\nhelp: ");
                out.append(help.as_str());
            },
            None => {},
        }
        proof {
            reveal_strlit(":");
            reveal_strlit(": ");
            reveal_strlit("error");
            reveal_strlit("warning");
            reveal_strlit("\n  ");
            reveal_strlit(" | ");
            reveal_strlit("\nhelp: ");
        }
        out
    }
}

pub open spec fn trim_len_le(s: Seq<char>) -> bool {
    trim_line_end(s).len() <= s.len()
}

proof fn lemma_trim_len(s: Seq<char>)
    ensures
        trim_len_le(s),
    decreases s.len(),
{
    if s.len() > 0 && (s.last() == '\r' || s.last() == '\n') {
        lemma_trim_len(s.drop_last());
    }
}

/// `n` copies of `c`.
pub open spec fn repeated(c: char, n: nat) -> Seq<char> {
    Seq::new(n, |i: int| c)
}

pub fn repeat(c: char, n: usize) -> (r: String)
    ensures
        r@ == repeated(c, n as nat),
{
    let mut r = String::new();
    let mut i: usize = 0;
    while i < n
        invariant
            i <= n,
            r@ == repeated(c, i as nat),
        decreases n - i,
    {
        r.push(c);
        i = i + 1;
        assert(r@ =~= repeated(c, i as nat));
    }
    r
}

pub open spec fn severity_word(s: Severity) -> Seq<char> {
    match s {
        Severity::Error => "error"@,
        Severity::Warning => "warning"@,
    }
}

/// A diagnostic whose span is given in character indices, with its span in byte offsets.
pub fn in_bytes(sources: &SourceMap, d: Diagnostic) -> (r: Diagnostic)
    requires
        sources.wf(),
        sources.has(d.span),
    ensures
        r.span == crate::source::byte_span_of(sources.file(d.span.source_id.0 as int)@, d.span),
        sources.has(r.span),
        r.message@ == d.message@,
        r.severity == d.severity,
        r.help == d.help,
{
    let source = sources.get(d.span.source_id);
    proof { sources.lemma_file(d.span.source_id.0 as int); }
    let span = crate::source::byte_span(source, d.span);
    Diagnostic { span, message: d.message, help: d.help, severity: d.severity }
}

/// What `render` writes for diagnostic `d` whose span lies in `f`.
pub open spec fn rendered(f: SourceFile, d: &Diagnostic) -> Seq<char> {
    rendered_text(f, d.span, d.severity, d.message@, match d.help { Some(h) => Some(h@), None => None })
}

/// What `render` writes for a diagnostic with these parts whose span lies in `f`.
pub open spec fn rendered_text(f: SourceFile, span: Span, severity: Severity, message: Seq<char>, help: Option<Seq<char>>) -> Seq<char> {
    let s = f@;
    let st = char_index_at(s, span.start as int);
    let en = char_index_at(s, span.end as int);
    let o = st;
    let ls = line_start_before(s, o);
    let text = trim_line_end(s.subrange(ls, line_end_from(s, ls)));
    let line = sat_add(newline_count(s.take(o)) as usize, 1);
    let column = sat_add((o - ls) as usize, 1);
    let line_end = ls + text.len();
    let upto = if st <= line_end { st } else { line_end };
    let marker_end = if en <= line_end { en } else { line_end };
    let from = if st <= marker_end { st } else { marker_end };
    let width = if marker_end - from >= 1 { marker_end - from } else { 1 };
    f.path@ + ":"@ + decimal(line as nat) + ":"@ + decimal(column as nat) + ": "@
        + severity_word(severity) + ": "@ + message
        + "\n  "@ + decimal(line as nat) + " | "@ + text
        + "\n  "@ + repeated(' ', decimal(line as nat).len()) + " | "@
        + repeated(' ', (upto - ls) as nat) + repeated('^', width as nat)
        + match help {
            Some(h) => "\nhelp: "@ + h,
            None => Seq::empty(),
        }
}

/// `parts` joined by `sep`.
pub open spec fn joined(parts: Seq<Seq<char>>, sep: Seq<char>) -> Seq<char>
    decreases parts.len(),
{
    if parts.len() == 0 {
        Seq::empty()
    } else if parts.len() == 1 {
        parts[0]
    } else {
        joined(parts.drop_last(), sep) + sep + parts.last()
    }
}

/// Every diagnostic names a text of `sources`.
pub open spec fn all_in(diagnostics: Seq<Diagnostic>, sources: &SourceMap) -> bool {
    forall|i: int| 0 <= i < diagnostics.len() ==> sources.has(#[trigger] diagnostics[i].span)
}

/// All diagnostics rendered, separated by blank lines.
pub fn render_all(diagnostics: &[Diagnostic], sources: &SourceMap) -> (out: String)
    requires
        sources.wf(),
        all_in(diagnostics@, sources),
    ensures
        out@ == joined(
            Seq::new(diagnostics@.len(), |i: int| rendered(sources.file(diagnostics@[i].span.source_id.0 as int), &diagnostics@[i])),
            "\n\n"@,
        ),
{
    let ghost parts = Seq::new(diagnostics@.len(), |i: int| rendered(sources.file(diagnostics@[i].span.source_id.0 as int), &diagnostics@[i]));
    let mut out = String::new();
    let mut i: usize = 0;
    proof { reveal_strlit("\n\n"); }
    while i < diagnostics.len()
        invariant
            sources.wf(),
            all_in(diagnostics@, sources),
            i <= diagnostics.len(),
            parts == Seq::new(diagnostics@.len(), |i: int| rendered(sources.file(diagnostics@[i].span.source_id.0 as int), &diagnostics@[i])),
            out@ == joined(parts.take(i as int), "\n\n"@),
        decreases diagnostics.len() - i,
    {
        assert(sources.has(diagnostics@[i as int].span));
        if i > 0 {
            out.append("\n\n");
        }
        let one = diagnostics[i].render(sources);
        out.append(one.as_str());
        proof {
            assert(parts.take(i + 1).drop_last() =~= parts.take(i as int));
            if i == 0 {
                assert(out@ =~= parts.take(1)[0]);
            }
        }
        i = i + 1;
    }
    assert(parts.take(diagnostics@.len() as int) =~= parts);
    out
}

} // verus!
