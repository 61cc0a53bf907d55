use vstd::prelude::*;
use vstd::view::View as _;
use crate::exporters::map_chars;
use crate::diagnostic::Diagnostic;
use crate::model::{DocumentationFormat, DocumentationOwner, Workspace};
use crate::text::{cat, cat3, cat5, chars_of, string_of, decimal, trim, starts_with};

verus! {

/// How a character is written in HTML text or attribute values.
pub open spec fn html_char(c: char) -> Seq<char> {
    if c == '&' {
        seq!['&', 'a', 'm', 'p', ';']
    } else if c == '<' {
        seq!['&', 'l', 't', ';']
    } else if c == '>' {
        seq!['&', 'g', 't', ';']
    } else if c == '"' {
        seq!['&', 'q', 'u', 'o', 't', ';']
    } else if c == '\'' {
        seq!['&', '#', '3', '9', ';']
    } else {
        seq![c]
    }
}

/// `value` with the characters that HTML treats specially escaped.
pub fn html_escape(value: &str) -> (r: String)
    ensures
        r@ == map_chars(value@, |c: char| html_char(c)),
{
    let v = chars_of(value);
    let mut out: Vec<char> = Vec::new();
    let mut i: usize = 0;
    assert(v@.take(0) =~= Seq::<char>::empty());
    while i < v.len()
        invariant
            v@ == value@,
            i <= v@.len(),
            out@ == map_chars(v@.take(i as int), |c: char| html_char(c)),
        decreases v.len() - i,
    {
        assert(v@.take(i + 1).drop_last() =~= v@.take(i as int));
        let c = v[i];
        let ghost before = out@;
        let mut piece: Vec<char> = if c == '&' {
            vec!['&', 'a', 'm', 'p', ';']
        } else if c == '<' {
            vec!['&', 'l', 't', ';']
        } else if c == '>' {
            vec!['&', 'g', 't', ';']
        } else if c == '"' {
            vec!['&', 'q', 'u', 'o', 't', ';']
        } else if c == '\'' {
            vec!['&', '#', '3', '9', ';']
        } else {
            vec![c]
        };
        let ghost p = piece@;
        out.append(&mut piece);
        assert(out@ =~= before + p);
        i = i + 1;
    }
    assert(v@.take(v@.len() as int) =~= v@);
    string_of(out.as_slice())
}

/// `s` escaped for HTML.
pub open spec fn html_escaped(s: Seq<char>) -> Seq<char> {
    map_chars(s, |c: char| html_char(c))
}

/// HTML escaping leaves no character that could open a tag or end an attribute.
pub proof fn lemma_html_escape_safe(s: Seq<char>)
    ensures
        forall|i: int| 0 <= i < html_escaped(s).len() ==> {
            let c = #[trigger] html_escaped(s)[i];
            c != '<' && c != '>' && c != '"' && c != '\''
        },
    decreases s.len(),
{
    if s.len() > 0 {
        lemma_html_escape_safe(s.drop_last());
        let prefix = html_escaped(s.drop_last());
        let piece = html_char(s.last());
        assert(html_escaped(s) == prefix + piece);
        assert forall|i: int| 0 <= i < (prefix + piece).len() implies {
            let c = #[trigger] (prefix + piece)[i];
            c != '<' && c != '>' && c != '"' && c != '\''
        } by {
            if i < prefix.len() {
                assert((prefix + piece)[i] == prefix[i]);
            } else {
                assert((prefix + piece)[i] == piece[i - prefix.len()]);
            }
        }
    }
}

/// Who owns a section or decision, as a label.
pub fn owner_label(owner: &DocumentationOwner) -> (r: String)
    ensures
        r@ == match owner {
            DocumentationOwner::Workspace => "workspace"@,
            DocumentationOwner::Element(id) => id@,
        },
{
    match owner {
        DocumentationOwner::Workspace => String::from_str("workspace"),
        DocumentationOwner::Element(identifier) => identifier.clone(),
    }
}

/// `value` with every backslash made a forward slash.
pub fn normalized(value: &str) -> (r: String)
    ensures
        r@ == Seq::new(value@.len(), |i: int| if value@[i] == '\\' { '/' } else { value@[i] }),
{
    let v = chars_of(value);
    let mut out: Vec<char> = Vec::new();
    let mut i: usize = 0;
    while i < v.len()
        invariant
            v@ == value@,
            i <= v@.len(),
            out@ == Seq::new(i as nat, |k: int| if value@[k] == '\\' { '/' } else { value@[k] }),
        decreases v.len() - i,
    {
        out.push(if v[i] == '\\' { '/' } else { v[i] });
        i = i + 1;
        assert(out@ =~= Seq::new(i as nat, |k: int| if value@[k] == '\\' { '/' } else { value@[k] }));
    }
    string_of(out.as_slice())
}

/// One line of the ADR list of a decision: identifier, status, date, title, owner and source.
pub open spec fn adr_line(d: crate::model::DecisionRecord) -> Seq<char> {
    d.id@ + " | "@ + (match d.status { Some(s) => s@, None => "-"@ }) + " | "@
        + (match d.date { Some(s) => s@, None => "-"@ }) + " | "@ + d.title@ + " | "@
        + (match d.owner { DocumentationOwner::Workspace => "workspace"@, DocumentationOwner::Element(id) => id@ })
        + " | "@ + Seq::new(d.source_path@.len(), |i: int| if d.source_path@[i] == '\\' { '/' } else { d.source_path@[i] })
        + "\n"@
}

/// The lines of a list of decisions.
pub open spec fn adr_lines(ds: Seq<crate::model::DecisionRecord>) -> Seq<char>
    decreases ds.len(),
{
    if ds.len() == 0 {
        Seq::empty()
    } else {
        adr_lines(ds.drop_last()) + adr_line(ds.last())
    }
}

fn or_dash(value: &Option<String>) -> (r: String)
    ensures
        r@ == match value { Some(s) => s@, None => "-"@ },
{
    match value {
        Some(s) => s.clone(),
        None => String::from_str("-"),
    }
}

/// The workspace's decisions, one line each, or a note that there are none.
pub fn adr_list(workspace: &Workspace) -> (r: String)
    ensures
        workspace.decisions@.len() == 0 ==> r@ == "No ADRs found.\n"@,
        workspace.decisions@.len() > 0 ==> r@ == adr_lines(workspace.decisions@),
{
    if workspace.decisions.len() == 0 {
        return String::from_str("No ADRs found.\n");
    }
    let mut output = String::new();
    let mut i: usize = 0;
    assert(workspace.decisions@.take(0) =~= Seq::<crate::model::DecisionRecord>::empty());
    while i < workspace.decisions.len()
        invariant
            i <= workspace.decisions@.len(),
            output@ == adr_lines(workspace.decisions@.take(i as int)),
        decreases workspace.decisions.len() - i,
    {
        assert(workspace.decisions@.take(i + 1).drop_last() =~= workspace.decisions@.take(i as int));
        let d = &workspace.decisions[i];
        let a = cat5(d.id.as_str(), " | ", or_dash(&d.status).as_str(), " | ", or_dash(&d.date).as_str());
        let b = cat5(" | ", d.title.as_str(), " | ", owner_label(&d.owner).as_str(), " | ");
        let c = cat(normalized(d.source_path.as_str()).as_str(), "\n");
        output.append(a.as_str());
        output.append(b.as_str());
        output.append(c.as_str());
        i = i + 1;
    }
    assert(workspace.decisions@.take(workspace.decisions@.len() as int) =~= workspace.decisions@);
    output
}

/// A character of a page name: ASCII letters and digits lower-cased, `-` and `_` kept,
/// anything else `-`.
pub open spec fn page_char(c: char) -> char {
    if ('a' <= c && c <= 'z') || ('0' <= c && c <= '9') || c == '-' || c == '_' {
        c
    } else if 'A' <= c && c <= 'Z' {
        crate::text::lower(c)
    } else {
        '-'
    }
}

/// The page characters of `s` with each run of `-` made one.
pub open spec fn collapsed(s: Seq<char>) -> Seq<char>
    decreases s.len(),
{
    if s.len() == 0 {
        Seq::empty()
    } else {
        let p = collapsed(s.drop_last());
        let c = page_char(s.last());
        if c == '-' && p.len() > 0 && p.last() == '-' { p } else { p.push(c) }
    }
}

/// How many `-` a text starts with.
pub open spec fn leading_dashes(s: Seq<char>) -> nat
    decreases s.len(),
{
    if s.len() > 0 && s[0] == '-' { 1 + leading_dashes(s.drop_first()) } else { 0 }
}

/// How many `-` a text ends with.
pub open spec fn trailing_dashes(s: Seq<char>) -> nat
    decreases s.len(),
{
    if s.len() > 0 && s.last() == '-' { 1 + trailing_dashes(s.drop_last()) } else { 0 }
}

proof fn lemma_dashes_bounded(s: Seq<char>)
    ensures
        leading_dashes(s) <= s.len(),
        trailing_dashes(s) <= s.len(),
    decreases s.len(),
{
    if s.len() > 0 {
        lemma_dashes_bounded(s.drop_first());
        lemma_dashes_bounded(s.drop_last());
    }
}

/// A page name for a title: its page characters, runs of `-` made one, `-` trimmed at both
/// ends; `item` for nothing.
pub open spec fn page_name(value: Seq<char>) -> Seq<char> {
    let c = collapsed(value);
    let t = c.skip(leading_dashes(c) as int);
    let u = t.take(t.len() - trailing_dashes(t));
    if u.len() == 0 { "item"@ } else { u }
}

/// A page name for a title: ASCII letters and digits lower-cased, `-` and `_` kept, other
/// characters made `-`, runs of `-` made one, `-` trimmed at both ends; `item` for nothing.
pub fn doc_safe_name(value: &str) -> (r: String)
    ensures
        r@ == page_name(value@),
{
    let v = chars_of(value);
    let mut out: Vec<char> = Vec::new();
    let mut i: usize = 0;
    while i < v.len()
        invariant
            i <= v@.len(),
            v@ == value@,
            out@ == collapsed(v@.take(i as int)),
        decreases v.len() - i,
    {
        assert(v@.take(i + 1).drop_last() =~= v@.take(i as int));
        assert(v@.take(i + 1).last() == v@[i as int]);
        let c = v[i];
        let mapped = if ('a' <= c && c <= 'z') || ('0' <= c && c <= '9') || c == '-' || c == '_' {
            c
        } else if 'A' <= c && c <= 'Z' {
            crate::text::to_lower(c)
        } else {
            '-'
        };
        if !(mapped == '-' && out.len() > 0 && out[out.len() - 1] == '-') {
            out.push(mapped);
        }
        i = i + 1;
    }
    assert(v@.take(v@.len() as int) =~= v@);
    let ghost c = out@;
    let mut start: usize = 0;
    assert(c.skip(0) =~= c);
    while start < out.len() && out[start] == '-'
        invariant
            start <= out@.len(),
            out@ == c,
            leading_dashes(c) == start + leading_dashes(c.skip(start as int)),
        decreases out.len() - start,
    {
        assert(c.skip(start as int).drop_first() =~= c.skip(start + 1));
        start = start + 1;
    }
    if start < out.len() {
        assert(c.skip(start as int)[0] == c[start as int]);
    }
    let ghost t = c.skip(start as int);
    proof { lemma_dashes_bounded(t); }
    let mut end = out.len();
    assert(t.take(t.len() as int) =~= t);
    while end > start && out[end - 1] == '-'
        invariant
            start <= end <= out@.len(),
            out@ == c,
            t == c.skip(start as int),
            trailing_dashes(t) == (out@.len() - end) + trailing_dashes(t.take(end - start)),
        decreases end,
    {
        assert(t.take(end - start).drop_last() =~= t.take(end - 1 - start));
        assert(t.take(end - start).last() == c[end - 1]);
        end = end - 1;
    }
    assert(t.take(t.len() - trailing_dashes(t)) =~= c.subrange(start as int, end as int));
    if start == end {
        return String::from_str("item");
    }
    let mut kept: Vec<char> = Vec::new();
    let mut k = start;
    while k < end
        invariant
            start <= k <= end,
            end <= out@.len(),
            kept@ == out@.subrange(start as int, k as int),
        decreases end - k,
    {
        kept.push(out[k]);
        k = k + 1;
        assert(kept@ =~= out@.subrange(start as int, k as int));
    }
    string_of(kept.as_slice())
}

/// An HTML page with a title, a stylesheet and a body.
pub fn page(title: &str, css: &str, body: &str) -> (r: String)
    ensures
        r@ == "<!doctype html><html lang=\"en\"><head><meta charset=\"utf-8\"><meta name=\"viewport\" content=\"width=device-width,initial-scale=1\"><title>"@
            + map_chars(title@, |c: char| html_char(c)) + "</title><link rel=\"stylesheet\" href=\""@ + css@ + "\"></head><body>"@
            + body@ + "</body></html>\n"@,
{
    let head = cat3("<!doctype html><html lang=\"en\"><head><meta charset=\"utf-8\"><meta name=\"viewport\" content=\"width=device-width,initial-scale=1\"><title>",
        html_escape(title).as_str(), "</title><link rel=\"stylesheet\" href=\"");
    let tail = cat3("\"></head><body>", body, "</body></html>\n");
    cat3(head.as_str(), css, tail.as_str())
}

/// A line without a carriage return at its end.
pub open spec fn without_cr(line: Seq<char>) -> Seq<char> {
    if line.len() > 0 && line.last() == '\r' { line.drop_last() } else { line }
}

/// The finished lines of `s` and the text after its last newline.
pub open spec fn split_lines(s: Seq<char>) -> (Seq<Seq<char>>, Seq<char>)
    decreases s.len(),
{
    if s.len() == 0 {
        (Seq::empty(), Seq::empty())
    } else {
        let (lines, current) = split_lines(s.drop_last());
        if s.last() == '\n' {
            (lines.push(without_cr(current)), Seq::empty())
        } else {
            (lines, current.push(s.last()))
        }
    }
}

/// The lines of `s` as `str::lines` gives them.
pub open spec fn lines_of(s: Seq<char>) -> Seq<Seq<char>> {
    let (lines, current) = split_lines(s);
    if current.len() > 0 { lines.push(without_cr(current)) } else { lines }
}

fn without_cr_exec(current: &mut Vec<char>)
    ensures
        final(current)@ == without_cr(old(current)@),
{
    if current.len() > 0 && current[current.len() - 1] == '\r' {
        current.pop();
    }
}

/// The lines of `content` as `str::lines` gives them: split at newlines, a carriage return
/// before a newline dropped, no empty line after a final newline.
pub(crate) fn text_lines(content: &str) -> (r: Vec<String>)
    ensures
        crate::archi_native::views(r@) == lines_of(content@),
{
    let v = chars_of(content);
    let mut lines: Vec<String> = Vec::new();
    let mut current: Vec<char> = Vec::new();
    let mut i: usize = 0;
    assert(crate::archi_native::views(lines@) =~= Seq::<Seq<char>>::empty());
    while i < v.len()
        invariant
            i <= v@.len(),
            v@ == content@,
            (crate::archi_native::views(lines@), current@) == split_lines(v@.take(i as int)),
        decreases v.len() - i,
    {
        assert(v@.take(i + 1).drop_last() =~= v@.take(i as int));
        assert(v@.take(i + 1).last() == v@[i as int]);
        if v[i] == '\n' {
            without_cr_exec(&mut current);
            let ghost before = crate::archi_native::views(lines@);
            let line = string_of(current.as_slice());
            lines.push(line);
            assert(crate::archi_native::views(lines@) =~= before.push(current@));
            current = Vec::new();
        } else {
            current.push(v[i]);
        }
        i = i + 1;
    }
    assert(v@.take(v@.len() as int) =~= v@);
    if current.len() > 0 {
        without_cr_exec(&mut current);
        let ghost before = crate::archi_native::views(lines@);
        let line = string_of(current.as_slice());
        lines.push(line);
        assert(crate::archi_native::views(lines@) =~= before.push(current@));
    }
    lines
}

/// The text after `prefix` when `s` starts with it.
fn strip_prefix(s: &str, prefix: &str) -> (r: Option<String>)
    ensures
        crate::text::has_prefix(s@, prefix@) ==> (r matches Some(t) && t@ == s@.skip(prefix@.len() as int)),
        !crate::text::has_prefix(s@, prefix@) ==> r is None,
{
    if starts_with(s, prefix) {
        let n = prefix.unicode_len();
        let v = chars_of(s);
        let mut out: Vec<char> = Vec::new();
        let mut i = n;
        while i < v.len()
            invariant
                v@ == s@,
                n <= i <= v@.len(),
                out@ == v@.subrange(n as int, i as int),
            decreases v.len() - i,
        {
            out.push(v[i]);
            i = i + 1;
            assert(out@ =~= v@.subrange(n as int, i as int));
        }
        assert(v@.subrange(n as int, v@.len() as int) =~= s@.skip(n as int));
        Some(string_of(out.as_slice()))
    } else {
        None
    }
}

/// A text with its HTML characters escaped.
pub open spec fn escaped_html(s: Seq<char>) -> Seq<char> {
    map_chars(s, |c: char| html_char(c))
}

/// The HTML of one Markdown line, and whether a code block is open after it.
pub open spec fn markdown_line(line: Seq<char>, code: bool) -> (Seq<char>, bool) {
    let t = crate::text::trim_ws(line);
    if crate::text::has_prefix(t, "```"@) {
        if code {
            ("</code></pre>"@, false)
        } else {
            ("<pre data-language=\""@ + escaped_html(t.skip(3)) + "\"><code>"@, true)
        }
    } else if code {
        (escaped_html(line) + "\n"@, true)
    } else if crate::text::has_prefix(t, "### "@) {
        ("<h3>"@ + escaped_html(t.skip(4)) + "</h3>"@, false)
    } else if crate::text::has_prefix(t, "## "@) {
        ("<h2>"@ + escaped_html(t.skip(3)) + "</h2>"@, false)
    } else if crate::text::has_prefix(t, "# "@) {
        ("<h1>"@ + escaped_html(t.skip(2)) + "</h1>"@, false)
    } else if t.len() > 0 {
        ("<p>"@ + escaped_html(t) + "</p>"@, false)
    } else {
        (Seq::empty(), false)
    }
}

/// The HTML of Markdown lines, and whether a code block is open after them.
pub open spec fn markdown_lines(lines: Seq<Seq<char>>) -> (Seq<char>, bool)
    decreases lines.len(),
{
    if lines.len() == 0 {
        (Seq::empty(), false)
    } else {
        let (out, code) = markdown_lines(lines.drop_last());
        let (x, code2) = markdown_line(lines.last(), code);
        (out + x, code2)
    }
}

/// Markdown as HTML, an open code block closed at the end.
pub open spec fn markdown_html(content: Seq<char>) -> Seq<char> {
    let (out, code) = markdown_lines(lines_of(content));
    if code { out + "</code></pre>"@ } else { out }
}

fn markdown_line_exec(line: &str, code: bool) -> (r: (String, bool))
    ensures
        (r.0@, r.1) == markdown_line(line@, code),
{
    let trimmed = trim(line);
    proof { reveal_strlit("```"); reveal_strlit("### "); reveal_strlit("## "); reveal_strlit("# "); }
    if let Some(language) = strip_prefix(trimmed.as_str(), "```") {
        if code {
            (String::from_str("</code></pre>"), false)
        } else {
            (cat3("<pre data-language=\"", html_escape(language.as_str()).as_str(), "\"><code>"), true)
        }
    } else if code {
        (cat(html_escape(line).as_str(), "\n"), true)
    } else if let Some(title) = strip_prefix(trimmed.as_str(), "### ") {
        (cat3("<h3>", html_escape(title.as_str()).as_str(), "</h3>"), false)
    } else if let Some(title) = strip_prefix(trimmed.as_str(), "## ") {
        (cat3("<h2>", html_escape(title.as_str()).as_str(), "</h2>"), false)
    } else if let Some(title) = strip_prefix(trimmed.as_str(), "# ") {
        (cat3("<h1>", html_escape(title.as_str()).as_str(), "</h1>"), false)
    } else if trimmed.as_str().unicode_len() > 0 {
        (cat3("<p>", html_escape(trimmed.as_str()).as_str(), "</p>"), false)
    } else {
        (String::new(), false)
    }
}

/// Markdown as safe HTML: fenced code blocks, `#` to `###` headings and paragraphs, with
/// every text escaped.
pub fn render_markdown(content: &str) -> (r: String)
    ensures
        r@ == markdown_html(content@),
{
    let lines = text_lines(content);
    let ghost ls = crate::archi_native::views(lines@);
    let mut output = String::new();
    let mut code = false;
    let mut i: usize = 0;
    assert(ls.take(0) =~= Seq::<Seq<char>>::empty());
    while i < lines.len()
        invariant
            i <= lines@.len(),
            ls == crate::archi_native::views(lines@),
            ls == lines_of(content@),
            (output@, code) == markdown_lines(ls.take(i as int)),
        decreases lines.len() - i,
    {
        assert(ls.take(i + 1).drop_last() =~= ls.take(i as int));
        assert(ls.take(i + 1).last() == lines@[i as int]@);
        let (piece, next) = markdown_line_exec(lines[i].as_str(), code);
        output.append(piece.as_str());
        code = next;
        i = i + 1;
    }
    assert(ls.take(ls.len() as int) =~= ls);
    if code {
        output.append("</code></pre>");
    }
    output
}

/// A documentation section as HTML: Markdown rendered, AsciiDoc shown as escaped text.
pub(crate) fn render_document(content: &str, format: &DocumentationFormat) -> (r: String) {
    match format {
        DocumentationFormat::Markdown => render_markdown(content),
        DocumentationFormat::AsciiDoc => cat3("<pre><code>", html_escape(content).as_str(), "</code></pre>"),
    }
}

/// `n` in decimal with at least four digits.
pub fn padded4(n: u128) -> (r: String)
    ensures
        r@ == (if n < 10 { "000"@ } else if n < 100 { "00"@ } else if n < 1000 { "0"@ } else { Seq::empty() })
            + decimal(n as nat),
{
    let digits = crate::projection::u128_to_string(n);
    if n < 10 {
        cat("000", digits.as_str())
    } else if n < 100 {
        cat("00", digits.as_str())
    } else if n < 1000 {
        cat("0", digits.as_str())
    } else {
        proof {
            reveal_strlit("");
        }
        cat("", digits.as_str())
    }
}

/// A file of the generated site: its path below the site root and its content.
#[derive(Debug)]
pub struct SiteFile {
    pub path: String,
    pub content: String,
}

/// A position counted from one, in decimal with at least four digits.
pub open spec fn ordinal_text(order: nat) -> Seq<char> {
    let n = order + 1;
    (if n < 10 { "000"@ } else if n < 100 { "00"@ } else if n < 1000 { "0"@ } else { Seq::empty() }) + decimal(n)
}

fn ordinal(order: usize) -> (r: String)
    ensures
        r@ == ordinal_text(order as nat),
{
    padded4(order as u128 + 1)
}

/// Where a documentation section's page goes: below the workspace or its element's page name,
/// by its position and title.
pub open spec fn section_page_path(section: crate::model::DocumentationSection) -> Seq<char> {
    "docs/"@ + (match section.owner {
        DocumentationOwner::Workspace => "workspace"@,
        DocumentationOwner::Element(id) => "elements/"@ + page_name(id@),
    }) + "/"@ + (ordinal_text(section.order as nat) + "-"@ + page_name(section.title@) + ".html"@)
}

/// Where a decision's page goes, by its position and identifier.
pub open spec fn decision_page_path(decision: crate::model::DecisionRecord) -> Seq<char> {
    "decisions/"@ + (ordinal_text(decision.order as nat) + "-"@ + page_name(decision.id@) + ".html"@)
}

/// The documentation pages and their index.
fn documentation_pages(workspace: &Workspace, files: &mut Vec<SiteFile>) -> (r: String)
    ensures
        final(files)@.len() == old(files)@.len() + workspace.documentation@.len(),
        final(files)@.take(old(files)@.len() as int) == old(files)@,
        forall|i: int| 0 <= i < workspace.documentation@.len() ==>
            (#[trigger] final(files)@[old(files)@.len() + i]).path@ == section_page_path(workspace.documentation@[i]),
        crate::text::has_prefix(r@, "<nav><a href=\"../index.html\">Workspace</a></nav><h1>Documentation</h1><ul>"@),
        crate::text::has_suffix(r@, "</ul>"@),
{
    let mut index = String::new();
    let ghost n0 = files@.len();
    let mut i: usize = 0;
    while i < workspace.documentation.len()
        invariant
            i <= workspace.documentation@.len(),
            n0 == old(files)@.len(),
            files@.len() == n0 + i,
            files@.take(n0 as int) == old(files)@,
            forall|j: int| 0 <= j < i ==> (#[trigger] files@[n0 + j]).path@ == section_page_path(workspace.documentation@[j]),
        decreases workspace.documentation.len() - i,
    {
        let section = &workspace.documentation[i];
        let (relative, css, up) = match &section.owner {
            DocumentationOwner::Workspace => (String::from_str("workspace"), "../../assets/style.css", ""),
            DocumentationOwner::Element(identifier) => (cat("elements/", doc_safe_name(identifier.as_str()).as_str()), "../../../assets/style.css", "../"),
        };
        let file = cat3(ordinal(section.order).as_str(), "-", doc_safe_name(section.title.as_str()).as_str());
        let file = cat(file.as_str(), ".html");
        let owner = owner_label(&section.owner);
        let content = render_document(section.content.as_str(), &section.format);
        let mut body = cat3("<nav><a href=\"../", up, "index.html\">Documentation</a></nav><h1>");
        body.append(html_escape(section.title.as_str()).as_str());
        body.append("</h1><p>Owner: ");
        body.append(html_escape(owner.as_str()).as_str());
        body.append("; source: <code>");
        body.append(html_escape(normalized(section.source_path.as_str()).as_str()).as_str());
        body.append("</code></p>");
        body.append(content.as_str());
        proof { reveal_strlit(""); }
        let path = cat5("docs/", relative.as_str(), "/", file.as_str(), "");
        assert(path@ =~= section_page_path(*section));
        let ghost before = files@;
        files.push(SiteFile { path, content: page(section.title.as_str(), css, body.as_str()) });
        assert(files@.take(n0 as int) =~= before.take(n0 as int));
        assert forall|j: int| 0 <= j < i + 1 implies (#[trigger] files@[n0 + j]).path@ == section_page_path(workspace.documentation@[j]) by {
            if j < i {
                assert(files@[n0 + j] == before[n0 + j]);
            }
        }
        index.append("<li><a href=\"");
        index.append(relative.as_str());
        index.append("/");
        index.append(file.as_str());
        index.append("\">");
        index.append(html_escape(section.title.as_str()).as_str());
        index.append("</a> — ");
        index.append(html_escape(owner.as_str()).as_str());
        index.append("</li>");
        i = i + 1;
    }
    let r = cat3("<nav><a href=\"../index.html\">Workspace</a></nav><h1>Documentation</h1><ul>", index.as_str(), "</ul>");
    assert(r@.take("<nav><a href=\"../index.html\">Workspace</a></nav><h1>Documentation</h1><ul>"@.len() as int)
        =~= "<nav><a href=\"../index.html\">Workspace</a></nav><h1>Documentation</h1><ul>"@);
    assert(r@.skip(r@.len() - "</ul>"@.len()) =~= "</ul>"@);
    r
}

fn decision_format_name(format: &crate::model::DecisionFormat) -> (r: &'static str) {
    match format {
        crate::model::DecisionFormat::AdrTools => "AdrTools",
        crate::model::DecisionFormat::Madr => "Madr",
        crate::model::DecisionFormat::Log4brains => "Log4brains",
        crate::model::DecisionFormat::MarkdownGeneric => "MarkdownGeneric",
    }
}

/// The decision pages and their index.
fn decision_pages(workspace: &Workspace, files: &mut Vec<SiteFile>) -> (r: String)
    ensures
        final(files)@.len() == old(files)@.len() + workspace.decisions@.len(),
        final(files)@.take(old(files)@.len() as int) == old(files)@,
        forall|i: int| 0 <= i < workspace.decisions@.len() ==>
            (#[trigger] final(files)@[old(files)@.len() + i]).path@ == decision_page_path(workspace.decisions@[i]),
        crate::text::has_prefix(r@, "<nav><a href=\"../index.html\">Workspace</a></nav><h1>Architecture decisions</h1><ul>"@),
        crate::text::has_suffix(r@, "</ul>"@),
{
    let mut index = String::new();
    let ghost n0 = files@.len();
    let mut i: usize = 0;
    while i < workspace.decisions.len()
        invariant
            i <= workspace.decisions@.len(),
            n0 == old(files)@.len(),
            files@.len() == n0 + i,
            files@.take(n0 as int) == old(files)@,
            forall|j: int| 0 <= j < i ==> (#[trigger] files@[n0 + j]).path@ == decision_page_path(workspace.decisions@[j]),
        decreases workspace.decisions.len() - i,
    {
        let decision = &workspace.decisions[i];
        let file = cat3(ordinal(decision.order).as_str(), "-", doc_safe_name(decision.id.as_str()).as_str());
        let file = cat(file.as_str(), ".html");
        let owner = owner_label(&decision.owner);
        let status = or_dash(&decision.status);
        let date = or_dash(&decision.date);
        let mut body = String::from_str("<nav><a href=\"index.html\">Architecture decisions</a></nav><h1>");
        body.append(html_escape(decision.id.as_str()).as_str());
        body.append(": ");
        body.append(html_escape(decision.title.as_str()).as_str());
        body.append("</h1><p>Status: ");
        body.append(html_escape(status.as_str()).as_str());
        body.append("; date: ");
        body.append(html_escape(date.as_str()).as_str());
        body.append("; owner: ");
        body.append(html_escape(owner.as_str()).as_str());
        body.append("; format: ");
        body.append(decision_format_name(&decision.format));
        body.append("; source: <code>");
        body.append(html_escape(normalized(decision.source_path.as_str()).as_str()).as_str());
        body.append("</code></p>");
        body.append(render_markdown(decision.content.as_str()).as_str());
        let path = cat("decisions/", file.as_str());
        assert(path@ =~= decision_page_path(*decision));
        let ghost before = files@;
        files.push(SiteFile { path, content: page(decision.title.as_str(), "../assets/style.css", body.as_str()) });
        assert(files@.take(n0 as int) =~= before.take(n0 as int));
        assert forall|j: int| 0 <= j < i + 1 implies (#[trigger] files@[n0 + j]).path@ == decision_page_path(workspace.decisions@[j]) by {
            if j < i {
                assert(files@[n0 + j] == before[n0 + j]);
            }
        }
        index.append("<li><a href=\"");
        index.append(file.as_str());
        index.append("\">");
        index.append(html_escape(decision.id.as_str()).as_str());
        index.append(": ");
        index.append(html_escape(decision.title.as_str()).as_str());
        index.append("</a> — ");
        index.append(html_escape(status.as_str()).as_str());
        index.append(" — ");
        index.append(html_escape(owner.as_str()).as_str());
        index.append("</li>");
        i = i + 1;
    }
    let r = cat3("<nav><a href=\"../index.html\">Workspace</a></nav><h1>Architecture decisions</h1><ul>", index.as_str(), "</ul>");
    assert(r@.take("<nav><a href=\"../index.html\">Workspace</a></nav><h1>Architecture decisions</h1><ul>"@.len() as int)
        =~= "<nav><a href=\"../index.html\">Workspace</a></nav><h1>Architecture decisions</h1><ul>"@);
    assert(r@.skip(r@.len() - "</ul>"@.len()) =~= "</ul>"@);
    r
}

/// The files of the documentation site: stylesheet, one Mermaid source per view, the
/// documentation and decision pages with their indexes, and the workspace page that
/// shows the model summary and the diagrams.
pub fn export_site(workspace: &Workspace) -> (r: Vec<SiteFile>)
    ensures
        r@.len() == 1 + workspace.views@.len() + workspace.documentation@.len() + workspace.decisions@.len() + 3,
        r@[0].path@ == "assets/style.css"@,
        forall|v: int| 0 <= v < workspace.views@.len() ==> (#[trigger] r@[1 + v]).path@
            == "diagrams/"@ + (page_name(crate::archi_export::view_key_text(workspace.views@[v])) + ".mmd"@),
        forall|i: int| 0 <= i < workspace.documentation@.len() ==> (#[trigger] r@[1 + workspace.views@.len() + i]).path@
            == section_page_path(workspace.documentation@[i]),
        forall|i: int| 0 <= i < workspace.decisions@.len() ==> (#[trigger] r@[1 + workspace.views@.len() + workspace.documentation@.len() + i]).path@
            == decision_page_path(workspace.decisions@[i]),
        r@[r@.len() - 3].path@ == "index.html"@,
        r@[r@.len() - 2].path@ == "docs/index.html"@,
        r@[r@.len() - 1].path@ == "decisions/index.html"@,
{
    let mut files: Vec<SiteFile> = Vec::new();
    files.push(SiteFile {
        path: String::from_str("assets/style.css"),
        content: String::from_str("body{font:16px system-ui,sans-serif;max-width:960px;margin:auto;padding:2rem;color:#222}nav a{margin-right:1rem}pre{overflow:auto;padding:1rem;background:#f4f4f4}code{white-space:pre-wrap}table{border-collapse:collapse}td,th{border:1px solid #ccc;padding:.4rem}a{color:#075ea8}\n"),
    });
    let mut diagram_html = String::new();
    let mut v: usize = 0;
    while v < workspace.views.len()
        invariant
            v <= workspace.views@.len(),
            files@.len() == 1 + v,
            files@[0].path@ == "assets/style.css"@,
            forall|j: int| 0 <= j < v ==> (#[trigger] files@[1 + j]).path@
                == "diagrams/"@ + (page_name(crate::archi_export::view_key_text(workspace.views@[j])) + ".mmd"@),
        decreases workspace.views.len() - v,
    {
        let view = &workspace.views[v];
        let ghost before = files@;
        let key = crate::exporters::view_key(view);
        let file = cat(doc_safe_name(key.as_str()).as_str(), ".mmd");
        let source = crate::mermaid::mermaid(workspace, view);
        diagram_html.append("<section><h2>");
        diagram_html.append(html_escape(key.as_str()).as_str());
        diagram_html.append("</h2><p><a href=\"diagrams/");
        diagram_html.append(file.as_str());
        diagram_html.append("\">Raw Mermaid source</a></p><pre><code>");
        diagram_html.append(html_escape(source.as_str()).as_str());
        diagram_html.append("</code></pre></section>");
        files.push(SiteFile { path: cat("diagrams/", file.as_str()), content: source });
        assert forall|j: int| 0 <= j < v + 1 implies (#[trigger] files@[1 + j]).path@
            == "diagrams/"@ + (page_name(crate::archi_export::view_key_text(workspace.views@[j])) + ".mmd"@) by {
            if j < v {
                assert(files@[1 + j] == before[1 + j]);
            }
        }
        v = v + 1;
    }
    let ghost n1 = files@.len();
    let docs_index = documentation_pages(workspace, &mut files);
    let ghost n2 = files@.len();
    let ghost after_docs = files@;
    let decisions_index = decision_pages(workspace, &mut files);
    let ghost after_decisions = files@;
    assert forall|j: int| 0 <= j < n1 implies #[trigger] after_decisions[j] == after_docs[j] by {
        assert(after_decisions.take(n2 as int)[j] == after_docs[j]);
    }
    let mut elements = String::new();
    let mut e: usize = 0;
    while e < workspace.elements.len()
        invariant
            e <= workspace.elements@.len(),
        decreases workspace.elements.len() - e,
    {
        elements.append("<li><code>");
        elements.append(html_escape(workspace.elements[e].id.as_str()).as_str());
        elements.append("</code> — ");
        elements.append(html_escape(workspace.elements[e].name.as_str()).as_str());
        elements.append("</li>");
        e = e + 1;
    }
    let name = match &workspace.name {
        Some(n) => html_escape(n.as_str()),
        None => String::from_str("Workspace"),
    };
    let description = match &workspace.description {
        Some(d) => html_escape(d.as_str()),
        None => String::new(),
    };
    let mut body = cat3("<nav><a href=\"docs/index.html\">Documentation</a><a href=\"decisions/index.html\">ADRs</a></nav><h1>", name.as_str(), "</h1><p>");
    body.append(description.as_str());
    body.append("</p><h2>Model summary</h2><p>");
    body.append(crate::text::usize_to_string(workspace.elements.len()).as_str());
    body.append(" elements, ");
    body.append(crate::text::usize_to_string(workspace.relationships.len()).as_str());
    body.append(" relationships, ");
    body.append(crate::text::usize_to_string(workspace.views.len()).as_str());
    body.append(" views.</p><ul>");
    body.append(elements.as_str());
    body.append("</ul><h2>Diagrams</h2>");
    body.append(diagram_html.as_str());
    body.append("<p>");
    body.append(crate::text::usize_to_string(workspace.documentation.len()).as_str());
    body.append(" documentation sections; ");
    body.append(crate::text::usize_to_string(workspace.decisions.len()).as_str());
    body.append(" decisions.</p>");
    files.push(SiteFile { path: String::from_str("index.html"), content: page("Workspace", "assets/style.css", body.as_str()) });
    files.push(SiteFile { path: String::from_str("docs/index.html"), content: page("Documentation", "../assets/style.css", docs_index.as_str()) });
    files.push(SiteFile { path: String::from_str("decisions/index.html"), content: page("Architecture decisions", "../assets/style.css", decisions_index.as_str()) });
    proof {
        assert forall|j: int| 0 <= j < after_decisions.len() implies #[trigger] files@[j] == after_decisions[j] by {}
        assert forall|i: int| 0 <= i < workspace.documentation@.len() implies (#[trigger] files@[1 + workspace.views@.len() + i]).path@
            == section_page_path(workspace.documentation@[i]) by {
            assert(files@[n1 + i] == after_decisions[n1 + i]);
            assert(after_decisions.take(n2 as int)[n1 + i] == after_docs[n1 + i]);
        }
        assert forall|v: int| 0 <= v < workspace.views@.len() implies (#[trigger] files@[1 + v]).path@
            == "diagrams/"@ + (page_name(crate::archi_export::view_key_text(workspace.views@[v])) + ".mmd"@) by {
            assert(files@[1 + v] == after_decisions[1 + v]);
            assert(after_docs.take(n1 as int)[1 + v] == after_docs[1 + v]);
        }
        assert(files@[0] == after_decisions[0]);
        assert(after_docs.take(n1 as int)[0] == after_docs[0]);
    }
    files
}

/// What reading a file gave.
#[derive(Debug)]
pub enum FileContent {
    Text(String),
    Unreadable(String),
    NotUtf8,
}

/// A regular file of an imported directory, as displayed, with what reading it gave.
#[derive(Debug)]
pub struct DocFile {
    pub path: String,
    pub content: FileContent,
}

/// What the file system holds at a documentation or ADR path.
#[derive(Debug)]
pub enum DocTarget {
    /// The directory of the DSL file could not be resolved.
    BaseUnresolved { base: String, error: String },
    /// The path could not be resolved.
    Unreadable { error: String },
    /// The path resolves outside the directory of the DSL file.
    Escapes,
    /// A regular file, as displayed, with what reading it gave.
    File { path: String, content: FileContent },
    /// A directory with its regular files, in any order.
    Directory { path: String, files: Vec<DocFile> },
    /// A directory that could not be listed.
    DirectoryUnreadable { path: String, error: String },
    /// An entry of the directory could not be read.
    EntryUnreadable { error: String },
    /// Neither a file nor a directory.
    Other { path: String },
}

/// What was found for the path `value` relative to the directory `base`.
#[derive(Debug)]
pub struct LoadedDocs {
    pub base: String,
    pub value: String,
    pub target: DocTarget,
}

/// What an import adds to a workspace.
#[derive(Debug)]
pub struct DocImport {
    pub documentation: Vec<crate::model::DocumentationSection>,
    pub decisions: Vec<crate::model::DecisionRecord>,
    pub warnings: Vec<crate::diagnostic::Diagnostic>,
}

/// Why an import stopped: the rendered errors, and the path not read yet when that is why.
#[derive(Debug)]
pub struct DocFailure {
    pub message: String,
    pub needs: Option<(String, String)>,
}

/// The characters of `s` from `a` up to `b`.
fn slice_text(v: &Vec<char>, a: usize, b: usize) -> (r: String)
    requires
        a <= b <= v@.len(),
    ensures
        r@ == v@.subrange(a as int, b as int),
{
    let mut out: Vec<char> = Vec::new();
    let mut i = a;
    while i < b
        invariant
            a <= i <= b,
            b <= v@.len(),
            out@ == v@.subrange(a as int, i as int),
        decreases b - i,
    {
        out.push(v[i]);
        i = i + 1;
        assert(out@ =~= v@.subrange(a as int, i as int));
    }
    string_of(out.as_slice())
}

/// Where the last component of a path starts: just past its last `/`, or at its start.
pub open spec fn name_start(s: Seq<char>) -> nat
    decreases s.len(),
{
    if s.len() == 0 {
        0
    } else if s.last() == '/' {
        s.len()
    } else {
        name_start(s.drop_last())
    }
}

/// The last component of a path.
pub open spec fn file_name_of(s: Seq<char>) -> Seq<char> {
    s.skip(name_start(s) as int)
}

/// Where a file name's last `.` ends, when that `.` is not its first character; else a
/// number not above one.
pub open spec fn dot_end(s: Seq<char>) -> nat
    decreases s.len(),
{
    if s.len() <= 1 {
        s.len()
    } else if s.last() == '.' {
        s.len()
    } else {
        dot_end(s.drop_last())
    }
}

/// A file name without its extension.
pub open spec fn stem_of(path: Seq<char>) -> Seq<char> {
    let name = file_name_of(path);
    if dot_end(name) > 1 { name.take(dot_end(name) - 1) } else { name }
}

/// The extension of a path, ASCII lower-cased, or nothing.
pub open spec fn extension_of(path: Seq<char>) -> Seq<char> {
    let name = file_name_of(path);
    if dot_end(name) > 1 {
        Seq::new((name.len() - dot_end(name)) as nat, |i: int| crate::text::lower(name[dot_end(name) + i]))
    } else {
        Seq::empty()
    }
}

fn last_slash(v: &Vec<char>) -> (i: usize)
    ensures
        i as nat == name_start(v@),
        i <= v@.len(),
{
    let mut i = v.len();
    assert(v@.take(i as int) =~= v@);
    while i > 0 && v[i - 1] != '/'
        invariant
            i <= v@.len(),
            name_start(v@) == name_start(v@.take(i as int)),
        decreases i,
    {
        assert(v@.take(i as int).drop_last() =~= v@.take(i - 1));
        i = i - 1;
    }
    if i > 0 {
        assert(v@.take(i as int).last() == v@[i - 1]);
    }
    i
}

fn last_dot(v: &Vec<char>) -> (i: usize)
    ensures
        i as nat == dot_end(v@),
        i <= v@.len(),
{
    let mut i = v.len();
    assert(v@.take(i as int) =~= v@);
    while i > 1 && v[i - 1] != '.'
        invariant
            i <= v@.len(),
            dot_end(v@) == dot_end(v@.take(i as int)),
        decreases i,
    {
        assert(v@.take(i as int).drop_last() =~= v@.take(i - 1));
        i = i - 1;
    }
    if i > 1 {
        assert(v@.take(i as int).last() == v@[i - 1]);
    }
    i
}

/// The last component of a path.
pub(crate) fn file_name(path: &str) -> (r: String)
    ensures
        r@ == file_name_of(path@),
{
    let v = chars_of(path);
    let i = last_slash(&v);
    let r = slice_text(&v, i, v.len());
    assert(r@ =~= file_name_of(path@));
    r
}

/// A file name without its extension: up to its last `.`, unless that is its first character.
pub(crate) fn file_stem(path: &str) -> (r: String)
    ensures
        r@ == stem_of(path@),
{
    let name = file_name(path);
    let v = chars_of(name.as_str());
    let i = last_dot(&v);
    if i > 1 {
        let r = slice_text(&v, 0, i - 1);
        assert(r@ =~= stem_of(path@));
        r
    } else {
        name
    }
}

/// The extension of a path, lower-cased: after the last `.` of its file name, unless that is
/// the name's first character.
pub(crate) fn extension(path: &str) -> (r: String)
    ensures
        r@ == extension_of(path@),
{
    let name = file_name(path);
    let v = chars_of(name.as_str());
    let i = last_dot(&v);
    if i > 1 {
        let r = crate::text::ascii_lowercase(slice_text(&v, i, v.len()).as_str());
        assert(r@ =~= extension_of(path@));
        r
    } else {
        String::new()
    }
}

/// The directory of a path: up to its last `/`, `/` for a file at the root, nothing for a
/// bare name, `.` for the root itself.
pub open spec fn parent_of(s: Seq<char>) -> Seq<char> {
    if s =~= seq!['/'] {
        "."@
    } else if name_start(s) == 0 {
        Seq::empty()
    } else if name_start(s) == 1 {
        "/"@
    } else {
        s.take(name_start(s) - 1)
    }
}

/// The directory of a path.
pub(crate) fn parent_dir(path: &str) -> (r: String)
    ensures
        r@ == parent_of(path@),
{
    let v = chars_of(path);
    if v.len() == 1 && v[0] == '/' {
        assert(path@ =~= seq!['/']);
        return String::from_str(".");
    }
    assert(!(path@ =~= seq!['/']));
    let i = last_slash(&v);
    if i == 0 {
        String::new()
    } else if i == 1 {
        String::from_str("/")
    } else {
        slice_text(&v, 0, i - 1)
    }
}

/// Whether a `..` component starts at `a`.
pub open spec fn dotdot_at(s: Seq<char>, a: int) -> bool {
    &&& 0 <= a
    &&& a + 2 <= s.len()
    &&& s[a] == '.'
    &&& s[a + 1] == '.'
    &&& (a == 0 || s[a - 1] == '/')
    &&& (a + 2 == s.len() || s[a + 2] == '/')
}

/// Whether a relative path has a `..` component.
pub(crate) fn has_parent_component(value: &str) -> (r: bool)
    ensures
        r == exists|a: int| dotdot_at(value@, a),
{
    let v = chars_of(value);
    let mut start: usize = 0;
    let mut i: usize = 0;
    while i < v.len()
        invariant
            start <= i <= v@.len(),
            v@ == value@,
            start == 0 || v@[start - 1] == '/',
            forall|j: int| start <= j < i ==> v@[j] != '/',
            forall|a: int| a < start ==> !dotdot_at(v@, a),
        decreases v.len() - i,
    {
        if v[i] == '/' {
            if i - start == 2 && v[start] == '.' && v[start + 1] == '.' {
                assert(dotdot_at(v@, start as int));
                return true;
            }
            assert forall|a: int| a < i + 1 implies !dotdot_at(v@, a) by {
                if start < a && a <= i {
                    assert(v@[a - 1] != '/' || a - 1 >= i);
                } else if a == start as int {
                    if i - start > 2 {
                        assert(v@[a + 2] != '/');
                    }
                }
            }
            start = i + 1;
        }
        i = i + 1;
    }
    let r = v.len() - start == 2 && v[start] == '.' && v[start + 1] == '.';
    if r {
        assert(dotdot_at(v@, start as int));
    } else {
        assert forall|a: int| true implies !dotdot_at(v@, a) by {
            if start < a && a < v@.len() {
                assert(v@[a - 1] != '/');
            } else if a == start as int {
                if v@.len() - start > 2 {
                    assert(v@[a + 2] != '/');
                }
            }
        }
    }
    r
}

/// The format of a documentation file by its extension.
pub open spec fn format_of(path: Seq<char>) -> Option<DocumentationFormat> {
    let e = extension_of(path);
    if e == "md"@ || e == "markdown"@ {
        Some(DocumentationFormat::Markdown)
    } else if e == "adoc"@ || e == "asciidoc"@ {
        Some(DocumentationFormat::AsciiDoc)
    } else {
        None
    }
}

/// The format of a documentation file by its extension.
pub(crate) fn documentation_format(path: &str) -> (r: Option<DocumentationFormat>)
    ensures
        r == format_of(path@),
{
    let e = extension(path);
    if crate::text::seq_eq(e.as_str(), "md") || crate::text::seq_eq(e.as_str(), "markdown") {
        Some(DocumentationFormat::Markdown)
    } else if crate::text::seq_eq(e.as_str(), "adoc") || crate::text::seq_eq(e.as_str(), "asciidoc") {
        Some(DocumentationFormat::AsciiDoc)
    } else {
        None
    }
}

/// Whether a file is Markdown by its extension.
pub(crate) fn is_markdown(path: &str) -> (r: bool)
    ensures
        r == (extension_of(path@) == "md"@ || extension_of(path@) == "markdown"@),
{
    let e = extension(path);
    crate::text::seq_eq(e.as_str(), "md") || crate::text::seq_eq(e.as_str(), "markdown")
}

/// The rest of the first trimmed line that starts with `prefix`, trimmed, if it is not empty.
pub open spec fn heading_in(lines: Seq<Seq<char>>, prefix: Seq<char>) -> Option<Seq<char>>
    decreases lines.len(),
{
    if lines.len() == 0 {
        None
    } else {
        let t = crate::text::trim_ws(lines[0]);
        if crate::text::has_prefix(t, prefix) {
            let title = crate::text::trim_ws(t.skip(prefix.len() as int));
            if title.len() > 0 { Some(title) } else { None }
        } else {
            heading_in(lines.drop_first(), prefix)
        }
    }
}

/// The first line that starts with `prefix` once trimmed, its rest trimmed, if not empty.
pub(crate) fn first_heading(content: &str, prefix: &str) -> (r: Option<String>)
    ensures
        crate::archi_layout::text_of(r) == heading_in(lines_of(content@), prefix@),
{
    let lines = text_lines(content);
    let ghost ls = crate::archi_native::views(lines@);
    let mut i: usize = 0;
    assert(ls.skip(0) =~= ls);
    while i < lines.len()
        invariant
            i <= lines@.len(),
            ls == crate::archi_native::views(lines@),
            ls == lines_of(content@),
            heading_in(ls, prefix@) == heading_in(ls.skip(i as int), prefix@),
        decreases lines.len() - i,
    {
        assert(ls.skip(i as int)[0] == lines@[i as int]@);
        assert(ls.skip(i as int).drop_first() =~= ls.skip(i + 1));
        let trimmed = trim(lines[i].as_str());
        if let Some(rest) = strip_prefix(trimmed.as_str(), prefix) {
            let title = trim(rest.as_str());
            if title.as_str().unicode_len() > 0 {
                return Some(title);
            }
            return None;
        }
        i = i + 1;
    }
    None
}

/// A character with `-` and `_` made spaces.
pub open spec fn spaced(c: char) -> char {
    if c == '-' || c == '_' { ' ' } else { c }
}

/// A title from a file name: its stem with `-` and `_` made spaces, the first character
/// upper-cased; `Document` for an empty stem.
pub open spec fn fallback_title_of(path: Seq<char>) -> Seq<char> {
    let stem = stem_of(path);
    if stem.len() == 0 {
        "Document"@
    } else {
        crate::chars::unicode_uppercase(seq![spaced(stem[0])]) + Seq::new((stem.len() - 1) as nat, |j: int| spaced(stem[j + 1]))
    }
}

/// A title from a file name: its stem with `-` and `_` made spaces, the first character
/// upper-cased; `Document` for an empty stem.
pub fn fallback_title(path: &str) -> (r: String)
    ensures
        r@ == fallback_title_of(path@),
{
    let stem = file_stem(path);
    let v = chars_of(stem.as_str());
    if v.len() == 0 {
        return String::from_str("Document");
    }
    let mut rest: Vec<char> = Vec::new();
    let mut i: usize = 1;
    while i < v.len()
        invariant
            1 <= i <= v@.len(),
            v@ == stem_of(path@),
            rest@ == Seq::new((i - 1) as nat, |j: int| spaced(v@[j + 1])),
        decreases v.len() - i,
    {
        rest.push(if v[i] == '-' || v[i] == '_' { ' ' } else { v[i] });
        i = i + 1;
        assert(rest@ =~= Seq::new((i - 1) as nat, |j: int| spaced(v@[j + 1])));
    }
    let first = if v[0] == '-' || v[0] == '_' { ' ' } else { v[0] };
    let mut head = String::new();
    head.push(first);
    assert(head@ =~= seq![spaced(v@[0])]);
    let upper = crate::chars::to_uppercase(head.as_str());
    cat(upper.as_str(), string_of(rest.as_slice()).as_str())
}

/// Whether a character marks emphasis or code in Markdown.
pub open spec fn marker(c: char) -> bool {
    c == '*' || c == '_' || c == '`'
}

/// How many markers `s` starts with.
pub open spec fn leading_markers(s: Seq<char>) -> nat
    decreases s.len(),
{
    if s.len() > 0 && marker(s[0]) { 1 + leading_markers(s.drop_first()) } else { 0 }
}

/// How many markers `s` ends with.
pub open spec fn trailing_markers(s: Seq<char>) -> nat
    decreases s.len(),
{
    if s.len() > 0 && marker(s.last()) { 1 + trailing_markers(s.drop_last()) } else { 0 }
}

/// A metadata value without surrounding markers, trimmed.
pub open spec fn cleaned(s: Seq<char>) -> Seq<char> {
    let t = s.skip(leading_markers(s) as int);
    crate::text::trim_ws(t.take(t.len() - trailing_markers(t)))
}

proof fn lemma_markers_bounded(s: Seq<char>)
    ensures
        leading_markers(s) <= s.len(),
        trailing_markers(s) <= s.len(),
    decreases s.len(),
{
    if s.len() > 0 {
        lemma_markers_bounded(s.drop_first());
        lemma_markers_bounded(s.drop_last());
    }
}

/// A metadata value without surrounding `*`, `_` and backticks, trimmed.
pub(crate) fn clean_metadata(value: &str) -> (r: String)
    ensures
        r@ == cleaned(value@),
{
    let v = chars_of(value);
    let mut a: usize = 0;
    assert(v@.skip(0) =~= v@);
    while a < v.len() && (v[a] == '*' || v[a] == '_' || v[a] == '`')
        invariant
            a <= v@.len(),
            v@ == value@,
            leading_markers(v@) == a + leading_markers(v@.skip(a as int)),
        decreases v.len() - a,
    {
        assert(v@.skip(a as int).drop_first() =~= v@.skip(a + 1));
        a = a + 1;
    }
    let ghost t = v@.skip(a as int);
    let mut b = v.len();
    proof {
        lemma_markers_bounded(t);
        if a < v@.len() {
            assert(t[0] == v@[a as int]);
        }
    }
    assert(t.take(t.len() as int) =~= t);
    while b > a && (v[b - 1] == '*' || v[b - 1] == '_' || v[b - 1] == '`')
        invariant
            a <= b <= v@.len(),
            t == v@.skip(a as int),
            trailing_markers(t) == (v@.len() - b) + trailing_markers(t.take(b - a)),
        decreases b,
    {
        assert(t.take(b - a).drop_last() =~= t.take(b - 1 - a));
        assert(t.take(b - a).last() == v@[b - 1]);
        b = b - 1;
    }
    assert(t.take(t.len() - trailing_markers(t)) =~= v@.subrange(a as int, b as int));
    trim(slice_text(&v, a, b).as_str())
}

/// How many `#` a text starts with.
pub open spec fn hashes(s: Seq<char>) -> nat
    decreases s.len(),
{
    if s.len() > 0 && s[0] == '#' { 1 + hashes(s.drop_first()) } else { 0 }
}

proof fn lemma_hashes_bounded(s: Seq<char>)
    ensures
        hashes(s) <= s.len(),
    decreases s.len(),
{
    if s.len() > 0 {
        lemma_hashes_bounded(s.drop_first());
    }
}

/// The text of a line without its leading `#`, trimmed.
pub open spec fn heading_label(line: Seq<char>) -> Seq<char> {
    let t = crate::text::trim_ws(line);
    crate::text::trim_ws(t.skip(hashes(t) as int))
}

/// The first non-empty trimmed line that is not a heading, cleaned.
pub open spec fn section_body(lines: Seq<Seq<char>>) -> Option<Seq<char>>
    decreases lines.len(),
{
    if lines.len() == 0 {
        None
    } else {
        let c = crate::text::trim_ws(lines[0]);
        if c.len() > 0 && !crate::text::has_prefix(c, "#"@) {
            Some(cleaned(c))
        } else {
            section_body(lines.drop_first())
        }
    }
}

/// The value under the first heading labelled `heading`.
pub open spec fn section_in(lines: Seq<Seq<char>>, heading: Seq<char>) -> Option<Seq<char>>
    decreases lines.len(),
{
    if lines.len() == 0 {
        None
    } else if crate::text::eq_ignore_case(heading_label(lines[0]), heading) {
        section_body(lines.drop_first())
    } else {
        section_in(lines.drop_first(), heading)
    }
}

fn heading_text(line: &str) -> (r: String)
    ensures
        r@ == heading_label(line@),
{
    let t = trim(line);
    let w = chars_of(t.as_str());
    let mut h: usize = 0;
    assert(w@.skip(0) =~= w@);
    while h < w.len() && w[h] == '#'
        invariant
            h <= w@.len(),
            w@ == t@,
            hashes(w@) == h + hashes(w@.skip(h as int)),
        decreases w.len() - h,
    {
        assert(w@.skip(h as int).drop_first() =~= w@.skip(h + 1));
        h = h + 1;
    }
    proof {
        if h < w@.len() {
            assert(w@.skip(h as int)[0] == w@[h as int]);
        }
    }
    let rest = slice_text(&w, h, w.len());
    assert(rest@ =~= w@.skip(h as int));
    trim(rest.as_str())
}

fn section_body_exec(lines: &Vec<String>, from: usize) -> (r: Option<String>)
    requires
        from <= lines@.len(),
    ensures
        crate::archi_layout::text_of(r) == section_body(crate::archi_native::views(lines@).skip(from as int)),
{
    let ghost ls = crate::archi_native::views(lines@);
    let mut k = from;
    while k < lines.len()
        invariant
            from <= k <= lines@.len(),
            ls == crate::archi_native::views(lines@),
            section_body(ls.skip(from as int)) == section_body(ls.skip(k as int)),
        decreases lines.len() - k,
    {
        assert(ls.skip(k as int)[0] == lines@[k as int]@);
        assert(ls.skip(k as int).drop_first() =~= ls.skip(k + 1));
        let candidate = trim(lines[k].as_str());
        if candidate.as_str().unicode_len() > 0 && !starts_with(candidate.as_str(), "#") {
            return Some(clean_metadata(candidate.as_str()));
        }
        k = k + 1;
    }
    None
}

/// The first non-empty, non-heading line after the line whose text, without leading `#` and
/// trimmed, is `heading` compared ASCII case-insensitively.
pub fn section_value(content: &str, heading: &str) -> (r: Option<String>)
    ensures
        crate::archi_layout::text_of(r) == section_in(lines_of(content@), heading@),
{
    let lines = text_lines(content);
    let ghost ls = crate::archi_native::views(lines@);
    let mut i: usize = 0;
    assert(ls.skip(0) =~= ls);
    while i < lines.len()
        invariant
            i <= lines@.len(),
            ls == crate::archi_native::views(lines@),
            ls == lines_of(content@),
            section_in(ls, heading@) == section_in(ls.skip(i as int), heading@),
        decreases lines.len() - i,
    {
        assert(ls.skip(i as int)[0] == lines@[i as int]@);
        assert(ls.skip(i as int).drop_first() =~= ls.skip(i + 1));
        let label = heading_text(lines[i].as_str());
        if crate::text::ieq(label.as_str(), heading) {
            return section_body_exec(&lines, i + 1);
        }
        i = i + 1;
    }
    None
}

/// The value after `label` on the first trimmed line that starts with it and has one, cleaned.
pub open spec fn labeled_in(lines: Seq<Seq<char>>, label: Seq<char>) -> Option<Seq<char>>
    decreases lines.len(),
{
    if lines.len() == 0 {
        None
    } else {
        let t = crate::text::trim_ws(lines[0]);
        let value = crate::text::trim_ws(t.skip(label.len() as int));
        if crate::text::has_prefix(t, label) && value.len() > 0 {
            Some(cleaned(value))
        } else {
            labeled_in(lines.drop_first(), label)
        }
    }
}

/// The value after `label` on the first trimmed line that starts with it and has one.
pub fn labeled_value(content: &str, label: &str) -> (r: Option<String>)
    ensures
        crate::archi_layout::text_of(r) == labeled_in(lines_of(content@), label@),
{
    let lines = text_lines(content);
    let ghost ls = crate::archi_native::views(lines@);
    let mut i: usize = 0;
    assert(ls.skip(0) =~= ls);
    while i < lines.len()
        invariant
            i <= lines@.len(),
            ls == crate::archi_native::views(lines@),
            ls == lines_of(content@),
            labeled_in(ls, label@) == labeled_in(ls.skip(i as int), label@),
        decreases lines.len() - i,
    {
        assert(ls.skip(i as int)[0] == lines@[i as int]@);
        assert(ls.skip(i as int).drop_first() =~= ls.skip(i + 1));
        let t = trim(lines[i].as_str());
        if let Some(rest) = strip_prefix(t.as_str(), label) {
            let value = trim(rest.as_str());
            if value.as_str().unicode_len() > 0 {
                return Some(clean_metadata(value.as_str()));
            }
        }
        i = i + 1;
    }
    None
}

/// How many ASCII digits a text starts with.
pub open spec fn leading_digits(s: Seq<char>) -> nat
    decreases s.len(),
{
    if s.len() > 0 && '0' <= s[0] && s[0] <= '9' { 1 + leading_digits(s.drop_first()) } else { 0 }
}

/// The identifier of a decision file: `ADR-` and the leading digits of its stem, lower-cased
/// and after an `adr-` prefix; else the stem (`ADR` when empty) upper-cased.
pub open spec fn decision_id_of(path: Seq<char>) -> Seq<char> {
    let stem = if stem_of(path).len() == 0 { "ADR"@ } else { stem_of(path) };
    let lower = Seq::new(stem.len(), |i: int| crate::text::lower(stem[i]));
    let candidate = if crate::text::has_prefix(lower, "adr-"@) { lower.skip("adr-"@.len() as int) } else { lower };
    if leading_digits(candidate) == 0 {
        Seq::new(stem.len(), |i: int| upper(stem[i]))
    } else {
        "ADR-"@ + candidate.take(leading_digits(candidate) as int)
    }
}

/// The identifier of a decision file: `ADR-` and the leading digits of its stem (after an
/// `adr-` prefix), or the stem upper-cased.
pub fn decision_id(path: &str) -> (r: String)
    ensures
        r@ == decision_id_of(path@),
{
    let stem = file_stem(path);
    let stem = if stem.as_str().unicode_len() == 0 { String::from_str("ADR") } else { stem };
    let lower = crate::text::ascii_lowercase(stem.as_str());
    let candidate = match strip_prefix(lower.as_str(), "adr-") {
        Some(rest) => rest,
        None => lower,
    };
    let v = chars_of(candidate.as_str());
    let mut n: usize = 0;
    assert(v@.skip(0) =~= v@);
    while n < v.len() && '0' <= v[n] && v[n] <= '9'
        invariant
            n <= v@.len(),
            v@ == candidate@,
            leading_digits(v@) == n + leading_digits(v@.skip(n as int)),
        decreases v.len() - n,
    {
        assert(v@.skip(n as int).drop_first() =~= v@.skip(n + 1));
        n = n + 1;
    }
    if n < v.len() {
        assert(v@.skip(n as int)[0] == v@[n as int]);
    }
    if n == 0 {
        ascii_uppercase(stem.as_str())
    } else {
        cat("ADR-", slice_text(&v, 0, n).as_str())
    }
}

/// A character with ASCII lower-case letters made upper-case.
pub open spec fn upper(c: char) -> char {
    if 'a' <= c && c <= 'z' { (((c as u32) as u8) - 32) as u8 as char } else { c }
}

/// ASCII upper-casing.
pub(crate) fn ascii_uppercase(s: &str) -> (r: String)
    ensures
        r@ == Seq::new(s@.len(), |i: int| upper(s@[i])),
{
    let v = chars_of(s);
    let mut out: Vec<char> = Vec::new();
    let mut i: usize = 0;
    while i < v.len()
        invariant
            i <= v@.len(),
            v@ == s@,
            out@ == Seq::new(i as nat, |j: int| upper(v@[j])),
        decreases v.len() - i,
    {
        let c = v[i];
        if 'a' <= c && c <= 'z' {
            let u: u32 = c as u32;
            let b: u8 = (u as u8) - 32;
            out.push(b as char);
        } else {
            out.push(c);
        }
        i = i + 1;
        assert(out@ =~= Seq::new(i as nat, |j: int| upper(v@[j])));
    }
    string_of(out.as_slice())
}

/// `value` without one pair of surrounding double quotes.
pub(crate) fn unquote(value: &str) -> (r: String) {
    let v = chars_of(value);
    if v.len() >= 2 && v[0] == '"' && v[v.len() - 1] == '"' {
        slice_text(&v, 1, v.len() - 1)
    } else {
        String::from_str(value)
    }
}

/// The displayed source of a file: `base` for a single file, `base` joined with the file's
/// name for a file of a directory.
pub(crate) fn display_path(base: &str, file: &str, directory: bool) -> (r: String) {
    if !directory {
        return String::from_str(base);
    }
    let name = file_name(file);
    if base.unicode_len() == 0 || crate::text::ends_with(base, "/") {
        cat(base, name.as_str())
    } else {
        cat3(base, "/", name.as_str())
    }
}

/// The kind of an element as the import warning names it.
pub open spec fn kind_word(kind: crate::model::ElementKind) -> Seq<char> {
    match kind {
        crate::model::ElementKind::Person => "person"@,
        crate::model::ElementKind::Component => "component"@,
        crate::model::ElementKind::Generic => "generic"@,
        crate::model::ElementKind::DeploymentEnvironment | crate::model::ElementKind::DeploymentGroup
        | crate::model::ElementKind::DeploymentNode | crate::model::ElementKind::InfrastructureNode
        | crate::model::ElementKind::SoftwareSystemInstance | crate::model::ElementKind::ContainerInstance => "deployment"@,
        crate::model::ElementKind::ArchiMate(_) => "archimate"@,
        crate::model::ElementKind::SoftwareSystem => "software system"@,
        crate::model::ElementKind::Container => "container"@,
    }
}

/// The kind of an element as the import warning names it.
pub(crate) fn element_kind_name(kind: &crate::model::ElementKind) -> (r: &'static str)
    ensures
        r@ == kind_word(*kind),
{
    match kind {
        crate::model::ElementKind::Person => "person",
        crate::model::ElementKind::Component => "component",
        crate::model::ElementKind::Generic => "generic",
        crate::model::ElementKind::DeploymentEnvironment | crate::model::ElementKind::DeploymentGroup
        | crate::model::ElementKind::DeploymentNode | crate::model::ElementKind::InfrastructureNode
        | crate::model::ElementKind::SoftwareSystemInstance | crate::model::ElementKind::ContainerInstance => "deployment",
        crate::model::ElementKind::ArchiMate(_) => "archimate",
        crate::model::ElementKind::SoftwareSystem => "software system",
        crate::model::ElementKind::Container => "container",
    }
}

/// Why reading one import stopped.
enum ImportStep {
    /// The target has not been read yet.
    Needs(String, String),
    /// The import failed with this error.
    Failed(crate::diagnostic::Diagnostic),
}

fn copy_owner(owner: &DocumentationOwner) -> (r: DocumentationOwner) {
    match owner {
        DocumentationOwner::Workspace => DocumentationOwner::Workspace,
        DocumentationOwner::Element(id) => DocumentationOwner::Element(id.clone()),
    }
}

/// Whether a loaded import answers the import of `value` from `base`.
pub open spec fn answers(l: LoadedDocs, base: Seq<char>, value: Seq<char>) -> bool {
    l.base@ == base && l.value@ == value
}

fn find_loaded(loaded: &Vec<LoadedDocs>, base: &str, value: &str) -> (r: Option<usize>)
    ensures
        match r {
            Some(k) => k < loaded@.len() && answers(loaded@[k as int], base@, value@)
                && forall|j: int| 0 <= j < k ==> !answers(#[trigger] loaded@[j], base@, value@),
            None => forall|j: int| 0 <= j < loaded@.len() ==> !answers(#[trigger] loaded@[j], base@, value@),
        },
{
    let mut i: usize = 0;
    while i < loaded.len()
        invariant
            i <= loaded@.len(),
            forall|j: int| 0 <= j < i ==> !answers(#[trigger] loaded@[j], base@, value@),
        decreases loaded.len() - i,
    {
        if crate::text::seq_eq(loaded[i].base.as_str(), base) && crate::text::seq_eq(loaded[i].value.as_str(), value) {
            return Some(i);
        }
        i = i + 1;
    }
    None
}

/// The files of a directory that `keep` selects, ordered by their normalized paths.
fn select_files<'a>(files: &'a Vec<DocFile>, markdown_only: bool) -> (r: Vec<&'a DocFile>) {
    let mut out: Vec<&'a DocFile> = Vec::new();
    let mut keys: Vec<String> = Vec::new();
    let mut i: usize = 0;
    while i < files.len()
        invariant
            i <= files@.len(),
            keys@.len() == out@.len(),
        decreases files.len() - i,
    {
        let file = &files[i];
        let keep = if markdown_only { is_markdown(file.path.as_str()) } else { documentation_format(file.path.as_str()).is_some() };
        if keep {
            let key = normalized(file.path.as_str());
            let mut p = keys.len();
            while p > 0 && !crate::xml::text_le_exec(keys[p - 1].as_str(), key.as_str())
                invariant
                    p <= keys@.len(),
                    keys@.len() == out@.len(),
                decreases p,
            {
                p = p - 1;
            }
            keys.insert(p, key);
            out.insert(p, file);
        }
        i = i + 1;
    }
    out
}

/// Finds the files that an import path names, or why it cannot be read.
fn import_files<'a>(
    sources: &crate::source::SourceMap,
    directive: &crate::model::Directive,
    value: &str,
    label: &str,
    markdown_only: bool,
    loaded: &'a Vec<LoadedDocs>,
) -> (r: Result<(Vec<&'a DocFile>, Option<&'a FileContent>, Option<&'a String>, bool), ImportStep>)
    requires
        sources.wf(),
        sources.has(directive.span),
    ensures
        r matches Err(ImportStep::Failed(d)) ==> d.span == directive.span,
{
    let span = directive.span;
    if crate::compiler::is_url(value) {
        return Err(ImportStep::Failed(Diagnostic::error(span, cat3("remote ", label, " import is disabled; no network request was made"))));
    }
    if starts_with(value, "/") {
        return Err(ImportStep::Failed(Diagnostic::error(span, cat3("absolute ", label, " paths are not allowed"))));
    }
    if has_parent_component(value) {
        return Err(ImportStep::Failed(Diagnostic::error(span, cat(label, " path may not escape the DSL directory with '..'"))));
    }
    let (source, _) = sources.resolve(span);
    let base = parent_dir(source.path.as_str());
    let k = match find_loaded(loaded, base.as_str(), value) {
        Some(k) => k,
        None => {
            return Err(ImportStep::Needs(base, String::from_str(value)));
        },
    };
    match &loaded[k].target {
        DocTarget::BaseUnresolved { base, error } => Err(ImportStep::Failed(Diagnostic::error(span,
            cat5("cannot resolve DSL directory '", base.as_str(), "': ", error.as_str(), "")))),
        DocTarget::Unreadable { error } => {
            let head = cat5(label, " path '", value, "' cannot be read: ", error.as_str());
            Err(ImportStep::Failed(Diagnostic::error(span, head).with_help(String::from_str("use an existing local path below the DSL file directory"))))
        },
        DocTarget::Escapes => Err(ImportStep::Failed(Diagnostic::error(span, cat(label, " path escapes the DSL file directory")))),
        DocTarget::File { path, content } => {
            let supported = if markdown_only { is_markdown(path.as_str()) } else { documentation_format(path.as_str()).is_some() };
            if !supported {
                let message = cat5("unsupported ", if markdown_only { label } else { "documentation" }, " extension for '", path.as_str(), "'");
                return Err(ImportStep::Failed(Diagnostic::error(span, message)));
            }
            Ok((Vec::new(), Some(content), Some(path), false))
        },
        DocTarget::Directory { files, .. } => Ok((select_files(files, markdown_only), None, None, true)),
        DocTarget::DirectoryUnreadable { path, error } => Err(ImportStep::Failed(Diagnostic::error(span,
            cat5("cannot read directory '", path.as_str(), "': ", error.as_str(), "")))),
        DocTarget::EntryUnreadable { error } => Err(ImportStep::Failed(Diagnostic::error(span, error.clone()))),
        DocTarget::Other { path } => Err(ImportStep::Failed(Diagnostic::error(span,
            cat3("import path '", path.as_str(), "' is neither a file nor directory")))),
    }
}

/// The text of a file, or the error that reading it gave.
fn file_text(content: &FileContent, path: &str, label: &str, span: crate::source::Span) -> (r: Result<String, ImportStep>)
    ensures
        r matches Err(ImportStep::Failed(d)) ==> d.span == span,
        !(r matches Err(ImportStep::Needs(_, _))),
        match *content {
            FileContent::Text(t) => r matches Ok(x) && x@ == t@,
            FileContent::Unreadable(e) => r matches Err(ImportStep::Failed(d))
                && d.message@ == "cannot read "@ + label@ + " file '"@ + path@ + "': "@ + e@,
            FileContent::NotUtf8 => r matches Err(ImportStep::Failed(d))
                && d.message@ == label@ + " file '"@ + path@ + "' is not valid UTF-8"@,
        },
{
    proof { reveal_strlit(""); }
    match content {
        FileContent::Text(t) => Ok(t.clone()),
        FileContent::Unreadable(error) => {
            let head = cat5("cannot read ", label, " file '", path, "': ");
            Err(ImportStep::Failed(Diagnostic::error(span, cat(head.as_str(), error.as_str()))))
        },
        FileContent::NotUtf8 => Err(ImportStep::Failed(Diagnostic::error(span, cat5(label, " file '", path, "' is not valid UTF-8", "")))),
    }
}

/// Every section is numbered by its position.
pub open spec fn sections_numbered(s: Seq<crate::model::DocumentationSection>) -> bool {
    forall|i: int| 0 <= i < s.len() ==> (#[trigger] s[i]).order == i
}

/// Every decision is numbered by its position.
pub open spec fn decisions_numbered(s: Seq<crate::model::DecisionRecord>) -> bool {
    forall|i: int| 0 <= i < s.len() ==> (#[trigger] s[i]).order == i
}

fn add_section(documentation: &mut Vec<crate::model::DocumentationSection>, owner: &DocumentationOwner, path: &str, display: String,
    text: String, format: DocumentationFormat)
    requires
        sections_numbered(old(documentation)@),
    ensures
        sections_numbered(final(documentation)@),
{
    let prefix = if matches!(format, DocumentationFormat::Markdown) { "# " } else { "= " };
    let title = match first_heading(text.as_str(), prefix) {
        Some(t) => t,
        None => fallback_title(path),
    };
    let order = documentation.len();
    let ghost before = documentation@;
    documentation.push(crate::model::DocumentationSection { owner: copy_owner(owner), source_path: display, title, format, order, content: text });
    assert forall|i: int| 0 <= i < documentation@.len() implies (#[trigger] documentation@[i]).order == i by {
        if i < before.len() {
            assert(documentation@[i] == before[i]);
        }
    }
}

fn import_docs(
    sources: &crate::source::SourceMap,
    owner: &DocumentationOwner,
    directive: &crate::model::Directive,
    value: &str,
    loaded: &Vec<LoadedDocs>,
    documentation: &mut Vec<crate::model::DocumentationSection>,
    warnings: &mut Vec<Diagnostic>,
) -> (r: Result<(), ImportStep>)
    requires
        sources.wf(),
        sources.has(directive.span),
        sections_numbered(old(documentation)@),
        crate::diagnostic::all_in(old(warnings)@, sources),
    ensures
        sections_numbered(final(documentation)@),
        crate::diagnostic::all_in(final(warnings)@, sources),
        r matches Err(ImportStep::Failed(d)) ==> d.span == directive.span,
{
    let span = directive.span;
    let (files, single, single_path, directory) = import_files(sources, directive, value, "documentation", false, loaded)?;
    if let (Some(content), Some(path)) = (single, single_path) {
        let text = file_text(content, path.as_str(), "documentation", span)?;
        let format = match documentation_format(path.as_str()) {
            Some(f) => f,
            None => {
                return Err(ImportStep::Failed(Diagnostic::error(span, cat3("unsupported documentation file '", path.as_str(), "'; expected Markdown or AsciiDoc"))));
            },
        };
        if matches!(format, DocumentationFormat::AsciiDoc) {
            warnings.push(Diagnostic::warning(span, cat3("AsciiDoc '", path.as_str(), "' is preserved and rendered as escaped text")));
        }
        add_section(documentation, owner, path.as_str(), display_path(value, path.as_str(), directory), text, format);
        return Ok(());
    }
    if files.len() == 0 {
        warnings.push(Diagnostic::warning(span, String::from_str("documentation directory contains no supported files")));
    }
    let mut i: usize = 0;
    while i < files.len()
        invariant
            i <= files@.len(),
            sources.wf(),
            sources.has(span),
            span == directive.span,
            sections_numbered(documentation@),
            crate::diagnostic::all_in(warnings@, sources),
        decreases files.len() - i,
    {
        let file = files[i];
        let text = file_text(&file.content, file.path.as_str(), "documentation", span)?;
        let format = match documentation_format(file.path.as_str()) {
            Some(f) => f,
            None => {
                return Err(ImportStep::Failed(Diagnostic::error(span, cat3("unsupported documentation file '", file.path.as_str(), "'; expected Markdown or AsciiDoc"))));
            },
        };
        if matches!(format, DocumentationFormat::AsciiDoc) {
            warnings.push(Diagnostic::warning(span, cat3("AsciiDoc '", file.path.as_str(), "' is preserved and rendered as escaped text")));
        }
        add_section(documentation, owner, file.path.as_str(), display_path(value, file.path.as_str(), directory), text, format);
        i = i + 1;
    }
    Ok(())
}

fn add_decision(decisions: &mut Vec<crate::model::DecisionRecord>, owner: &DocumentationOwner, path: &str, display: String,
    text: String, format: crate::model::DecisionFormat)
    requires
        decisions_numbered(old(decisions)@),
    ensures
        decisions_numbered(final(decisions)@),
{
    let title = match first_heading(text.as_str(), "# ") {
        Some(t) => t,
        None => fallback_title(path),
    };
    let status = match section_value(text.as_str(), "Status") {
        Some(s) => Some(s),
        None => labeled_value(text.as_str(), "Status:"),
    };
    let date = match labeled_value(text.as_str(), "Date:") {
        Some(d) => Some(d),
        None => section_value(text.as_str(), "Date"),
    };
    let order = decisions.len();
    let ghost before = decisions@;
    decisions.push(crate::model::DecisionRecord {
        owner: copy_owner(owner),
        id: decision_id(path),
        title,
        status,
        date,
        source_path: display,
        content: text,
        format,
        order,
    });
    assert forall|i: int| 0 <= i < decisions@.len() implies (#[trigger] decisions@[i]).order == i by {
        if i < before.len() {
            assert(decisions@[i] == before[i]);
        }
    }
}

fn import_adrs(
    sources: &crate::source::SourceMap,
    owner: &DocumentationOwner,
    directive: &crate::model::Directive,
    value: &str,
    format: crate::model::DecisionFormat,
    loaded: &Vec<LoadedDocs>,
    decisions: &mut Vec<crate::model::DecisionRecord>,
    warnings: &mut Vec<Diagnostic>,
) -> (r: Result<(), ImportStep>)
    requires
        sources.wf(),
        sources.has(directive.span),
        decisions_numbered(old(decisions)@),
        crate::diagnostic::all_in(old(warnings)@, sources),
    ensures
        decisions_numbered(final(decisions)@),
        crate::diagnostic::all_in(final(warnings)@, sources),
        r matches Err(ImportStep::Failed(d)) ==> d.span == directive.span,
{
    let span = directive.span;
    let (files, single, single_path, directory) = import_files(sources, directive, value, "ADR", true, loaded)?;
    if let (Some(content), Some(path)) = (single, single_path) {
        let text = file_text(content, path.as_str(), "ADR", span)?;
        add_decision(decisions, owner, path.as_str(), display_path(value, path.as_str(), directory), text, format);
        return Ok(());
    }
    let mut i: usize = 0;
    while i < files.len()
        invariant
            i <= files@.len(),
            sources.wf(),
            sources.has(span),
            span == directive.span,
            decisions_numbered(decisions@),
            crate::diagnostic::all_in(warnings@, sources),
        decreases files.len() - i,
    {
        let file = files[i];
        let text = file_text(&file.content, file.path.as_str(), "ADR", span)?;
        add_decision(decisions, owner, file.path.as_str(), display_path(value, file.path.as_str(), directory), text, format);
        i = i + 1;
    }
    if files.len() == 0 {
        warnings.push(Diagnostic::warning(span, String::from_str("ADR directory contains no Markdown files")));
    }
    Ok(())
}

/// Whether a directive imports documentation or decisions.
pub open spec fn doc_directive(d: crate::model::Directive) -> bool {
    d.name@ == "docs"@ || d.name@ == "adrs"@
}

/// A `!docs` or `!adrs` directive without a path or with more than a path and an importer.
pub open spec fn malformed_doc_directive(d: crate::model::Directive) -> bool {
    doc_directive(d) && (d.arguments@.len() == 0 || d.arguments@.len() > 2)
}

/// Whether neither the workspace nor any element has a `!docs` or `!adrs` directive.
pub open spec fn no_doc_directives(w: Workspace) -> bool {
    &&& forall|i: int| 0 <= i < w.directives@.len() ==> !doc_directive(#[trigger] w.directives@[i])
    &&& forall|e: int, k: int| 0 <= e < w.elements@.len() && 0 <= k < w.elements@[e].directives@.len()
        ==> !doc_directive(#[trigger] w.elements@[e].directives@[k])
}

/// Imports the documentation and decisions that the workspace's `!docs` and `!adrs`
/// directives name, reading through `loaded`. A path not read yet stops the import and is
/// named in the failure; other problems are rendered together. Sections and decisions are
/// numbered in import order.
pub fn import(workspace: &Workspace, strict_safe: bool, loaded: &Vec<LoadedDocs>) -> (r: Result<DocImport, DocFailure>)
    requires
        workspace.wf(),
    ensures
        r matches Ok(imp) ==> {
            &&& sections_numbered(imp.documentation@)
            &&& decisions_numbered(imp.decisions@)
            &&& crate::diagnostic::all_in(imp.warnings@, &workspace.source_map)
        },
        no_doc_directives(*workspace) ==> (r matches Ok(imp) && imp.documentation@.len() == 0 && imp.decisions@.len() == 0),
        (exists|i: int| 0 <= i < workspace.directives@.len() && malformed_doc_directive(#[trigger] workspace.directives@[i])) ==> r is Err,
        r matches Err(f) ==> match f.needs {
            Some(_) => f.message@.len() == 0,
            None => exists|ds: Seq<Diagnostic>| ds.len() > 0 && crate::diagnostic::all_in(ds, &workspace.source_map)
                && f.message@ == crate::validate::report_text(ds, workspace.source_map),
        },
{
    let sources = &workspace.source_map;
    let mut requests: Vec<(DocumentationOwner, &crate::model::Directive)> = Vec::new();
    let mut warnings: Vec<Diagnostic> = Vec::new();
    let mut i: usize = 0;
    while i < workspace.directives.len()
        invariant
            i <= workspace.directives@.len(),
            workspace.wf(),
            *sources == workspace.source_map,
            forall|k: int| 0 <= k < requests@.len() ==> sources.has((#[trigger] requests@[k]).1.span),
            requests@.len() > 0 ==> !no_doc_directives(*workspace),
            forall|j: int| 0 <= j < i && malformed_doc_directive(#[trigger] workspace.directives@[j]) ==>
                exists|k: int| 0 <= k < requests@.len() && malformed_doc_directive(*(#[trigger] requests@[k]).1),
        decreases workspace.directives.len() - i,
    {
        let ghost before = requests@;
        let d = &workspace.directives[i];
        if crate::text::seq_eq(d.name.as_str(), "docs") || crate::text::seq_eq(d.name.as_str(), "adrs") {
            assert(doc_directive(workspace.directives@[i as int]));
            assert(crate::model::directives_in(workspace.directives@, sources.len()));
            assert(sources.has(workspace.directives@[i as int].span));
            requests.push((DocumentationOwner::Workspace, d));
        }
        proof {
            assert forall|j: int| 0 <= j < i + 1 && malformed_doc_directive(#[trigger] workspace.directives@[j]) implies
                exists|k: int| 0 <= k < requests@.len() && malformed_doc_directive(*(#[trigger] requests@[k]).1) by {
                if j < i {
                    let k = choose|k: int| 0 <= k < before.len() && malformed_doc_directive(*(#[trigger] before[k]).1);
                    assert(requests@[k] == before[k]);
                } else {
                    assert(requests@[requests@.len() - 1].1 == &workspace.directives@[j]);
                }
            }
        }
        i = i + 1;
    }
    let ghost any_malformed = exists|k: int| 0 <= k < requests@.len() && malformed_doc_directive(*(#[trigger] requests@[k]).1);
    let mut e: usize = 0;
    while e < workspace.elements.len()
        invariant
            e <= workspace.elements@.len(),
            workspace.wf(),
            *sources == workspace.source_map,
            forall|k: int| 0 <= k < requests@.len() ==> sources.has((#[trigger] requests@[k]).1.span),
            crate::diagnostic::all_in(warnings@, sources),
            requests@.len() > 0 ==> !no_doc_directives(*workspace),
            any_malformed ==> exists|k: int| 0 <= k < requests@.len() && malformed_doc_directive(*(#[trigger] requests@[k]).1),
        decreases workspace.elements.len() - e,
    {
        let element = &workspace.elements[e];
        assert(workspace.elements@[e as int].spans_in(sources.len()));
        let mut k: usize = 0;
        while k < element.directives.len()
            invariant
                k <= element.directives@.len(),
                workspace.wf(),
                *sources == workspace.source_map,
                element.spans_in(sources.len()),
                forall|j: int| 0 <= j < requests@.len() ==> sources.has((#[trigger] requests@[j]).1.span),
                crate::diagnostic::all_in(warnings@, sources),
                requests@.len() > 0 ==> !no_doc_directives(*workspace),
                any_malformed ==> exists|k: int| 0 <= k < requests@.len() && malformed_doc_directive(*(#[trigger] requests@[k]).1),
                e < workspace.elements@.len(),
                *element == workspace.elements@[e as int],
            decreases element.directives.len() - k,
        {
            let d = &element.directives[k];
            assert(sources.has(element.directives@[k as int].span));
            if crate::text::seq_eq(d.name.as_str(), "docs") || crate::text::seq_eq(d.name.as_str(), "adrs") {
                assert(doc_directive(workspace.elements@[e as int].directives@[k as int]));
                if matches!(element.kind, crate::model::ElementKind::SoftwareSystem | crate::model::ElementKind::Container) {
                    let ghost before = requests@;
                    requests.push((DocumentationOwner::Element(element.id.clone()), d));
                    proof {
                        if any_malformed {
                            let k = choose|k: int| 0 <= k < before.len() && malformed_doc_directive(*(#[trigger] before[k]).1);
                            assert(requests@[k] == before[k]);
                        }
                    }
                } else {
                    let message = cat5("!", d.name.as_str(), " is not supported for ", element_kind_name(&element.kind), " elements; metadata was preserved");
                    warnings.push(Diagnostic::warning(d.span, message).with_help(String::from_str("attach documentation to the workspace, a software system, or a container")));
                }
            }
            k = k + 1;
        }
        e = e + 1;
    }
    let mut diagnostics: Vec<Diagnostic> = Vec::new();
    let mut documentation: Vec<crate::model::DocumentationSection> = Vec::new();
    let mut decisions: Vec<crate::model::DecisionRecord> = Vec::new();
    let mut q: usize = 0;
    while q < requests.len()
        invariant
            q <= requests@.len(),
            workspace.wf(),
            *sources == workspace.source_map,
            forall|k: int| 0 <= k < requests@.len() ==> sources.has((#[trigger] requests@[k]).1.span),
            crate::diagnostic::all_in(warnings@, sources),
            crate::diagnostic::all_in(diagnostics@, sources),
            sections_numbered(documentation@),
            decisions_numbered(decisions@),
            requests@.len() == 0 ==> diagnostics@.len() == 0 && documentation@.len() == 0 && decisions@.len() == 0,
            requests@.len() > 0 ==> !no_doc_directives(*workspace),
            any_malformed ==> diagnostics@.len() > 0
                || exists|k: int| q <= k < requests@.len() && malformed_doc_directive(*(#[trigger] requests@[k]).1),
        decreases requests.len() - q,
    {
        let owner = &requests[q].0;
        let directive = requests[q].1;
        assert(sources.has(requests@[q as int].1.span));
        let span = directive.span;
        let arguments = &directive.arguments;
        if arguments.len() == 0 || arguments.len() > 2 {
            let message = cat3("!", directive.name.as_str(), " requires a path and optional importer");
            let help = cat3("use '!", directive.name.as_str(), " <path> [importer]'");
            diagnostics.push(Diagnostic::error(span, message).with_help(help));
        } else {
            let path = unquote(arguments[0].as_str());
            if crate::text::seq_eq(directive.name.as_str(), "docs") {
                let mut refused = false;
                if arguments.len() == 2 {
                    let message = cat3("custom documentation importer '", unquote(arguments[1].as_str()).as_str(), "' was preserved but not loaded");
                    if strict_safe {
                        diagnostics.push(Diagnostic::error(span, message));
                        refused = true;
                    } else {
                        warnings.push(Diagnostic::warning(span, message));
                    }
                }
                if !refused {
                    match import_docs(sources, owner, directive, path.as_str(), loaded, &mut documentation, &mut warnings) {
                        Ok(()) => {},
                        Err(ImportStep::Needs(base, value)) => {
                            return Err(DocFailure { message: String::new(), needs: Some((base, value)) });
                        },
                        Err(ImportStep::Failed(d)) => diagnostics.push(d),
                    }
                }
            } else {
                let importer = if arguments.len() == 2 { unquote(arguments[1].as_str()) } else { String::from_str("adrtools") };
                let lowered = crate::text::ascii_lowercase(importer.as_str());
                let l = lowered.as_str();
                let format = if crate::text::seq_eq(l, "adrtools") {
                    Some(crate::model::DecisionFormat::AdrTools)
                } else if crate::text::seq_eq(l, "madr") {
                    warnings.push(Diagnostic::warning(span, String::from_str("MADR metadata import is partial; Markdown content was imported safely")));
                    Some(crate::model::DecisionFormat::Madr)
                } else if crate::text::seq_eq(l, "log4brains") {
                    warnings.push(Diagnostic::warning(span, String::from_str("Log4brains metadata import is partial; Markdown content was imported safely")));
                    Some(crate::model::DecisionFormat::Log4brains)
                } else if crate::text::contains_char(l, '.') {
                    let message = cat3("custom ADR importer '", importer.as_str(), "' was preserved but not loaded");
                    if strict_safe {
                        diagnostics.push(Diagnostic::error(span, message));
                        None
                    } else {
                        warnings.push(Diagnostic::warning(span, message));
                        Some(crate::model::DecisionFormat::MarkdownGeneric)
                    }
                } else {
                    let message = cat3("unsupported ADR importer '", importer.as_str(), "'");
                    diagnostics.push(Diagnostic::error(span, message).with_help(String::from_str("use adrtools, madr, log4brains, or omit the importer")));
                    None
                };
                if let Some(format) = format {
                    match import_adrs(sources, owner, directive, path.as_str(), format, loaded, &mut decisions, &mut warnings) {
                        Ok(()) => {},
                        Err(ImportStep::Needs(base, value)) => {
                            return Err(DocFailure { message: String::new(), needs: Some((base, value)) });
                        },
                        Err(ImportStep::Failed(d)) => diagnostics.push(d),
                    }
                }
            }
        }
        proof {
            if any_malformed && diagnostics@.len() == 0 {
                let k = choose|k: int| q <= k < requests@.len() && malformed_doc_directive(*(#[trigger] requests@[k]).1);
                if k == q {
                    assert(false);
                }
                assert(q + 1 <= k);
            }
        }
        q = q + 1;
    }
    if diagnostics.len() == 0 {
        Ok(DocImport { documentation, decisions, warnings })
    } else {
        let message = crate::diagnostic::render_all(diagnostics.as_slice(), sources);
        assert(message@ == crate::validate::report_text(diagnostics@, workspace.source_map));
        Err(DocFailure { message, needs: None })
    }
}

} // verus!
