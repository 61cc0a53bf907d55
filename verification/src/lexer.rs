use vstd::prelude::*;
use crate::chars::{is_alphanumeric, unicode_alphanumeric, is_hex_digit};
use crate::diagnostic::{Diagnostic, Severity};
use crate::source::{SourceFile, SourceId, Span, byte_at, bytes_len, byte_span, byte_span_of, lemma_byte_at_mono};
use crate::text::{ieq, cat3, string_of};

verus! {

/// The kinds of tokens of the workspace language.
#[derive(Debug, PartialEq)]
pub enum TokenKind {
    Identifier(String),
    Bang(String),
    String(String),
    LeftBrace,
    RightBrace,
    Equals,
    DoubleEquals,
    NotEquals,
    And,
    Or,
    Not,
    LeftParen,
    RightParen,
    Arrow,
    RemoveArrow,
    Star,
    ReluctantStar,
    Newline,
    Eof,
}

/// A token and where it stands.
#[derive(Debug)]
pub struct Token {
    pub kind: TokenKind,
    pub span: Span,
}

/// Characters that may stand in an identifier.
pub open spec fn identifier_char(c: char) -> bool {
    unicode_alphanumeric(c) || c == '_' || c == '-' || c == '.' || c == '/' || c == ':' || c == ','
}

pub fn is_identifier(c: char) -> (r: bool)
    ensures
        r == identifier_char(c),
{
    is_alphanumeric(c) || c == '_' || c == '-' || c == '.' || c == '/' || c == ':' || c == ','
}

pub open spec fn is_expression_token(kind: TokenKind) -> bool {
    match kind {
        TokenKind::DoubleEquals | TokenKind::NotEquals | TokenKind::And | TokenKind::Or
        | TokenKind::Not | TokenKind::LeftParen | TokenKind::RightParen => true,
        _ => false,
    }
}

/// Operators of view expressions, which may touch their neighbours.
pub fn expression_token(kind: &TokenKind) -> (r: bool)
    ensures
        r == is_expression_token(*kind),
{
    match kind {
        TokenKind::DoubleEquals | TokenKind::NotEquals | TokenKind::And | TokenKind::Or
        | TokenKind::Not | TokenKind::LeftParen | TokenKind::RightParen => true,
        _ => false,
    }
}

/// Tokens of text `id` with length `len`: spans inside the text, in order, not overlapping.
pub open spec fn tokens_in_order(tokens: Seq<Token>, id: SourceId, len: nat) -> bool {
    &&& forall|i: int| 0 <= i < tokens.len() ==> {
        &&& (#[trigger] tokens[i]).span.source_id == id
        &&& tokens[i].span.start <= tokens[i].span.end <= len
    }
    &&& forall|i: int, j: int| 0 <= i < j < tokens.len() ==> (#[trigger] tokens[i]).span.end <= (#[trigger] tokens[j]).span.start
}

/// Every diagnostic points into text `id`.
pub open spec fn diagnostics_in(diagnostics: Seq<Diagnostic>, id: SourceId) -> bool {
    forall|i: int| 0 <= i < diagnostics.len() ==> (#[trigger] diagnostics[i]).span.source_id == id
}

fn kind_copy(kind: &TokenKind) -> (r: TokenKind)
    ensures
        r == *kind,
{
    match kind {
        TokenKind::Identifier(v) => TokenKind::Identifier(v.clone()),
        TokenKind::Bang(v) => TokenKind::Bang(v.clone()),
        TokenKind::String(v) => TokenKind::String(v.clone()),
        TokenKind::LeftBrace => TokenKind::LeftBrace,
        TokenKind::RightBrace => TokenKind::RightBrace,
        TokenKind::Equals => TokenKind::Equals,
        TokenKind::DoubleEquals => TokenKind::DoubleEquals,
        TokenKind::NotEquals => TokenKind::NotEquals,
        TokenKind::And => TokenKind::And,
        TokenKind::Or => TokenKind::Or,
        TokenKind::Not => TokenKind::Not,
        TokenKind::LeftParen => TokenKind::LeftParen,
        TokenKind::RightParen => TokenKind::RightParen,
        TokenKind::Arrow => TokenKind::Arrow,
        TokenKind::RemoveArrow => TokenKind::RemoveArrow,
        TokenKind::Star => TokenKind::Star,
        TokenKind::ReluctantStar => TokenKind::ReluctantStar,
        TokenKind::Newline => TokenKind::Newline,
        TokenKind::Eof => TokenKind::Eof,
    }
}

/// The tokens with their character spans turned into byte offsets.
fn byte_tokens(source: &SourceFile, tokens: &Vec<Token>) -> (r: Vec<Token>)
    requires
        source.wf(),
    ensures
        r@.len() == tokens@.len(),
        forall|i: int| 0 <= i < r@.len() ==> (#[trigger] r@[i]).kind == tokens@[i].kind
            && r@[i].span == byte_span_of(source@, tokens@[i].span),
{
    let mut out: Vec<Token> = Vec::new();
    let mut i: usize = 0;
    while i < tokens.len()
        invariant
            source.wf(),
            i <= tokens@.len(),
            out@.len() == i,
            forall|j: int| 0 <= j < i ==> (#[trigger] out@[j]).kind == tokens@[j].kind
                && out@[j].span == byte_span_of(source@, tokens@[j].span),
        decreases tokens.len() - i,
    {
        let t = Token { kind: kind_copy(&tokens[i].kind), span: byte_span(source, tokens[i].span) };
        out.push(t);
        i = i + 1;
    }
    out
}

/// The diagnostics with their character spans turned into byte offsets.
fn byte_diagnostics(source: &SourceFile, diagnostics: &Vec<Diagnostic>) -> (r: Vec<Diagnostic>)
    requires
        source.wf(),
    ensures
        r@.len() == diagnostics@.len(),
        forall|i: int| 0 <= i < r@.len() ==> (#[trigger] r@[i]).span == byte_span_of(source@, diagnostics@[i].span)
            && r@[i].severity == diagnostics@[i].severity && r@[i].message@ == diagnostics@[i].message@,
{
    let mut out: Vec<Diagnostic> = Vec::new();
    let mut i: usize = 0;
    while i < diagnostics.len()
        invariant
            source.wf(),
            i <= diagnostics@.len(),
            out@.len() == i,
            forall|j: int| 0 <= j < i ==> (#[trigger] out@[j]).span == byte_span_of(source@, diagnostics@[j].span)
                && out@[j].severity == diagnostics@[j].severity && out@[j].message@ == diagnostics@[j].message@,
        decreases diagnostics.len() - i,
    {
        let mut d = diagnostics[i].duplicate();
        d.span = byte_span(source, diagnostics[i].span);
        out.push(d);
        i = i + 1;
    }
    out
}

/// Splits a text into tokens, with spans in byte offsets. Any lexical error fails the whole
/// text, with every error found.
pub fn lex(source: &SourceFile) -> (r: Result<Vec<Token>, Vec<Diagnostic>>)
    requires
        source.wf(),
    ensures
        match r {
            Ok(tokens) => {
                &&& tokens_in_order(tokens@, source.id, bytes_len(source@))
                &&& tokens@.len() > 0
                &&& tokens@.last().kind == TokenKind::Eof
                &&& tokens@.last().span == (Span { source_id: source.id, start: bytes_len(source@) as usize, end: bytes_len(source@) as usize })
                &&& forall|i: int| 0 <= i < tokens@.len() - 1 ==> (#[trigger] tokens@[i]).kind != TokenKind::Eof
            },
            Err(diagnostics) => {
                &&& diagnostics@.len() > 0
                &&& diagnostics_in(diagnostics@, source.id)
                &&& forall|i: int| 0 <= i < diagnostics@.len() ==> (#[trigger] diagnostics@[i]).severity == Severity::Error
            },
        },
{
    let _ = source.len();
    let mut lexer = Lexer { source, offset: 0, tokens: Vec::new(), diagnostics: Vec::new() };
    lexer.run();
    if lexer.diagnostics.len() == 0 {
        let tokens = byte_tokens(source, &lexer.tokens);
        proof {
            let s = source@;
            let old_t = lexer.tokens@;
            source.lemma_offsets();
            assert(s.take(s.len() as int) =~= s);
            assert forall|i: int| 0 <= i < tokens@.len() implies {
                &&& (#[trigger] tokens@[i]).span.source_id == source.id
                &&& tokens@[i].span.start <= tokens@[i].span.end <= bytes_len(s)
            } by {
                lemma_byte_at_mono(s, old_t[i].span.start as int, old_t[i].span.end as int);
                lemma_byte_at_mono(s, old_t[i].span.end as int, s.len() as int);
            }
            assert forall|i: int, j: int| 0 <= i < j < tokens@.len() implies (#[trigger] tokens@[i]).span.end <= (#[trigger] tokens@[j]).span.start by {
                assert(old_t[i].span.end <= old_t[j].span.start);
                assert(old_t[j].span.start <= old_t[j].span.end <= s.len());
                assert(old_t[i].span.start <= old_t[i].span.end <= s.len());
                lemma_byte_at_mono(s, old_t[i].span.end as int, old_t[j].span.start as int);
                lemma_byte_at_mono(s, old_t[j].span.start as int, s.len() as int);
            }
        }
        Ok(tokens)
    } else {
        let diagnostics = byte_diagnostics(source, &lexer.diagnostics);
        Err(diagnostics)
    }
}

struct Lexer<'a> {
    source: &'a SourceFile,
    offset: usize,
    tokens: Vec<Token>,
    diagnostics: Vec<Diagnostic>,
}

/// Whether a colour value starts at `offset`: the last token is a colour keyword and seven
/// characters follow, of which the last six are hexadecimal digits.
pub open spec fn color_here(tokens: Seq<Token>, source: Seq<char>, offset: int) -> bool {
    &&& tokens.len() > 0
    &&& match tokens.last().kind {
        TokenKind::Identifier(name) => crate::text::eq_ignore_case(name@, "background"@)
            || crate::text::eq_ignore_case(name@, "color"@) || crate::text::eq_ignore_case(name@, "colour"@)
            || crate::text::eq_ignore_case(name@, "stroke"@),
        _ => false,
    }
    &&& offset + 7 <= source.len()
    &&& forall|k: int| 1 <= k < 7 ==> crate::chars::hex_digit(#[trigger] source[offset + k])
}

impl<'a> Lexer<'a> {
    spec fn len(&self) -> nat {
        self.source@.len()
    }

    spec fn tokens_end(&self) -> nat {
        if self.tokens@.len() == 0 { 0 } else { self.tokens@.last().span.end as nat }
    }

    spec fn wf(&self) -> bool {
        &&& self.offset <= self.len()
        &&& self.len() <= usize::MAX
        &&& tokens_in_order(self.tokens@, self.source.id, self.len())
        &&& self.tokens_end() <= self.offset
        &&& diagnostics_in(self.diagnostics@, self.source.id)
        &&& forall|i: int| 0 <= i < self.diagnostics@.len() ==> (#[trigger] self.diagnostics@[i]).severity == Severity::Error
        &&& forall|i: int| 0 <= i < self.tokens@.len() ==> (#[trigger] self.tokens@[i]).kind != TokenKind::Eof
    }

    fn run(&mut self)
        requires
            old(self).wf(),
            old(self).offset == 0,
            old(self).tokens@.len() == 0,
        ensures
            tokens_in_order(final(self).tokens@, old(self).source.id, old(self).source@.len()),
            final(self).tokens@.len() > 0,
            final(self).tokens@.last().kind == TokenKind::Eof,
            final(self).tokens@.last().span == (Span { source_id: old(self).source.id, start: old(self).source@.len() as usize, end: old(self).source@.len() as usize }),
            forall|i: int| 0 <= i < final(self).tokens@.len() - 1 ==> (#[trigger] final(self).tokens@[i]).kind != TokenKind::Eof,
            diagnostics_in(final(self).diagnostics@, old(self).source.id),
            forall|i: int| 0 <= i < final(self).diagnostics@.len() ==> (#[trigger] final(self).diagnostics@[i]).severity == Severity::Error,
    {
        let len = self.source.len();
        while self.offset < len
            invariant
                self.wf(),
                len == self.len(),
                self.source == old(self).source,
            decreases len - self.offset,
        {
            let start = self.offset;
            let c = self.source.char_at(start);
            if c == ' ' || c == '\t' || c == '\r' {
                self.advance();
            } else if c == '\n' {
                self.advance();
                self.push(TokenKind::Newline, start, self.offset);
            } else if c == '\\' && self.peek(1) == Some('\n') {
                self.offset = self.offset + 2;
            } else if c == '\\' && self.peek(1) == Some('\r') && self.peek(2) == Some('\n') {
                self.offset = self.offset + 3;
            } else if c == '/' && self.peek(1) == Some('/') {
                self.skip_comment();
            } else if c == '#' {
                if !self.color() {
                    self.skip_comment();
                }
            } else if c == '-' && self.peek(1) == Some('/') && self.peek(2) == Some('>') {
                self.offset = self.offset + 3;
                self.push(TokenKind::RemoveArrow, start, self.offset);
            } else if c == '-' && self.peek(1) == Some('>') {
                self.offset = self.offset + 2;
                self.push(TokenKind::Arrow, start, self.offset);
            } else if c == '{' {
                self.single(TokenKind::LeftBrace, start);
            } else if c == '}' {
                self.single(TokenKind::RightBrace, start);
            } else if c == '=' && self.peek(1) == Some('=') {
                self.offset = self.offset + 2;
                self.push(TokenKind::DoubleEquals, start, self.offset);
            } else if c == '=' {
                self.single(TokenKind::Equals, start);
            } else if c == '!' && self.peek(1) == Some('=') {
                self.offset = self.offset + 2;
                self.push(TokenKind::NotEquals, start, self.offset);
            } else if c == '&' && self.peek(1) == Some('&') {
                self.offset = self.offset + 2;
                self.push(TokenKind::And, start, self.offset);
            } else if c == '|' && self.peek(1) == Some('|') {
                self.offset = self.offset + 2;
                self.push(TokenKind::Or, start, self.offset);
            } else if c == '(' {
                self.single(TokenKind::LeftParen, start);
            } else if c == ')' {
                self.single(TokenKind::RightParen, start);
            } else if c == '*' && self.peek(1) == Some('?') {
                self.offset = self.offset + 2;
                self.push(TokenKind::ReluctantStar, start, self.offset);
            } else if c == '*' {
                self.single(TokenKind::Star, start);
            } else if c == '"' {
                if !self.string(start) {
                    break;
                }
            } else if c == '!' && self.directive_position() {
                self.bang(start);
            } else if c == '!' {
                self.single(TokenKind::Not, start);
            } else if is_identifier(c) {
                self.identifier(start);
            } else {
                self.advance();
                let mut shown = String::new();
                shown.push(c);
                let message = cat3("unexpected character '", shown.as_str(), "'");
                self.diagnostics.push(
                    Diagnostic::error(Span::new(self.source.id, start, self.offset), message)
                        .with_help(String::from_str("remove this character or separate valid DSL tokens with whitespace")),
                );
            }
        }
        self.tokens.push(Token { kind: TokenKind::Eof, span: Span::new(self.source.id, len, len) });
        proof {
            let t = self.tokens@;
            assert forall|i: int, j: int| 0 <= i < j < t.len() implies (#[trigger] t[i]).span.end <= (#[trigger] t[j]).span.start by {
                if j == t.len() - 1 {
                    if i < t.len() - 1 {
                        let k = t.len() - 2;
                        if i < k {
                            assert(t[i].span.end <= t[k].span.start);
                        }
                    }
                }
            }
        }
    }

    /// The character `k` places ahead of the current one, if any.
    fn peek(&self, k: usize) -> (r: Option<char>)
        ensures
            r == (if self.offset + k < self.len() { Some(self.source@[self.offset + k]) } else { None::<char> }),
    {
        if k < self.source.len() && self.offset < self.source.len() - k {
            Some(self.source.char_at(self.offset + k))
        } else {
            None
        }
    }

    fn advance(&mut self)
        requires
            old(self).wf(),
            old(self).offset < old(self).len(),
        ensures
            final(self).wf(),
            final(self).offset == old(self).offset + 1,
            final(self).tokens == old(self).tokens,
            final(self).diagnostics == old(self).diagnostics,
            final(self).source == old(self).source,
    {
        self.offset = self.offset + 1;
    }

    fn single(&mut self, kind: TokenKind, start: usize)
        requires
            old(self).wf(),
            old(self).offset == start,
            start < old(self).len(),
            kind != TokenKind::Eof,
        ensures
            final(self).wf(),
            final(self).offset == start + 1,
            final(self).source == old(self).source,
    {
        self.advance();
        self.push(kind, start, self.offset);
    }

    fn push(&mut self, kind: TokenKind, start: usize, end: usize)
        requires
            old(self).wf(),
            old(self).tokens_end() <= start <= end == old(self).offset,
            kind != TokenKind::Eof,
        ensures
            final(self).wf(),
            final(self).offset == old(self).offset,
            final(self).source == old(self).source,
            final(self).tokens@ == old(self).tokens@.push(Token { kind, span: Span { source_id: old(self).source.id, start, end } }),
    {
        let n = self.tokens.len();
        if n > 0 {
            let previous = &self.tokens[n - 1];
            let previous_newline = match previous.kind { TokenKind::Newline => true, _ => false };
            let current_newline = match kind { TokenKind::Newline => true, _ => false };
            if !previous_newline && !current_newline && previous.span.end == start
                && !expression_token(&previous.kind) && !expression_token(&kind)
            {
                self.diagnostics.push(
                    Diagnostic::error(
                        Span::new(self.source.id, start, end),
                        String::from_str("DSL tokens must be separated by whitespace"),
                    ).with_help(String::from_str("insert a space between these tokens")),
                );
            }
        }
        let ghost before = self.tokens@;
        self.tokens.push(Token { kind, span: Span::new(self.source.id, start, end) });
        proof {
            let t = self.tokens@;
            assert forall|i: int, j: int| 0 <= i < j < t.len() implies (#[trigger] t[i]).span.end <= (#[trigger] t[j]).span.start by {
                if j == t.len() - 1 && i < j {
                    if i < before.len() - 1 {
                        assert(before[i].span.end <= before[before.len() - 1].span.start);
                    }
                } else {
                    assert(t[i] == before[i]);
                    assert(t[j] == before[j]);
                }
            }
            assert forall|i: int| 0 <= i < t.len() implies (#[trigger] t[i]).kind != TokenKind::Eof by {
                if i < before.len() {
                    assert(t[i] == before[i]);
                }
            }
        }
    }

    /// Reads a quoted string; a backslash takes the next character as it is.
    fn string(&mut self, start: usize) -> (ok: bool)
        requires
            old(self).wf(),
            old(self).offset == start,
            start < old(self).len(),
        ensures
            final(self).wf(),
            final(self).offset > start,
            final(self).source == old(self).source,
    {
        self.advance();
        let mut value = String::new();
        let len = self.source.len();
        while self.offset < len
            invariant
                self.wf(),
                len == self.len(),
                self.offset > start,
                self.source == old(self).source,
                old(self).tokens_end() <= start,
                self.tokens == old(self).tokens,
            decreases len - self.offset,
        {
            let c = self.source.char_at(self.offset);
            if c == '"' {
                self.advance();
                self.push(TokenKind::String(value), start, self.offset);
                return true;
            } else if c == '\\' {
                self.advance();
                if self.offset == len {
                    break;
                }
                value.push(self.source.char_at(self.offset));
                self.advance();
            } else {
                value.push(c);
                self.advance();
            }
        }
        self.diagnostics.push(
            Diagnostic::error(Span::new(self.source.id, start, len), String::from_str("unterminated string"))
                .with_help(String::from_str("add a closing double quote")),
        );
        false
    }

    /// Reads `!` and the keyword after it.
    fn bang(&mut self, start: usize)
        requires
            old(self).wf(),
            old(self).offset == start,
            start < old(self).len(),
        ensures
            final(self).wf(),
            final(self).offset > start,
            final(self).source == old(self).source,
    {
        self.advance();
        let value_start = self.offset;
        let len = self.source.len();
        while self.offset < len && is_identifier(self.source.char_at(self.offset))
            invariant
                self.wf(),
                len == self.len(),
                value_start <= self.offset,
                value_start == start + 1,
                self.source == old(self).source,
                self.tokens == old(self).tokens,
                old(self).tokens_end() <= start,
            decreases len - self.offset,
        {
            self.advance();
        }
        if value_start == self.offset {
            self.diagnostics.push(Diagnostic::error(
                Span::new(self.source.id, start, self.offset),
                String::from_str("expected a keyword after '!'"),
            ));
        } else {
            let name = self.source.slice(value_start, self.offset);
            self.push(TokenKind::Bang(name), start, self.offset);
        }
    }

    fn identifier(&mut self, start: usize)
        requires
            old(self).wf(),
            old(self).offset == start,
            start < old(self).len(),
            identifier_char(old(self).source@[start as int]),
        ensures
            final(self).wf(),
            final(self).offset > start,
            final(self).source == old(self).source,
    {
        let len = self.source.len();
        while self.offset < len && is_identifier(self.source.char_at(self.offset))
            invariant
                self.wf(),
                len == self.len(),
                start <= self.offset,
                self.offset == start ==> identifier_char(self.source@[start as int]),
                self.source == old(self).source,
                self.tokens == old(self).tokens,
                old(self).tokens_end() <= start,
            decreases len - self.offset,
        {
            self.advance();
        }
        let name = self.source.slice(start, self.offset);
        self.push(TokenKind::Identifier(name), start, self.offset);
    }

    fn skip_comment(&mut self)
        requires
            old(self).wf(),
            old(self).offset < old(self).len(),
            old(self).source@[old(self).offset as int] != '\n',
        ensures
            final(self).wf(),
            final(self).offset > old(self).offset,
            final(self).source == old(self).source,
    {
        let len = self.source.len();
        while self.offset < len && self.source.char_at(self.offset) != '\n'
            invariant
                self.wf(),
                len == self.len(),
                self.offset >= old(self).offset,
                self.offset == old(self).offset ==> self.source@[self.offset as int] != '\n',
                self.source == old(self).source,
            decreases len - self.offset,
        {
            self.advance();
        }
    }

    /// After a colour keyword, `#` and six hexadecimal digits form one identifier.
    fn color(&mut self) -> (taken: bool)
        requires
            old(self).wf(),
            old(self).offset < old(self).len(),
        ensures
            final(self).wf(),
            final(self).source == old(self).source,
            taken ==> final(self).offset > old(self).offset,
            !taken ==> *final(self) == *old(self),
            taken == color_here(old(self).tokens@, old(self).source@, old(self).offset as int),
            taken ==> final(self).offset == old(self).offset + 7 && final(self).tokens@.len() == old(self).tokens@.len() + 1
                && final(self).tokens@.last().kind == TokenKind::Identifier(final(self).tokens@.last().kind->Identifier_0)
                && final(self).tokens@.last().kind->Identifier_0@ == old(self).source@.subrange(old(self).offset as int, old(self).offset + 7),
    {
        let n = self.tokens.len();
        if n == 0 {
            return false;
        }
        let keyword = match &self.tokens[n - 1].kind {
            TokenKind::Identifier(name) => {
                ieq(name.as_str(), "background") || ieq(name.as_str(), "color")
                    || ieq(name.as_str(), "colour") || ieq(name.as_str(), "stroke")
            },
            _ => false,
        };
        if !keyword {
            return false;
        }
        let start = self.offset;
        if self.source.len() - start < 7 {
            return false;
        }
        let mut k: usize = 1;
        while k < 7
            invariant
                1 <= k <= 7,
                start + 7 <= self.len(),
                self.wf(),
                *self == *old(self),
                start == self.offset,
                forall|j: int| 1 <= j < k ==> crate::chars::hex_digit(#[trigger] self.source@[start + j]),
            decreases 7 - k,
        {
            if !is_hex_digit(self.source.char_at(start + k)) {
                assert(!crate::chars::hex_digit(self.source@[start + k]));
                return false;
            }
            k = k + 1;
        }
        self.offset = start + 7;
        let name = self.source.slice(start, self.offset);
        self.push(TokenKind::Identifier(name), start, self.offset);
        true
    }

    /// `!` starts a directive at the beginning of a line.
    fn directive_position(&self) -> (r: bool) {
        let n = self.tokens.len();
        n == 0 || match self.tokens[n - 1].kind { TokenKind::Newline => true, _ => false }
    }
}

} // verus!
