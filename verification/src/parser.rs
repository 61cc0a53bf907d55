use vstd::prelude::*;
use crate::diagnostic::{render_all, Diagnostic};
use crate::handwritten_parser;
use crate::lexer;
use crate::model::Workspace;
use crate::source::{SourceId, SourceMap};

verus! {

/// Lexes and parses the text `source_id` of `sources` into a workspace whose identifiers
/// default to `identifiers`. Lexical errors come back rendered; so do syntax errors.
pub fn parse(sources: &SourceMap, source_id: SourceId, identifiers: &str) -> (r: Result<Workspace, String>)
    requires
        sources.wf(),
        source_id.0 < sources.len(),
    ensures
        match r {
            Ok(w) => w.wf() && w.source_map.len() == sources.len(),
            Err(m) => exists|ds: Seq<Diagnostic>| ds.len() > 0 && crate::diagnostic::all_in(ds, sources)
                && m@ == crate::validate::report_text(ds, *sources),
        },
{
    let source = sources.get(source_id);
    proof {
        sources.lemma_file(source_id.0 as int);
    }
    let tokens = match lexer::lex(source) {
        Ok(tokens) => tokens,
        Err(diagnostics) => {
            assert forall|i: int| 0 <= i < diagnostics@.len() implies sources.has(#[trigger] diagnostics@[i].span) by {
                assert(diagnostics@[i].span.source_id == source.id);
            }
            let message = render_all(diagnostics.as_slice(), sources);
            assert(message@ == crate::validate::report_text(diagnostics@, *sources));
            return Err(message);
        },
    };
    proof {
        assert(sources.file(source_id.0 as int).id == source_id);
        assert forall|i: int| 0 <= i < tokens@.len() implies crate::model::sp((#[trigger] tokens@[i]).span, sources.len()) by {
            assert(tokens@[i].span.source_id == source.id);
        }
    }
    handwritten_parser::parse(sources, source_id, tokens, identifiers)
}

/// Combines the parse with the outcome of a separate syntax check of the same text: a parse
/// error comes first; then a syntax error, rendered; else the parsed workspace.
pub fn parse_with_syntax_check(sources: &SourceMap, source_id: SourceId, identifiers: &str, syntax: Result<(), Diagnostic>)
    -> (r: Result<Workspace, String>)
    requires
        sources.wf(),
        source_id.0 < sources.len(),
        syntax matches Err(d) ==> sources.has(d.span),
    ensures
        match r {
            Ok(w) => w.wf() && w.source_map.len() == sources.len() && syntax is Ok,
            Err(_) => true,
        },
{
    let workspace = parse(sources, source_id, identifiers)?;
    match syntax {
        Ok(()) => Ok(workspace),
        Err(diagnostic) => Err(diagnostic.render(sources)),
    }
}

} // verus!
