use vstd::prelude::*;
use vstd::view::View as _;
use crate::diagnostic::{all_in, render_all, Diagnostic};
use crate::model::{CompileOptions, Workspace};
use crate::parser;
use crate::preprocessor;
use crate::source::{SourceId, SourceMap};
use crate::text::{starts_with, seq_eq};
use crate::validate::{archimate_semantic_diagnostics, validate_with_options};

verus! {

/// Parses text `source_id` of `sources` with flat identifiers by default.
pub fn compile_sources(sources: &SourceMap, source_id: SourceId) -> (r: Result<Workspace, String>)
    requires
        sources.wf(),
        source_id.0 < sources.len(),
    ensures
        match r {
            Ok(w) => w.wf() && w.source_map.len() == sources.len(),
            Err(m) => exists|ds: Seq<Diagnostic>| ds.len() > 0 && all_in(ds, sources)
                && m@ == crate::validate::report_text(ds, *sources),
        },
{
    parser::parse(sources, source_id, "flat")
}

/// Adds the ArchiMate conformance warnings of the workspace to its warnings.
pub fn apply_archimate_semantic_warnings(workspace: &mut Workspace)
    requires
        old(workspace).wf(),
    ensures
        final(workspace).wf(),
        final(workspace).elements@ == old(workspace).elements@,
        final(workspace).relationships@ == old(workspace).relationships@,
        final(workspace).views@ == old(workspace).views@,
        final(workspace).warnings@.len() >= old(workspace).warnings@.len(),
{
    let warnings = archimate_semantic_diagnostics(workspace, false);
    let mut i: usize = 0;
    while i < warnings.len()
        invariant
            i <= warnings@.len(),
            all_in(warnings@, &workspace.source_map),
            workspace.wf(),
            workspace.elements@ == old(workspace).elements@,
            workspace.relationships@ == old(workspace).relationships@,
            workspace.views@ == old(workspace).views@,
            workspace.source_map == old(workspace).source_map,
            workspace.warnings@.len() >= old(workspace).warnings@.len(),
        decreases warnings.len() - i,
    {
        let warning = warnings[i].duplicate();
        assert(workspace.source_map.has(warning.span));
        workspace.warnings.push(warning);
        i = i + 1;
    }
}

/// Compiles an in-memory workspace text: preprocessing (no file is read), parsing, and the
/// ArchiMate conformance warnings.
pub fn compile(source: &str) -> (r: Result<Workspace, String>)
    ensures
        match r {
            Ok(w) => w.wf(),
            Err(_) => true,
        },
        crate::preprocessor::plain(source@) ==> (r matches Err(m) ==> exists|ds: Seq<Diagnostic>, sm: SourceMap|
            ds.len() > 0 && all_in(ds, &sm) && m@ == crate::validate::report_text(ds, sm)),
{
    let mut sources = SourceMap::new();
    let preprocessed = preprocessor::text("<memory>", source, &mut sources, false)?;
    let mut workspace = match compile_sources(&sources, preprocessed.source_id) {
        Ok(w) => w,
        Err(m) => {
            return Err(m);
        },
    };
    workspace.dependencies = preprocessed.dependencies;
    let mut i: usize = 0;
    while i < preprocessed.warnings.len()
        invariant
            i <= preprocessed.warnings@.len(),
            forall|j: int| 0 <= j < preprocessed.warnings@.len() ==> sources.has(#[trigger] preprocessed.warnings@[j].span),
            workspace.wf(),
            workspace.source_map.len() == sources.len(),
        decreases preprocessed.warnings.len() - i,
    {
        let warning = preprocessed.warnings[i].duplicate();
        assert(sources.has(preprocessed.warnings@[i as int].span));
        workspace.warnings.push(warning);
        i = i + 1;
    }
    workspace.source_map = sources;
    apply_archimate_semantic_warnings(&mut workspace);
    Ok(workspace)
}

/// The workspace's warnings rendered, or nothing when there are none.
pub fn warnings(workspace: &Workspace) -> (r: Option<String>)
    requires
        workspace.wf(),
    ensures
        r is None <==> workspace.warnings@.len() == 0,
        r matches Some(t) ==> t@ == crate::diagnostic::joined(
            Seq::new(workspace.warnings@.len(), |i: int| crate::diagnostic::rendered(
                workspace.source_map.file(workspace.warnings@[i].span.source_id.0 as int), &workspace.warnings@[i])),
            "\n\n"@),
{
    if workspace.warnings.len() == 0 {
        None
    } else {
        assert forall|i: int| 0 <= i < workspace.warnings@.len() implies workspace.source_map.has(#[trigger] workspace.warnings@[i].span) by {
            assert(crate::model::sp(workspace.warnings@[i].span, workspace.source_map.len()));
        }
        Some(render_all(workspace.warnings.as_slice(), &workspace.source_map))
    }
}

/// Whether a reference is a remote URL.
pub open spec fn remote(s: Seq<char>) -> bool {
    crate::text::has_prefix(s, "http://"@) || crate::text::has_prefix(s, "https://"@)
}

pub fn is_url(value: &str) -> (r: bool)
    ensures
        r == remote(value@),
{
    starts_with(value, "http://") || starts_with(value, "https://")
}

/// No theme, icon, branding logo or branding font is a remote URL.
pub open spec fn no_remote_assets(w: Workspace) -> bool {
    &&& forall|i: int| 0 <= i < w.themes@.len() ==> !remote((#[trigger] w.themes@[i]).source@)
    &&& forall|i: int, j: int| 0 <= i < w.element_styles@.len() && 0 <= j < w.element_styles@[i].values@.len() ==>
        !((#[trigger] w.element_styles@[i].values@[j]).key@ == "icon"@ && remote(w.element_styles@[i].values@[j].value@))
    &&& match w.branding {
        Some(b) => {
            &&& (b.logo matches Some(l) ==> !remote(l.value@))
            &&& forall|i: int| 0 <= i < b.fonts@.len() ==> !((#[trigger] b.fonts@[i]).location matches Some(x) && remote(x@))
        },
        None => true,
    }
}

/// The remote theme references, in order.
pub open spec fn theme_findings(themes: Seq<crate::model::ThemeReference>) -> Seq<(crate::source::Span, Seq<char>)>
    decreases themes.len(),
{
    if themes.len() == 0 {
        Seq::empty()
    } else {
        let rest = theme_findings(themes.drop_last());
        if remote(themes.last().source@) {
            rest.push((themes.last().span, "strict-safe mode rejects remote theme references"@))
        } else {
            rest
        }
    }
}

/// The remote icons among style values, in order.
pub open spec fn icon_value_findings(values: Seq<crate::model::Property>) -> Seq<(crate::source::Span, Seq<char>)>
    decreases values.len(),
{
    if values.len() == 0 {
        Seq::empty()
    } else {
        let rest = icon_value_findings(values.drop_last());
        let p = values.last();
        if p.key@ == "icon"@ && remote(p.value@) {
            rest.push((p.span, "strict-safe mode rejects remote icon references"@))
        } else {
            rest
        }
    }
}

/// The remote icons of the element styles, style by style.
pub open spec fn icon_findings(styles: Seq<crate::model::ElementStyle>) -> Seq<(crate::source::Span, Seq<char>)>
    decreases styles.len(),
{
    if styles.len() == 0 {
        Seq::empty()
    } else {
        icon_findings(styles.drop_last()) + icon_value_findings(styles.last().values@)
    }
}

/// The remote branding fonts, in order.
pub open spec fn font_findings(fonts: Seq<crate::model::BrandingFont>) -> Seq<(crate::source::Span, Seq<char>)>
    decreases fonts.len(),
{
    if fonts.len() == 0 {
        Seq::empty()
    } else {
        let rest = font_findings(fonts.drop_last());
        let f = fonts.last();
        if (f.location matches Some(x) && remote(x@)) {
            rest.push((f.span, "strict-safe mode rejects remote branding fonts"@))
        } else {
            rest
        }
    }
}

/// Everything strict-safe mode rejects: remote themes, icons, the branding logo and fonts.
pub open spec fn strict_findings(w: Workspace) -> Seq<(crate::source::Span, Seq<char>)> {
    theme_findings(w.themes@) + icon_findings(w.element_styles@) + match w.branding {
        Some(b) => logo_findings(b) + font_findings(b.fonts@),
        None => Seq::empty(),
    }
}

/// The branding logo, when it is remote.
pub open spec fn logo_findings(b: crate::model::Branding) -> Seq<(crate::source::Span, Seq<char>)> {
    match b.logo {
        Some(l) => if remote(l.value@) { seq![(l.span, "strict-safe mode rejects remote branding logos"@)] } else { Seq::empty() },
        None => Seq::empty(),
    }
}

/// The findings rendered as errors without help, separated by blank lines.
pub open spec fn findings_text(w: Workspace, fs: Seq<(crate::source::Span, Seq<char>)>) -> Seq<char> {
    crate::diagnostic::joined(Seq::new(fs.len(), |i: int| crate::diagnostic::rendered_text(
        w.source_map.file(fs[i].0.source_id.0 as int), fs[i].0, crate::diagnostic::Severity::Error, fs[i].1, None)), "\n\n"@)
}

/// Whether diagnostics are the findings as errors without help.
pub open spec fn are_findings(ds: Seq<Diagnostic>, fs: Seq<(crate::source::Span, Seq<char>)>) -> bool {
    &&& ds.len() == fs.len()
    &&& forall|k: int| 0 <= k < ds.len() ==> (#[trigger] ds[k]).span == fs[k].0 && ds[k].message@ == fs[k].1
        && ds[k].help is None && ds[k].severity == crate::diagnostic::Severity::Error
}

/// Strict-safe mode: rejects remote themes, icons, branding logos and branding fonts.
pub fn enforce_strict_safe(workspace: &Workspace) -> (r: Result<(), String>)
    requires
        workspace.wf(),
    ensures
        r is Ok <==> no_remote_assets(*workspace),
        r is Ok <==> strict_findings(*workspace).len() == 0,
        r matches Err(m) ==> m@ == findings_text(*workspace, strict_findings(*workspace)),
{
    proof { reveal_strlit("icon"); }
    let sources = &workspace.source_map;
    let mut diagnostics: Vec<Diagnostic> = Vec::new();
    let mut t: usize = 0;
    assert(workspace.themes@.take(0) =~= Seq::<crate::model::ThemeReference>::empty());
    while t < workspace.themes.len()
        invariant
            are_findings(diagnostics@, theme_findings(workspace.themes@.take(t as int))),
            t <= workspace.themes@.len(),
            workspace.wf(),
            sources == &workspace.source_map,
            all_in(diagnostics@, sources),
            (diagnostics@.len() == 0) == (forall|i: int| 0 <= i < t ==> !remote((#[trigger] workspace.themes@[i]).source@)),
        decreases workspace.themes.len() - t,
    {
        let theme = &workspace.themes[t];
        assert(workspace.themes@.take(t + 1).drop_last() =~= workspace.themes@.take(t as int));
        assert(workspace.themes@.take(t + 1).last() == *theme);
        if is_url(theme.source.as_str()) {
            assert(crate::model::sp(workspace.themes@[t as int].span, sources.len()));
            let ghost before = diagnostics@;
            let d = Diagnostic::error(theme.span, String::from_str("strict-safe mode rejects remote theme references"));
            diagnostics.push(d);
            proof { lemma_findings_push(before, theme_findings(workspace.themes@.take(t as int)), d,
                (theme.span, "strict-safe mode rejects remote theme references"@)); }
        }
        t = t + 1;
    }
    assert(workspace.themes@.take(workspace.themes@.len() as int) =~= workspace.themes@);
    let ghost tf = theme_findings(workspace.themes@);
    assert(tf + icon_findings(workspace.element_styles@.take(0)) =~= tf) by {
        assert(workspace.element_styles@.take(0) =~= Seq::<crate::model::ElementStyle>::empty());
    }
    let ghost themes_clean = diagnostics@.len() == 0;
    let mut s: usize = 0;
    while s < workspace.element_styles.len()
        invariant
            s <= workspace.element_styles@.len(),
            workspace.wf(),
            sources == &workspace.source_map,
            all_in(diagnostics@, sources),
            themes_clean == (forall|i: int| 0 <= i < workspace.themes@.len() ==> !remote((#[trigger] workspace.themes@[i]).source@)),
            tf == theme_findings(workspace.themes@),
            are_findings(diagnostics@, tf + icon_findings(workspace.element_styles@.take(s as int))),
            (diagnostics@.len() == 0) == (themes_clean && forall|i: int, j: int| 0 <= i < s && 0 <= j < workspace.element_styles@[i].values@.len() ==>
                !((#[trigger] workspace.element_styles@[i].values@[j]).key@ == "icon"@ && remote(workspace.element_styles@[i].values@[j].value@))),
        decreases workspace.element_styles.len() - s,
    {
        let style = &workspace.element_styles[s];
        assert(crate::model::props_in(workspace.element_styles@[s as int].values@, sources.len())) by {
            assert(crate::model::sp(workspace.element_styles@[s as int].span, sources.len()));
        }
        let ghost before = diagnostics@.len();
        let ghost prefix = tf + icon_findings(workspace.element_styles@.take(s as int));
        assert(workspace.element_styles@.take(s + 1).drop_last() =~= workspace.element_styles@.take(s as int));
        assert(workspace.element_styles@.take(s + 1).last() == *style);
        assert(style.values@.take(0) =~= Seq::<crate::model::Property>::empty());
        assert(prefix + icon_value_findings(style.values@.take(0)) =~= prefix);
        let mut v: usize = 0;
        while v < style.values.len()
            invariant
                are_findings(diagnostics@, prefix + icon_value_findings(style.values@.take(v as int))),
                v <= style.values@.len(),
                style == &workspace.element_styles@[s as int],
                crate::model::props_in(style.values@, sources.len()),
                all_in(diagnostics@, sources),
                diagnostics@.len() >= before,
                (diagnostics@.len() == before) == (forall|j: int| 0 <= j < v ==>
                    !((#[trigger] style.values@[j]).key@ == "icon"@ && remote(style.values@[j].value@))),
            decreases style.values.len() - v,
        {
            let property = &style.values[v];
            assert(style.values@.take(v + 1).drop_last() =~= style.values@.take(v as int));
            assert(style.values@.take(v + 1).last() == *property);
            if seq_eq(property.key.as_str(), "icon") && is_url(property.value.as_str()) {
                assert(crate::model::sp(style.values@[v as int].span, sources.len()));
                let ghost old_d = diagnostics@;
                let d = Diagnostic::error(property.span, String::from_str("strict-safe mode rejects remote icon references"));
                diagnostics.push(d);
                proof {
                    let f = (property.span, "strict-safe mode rejects remote icon references"@);
                    lemma_findings_push(old_d, prefix + icon_value_findings(style.values@.take(v as int)), d, f);
                    assert((prefix + icon_value_findings(style.values@.take(v as int))).push(f)
                        =~= prefix + icon_value_findings(style.values@.take(v + 1)));
                }
            } else {
                assert(prefix + icon_value_findings(style.values@.take(v + 1)) == prefix + icon_value_findings(style.values@.take(v as int)));
            }
            v = v + 1;
        }
        assert(style.values@.take(style.values@.len() as int) =~= style.values@);
        assert(prefix + icon_value_findings(style.values@) =~= tf + icon_findings(workspace.element_styles@.take(s + 1)));
        proof {
            assert forall|i: int, j: int| diagnostics@.len() == 0 && 0 <= i < s + 1 && 0 <= j < workspace.element_styles@[i].values@.len() implies
                !((#[trigger] workspace.element_styles@[i].values@[j]).key@ == "icon"@ && remote(workspace.element_styles@[i].values@[j].value@)) by {
            }
        }
        s = s + 1;
    }
    let ghost styles_clean = diagnostics@.len() == 0;
    assert(workspace.element_styles@.take(workspace.element_styles@.len() as int) =~= workspace.element_styles@);
    let ghost ti = tf + icon_findings(workspace.element_styles@);
    match &workspace.branding {
        Some(branding) => {
            match &branding.logo {
                Some(logo) => {
                    if is_url(logo.value.as_str()) {
                        let ghost old_d = diagnostics@;
                        let d = Diagnostic::error(logo.span, String::from_str("strict-safe mode rejects remote branding logos"));
                        diagnostics.push(d);
                        proof { lemma_findings_push(old_d, ti, d, (logo.span, "strict-safe mode rejects remote branding logos"@)); }
                    }
                },
                None => {},
            }
            let ghost tl = ti + logo_findings(*branding);
            assert(are_findings(diagnostics@, tl)) by {
                match branding.logo {
                    Some(l) => if remote(l.value@) {
                        assert(ti.push((l.span, "strict-safe mode rejects remote branding logos"@)) =~= tl);
                    } else {
                        assert(ti + Seq::<(crate::source::Span, Seq<char>)>::empty() =~= ti);
                    },
                    None => { assert(ti + Seq::<(crate::source::Span, Seq<char>)>::empty() =~= ti); },
                }
            }
            assert(branding.fonts@.take(0) =~= Seq::<crate::model::BrandingFont>::empty());
            assert(tl + font_findings(branding.fonts@.take(0)) =~= tl);
            let ghost before = diagnostics@.len();
            let mut f: usize = 0;
            while f < branding.fonts.len()
                invariant
                    are_findings(diagnostics@, tl + font_findings(branding.fonts@.take(f as int))),
                    f <= branding.fonts@.len(),
                    workspace.wf(),
                    workspace.branding == Some(*branding),
                    sources == &workspace.source_map,
                    all_in(diagnostics@, sources),
                    diagnostics@.len() >= before,
                    (diagnostics@.len() == before) == (forall|i: int| 0 <= i < f ==> !((#[trigger] branding.fonts@[i]).location matches Some(x) && remote(x@))),
                decreases branding.fonts.len() - f,
            {
                let font = &branding.fonts[f];
                let remote_font = match &font.location {
                    Some(x) => is_url(x.as_str()),
                    None => false,
                };
                assert(branding.fonts@.take(f + 1).drop_last() =~= branding.fonts@.take(f as int));
                assert(branding.fonts@.take(f + 1).last() == *font);
                if remote_font {
                    assert(crate::model::sp(branding.fonts@[f as int].span, sources.len()));
                    let ghost old_d = diagnostics@;
                    let d = Diagnostic::error(font.span, String::from_str("strict-safe mode rejects remote branding fonts"));
                    diagnostics.push(d);
                    proof {
                        let x = (font.span, "strict-safe mode rejects remote branding fonts"@);
                        lemma_findings_push(old_d, tl + font_findings(branding.fonts@.take(f as int)), d, x);
                        assert((tl + font_findings(branding.fonts@.take(f as int))).push(x) =~= tl + font_findings(branding.fonts@.take(f + 1)));
                    }
                }
                f = f + 1;
            }
            assert(branding.fonts@.take(branding.fonts@.len() as int) =~= branding.fonts@);
            assert(tl + font_findings(branding.fonts@) =~= strict_findings(*workspace));
        },
        None => {
            assert(ti + Seq::<(crate::source::Span, Seq<char>)>::empty() =~= ti);
        },
    }
    assert(are_findings(diagnostics@, strict_findings(*workspace)));
    if diagnostics.len() == 0 {
        Ok(())
    } else {
        let m = render_all(diagnostics.as_slice(), sources);
        proof {
            let fs = strict_findings(*workspace);
            assert(Seq::new(diagnostics@.len(), |i: int| crate::diagnostic::rendered(sources.file(diagnostics@[i].span.source_id.0 as int), &diagnostics@[i]))
                =~= Seq::new(fs.len(), |i: int| crate::diagnostic::rendered_text(
                    workspace.source_map.file(fs[i].0.source_id.0 as int), fs[i].0, crate::diagnostic::Severity::Error, fs[i].1, None)));
        }
        Err(m)
    }
}

proof fn lemma_findings_push(ds: Seq<Diagnostic>, fs: Seq<(crate::source::Span, Seq<char>)>, d: Diagnostic, f: (crate::source::Span, Seq<char>))
    requires
        are_findings(ds, fs),
        d.span == f.0,
        d.message@ == f.1,
        d.help is None,
        d.severity == crate::diagnostic::Severity::Error,
    ensures
        are_findings(ds.push(d), fs.push(f)),
{
    assert forall|k: int| 0 <= k < ds.push(d).len() implies (#[trigger] ds.push(d)[k]).span == fs.push(f)[k].0
        && ds.push(d)[k].message@ == fs.push(f)[k].1 && ds.push(d)[k].help is None
        && ds.push(d)[k].severity == crate::diagnostic::Severity::Error by {
        if k < ds.len() {
            assert(ds.push(d)[k] == ds[k]);
            assert(fs.push(f)[k] == fs[k]);
        }
    }
}

/// Applies the compile options that act on a compiled workspace: strict-safe asset checks,
/// then, under `strict`, validation with ArchiMate conformance findings as errors.
pub fn finish_compile(workspace: &Workspace, options: CompileOptions) -> (r: Result<(), String>)
    requires
        workspace.wf(),
    ensures
        r is Ok ==> (options.strict_safe ==> no_remote_assets(*workspace)),
        options.strict_safe && !no_remote_assets(*workspace) ==>
            (r matches Err(m) && m@ == findings_text(*workspace, strict_findings(*workspace))),
        !options.strict_safe && !options.strict ==> r is Ok,
        options.strict && (!options.strict_safe || no_remote_assets(*workspace)) && crate::validate::bare(*workspace) ==> r is Ok,
        options.strict && r is Ok ==> {
            &&& crate::validate::unique_ids(*workspace)
            &&& crate::validate::parents_fit(*workspace)
            &&& crate::validate::references_fit(*workspace)
            &&& crate::validate::endpoints_prior(*workspace)
            &&& crate::validate::unique_relationship_ids(*workspace)
            &&& crate::validate::removals_matched(*workspace)
            &&& crate::validate::unique_view_keys(*workspace)
        },
        options.strict && (!options.strict_safe || no_remote_assets(*workspace)) ==> (r matches Err(m) ==>
            exists|ds: Seq<Diagnostic>| ds.len() > 0 && all_in(ds, &workspace.source_map)
                && m@ == crate::validate::report_text(ds, workspace.source_map)),
{
    if options.strict_safe {
        enforce_strict_safe(workspace)?;
    }
    if options.strict {
        validate_with_options(workspace, crate::model::ValidationOptions { strict_archimate: true })?;
    }
    Ok(())
}

/// What to do with a workspace's `extends` clause.
#[derive(Debug)]
pub enum ExtensionStep {
    /// The workspace extends nothing.
    Standalone,
    /// The extension cannot be followed; the rendered diagnostic says why.
    Refused(String),
    /// The workspace extends the local file at this path, relative to its own directory.
    Base(String),
}

/// Why an extension target is refused: a remote target is not fetched (with or without
/// network access allowed), a JSON workspace is not read.
pub open spec fn refusal_message(target: Seq<char>, allow_network: bool) -> Seq<char> {
    if remote(target) {
        if allow_network {
            "remote workspace extension is not implemented in M3; no network request was made"@
        } else {
            "remote workspace extension is disabled; pass --allow-network when support is added"@
        }
    } else {
        "JSON workspace extension is not implemented in M3"@
    }
}

/// The help given with a refused extension target.
pub open spec fn refusal_help(target: Seq<char>) -> Seq<char> {
    if remote(target) { "extend a local .dsl file in M3"@ } else { "extend a local Structurizr DSL file"@ }
}

/// Decides on an `extends` clause: remote targets and JSON workspaces are refused, a local
/// DSL file is followed.
pub fn extension_step(workspace: &Workspace, allow_network: bool) -> (r: ExtensionStep)
    requires
        workspace.wf(),
    ensures
        match workspace.extension {
            None => r is Standalone,
            Some(e) => if remote(e.target@) || crate::text::has_suffix(e.target@, ".json"@) {
                r matches ExtensionStep::Refused(m) && m@ == crate::diagnostic::rendered_text(
                    workspace.source_map.file(e.span.source_id.0 as int), e.span, crate::diagnostic::Severity::Error,
                    refusal_message(e.target@, allow_network), Some(refusal_help(e.target@)))
            } else {
                r matches ExtensionStep::Base(t) && t@ == e.target@
            },
        },
{
    match &workspace.extension {
        None => ExtensionStep::Standalone,
        Some(extension) => {
            assert(workspace.source_map.has(extension.span));
            if is_url(extension.target.as_str()) {
                let message = if allow_network {
                    "remote workspace extension is not implemented in M3; no network request was made"
                } else {
                    "remote workspace extension is disabled; pass --allow-network when support is added"
                };
                let diagnostic = Diagnostic::error(extension.span, String::from_str(message))
                    .with_help(String::from_str("extend a local .dsl file in M3"));
                ExtensionStep::Refused(diagnostic.render(&workspace.source_map))
            } else if crate::text::ends_with(extension.target.as_str(), ".json") {
                let diagnostic = Diagnostic::error(extension.span, String::from_str("JSON workspace extension is not implemented in M3"))
                    .with_help(String::from_str("extend a local Structurizr DSL file"));
                ExtensionStep::Refused(diagnostic.render(&workspace.source_map))
            } else {
                ExtensionStep::Base(extension.target.clone())
            }
        },
    }
}

/// The identifier mode to parse an extending workspace with again: the base's, when the
/// extending workspace names none of its own and its mode differs from the base's.
pub fn base_identifiers(derived: &Workspace, base: &Workspace) -> (r: Option<String>)
    ensures
        match r {
            Some(ids) => !derived.identifiers_explicit && derived.identifiers@ != base.identifiers@ && ids@ == base.identifiers@,
            None => derived.identifiers_explicit || derived.identifiers@ == base.identifiers@,
        },
{
    if !derived.identifiers_explicit && !seq_eq(derived.identifiers.as_str(), base.identifiers.as_str()) {
        Some(base.identifiers.clone())
    } else {
        None
    }
}

/// Whether `canonical` is already being compiled: following it would be an extension cycle.
pub fn extension_cycle(stack: &Vec<String>, canonical: &str) -> (r: bool)
    ensures
        r == exists|i: int| 0 <= i < stack@.len() && (#[trigger] stack@[i])@ == canonical@,
{
    let mut i: usize = 0;
    while i < stack.len()
        invariant
            i <= stack@.len(),
            forall|j: int| 0 <= j < i ==> (#[trigger] stack@[j])@ != canonical@,
        decreases stack.len() - i,
    {
        if seq_eq(stack[i].as_str(), canonical) {
            return true;
        }
        i = i + 1;
    }
    false
}

} // verus!
