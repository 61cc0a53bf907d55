use vstd::prelude::*;
use vstd::view::View as _;
use crate::archimate::archimate_element_kind;
use crate::chars::{is_alphanumeric, to_lowercase};
use crate::diagnostic::{Diagnostic, all_in, render_all};
use crate::lexer::{Token, TokenKind};
use crate::model::{
    AnimationStep, AutoLayout, Branding, BrandingFont, Directive, DynamicRelationship, Element,
    ElementKind, ElementStyle, FilterMode, Group, HealthCheck, ImageSource, NamedBlock,
    PreservedBlock, Property, Reference, Relationship, RelationshipStyle, RemovedRelationship,
    StyleMode, ThemeReference, View, ViewFilter, ViewKind, ViewSelector, Workspace,
    WorkspaceExtension, sp, props_in, refs_in, warnings_in, opt_ref_in,
};
use crate::source::{SourceId, SourceMap, Span};
use crate::text::{ieq, seq_eq, cat, cat3, cat5, starts_with, ends_with, chars_of, string_of, trim_bounds, contains, contains_char, usize_to_string};

verus! {

/// Builds a workspace from the tokens of text `source_id`. Any syntax error fails the whole
/// text, with every error found rendered.
pub fn parse(sources: &SourceMap, source_id: SourceId, tokens: Vec<Token>, identifiers: &str) -> (r: Result<Workspace, String>)
    requires
        sources.wf(),
        source_id.0 < sources.len(),
        well_formed_tokens(tokens@, sources.len()),
        forall|i: int| 0 <= i < tokens@.len() ==> (#[trigger] tokens@[i]).span.source_id == source_id,
    ensures
        match r {
            Ok(w) => {
                &&& w.wf()
                &&& w.source_map.len() == sources.len()
            },
            Err(m) => exists|ds: Seq<crate::diagnostic::Diagnostic>| ds.len() > 0 && crate::diagnostic::all_in(ds, sources)
                && m@ == crate::validate::report_text(ds, *sources),
        },
{
    let mut parser = Parser::new(sources.duplicate(), source_id, tokens, identifiers);
    parser.parse_workspace();
    if parser.diagnostics.len() == 0 {
        Ok(parser.workspace)
    } else {
        let message = render_all(parser.diagnostics.as_slice(), sources);
        assert(message@ == crate::validate::report_text(parser.diagnostics@, *sources));
        Err(message)
    }
}

/// Tokens as the lexer hands them over: at least one, ending in the only end-of-file token,
/// all inside the first `n` texts.
pub open spec fn well_formed_tokens(tokens: Seq<Token>, n: nat) -> bool {
    &&& tokens.len() > 0
    &&& tokens.last().kind is Eof
    &&& forall|i: int| 0 <= i < tokens.len() - 1 ==> !((#[trigger] tokens[i]).kind is Eof)
    &&& forall|i: int| 0 <= i < tokens.len() ==> sp((#[trigger] tokens[i]).span, n)
}

#[derive(Clone, Copy)]
enum TokenTag {
    Identifier,
    LeftBrace,
    RightBrace,
    Equals,
    Arrow,
    RemoveArrow,
    Star,
    Newline,
    Eof,
}

spec fn tag_matches(kind: TokenKind, tag: TokenTag) -> bool {
    match (kind, tag) {
        (TokenKind::Identifier(_), TokenTag::Identifier) => true,
        (TokenKind::LeftBrace, TokenTag::LeftBrace) => true,
        (TokenKind::RightBrace, TokenTag::RightBrace) => true,
        (TokenKind::Equals, TokenTag::Equals) => true,
        (TokenKind::Arrow, TokenTag::Arrow) => true,
        (TokenKind::RemoveArrow, TokenTag::RemoveArrow) => true,
        (TokenKind::Star, TokenTag::Star) => true,
        (TokenKind::Newline, TokenTag::Newline) => true,
        (TokenKind::Eof, TokenTag::Eof) => true,
        _ => false,
    }
}

fn token_is(kind: &TokenKind, tag: TokenTag) -> (r: bool)
    ensures
        r == tag_matches(*kind, tag),
{
    match (kind, tag) {
        (TokenKind::Identifier(_), TokenTag::Identifier) => true,
        (TokenKind::LeftBrace, TokenTag::LeftBrace) => true,
        (TokenKind::RightBrace, TokenTag::RightBrace) => true,
        (TokenKind::Equals, TokenTag::Equals) => true,
        (TokenKind::Arrow, TokenTag::Arrow) => true,
        (TokenKind::RemoveArrow, TokenTag::RemoveArrow) => true,
        (TokenKind::Star, TokenTag::Star) => true,
        (TokenKind::Newline, TokenTag::Newline) => true,
        (TokenKind::Eof, TokenTag::Eof) => true,
        _ => false,
    }
}

/// An argument's value unless it is empty.
fn optional_argument(argument: Option<&(String, Span)>) -> (r: Option<String>)
    ensures
        match argument {
            Some(a) => if a.0@.len() > 0 { r matches Some(v) && v@ == a.0@ } else { r is None },
            None => r is None,
        },
{
    match argument {
        Some(a) => {
            if a.0.as_str().unicode_len() > 0 {
                Some(a.0.clone())
            } else {
                None
            }
        },
        None => None,
    }
}

pub open spec fn args_in(arguments: Seq<(String, Span)>, n: nat) -> bool {
    forall|i: int| 0 <= i < arguments.len() ==> sp((#[trigger] arguments[i]).1, n)
}

/// Non-empty arguments paired with the names at their positions.
fn argument_properties(arguments: &Vec<(String, Span)>, names: &[&str]) -> (r: Vec<Property>)
    ensures
        forall|n: nat| args_in(arguments@, n) ==> props_in(r@, n),
        r@.len() <= arguments@.len(),
{
    let mut r: Vec<Property> = Vec::new();
    let mut i: usize = 0;
    while i < arguments.len() && i < names.len()
        invariant
            i <= arguments@.len(),
            r@.len() <= i,
            forall|k: int| 0 <= k < r@.len() ==> exists|j: int| 0 <= j < i && (#[trigger] r@[k]).span == (#[trigger] arguments@[j]).1,
        decreases arguments@.len() - i,
    {
        if arguments[i].0.as_str().unicode_len() > 0 {
            r.push(Property {
                key: String::from_str(names[i]),
                value: arguments[i].0.clone(),
                span: arguments[i].1,
            });
            assert(r@[r@.len() - 1].span == arguments@[i as int].1);
        }
        i = i + 1;
    }
    proof {
        assert forall|n: nat| args_in(arguments@, n) implies props_in(r@, n) by {
            assert forall|k: int| 0 <= k < r@.len() implies sp((#[trigger] r@[k]).span, n) by {
                let j = choose|j: int| 0 <= j < i && (#[trigger] r@[k]).span == (#[trigger] arguments@[j]).1;
                assert(sp(arguments@[j].1, n));
            }
        }
    }
    r
}

fn element_argument_properties(kind: &ElementKind, arguments: &Vec<(String, Span)>) -> (r: Vec<Property>)
    ensures
        forall|n: nat| args_in(arguments@, n) ==> props_in(r@, n),
{
    match kind {
        ElementKind::Person | ElementKind::SoftwareSystem => argument_properties(arguments, &["name", "description", "tags"]),
        ElementKind::Container | ElementKind::Component | ElementKind::InfrastructureNode => argument_properties(arguments, &["name", "description", "technology", "tags"]),
        ElementKind::Generic => argument_properties(arguments, &["name", "type", "description", "technology", "tags"]),
        ElementKind::DeploymentNode => argument_properties(arguments, &["name", "description", "technology", "instances", "tags"]),
        ElementKind::SoftwareSystemInstance | ElementKind::ContainerInstance => argument_properties(arguments, &["reference", "deploymentGroups", "tags"]),
        ElementKind::DeploymentEnvironment | ElementKind::DeploymentGroup => argument_properties(arguments, &["name"]),
        ElementKind::ArchiMate(_) => argument_properties(arguments, &["name", "description"]),
    }
}

/// The comma-separated tags of `tags`, trimmed, without empty ones.
pub fn split_tags(tags: &str) -> (r: Vec<String>)
    ensures
        forall|i: int| 0 <= i < r@.len() ==> (#[trigger] r@[i])@.len() > 0 && !r@[i]@.contains(','),
        crate::archi_native::views(r@) == tag_pieces(tags@),
{
    let v = chars_of(tags);
    let mut r: Vec<String> = Vec::new();
    let mut start: usize = 0;
    let mut i: usize = 0;
    assert(crate::archi_native::views(r@) =~= Seq::<Seq<char>>::empty());
    loop
        invariant_except_break
            crate::archi_native::views(r@) == kept_pieces(comma_split(v@.take(i as int)).0),
            v@.subrange(start as int, i as int) == comma_split(v@.take(i as int)).1,
        invariant
            v@ == tags@,
            start <= i,
            i <= v.len(),
            forall|k: int| start <= k < i ==> v@[k] != ',',
            forall|k: int| 0 <= k < r@.len() ==> (#[trigger] r@[k])@.len() > 0 && !r@[k]@.contains(','),
        ensures
            crate::archi_native::views(r@) == tag_pieces(tags@),
        decreases v.len() - i,
    {
        let last = i == v.len();
        if !last {
            assert(v@.take(i + 1).drop_last() =~= v@.take(i as int));
            assert(v@.take(i + 1).last() == v@[i as int]);
        }
        if last || v[i] == ',' {
            let piece = &v.as_slice()[start..i];
            assert(piece@ =~= v@.subrange(start as int, i as int));
            let (a, b) = trim_bounds(piece);
            let ghost before = crate::archi_native::views(r@);
            if a < b {
                let t = string_of(&piece[a..b]);
                assert forall|k: int| 0 <= k < t@.len() implies t@[k] != ',' by {
                    assert(t@[k] == v@[start + a + k]);
                }
                r.push(t);
                assert(crate::archi_native::views(r@) =~= before.push(crate::text::trim_ws(piece@)));
            }
            proof {
                let done = comma_split(v@.take(i as int)).0;
                assert(done.push(piece@).drop_last() =~= done);
                assert(crate::archi_native::views(r@) == kept_pieces(done.push(piece@)));
            }
            if last {
                assert(v@.take(i as int) =~= v@);
                break;
            }
            start = i + 1;
            assert(v@.subrange(start as int, start as int) =~= Seq::<char>::empty());
        } else {
            assert(v@.subrange(start as int, i + 1) =~= v@.subrange(start as int, i as int).push(v@[i as int]));
        }
        i = i + 1;
    }
    r
}

/// The pieces of a text between commas, and the text after the last comma.
pub open spec fn comma_split(s: Seq<char>) -> (Seq<Seq<char>>, Seq<char>)
    decreases s.len(),
{
    if s.len() == 0 {
        (Seq::empty(), Seq::empty())
    } else {
        let (done, current) = comma_split(s.drop_last());
        if s.last() == ',' { (done.push(current), Seq::empty()) } else { (done, current.push(s.last())) }
    }
}

/// The pieces, each trimmed, without those that trim to nothing.
pub open spec fn kept_pieces(ps: Seq<Seq<char>>) -> Seq<Seq<char>>
    decreases ps.len(),
{
    if ps.len() == 0 {
        Seq::empty()
    } else {
        let rest = kept_pieces(ps.drop_last());
        let t = crate::text::trim_ws(ps.last());
        if t.len() > 0 { rest.push(t) } else { rest }
    }
}

/// The tags of a comma-separated list: each piece trimmed, empty ones left out.
pub open spec fn tag_pieces(s: Seq<char>) -> Seq<Seq<char>> {
    kept_pieces(comma_split(s).0.push(comma_split(s).1))
}

/// Whether a token is an identifier equal to `k`, ASCII case-insensitively.
pub open spec fn word_is(t: TokenKind, k: Seq<char>) -> bool {
    match t {
        TokenKind::Identifier(v) => crate::text::eq_ignore_case(v@, k),
        _ => false,
    }
}

/// The element kind a keyword token names, compared ASCII case-insensitively.
pub open spec fn element_kind_word(t: TokenKind) -> Option<ElementKind> {
    if word_is(t, "person"@) { Some(ElementKind::Person) } else if word_is(t, "softwareSystem"@) { Some(ElementKind::SoftwareSystem) } else if word_is(t, "container"@) { Some(ElementKind::Container) } else if word_is(t, "component"@) { Some(ElementKind::Component) } else if word_is(t, "element"@) { Some(ElementKind::Generic) } else if word_is(t, "deploymentEnvironment"@) { Some(ElementKind::DeploymentEnvironment) } else if word_is(t, "deploymentGroup"@) { Some(ElementKind::DeploymentGroup) } else if word_is(t, "deploymentNode"@) { Some(ElementKind::DeploymentNode) } else if word_is(t, "infrastructureNode"@) { Some(ElementKind::InfrastructureNode) } else if word_is(t, "softwareSystemInstance"@) { Some(ElementKind::SoftwareSystemInstance) } else if word_is(t, "containerInstance"@) { Some(ElementKind::ContainerInstance) } else { None }
}

/// The view object property a keyword token names.
pub open spec fn object_property_word(t: TokenKind) -> Option<Seq<char>> {
    if word_is(t, "x"@) { Some("x"@) } else if word_is(t, "y"@) { Some("y"@) } else if word_is(t, "width"@) { Some("width"@) } else if word_is(t, "height"@) { Some("height"@) } else if word_is(t, "background"@) { Some("background"@) } else if word_is(t, "color"@) { Some("color"@) } else if word_is(t, "colour"@) { Some("colour"@) } else if word_is(t, "stroke"@) { Some("stroke"@) } else if word_is(t, "fontSize"@) { Some("fontSize"@) } else { None }
}

/// The terminology entry a keyword token names.
pub open spec fn terminology_word(t: TokenKind) -> Option<Seq<char>> {
    if word_is(t, "person"@) { Some("person"@) } else if word_is(t, "softwareSystem"@) { Some("softwareSystem"@) } else if word_is(t, "container"@) { Some("container"@) } else if word_is(t, "component"@) { Some("component"@) } else if word_is(t, "deploymentNode"@) { Some("deploymentNode"@) } else if word_is(t, "infrastructureNode"@) { Some("infrastructureNode"@) } else if word_is(t, "relationship"@) { Some("relationship"@) } else if word_is(t, "metadata"@) { Some("metadata"@) } else { None }
}

/// The element style property a keyword token names.
pub open spec fn element_style_word(t: TokenKind) -> Option<Seq<char>> {
    if word_is(t, "shape"@) { Some("shape"@) } else if word_is(t, "icon"@) { Some("icon"@) } else if word_is(t, "width"@) { Some("width"@) } else if word_is(t, "height"@) { Some("height"@) } else if word_is(t, "background"@) { Some("background"@) } else if word_is(t, "color"@) { Some("color"@) } else if word_is(t, "colour"@) { Some("colour"@) } else if word_is(t, "stroke"@) { Some("stroke"@) } else if word_is(t, "strokeWidth"@) { Some("strokeWidth"@) } else if word_is(t, "fontSize"@) { Some("fontSize"@) } else if word_is(t, "border"@) { Some("border"@) } else if word_is(t, "opacity"@) { Some("opacity"@) } else if word_is(t, "metadata"@) { Some("metadata"@) } else if word_is(t, "description"@) { Some("description"@) } else { None }
}

/// The relationship style property a keyword token names.
pub open spec fn relationship_style_word(t: TokenKind) -> Option<Seq<char>> {
    if word_is(t, "thickness"@) { Some("thickness"@) } else if word_is(t, "color"@) { Some("color"@) } else if word_is(t, "colour"@) { Some("colour"@) } else if word_is(t, "style"@) { Some("style"@) } else if word_is(t, "routing"@) { Some("routing"@) } else if word_is(t, "jump"@) { Some("jump"@) } else if word_is(t, "fontSize"@) { Some("fontSize"@) } else if word_is(t, "width"@) { Some("width"@) } else if word_is(t, "position"@) { Some("position"@) } else if word_is(t, "opacity"@) { Some("opacity"@) } else { None }
}

/// The ArchiMate element property a keyword token names.
pub open spec fn archimate_property_word(t: TokenKind) -> Option<Seq<char>> {
    if word_is(t, "background"@) { Some("background"@) } else if word_is(t, "color"@) { Some("color"@) } else if word_is(t, "colour"@) { Some("colour"@) } else if word_is(t, "stroke"@) { Some("stroke"@) } else if word_is(t, "fontSize"@) { Some("fontSize"@) } else if word_is(t, "width"@) { Some("width"@) } else if word_is(t, "height"@) { Some("height"@) } else if word_is(t, "kind"@) { Some("kind"@) } else { None }
}

/// Whether a token ends a run of raw arguments: a brace, a line break or the end.
pub open spec fn raw_stop(t: TokenKind) -> bool {
    t is LeftBrace || t is RightBrace || t is Newline || t is Eof
}

/// The alphanumeric characters of a text, in order.
pub open spec fn alphanumerics(s: Seq<char>) -> Seq<char>
    decreases s.len(),
{
    if s.len() == 0 {
        Seq::empty()
    } else if crate::chars::unicode_alphanumeric(s.last()) {
        alphanumerics(s.drop_last()).push(s.last())
    } else {
        alphanumerics(s.drop_last())
    }
}

/// The identifier an element gets from its name: its alphanumeric characters, lower-cased.
fn slug(value: &str) -> (r: String)
    ensures
        r@ == crate::chars::unicode_lowercase(alphanumerics(value@)),
{
    let v = chars_of(value);
    let mut kept = String::new();
    let mut i: usize = 0;
    while i < v.len()
        invariant
            i <= v.len(),
            v@ == value@,
            kept@ == alphanumerics(v@.take(i as int)),
        decreases v.len() - i,
    {
        assert(v@.take(i + 1).drop_last() =~= v@.take(i as int));
        assert(v@.take(i + 1).last() == v@[i as int]);
        if is_alphanumeric(v[i]) {
            kept.push(v[i]);
        }
        i = i + 1;
    }
    assert(v@.take(v@.len() as int) =~= v@);
    to_lowercase(kept.as_str())
}

fn element_label(kind: &ElementKind) -> (r: &'static str) {
    match kind {
        ElementKind::Person => "person",
        ElementKind::SoftwareSystem => "software system",
        ElementKind::Container => "container",
        ElementKind::Component => "component",
        ElementKind::Generic => "element",
        ElementKind::DeploymentEnvironment => "deployment environment",
        ElementKind::DeploymentGroup => "deployment group",
        ElementKind::DeploymentNode => "deployment node",
        ElementKind::InfrastructureNode => "infrastructure node",
        ElementKind::SoftwareSystemInstance => "software system instance",
        ElementKind::ContainerInstance => "container instance",
        ElementKind::ArchiMate(_) => "ArchiMate element",
    }
}

fn maximum_arguments(kind: &ElementKind) -> (r: usize) {
    match kind {
        ElementKind::Person | ElementKind::SoftwareSystem => 3,
        ElementKind::Container | ElementKind::Component | ElementKind::InfrastructureNode => 4,
        ElementKind::Generic | ElementKind::DeploymentNode => 5,
        ElementKind::SoftwareSystemInstance | ElementKind::ContainerInstance => 3,
        ElementKind::DeploymentEnvironment | ElementKind::DeploymentGroup => 1,
        ElementKind::ArchiMate(_) => 2,
    }
}

fn view_label(kind: &ViewKind) -> (r: &'static str) {
    match kind {
        ViewKind::SystemLandscape => "systemLandscape",
        ViewKind::SystemContext => "systemContext",
        ViewKind::Container => "container",
        ViewKind::Component => "component",
        ViewKind::Filtered => "filtered",
        ViewKind::Dynamic => "dynamic",
        ViewKind::Deployment => "deployment",
        ViewKind::Custom => "custom",
        ViewKind::Image => "image",
        ViewKind::ArchiMate => "archimateView",
    }
}

fn requires_scope(kind: &ViewKind) -> (r: bool) {
    match kind {
        ViewKind::SystemContext | ViewKind::Container | ViewKind::Component | ViewKind::Dynamic
        | ViewKind::Deployment | ViewKind::Image => true,
        _ => false,
    }
}

/// Whether `value` starts with "http://" or "https://".
pub fn is_remote_url(value: &str) -> (r: bool)
    ensures
        r == (crate::text::has_prefix(value@, "http://"@) || crate::text::has_prefix(value@, "https://"@)),
{
    starts_with(value, "http://") || starts_with(value, "https://")
}

/// How a token reads in a message.
pub open spec fn token_words(kind: TokenKind) -> Seq<char> {
    match kind {
        TokenKind::Identifier(value) => value@,
        TokenKind::Bang(value) => "!"@ + value@,
        TokenKind::String(value) => "\""@ + value@ + "\""@,
        TokenKind::LeftBrace => "{"@,
        TokenKind::RightBrace => "}"@,
        TokenKind::Equals => "="@,
        TokenKind::DoubleEquals => "=="@,
        TokenKind::NotEquals => "!="@,
        TokenKind::And => "&&"@,
        TokenKind::Or => "||"@,
        TokenKind::Not => "!"@,
        TokenKind::LeftParen => "("@,
        TokenKind::RightParen => ")"@,
        TokenKind::Arrow => "->"@,
        TokenKind::RemoveArrow => "-/>"@,
        TokenKind::Star => "*"@,
        TokenKind::ReluctantStar => "*?"@,
        TokenKind::Newline => "newline"@,
        TokenKind::Eof => "end of file"@,
    }
}

/// How a token reads in a message.
fn token_text(kind: &TokenKind) -> (r: String)
    ensures
        r@ == token_words(*kind),
{
    match kind {
        TokenKind::Identifier(value) => value.clone(),
        TokenKind::Bang(value) => cat("!", value.as_str()),
        TokenKind::String(value) => cat3("\"", value.as_str(), "\""),
        TokenKind::LeftBrace => String::from_str("{"),
        TokenKind::RightBrace => String::from_str("}"),
        TokenKind::Equals => String::from_str("="),
        TokenKind::DoubleEquals => String::from_str("=="),
        TokenKind::NotEquals => String::from_str("!="),
        TokenKind::And => String::from_str("&&"),
        TokenKind::Or => String::from_str("||"),
        TokenKind::Not => String::from_str("!"),
        TokenKind::LeftParen => String::from_str("("),
        TokenKind::RightParen => String::from_str(")"),
        TokenKind::Arrow => String::from_str("->"),
        TokenKind::RemoveArrow => String::from_str("-/>"),
        TokenKind::Star => String::from_str("*"),
        TokenKind::ReluctantStar => String::from_str("*?"),
        TokenKind::Newline => String::from_str("newline"),
        TokenKind::Eof => String::from_str("end of file"),
    }
}

/// Whether a whitespace-separated word of `value` starts with an evaluated expression field.
fn supported_view_expression(value: &str) -> (r: bool) {
    let v = chars_of(value);
    let mut start: usize = 0;
    let mut i: usize = 0;
    loop
        invariant
            start <= i,
            i <= v.len(),
        decreases v.len() - i,
    {
        let last = i == v.len();
        if last || crate::chars::is_whitespace(v[i]) {
            if start < i {
                let word = string_of(&v.as_slice()[start..i]);
                let w = word.as_str();
                if starts_with(w, "element.tag") || starts_with(w, "element.type")
                    || starts_with(w, "element.properties.") || starts_with(w, "relationship.tag")
                    || starts_with(w, "relationship.properties.")
                {
                    return true;
                }
            }
            if last {
                break;
            }
            start = i + 1;
        }
        i = i + 1;
    }
    false
}

/// The field of an element or relationship that a property statement sets.
enum Field {
    Description,
    Technology,
    Tag,
    Tags,
    Url,
    Instances,
    Other,
}

struct InlineProperties {
    description: Option<String>,
    technology: Option<String>,
    tags: Vec<String>,
    instances: Option<String>,
    element_type: Option<String>,
    deployment_groups: Vec<Reference>,
}

/// The names of the positional values of an element statement.
pub enum ArgName {
    Name,
    Description,
    Technology,
    Tags,
    Type,
    Instances,
    Reference,
    DeploymentGroups,
}

/// The positional values of an element statement of each kind, by name.
pub open spec fn argument_names(kind: ElementKind) -> Seq<ArgName> {
    match kind {
        ElementKind::Person | ElementKind::SoftwareSystem => seq![ArgName::Name, ArgName::Description, ArgName::Tags],
        ElementKind::Container | ElementKind::Component | ElementKind::InfrastructureNode =>
            seq![ArgName::Name, ArgName::Description, ArgName::Technology, ArgName::Tags],
        ElementKind::Generic => seq![ArgName::Name, ArgName::Type, ArgName::Description, ArgName::Technology, ArgName::Tags],
        ElementKind::DeploymentNode =>
            seq![ArgName::Name, ArgName::Description, ArgName::Technology, ArgName::Instances, ArgName::Tags],
        ElementKind::SoftwareSystemInstance | ElementKind::ContainerInstance =>
            seq![ArgName::Reference, ArgName::DeploymentGroups, ArgName::Tags],
        ElementKind::DeploymentEnvironment | ElementKind::DeploymentGroup => seq![ArgName::Name],
        ElementKind::ArchiMate(_) => seq![ArgName::Name, ArgName::Description],
    }
}

/// Where `n` stands among `names`, looking from position `k` on.
pub open spec fn position_of(names: Seq<ArgName>, n: ArgName, k: int) -> Option<int>
    decreases names.len() - k,
{
    if k < 0 || k >= names.len() {
        None
    } else if names[k] == n {
        Some(k)
    } else {
        position_of(names, n, k + 1)
    }
}

/// The non-empty value a statement gives at position `i`.
pub open spec fn value_at(arguments: Seq<(String, Span)>, i: int) -> Option<Seq<char>> {
    if 0 <= i < arguments.len() && arguments[i].0@.len() > 0 { Some(arguments[i].0@) } else { None }
}

/// The non-empty value an element statement of `kind` gives for `n`.
pub open spec fn named_value(kind: ElementKind, arguments: Seq<(String, Span)>, n: ArgName) -> Option<Seq<char>> {
    match position_of(argument_names(kind), n, 0) {
        Some(p) => value_at(arguments, p),
        None => None,
    }
}

/// The tags a statement of `kind` gives inline: the pieces of its value named `tags`.
pub open spec fn inline_tags(kind: ElementKind, arguments: Seq<(String, Span)>) -> Seq<Seq<char>> {
    match named_value(kind, arguments, ArgName::Tags) {
        Some(v) => tag_pieces(v),
        None => Seq::empty(),
    }
}

/// The value named tags is, for every kind that has one, the last positional value, and the
/// name or reference comes first.
pub proof fn tags_come_last(kind: ElementKind)
    ensures
        argument_names(kind).len() > 0,
        argument_names(kind)[0] == ArgName::Name || argument_names(kind)[0] == ArgName::Reference,
        position_of(argument_names(kind), ArgName::Tags, 0) matches Some(p) ==> p == argument_names(kind).len() - 1,
        (kind is Person || kind is SoftwareSystem) ==> position_of(argument_names(kind), ArgName::Tags, 0) == Some(2int)
            && position_of(argument_names(kind), ArgName::Description, 0) == Some(1int),
{
    reveal_with_fuel(position_of, 6);
}

fn tags_at(arguments: &Vec<(String, Span)>, i: usize) -> (r: Vec<String>)
    ensures
        crate::archi_native::views(r@) == match value_at(arguments@, i as int) {
            Some(v) => tag_pieces(v),
            None => Seq::empty(),
        },
{
    match optional_argument(if i < arguments.len() { Some(&arguments[i]) } else { None }) {
        Some(value) => split_tags(value.as_str()),
        None => Vec::new(),
    }
}

fn arg_at(arguments: &Vec<(String, Span)>, i: usize) -> (r: Option<String>)
    ensures
        r is Some ==> i < arguments@.len(),
        crate::archi_layout::text_of(r) == value_at(arguments@, i as int),
{
    optional_argument(if i < arguments.len() { Some(&arguments[i]) } else { None })
}

/// The values an element statement gives by position, by element kind.
fn inline_properties(kind: &ElementKind, arguments: &Vec<(String, Span)>) -> (r: InlineProperties)
    ensures
        forall|n: nat| args_in(arguments@, n) ==> refs_in(r.deployment_groups@, n),
        crate::archi_native::views(r.tags@) == inline_tags(*kind, arguments@),
        (*kind is Person || *kind is SoftwareSystem) ==> crate::archi_native::views(r.tags@) == match value_at(arguments@, 2) {
            Some(v) => tag_pieces(v),
            None => Seq::<Seq<char>>::empty(),
        },
        crate::archi_layout::text_of(r.description) == named_value(*kind, arguments@, ArgName::Description),
        crate::archi_layout::text_of(r.technology) == named_value(*kind, arguments@, ArgName::Technology),
        crate::archi_layout::text_of(r.instances) == named_value(*kind, arguments@, ArgName::Instances),
        crate::archi_layout::text_of(r.element_type) == named_value(*kind, arguments@, ArgName::Type),
{
    proof {
        reveal_with_fuel(position_of, 6);
    }
    match kind {
        ElementKind::Person | ElementKind::SoftwareSystem => InlineProperties {
            description: arg_at(arguments, 1), technology: None, tags: tags_at(arguments, 2),
            instances: None, element_type: None, deployment_groups: Vec::new(),
        },
        ElementKind::Container | ElementKind::Component | ElementKind::InfrastructureNode => InlineProperties {
            description: arg_at(arguments, 1), technology: arg_at(arguments, 2), tags: tags_at(arguments, 3),
            instances: None, element_type: None, deployment_groups: Vec::new(),
        },
        ElementKind::Generic => InlineProperties {
            description: arg_at(arguments, 2), technology: arg_at(arguments, 3), tags: tags_at(arguments, 4),
            instances: None, element_type: arg_at(arguments, 1), deployment_groups: Vec::new(),
        },
        ElementKind::DeploymentNode => InlineProperties {
            description: arg_at(arguments, 1), technology: arg_at(arguments, 2), tags: tags_at(arguments, 4),
            instances: arg_at(arguments, 3), element_type: None, deployment_groups: Vec::new(),
        },
        ElementKind::SoftwareSystemInstance | ElementKind::ContainerInstance => {
            let mut groups: Vec<Reference> = Vec::new();
            if arguments.len() > 1 {
                let names = split_tags(arguments[1].0.as_str());
                let span = arguments[1].1;
                let mut k: usize = 0;
                while k < names.len()
                    invariant
                        k <= names@.len(),
                        arguments@.len() > 1,
                        span == arguments@[1].1,
                        forall|j: int| 0 <= j < groups@.len() ==> (#[trigger] groups@[j]).span == span,
                    decreases names@.len() - k,
                {
                    groups.push(Reference { identifier: names[k].clone(), span });
                    k = k + 1;
                }
            }
            InlineProperties {
                description: None, technology: None, tags: tags_at(arguments, 2),
                instances: None, element_type: None, deployment_groups: groups,
            }
        },
        ElementKind::DeploymentEnvironment | ElementKind::DeploymentGroup => InlineProperties {
            description: None, technology: None, tags: Vec::new(),
            instances: None, element_type: None, deployment_groups: Vec::new(),
        },
        ElementKind::ArchiMate(_) => InlineProperties {
            description: arg_at(arguments, 1), technology: None, tags: Vec::new(),
            instances: None, element_type: None, deployment_groups: Vec::new(),
        },
    }
}

struct Parser {
    tokens: Vec<Token>,
    index: usize,
    order: usize,
    diagnostics: Vec<Diagnostic>,
    workspace: Workspace,
    parent_stack: Vec<String>,
    group_stack: Vec<usize>,
    limit: Ghost<nat>,
    source_id: SourceId,
}

impl Parser {
    spec fn wf(&self) -> bool {
        &&& well_formed_tokens(self.tokens@, self.limit@)
        &&& self.tokens@.len() <= usize::MAX
        &&& self.index < self.tokens@.len()
        &&& self.workspace.source_map.wf()
        &&& self.workspace.source_map.len() == self.limit@
        &&& warnings_in(self.diagnostics@, self.limit@)
        &&& self.workspace.spans_in(self.limit@)
        &&& forall|i: int| 0 <= i < self.group_stack@.len() ==> (#[trigger] self.group_stack@[i]) < self.workspace.groups@.len()
        &&& self.order <= self.index
        &&& self.source_id.0 < self.limit@
        &&& forall|i: int| 0 <= i < self.tokens@.len() ==> (#[trigger] self.tokens@[i]).span.source_id == self.source_id
    }

    /// Argument spans of this parser's text.
    spec fn args_ok(&self, v: Seq<(String, Span)>) -> bool {
        forall|i: int| 0 <= i < v.len() ==> self.ok((#[trigger] v[i]).1)
    }

    /// A span of this parser's text.
    spec fn ok(&self, s: Span) -> bool {
        s.source_id == self.source_id && sp(s, self.limit@)
    }

    /// `self` continues `old`: same tokens, no step back, nothing removed from the model.
    spec fn ext(&self, old: Parser) -> bool {
        &&& self.tokens@ == old.tokens@
        &&& self.limit == old.limit
        &&& self.source_id == old.source_id
        &&& old.index <= self.index
        &&& old.workspace.elements@.len() <= self.workspace.elements@.len()
        &&& old.workspace.relationships@.len() <= self.workspace.relationships@.len()
        &&& old.workspace.groups@.len() <= self.workspace.groups@.len()
        &&& old.workspace.views@.len() <= self.workspace.views@.len()
        &&& old.diagnostics@.len() <= self.diagnostics@.len()
        &&& old.group_stack@ == self.group_stack@
    }

    spec fn cur(&self) -> TokenKind {
        self.tokens@[self.index as int].kind
    }

    spec fn at_end(&self) -> bool {
        self.cur() is Eof
    }

    /// The current token starts a statement: it is no line break, closing brace or end.
    spec fn at_statement(&self) -> bool {
        !(self.cur() is Eof) && !(self.cur() is Newline) && !(self.cur() is RightBrace)
    }

    fn new(sources: SourceMap, source_id: SourceId, tokens: Vec<Token>, identifiers: &str) -> (p: Self)
        requires
            sources.wf(),
            source_id.0 < sources.len(),
            well_formed_tokens(tokens@, sources.len()),
            forall|i: int| 0 <= i < tokens@.len() ==> (#[trigger] tokens@[i]).span.source_id == source_id,
        ensures
            p.wf(),
            p.source_id == source_id,
            p.limit@ == sources.len(),
            p.index == 0,
    {
        let ghost n = sources.len();
        proof { sources.lemma_file(source_id.0 as int); }
        let len = sources.get(source_id).byte_len();
        let token_count = tokens.len();
        assert(tokens@.len() == token_count);
        let mut workspace = Workspace::new(sources, Span::new(source_id, 0, len));
        assert(workspace.spans_in(n));
        workspace.identifiers = String::from_str(identifiers);
        Parser {
            workspace,
            tokens,
            index: 0,
            order: 0,
            diagnostics: Vec::new(),
            parent_stack: Vec::new(),
            group_stack: Vec::new(),
            limit: Ghost(n),
            source_id,
        }
    }

    fn current_span(&self) -> (s: Span)
        requires
            self.wf(),
        ensures
            s == self.tokens@[self.index as int].span,
            self.ok(s),
    {
        self.tokens[self.index].span
    }

    fn at(&self, tag: TokenTag) -> (r: bool)
        requires
            self.wf(),
        ensures
            r == tag_matches(self.cur(), tag),
    {
        token_is(&self.tokens[self.index].kind, tag)
    }

    fn nth_at(&self, offset: usize, tag: TokenTag) -> (r: bool)
        requires
            self.wf(),
        ensures
            r == (self.index + offset < self.tokens@.len() && tag_matches(self.tokens@[self.index + offset].kind, tag)),
    {
        if offset < self.tokens.len() - self.index {
            token_is(&self.tokens[self.index + offset].kind, tag)
        } else {
            false
        }
    }

    fn nth_at_back(&self, offset: usize, tag: TokenTag) -> (r: bool)
        requires
            self.wf(),
    {
        if offset <= self.index {
            token_is(&self.tokens[self.index - offset].kind, tag)
        } else {
            false
        }
    }

    /// Moves past the current token unless it is the end; answers its span.
    fn advance(&mut self) -> (s: Span)
        requires
            old(self).wf(),
        ensures
            final(self).wf(),
            final(self).ext(*old(self)),
            s == old(self).tokens@[old(self).index as int].span,
            old(self).ok(s),
            !old(self).at_end() ==> final(self).index == old(self).index + 1,
            old(self).at_end() ==> final(self).index == old(self).index,
            final(self).workspace == old(self).workspace,
            final(self).diagnostics == old(self).diagnostics,
            final(self).order == old(self).order,
            final(self).parent_stack == old(self).parent_stack,
    {
        let span = self.tokens[self.index].span;
        let eof = match self.tokens[self.index].kind { TokenKind::Eof => true, _ => false };
        if !eof {
            assert(self.index < self.tokens@.len() - 1);
            self.index = self.index + 1;
        }
        span
    }

    fn skip_newlines(&mut self)
        requires
            old(self).wf(),
        ensures
            final(self).wf(),
            final(self).ext(*old(self)),
            !(final(self).cur() is Newline),
            final(self).workspace == old(self).workspace,
            final(self).diagnostics == old(self).diagnostics,
            final(self).order == old(self).order,
            final(self).parent_stack == old(self).parent_stack,
    {
        while self.at(TokenTag::Newline)
            invariant
                self.wf(),
                self.ext(*old(self)),
                self.workspace == old(self).workspace,
                self.diagnostics == old(self).diagnostics,
                self.order == old(self).order,
                self.parent_stack == old(self).parent_stack,
            decreases self.tokens@.len() - self.index,
        {
            self.advance();
        }
    }

    fn error(&mut self, span: Span, message: String, help: Option<&str>)
        requires
            old(self).wf(),
            old(self).ok(span),
        ensures
            final(self).wf(),
            final(self).ext(*old(self)),
            final(self).index == old(self).index,
            final(self).order == old(self).order,
            final(self).workspace == old(self).workspace,
            final(self).parent_stack == old(self).parent_stack,
            final(self).diagnostics@.len() == old(self).diagnostics@.len() + 1,
    {
        let mut diagnostic = Diagnostic::error(span, message);
        match help {
            Some(h) => {
                diagnostic = diagnostic.with_help(String::from_str(h));
            },
            None => {},
        }
        self.diagnostics.push(diagnostic);
    }

    fn warn(&mut self, span: Span, message: String, help: &str)
        requires
            old(self).wf(),
            old(self).ok(span),
        ensures
            final(self).wf(),
            final(self).ext(*old(self)),
            final(self).index == old(self).index,
            final(self).order == old(self).order,
            final(self).diagnostics == old(self).diagnostics,
            final(self).parent_stack == old(self).parent_stack,
            final(self).workspace.elements == old(self).workspace.elements,
            final(self).workspace.groups == old(self).workspace.groups,
            final(self).workspace.identifiers == old(self).workspace.identifiers,
    {
        self.workspace.warnings.push(Diagnostic::warning(span, message).with_help(String::from_str(help)));
    }

    fn at_keyword(&self, keyword: &str) -> (r: bool)
        requires
            self.wf(),
        ensures
            r ==> self.cur() is Identifier,
            r == word_is(self.cur(), keyword@),
    {
        match &self.tokens[self.index].kind {
            TokenKind::Identifier(value) => ieq(value.as_str(), keyword),
            _ => false,
        }
    }

    fn eat_keyword(&mut self, keyword: &str) -> (r: Option<Span>)
        requires
            old(self).wf(),
        ensures
            final(self).wf(),
            final(self).ext(*old(self)),
            r is Some ==> final(self).index == old(self).index + 1,
            r is None ==> final(self).index == old(self).index,
            r matches Some(s) ==> old(self).ok(s),
            final(self).workspace == old(self).workspace,
            final(self).diagnostics == old(self).diagnostics,
            final(self).order == old(self).order,
            final(self).parent_stack == old(self).parent_stack,
    {
        if self.at_keyword(keyword) {
            Some(self.advance())
        } else {
            None
        }
    }

    fn at_bang(&self, keyword: &str) -> (r: bool)
        requires
            self.wf(),
        ensures
            r ==> self.cur() is Bang,
    {
        match &self.tokens[self.index].kind {
            TokenKind::Bang(value) => ieq(value.as_str(), keyword),
            _ => false,
        }
    }

    fn at_any_bang(&self, keywords: &[&str]) -> (r: bool)
        requires
            self.wf(),
        ensures
            r ==> self.cur() is Bang,
    {
        let mut i: usize = 0;
        while i < keywords.len()
            invariant
                self.wf(),
                i <= keywords@.len(),
            decreases keywords@.len() - i,
        {
            if self.at_bang(keywords[i]) {
                return true;
            }
            i = i + 1;
        }
        false
    }

    fn identifier_ahead(&self) -> (r: bool)
        requires
            self.wf(),
        ensures
            r == (self.cur() is Identifier),
    {
        self.at(TokenTag::Identifier)
    }

    #[verifier::spinoff_prover]
    fn relationship_ahead(&self, arrow: TokenTag) -> (r: bool)
        requires
            self.wf(),
        ensures
            r ==> self.cur() is Identifier,
    {
        (self.identifier_ahead() && self.nth_at(1, arrow))
            || (self.identifier_ahead() && self.nth_at(1, TokenTag::Equals)
                && self.nth_at(2, TokenTag::Identifier) && self.nth_at(3, arrow))
    }

    /// Takes an identifier or string and answers its text and span.
    #[verifier::spinoff_prover]
    fn take_value(&mut self) -> (r: Option<(String, Span)>)
        requires
            old(self).wf(),
        ensures
            final(self).wf(),
            final(self).ext(*old(self)),
            r is Some ==> final(self).index == old(self).index + 1,
            r is None ==> final(self).index == old(self).index,
            r is None ==> !(old(self).cur() is Identifier) && !(old(self).cur() is String),
            r matches Some(v) ==> old(self).ok(v.1),
            final(self).workspace == old(self).workspace,
            final(self).diagnostics == old(self).diagnostics,
            final(self).order == old(self).order,
            final(self).parent_stack == old(self).parent_stack,
    {
        let value = match &self.tokens[self.index].kind {
            TokenKind::Identifier(value) => value.clone(),
            TokenKind::String(value) => value.clone(),
            _ => { return None; },
        };
        let span = self.advance();
        Some((value, span))
    }

    /// Takes an identifier and answers its text and span.
    #[verifier::spinoff_prover]
    fn take_identifier(&mut self) -> (r: Option<(String, Span)>)
        requires
            old(self).wf(),
        ensures
            final(self).wf(),
            final(self).ext(*old(self)),
            r is Some ==> final(self).index == old(self).index + 1,
            r is None ==> final(self).index == old(self).index,
            r is Some <==> old(self).cur() is Identifier,
            r matches Some(v) ==> old(self).ok(v.1),
            final(self).workspace == old(self).workspace,
            final(self).diagnostics == old(self).diagnostics,
            final(self).order == old(self).order,
            final(self).parent_stack == old(self).parent_stack,
    {
        let value = match &self.tokens[self.index].kind {
            TokenKind::Identifier(value) => value.clone(),
            _ => { return None; },
        };
        let span = self.advance();
        Some((value, span))
    }

    /// Takes identifiers and strings while there are any.
    #[verifier::spinoff_prover]
    fn take_values(&mut self) -> (r: Vec<(String, Span)>)
        requires
            old(self).wf(),
        ensures
            final(self).wf(),
            final(self).ext(*old(self)),
            old(self).args_ok(r@),
            args_in(r@, old(self).limit@),
            r@.len() == final(self).index - old(self).index,
            final(self).workspace == old(self).workspace,
            final(self).diagnostics == old(self).diagnostics,
            final(self).order == old(self).order,
            final(self).parent_stack == old(self).parent_stack,
    {
        let mut values: Vec<(String, Span)> = Vec::new();
        loop
            invariant
                self.wf(),
                self.ext(*old(self)),
                old(self).args_ok(values@),
                args_in(values@, old(self).limit@),
                values@.len() == self.index - old(self).index,
                self.workspace == old(self).workspace,
                self.diagnostics == old(self).diagnostics,
                self.order == old(self).order,
                self.parent_stack == old(self).parent_stack,
            decreases self.tokens@.len() - self.index,
        {
            match self.take_value() {
                Some(v) => values.push(v),
                None => break,
            }
        }
        values
    }

    /// Takes the tokens up to a brace, line break or the end, as text.
    #[verifier::spinoff_prover]
    fn take_raw_arguments(&mut self) -> (r: Vec<String>)
        requires
            old(self).wf(),
        ensures
            final(self).wf(),
            final(self).ext(*old(self)),
            final(self).workspace == old(self).workspace,
            final(self).diagnostics == old(self).diagnostics,
            final(self).order == old(self).order,
            final(self).parent_stack == old(self).parent_stack,
            r@.len() == final(self).index - old(self).index,
            forall|k: int| 0 <= k < r@.len() ==> (#[trigger] r@[k])@ == token_words(old(self).tokens@[old(self).index + k].kind),
            forall|k: int| old(self).index <= k < final(self).index ==> !raw_stop(#[trigger] old(self).tokens@[k].kind),
            raw_stop(final(self).cur()),
    {
        let mut arguments: Vec<String> = Vec::new();
        while !self.at(TokenTag::LeftBrace) && !self.at(TokenTag::RightBrace) && !self.at(TokenTag::Newline) && !self.at(TokenTag::Eof)
            invariant
                self.wf(),
                self.ext(*old(self)),
                self.workspace == old(self).workspace,
                self.diagnostics == old(self).diagnostics,
                self.order == old(self).order,
                self.parent_stack == old(self).parent_stack,
                arguments@.len() == self.index - old(self).index,
                forall|k: int| 0 <= k < arguments@.len() ==> (#[trigger] arguments@[k])@ == token_words(old(self).tokens@[old(self).index + k].kind),
                forall|k: int| old(self).index <= k < self.index ==> !raw_stop(#[trigger] old(self).tokens@[k].kind),
            decreases self.tokens@.len() - self.index,
        {
            let text = token_text(&self.tokens[self.index].kind);
            let ghost before = arguments@;
            arguments.push(text);
            assert(!raw_stop(self.cur()));
            self.advance();
            assert forall|k: int| 0 <= k < arguments@.len() implies (#[trigger] arguments@[k])@ == token_words(old(self).tokens@[old(self).index + k].kind) by {
                if k < before.len() {
                    assert(arguments@[k] == before[k]);
                }
            }
        }
        arguments
    }

    fn next_order(&mut self) -> (o: usize)
        requires
            old(self).wf(),
            old(self).order < old(self).index,
        ensures
            final(self).wf(),
            final(self).ext(*old(self)),
            final(self).index == old(self).index,
            final(self).workspace == old(self).workspace,
            final(self).diagnostics == old(self).diagnostics,
            final(self).parent_stack == old(self).parent_stack,
    {
        let order = self.order;
        self.order = self.order + 1;
        order
    }

    fn qualify_identifier(&self, identifier: String) -> (r: String) {
        if seq_eq(self.workspace.identifiers.as_str(), "hierarchical") {
            let n = self.parent_stack.len();
            if n > 0 {
                cat3(self.parent_stack[n - 1].as_str(), ".", identifier.as_str())
            } else {
                identifier
            }
        } else {
            identifier
        }
    }

    fn limit_arguments(&mut self, arguments: &Vec<(String, Span)>, maximum: usize, message: &str)
        requires
            old(self).wf(),
            old(self).args_ok(arguments@),
        ensures
            final(self).wf(),
            final(self).ext(*old(self)),
            final(self).index == old(self).index,
            final(self).order == old(self).order,
            final(self).workspace == old(self).workspace,
            final(self).parent_stack == old(self).parent_stack,
    {
        if arguments.len() > maximum {
            self.error(arguments[maximum].1, String::from_str(message), None);
        }
    }

    /// Skips to the end of the statement: past the next line break outside braces.
    fn skip_statement(&mut self)
        requires
            old(self).wf(),
        ensures
            final(self).wf(),
            final(self).ext(*old(self)),
            !old(self).at_end() ==> final(self).index > old(self).index,
            final(self).workspace == old(self).workspace,
            final(self).diagnostics == old(self).diagnostics,
            final(self).order == old(self).order,
            final(self).parent_stack == old(self).parent_stack,
    {
        let mut depth: usize = 0;
        while !self.at(TokenTag::Eof)
            invariant
                self.wf(),
                self.ext(*old(self)),
                depth <= self.index,
                self.index == old(self).index ==> depth == 0,
                !old(self).at_end() && self.at_end() ==> self.index > old(self).index,
                self.workspace == old(self).workspace,
                self.diagnostics == old(self).diagnostics,
                self.order == old(self).order,
                self.parent_stack == old(self).parent_stack,
            decreases self.tokens@.len() - self.index,
        {
            match self.tokens[self.index].kind {
                TokenKind::LeftBrace => { depth = depth + 1; },
                TokenKind::RightBrace => {
                    if depth > 0 {
                        depth = depth - 1;
                    }
                },
                TokenKind::Newline => {
                    if depth == 0 {
                        self.advance();
                        return;
                    }
                },
                _ => {},
            }
            self.advance();
        }
    }

    fn unknown_statement(&mut self, context: &str)
        requires
            old(self).wf(),
        ensures
            final(self).wf(),
            final(self).ext(*old(self)),
            !old(self).at_end() ==> final(self).index > old(self).index,
            final(self).order == old(self).order,
            final(self).workspace == old(self).workspace,
            final(self).parent_stack == old(self).parent_stack,
    {
        let span = self.current_span();
        let text = token_text(&self.tokens[self.index].kind);
        let message = cat5("unknown ", context, " statement '", text.as_str(), "'");
        self.error(span, message, Some("this feature is not part of the implemented M4 grammar"));
        self.skip_statement();
    }

    fn finish_statement(&mut self, label: &str)
        requires
            old(self).wf(),
        ensures
            final(self).wf(),
            final(self).ext(*old(self)),
            old(self).at_statement() ==> final(self).index > old(self).index,
            final(self).order == old(self).order,
            final(self).workspace == old(self).workspace,
            final(self).parent_stack == old(self).parent_stack,
    {
        if self.at(TokenTag::Newline) {
            self.advance();
        } else if !self.at(TokenTag::RightBrace) && !self.at(TokenTag::Eof) {
            let span = self.current_span();
            self.error(span, cat3("unexpected token in ", label, " statement"), Some("put each DSL statement on its own line"));
            self.skip_statement();
        }
    }

    fn missing_closing_brace(&mut self, label: &str)
        requires
            old(self).wf(),
        ensures
            final(self).wf(),
            final(self).ext(*old(self)),
            final(self).index == old(self).index,
            final(self).order == old(self).order,
            final(self).workspace == old(self).workspace,
            final(self).parent_stack == old(self).parent_stack,
    {
        let span = self.current_span();
        self.error(span, cat3("missing closing '}' for ", label, ""), Some("add '}' on a line of its own"));
    }

    /// Opens a block: `{` at the end of the line, then a line break.
    fn open_block(&mut self, label: &str) -> (opened: bool)
        requires
            old(self).wf(),
        ensures
            final(self).wf(),
            final(self).ext(*old(self)),
            final(self).order == old(self).order,
            final(self).workspace == old(self).workspace,
            final(self).parent_stack == old(self).parent_stack,
            opened ==> final(self).index > old(self).index,
            !opened && !old(self).at_end() ==> final(self).index > old(self).index,
            !opened ==> final(self).diagnostics@.len() > old(self).diagnostics@.len(),
    {
        if self.at(TokenTag::LeftBrace) {
            self.advance();
        } else if self.at(TokenTag::Newline) {
            let span = self.current_span();
            self.error(span, cat3("opening '{' for ", label, " must be on the same line"), Some("move '{' to the end of the preceding statement"));
            self.skip_newlines();
            if self.at(TokenTag::LeftBrace) {
                self.advance();
            } else {
                return false;
            }
        } else {
            let span = self.current_span();
            self.error(span, cat("expected '{' to open ", label), Some("add '{' on this line"));
            self.skip_statement();
            return false;
        }
        if self.at(TokenTag::Newline) {
            self.advance();
        } else if !self.at(TokenTag::Eof) {
            let span = self.current_span();
            self.error(span, cat3("content inside ", label, " must start on a new line"), None);
            self.skip_statement();
        }
        true
    }

    /// Closes a block at the current `}` and answers the brace's span.
    fn close_block(&mut self, label: &str) -> (r: Option<Span>)
        requires
            old(self).wf(),
            old(self).cur() is RightBrace,
        ensures
            final(self).wf(),
            final(self).ext(*old(self)),
            final(self).index > old(self).index,
            final(self).order == old(self).order,
            final(self).workspace == old(self).workspace,
            final(self).parent_stack == old(self).parent_stack,
            r matches Some(s) ==> old(self).ok(s),
            r is Some,
    {
        let closing = self.current_span();
        let starts_line = self.index == 0 || self.nth_at_back(1, TokenTag::Newline);
        let ends_line = self.nth_at(1, TokenTag::Newline) || self.nth_at(1, TokenTag::Eof);
        if !starts_line || !ends_line {
            self.error(closing, cat3("closing '}' for ", label, " must be on a line of its own"), Some("move '}' to a separate line"));
        }
        self.advance();
        if !ends_line {
            self.skip_statement();
        }
        Some(closing)
    }

    #[verifier::spinoff_prover]
    #[verifier::rlimit(40)]
    fn set_extension(&mut self, target: String, span: Span)
        requires
            old(self).wf(),
            old(self).ok(span),
        ensures
            final(self).wf(),
            final(self).ext(*old(self)),
            final(self).index == old(self).index,
    {
        self.workspace.extension = Some(WorkspaceExtension { target, span });
    }

    #[verifier::spinoff_prover]
    #[verifier::rlimit(40)]
    fn set_workspace_header(&mut self, attributes: Vec<Property>, name: Option<String>, description: Option<String>)
        requires
            old(self).wf(),
            props_in(attributes@, old(self).limit@),
        ensures
            final(self).wf(),
            final(self).ext(*old(self)),
            final(self).index == old(self).index,
    {
        self.workspace.attributes = attributes;
        self.workspace.name = name;
        self.workspace.description = description;
    }

    #[verifier::spinoff_prover]
    fn parse_workspace(&mut self)
        requires
            old(self).wf(),
        ensures
            final(self).wf(),
            final(self).ext(*old(self)),
    {
        self.skip_newlines();
        let start = match self.eat_keyword("workspace") {
            Some(s) => s,
            None => {
                let span = self.current_span();
                self.error(span, String::from_str("expected keyword 'workspace'"), Some("start the file with 'workspace {'"));
                return;
            },
        };
        if self.eat_keyword("extends").is_some() {
            match self.take_value() {
                Some((target, span)) => self.set_extension(target, span),
                None => {
                    let span = self.current_span();
                    self.error(span, String::from_str("workspace extension target is missing"), Some("add a local .dsl path after 'extends'"));
                },
            }
        } else {
            let arguments = self.take_values();
            self.limit_arguments(&arguments, 2, "workspace accepts at most a name and description");
            let attributes = argument_properties(&arguments, &["name", "description"]);
            assert(props_in(attributes@, self.limit@));
            let name = arg_at(&arguments, 0);
            let description = arg_at(&arguments, 1);
            self.set_workspace_header(attributes, name, description);
        }
        if !self.open_block("workspace") {
            return;
        }
        let mut end: Option<Span> = None;
        loop
            invariant
                self.wf(),
                self.ext(*old(self)),
                self.ok(start),
                end matches Some(e) ==> self.ok(e),
            decreases self.tokens@.len() - self.index,
        {
            self.skip_newlines();
            if self.at(TokenTag::RightBrace) {
                end = self.close_block("workspace");
                break;
            }
            if self.at(TokenTag::Eof) {
                self.missing_closing_brace("workspace");
                break;
            }
            self.parse_workspace_statement();
        }
        match end {
            Some(e) => {
                self.workspace.span = start.merge(e);
            },
            None => {},
        }
        self.skip_newlines();
        if !self.at(TokenTag::Eof) {
            let span = self.current_span();
            self.error(span, String::from_str("unexpected content after workspace"), Some("remove content after the workspace closing brace"));
        }
    }

    #[verifier::spinoff_prover]
    fn parse_workspace_statement(&mut self)
        requires
            old(self).wf(),
            old(self).at_statement(),
        ensures
            final(self).wf(),
            final(self).ext(*old(self)),
            final(self).index > old(self).index,
    {
        if self.at_bang("identifiers") {
            self.parse_identifiers();
        } else if self.at_bang("docs") || self.at_bang("adrs") {
            let directive = self.parse_directive();
            self.push_directive(directive);
        } else if self.at_bang("script") || self.at_bang("plugin") {
            self.parse_unsafe_directive();
        } else if self.at_keyword("model") {
            self.parse_model();
        } else if self.at_keyword("views") {
            self.parse_views();
        } else if self.at_keyword("name") {
            match self.parse_single_property("name") {
                Some(property) => self.record_workspace_attribute(property, false),
                None => {},
            }
        } else if self.at_keyword("description") {
            match self.parse_single_property("description") {
                Some(property) => self.record_workspace_attribute(property, true),
                None => {},
            }
        } else if self.at_keyword("properties") {
            let properties = self.parse_property_block("properties");
            self.append_workspace_properties(properties);
        } else if self.at_keyword("configuration") {
            let preserved = self.parse_preserved("configuration");
            self.warn_preserved(&preserved, "configuration semantics are deferred");
            self.workspace.preserved.push(preserved);
        } else {
            self.unknown_statement("workspace");
        }
    }

    #[verifier::spinoff_prover]
    fn parse_identifiers(&mut self)
        requires
            old(self).wf(),
            !old(self).at_end(),
        ensures
            final(self).wf(),
            final(self).ext(*old(self)),
            final(self).index > old(self).index,
    {
        let keyword = self.advance();
        self.workspace.identifiers_explicit = true;
        match self.take_value() {
            Some((value, span)) => {
                if ieq(value.as_str(), "flat") {
                    self.workspace.identifiers = String::from_str("flat");
                } else if ieq(value.as_str(), "hierarchical") {
                    self.workspace.identifiers = String::from_str("hierarchical");
                } else {
                    self.error(span, cat3("unsupported identifier mode '", value.as_str(), "'"), Some("use '!identifiers flat' or '!identifiers hierarchical'"));
                }
            },
            None => {
                self.error(keyword, String::from_str("missing identifier mode"), Some("use '!identifiers flat' or '!identifiers hierarchical'"));
            },
        }
        self.finish_statement("identifier mode");
    }

    #[verifier::spinoff_prover]
    fn parse_model(&mut self)
        requires
            old(self).wf(),
            !old(self).at_end(),
        ensures
            final(self).wf(),
            final(self).ext(*old(self)),
            final(self).index > old(self).index,
    {
        self.advance();
        if !self.open_block("model") {
            return;
        }
        self.parse_model_block("model");
    }

    /// Statements up to the block's closing brace; answers the brace's span.
    #[verifier::spinoff_prover]
    fn parse_model_block(&mut self, label: &str) -> (r: Option<Span>)
        requires
            old(self).wf(),
        ensures
            final(self).wf(),
            final(self).ext(*old(self)),
            r matches Some(s) ==> old(self).ok(s),
        decreases old(self).tokens@.len() - old(self).index, 5nat,
    {
        loop
            invariant
                self.wf(),
                self.ext(*old(self)),
            decreases self.tokens@.len() - self.index,
        {
            self.skip_newlines();
            if self.at(TokenTag::RightBrace) {
                return self.close_block(label);
            }
            if self.at(TokenTag::Eof) {
                self.missing_closing_brace(label);
                return None;
            }
            self.parse_model_statement();
        }
    }

    #[verifier::spinoff_prover]
    fn parse_model_statement(&mut self)
        requires
            old(self).wf(),
            old(self).at_statement(),
        ensures
            final(self).wf(),
            final(self).ext(*old(self)),
            final(self).index > old(self).index,
        decreases old(self).tokens@.len() - old(self).index, 4nat,
    {
        if self.relationship_ahead(TokenTag::Arrow) {
            self.parse_relationship();
            return;
        }
        if self.relationship_ahead(TokenTag::RemoveArrow) {
            self.parse_removed_relationship();
            return;
        }
        if self.at_bang("identifiers") {
            self.parse_identifiers();
            return;
        }
        if self.at_bang("impliedRelationships") {
            self.parse_implied_relationships();
            return;
        }
        if self.at_bang("docs") || self.at_bang("adrs") {
            let directive = self.parse_directive();
            let span = directive.span;
            self.error(span, cat3("!", directive.name.as_str(), " is not allowed directly in the model"), Some("attach documentation to the workspace, a software system, or a container"));
            self.push_directive(directive);
            return;
        }
        if self.at_bang("script") || self.at_bang("plugin") {
            self.parse_unsafe_directive();
            return;
        }
        if self.at_any_bang(&["extend", "ref", "element", "elements", "relationship", "relationships", "components"]) {
            let directive = self.parse_directive();
            self.warn_deferred(&directive, "directive semantics are deferred; syntax was preserved");
            self.push_directive(directive);
            return;
        }
        if self.at_keyword("archetypes") {
            let preserved = self.parse_preserved("archetypes");
            self.warn_preserved(&preserved, "archetype expansion is deferred; syntax was preserved");
            self.workspace.preserved.push(preserved);
            return;
        }
        if self.at_keyword("enterprise") {
            self.parse_enterprise();
            return;
        }
        if self.at_keyword("group") {
            self.parse_group();
            return;
        }
        if self.at_keyword("archimate") {
            self.parse_archimate_block();
            return;
        }
        let statement_start = self.current_span();
        let assigned = if self.identifier_ahead() && self.nth_at(1, TokenTag::Equals) {
            let identifier = self.take_identifier();
            self.advance();
            identifier
        } else {
            None
        };
        match self.current_element_kind() {
            Some(kind) => {
                self.parse_element(statement_start, assigned, kind);
            },
            None => {
                if assigned.is_some() {
                    let span = self.current_span();
                    self.error(span, String::from_str("expected an M3 element type after '='"), Some("check the core model element keyword"));
                    self.skip_statement();
                } else {
                    self.unknown_statement("model");
                }
            },
        }
    }

    #[verifier::spinoff_prover]
    fn parse_archimate_block(&mut self)
        requires
            old(self).wf(),
            !old(self).at_end(),
        ensures
            final(self).wf(),
            final(self).ext(*old(self)),
            final(self).index > old(self).index,
        decreases old(self).tokens@.len() - old(self).index, 3nat,
    {
        self.advance();
        if !self.open_block("archimate") {
            return;
        }
        loop
            invariant
                self.wf(),
                self.ext(*old(self)),
                self.index > old(self).index,
            decreases self.tokens@.len() - self.index,
        {
            self.skip_newlines();
            if self.at(TokenTag::RightBrace) {
                self.close_block("archimate");
                return;
            }
            if self.at(TokenTag::Eof) {
                self.missing_closing_brace("archimate");
                return;
            }
            if self.relationship_ahead(TokenTag::Arrow) {
                self.parse_relationship();
                continue;
            }
            let statement_start = self.current_span();
            let assigned = if self.identifier_ahead() && self.nth_at(1, TokenTag::Equals) {
                let identifier = self.take_identifier();
                self.advance();
                identifier
            } else {
                None
            };
            let junction_kind = self.current_archimate_junction_kind();
            match self.current_archimate_element_kind() {
                Some(kind) => {
                    let before = self.workspace.elements.len();
                    self.parse_element(statement_start, assigned, kind);
                    self.add_implicit_junction_kind(before, statement_start, junction_kind);
                },
                None => {
                    if assigned.is_some() {
                        let span = self.current_span();
                        self.error(span, String::from_str("expected an ArchiMate element type after '='"), Some("use businessActor, applicationComponent, node, or another supported ArchiMate keyword"));
                        self.skip_statement();
                    } else {
                        self.unknown_statement("archimate");
                    }
                },
            }
        }
    }

    #[verifier::spinoff_prover]
    fn parse_implied_relationships(&mut self)
        requires
            old(self).wf(),
            !old(self).at_end(),
        ensures
            final(self).wf(),
            final(self).ext(*old(self)),
            final(self).index > old(self).index,
    {
        let keyword = self.advance();
        let value = match self.take_value() {
            Some((v, _)) => v,
            None => String::from_str("true"),
        };
        if !ieq(value.as_str(), "true") && !ieq(value.as_str(), "false") {
            self.error(keyword, cat3("custom implied relationship strategy '", value.as_str(), "' is not supported"), Some("use true or false; external classes are never loaded"));
        }
        self.workspace.implied_relationships = Some(value);
        self.finish_statement("implied relationships");
    }

    #[verifier::spinoff_prover]
    fn parse_enterprise(&mut self)
        requires
            old(self).wf(),
            !old(self).at_end(),
        ensures
            final(self).wf(),
            final(self).ext(*old(self)),
            final(self).index > old(self).index,
        decreases old(self).tokens@.len() - old(self).index, 3nat,
    {
        let start = self.advance();
        let name = match self.take_value() {
            Some((name, _)) => name,
            None => {
                let span = self.current_span();
                self.error(span, String::from_str("enterprise name is missing"), None);
                self.skip_statement();
                return;
            },
        };
        if !self.open_block("enterprise") {
            return;
        }
        let end = self.parse_model_block("enterprise");
        let span = match end {
            Some(e) => start.merge(e),
            None => start,
        };
        self.workspace.enterprise = Some(NamedBlock { name, span });
    }

    #[verifier::spinoff_prover]
    fn parse_group(&mut self)
        requires
            old(self).wf(),
            !old(self).at_end(),
        ensures
            final(self).wf(),
            final(self).ext(*old(self)),
            final(self).index > old(self).index,
        decreases old(self).tokens@.len() - old(self).index, 3nat,
    {
        let start = self.advance();
        let name = match self.take_value() {
            Some((name, _)) => name,
            None => {
                let span = self.current_span();
                self.error(span, String::from_str("group name is missing"), None);
                self.skip_statement();
                return;
            },
        };
        if !self.open_block("group") {
            return;
        }
        let index = self.workspace.groups.len();
        let owner = last_string(&self.parent_stack);
        let parent = match self.group_stack.last() {
            Some(g) => {
                let g = *g;
                if opt_eq(&self.workspace.groups[g].owner, &owner) { Some(g) } else { None }
            },
            None => None,
        };
        self.workspace.groups.push(Group { name, parent, owner, span: start });
        let ghost stack = self.group_stack@;
        self.group_stack.push(index);
        assert forall|i: int| 0 <= i < self.group_stack@.len() implies (#[trigger] self.group_stack@[i]) < self.workspace.groups@.len() by {
            if i < stack.len() {
                assert(self.group_stack@[i] == stack[i]);
            }
        }
        let end = self.parse_model_block("group");
        match end {
            Some(e) => {
                self.set_group_span(index, start.merge(e));
            },
            None => {},
        }
        self.group_stack.pop();
        assert(self.group_stack@ =~= stack);
    }

    fn current_element_kind(&self) -> (r: Option<ElementKind>)
        requires
            self.wf(),
        ensures
            r is Some ==> self.cur() is Identifier,
            r == element_kind_word(self.cur()),
    {
        if self.at_keyword("person") { Some(ElementKind::Person) }
        else if self.at_keyword("softwareSystem") { Some(ElementKind::SoftwareSystem) }
        else if self.at_keyword("container") { Some(ElementKind::Container) }
        else if self.at_keyword("component") { Some(ElementKind::Component) }
        else if self.at_keyword("element") { Some(ElementKind::Generic) }
        else if self.at_keyword("deploymentEnvironment") { Some(ElementKind::DeploymentEnvironment) }
        else if self.at_keyword("deploymentGroup") { Some(ElementKind::DeploymentGroup) }
        else if self.at_keyword("deploymentNode") { Some(ElementKind::DeploymentNode) }
        else if self.at_keyword("infrastructureNode") { Some(ElementKind::InfrastructureNode) }
        else if self.at_keyword("softwareSystemInstance") { Some(ElementKind::SoftwareSystemInstance) }
        else if self.at_keyword("containerInstance") { Some(ElementKind::ContainerInstance) }
        else { None }
    }

    fn current_archimate_element_kind(&self) -> (r: Option<ElementKind>)
        requires
            self.wf(),
        ensures
            r is Some ==> self.cur() is Identifier,
    {
        match &self.tokens[self.index].kind {
            TokenKind::Identifier(value) => archimate_element_kind(value.as_str()),
            _ => None,
        }
    }

    fn current_archimate_junction_kind(&self) -> (r: Option<&'static str>)
        requires
            self.wf(),
    {
        if self.at_keyword("andJunction") {
            Some("and")
        } else if self.at_keyword("orJunction") {
            Some("or")
        } else {
            None
        }
    }

    fn add_implicit_junction_kind(&mut self, before: usize, span: Span, junction_kind: Option<&'static str>)
        requires
            old(self).wf(),
            old(self).ok(span),
        ensures
            final(self).wf(),
            final(self).ext(*old(self)),
            final(self).index == old(self).index,
    {
        match junction_kind {
            Some(value) => {
                if self.workspace.elements.len() > before {
                    self.workspace.elements[before].attributes.push(Property {
                        key: String::from_str("kind"),
                        value: String::from_str(value),
                        span,
                    });
                }
            },
            None => {},
        }
    }

    #[verifier::spinoff_prover]
    fn push_directive(&mut self, directive: Directive)
        requires
            old(self).wf(),
            old(self).ok(directive.span),
        ensures
            final(self).wf(),
            final(self).ext(*old(self)),
            final(self).index == old(self).index,
    {
        self.workspace.directives.push(directive);
    }

    /// Records the workspace `name` (or, with `description`, its description) attribute.
    #[verifier::spinoff_prover]
    fn record_workspace_attribute(&mut self, property: Property, description: bool)
        requires
            old(self).wf(),
            old(self).ok(property.span),
        ensures
            final(self).wf(),
            final(self).ext(*old(self)),
            final(self).index == old(self).index,
    {
        let value = property.value.clone();
        self.push_workspace_attribute(property);
        self.set_workspace_text(value, description);
    }

    #[verifier::spinoff_prover]
    fn push_workspace_attribute(&mut self, property: Property)
        requires
            old(self).wf(),
            old(self).ok(property.span),
        ensures
            final(self).wf(),
            final(self).ext(*old(self)),
            final(self).index == old(self).index,
    {
        self.workspace.attributes.push(property);
    }

    #[verifier::spinoff_prover]
    fn set_workspace_text(&mut self, value: String, description: bool)
        requires
            old(self).wf(),
        ensures
            final(self).wf(),
            final(self).ext(*old(self)),
            final(self).index == old(self).index,
    {
        if description {
            self.workspace.description = Some(value);
        } else {
            self.workspace.name = Some(value);
        }
    }

    #[verifier::spinoff_prover]
    #[verifier::rlimit(40)]
    fn append_workspace_properties(&mut self, properties: Vec<Property>)
        requires
            old(self).wf(),
            props_in(properties@, old(self).limit@),
        ensures
            final(self).wf(),
            final(self).ext(*old(self)),
            final(self).index == old(self).index,
    {
        let mut properties = properties;
        self.workspace.properties.append(&mut properties);
    }

    fn set_group_span(&mut self, index: usize, span: Span)
        requires
            old(self).wf(),
            old(self).ok(span),
            index < old(self).workspace.groups@.len(),
        ensures
            final(self).wf(),
            final(self).ext(*old(self)),
            final(self).index == old(self).index,
    {
        self.workspace.groups[index].span = span;
    }

    #[verifier::spinoff_prover]
    #[verifier::rlimit(40)]
    fn push_relationship(&mut self, relationship: Relationship)
        requires
            old(self).wf(),
            relationship.spans_in(old(self).limit@),
        ensures
            final(self).wf(),
            final(self).ext(*old(self)),
            final(self).index == old(self).index,
            final(self).workspace.relationships@ == old(self).workspace.relationships@.push(relationship),
            final(self).workspace.elements@ == old(self).workspace.elements@,
            final(self).parent_stack@ == old(self).parent_stack@,
            final(self).group_stack@ == old(self).group_stack@,
            final(self).order == old(self).order,
    {
        self.workspace.relationships.push(relationship);
    }

    #[verifier::spinoff_prover]
    #[verifier::rlimit(40)]
    fn push_element(&mut self, element: Element)
        requires
            old(self).wf(),
            element.spans_in(old(self).limit@),
        ensures
            final(self).wf(),
            final(self).ext(*old(self)),
            final(self).index == old(self).index,
            final(self).workspace.elements@ == old(self).workspace.elements@.push(element),
            final(self).parent_stack@ == old(self).parent_stack@,
            final(self).group_stack@ == old(self).group_stack@,
            final(self).order == old(self).order,
    {
        self.workspace.elements.push(element);
    }

    #[verifier::spinoff_prover]
    fn parse_element(&mut self, statement_start: Span, assigned: Option<(String, Span)>, kind: ElementKind)
        requires
            old(self).wf(),
            old(self).cur() is Identifier,
            old(self).ok(statement_start),
            assigned matches Some(a) ==> old(self).ok(a.1),
        ensures
            final(self).wf(),
            final(self).ext(*old(self)),
            final(self).index > old(self).index,
        decreases old(self).tokens@.len() - old(self).index, 3nat,
    {
        let keyword = self.advance();
        let arguments = self.take_values();
        if arguments.len() == 0 {
            let span = self.current_span();
            self.error(span, cat(element_label(&kind), " value is missing"), Some("add the required name or referenced identifier"));
            self.finish_statement("element");
            return;
        }
        let first = arguments[0].0.clone();
        let first_span = arguments[0].1;
        if first.as_str().unicode_len() == 0 {
            self.error(first_span, String::from_str("required element value cannot be empty"), None);
        }
        let maximum = maximum_arguments(&kind);
        let too_many = cat("too many properties for ", element_label(&kind));
        self.limit_arguments(&arguments, maximum, too_many.as_str());
        let instance = match kind {
            ElementKind::SoftwareSystemInstance | ElementKind::ContainerInstance => true,
            _ => false,
        };
        let reference = if instance { Some(Reference { identifier: first.clone(), span: first_span }) } else { None };
        let inline = inline_properties(&kind, &arguments);
        let (base_id, id_span) = match assigned {
            Some(a) => a,
            None => (slug(first.as_str()), first_span),
        };
        let id = self.qualify_identifier(base_id);
        let parent = last_string(&self.parent_stack);
        let mut span = statement_start.merge(arguments[arguments.len() - 1].1);
        let index = self.workspace.elements.len();
        let order = self.next_order();
        let attributes = element_argument_properties(&kind, &arguments);
        let group = match self.group_stack.last() {
            Some(g) => {
                let g = *g;
                if opt_eq(&self.workspace.groups[g].owner, &parent) { Some(g) } else { None }
            },
            None => None,
        };
        let element_id = id.clone();
        let element = Element {
            id,
            kind,
            name: first,
            description: inline.description,
            technology: inline.technology,
            parent,
            group,
            tags: inline.tags,
            url: None,
            attributes,
            properties: Vec::new(),
            perspectives: Vec::new(),
            instances: inline.instances,
            instance_of: None,
            reference,
            deployment_groups: inline.deployment_groups,
            health_checks: Vec::new(),
            directives: Vec::new(),
            element_type: inline.element_type,
            order,
            span,
            id_span,
        };
        self.push_element(element);
        if self.at(TokenTag::LeftBrace) {
            if !self.open_block("element") {
                return;
            }
            self.parent_stack.push(element_id);
            loop
                invariant
                    self.wf(),
                    self.ext(*old(self)),
                    self.index > old(self).index,
                    index < self.workspace.elements@.len(),
                    self.ok(span),
                decreases self.tokens@.len() - self.index,
            {
                self.skip_newlines();
                if self.at(TokenTag::RightBrace) {
                    match self.close_block("element") {
                        Some(end) => {
                            span = span.merge(end);
                            self.workspace.elements[index].span = span;
                        },
                        None => {},
                    }
                    break;
                }
                if self.at(TokenTag::Eof) {
                    self.missing_closing_brace("element");
                    break;
                }
                if !self.parse_element_property(index) {
                    self.parse_model_statement();
                }
            }
            self.parent_stack.pop();
        } else {
            self.finish_statement("element");
        }
    }

    /// Reads a property statement of element `index`; answers whether the statement was one.
    /// Records a property statement of element `index` in the field it sets and its attributes.
    #[verifier::spinoff_prover]
    fn record_element_property(&mut self, index: usize, field: Field, property: Property)
        requires
            old(self).wf(),
            index < old(self).workspace.elements@.len(),
            old(self).ok(property.span),
        ensures
            final(self).wf(),
            final(self).ext(*old(self)),
            final(self).index == old(self).index,
    {
        let value = property.value.clone();
        match field {
            Field::Description => { self.workspace.elements[index].description = Some(value); },
            Field::Technology => { self.workspace.elements[index].technology = Some(value); },
            Field::Tag => { self.workspace.elements[index].tags.push(value); },
            Field::Tags => {
                let mut tags = split_tags(value.as_str());
                self.workspace.elements[index].tags.append(&mut tags);
            },
            Field::Url => { self.workspace.elements[index].url = Some(value); },
            Field::Instances => { self.workspace.elements[index].instances = Some(value); },
            Field::Other => {},
        }
        self.workspace.elements[index].attributes.push(property);
    }

    #[verifier::spinoff_prover]
    fn element_properties_block(&mut self, index: usize, perspectives: bool)
        requires
            old(self).wf(),
            !old(self).at_end(),
            index < old(self).workspace.elements@.len(),
        ensures
            final(self).wf(),
            final(self).ext(*old(self)),
            final(self).index > old(self).index,
    {
        if perspectives {
            let mut properties = self.parse_property_block("perspectives");
            self.workspace.elements[index].perspectives.append(&mut properties);
        } else {
            let mut properties = self.parse_property_block("properties");
            self.workspace.elements[index].properties.append(&mut properties);
        }
    }

    #[verifier::spinoff_prover]
    fn element_directive(&mut self, index: usize, deferred: bool)
        requires
            old(self).wf(),
            old(self).cur() is Bang,
            index < old(self).workspace.elements@.len(),
        ensures
            final(self).wf(),
            final(self).ext(*old(self)),
            final(self).index > old(self).index,
    {
        let directive = self.parse_directive();
        if deferred {
            self.warn_deferred(&directive, "component discovery is deferred; syntax was preserved");
        }
        self.push_element_directive(index, directive);
    }

    #[verifier::spinoff_prover]
    fn push_element_directive(&mut self, index: usize, directive: Directive)
        requires
            old(self).wf(),
            old(self).ok(directive.span),
            index < old(self).workspace.elements@.len(),
        ensures
            final(self).wf(),
            final(self).ext(*old(self)),
            final(self).index == old(self).index,
    {
        self.workspace.elements[index].directives.push(directive);
    }

    #[verifier::spinoff_prover]
    fn element_instance_of(&mut self, index: usize)
        requires
            old(self).wf(),
            !old(self).at_end(),
            index < old(self).workspace.elements@.len(),
        ensures
            final(self).wf(),
            final(self).ext(*old(self)),
            final(self).index > old(self).index,
    {
        let start = self.advance();
        let reference = match self.take_identifier() {
            Some((identifier, span)) => Some(Reference { identifier, span }),
            None => None,
        };
        let missing = reference.is_none();
        self.workspace.elements[index].instance_of = reference;
        if missing {
            self.error(start, String::from_str("instanceOf reference is missing"), None);
        }
        self.finish_statement("instanceOf");
    }

    #[verifier::spinoff_prover]
    fn element_single(&mut self, index: usize, label: &str, field: Field)
        requires
            old(self).wf(),
            !old(self).at_end(),
            index < old(self).workspace.elements@.len(),
        ensures
            final(self).wf(),
            final(self).ext(*old(self)),
            final(self).index > old(self).index,
    {
        match self.parse_single_property(label) {
            Some(property) => { self.record_element_property(index, field, property); },
            None => {},
        }
    }

    /// Reads a property statement of element `index`; answers whether the statement was one.
    #[verifier::spinoff_prover]
    fn parse_element_property(&mut self, index: usize) -> (r: bool)
        requires
            old(self).wf(),
            old(self).at_statement(),
            index < old(self).workspace.elements@.len(),
        ensures
            final(self).wf(),
            final(self).ext(*old(self)),
            r ==> final(self).index > old(self).index,
            !r ==> *final(self) == *old(self),
    {
        if self.at_keyword("description") {
            self.element_single(index, "description", Field::Description);
        } else if self.at_keyword("technology") {
            self.element_single(index, "technology", Field::Technology);
        } else if self.at_keyword("tag") {
            self.element_single(index, "tag", Field::Tag);
        } else if self.at_keyword("tags") {
            self.element_single(index, "tags", Field::Tags);
        } else if self.at_keyword("url") {
            self.element_single(index, "url", Field::Url);
        } else if self.at_keyword("instances") {
            self.element_single(index, "instances", Field::Instances);
        } else if self.at_keyword("instanceOf") {
            self.element_instance_of(index);
        } else if self.at_keyword("properties") {
            self.element_properties_block(index, false);
        } else if self.at_keyword("perspectives") {
            self.element_properties_block(index, true);
        } else if self.at_keyword("healthCheck") {
            self.parse_health_check(index);
        } else if self.at_bang("docs") || self.at_bang("adrs") {
            self.element_directive(index, false);
        } else if self.at_bang("components") {
            self.element_directive(index, true);
        } else {
            match self.archimate_element_property() {
                Some(name) => {
                    match self.parse_style_property(name) {
                        Some(property) => { self.record_element_property(index, Field::Other, property); },
                        None => {},
                    }
                },
                None => {
                    return false;
                },
            }
        }
        true
    }

    fn archimate_element_property(&self) -> (r: Option<&'static str>)
        requires
            self.wf(),
        ensures
            r is Some ==> self.cur() is Identifier,
            match r { Some(n) => Some(n@), None => None::<Seq<char>> } == archimate_property_word(self.cur()),
    {
        if self.at_keyword("background") { Some("background") }
        else if self.at_keyword("color") { Some("color") }
        else if self.at_keyword("colour") { Some("colour") }
        else if self.at_keyword("stroke") { Some("stroke") }
        else if self.at_keyword("fontSize") { Some("fontSize") }
        else if self.at_keyword("width") { Some("width") }
        else if self.at_keyword("height") { Some("height") }
        else if self.at_keyword("kind") { Some("kind") }
        else { None }
    }

    #[verifier::spinoff_prover]
    fn parse_health_check(&mut self, index: usize)
        requires
            old(self).wf(),
            !old(self).at_end(),
            index < old(self).workspace.elements@.len(),
        ensures
            final(self).wf(),
            final(self).ext(*old(self)),
            final(self).index > old(self).index,
    {
        let start = self.advance();
        let arguments = self.take_values();
        if arguments.len() < 2 {
            self.error(start, String::from_str("healthCheck requires a name and URL"), Some("use healthCheck <name> <url> [interval] [timeout]"));
        } else {
            self.limit_arguments(&arguments, 4, "healthCheck accepts at most four values");
            let end = arguments[arguments.len() - 1].1;
            let check = HealthCheck {
                name: arguments[0].0.clone(),
                url: arguments[1].0.clone(),
                interval: arg_at(&arguments, 2),
                timeout: arg_at(&arguments, 3),
                span: start.merge(end),
            };
            self.workspace.elements[index].health_checks.push(check);
        }
        self.finish_statement("healthCheck");
    }

    #[verifier::spinoff_prover]
    fn parse_relationship(&mut self)
        requires
            old(self).wf(),
            old(self).cur() is Identifier,
        ensures
            final(self).wf(),
            final(self).ext(*old(self)),
            final(self).index > old(self).index,
    {
        let (id, id_span) = if self.identifier_ahead() && self.nth_at(1, TokenTag::Equals) {
            match self.take_identifier() {
                Some((identifier, span)) => {
                    self.advance();
                    (Some(identifier), Some(span))
                },
                None => (None, None),
            }
        } else {
            (None, None)
        };
        let (source, source_span) = match self.take_identifier() {
            Some(v) => v,
            None => {
                // an identifier is always here when a relationship is ahead
                let span = self.current_span();
                self.error(span, String::from_str("relationship source is missing"), None);
                self.skip_statement();
                return;
            },
        };
        self.advance();
        let (destination, destination_span) = match self.take_identifier() {
            Some(v) => v,
            None => {
                let span = self.current_span();
                self.error(span, String::from_str("relationship destination is missing"), Some("add an element identifier after '->'"));
                self.finish_statement("relationship");
                return;
            },
        };
        let arguments = self.take_values();
        self.limit_arguments(&arguments, 3, "relationship accepts at most description, technology, and tags");
        let end = if arguments.len() > 0 { arguments[arguments.len() - 1].1 } else { destination_span };
        let index = self.workspace.relationships.len();
        let order = self.next_order();
        let first = match id_span { Some(s) => s, None => source_span };
        let tags = match arg_at(&arguments, 2) {
            Some(t) => split_tags(t.as_str()),
            None => Vec::new(),
        };
        let relationship = Relationship {
            id,
            source,
            destination,
            description: arg_at(&arguments, 0),
            technology: arg_at(&arguments, 1),
            tags,
            url: None,
            attributes: argument_properties(&arguments, &["description", "technology", "tags"]),
            properties: Vec::new(),
            perspectives: Vec::new(),
            order,
            span: first.merge(end),
            id_span,
            source_span,
            destination_span,
        };
        self.push_relationship(relationship);
        if self.at(TokenTag::LeftBrace) {
            if !self.open_block("relationship") {
                return;
            }
            loop
                invariant
                    self.wf(),
                    self.ext(*old(self)),
                    self.index > old(self).index,
                    index < self.workspace.relationships@.len(),
                    self.ok(first),
                decreases self.tokens@.len() - self.index,
            {
                self.skip_newlines();
                if self.at(TokenTag::RightBrace) {
                    match self.close_block("relationship") {
                        Some(end) => {
                            self.workspace.relationships[index].span = first.merge(end);
                        },
                        None => {},
                    }
                    break;
                }
                if self.at(TokenTag::Eof) {
                    self.missing_closing_brace("relationship");
                    break;
                }
                self.parse_relationship_property(index);
            }
        } else {
            self.finish_statement("relationship");
        }
    }

    /// Records a property statement of relationship `index` in the field it sets and its attributes.
    #[verifier::spinoff_prover]
    fn record_relationship_property(&mut self, index: usize, field: Field, property: Property)
        requires
            old(self).wf(),
            index < old(self).workspace.relationships@.len(),
            old(self).ok(property.span),
        ensures
            final(self).wf(),
            final(self).ext(*old(self)),
            final(self).index == old(self).index,
    {
        let value = property.value.clone();
        match field {
            Field::Description => { self.workspace.relationships[index].description = Some(value); },
            Field::Technology => { self.workspace.relationships[index].technology = Some(value); },
            Field::Tag => { self.workspace.relationships[index].tags.push(value); },
            Field::Tags => {
                let mut tags = split_tags(value.as_str());
                self.workspace.relationships[index].tags.append(&mut tags);
            },
            Field::Url => { self.workspace.relationships[index].url = Some(value); },
            _ => {},
        }
        self.workspace.relationships[index].attributes.push(property);
    }

    #[verifier::spinoff_prover]
    fn relationship_single(&mut self, index: usize, label: &str, field: Field)
        requires
            old(self).wf(),
            !old(self).at_end(),
            index < old(self).workspace.relationships@.len(),
        ensures
            final(self).wf(),
            final(self).ext(*old(self)),
            final(self).index > old(self).index,
    {
        match self.parse_single_property(label) {
            Some(property) => { self.record_relationship_property(index, field, property); },
            None => {},
        }
    }

    #[verifier::spinoff_prover]
    fn relationship_properties_block(&mut self, index: usize, perspectives: bool)
        requires
            old(self).wf(),
            !old(self).at_end(),
            index < old(self).workspace.relationships@.len(),
        ensures
            final(self).wf(),
            final(self).ext(*old(self)),
            final(self).index > old(self).index,
    {
        if perspectives {
            let mut properties = self.parse_property_block("perspectives");
            self.workspace.relationships[index].perspectives.append(&mut properties);
        } else {
            let mut properties = self.parse_property_block("properties");
            self.workspace.relationships[index].properties.append(&mut properties);
        }
    }

    #[verifier::spinoff_prover]
    fn relationship_type(&mut self, index: usize)
        requires
            old(self).wf(),
            !old(self).at_end(),
            index < old(self).workspace.relationships@.len(),
        ensures
            final(self).wf(),
            final(self).ext(*old(self)),
            final(self).index > old(self).index,
    {
        match self.parse_single_property("type") {
            Some(property) => {
                let mut property = property;
                match crate::archimate::archimate_relationship_type(property.value.as_str()) {
                    Some(native_type) => {
                        property.value = String::from_str(native_type);
                    },
                    None => {},
                }
                self.record_relationship_property(index, Field::Other, property);
            },
            None => {},
        }
    }

    #[verifier::spinoff_prover]
    fn parse_relationship_property(&mut self, index: usize)
        requires
            old(self).wf(),
            old(self).at_statement(),
            index < old(self).workspace.relationships@.len(),
        ensures
            final(self).wf(),
            final(self).ext(*old(self)),
            final(self).index > old(self).index,
    {
        if self.at_keyword("description") {
            self.relationship_single(index, "description", Field::Description);
        } else if self.at_keyword("technology") {
            self.relationship_single(index, "technology", Field::Technology);
        } else if self.at_keyword("tag") {
            self.relationship_single(index, "tag", Field::Tag);
        } else if self.at_keyword("tags") {
            self.relationship_single(index, "tags", Field::Tags);
        } else if self.at_keyword("url") {
            self.relationship_single(index, "url", Field::Url);
        } else if self.at_keyword("properties") {
            self.relationship_properties_block(index, false);
        } else if self.at_keyword("perspectives") {
            self.relationship_properties_block(index, true);
        } else if self.at_keyword("type") {
            self.relationship_type(index);
        } else if self.at_keyword("access") {
            self.relationship_single(index, "access", Field::Other);
        } else {
            match self.relationship_style_property() {
                Some(name) => {
                    match self.parse_style_property(name) {
                        Some(property) => { self.record_relationship_property(index, Field::Other, property); },
                        None => {},
                    }
                },
                None => {
                    self.unknown_statement("relationship");
                },
            }
        }
    }

    #[verifier::spinoff_prover]
    fn parse_removed_relationship(&mut self)
        requires
            old(self).wf(),
            old(self).cur() is Identifier,
        ensures
            final(self).wf(),
            final(self).ext(*old(self)),
            final(self).index > old(self).index,
    {
        let (source, source_span) = match self.take_identifier() {
            Some(v) => v,
            None => {
                let span = self.current_span();
                self.error(span, String::from_str("removed relationship source is missing"), None);
                self.skip_statement();
                return;
            },
        };
        self.advance();
        let (destination, destination_span) = match self.take_identifier() {
            Some(v) => v,
            None => {
                let span = self.current_span();
                self.error(span, String::from_str("removed relationship destination is missing"), Some("add an element identifier after '-/>'"));
                self.finish_statement("removed relationship");
                return;
            },
        };
        let description = self.take_value();
        let (end, description) = match description {
            Some((value, span)) => (span, if value.as_str().unicode_len() > 0 { Some(value) } else { None }),
            None => (destination_span, None),
        };
        let order = self.next_order();
        self.workspace.removed_relationships.push(RemovedRelationship {
            source,
            destination,
            description,
            span: source_span.merge(end),
            source_span,
            destination_span,
            order,
        });
        self.finish_statement("removed relationship");
    }

    #[verifier::spinoff_prover]
    fn parse_property_block(&mut self, label: &str) -> (r: Vec<Property>)
        requires
            old(self).wf(),
            !old(self).at_end(),
        ensures
            final(self).wf(),
            final(self).ext(*old(self)),
            final(self).index > old(self).index,
            props_in(r@, old(self).limit@),
    {
        self.advance();
        let mut properties: Vec<Property> = Vec::new();
        if !self.open_block(label) {
            return properties;
        }
        loop
            invariant
                self.wf(),
                self.ext(*old(self)),
                self.index > old(self).index,
                props_in(properties@, self.limit@),
            decreases self.tokens@.len() - self.index,
        {
            self.skip_newlines();
            if self.at(TokenTag::RightBrace) {
                self.close_block(label);
                return properties;
            }
            if self.at(TokenTag::Eof) {
                self.missing_closing_brace(label);
                return properties;
            }
            let (key, key_span) = match self.take_value() {
                Some(v) => v,
                None => {
                    let span = self.current_span();
                    self.error(span, cat(label, " key is missing"), None);
                    self.skip_statement();
                    continue;
                },
            };
            let (value, value_span) = match self.take_value() {
                Some(v) => v,
                None => {
                    self.error(key_span, cat5(label, " value for '", key.as_str(), "' is missing", ""), None);
                    self.finish_statement(label);
                    continue;
                },
            };
            properties.push(Property { key, value, span: key_span.merge(value_span) });
            self.finish_statement(label);
        }
    }

    #[verifier::spinoff_prover]
    fn parse_single_property(&mut self, label: &str) -> (r: Option<Property>)
        requires
            old(self).wf(),
            !old(self).at_end(),
        ensures
            final(self).wf(),
            final(self).ext(*old(self)),
            final(self).index > old(self).index,
            r matches Some(p) ==> old(self).ok(p.span),
    {
        let start = self.advance();
        let value = self.take_value();
        if value.is_none() {
            self.error(start, cat(label, " value is missing"), None);
        }
        self.finish_statement(label);
        match value {
            Some((value, span)) => {
                if value.as_str().unicode_len() > 0 {
                    Some(Property { key: String::from_str(label), value, span: start.merge(span) })
                } else {
                    None
                }
            },
            None => None,
        }
    }

    #[verifier::spinoff_prover]
    fn parse_directive(&mut self) -> (d: Directive)
        requires
            old(self).wf(),
            old(self).cur() is Bang,
        ensures
            final(self).wf(),
            final(self).ext(*old(self)),
            final(self).index > old(self).index,
            old(self).ok(d.span),
    {
        let name = match &self.tokens[self.index].kind {
            TokenKind::Bang(name) => name.clone(),
            _ => String::new(),
        };
        let start = self.advance();
        let arguments = self.take_raw_arguments();
        let mut span = start;
        if self.at(TokenTag::LeftBrace) {
            match self.skip_preserved_block(name.as_str()) {
                Some(end) => { span = span.merge(end); },
                None => {},
            }
        } else {
            let previous = self.tokens[self.index - 1].span;
            span = span.merge(previous);
            self.finish_statement(name.as_str());
        }
        Directive { name, arguments, span }
    }

    #[verifier::spinoff_prover]
    fn parse_unsafe_directive(&mut self)
        requires
            old(self).wf(),
            old(self).cur() is Bang,
        ensures
            final(self).wf(),
            final(self).ext(*old(self)),
            final(self).index > old(self).index,
    {
        let directive = self.parse_directive();
        self.error(directive.span, cat3("!", directive.name.as_str(), " is disabled and was not executed"), Some("remove executable directives; M6 parses them but never executes code"));
        self.push_directive(directive);
    }

    #[verifier::spinoff_prover]
    fn parse_preserved(&mut self, name: &str) -> (b: PreservedBlock)
        requires
            old(self).wf(),
            !old(self).at_end(),
        ensures
            final(self).wf(),
            final(self).ext(*old(self)),
            final(self).index > old(self).index,
            old(self).ok(b.span),
    {
        let start = self.advance();
        let arguments = self.take_raw_arguments();
        let span = if self.at(TokenTag::LeftBrace) {
            match self.skip_preserved_block(name) {
                Some(end) => start.merge(end),
                None => start,
            }
        } else {
            self.finish_statement(name);
            start
        };
        PreservedBlock { name: String::from_str(name), arguments, span }
    }

    /// Skips a block without reading it, braces nested; answers the closing brace's span.
    fn skip_preserved_block(&mut self, label: &str) -> (r: Option<Span>)
        requires
            old(self).wf(),
        ensures
            final(self).wf(),
            final(self).ext(*old(self)),
            r matches Some(s) ==> old(self).ok(s),
            final(self).order == old(self).order,
            final(self).workspace == old(self).workspace,
            final(self).parent_stack == old(self).parent_stack,
    {
        if !self.open_block(label) {
            return None;
        }
        let mut depth: usize = 1;
        while !self.at(TokenTag::Eof)
            invariant
                self.wf(),
                self.ext(*old(self)),
                1 <= depth <= self.index + 1,
                self.order == old(self).order,
                self.workspace == old(self).workspace,
                self.parent_stack == old(self).parent_stack,
            decreases self.tokens@.len() - self.index,
        {
            if self.at(TokenTag::LeftBrace) {
                depth = depth + 1;
                self.advance();
            } else if self.at(TokenTag::RightBrace) {
                if depth == 1 {
                    return self.close_block(label);
                }
                depth = depth - 1;
                self.advance();
            } else {
                self.advance();
            }
        }
        self.missing_closing_brace(label);
        None
    }

    fn warn_deferred(&mut self, directive: &Directive, message: &str)
        requires
            old(self).wf(),
            old(self).ok(directive.span),
        ensures
            final(self).wf(),
            final(self).ext(*old(self)),
            final(self).index == old(self).index,
    {
        self.warn(directive.span, cat5("!", directive.name.as_str(), ": ", message, ""), "the source construct was preserved without executing deferred behavior");
    }

    fn warn_preserved(&mut self, preserved: &PreservedBlock, message: &str)
        requires
            old(self).wf(),
            old(self).ok(preserved.span),
        ensures
            final(self).wf(),
            final(self).ext(*old(self)),
            final(self).index == old(self).index,
    {
        self.warn(preserved.span, cat3(preserved.name.as_str(), ": ", message), "the source block was preserved for a later milestone");
    }

    #[verifier::spinoff_prover]
    fn parse_views(&mut self)
        requires
            old(self).wf(),
            !old(self).at_end(),
        ensures
            final(self).wf(),
            final(self).ext(*old(self)),
            final(self).index > old(self).index,
    {
        self.advance();
        if !self.open_block("views") {
            return;
        }
        loop
            invariant
                self.wf(),
                self.ext(*old(self)),
                self.index > old(self).index,
            decreases self.tokens@.len() - self.index,
        {
            self.skip_newlines();
            if self.at(TokenTag::RightBrace) {
                self.close_block("views");
                return;
            }
            if self.at(TokenTag::Eof) {
                self.missing_closing_brace("views");
                return;
            }
            self.parse_view_statement();
        }
    }

    #[verifier::spinoff_prover]
    fn parse_view_statement(&mut self)
        requires
            old(self).wf(),
            old(self).at_statement(),
        ensures
            final(self).wf(),
            final(self).ext(*old(self)),
            final(self).index > old(self).index,
    {
        let kind = if self.at_keyword("systemLandscape") { Some(ViewKind::SystemLandscape) }
            else if self.at_keyword("systemContext") { Some(ViewKind::SystemContext) }
            else if self.at_keyword("container") { Some(ViewKind::Container) }
            else if self.at_keyword("component") { Some(ViewKind::Component) }
            else if self.at_keyword("filtered") { Some(ViewKind::Filtered) }
            else if self.at_keyword("dynamic") { Some(ViewKind::Dynamic) }
            else if self.at_keyword("deployment") { Some(ViewKind::Deployment) }
            else if self.at_keyword("custom") { Some(ViewKind::Custom) }
            else if self.at_keyword("image") { Some(ViewKind::Image) }
            else if self.at_keyword("archimateView") { Some(ViewKind::ArchiMate) }
            else { None };
        match kind {
            Some(kind) => {
                self.parse_view(kind);
            },
            None => {
                if self.at_keyword("properties") {
                    let mut properties = self.parse_property_block("properties");
                    self.workspace.view_properties.append(&mut properties);
                } else if self.at_keyword("styles") {
                    self.parse_styles();
                } else if self.at_keyword("theme") || self.at_keyword("themes") {
                    self.parse_themes(StyleMode::Default);
                } else if self.at_keyword("branding") {
                    self.parse_branding();
                } else if self.at_keyword("terminology") {
                    self.parse_terminology();
                } else {
                    self.unknown_statement("views");
                }
            },
        }
    }

    #[verifier::spinoff_prover]
    fn parse_styles(&mut self)
        requires
            old(self).wf(),
            !old(self).at_end(),
        ensures
            final(self).wf(),
            final(self).ext(*old(self)),
            final(self).index > old(self).index,
    {
        self.advance();
        if !self.open_block("styles") {
            return;
        }
        self.parse_style_block("styles", StyleMode::Default);
    }

    #[verifier::spinoff_prover]
    fn parse_style_block(&mut self, label: &str, mode: StyleMode)
        requires
            old(self).wf(),
        ensures
            final(self).wf(),
            final(self).ext(*old(self)),
        decreases old(self).tokens@.len() - old(self).index, 2nat,
    {
        loop
            invariant
                self.wf(),
                self.ext(*old(self)),
            decreases self.tokens@.len() - self.index,
        {
            self.skip_newlines();
            if self.at(TokenTag::RightBrace) {
                self.close_block(label);
                return;
            }
            if self.at(TokenTag::Eof) {
                self.missing_closing_brace(label);
                return;
            }
            if self.at_keyword("element") {
                self.parse_element_style(mode);
            } else if self.at_keyword("relationship") {
                self.parse_relationship_style(mode);
            } else if self.at_keyword("light") || self.at_keyword("dark") {
                let variant = if self.at_keyword("light") { StyleMode::Light } else { StyleMode::Dark };
                let start = self.advance();
                if self.open_block("style variant") {
                    self.warn(start, String::from_str("light/dark style variants are preserved but Mermaid uses default styles"), "a future exporter can select the requested style variant");
                    self.parse_style_block("style variant", variant);
                }
            } else if self.at_keyword("theme") || self.at_keyword("themes") {
                self.parse_themes(mode);
            } else {
                self.unknown_statement(label);
            }
        }
    }

    #[verifier::spinoff_prover]
    fn parse_element_style(&mut self, mode: StyleMode)
        requires
            old(self).wf(),
            !old(self).at_end(),
        ensures
            final(self).wf(),
            final(self).ext(*old(self)),
            final(self).index > old(self).index,
    {
        let start = self.advance();
        let tag = match self.take_value() {
            Some((tag, _)) => tag,
            None => {
                self.error(start, String::from_str("element style tag is missing"), None);
                self.skip_statement();
                return;
            },
        };
        if !self.open_block("element style") {
            return;
        }
        let mut style = ElementStyle { tag, mode, values: Vec::new(), properties: Vec::new(), span: start };
        loop
            invariant
                self.wf(),
                self.ext(*old(self)),
                self.index > old(self).index,
                self.ok(start),
                self.ok(style.span),
                props_in(style.values@, self.limit@),
                props_in(style.properties@, self.limit@),
            decreases self.tokens@.len() - self.index,
        {
            self.skip_newlines();
            if self.at(TokenTag::RightBrace) {
                match self.close_block("element style") {
                    Some(end) => { style.span = start.merge(end); },
                    None => {},
                }
                break;
            }
            if self.at(TokenTag::Eof) {
                self.missing_closing_brace("element style");
                break;
            }
            if self.at_keyword("properties") {
                let mut properties = self.parse_property_block("properties");
                style.properties.append(&mut properties);
                self.warn_style(start, "element style properties are not rendered by Mermaid");
            } else {
                match self.element_style_property() {
                    Some(name) => {
                        match self.parse_style_property(name) {
                            Some(property) => {
                                self.warn_element_style_property(&property);
                                style.values.push(property);
                            },
                            None => {},
                        }
                    },
                    None => {
                        self.unknown_statement("element style");
                    },
                }
            }
        }
        self.workspace.element_styles.push(style);
    }

    #[verifier::spinoff_prover]
    fn parse_relationship_style(&mut self, mode: StyleMode)
        requires
            old(self).wf(),
            !old(self).at_end(),
        ensures
            final(self).wf(),
            final(self).ext(*old(self)),
            final(self).index > old(self).index,
    {
        let start = self.advance();
        let tag = match self.take_value() {
            Some((tag, _)) => tag,
            None => {
                self.error(start, String::from_str("relationship style tag is missing"), None);
                self.skip_statement();
                return;
            },
        };
        if !self.open_block("relationship style") {
            return;
        }
        let mut style = RelationshipStyle { tag, mode, values: Vec::new(), properties: Vec::new(), span: start };
        loop
            invariant
                self.wf(),
                self.ext(*old(self)),
                self.index > old(self).index,
                self.ok(start),
                self.ok(style.span),
                props_in(style.values@, self.limit@),
                props_in(style.properties@, self.limit@),
            decreases self.tokens@.len() - self.index,
        {
            self.skip_newlines();
            if self.at(TokenTag::RightBrace) {
                match self.close_block("relationship style") {
                    Some(end) => { style.span = start.merge(end); },
                    None => {},
                }
                break;
            }
            if self.at(TokenTag::Eof) {
                self.missing_closing_brace("relationship style");
                break;
            }
            if self.at_keyword("properties") {
                let mut properties = self.parse_property_block("properties");
                style.properties.append(&mut properties);
                self.warn_style(start, "relationship style properties are not rendered by Mermaid");
            } else {
                match self.relationship_style_property() {
                    Some(name) => {
                        match self.parse_style_property(name) {
                            Some(property) => {
                                self.warn_relationship_style_property(&property);
                                style.values.push(property);
                            },
                            None => {},
                        }
                    },
                    None => {
                        self.unknown_statement("relationship style");
                    },
                }
            }
        }
        self.workspace.relationship_styles.push(style);
    }

    #[verifier::spinoff_prover]
    fn element_style_property(&self) -> (r: Option<&'static str>)
        requires
            self.wf(),
        ensures
            r is Some ==> self.cur() is Identifier,
            match r { Some(n) => Some(n@), None => None::<Seq<char>> } == element_style_word(self.cur()),
    {
        if self.at_keyword("shape") { Some("shape") }
        else if self.at_keyword("icon") { Some("icon") }
        else if self.at_keyword("width") { Some("width") }
        else if self.at_keyword("height") { Some("height") }
        else if self.at_keyword("background") { Some("background") }
        else if self.at_keyword("color") { Some("color") }
        else if self.at_keyword("colour") { Some("colour") }
        else if self.at_keyword("stroke") { Some("stroke") }
        else if self.at_keyword("strokeWidth") { Some("strokeWidth") }
        else if self.at_keyword("fontSize") { Some("fontSize") }
        else if self.at_keyword("border") { Some("border") }
        else if self.at_keyword("opacity") { Some("opacity") }
        else if self.at_keyword("metadata") { Some("metadata") }
        else if self.at_keyword("description") { Some("description") }
        else { None }
    }

    #[verifier::spinoff_prover]
    fn relationship_style_property(&self) -> (r: Option<&'static str>)
        requires
            self.wf(),
        ensures
            r is Some ==> self.cur() is Identifier,
            match r { Some(n) => Some(n@), None => None::<Seq<char>> } == relationship_style_word(self.cur()),
    {
        if self.at_keyword("thickness") { Some("thickness") }
        else if self.at_keyword("color") { Some("color") }
        else if self.at_keyword("colour") { Some("colour") }
        else if self.at_keyword("style") { Some("style") }
        else if self.at_keyword("routing") { Some("routing") }
        else if self.at_keyword("jump") { Some("jump") }
        else if self.at_keyword("fontSize") { Some("fontSize") }
        else if self.at_keyword("width") { Some("width") }
        else if self.at_keyword("position") { Some("position") }
        else if self.at_keyword("opacity") { Some("opacity") }
        else { None }
    }

    #[verifier::spinoff_prover]
    fn parse_style_property(&mut self, name: &str) -> (r: Option<Property>)
        requires
            old(self).wf(),
            !old(self).at_end(),
        ensures
            final(self).wf(),
            final(self).ext(*old(self)),
            final(self).index > old(self).index,
            r matches Some(p) ==> old(self).ok(p.span),
    {
        let start = self.advance();
        let value = self.take_value();
        if value.is_none() {
            self.error(start, cat(name, " value is missing"), None);
        }
        self.finish_statement(name);
        match value {
            Some((value, span)) => {
                if value.as_str().unicode_len() > 0 {
                    let key = if ieq(name, "colour") { String::from_str("color") } else { String::from_str(name) };
                    Some(Property { key, value, span: start.merge(span) })
                } else {
                    None
                }
            },
            None => None,
        }
    }

    fn warn_element_style_property(&mut self, property: &Property)
        requires
            old(self).wf(),
            old(self).ok(property.span),
        ensures
            final(self).wf(),
            final(self).ext(*old(self)),
            final(self).index == old(self).index,
    {
        let key = property.key.as_str();
        let unsupported = if seq_eq(key, "icon") || seq_eq(key, "width") || seq_eq(key, "height")
            || seq_eq(key, "fontSize") || seq_eq(key, "opacity") || seq_eq(key, "metadata") || seq_eq(key, "description") {
            true
        } else if seq_eq(key, "shape") {
            let v = property.value.as_str();
            !(ieq(v, "box") || ieq(v, "roundedbox") || ieq(v, "circle") || ieq(v, "hexagon") || ieq(v, "diamond") || ieq(v, "cylinder"))
        } else {
            false
        };
        if unsupported {
            let message = cat3("element style property '", key, "' is preserved but not rendered by Mermaid");
            self.warn_style(property.span, message.as_str());
        }
        if seq_eq(key, "icon") && is_remote_url(property.value.as_str()) {
            self.warn_style(property.span, "remote icon URL was preserved but was not fetched");
        }
    }

    fn warn_relationship_style_property(&mut self, property: &Property)
        requires
            old(self).wf(),
            old(self).ok(property.span),
        ensures
            final(self).wf(),
            final(self).ext(*old(self)),
            final(self).index == old(self).index,
    {
        let key = property.key.as_str();
        if seq_eq(key, "routing") || seq_eq(key, "jump") || seq_eq(key, "fontSize") || seq_eq(key, "width")
            || seq_eq(key, "position") || seq_eq(key, "opacity") {
            let message = cat3("relationship style property '", key, "' is preserved but not rendered by Mermaid");
            self.warn_style(property.span, message.as_str());
        }
    }

    #[verifier::spinoff_prover]
    fn parse_themes(&mut self, mode: StyleMode)
        requires
            old(self).wf(),
            !old(self).at_end(),
        ensures
            final(self).wf(),
            final(self).ext(*old(self)),
            final(self).index > old(self).index,
    {
        let plural = match &self.tokens[self.index].kind {
            TokenKind::Identifier(name) => ieq(name.as_str(), "themes"),
            _ => false,
        };
        let start = self.advance();
        let values = self.take_values();
        if values.len() == 0 {
            self.error(start, String::from_str("theme reference is missing"), None);
        }
        if !plural {
            self.limit_arguments(&values, 1, "theme accepts one reference");
        }
        let mut i: usize = 0;
        while i < values.len()
            invariant
                self.wf(),
                self.ext(*old(self)),
                self.index > old(self).index,
                self.args_ok(values@),
                i <= values@.len(),
            decreases values@.len() - i,
        {
            let source = values[i].0.clone();
            let span = values[i].1;
            let message = if is_remote_url(source.as_str()) {
                "remote theme URL was preserved but was not fetched"
            } else {
                "theme reference was preserved but was not loaded"
            };
            self.warn_style(span, message);
            self.push_theme(ThemeReference { source, mode, span });
            i = i + 1;
        }
        self.finish_statement("theme");
    }

    #[verifier::spinoff_prover]
    fn parse_branding(&mut self)
        requires
            old(self).wf(),
            !old(self).at_end(),
        ensures
            final(self).wf(),
            final(self).ext(*old(self)),
            final(self).index > old(self).index,
    {
        let start = self.advance();
        if !self.open_block("branding") {
            return;
        }
        let mut branding = Branding { logo: None, fonts: Vec::new(), span: start };
        loop
            invariant
                self.wf(),
                self.ext(*old(self)),
                self.index > old(self).index,
                self.ok(start),
                self.ok(branding.span),
                match branding.logo { Some(l) => self.ok(l.span), None => true },
                forall|i: int| 0 <= i < branding.fonts@.len() ==> self.ok(#[trigger] branding.fonts@[i].span),
            decreases self.tokens@.len() - self.index,
        {
            self.skip_newlines();
            if self.at(TokenTag::RightBrace) {
                match self.close_block("branding") {
                    Some(end) => { branding.span = start.merge(end); },
                    None => {},
                }
                break;
            }
            if self.at(TokenTag::Eof) {
                self.missing_closing_brace("branding");
                break;
            }
            if self.eat_keyword("logo").is_some() {
                match self.take_value() {
                    Some((value, span)) => {
                        if is_remote_url(value.as_str()) {
                            self.warn_style(span, "remote branding logo was preserved but was not fetched");
                        }
                        branding.logo = Some(Property { key: String::from_str("logo"), value, span });
                    },
                    None => {
                        let span = self.current_span();
                        self.error(span, String::from_str("branding logo is missing"), None);
                    },
                }
                self.finish_statement("branding logo");
            } else if self.eat_keyword("font").is_some() {
                let values = self.take_values();
                self.limit_arguments(&values, 2, "branding font accepts a name and optional URL");
                if values.len() > 0 {
                    let location = arg_at(&values, 1);
                    let remote = match &location { Some(l) => is_remote_url(l.as_str()), None => false };
                    if remote {
                        self.warn_style(values[1].1, "remote branding font was preserved but was not fetched");
                    }
                    branding.fonts.push(BrandingFont { name: values[0].0.clone(), location, span: values[0].1 });
                } else {
                    let span = self.current_span();
                    self.error(span, String::from_str("branding font name is missing"), None);
                }
                self.finish_statement("branding font");
            } else {
                self.unknown_statement("branding");
            }
        }
        self.warn_style(branding.span, "branding metadata is preserved but not rendered by Mermaid");
        self.workspace.branding = Some(branding);
    }

    fn terminology_name(&self) -> (r: Option<&'static str>)
        requires
            self.wf(),
        ensures
            r is Some ==> self.cur() is Identifier,
            match r { Some(n) => Some(n@), None => None::<Seq<char>> } == terminology_word(self.cur()),
    {
        if self.at_keyword("person") { Some("person") }
        else if self.at_keyword("softwareSystem") { Some("softwareSystem") }
        else if self.at_keyword("container") { Some("container") }
        else if self.at_keyword("component") { Some("component") }
        else if self.at_keyword("deploymentNode") { Some("deploymentNode") }
        else if self.at_keyword("infrastructureNode") { Some("infrastructureNode") }
        else if self.at_keyword("relationship") { Some("relationship") }
        else if self.at_keyword("metadata") { Some("metadata") }
        else { None }
    }

    #[verifier::spinoff_prover]
    fn parse_terminology(&mut self)
        requires
            old(self).wf(),
            !old(self).at_end(),
        ensures
            final(self).wf(),
            final(self).ext(*old(self)),
            final(self).index > old(self).index,
    {
        self.advance();
        if !self.open_block("terminology") {
            return;
        }
        loop
            invariant
                self.wf(),
                self.ext(*old(self)),
                self.index > old(self).index,
            decreases self.tokens@.len() - self.index,
        {
            self.skip_newlines();
            if self.at(TokenTag::RightBrace) {
                self.close_block("terminology");
                break;
            }
            if self.at(TokenTag::Eof) {
                self.missing_closing_brace("terminology");
                break;
            }
            match self.terminology_name() {
                Some(name) => {
                    match self.parse_style_property(name) {
                        Some(property) => {
                            if seq_eq(name, "relationship") || seq_eq(name, "metadata") {
                                let message = cat3("terminology '", name, "' is preserved but not rendered by Mermaid");
                                self.warn_style(property.span, message.as_str());
                            }
                            self.workspace.terminology.push(property);
                        },
                        None => {},
                    }
                },
                None => {
                    self.unknown_statement("terminology");
                },
            }
        }
    }

    fn warn_style(&mut self, span: Span, message: &str)
        requires
            old(self).wf(),
            old(self).ok(span),
        ensures
            final(self).wf(),
            final(self).ext(*old(self)),
            final(self).index == old(self).index,
            final(self).order == old(self).order,
    {
        self.warn(span, String::from_str(message), "the value remains available to future local exporters");
    }

    #[verifier::spinoff_prover]
    fn push_theme(&mut self, theme: ThemeReference)
        requires
            old(self).wf(),
            old(self).ok(theme.span),
        ensures
            final(self).wf(),
            final(self).ext(*old(self)),
            final(self).index == old(self).index,
    {
        self.workspace.themes.push(theme);
    }

    #[verifier::spinoff_prover]
    fn parse_view(&mut self, kind: ViewKind)
        requires
            old(self).wf(),
            !old(self).at_end(),
        ensures
            final(self).wf(),
            final(self).ext(*old(self)),
            final(self).index > old(self).index,
            (final(self).workspace.views@.len() > old(self).workspace.views@.len() && final(self).workspace.views@.last().kind == kind)
                || final(self).diagnostics@.len() > old(self).diagnostics@.len(),
    {
        let start = self.advance();
        let mut scope: Option<(String, Span)> = None;
        let mut filter: Option<ViewFilter> = None;
        let mut environment: Option<Reference> = None;
        let arguments = match kind {
            ViewKind::SystemLandscape | ViewKind::Custom | ViewKind::ArchiMate => self.take_values(),
            ViewKind::Filtered => {
                let base = self.take_identifier();
                let mode = self.take_identifier();
                let tags = self.take_value();
                match (base, mode, tags) {
                    (Some((base_key, base_span)), Some((mode, mode_span)), Some((tags, _))) => {
                        let mode = if ieq(mode.as_str(), "include") {
                            Some(FilterMode::Include)
                        } else if ieq(mode.as_str(), "exclude") {
                            Some(FilterMode::Exclude)
                        } else {
                            self.error(mode_span, cat3("invalid filtered view mode '", mode.as_str(), "'"), Some("use include or exclude"));
                            None
                        };
                        filter = match mode {
                            Some(mode) => Some(ViewFilter {
                                base_key: Reference { identifier: base_key, span: base_span },
                                mode,
                                tags: split_tags(tags.as_str()),
                            }),
                            None => None,
                        };
                    },
                    _ => {
                        let span = self.current_span();
                        self.error(span, String::from_str("filtered view requires a base key, mode, and tags"), Some("use 'filtered <baseKey> <include|exclude> <tags>'"));
                    },
                }
                self.take_values()
            },
            ViewKind::Deployment => {
                scope = self.take_view_scope();
                environment = match self.take_value() {
                    Some((identifier, span)) => Some(Reference { identifier, span }),
                    None => None,
                };
                if environment.is_none() {
                    let span = self.current_span();
                    self.error(span, String::from_str("deployment view environment is missing"), Some("add an environment identifier or name"));
                }
                self.take_values()
            },
            _ => {
                scope = self.take_view_scope();
                self.take_values()
            },
        };
        let maximum: usize = match kind {
            ViewKind::Custom => 3,
            ViewKind::Image | ViewKind::ArchiMate => 1,
            _ => 2,
        };
        self.limit_arguments(&arguments, maximum, "too many arguments for view");
        if requires_scope(&kind) && scope.is_none() {
            let span = self.current_span();
            self.error(span, cat(view_label(&kind), " view scope is missing"), Some("add an element identifier or '*' before the view key"));
        }
        if !self.open_block("view") {
            return;
        }
        let order = self.next_order();
        let is_custom = match kind { ViewKind::Custom => true, _ => false };
        let (scope_value, scope_span) = match scope {
            Some((value, span)) => (Some(value), Some(span)),
            None => (None, None),
        };
        let key_span = if arguments.len() > 0 { Some(arguments[0].1) } else { None };
        let mut view = View {
            kind,
            scope: scope_value,
            key: arg_at(&arguments, 0),
            description: arg_at(&arguments, if is_custom { 2 } else { 1 }),
            includes: Vec::new(),
            excludes: Vec::new(),
            auto_layout: None,
            title: if is_custom { arg_at(&arguments, 1) } else { None },
            is_default: false,
            animations: Vec::new(),
            properties: Vec::new(),
            filter,
            environment,
            dynamic_relationships: Vec::new(),
            image_sources: Vec::new(),
            order,
            span: start,
            scope_span,
            key_span,
        };
        loop
            invariant
                self.wf(),
                self.ext(*old(self)),
                self.index > old(self).index,
                self.ok(start),
                self.ok(view.span),
                view.spans_in(self.limit@),
                view.kind == kind,
            decreases self.tokens@.len() - self.index,
        {
            self.skip_newlines();
            if self.at(TokenTag::RightBrace) {
                match self.close_block("view") {
                    Some(end) => { view.span = start.merge(end); },
                    None => {},
                }
                break;
            }
            if self.at(TokenTag::Eof) {
                self.missing_closing_brace("view");
                break;
            }
            self.parse_view_property(&mut view);
        }
        match view.kind {
            ViewKind::Custom | ViewKind::Image => {
                let message = cat(view_label(&view.kind), " view rendering is deferred");
                self.warn(view.span, message, "the view grammar and metadata were preserved without remote rendering");
            },
            _ => {},
        }
        self.push_view(view);
    }

    #[verifier::spinoff_prover]
    fn push_view(&mut self, view: View)
        requires
            old(self).wf(),
            view.spans_in(old(self).limit@),
        ensures
            final(self).wf(),
            final(self).ext(*old(self)),
            final(self).index == old(self).index,
            final(self).workspace.views@ == old(self).workspace.views@.push(view),
    {
        self.workspace.views.push(view);
    }

    #[verifier::spinoff_prover]
    fn parse_view_property(&mut self, view: &mut View)
        requires
            old(self).wf(),
            old(self).at_statement(),
            old(view).spans_in(old(self).limit@),
        ensures
            final(self).wf(),
            final(self).ext(*old(self)),
            final(self).index > old(self).index,
            final(view).spans_in(old(self).limit@),
            final(view).span == old(view).span,
            final(view).kind == old(view).kind,
    {
        if self.eat_keyword("include").is_some() {
            let mut selectors = self.take_view_selectors();
            if selectors.len() == 0 {
                let span = self.current_span();
                self.error(span, String::from_str("include reference is missing"), Some("use 'include *' or an element identifier"));
            }
            self.warn_unsupported_selectors(&selectors);
            view.includes.append(&mut selectors);
            self.finish_statement("include");
        } else if self.eat_keyword("exclude").is_some() {
            let mut selectors = self.take_view_selectors();
            if selectors.len() == 0 {
                let span = self.current_span();
                self.error(span, String::from_str("exclude reference is missing"), Some("add an element identifier"));
            }
            self.warn_unsupported_selectors(&selectors);
            view.excludes.append(&mut selectors);
            self.finish_statement("exclude");
        } else if self.at_keyword("autolayout") {
            let start = self.advance();
            let arguments = self.take_values();
            self.limit_arguments(&arguments, 3, "autoLayout accepts direction, rank, and node separation");
            let direction = if arguments.len() > 0 { arguments[0].0.clone() } else { String::from_str("tb") };
            view_set_layout(view, AutoLayout {
                direction,
                rank_separation: arg_at(&arguments, 1),
                node_separation: arg_at(&arguments, 2),
                span: start,
            }, Ghost(self.limit@));
            self.finish_statement("autolayout");
        } else if self.eat_keyword("default").is_some() {
            view.is_default = true;
            self.finish_statement("default");
        } else if self.at_keyword("animation") {
            self.parse_animation(view);
        } else if self.eat_keyword("title").is_some() {
            view.title = match self.take_value() { Some((v, _)) => Some(v), None => None };
            if view.title.is_none() {
                let span = self.current_span();
                self.error(span, String::from_str("view title is missing"), Some("add a quoted or unquoted title"));
            }
            self.finish_statement("title");
        } else if self.eat_keyword("description").is_some() {
            view.description = match self.take_value() { Some((v, _)) => Some(v), None => None };
            if view.description.is_none() {
                let span = self.current_span();
                self.error(span, String::from_str("view description is missing"), None);
            }
            self.finish_statement("description");
        } else if view.kind == ViewKind::ArchiMate && self.at_keyword("viewpoint") {
            match self.parse_single_property("viewpoint") {
                Some(property) => { view_push_property(view, property, Ghost(self.limit@)); },
                None => {},
            }
        } else if self.at_keyword("properties") {
            let mut properties = self.parse_property_block("properties");
            view.properties.append(&mut properties);
        } else if view.kind == ViewKind::ArchiMate && self.at_keyword("object") {
            self.parse_archimate_view_object(view);
        } else if view.kind == ViewKind::Dynamic {
            self.parse_dynamic_relationship(view);
        } else if view.kind == ViewKind::Image
            && (self.at_keyword("plantuml") || self.at_keyword("mermaid") || self.at_keyword("kroki") || self.at_keyword("image"))
        {
            self.parse_image_source(view);
        } else {
            self.unknown_statement("view");
        }
    }

    fn object_property_name(&self) -> (r: Option<&'static str>)
        requires
            self.wf(),
        ensures
            r is Some ==> self.cur() is Identifier,
            match r { Some(n) => Some(n@), None => None::<Seq<char>> } == object_property_word(self.cur()),
    {
        if self.at_keyword("x") { Some("x") }
        else if self.at_keyword("y") { Some("y") }
        else if self.at_keyword("width") { Some("width") }
        else if self.at_keyword("height") { Some("height") }
        else if self.at_keyword("background") { Some("background") }
        else if self.at_keyword("color") { Some("color") }
        else if self.at_keyword("colour") { Some("colour") }
        else if self.at_keyword("stroke") { Some("stroke") }
        else if self.at_keyword("fontSize") { Some("fontSize") }
        else { None }
    }

    #[verifier::spinoff_prover]
    fn parse_archimate_view_object(&mut self, view: &mut View)
        requires
            old(self).wf(),
            !old(self).at_end(),
            old(view).spans_in(old(self).limit@),
        ensures
            final(self).wf(),
            final(self).ext(*old(self)),
            final(self).index > old(self).index,
            final(view).spans_in(old(self).limit@),
            final(view).span == old(view).span,
            final(view).kind == old(view).kind,
    {
        let start = self.advance();
        let (identifier, identifier_span) = match self.take_identifier() {
            Some(v) => v,
            None => {
                self.error(start, String::from_str("archimateView object identifier is missing"), None);
                self.skip_statement();
                return;
            },
        };
        if !self.open_block("archimateView object") {
            return;
        }
        loop
            invariant
                self.wf(),
                self.ext(*old(self)),
                self.index > old(self).index,
                self.ok(identifier_span),
                view.spans_in(self.limit@),
                view.span == old(view).span,
                view.kind == old(view).kind,
            decreases self.tokens@.len() - self.index,
        {
            self.skip_newlines();
            if self.at(TokenTag::RightBrace) {
                self.close_block("archimateView object");
                return;
            }
            if self.at(TokenTag::Eof) {
                self.missing_closing_brace("archimateView object");
                return;
            }
            match self.object_property_name() {
                Some(name) => {
                    match self.parse_style_property(name) {
                        Some(property) => {
                            let key = if seq_eq(property.key.as_str(), "colour") { String::from_str("color") } else { property.key.clone() };
                            let full = cat5("object.", identifier.as_str(), ".", key.as_str(), "");
                            let span = identifier_span.merge(property.span);
                            view_push_property(view, Property { key: full, value: property.value, span }, Ghost(self.limit@));
                        },
                        None => {},
                    }
                },
                None => {
                    self.unknown_statement("archimateView object");
                },
            }
        }
    }

    #[verifier::spinoff_prover]
    fn parse_animation(&mut self, view: &mut View)
        requires
            old(self).wf(),
            !old(self).at_end(),
            old(view).spans_in(old(self).limit@),
        ensures
            final(self).wf(),
            final(self).ext(*old(self)),
            final(self).index > old(self).index,
            final(view).spans_in(old(self).limit@),
            final(view).span == old(view).span,
            final(view).kind == old(view).kind,
    {
        let start = self.advance();
        if !self.open_block("animation") {
            return;
        }
        loop
            invariant
                self.wf(),
                self.ext(*old(self)),
                self.index > old(self).index,
                self.ok(start),
                view.spans_in(self.limit@),
                view.span == old(view).span,
                view.kind == old(view).kind,
            decreases self.tokens@.len() - self.index,
        {
            self.skip_newlines();
            if self.at(TokenTag::RightBrace) {
                self.close_block("animation");
                break;
            }
            if self.at(TokenTag::Eof) {
                self.missing_closing_brace("animation");
                break;
            }
            let step_start = self.current_span();
            let values = self.take_values();
            let mut elements: Vec<Reference> = Vec::new();
            let mut k: usize = 0;
            while k < values.len()
                invariant
                    k <= values@.len(),
                    elements@.len() == k,
                    self.args_ok(values@),
                    forall|j: int| 0 <= j < k ==> self.ok((#[trigger] elements@[j]).span),
                    forall|j: int| 0 <= j < k ==> (#[trigger] elements@[j]).span == values@[j].1,
                decreases values@.len() - k,
            {
                elements.push(Reference { identifier: values[k].0.clone(), span: values[k].1 });
                k = k + 1;
            }
            if elements.len() == 0 {
                self.error(step_start, String::from_str("animation step is empty"), Some("add one or more element identifiers"));
            } else {
                let end = elements[elements.len() - 1].span;
                view_push_animation(view, AnimationStep { elements, span: step_start.merge(end) }, Ghost(self.limit@));
            }
            self.finish_statement("animation");
        }
        if view.animations.len() == 0 {
            self.warn(start, String::from_str("animation has no steps"), "add identifiers inside the animation block");
        }
    }

    #[verifier::spinoff_prover]
    fn parse_dynamic_relationship(&mut self, view: &mut View)
        requires
            old(self).wf(),
            old(self).at_statement(),
            old(view).spans_in(old(self).limit@),
        ensures
            final(self).wf(),
            final(self).ext(*old(self)),
            final(self).index > old(self).index,
            final(view).spans_in(old(self).limit@),
            final(view).span == old(view).span,
            final(view).kind == old(view).kind,
    {
        let start = self.current_span();
        let mut sequence: Option<String> = None;
        let numbered = match &self.tokens[self.index].kind {
            TokenKind::Identifier(value) => {
                if ends_with(value.as_str(), ":") {
                    let v = chars_of(value.as_str());
                    let mut e = v.len();
                    while e > 0 && v[e - 1] == ':'
                        invariant
                            e <= v@.len(),
                        decreases e,
                    {
                        e = e - 1;
                    }
                    sequence = Some(string_of(&v.as_slice()[0..e]));
                    true
                } else {
                    false
                }
            },
            _ => false,
        };
        if numbered {
            self.advance();
        }
        let (identifier, identifier_span) = match self.take_identifier() {
            Some(v) => v,
            None => {
                self.unknown_statement("dynamic view");
                return;
            },
        };
        let mut relationship = DynamicRelationship {
            sequence,
            source: None,
            destination: None,
            relationship: None,
            description: None,
            technology: None,
            span: start,
        };
        if self.at(TokenTag::Arrow) {
            self.advance();
            relationship.source = Some(Reference { identifier, span: identifier_span });
            relationship.destination = match self.take_identifier() {
                Some((identifier, span)) => Some(Reference { identifier, span }),
                None => None,
            };
            if relationship.destination.is_none() {
                let span = self.current_span();
                self.error(span, String::from_str("dynamic relationship destination is missing"), None);
            }
            let arguments = self.take_values();
            self.limit_arguments(&arguments, 2, "dynamic relationship accepts description and technology");
            relationship.description = arg_at(&arguments, 0);
            relationship.technology = arg_at(&arguments, 1);
        } else {
            relationship.relationship = Some(Reference { identifier, span: identifier_span });
            let arguments = self.take_values();
            self.limit_arguments(&arguments, 1, "relationship reference accepts one description override");
            relationship.description = arg_at(&arguments, 0);
        }
        let previous = self.tokens[self.index - 1].span;
        relationship.span = start.merge(previous);
        self.finish_statement("dynamic relationship");
        view_push_dynamic(view, relationship, Ghost(self.limit@));
    }

    #[verifier::spinoff_prover]
    fn parse_image_source(&mut self, view: &mut View)
        requires
            old(self).wf(),
            old(self).cur() is Identifier,
            old(view).spans_in(old(self).limit@),
        ensures
            final(self).wf(),
            final(self).ext(*old(self)),
            final(self).index > old(self).index,
            final(view).spans_in(old(self).limit@),
            final(view).span == old(view).span,
            final(view).kind == old(view).kind,
    {
        let kind = match &self.tokens[self.index].kind {
            TokenKind::Identifier(value) => value.clone(),
            _ => String::new(),
        };
        let start = self.advance();
        let arguments = self.take_values();
        let expected: usize = if ieq(kind.as_str(), "kroki") { 2 } else { 1 };
        if arguments.len() != expected {
            let message = cat5(kind.as_str(), " image source expects ", usize_to_string(expected).as_str(), " argument(s)", "");
            self.error(start, message, None);
        }
        let mut k: usize = 0;
        while k < arguments.len()
            invariant
                self.wf(),
                self.ext(*old(self)),
                self.index > old(self).index,
                self.args_ok(arguments@),
                k <= arguments@.len(),
            decreases arguments@.len() - k,
        {
            if is_remote_url(arguments[k].0.as_str()) {
                self.error(arguments[k].1, String::from_str("remote image source is disabled and was not fetched"), Some("use a local file or view key; remote rendering is not allowed"));
                break;
            }
            k = k + 1;
        }
        let span = if arguments.len() > 0 { start.merge(arguments[arguments.len() - 1].1) } else { start };
        let mut texts: Vec<String> = Vec::new();
        let mut j: usize = 0;
        while j < arguments.len()
            invariant
                j <= arguments@.len(),
            decreases arguments@.len() - j,
        {
            texts.push(arguments[j].0.clone());
            j = j + 1;
        }
        view_push_image(view, ImageSource { kind, arguments: texts, span }, Ghost(self.limit@));
        self.finish_statement("image source");
    }

    #[verifier::spinoff_prover]
    fn take_view_scope(&mut self) -> (r: Option<(String, Span)>)
        requires
            old(self).wf(),
        ensures
            final(self).wf(),
            final(self).ext(*old(self)),
            r matches Some(v) ==> old(self).ok(v.1),
            final(self).workspace == old(self).workspace,
            final(self).diagnostics == old(self).diagnostics,
            final(self).order == old(self).order,
            final(self).parent_stack == old(self).parent_stack,
    {
        if self.at(TokenTag::Star) {
            let span = self.advance();
            Some((String::from_str("*"), span))
        } else {
            self.take_identifier()
        }
    }

    /// The selectors up to the end of the line: one expression if any operator occurs,
    /// else one selector per token.
    #[verifier::spinoff_prover]
    fn take_view_selectors(&mut self) -> (r: Vec<ViewSelector>)
        requires
            old(self).wf(),
        ensures
            final(self).wf(),
            final(self).ext(*old(self)),
            forall|i: int| 0 <= i < r@.len() ==> old(self).ok((#[trigger] r@[i]).span),
            final(self).workspace == old(self).workspace,
            final(self).diagnostics == old(self).diagnostics,
            final(self).order == old(self).order,
            final(self).parent_stack == old(self).parent_stack,
    {
        let first = self.index;
        while !self.at(TokenTag::Newline) && !self.at(TokenTag::RightBrace) && !self.at(TokenTag::Eof)
            invariant
                self.wf(),
                self.ext(*old(self)),
                first == old(self).index,
                self.workspace == old(self).workspace,
                self.diagnostics == old(self).diagnostics,
                self.order == old(self).order,
                self.parent_stack == old(self).parent_stack,
            decreases self.tokens@.len() - self.index,
        {
            self.advance();
        }
        let last = self.index;
        let mut operator = false;
        let mut i = first;
        while i < last
            invariant
                self.wf(),
                first <= i <= last <= self.index,
                operator ==> first < last,
            decreases last - i,
        {
            match self.tokens[i].kind {
                TokenKind::Arrow | TokenKind::Equals | TokenKind::DoubleEquals | TokenKind::NotEquals
                | TokenKind::And | TokenKind::Or | TokenKind::Not | TokenKind::LeftParen
                | TokenKind::RightParen => { operator = true; },
                _ => {},
            }
            i = i + 1;
        }
        let mut selectors: Vec<ViewSelector> = Vec::new();
        if operator {
            let span = self.tokens[first].span.merge(self.tokens[last - 1].span);
            let mut value = String::new();
            let mut k = first;
            while k < last
                invariant
                    self.wf(),
                    first <= k <= last <= self.index,
                decreases last - k,
            {
                if k > first {
                    value.append(" ");
                }
                value.append(token_text(&self.tokens[k].kind).as_str());
                k = k + 1;
            }
            selectors.push(ViewSelector { value, span, expression: true });
            return selectors;
        }
        let mut k = first;
        while k < last
            invariant
                self.wf(),
                first <= k <= last <= self.index,
                self.ext(*old(self)),
                forall|i: int| 0 <= i < selectors@.len() ==> old(self).ok((#[trigger] selectors@[i]).span),
            decreases last - k,
        {
            let value = match &self.tokens[k].kind {
                TokenKind::Star => String::from_str("*"),
                TokenKind::ReluctantStar => String::from_str("*?"),
                TokenKind::Identifier(value) => value.clone(),
                TokenKind::String(value) => value.clone(),
                _ => token_text(&self.tokens[k].kind),
            };
            let expression = contains(value.as_str(), "->") || contains_char(value.as_str(), ' ')
                || contains(value.as_str(), "==") || contains(value.as_str(), "!=");
            selectors.push(ViewSelector { value, span: self.tokens[k].span, expression });
            k = k + 1;
        }
        selectors
    }

    fn warn_unsupported_selectors(&mut self, selectors: &Vec<ViewSelector>)
        requires
            old(self).wf(),
            forall|i: int| 0 <= i < selectors@.len() ==> old(self).ok((#[trigger] selectors@[i]).span),
        ensures
            final(self).wf(),
            final(self).ext(*old(self)),
            final(self).index == old(self).index,
            final(self).order == old(self).order,
    {
        let mut i: usize = 0;
        while i < selectors.len()
            invariant
                self.wf(),
                self.ext(*old(self)),
                self.index == old(self).index,
                self.order == old(self).order,
                i <= selectors@.len(),
                forall|i: int| 0 <= i < selectors@.len() ==> self.ok((#[trigger] selectors@[i]).span),
            decreases selectors@.len() - i,
        {
            let selector = &selectors[i];
            if selector.expression && !contains(selector.value.as_str(), "->") && !supported_view_expression(selector.value.as_str()) {
                let message = cat3("view expression '", selector.value.as_str(), "' was preserved but is not evaluated");
                self.warn(selector.span, message, "use identifiers, wildcards, or a simple source -> destination pattern");
            }
            i = i + 1;
        }
    }
}

fn last_string(v: &Vec<String>) -> (r: Option<String>)
    ensures
        v@.len() == 0 ==> r is None,
        v@.len() > 0 ==> (r matches Some(s) && s@ == v@.last()@),
{
    let n = v.len();
    if n > 0 { Some(v[n - 1].clone()) } else { None }
}

fn opt_eq(a: &Option<String>, b: &Option<String>) -> (r: bool)
    ensures
        r == match (a, b) {
            (Some(x), Some(y)) => x@ == y@,
            (None, None) => true,
            _ => false,
        },
{
    match (a, b) {
        (Some(x), Some(y)) => seq_eq(x.as_str(), y.as_str()),
        (None, None) => true,
        _ => false,
    }
}

/// The identity of a view: what its parts are added to.
spec fn same_view_head(a: View, b: View) -> bool {
    &&& a.kind == b.kind
    &&& a.span == b.span
    &&& a.scope == b.scope
    &&& a.key == b.key
    &&& a.scope_span == b.scope_span
    &&& a.key_span == b.key_span
    &&& a.order == b.order
}

#[verifier::spinoff_prover]
fn view_set_layout(view: &mut View, layout: AutoLayout, Ghost(n): Ghost<nat>)
    requires
        old(view).spans_in(n),
        sp(layout.span, n),
    ensures
        final(view).spans_in(n),
        same_view_head(*final(view), *old(view)),
{
    view.auto_layout = Some(layout);
}

#[verifier::spinoff_prover]
fn view_push_property(view: &mut View, property: Property, Ghost(n): Ghost<nat>)
    requires
        old(view).spans_in(n),
        sp(property.span, n),
    ensures
        final(view).spans_in(n),
        same_view_head(*final(view), *old(view)),
{
    view.properties.push(property);
}

#[verifier::spinoff_prover]
fn view_push_animation(view: &mut View, step: AnimationStep, Ghost(n): Ghost<nat>)
    requires
        old(view).spans_in(n),
        sp(step.span, n),
        refs_in(step.elements@, n),
    ensures
        final(view).spans_in(n),
        same_view_head(*final(view), *old(view)),
{
    view.animations.push(step);
}

#[verifier::spinoff_prover]
fn view_push_dynamic(view: &mut View, relationship: DynamicRelationship, Ghost(n): Ghost<nat>)
    requires
        old(view).spans_in(n),
        sp(relationship.span, n),
        opt_ref_in(relationship.source, n),
        opt_ref_in(relationship.destination, n),
        opt_ref_in(relationship.relationship, n),
    ensures
        final(view).spans_in(n),
        same_view_head(*final(view), *old(view)),
{
    view.dynamic_relationships.push(relationship);
}

#[verifier::spinoff_prover]
fn view_push_image(view: &mut View, source: ImageSource, Ghost(n): Ghost<nat>)
    requires
        old(view).spans_in(n),
        sp(source.span, n),
    ensures
        final(view).spans_in(n),
        same_view_head(*final(view), *old(view)),
{
    view.image_sources.push(source);
}

} // verus!
