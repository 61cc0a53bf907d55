use vstd::prelude::*;
use vstd::view::View as _;
use crate::diagnostic::Diagnostic;
use crate::source::{SourceMap, Span};

verus! {

/// One include that preprocessing followed: `from` included `to`.
#[derive(Debug)]
pub struct IncludeDependency {
    pub from: String,
    pub to: String,
}

/// A compiled workspace: the model, its views and styles, and what was preserved.
#[derive(Debug)]
pub struct Workspace {
    pub name: Option<String>,
    pub description: Option<String>,
    pub elements: Vec<Element>,
    pub relationships: Vec<Relationship>,
    pub views: Vec<View>,
    pub identifiers: String,
    pub identifiers_explicit: bool,
    pub extension: Option<WorkspaceExtension>,
    pub attributes: Vec<Property>,
    pub properties: Vec<Property>,
    pub view_properties: Vec<Property>,
    pub directives: Vec<Directive>,
    pub preserved: Vec<PreservedBlock>,
    pub groups: Vec<Group>,
    pub removed_relationships: Vec<RemovedRelationship>,
    pub implied_relationships: Option<String>,
    pub enterprise: Option<NamedBlock>,
    pub element_styles: Vec<ElementStyle>,
    pub relationship_styles: Vec<RelationshipStyle>,
    pub themes: Vec<ThemeReference>,
    pub branding: Option<Branding>,
    pub terminology: Vec<Property>,
    pub dependencies: Vec<IncludeDependency>,
    pub documentation: Vec<DocumentationSection>,
    pub decisions: Vec<DecisionRecord>,
    pub warnings: Vec<Diagnostic>,
    pub span: Span,
    pub source_map: SourceMap,
}

#[derive(Debug)]
pub struct Element {
    pub id: String,
    pub kind: ElementKind,
    pub name: String,
    pub description: Option<String>,
    pub technology: Option<String>,
    pub parent: Option<String>,
    pub group: Option<usize>,
    pub tags: Vec<String>,
    pub url: Option<String>,
    pub attributes: Vec<Property>,
    pub properties: Vec<Property>,
    pub perspectives: Vec<Property>,
    pub instances: Option<String>,
    pub instance_of: Option<Reference>,
    pub reference: Option<Reference>,
    pub deployment_groups: Vec<Reference>,
    pub health_checks: Vec<HealthCheck>,
    pub directives: Vec<Directive>,
    pub element_type: Option<String>,
    pub order: usize,
    pub span: Span,
    pub id_span: Span,
}

/// What an element is; ArchiMate elements carry their native type name.
#[derive(Debug, Clone, Copy, PartialEq, Eq)]
pub enum ElementKind {
    Person,
    SoftwareSystem,
    Container,
    Component,
    Generic,
    DeploymentEnvironment,
    DeploymentGroup,
    DeploymentNode,
    InfrastructureNode,
    SoftwareSystemInstance,
    ContainerInstance,
    ArchiMate(&'static str),
}

#[derive(Debug)]
pub struct Relationship {
    pub id: Option<String>,
    pub source: String,
    pub destination: String,
    pub description: Option<String>,
    pub technology: Option<String>,
    pub tags: Vec<String>,
    pub url: Option<String>,
    pub attributes: Vec<Property>,
    pub properties: Vec<Property>,
    pub perspectives: Vec<Property>,
    pub order: usize,
    pub span: Span,
    pub id_span: Option<Span>,
    pub source_span: Span,
    pub destination_span: Span,
}

#[derive(Debug)]
pub struct View {
    pub kind: ViewKind,
    pub scope: Option<String>,
    pub key: Option<String>,
    pub description: Option<String>,
    pub includes: Vec<ViewSelector>,
    pub excludes: Vec<ViewSelector>,
    pub auto_layout: Option<AutoLayout>,
    pub title: Option<String>,
    pub is_default: bool,
    pub animations: Vec<AnimationStep>,
    pub properties: Vec<Property>,
    pub filter: Option<ViewFilter>,
    pub environment: Option<Reference>,
    pub dynamic_relationships: Vec<DynamicRelationship>,
    pub image_sources: Vec<ImageSource>,
    pub order: usize,
    pub span: Span,
    pub scope_span: Option<Span>,
    pub key_span: Option<Span>,
}

#[derive(Debug, Clone, Copy, PartialEq, Eq, Structural)]
pub enum ViewKind {
    SystemLandscape,
    SystemContext,
    Container,
    Component,
    Filtered,
    Dynamic,
    Deployment,
    Custom,
    Image,
    ArchiMate,
}

#[derive(Debug)]
pub struct ViewSelector {
    pub value: String,
    pub span: Span,
    pub expression: bool,
}

#[derive(Debug)]
pub struct AutoLayout {
    pub direction: String,
    pub rank_separation: Option<String>,
    pub node_separation: Option<String>,
    pub span: Span,
}

#[derive(Debug)]
pub struct AnimationStep {
    pub elements: Vec<Reference>,
    pub span: Span,
}

#[derive(Debug, Clone, Copy, PartialEq, Eq, Structural)]
pub enum FilterMode {
    Include,
    Exclude,
}

#[derive(Debug)]
pub struct ViewFilter {
    pub base_key: Reference,
    pub mode: FilterMode,
    pub tags: Vec<String>,
}

#[derive(Debug)]
pub struct DynamicRelationship {
    pub sequence: Option<String>,
    pub source: Option<Reference>,
    pub destination: Option<Reference>,
    pub relationship: Option<Reference>,
    pub description: Option<String>,
    pub technology: Option<String>,
    pub span: Span,
}

#[derive(Debug)]
pub struct ImageSource {
    pub kind: String,
    pub arguments: Vec<String>,
    pub span: Span,
}

#[derive(Debug)]
pub struct Property {
    pub key: String,
    pub value: String,
    pub span: Span,
}

#[derive(Debug)]
pub struct Reference {
    pub identifier: String,
    pub span: Span,
}

#[derive(Debug)]
pub struct Directive {
    pub name: String,
    pub arguments: Vec<String>,
    pub span: Span,
}

#[derive(Debug, PartialEq)]
pub enum DocumentationOwner {
    Workspace,
    Element(String),
}

#[derive(Debug, Clone, Copy, PartialEq, Eq, Structural)]
pub enum DocumentationFormat {
    Markdown,
    AsciiDoc,
}

#[derive(Debug)]
pub struct DocumentationSection {
    pub owner: DocumentationOwner,
    pub source_path: String,
    pub title: String,
    pub format: DocumentationFormat,
    pub order: usize,
    pub content: String,
}

#[derive(Debug, Clone, Copy, PartialEq, Eq, Structural)]
pub enum DecisionFormat {
    AdrTools,
    Madr,
    Log4brains,
    MarkdownGeneric,
}

#[derive(Debug)]
pub struct DecisionRecord {
    pub owner: DocumentationOwner,
    pub id: String,
    pub title: String,
    pub status: Option<String>,
    pub date: Option<String>,
    pub source_path: String,
    pub content: String,
    pub format: DecisionFormat,
    pub order: usize,
}

#[derive(Debug)]
pub struct PreservedBlock {
    pub name: String,
    pub arguments: Vec<String>,
    pub span: Span,
}

#[derive(Debug)]
pub struct WorkspaceExtension {
    pub target: String,
    pub span: Span,
}

#[derive(Debug)]
pub struct NamedBlock {
    pub name: String,
    pub span: Span,
}

#[derive(Debug)]
pub struct Group {
    pub name: String,
    pub parent: Option<usize>,
    pub owner: Option<String>,
    pub span: Span,
}

#[derive(Debug)]
pub struct HealthCheck {
    pub name: String,
    pub url: String,
    pub interval: Option<String>,
    pub timeout: Option<String>,
    pub span: Span,
}

#[derive(Debug)]
pub struct RemovedRelationship {
    pub source: String,
    pub destination: String,
    pub description: Option<String>,
    pub span: Span,
    pub source_span: Span,
    pub destination_span: Span,
    pub order: usize,
}

#[derive(Debug, Clone, Copy, PartialEq, Eq, Structural)]
pub enum StyleMode {
    Default,
    Light,
    Dark,
}

#[derive(Debug)]
pub struct ElementStyle {
    pub tag: String,
    pub mode: StyleMode,
    pub values: Vec<Property>,
    pub properties: Vec<Property>,
    pub span: Span,
}

#[derive(Debug)]
pub struct RelationshipStyle {
    pub tag: String,
    pub mode: StyleMode,
    pub values: Vec<Property>,
    pub properties: Vec<Property>,
    pub span: Span,
}

#[derive(Debug)]
pub struct ThemeReference {
    pub source: String,
    pub mode: StyleMode,
    pub span: Span,
}

#[derive(Debug)]
pub struct Branding {
    pub logo: Option<Property>,
    pub fonts: Vec<BrandingFont>,
    pub span: Span,
}

#[derive(Debug)]
pub struct BrandingFont {
    pub name: String,
    pub location: Option<String>,
    pub span: Span,
}

/// How a file is compiled.
#[derive(Debug, Clone, Copy, Default)]
pub struct CompileOptions {
    pub allow_network: bool,
    pub strict_safe: bool,
    pub strict: bool,
}

/// How a workspace is validated.
#[derive(Debug, Clone, Copy, Default)]
pub struct ValidationOptions {
    pub strict_archimate: bool,
}

// ----- where spans point -----

/// `s` names one of the first `n` texts.
pub open spec fn sp(s: Span, n: nat) -> bool {
    s.source_id.0 < n
}

pub open spec fn opt_sp(s: Option<Span>, n: nat) -> bool {
    match s {
        Some(s) => sp(s, n),
        None => true,
    }
}

pub open spec fn props_in(v: Seq<Property>, n: nat) -> bool {
    forall|i: int| 0 <= i < v.len() ==> sp(#[trigger] v[i].span, n)
}

pub open spec fn refs_in(v: Seq<Reference>, n: nat) -> bool {
    forall|i: int| 0 <= i < v.len() ==> sp(#[trigger] v[i].span, n)
}

pub open spec fn opt_ref_in(r: Option<Reference>, n: nat) -> bool {
    match r {
        Some(r) => sp(r.span, n),
        None => true,
    }
}

pub open spec fn directives_in(v: Seq<Directive>, n: nat) -> bool {
    forall|i: int| 0 <= i < v.len() ==> sp(#[trigger] v[i].span, n)
}

pub open spec fn warnings_in(v: Seq<Diagnostic>, n: nat) -> bool {
    forall|i: int| 0 <= i < v.len() ==> sp(#[trigger] v[i].span, n)
}

impl Element {
    pub open spec fn spans_in(&self, n: nat) -> bool {
        &&& sp(self.span, n)
        &&& sp(self.id_span, n)
        &&& props_in(self.attributes@, n)
        &&& props_in(self.properties@, n)
        &&& props_in(self.perspectives@, n)
        &&& opt_ref_in(self.instance_of, n)
        &&& opt_ref_in(self.reference, n)
        &&& refs_in(self.deployment_groups@, n)
        &&& (forall|i: int| 0 <= i < self.health_checks@.len() ==> sp(#[trigger] self.health_checks@[i].span, n))
        &&& directives_in(self.directives@, n)
    }
}

impl Relationship {
    pub open spec fn spans_in(&self, n: nat) -> bool {
        &&& sp(self.span, n)
        &&& opt_sp(self.id_span, n)
        &&& sp(self.source_span, n)
        &&& sp(self.destination_span, n)
        &&& props_in(self.attributes@, n)
        &&& props_in(self.properties@, n)
        &&& props_in(self.perspectives@, n)
    }
}

impl View {
    pub open spec fn spans_in(&self, n: nat) -> bool {
        &&& sp(self.span, n)
        &&& opt_sp(self.scope_span, n)
        &&& opt_sp(self.key_span, n)
        &&& (forall|i: int| 0 <= i < self.includes@.len() ==> sp(#[trigger] self.includes@[i].span, n))
        &&& (forall|i: int| 0 <= i < self.excludes@.len() ==> sp(#[trigger] self.excludes@[i].span, n))
        &&& (match self.auto_layout { Some(a) => sp(a.span, n), None => true })
        &&& (forall|i: int| 0 <= i < self.animations@.len() ==> {
            &&& sp(#[trigger] self.animations@[i].span, n)
            &&& refs_in(self.animations@[i].elements@, n)
        })
        &&& props_in(self.properties@, n)
        &&& (match self.filter { Some(f) => sp(f.base_key.span, n), None => true })
        &&& opt_ref_in(self.environment, n)
        &&& (forall|i: int| 0 <= i < self.dynamic_relationships@.len() ==> {
            &&& sp(#[trigger] self.dynamic_relationships@[i].span, n)
            &&& opt_ref_in(self.dynamic_relationships@[i].source, n)
            &&& opt_ref_in(self.dynamic_relationships@[i].destination, n)
            &&& opt_ref_in(self.dynamic_relationships@[i].relationship, n)
        })
        &&& (forall|i: int| 0 <= i < self.image_sources@.len() ==> sp(#[trigger] self.image_sources@[i].span, n))
    }
}

impl Workspace {
    /// Every span held by the workspace names one of the first `n` texts.
    pub open spec fn spans_in(&self, n: nat) -> bool {
        &&& sp(self.span, n)
        &&& (forall|i: int| 0 <= i < self.elements@.len() ==> (#[trigger] self.elements@[i]).spans_in(n))
        &&& (forall|i: int| 0 <= i < self.relationships@.len() ==> (#[trigger] self.relationships@[i]).spans_in(n))
        &&& (forall|i: int| 0 <= i < self.views@.len() ==> (#[trigger] self.views@[i]).spans_in(n))
        &&& (match self.extension { Some(e) => sp(e.span, n), None => true })
        &&& props_in(self.attributes@, n)
        &&& props_in(self.properties@, n)
        &&& props_in(self.view_properties@, n)
        &&& directives_in(self.directives@, n)
        &&& (forall|i: int| 0 <= i < self.preserved@.len() ==> sp(#[trigger] self.preserved@[i].span, n))
        &&& (forall|i: int| 0 <= i < self.groups@.len() ==> sp(#[trigger] self.groups@[i].span, n))
        &&& (forall|i: int| 0 <= i < self.removed_relationships@.len() ==> {
            &&& sp(#[trigger] self.removed_relationships@[i].span, n)
            &&& sp(self.removed_relationships@[i].source_span, n)
            &&& sp(self.removed_relationships@[i].destination_span, n)
        })
        &&& (match self.enterprise { Some(e) => sp(e.span, n), None => true })
        &&& (forall|i: int| 0 <= i < self.element_styles@.len() ==> {
            &&& sp(#[trigger] self.element_styles@[i].span, n)
            &&& props_in(self.element_styles@[i].values@, n)
            &&& props_in(self.element_styles@[i].properties@, n)
        })
        &&& (forall|i: int| 0 <= i < self.relationship_styles@.len() ==> {
            &&& sp(#[trigger] self.relationship_styles@[i].span, n)
            &&& props_in(self.relationship_styles@[i].values@, n)
            &&& props_in(self.relationship_styles@[i].properties@, n)
        })
        &&& (forall|i: int| 0 <= i < self.themes@.len() ==> sp(#[trigger] self.themes@[i].span, n))
        &&& (match self.branding {
            Some(b) => {
                &&& sp(b.span, n)
                &&& (match b.logo { Some(l) => sp(l.span, n), None => true })
                &&& (forall|i: int| 0 <= i < b.fonts@.len() ==> sp(#[trigger] b.fonts@[i].span, n))
            },
            None => true,
        })
        &&& props_in(self.terminology@, n)
        &&& warnings_in(self.warnings@, n)
    }

    /// The spans of the workspace name texts of its own source map, which is well formed.
    pub open spec fn wf(&self) -> bool {
        &&& self.source_map.wf()
        &&& self.spans_in(self.source_map.len())
    }

    pub fn new(source_map: SourceMap, span: Span) -> (w: Self)
        ensures
            w.source_map == source_map,
            w.span == span,
            w.identifiers@ == "flat"@,
            w.elements@.len() == 0,
            w.relationships@.len() == 0,
            w.views@.len() == 0,
            w.groups@.len() == 0,
            w.warnings@.len() == 0,
            w.name.is_none(),
            w.extension.is_none(),
            !w.identifiers_explicit,
            forall|n: nat| span.source_id.0 < n ==> w.spans_in(n),
    {
        Workspace {
            name: None,
            description: None,
            elements: Vec::new(),
            relationships: Vec::new(),
            views: Vec::new(),
            identifiers: String::from_str("flat"),
            identifiers_explicit: false,
            extension: None,
            attributes: Vec::new(),
            properties: Vec::new(),
            view_properties: Vec::new(),
            directives: Vec::new(),
            preserved: Vec::new(),
            groups: Vec::new(),
            removed_relationships: Vec::new(),
            implied_relationships: None,
            enterprise: None,
            element_styles: Vec::new(),
            relationship_styles: Vec::new(),
            themes: Vec::new(),
            branding: None,
            terminology: Vec::new(),
            dependencies: Vec::new(),
            documentation: Vec::new(),
            decisions: Vec::new(),
            warnings: Vec::new(),
            span,
            source_map,
        }
    }
}

} // verus!
