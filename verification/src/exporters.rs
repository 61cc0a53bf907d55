use vstd::prelude::*;
use vstd::view::View as _;
use crate::expand::{expand_view, static_base_view, view_endpoint, ExpandedView};
use crate::lookup::find;
use crate::mermaid::default_view_key;
use crate::model::{Element, ElementKind, View, ViewKind, Workspace};
use crate::text::{chars_of, string_of, cat, cat3, cat5, seq_eq, usize_to_string, ascii_lowercase};

verus! {

/// One edge of a view graph.
#[derive(Debug)]
pub struct ViewGraphRelationship {
    pub source: String,
    pub destination: String,
    pub description: String,
    pub relationship_index: Option<usize>,
}

/// What a view shows, as the text exporters draw it: element identifiers in model order and
/// edges between them.
#[derive(Debug)]
pub struct ViewGraph {
    pub element_ids: Vec<String>,
    pub relationships: Vec<ViewGraphRelationship>,
}

/// Whether two edges join the same endpoints with the same description.
pub open spec fn same_edge(a: ViewGraphRelationship, b: ViewGraphRelationship) -> bool {
    a.source@ == b.source@ && a.destination@ == b.destination@ && a.description@ == b.description@
}

/// Whether `id` names an element of `w`.
pub open spec fn is_element_id(w: Workspace, id: Seq<char>) -> bool {
    exists|k: int| 0 <= k < w.elements@.len() && (#[trigger] w.elements@[k]).id@ == id
}

/// No edge of `edges` repeats another.
pub open spec fn edges_distinct(edges: Seq<ViewGraphRelationship>) -> bool {
    forall|i: int, j: int| 0 <= i < j < edges.len() ==> !same_edge(#[trigger] edges[i], #[trigger] edges[j])
}

/// Each element identifier of the graph names an element of the workspace, and each edge
/// taken from a relationship names one of the workspace's relationships.
pub open spec fn graph_sound(w: Workspace, g: ViewGraph) -> bool {
    &&& forall|i: int| 0 <= i < g.element_ids@.len() ==> is_element_id(w, (#[trigger] g.element_ids@[i])@)
    &&& forall|i: int| 0 <= i < g.relationships@.len() ==> match (#[trigger] g.relationships@[i]).relationship_index {
        Some(k) => k < w.relationships@.len(),
        None => true,
    }
}

fn has_text(v: &Vec<String>, s: &str) -> (r: bool)
    ensures
        r == exists|j: int| 0 <= j < v@.len() && (#[trigger] v@[j])@ == s@,
{
    let mut i: usize = 0;
    while i < v.len()
        invariant
            i <= v@.len(),
            forall|j: int| 0 <= j < i ==> (#[trigger] v@[j])@ != s@,
        decreases v.len() - i,
    {
        if seq_eq(v[i].as_str(), s) {
            return true;
        }
        i = i + 1;
    }
    false
}

fn has_edge(edges: &Vec<ViewGraphRelationship>, source: &str, destination: &str, description: &str) -> (r: bool)
    ensures
        r == exists|j: int| 0 <= j < edges@.len() && (#[trigger] edges@[j]).source@ == source@
            && edges@[j].destination@ == destination@ && edges@[j].description@ == description@,
{
    let mut i: usize = 0;
    while i < edges.len()
        invariant
            i <= edges@.len(),
            forall|j: int| 0 <= j < i ==> !((#[trigger] edges@[j]).source@ == source@
                && edges@[j].destination@ == destination@ && edges@[j].description@ == description@),
        decreases edges.len() - i,
    {
        let e = &edges[i];
        if seq_eq(e.source.as_str(), source) && seq_eq(e.destination.as_str(), destination)
            && seq_eq(e.description.as_str(), description) {
            return true;
        }
        i = i + 1;
    }
    false
}

/// The identifiers of the elements whose identifier `wanted` holds, in model order.
pub open spec fn ids_among(elements: Seq<Element>, wanted: Seq<Seq<char>>) -> Seq<Seq<char>>
    decreases elements.len(),
{
    if elements.len() == 0 {
        Seq::empty()
    } else {
        let rest = ids_among(elements.drop_last(), wanted);
        if wanted.contains(elements.last().id@) { rest.push(elements.last().id@) } else { rest }
    }
}

/// The identifiers of the elements whose identifier `wanted` holds, in model order.
fn elements_among(w: &Workspace, wanted: &Vec<String>) -> (r: Vec<String>)
    ensures
        forall|i: int| 0 <= i < r@.len() ==> is_element_id(*w, (#[trigger] r@[i])@),
        crate::archi_native::views(r@) == ids_among(w.elements@, crate::archi_native::views(wanted@)),
{
    let mut out: Vec<String> = Vec::new();
    let mut k: usize = 0;
    assert(crate::archi_native::views(out@) =~= Seq::<Seq<char>>::empty());
    while k < w.elements.len()
        invariant
            k <= w.elements@.len(),
            forall|i: int| 0 <= i < out@.len() ==> is_element_id(*w, (#[trigger] out@[i])@),
            crate::archi_native::views(out@) == ids_among(w.elements@.take(k as int), crate::archi_native::views(wanted@)),
        decreases w.elements.len() - k,
    {
        assert(w.elements@.take(k + 1).drop_last() =~= w.elements@.take(k as int));
        assert(w.elements@.take(k + 1).last() == w.elements@[k as int]);
        let found_it = has_text(wanted, w.elements[k].id.as_str());
        proof {
            if found_it {
                let j = choose|j: int| 0 <= j < wanted@.len() && (#[trigger] wanted@[j])@ == w.elements@[k as int].id@;
                assert(crate::archi_native::views(wanted@)[j] == w.elements@[k as int].id@);
            } else {
                assert forall|j: int| 0 <= j < crate::archi_native::views(wanted@).len() implies
                    crate::archi_native::views(wanted@)[j] != w.elements@[k as int].id@ by {
                    assert(crate::archi_native::views(wanted@)[j] == wanted@[j]@);
                }
            }
        }
        if found_it {
            let ghost before = out@;
            out.push(w.elements[k].id.clone());
            assert(crate::archi_native::views(out@) =~= crate::archi_native::views(before).push(w.elements@[k as int].id@));
            assert forall|i: int| 0 <= i < out@.len() implies is_element_id(*w, (#[trigger] out@[i])@) by {
                if i < before.len() {
                    assert(out@[i] == before[i]);
                } else {
                    assert(w.elements@[k as int].id@ == out@[i]@);
                }
            }
        }
        k = k + 1;
    }
    assert(w.elements@.take(w.elements@.len() as int) =~= w.elements@);
    out
}

/// Adds an edge unless an equal one is there.
fn add_edge(edges: &mut Vec<ViewGraphRelationship>, edge: ViewGraphRelationship, n: usize)
    requires
        forall|i: int, j: int| 0 <= i < j < old(edges)@.len() ==> !same_edge(#[trigger] old(edges)@[i], #[trigger] old(edges)@[j]),
        forall|i: int| 0 <= i < old(edges)@.len() ==> match (#[trigger] old(edges)@[i]).relationship_index {
            Some(k) => k < n,
            None => true,
        },
        match edge.relationship_index { Some(k) => k < n, None => true },
    ensures
        final(edges)@ == if exists|j: int| 0 <= j < old(edges)@.len() && same_edge(#[trigger] old(edges)@[j], edge) {
            old(edges)@
        } else {
            old(edges)@.push(edge)
        },
        forall|i: int, j: int| 0 <= i < j < final(edges)@.len() ==> !same_edge(#[trigger] final(edges)@[i], #[trigger] final(edges)@[j]),
        forall|i: int| 0 <= i < final(edges)@.len() ==> match (#[trigger] final(edges)@[i]).relationship_index {
            Some(k) => k < n,
            None => true,
        },
{
    if !has_edge(edges, edge.source.as_str(), edge.destination.as_str(), edge.description.as_str()) {
        let ghost before = edges@;
        edges.push(edge);
        assert forall|i: int, j: int| 0 <= i < j < edges@.len() implies !same_edge(#[trigger] edges@[i], #[trigger] edges@[j]) by {
            if j < before.len() {
                assert(edges@[i] == before[i] && edges@[j] == before[j]);
            } else {
                assert(edges@[i] == before[i]);
            }
        }
        assert forall|i: int| 0 <= i < edges@.len() implies match (#[trigger] edges@[i]).relationship_index {
            Some(k) => k < n,
            None => true,
        } by {
            if i < before.len() {
                assert(edges@[i] == before[i]);
            }
        }
    }
}

/// An edge by its endpoints and description.
pub open spec fn edge_view(e: ViewGraphRelationship) -> (Seq<char>, Seq<char>, Seq<char>) {
    (e.source@, e.destination@, e.description@)
}

/// Edges by their endpoints and descriptions.
pub open spec fn edge_views(es: Seq<ViewGraphRelationship>) -> Seq<(Seq<char>, Seq<char>, Seq<char>)> {
    Seq::new(es.len(), |k: int| edge_view(es[k]))
}

/// The edges of the steps of a dynamic view with both ends, in order.
pub open spec fn step_edges(steps: Seq<crate::model::DynamicRelationship>) -> Seq<(Seq<char>, Seq<char>, Seq<char>)>
    decreases steps.len(),
{
    if steps.len() == 0 {
        Seq::empty()
    } else {
        let rest = step_edges(steps.drop_last());
        let st = steps.last();
        match (st.source, st.destination) {
            (Some(a), Some(b)) => rest.push((a.identifier@, b.identifier@, match st.description { Some(d) => d@, None => Seq::empty() })),
            _ => rest,
        }
    }
}

/// The identifiers at both ends of the steps with both ends, in order.
pub open spec fn step_ids(steps: Seq<crate::model::DynamicRelationship>) -> Seq<Seq<char>>
    decreases steps.len(),
{
    if steps.len() == 0 {
        Seq::empty()
    } else {
        let rest = step_ids(steps.drop_last());
        let st = steps.last();
        match (st.source, st.destination) {
            (Some(a), Some(b)) => rest.push(a.identifier@).push(b.identifier@),
            _ => rest,
        }
    }
}

/// The graph a view shows: for a dynamic view its steps between resolved endpoints, else the
/// expanded view's relationships drawn between their view endpoints, without loops or
/// repeated edges.
pub fn view_graph(workspace: &Workspace, view: &View) -> (r: ViewGraph)
    ensures
        graph_sound(*workspace, r),
        !matches!(view.kind, ViewKind::Dynamic) ==> edges_distinct(r.relationships@),
        matches!(view.kind, ViewKind::Dynamic) ==> forall|i: int| 0 <= i < r.relationships@.len()
            ==> (#[trigger] r.relationships@[i]).relationship_index is None,
        matches!(view.kind, ViewKind::Dynamic) ==> edge_views(r.relationships@) == step_edges(view.dynamic_relationships@),
        matches!(view.kind, ViewKind::Dynamic) ==> crate::archi_native::views(r.element_ids@)
            == ids_among(workspace.elements@, step_ids(view.dynamic_relationships@)),
{
    if matches!(view.kind, ViewKind::Dynamic) {
        let mut identifiers: Vec<String> = Vec::new();
        let mut relationships: Vec<ViewGraphRelationship> = Vec::new();
        let mut i: usize = 0;
        while i < view.dynamic_relationships.len()
            invariant
                i <= view.dynamic_relationships@.len(),
                forall|a: int| 0 <= a < relationships@.len() ==> (#[trigger] relationships@[a]).relationship_index is None,
                edge_views(relationships@) == step_edges(view.dynamic_relationships@.take(i as int)),
                crate::archi_native::views(identifiers@) == step_ids(view.dynamic_relationships@.take(i as int)),
            decreases view.dynamic_relationships.len() - i,
        {
            let step = &view.dynamic_relationships[i];
            assert(view.dynamic_relationships@.take(i + 1).drop_last() =~= view.dynamic_relationships@.take(i as int));
            assert(view.dynamic_relationships@.take(i + 1).last() == *step);
            let ghost ids0 = crate::archi_native::views(identifiers@);
            let ghost edges0 = edge_views(relationships@);
            match (&step.source, &step.destination) {
                (Some(source), Some(destination)) => {
                    identifiers.push(source.identifier.clone());
                    identifiers.push(destination.identifier.clone());
                    let description = match &step.description {
                        Some(d) => d.clone(),
                        None => String::new(),
                    };
                    relationships.push(ViewGraphRelationship {
                        source: source.identifier.clone(),
                        destination: destination.identifier.clone(),
                        description,
                        relationship_index: None,
                    });
                    assert(crate::archi_native::views(identifiers@) =~= ids0.push(source.identifier@).push(destination.identifier@));
                    assert(edge_views(relationships@) =~= edges0.push((source.identifier@, destination.identifier@,
                        match step.description { Some(d) => d@, None => Seq::empty() })));
                },
                _ => {},
            }
            i = i + 1;
        }
        assert(view.dynamic_relationships@.take(view.dynamic_relationships@.len() as int) =~= view.dynamic_relationships@);
        let element_ids = elements_among(workspace, &identifiers);
        return ViewGraph { element_ids, relationships };
    }
    let expanded = expand_view(workspace, view);
    let base = static_base_view(workspace, view);
    let mut relationships: Vec<ViewGraphRelationship> = Vec::new();
    let mut index: usize = 0;
    while index < workspace.relationships.len()
        invariant
            index <= workspace.relationships@.len(),
            match base { Some(b) => b < workspace.views@.len(), None => true },
            forall|i: int, j: int| 0 <= i < j < relationships@.len() ==> !same_edge(#[trigger] relationships@[i], #[trigger] relationships@[j]),
            forall|i: int| 0 <= i < relationships@.len() ==> match (#[trigger] relationships@[i]).relationship_index {
                Some(k) => k < workspace.relationships@.len(),
                None => true,
            },
        decreases workspace.relationships.len() - index,
    {
        let relationship = &workspace.relationships[index];
        if expanded.contains_rel(index) {
            let endpoint_view = match base {
                Some(b) => &workspace.views[b],
                None => view,
            };
            let source = view_endpoint(workspace, endpoint_view, relationship.source.as_str());
            let destination = view_endpoint(workspace, endpoint_view, relationship.destination.as_str());
            if !seq_eq(source.as_str(), destination.as_str()) && expanded.contains(source.as_str())
                && expanded.contains(destination.as_str()) {
                let description = match &relationship.description {
                    Some(d) => d.clone(),
                    None => String::new(),
                };
                add_edge(&mut relationships, ViewGraphRelationship {
                    source,
                    destination,
                    description,
                    relationship_index: Some(index),
                }, workspace.relationships.len());
            }
        }
        index = index + 1;
    }
    let element_ids = elements_among(workspace, &expanded.elements);
    ViewGraph { element_ids, relationships }
}

/// The characters of `s`, each replaced by what `f` makes of it.
pub open spec fn map_chars(s: Seq<char>, f: spec_fn(char) -> Seq<char>) -> Seq<char>
    decreases s.len(),
{
    if s.len() == 0 {
        Seq::empty()
    } else {
        map_chars(s.drop_last(), f) + f(s.last())
    }
}

/// How a label character is escaped inside double quotes: backslash, quote and newline get
/// a backslash, carriage returns are dropped.
pub open spec fn escape_char(c: char) -> Seq<char> {
    if c == '\\' {
        seq!['\\', '\\']
    } else if c == '"' {
        seq!['\\', '"']
    } else if c == '\r' {
        Seq::empty()
    } else if c == '\n' {
        seq!['\\', 'n']
    } else {
        seq![c]
    }
}

/// How a PlantUML label character is written: escaped, and `:` with a backslash.
pub open spec fn plantuml_char(c: char) -> Seq<char> {
    if c == ':' {
        seq!['\\', ':']
    } else {
        escape_char(c)
    }
}

/// The control characters of Unicode: C0, DEL and C1.
pub open spec fn is_control(c: char) -> bool {
    (c as u32) < 0x20 || (0x7f <= (c as u32) && (c as u32) < 0xa0)
}

/// How a character is written in XML text.
pub open spec fn xml_text_char(c: char) -> Seq<char> {
    if c == '&' {
        seq!['&', 'a', 'm', 'p', ';']
    } else if c == '<' {
        seq!['&', 'l', 't', ';']
    } else if c == '>' {
        seq!['&', 'g', 't', ';']
    } else if c == '\t' || c == '\n' || c == '\r' {
        seq![c]
    } else if is_control(c) {
        seq!['\u{fffd}']
    } else {
        seq![c]
    }
}

/// How a character is written in an XML attribute value.
pub open spec fn xml_attr_char(c: char) -> Seq<char> {
    if c == '"' {
        seq!['&', 'q', 'u', 'o', 't', ';']
    } else if c == '\'' {
        seq!['&', 'a', 'p', 'o', 's', ';']
    } else if c == '\r' {
        seq!['&', '#', '1', '3', ';']
    } else if c == '\n' {
        seq!['&', '#', '1', '0', ';']
    } else {
        xml_text_char(c)
    }
}

/// Lower-case hexadecimal digits of `n`, without leading zeros.
pub open spec fn hex_of(n: nat) -> Seq<char>
    decreases n,
{
    if n < 16 {
        seq![crate::archi_native::hex_digit(n)]
    } else {
        hex_of(n / 16).push(crate::archi_native::hex_digit(n % 16))
    }
}

/// How an identifier character appears in an alias: ASCII letters, digits and `_` as they are,
/// others as `_` and their code point in hexadecimal.
pub open spec fn alias_char(c: char) -> Seq<char> {
    if crate::archi_native::ascii_alnum(c) || c == '_' {
        seq![c]
    } else {
        seq!['_'] + hex_of(c as nat)
    }
}

/// How a view key character appears in a file name: as `alias_char`, keeping `-` too.
pub open spec fn safe_char(c: char) -> Seq<char> {
    if c == '-' {
        seq![c]
    } else {
        alias_char(c)
    }
}

fn hex_u32(n: u32) -> (r: Vec<char>)
    ensures
        r@ == hex_of(n as nat),
    decreases n,
{
    let d = (n % 16) as u64;
    let c = if d < 10 { ((d as u8) + 48) as char } else { ((d as u8) + 87) as char };
    assert(c == crate::archi_native::hex_digit(d as nat));
    if n < 16 {
        vec![c]
    } else {
        let mut r = hex_u32(n / 16);
        r.push(c);
        r
    }
}

/// Which character mapping a text transform applies.
#[derive(Clone, Copy)]
enum CharMap {
    Escape,
    PlantUml,
    XmlText,
    XmlAttr,
    Alias,
    Safe,
}

spec fn map_of(m: CharMap) -> spec_fn(char) -> Seq<char> {
    match m {
        CharMap::Escape => |c: char| escape_char(c),
        CharMap::PlantUml => |c: char| plantuml_char(c),
        CharMap::XmlText => |c: char| xml_text_char(c),
        CharMap::XmlAttr => |c: char| xml_attr_char(c),
        CharMap::Alias => |c: char| alias_char(c),
        CharMap::Safe => |c: char| safe_char(c),
    }
}

fn xml_text_piece(c: char) -> (r: Vec<char>)
    ensures
        r@ == xml_text_char(c),
{
    if c == '&' {
        vec!['&', 'a', 'm', 'p', ';']
    } else if c == '<' {
        vec!['&', 'l', 't', ';']
    } else if c == '>' {
        vec!['&', 'g', 't', ';']
    } else if c == '\t' || c == '\n' || c == '\r' {
        vec![c]
    } else if (c as u32) < 0x20 || (0x7f <= (c as u32) && (c as u32) < 0xa0) {
        vec!['\u{fffd}']
    } else {
        vec![c]
    }
}

fn piece(m: CharMap, c: char) -> (r: Vec<char>)
    ensures
        r@ == (map_of(m))(c),
{
    match m {
        CharMap::Escape | CharMap::PlantUml => {
            if c == ':' && matches!(m, CharMap::PlantUml) {
                vec!['\\', ':']
            } else if c == '\\' {
                vec!['\\', '\\']
            } else if c == '"' {
                vec!['\\', '"']
            } else if c == '\r' {
                Vec::new()
            } else if c == '\n' {
                vec!['\\', 'n']
            } else {
                vec![c]
            }
        },
        CharMap::XmlText => xml_text_piece(c),
        CharMap::XmlAttr => {
            if c == '"' {
                vec!['&', 'q', 'u', 'o', 't', ';']
            } else if c == '\'' {
                vec!['&', 'a', 'p', 'o', 's', ';']
            } else if c == '\r' {
                vec!['&', '#', '1', '3', ';']
            } else if c == '\n' {
                vec!['&', '#', '1', '0', ';']
            } else {
                xml_text_piece(c)
            }
        },
        CharMap::Alias | CharMap::Safe => {
            if ('a' <= c && c <= 'z') || ('A' <= c && c <= 'Z') || ('0' <= c && c <= '9') || c == '_'
                || (c == '-' && matches!(m, CharMap::Safe)) {
                vec![c]
            } else {
                let mut r = vec!['_'];
                let mut h = hex_u32(c as u32);
                let ghost before = r@;
                r.append(&mut h);
                assert(r@ =~= seq!['_'] + hex_of(c as nat));
                r
            }
        },
    }
}

fn map_text(m: CharMap, s: &str) -> (r: String)
    ensures
        r@ == map_chars(s@, map_of(m)),
{
    let v = chars_of(s);
    let mut out: Vec<char> = Vec::new();
    let mut i: usize = 0;
    assert(v@.take(0) =~= Seq::<char>::empty());
    while i < v.len()
        invariant
            v@ == s@,
            i <= v@.len(),
            out@ == map_chars(v@.take(i as int), map_of(m)),
        decreases v.len() - i,
    {
        assert(v@.take(i + 1).drop_last() =~= v@.take(i as int));
        let mut p = piece(m, v[i]);
        let ghost pv = p@;
        let ghost before = out@;
        out.append(&mut p);
        assert(out@ =~= before + pv);
        i = i + 1;
    }
    assert(v@.take(v@.len() as int) =~= v@);
    string_of(out.as_slice())
}

/// `value` escaped for a double-quoted label.
pub fn escaped(value: &str) -> (r: String)
    ensures
        r@ == map_chars(value@, |c: char| escape_char(c)),
{
    map_text(CharMap::Escape, value)
}

/// `value` escaped and put in double quotes.
pub fn quoted(value: &str) -> (r: String)
    ensures
        r@ == seq!['"'] + map_chars(value@, |c: char| escape_char(c)) + seq!['"'],
{
    let e = escaped(value);
    let r = cat3("\"", e.as_str(), "\"");
    proof {
        reveal_strlit("\"");
    }
    r
}

/// `value` escaped for a PlantUML edge label.
pub fn plantuml_label(value: &str) -> (r: String)
    ensures
        r@ == map_chars(value@, |c: char| plantuml_char(c)),
{
    map_text(CharMap::PlantUml, value)
}

/// `value` escaped for XML text.
pub fn xml_text(value: &str) -> (r: String)
    ensures
        r@ == map_chars(value@, |c: char| xml_text_char(c)),
{
    map_text(CharMap::XmlText, value)
}

/// `value` escaped for an XML attribute value.
pub fn xml_attr(value: &str) -> (r: String)
    ensures
        r@ == map_chars(value@, |c: char| xml_attr_char(c)),
{
    map_text(CharMap::XmlAttr, value)
}

/// An identifier as a node alias: `n_` and its characters made safe.
pub fn alias(identifier: &str) -> (r: String)
    ensures
        r@ == "n_"@ + map_chars(identifier@, |c: char| alias_char(c)),
{
    let body = map_text(CharMap::Alias, identifier);
    cat("n_", body.as_str())
}

/// A view key as a file name: characters made safe, `view` for nothing.
pub fn safe_name(value: &str) -> (r: String)
    ensures
        map_chars(value@, |c: char| safe_char(c)).len() == 0 ==> r@ == "view"@,
        map_chars(value@, |c: char| safe_char(c)).len() > 0 ==> r@ == map_chars(value@, |c: char| safe_char(c)),
{
    let body = map_text(CharMap::Safe, value);
    if body.as_str().unicode_len() == 0 {
        String::from_str("view")
    } else {
        body
    }
}

/// The kind of an element as the exporters name it.
pub(crate) fn kind_name(kind: &ElementKind) -> (r: &'static str) {
    match kind {
        ElementKind::Person => "Person",
        ElementKind::SoftwareSystem => "SoftwareSystem",
        ElementKind::Container => "Container",
        ElementKind::Component => "Component",
        ElementKind::Generic => "GenericElement",
        ElementKind::DeploymentEnvironment => "DeploymentEnvironment",
        ElementKind::DeploymentGroup => "DeploymentGroup",
        ElementKind::DeploymentNode => "DeploymentNode",
        ElementKind::InfrastructureNode => "InfrastructureNode",
        ElementKind::SoftwareSystemInstance => "SoftwareSystemInstance",
        ElementKind::ContainerInstance => "ContainerInstance",
        ElementKind::ArchiMate(k) => k,
    }
}

/// The key of a view: its own, or the default for its kind.
pub fn view_key(view: &View) -> (r: String)
    ensures
        match view.key {
            Some(k) => r@ == k@,
            None => r@ == crate::mermaid::default_view_key_of(view.kind),
        },
{
    match &view.key {
        Some(k) => k.clone(),
        None => String::from_str(default_view_key(&view.kind)),
    }
}

/// The title of a view: its own, or its key.
fn view_title(view: &View) -> (r: String) {
    match &view.title {
        Some(t) => t.clone(),
        None => view_key(view),
    }
}

/// Whether the workspace has styles that only the Mermaid exporter draws.
pub fn has_styles(workspace: &Workspace) -> (r: bool)
    ensures
        r == (workspace.element_styles@.len() > 0 || workspace.relationship_styles@.len() > 0
            || workspace.themes@.len() > 0 || workspace.branding is Some),
{
    workspace.element_styles.len() > 0 || workspace.relationship_styles.len() > 0 || workspace.themes.len() > 0
        || workspace.branding.is_some()
}

fn append_style_note(workspace: &Workspace, output: &mut String, comment: &str) {
    if has_styles(workspace) {
        output.append(comment);
        output.append(" c4c: Mermaid supports M5 styles; this exporter uses deterministic defaults.\n");
    }
}

/// The layout direction of a view, lower-cased.
fn layout_direction(view: &View) -> (r: Option<String>) {
    match &view.auto_layout {
        Some(layout) => Some(ascii_lowercase(layout.direction.as_str())),
        None => None,
    }
}

fn d2_direction(view: &View) -> (r: &'static str) {
    match layout_direction(view) {
        Some(d) => if seq_eq(d.as_str(), "tb") || seq_eq(d.as_str(), "bt") {
            "down"
        } else {
            "right"
        },
        None => "right",
    }
}

/// The name and kind of an element on two lines, quoted.
fn name_and_kind(name: &str, kind: &ElementKind) -> (r: String) {
    let text = cat3(name, "\n", kind_name(kind));
    quoted(text.as_str())
}

/// A view as a D2 diagram.
pub fn d2(workspace: &Workspace, view: &View) -> (r: String)
    ensures
        crate::text::has_prefix(r@, "# Generated locally by c4c; no network renderer is required\n"@),
{
    let graph = view_graph(workspace, view);
    let head = String::from_str("# Generated locally by c4c; no network renderer is required\n");
    let mut body = String::from_str("# ");
    body.append(crate::validate::view_kind_debug(&view.kind));
    body.append(" view: ");
    body.append(quoted(view_title(view).as_str()).as_str());
    body.append("\ndirection: ");
    body.append(d2_direction(view));
    body.append("\n");
    append_style_note(workspace, &mut body, "#");
    let mut i: usize = 0;
    while i < graph.element_ids.len()
        invariant
            i <= graph.element_ids@.len(),
        decreases graph.element_ids.len() - i,
    {
        let identifier = graph.element_ids[i].as_str();
        if let Some(k) = find(workspace, identifier) {
            let element = &workspace.elements[k];
            body.append(alias(identifier).as_str());
            body.append(": ");
            body.append(name_and_kind(element.name.as_str(), &element.kind).as_str());
            body.append("\n");
        }
        i = i + 1;
    }
    let mut j: usize = 0;
    while j < graph.relationships.len()
        invariant
            j <= graph.relationships@.len(),
        decreases graph.relationships.len() - j,
    {
        let edge = &graph.relationships[j];
        body.append(alias(edge.source.as_str()).as_str());
        body.append(" -> ");
        body.append(alias(edge.destination.as_str()).as_str());
        body.append(": ");
        body.append(quoted(edge.description.as_str()).as_str());
        body.append("\n");
        j = j + 1;
    }
    let r = cat(head.as_str(), body.as_str());
    assert(r@.take(head@.len() as int) =~= head@);
    r
}

/// A view as a PlantUML diagram, without remote includes.
pub fn plantuml(workspace: &Workspace, view: &View) -> (r: String)
    ensures
        crate::text::has_prefix(r@, "@startuml\n"@),
        crate::text::has_suffix(r@, "@enduml\n"@),
{
    let graph = view_graph(workspace, view);
    let dynamic = matches!(view.kind, ViewKind::Dynamic);
    let head = String::from_str("@startuml\n");
    let mut body = String::from_str("' Generated locally by c4c; no remote includes\ntitle ");
    body.append(quoted(view_title(view).as_str()).as_str());
    body.append("\n");
    append_style_note(workspace, &mut body, "'");
    if !dynamic {
        body.append("left to right direction\n");
    }
    let mut i: usize = 0;
    while i < graph.element_ids.len()
        invariant
            i <= graph.element_ids@.len(),
        decreases graph.element_ids.len() - i,
    {
        let identifier = graph.element_ids[i].as_str();
        if let Some(k) = find(workspace, identifier) {
            let element = &workspace.elements[k];
            let declaration = if dynamic {
                if matches!(element.kind, ElementKind::Person) { "actor" } else { "participant" }
            } else {
                match element.kind {
                    ElementKind::Person => "actor",
                    ElementKind::DeploymentNode | ElementKind::InfrastructureNode => "node",
                    _ => "rectangle",
                }
            };
            body.append(declaration);
            body.append(" ");
            body.append(name_and_kind(element.name.as_str(), &element.kind).as_str());
            body.append(" as ");
            body.append(alias(identifier).as_str());
            body.append("\n");
        }
        i = i + 1;
    }
    let arrow = if dynamic { " -> " } else { " --> " };
    let mut j: usize = 0;
    while j < graph.relationships.len()
        invariant
            j <= graph.relationships@.len(),
        decreases graph.relationships.len() - j,
    {
        let edge = &graph.relationships[j];
        body.append(alias(edge.source.as_str()).as_str());
        body.append(arrow);
        body.append(alias(edge.destination.as_str()).as_str());
        body.append(" : ");
        body.append(plantuml_label(edge.description.as_str()).as_str());
        body.append("\n");
        j = j + 1;
    }
    let tail = String::from_str("@enduml\n");
    let r = cat3(head.as_str(), body.as_str(), tail.as_str());
    assert(r@.take(head@.len() as int) =~= head@);
    assert(r@.skip(r@.len() - tail@.len()) =~= tail@);
    r
}

/// A view as a C4-PlantUML diagram, with the macros it uses defined locally.
pub fn c4plantuml(workspace: &Workspace, view: &View) -> (r: String)
    ensures
        crate::text::has_prefix(r@, "@startuml\n"@),
        crate::text::has_suffix(r@, "@enduml\n"@),
{
    let graph = view_graph(workspace, view);
    let head = String::from_str("@startuml\n");
    let mut body = String::from_str("' Local macro subset generated by c4c; no remote includes or network dependency\n!define Person(alias,label,description) actor label as alias <<Person>>\n!define System(alias,label,description) rectangle label as alias <<Software System>>\n!define Container(alias,label,technology,description) rectangle label as alias <<Container>>\n!define Component(alias,label,technology,description) rectangle label as alias <<Component>>\n!define Element(alias,label,description) rectangle label as alias <<Element>>\n!define Rel(source,destination,label) source --> destination : label\nleft to right direction\ntitle ");
    body.append(quoted(view_title(view).as_str()).as_str());
    body.append("\n");
    append_style_note(workspace, &mut body, "'");
    let mut i: usize = 0;
    while i < graph.element_ids.len()
        invariant
            i <= graph.element_ids@.len(),
        decreases graph.element_ids.len() - i,
    {
        let identifier = graph.element_ids[i].as_str();
        if let Some(k) = find(workspace, identifier) {
            let element = &workspace.elements[k];
            let name = quoted(element.name.as_str());
            let description = match &element.description {
                Some(d) => quoted(d.as_str()),
                None => quoted(""),
            };
            let technology = match &element.technology {
                Some(t) => quoted(t.as_str()),
                None => quoted(""),
            };
            let id = alias(identifier);
            let (macro_name, with_technology) = match element.kind {
                ElementKind::Person => ("Person(", false),
                ElementKind::SoftwareSystem => ("System(", false),
                ElementKind::Container => ("Container(", true),
                ElementKind::Component => ("Component(", true),
                _ => ("Element(", false),
            };
            body.append(macro_name);
            body.append(id.as_str());
            body.append(", ");
            body.append(name.as_str());
            body.append(", ");
            if with_technology {
                body.append(technology.as_str());
                body.append(", ");
            }
            body.append(description.as_str());
            body.append(")\n");
        }
        i = i + 1;
    }
    let mut j: usize = 0;
    while j < graph.relationships.len()
        invariant
            j <= graph.relationships@.len(),
        decreases graph.relationships.len() - j,
    {
        let edge = &graph.relationships[j];
        body.append("Rel(");
        body.append(alias(edge.source.as_str()).as_str());
        body.append(", ");
        body.append(alias(edge.destination.as_str()).as_str());
        body.append(", ");
        body.append(quoted(edge.description.as_str()).as_str());
        body.append(")\n");
        j = j + 1;
    }
    let tail = String::from_str("@enduml\n");
    let r = cat3(head.as_str(), body.as_str(), tail.as_str());
    assert(r@.take(head@.len() as int) =~= head@);
    assert(r@.skip(r@.len() - tail@.len()) =~= tail@);
    r
}

fn dot_direction(view: &View) -> (r: &'static str) {
    match layout_direction(view) {
        Some(d) => if seq_eq(d.as_str(), "tb") {
            "TB"
        } else if seq_eq(d.as_str(), "bt") {
            "BT"
        } else if seq_eq(d.as_str(), "rl") {
            "RL"
        } else {
            "LR"
        },
        None => "LR",
    }
}

fn dot_shape(kind: &ElementKind) -> (r: &'static str) {
    match kind {
        ElementKind::Person => "oval",
        ElementKind::DeploymentNode | ElementKind::InfrastructureNode => "box3d",
        ElementKind::ArchiMate(k) => if seq_eq(k, "Node") || seq_eq(k, "Device") || seq_eq(k, "SystemSoftware") {
            "box3d"
        } else {
            "box"
        },
        _ => "box",
    }
}

/// A view as a Graphviz DOT digraph named by the view's key.
pub fn dot(workspace: &Workspace, view: &View) -> (r: String)
    ensures
        crate::text::has_prefix(r@, "digraph "@),
        crate::text::has_suffix(r@, "}\n"@),
{
    let graph = view_graph(workspace, view);
    let head = String::from_str("digraph ");
    let mut body = quoted(view_key(view).as_str());
    body.append(" {\n  rankdir=");
    body.append(dot_direction(view));
    body.append(";\n  graph [label=");
    body.append(quoted(view_title(view).as_str()).as_str());
    body.append(", labelloc=t];\n");
    if has_styles(workspace) {
        body.append("  // c4c: Mermaid supports M5 styles; this DOT exporter uses deterministic defaults.\n");
    }
    let mut i: usize = 0;
    while i < graph.element_ids.len()
        invariant
            i <= graph.element_ids@.len(),
        decreases graph.element_ids.len() - i,
    {
        let identifier = graph.element_ids[i].as_str();
        if let Some(k) = find(workspace, identifier) {
            let element = &workspace.elements[k];
            body.append("  ");
            body.append(quoted(identifier).as_str());
            body.append(" [label=");
            body.append(name_and_kind(element.name.as_str(), &element.kind).as_str());
            body.append(", shape=");
            body.append(dot_shape(&element.kind));
            body.append("];\n");
        }
        i = i + 1;
    }
    let mut j: usize = 0;
    while j < graph.relationships.len()
        invariant
            j <= graph.relationships@.len(),
        decreases graph.relationships.len() - j,
    {
        let edge = &graph.relationships[j];
        body.append("  ");
        body.append(quoted(edge.source.as_str()).as_str());
        body.append(" -> ");
        body.append(quoted(edge.destination.as_str()).as_str());
        body.append(" [label=");
        body.append(quoted(edge.description.as_str()).as_str());
        body.append("];\n");
        j = j + 1;
    }
    let tail = String::from_str("}\n");
    let r = cat3(head.as_str(), body.as_str(), tail.as_str());
    assert(r@.take(head@.len() as int) =~= head@);
    assert(r@.skip(r@.len() - tail@.len()) =~= tail@);
    r
}

/// The Draw.io cell of an element: by its position in the model, or by its alias.
pub(crate) fn cell_id(workspace: &Workspace, identifier: &str) -> (r: String)
    ensures
        r@ == match crate::lookup::found(workspace.elements@, identifier@) {
            Some(k) => "element-"@ + crate::text::decimal((k + 1) as nat),
            None => "element-"@ + ("n_"@ + map_chars(identifier@, |c: char| alias_char(c))),
        },
{
    match find(workspace, identifier) {
        Some(k) => cat("element-", crate::projection::u128_to_string(k as u128 + 1).as_str()),
        None => cat("element-", alias(identifier).as_str()),
    }
}

/// A view as a Draw.io file with the elements on a grid of four columns.
pub fn drawio(workspace: &Workspace, view: &View) -> (r: String)
    ensures
        crate::text::has_prefix(r@, "<?xml version=\"1.0\" encoding=\"UTF-8\"?>\n"@),
        crate::text::has_suffix(r@, "</root></mxGraphModel></diagram></mxfile>\n"@),
{
    let graph = view_graph(workspace, view);
    let head = String::from_str("<?xml version=\"1.0\" encoding=\"UTF-8\"?>\n");
    let mut body = String::from_str("<mxfile host=\"c4c\" version=\"M8\"><diagram id=\"");
    body.append(xml_attr(safe_name(view_key(view).as_str()).as_str()).as_str());
    body.append("\" name=\"");
    body.append(xml_attr(view_title(view).as_str()).as_str());
    body.append("\"><mxGraphModel dx=\"1200\" dy=\"800\" grid=\"1\" gridSize=\"10\" page=\"1\" pageWidth=\"1169\" pageHeight=\"827\"><root><mxCell id=\"0\"/><mxCell id=\"1\" parent=\"0\"/>\n");
    if has_styles(workspace) {
        body.append("<!-- c4c: Mermaid supports M5 styles; Draw.io uses deterministic defaults. -->\n");
    }
    let mut position: usize = 0;
    while position < graph.element_ids.len()
        invariant
            position <= graph.element_ids@.len(),
        decreases graph.element_ids.len() - position,
    {
        let identifier = graph.element_ids[position].as_str();
        if let Some(k) = find(workspace, identifier) {
            let element = &workspace.elements[k];
            let x: u128 = 40 + (position as u128 % 4) * 220;
            let y: u128 = 40 + (position as u128 / 4) * 140;
            body.append("<mxCell id=\"");
            body.append(xml_attr(cell_id(workspace, identifier).as_str()).as_str());
            body.append("\" value=\"");
            body.append(xml_attr(element.name.as_str()).as_str());
            body.append("&#10;");
            body.append(xml_attr(kind_name(&element.kind)).as_str());
            body.append("\" style=\"rounded=1;whiteSpace=wrap;html=0;\" vertex=\"1\" parent=\"1\"><mxGeometry x=\"");
            body.append(crate::projection::u128_to_string(x).as_str());
            body.append("\" y=\"");
            body.append(crate::projection::u128_to_string(y).as_str());
            body.append("\" width=\"180\" height=\"80\" as=\"geometry\"/></mxCell>\n");
        }
        position = position + 1;
    }
    let mut j: usize = 0;
    while j < graph.relationships.len()
        invariant
            j <= graph.relationships@.len(),
        decreases graph.relationships.len() - j,
    {
        let edge = &graph.relationships[j];
        let id = match edge.relationship_index {
            Some(index) => crate::projection::u128_to_string(index as u128 + 1),
            None => cat("dynamic-", crate::projection::u128_to_string(j as u128 + 1).as_str()),
        };
        body.append("<mxCell id=\"edge-");
        body.append(id.as_str());
        body.append("\" value=\"");
        body.append(xml_attr(edge.description.as_str()).as_str());
        body.append("\" style=\"edgeStyle=orthogonalEdgeStyle;rounded=0;html=0;endArrow=block;\" edge=\"1\" parent=\"1\" source=\"");
        body.append(xml_attr(cell_id(workspace, edge.source.as_str()).as_str()).as_str());
        body.append("\" target=\"");
        body.append(xml_attr(cell_id(workspace, edge.destination.as_str()).as_str()).as_str());
        body.append("\"><mxGeometry relative=\"1\" as=\"geometry\"/></mxCell>\n");
        j = j + 1;
    }
    let tail = String::from_str("</root></mxGraphModel></diagram></mxfile>\n");
    let r = cat3(head.as_str(), body.as_str(), tail.as_str());
    assert(r@.take(head@.len() as int) =~= head@);
    assert(r@.skip(r@.len() - tail@.len()) =~= tail@);
    r
}

/// An identifier as an XML identifier part: ASCII letters, digits, `-`, `_` and `.` kept,
/// others made `-`; `item` for nothing.
/// A character kept in an XML identifier, anything else made `-`.
pub open spec fn identifier_char(c: char) -> char {
    if ('a' <= c && c <= 'z') || ('A' <= c && c <= 'Z') || ('0' <= c && c <= '9') || c == '-' || c == '_' || c == '.' { c } else { '-' }
}

pub(crate) fn xml_identifier(value: &str) -> (r: String)
    ensures
        r@ == if value@.len() == 0 { "item"@ } else { Seq::new(value@.len(), |i: int| identifier_char(value@[i])) },
{
    let v = chars_of(value);
    let mut out: Vec<char> = Vec::new();
    let mut i: usize = 0;
    while i < v.len()
        invariant
            i <= v@.len(),
            v@ == value@,
            out@ == Seq::new(i as nat, |j: int| identifier_char(v@[j])),
        decreases v.len() - i,
    {
        let c = v[i];
        if ('a' <= c && c <= 'z') || ('A' <= c && c <= 'Z') || ('0' <= c && c <= '9') || c == '-' || c == '_' || c == '.' {
            out.push(c);
        } else {
            out.push('-');
        }
        i = i + 1;
        assert(out@ =~= Seq::new(i as nat, |j: int| identifier_char(v@[j])));
    }
    if out.len() == 0 {
        String::from_str("item")
    } else {
        string_of(out.as_slice())
    }
}

/// The exchange identifier of the element at `index`.
/// The exchange identifier of the element at `index` with identifier `id`.
pub open spec fn element_exchange_id(index: int, id: Seq<char>) -> Seq<char> {
    "id-element-"@ + crate::text::decimal((index + 1) as nat) + "-"@
        + (if id.len() == 0 { "item"@ } else { Seq::new(id.len(), |i: int| identifier_char(id[i])) })
}

pub(crate) fn archimate_element_id(index: usize, id: &str) -> (r: String)
    ensures
        r@ == element_exchange_id(index as int, id@),
{
    let n = crate::projection::u128_to_string(index as u128 + 1);
    let r = cat5("id-element-", n.as_str(), "-", xml_identifier(id).as_str(), "");
    proof {
        reveal_strlit("");
        assert(r@ =~= element_exchange_id(index as int, id@));
    }
    r
}

/// The exchange identifier of the relationship at `index`.
pub open spec fn relationship_exchange_id(index: int, r: crate::model::Relationship) -> Seq<char> {
    "id-relationship-"@ + match r.id {
        Some(id) => if id@.len() == 0 { "item"@ } else { Seq::new(id@.len(), |i: int| identifier_char(id@[i])) },
        None => crate::text::decimal((index + 1) as nat),
    }
}

pub(crate) fn archimate_relationship_id(index: usize, relationship: &crate::model::Relationship) -> (r: String)
    ensures
        r@ == relationship_exchange_id(index as int, *relationship),
{
    match &relationship.id {
        Some(id) => cat("id-relationship-", xml_identifier(id.as_str()).as_str()),
        None => cat("id-relationship-", crate::projection::u128_to_string(index as u128 + 1).as_str()),
    }
}

/// The Open Group exchange type of a relationship: that of its ArchiMate type, `Association`
/// when it has none.
pub open spec fn relationship_exchange_type(r: crate::model::Relationship) -> Seq<char> {
    match crate::archimate::relationship_type_source(r) {
        Some(v) => match crate::archimate::spec_relationship_info(v) {
            Some(t) => match crate::archimate::spec_relationship_info(t.native@) {
                Some(u) => u.open_group@,
                None => "Association"@,
            },
            None => "Association"@,
        },
        None => "Association"@,
    }
}

/// The Open Group exchange type of a relationship, `Association` when it has none.
pub(crate) fn open_group_relationship_type(relationship: &crate::model::Relationship) -> (r: &'static str)
    ensures
        r@ == relationship_exchange_type(*relationship),
{
    match crate::archimate::relationship_archimate_type(relationship) {
        Some(t) => match crate::archimate::archimate_relationship_open_group_type(t) {
            Some(o) => o,
            None => "Association",
        },
        None => "Association",
    }
}

/// The exchange access type of an access direction.
pub(crate) fn open_group_access_type(value: &str) -> (r: &'static str) {
    let lowered = ascii_lowercase(value);
    if seq_eq(lowered.as_str(), "read") {
        "Read"
    } else if seq_eq(lowered.as_str(), "write") {
        "Write"
    } else if seq_eq(lowered.as_str(), "readwrite") {
        "ReadWrite"
    } else {
        "Access"
    }
}

/// The Open Group element type of an element kind.
pub open spec fn element_exchange_type(kind: ElementKind) -> Seq<char> {
    match kind {
        ElementKind::Person => "BusinessActor"@,
        ElementKind::Generic | ElementKind::DeploymentEnvironment | ElementKind::DeploymentGroup => "Grouping"@,
        ElementKind::DeploymentNode | ElementKind::InfrastructureNode => "Node"@,
        ElementKind::SoftwareSystem | ElementKind::Container | ElementKind::Component
        | ElementKind::SoftwareSystemInstance | ElementKind::ContainerInstance => "ApplicationComponent"@,
        ElementKind::ArchiMate(k) => k@,
    }
}

pub(crate) fn archimate_type(kind: &ElementKind) -> (r: &'static str)
    ensures
        r@ == element_exchange_type(*kind),
{
    match kind {
        ElementKind::Person => "BusinessActor",
        ElementKind::Generic | ElementKind::DeploymentEnvironment | ElementKind::DeploymentGroup => "Grouping",
        ElementKind::DeploymentNode | ElementKind::InfrastructureNode => "Node",
        ElementKind::SoftwareSystem | ElementKind::Container | ElementKind::Component
        | ElementKind::SoftwareSystemInstance | ElementKind::ContainerInstance => "ApplicationComponent",
        ElementKind::ArchiMate(k) => k,
    }
}

/// The value of the last property with key `key`.
fn property_value(properties: &Vec<crate::model::Property>, key: &str) -> (r: Option<String>) {
    match crate::archimate::last_property_index(properties, key) {
        Some(i) => Some(properties[i].value.clone()),
        None => None,
    }
}

fn pad_spaces(n: usize) -> (r: String) {
    let mut out = String::new();
    let mut i: usize = 0;
    while i < n
        invariant
            i <= n,
        decreases n - i,
    {
        out.append(" ");
        i = i + 1;
    }
    out
}

/// Writes the properties that have a non-empty value, or nothing when none has.
fn append_archimate_properties(output: &mut String, properties: &Vec<(&'static str, Option<String>)>, indent: usize) {
    let mut present: Vec<(&'static str, String)> = Vec::new();
    let mut i: usize = 0;
    while i < properties.len()
        invariant
            i <= properties@.len(),
        decreases properties.len() - i,
    {
        match &properties[i].1 {
            Some(v) => {
                if v.as_str().unicode_len() > 0 {
                    present.push((properties[i].0, v.clone()));
                }
            },
            None => {},
        }
        i = i + 1;
    }
    if present.len() == 0 {
        return;
    }
    let pad = pad_spaces(indent);
    output.append(pad.as_str());
    output.append("<properties>\n");
    let mut k: usize = 0;
    while k < present.len()
        invariant
            k <= present@.len(),
        decreases present.len() - k,
    {
        output.append(pad.as_str());
        output.append("  <property propertyDefinitionRef=\"property-");
        output.append(present[k].0);
        output.append("\"><value xml:lang=\"en\">");
        output.append(xml_text(present[k].1.as_str()).as_str());
        output.append("</value></property>\n");
        k = k + 1;
    }
    output.append(pad.as_str());
    output.append("</properties>\n");
}

/// The names of the extra property definitions: a key's exchange name.
/// The name of the property definition for a c4c ArchiMate key.
pub open spec fn extra_definition_text(key: Seq<char>) -> Seq<char> {
    if key == "type"@ || key == "background"@ || key == "color"@ || key == "stroke"@ || key == "fontSize"@
        || key == "width"@ || key == "height"@ || key == "thickness"@ || key == "style"@ || key == "access"@
        || key == "kind"@ {
        "c4c.archimate."@ + key
    } else {
        "c4c.archimate"@
    }
}

fn extra_definition_name(key: &str) -> (r: &'static str)
    ensures
        r@ == extra_definition_text(key@),
{
    proof {
        reveal_strlit("c4c.archimate.");
        reveal_strlit("type"); reveal_strlit("c4c.archimate.type");
        reveal_strlit("background"); reveal_strlit("c4c.archimate.background");
        reveal_strlit("color"); reveal_strlit("c4c.archimate.color");
        reveal_strlit("stroke"); reveal_strlit("c4c.archimate.stroke");
        reveal_strlit("fontSize"); reveal_strlit("c4c.archimate.fontSize");
        reveal_strlit("width"); reveal_strlit("c4c.archimate.width");
        reveal_strlit("height"); reveal_strlit("c4c.archimate.height");
        reveal_strlit("thickness"); reveal_strlit("c4c.archimate.thickness");
        reveal_strlit("style"); reveal_strlit("c4c.archimate.style");
        reveal_strlit("access"); reveal_strlit("c4c.archimate.access");
        reveal_strlit("kind"); reveal_strlit("c4c.archimate.kind");
        assert("c4c.archimate."@ + "type"@ =~= "c4c.archimate.type"@);
        assert("c4c.archimate."@ + "background"@ =~= "c4c.archimate.background"@);
        assert("c4c.archimate."@ + "color"@ =~= "c4c.archimate.color"@);
        assert("c4c.archimate."@ + "stroke"@ =~= "c4c.archimate.stroke"@);
        assert("c4c.archimate."@ + "fontSize"@ =~= "c4c.archimate.fontSize"@);
        assert("c4c.archimate."@ + "width"@ =~= "c4c.archimate.width"@);
        assert("c4c.archimate."@ + "height"@ =~= "c4c.archimate.height"@);
        assert("c4c.archimate."@ + "thickness"@ =~= "c4c.archimate.thickness"@);
        assert("c4c.archimate."@ + "style"@ =~= "c4c.archimate.style"@);
        assert("c4c.archimate."@ + "access"@ =~= "c4c.archimate.access"@);
        assert("c4c.archimate."@ + "kind"@ =~= "c4c.archimate.kind"@);
    }
    if seq_eq(key, "type") { "c4c.archimate.type" }
    else if seq_eq(key, "background") { "c4c.archimate.background" }
    else if seq_eq(key, "color") { "c4c.archimate.color" }
    else if seq_eq(key, "stroke") { "c4c.archimate.stroke" }
    else if seq_eq(key, "fontSize") { "c4c.archimate.fontSize" }
    else if seq_eq(key, "width") { "c4c.archimate.width" }
    else if seq_eq(key, "height") { "c4c.archimate.height" }
    else if seq_eq(key, "thickness") { "c4c.archimate.thickness" }
    else if seq_eq(key, "style") { "c4c.archimate.style" }
    else if seq_eq(key, "access") { "c4c.archimate.access" }
    else if seq_eq(key, "kind") { "c4c.archimate.kind" }
    else { "c4c.archimate" }
}

/// No key occurs twice.
pub open spec fn keys_distinct(s: Seq<(&'static str, &'static str)>) -> bool {
    forall|i: int, j: int| 0 <= i < j < s.len() ==> (#[trigger] s[i]).0@ != (#[trigger] s[j]).0@
}

fn add_definition(keys: &mut Vec<(&'static str, &'static str)>, key: &'static str, present: bool)
    requires
        keys_distinct(old(keys)@),
    ensures
        keys_distinct(final(keys)@),
{
    if !present {
        return;
    }
    let mut i: usize = 0;
    while i < keys.len()
        invariant
            i <= keys@.len(),
            keys_distinct(keys@),
            forall|j: int| 0 <= j < i ==> (#[trigger] keys@[j]).0@ != key@,
        decreases keys.len() - i,
    {
        if seq_eq(keys[i].0, key) {
            return;
        }
        i = i + 1;
    }
    let ghost before = keys@;
    keys.push((key, extra_definition_name(key)));
    assert forall|a: int, b: int| 0 <= a < b < keys@.len() implies (#[trigger] keys@[a]).0@ != (#[trigger] keys@[b]).0@ by {
        if b < before.len() {
            assert(keys@[a] == before[a] && keys@[b] == before[b]);
        } else {
            assert(keys@[a] == before[a]);
        }
    }
}

fn element_property_keys() -> (r: Vec<&'static str>)
    ensures
        r@.len() == 7,
{
    vec!["background", "color", "stroke", "fontSize", "width", "height", "kind"]
}

/// The property definitions beyond the standard ones that the workspace's attributes use,
/// each once, in order of first use.
fn archimate_extra_property_definitions(workspace: &Workspace) -> (r: Vec<(&'static str, &'static str)>)
    ensures
        keys_distinct(r@),
{
    let mut keys: Vec<(&'static str, &'static str)> = Vec::new();
    let element_keys = element_property_keys();
    let mut e: usize = 0;
    while e < workspace.elements.len()
        invariant
            e <= workspace.elements@.len(),
            element_keys@.len() == 7,
            keys_distinct(keys@),
        decreases workspace.elements.len() - e,
    {
        let mut k: usize = 0;
        while k < element_keys.len()
            invariant
                k <= element_keys@.len(),
                e < workspace.elements@.len(),
                keys_distinct(keys@),
            decreases element_keys.len() - k,
        {
            let present = property_value(&workspace.elements[e].attributes, element_keys[k]).is_some();
            add_definition(&mut keys, element_keys[k], present);
            k = k + 1;
        }
        e = e + 1;
    }
    let relationship_keys: Vec<&'static str> = vec!["access", "color", "thickness", "style"];
    let mut r: usize = 0;
    while r < workspace.relationships.len()
        invariant
            r <= workspace.relationships@.len(),
            relationship_keys@.len() == 4,
            keys_distinct(keys@),
        decreases workspace.relationships.len() - r,
    {
        let relationship = &workspace.relationships[r];
        add_definition(&mut keys, "type", crate::archimate::relationship_archimate_type(relationship).is_some());
        let mut k: usize = 0;
        while k < relationship_keys.len()
            invariant
                k <= relationship_keys@.len(),
                r < workspace.relationships@.len(),
                keys_distinct(keys@),
            decreases relationship_keys.len() - k,
        {
            let present = property_value(&workspace.relationships[r].attributes, relationship_keys[k]).is_some();
            add_definition(&mut keys, relationship_keys[k], present);
            k = k + 1;
        }
        r = r + 1;
    }
    keys
}

fn joined(tags: &Vec<String>) -> (r: Option<String>)
    ensures
        crate::archi_layout::text_of(r) == if tags@.len() == 0 { None } else {
            Some(crate::semantic::join_commas(crate::archi_native::views(tags@)))
        },
{
    if tags.len() == 0 {
        return None;
    }
    let mut out = String::new();
    let mut i: usize = 0;
    let ghost ws = crate::archi_native::views(tags@);
    assert(ws.take(0) =~= Seq::<Seq<char>>::empty());
    while i < tags.len()
        invariant
            i <= tags@.len(),
            ws == crate::archi_native::views(tags@),
            out@ == crate::semantic::join_commas(ws.take(i as int)),
        decreases tags.len() - i,
    {
        assert(ws.take(i + 1).drop_last() =~= ws.take(i as int));
        assert(ws.take(i + 1).last() == tags@[i as int]@);
        if i > 0 {
            out.append(",");
        } else {
            assert(ws.take(1) =~= seq![tags@[0]@]);
        }
        out.append(tags[i].as_str());
        i = i + 1;
    }
    assert(ws.take(ws.len() as int) =~= ws);
    Some(out)
}

/// Text escaped for XML content.
pub open spec fn xml_escaped(s: Seq<char>) -> Seq<char> {
    map_chars(s, |c: char| xml_text_char(c))
}

/// How an element's exchange entry begins: its identifier, its type and its name.
pub open spec fn element_exchange_head(index: int, e: crate::model::Element) -> Seq<char> {
    "    <element identifier=\""@ + element_exchange_id(index, e.id@) + "\" xsi:type=\""@ + element_exchange_type(e.kind)
        + "\">\n      <name xml:lang=\"en\">"@ + xml_escaped(e.name@) + "</name>\n"@
}

/// The document up to its first element entry: declaration, model, name, documentation.
pub open spec fn archimate_intro(w: Workspace) -> Seq<char> {
    "<?xml version=\"1.0\" encoding=\"UTF-8\"?>\n"@ + "<model xmlns=\"http://www.opengroup.org/xsd/archimate/3.0/\" xmlns:xsi=\"http://www.w3.org/2001/XMLSchema-instance\" identifier=\"id-c4c-workspace\">\n  <name xml:lang=\"en\">"@
        + (match w.name { Some(n) => xml_escaped(n@), None => "Workspace"@ }) + "</name>\n"@
        + (match w.description {
            Some(d) => "  <documentation xml:lang=\"en\">"@ + xml_escaped(d@) + "</documentation>\n"@,
            None => Seq::empty(),
        })
        + "  <elements>\n"@
}

/// The exchange entry of the element at `index`.
fn archimate_element_xml(workspace: &Workspace, index: usize) -> (r: String)
    requires
        workspace.wf(),
        index < workspace.elements@.len(),
    ensures
        crate::text::has_prefix(r@, element_exchange_head(index as int, workspace.elements@[index as int])),
{
    let element = &workspace.elements[index];
    let mut head = String::from_str("    <element identifier=\"");
    head.append(archimate_element_id(index, element.id.as_str()).as_str());
    head.append("\" xsi:type=\"");
    head.append(archimate_type(&element.kind));
    head.append("\">\n      <name xml:lang=\"en\">");
    head.append(xml_text(element.name.as_str()).as_str());
    head.append("</name>\n");
    assert(head@ =~= element_exchange_head(index as int, workspace.elements@[index as int]));
    let mut body = String::new();
    if let Some(description) = &element.description {
        body.append("      <documentation xml:lang=\"en\">");
        body.append(xml_text(description.as_str()).as_str());
        body.append("</documentation>\n");
    }
    assert(workspace.elements@[index as int].spans_in(workspace.source_map.len()));
    let (source, _) = workspace.source_map.resolve(element.span);
    let mut properties: Vec<(&'static str, Option<String>)> = Vec::new();
    properties.push(("id", Some(element.id.clone())));
    properties.push(("kind", Some(String::from_str(kind_name(&element.kind)))));
    properties.push(("parent", element.parent.clone()));
    properties.push(("technology", element.technology.clone()));
    properties.push(("tags", joined(&element.tags)));
    properties.push(("description", element.description.clone()));
    properties.push(("source", Some(source.path.clone())));
    let keys = element_property_keys();
    let mut k: usize = 0;
    while k < keys.len()
        invariant
            k <= keys@.len(),
        decreases keys.len() - k,
    {
        properties.push((keys[k], property_value(&element.attributes, keys[k])));
        k = k + 1;
    }
    append_archimate_properties(&mut body, &properties, 6);
    body.append("    </element>\n");
    let r = cat(head.as_str(), body.as_str());
    assert(r@.take(head@.len() as int) =~= head@);
    r
}

/// The definitions of the properties every export carries.
pub open spec fn base_definitions() -> Seq<(&'static str, &'static str)> {
    seq![("id", "c4c.id"), ("kind", "c4c.kind"), ("parent", "c4c.parent"), ("technology", "c4c.technology"),
        ("tags", "c4c.tags"), ("description", "c4c.description"), ("source", "c4c.source")]
}

/// One `propertyDefinition` line per property: its identifier and its name.
pub open spec fn definition_lines(ds: Seq<(&str, &str)>) -> Seq<char>
    decreases ds.len(),
{
    if ds.len() == 0 {
        Seq::empty()
    } else {
        definition_lines(ds.drop_last()) + "    <propertyDefinition identifier=\"property-"@ + ds.last().0@
            + "\" type=\"string\"><name xml:lang=\"en\">"@ + ds.last().1@ + "</name></propertyDefinition>\n"@
    }
}

/// `entry` is the exchange entry of relationship `index`: it begins as that relationship's
/// entry begins, and is empty when one of its ends is not an element.
pub open spec fn entry_fits(w: Workspace, index: int, entry: Seq<char>) -> bool {
    crate::text::has_prefix(entry, relationship_exchange_head(w, index))
        && (relationship_exchange_head(w, index).len() == 0 ==> entry.len() == 0)
}

/// How the exchange entry of the relationship at `index` begins, when both its ends are elements.
pub open spec fn relationship_exchange_head(w: Workspace, index: int) -> Seq<char> {
    let r = w.relationships@[index];
    match (crate::lookup::found(w.elements@, r.source@), crate::lookup::found(w.elements@, r.destination@)) {
        (Some(s), Some(d)) => "    <relationship identifier=\""@ + relationship_exchange_id(index, r) + "\" source=\""@
            + element_exchange_id(s, w.elements@[s].id@) + "\" target=\""@ + element_exchange_id(d, w.elements@[d].id@)
            + "\" xsi:type=\""@ + relationship_exchange_type(r) + "\""@,
        _ => Seq::empty(),
    }
}

/// The exchange entry of the relationship at `index`: nothing unless both its ends are
/// elements.
fn archimate_relationship_xml(workspace: &Workspace, index: usize) -> (r: String)
    requires
        workspace.wf(),
        index < workspace.relationships@.len(),
    ensures
        crate::text::has_prefix(r@, relationship_exchange_head(*workspace, index as int)),
        relationship_exchange_head(*workspace, index as int).len() == 0 ==> r@.len() == 0,
{
    let mut out = String::new();
    let relationship = &workspace.relationships[index];
    let source_index = find(workspace, relationship.source.as_str());
    let destination_index = find(workspace, relationship.destination.as_str());
    if let (Some(s), Some(d)) = (source_index, destination_index) {
        let kind = open_group_relationship_type(relationship);
        out.append("    <relationship identifier=\"");
        out.append(archimate_relationship_id(index, relationship).as_str());
        out.append("\" source=\"");
        out.append(archimate_element_id(s, workspace.elements[s].id.as_str()).as_str());
        out.append("\" target=\"");
        out.append(archimate_element_id(d, workspace.elements[d].id.as_str()).as_str());
        out.append("\" xsi:type=\"");
        out.append(kind);
        out.append("\"");
        let mut entry = String::new();
        if seq_eq(kind, "Access") {
            if let Some(direction) = crate::archimate::relationship_access_direction(relationship) {
                entry.append(" accessType=\"");
                entry.append(xml_attr(open_group_access_type(direction)).as_str());
                entry.append("\"");
            }
        }
        entry.append(">\n");
        if let Some(description) = &relationship.description {
            entry.append("      <name xml:lang=\"en\">");
            entry.append(xml_text(description.as_str()).as_str());
            entry.append("</name>\n");
        }
        assert(workspace.relationships@[index as int].spans_in(workspace.source_map.len()));
        let (source_file, _) = workspace.source_map.resolve(relationship.span);
        let property_id = match &relationship.id {
            Some(id) => id.clone(),
            None => cat("relationship-", crate::projection::u128_to_string(index as u128 + 1).as_str()),
        };
        let mut properties: Vec<(&'static str, Option<String>)> = Vec::new();
        properties.push(("id", Some(property_id)));
        properties.push(("kind", Some(String::from_str("Relationship"))));
        properties.push(("parent", None));
        properties.push(("technology", relationship.technology.clone()));
        properties.push(("tags", joined(&relationship.tags)));
        properties.push(("description", relationship.description.clone()));
        properties.push(("source", Some(source_file.path.clone())));
        let archimate_kind = match crate::archimate::relationship_archimate_type(relationship) {
            Some(t) => Some(String::from_str(t)),
            None => None,
        };
        properties.push(("type", archimate_kind));
        let access = match crate::archimate::relationship_access_direction(relationship) {
            Some(a) => Some(String::from_str(a)),
            None => None,
        };
        properties.push(("access", access));
        properties.push(("color", property_value(&relationship.attributes, "color")));
        properties.push(("thickness", property_value(&relationship.attributes, "thickness")));
        properties.push(("style", property_value(&relationship.attributes, "style")));
        append_archimate_properties(&mut entry, &properties, 6);
        entry.append("    </relationship>\n");
        assert(out@ == relationship_exchange_head(*workspace, index as int));
        out.append(entry.as_str());
        assert(out@.take(relationship_exchange_head(*workspace, index as int).len() as int) =~= relationship_exchange_head(*workspace, index as int));
    } else {
        proof {
            assert(relationship_exchange_head(*workspace, index as int) =~= Seq::<char>::empty());
            assert(out@.take(0) =~= Seq::<char>::empty());
        }
    }
    out
}

/// The workspace as an Open Group ArchiMate exchange document: every element and every
/// relationship between known elements, with their c4c properties and the definitions of
/// the properties used.
#[verifier::spinoff_prover]
#[verifier::rlimit(60)]
pub fn archimate(workspace: &Workspace) -> (r: String)
    requires
        workspace.wf(),
    ensures
        crate::text::has_prefix(r@, "<?xml version=\"1.0\" encoding=\"UTF-8\"?>\n"@),
        crate::text::has_suffix(r@, "  </propertyDefinitions>\n</model>\n"@),
        (exists|parts: Seq<Seq<char>>, rest: Seq<char>| {
            &&& parts.len() == workspace.elements@.len()
            &&& forall|i: int| 0 <= i < parts.len() ==> crate::text::has_prefix(#[trigger] parts[i], element_exchange_head(i, workspace.elements@[i]))
            &&& r@ == archimate_intro(*workspace) + parts.flatten() + rest
        }),
        (exists|parts: Seq<Seq<char>>, entries: Seq<Seq<char>>, rest: Seq<char>| {
            &&& parts.len() == workspace.elements@.len()
            &&& entries.len() == workspace.relationships@.len()
            &&& forall|i: int| 0 <= i < entries.len() ==> entry_fits(*workspace, i, #[trigger] entries[i])
            &&& r@ == archimate_intro(*workspace) + parts.flatten() + "  </elements>\n  <relationships>\n"@ + entries.flatten() + rest
        }),
        (exists|parts: Seq<Seq<char>>, entries: Seq<Seq<char>>, definitions: Seq<(&str, &str)>| {
            &&& parts.len() == workspace.elements@.len()
            &&& forall|i: int| 0 <= i < parts.len() ==> crate::text::has_prefix(#[trigger] parts[i], element_exchange_head(i, workspace.elements@[i]))
            &&& entries.len() == workspace.relationships@.len()
            &&& forall|i: int| 0 <= i < entries.len() ==> entry_fits(*workspace, i, #[trigger] entries[i])
            &&& definitions.len() >= 7 && definitions.take(7) == base_definitions()
            &&& r@ == archimate_intro(*workspace) + parts.flatten() + "  </elements>\n  <relationships>\n"@ + entries.flatten()
                + "  </relationships>\n  <propertyDefinitions>\n"@ + definition_lines(definitions) + "  </propertyDefinitions>\n</model>\n"@
        }),
{
    let head = String::from_str("<?xml version=\"1.0\" encoding=\"UTF-8\"?>\n");
    let mut body = String::from_str("<model xmlns=\"http://www.opengroup.org/xsd/archimate/3.0/\" xmlns:xsi=\"http://www.w3.org/2001/XMLSchema-instance\" identifier=\"id-c4c-workspace\">\n  <name xml:lang=\"en\">");
    match &workspace.name {
        Some(n) => body.append(xml_text(n.as_str()).as_str()),
        None => body.append("Workspace"),
    }
    body.append("</name>\n");
    if let Some(description) = &workspace.description {
        body.append("  <documentation xml:lang=\"en\">");
        body.append(xml_text(description.as_str()).as_str());
        body.append("</documentation>\n");
    }
    body.append("  <elements>\n");
    let ghost intro = head@ + body@;
    assert(intro =~= archimate_intro(*workspace));
    let ghost before = body@;
    let ghost mut parts: Seq<Seq<char>> = Seq::empty();
    let mut index: usize = 0;
    while index < workspace.elements.len()
        invariant
            index <= workspace.elements@.len(),
            workspace.wf(),
            parts.len() == index,
            body@ == before + parts.flatten(),
            forall|i: int| 0 <= i < index ==> crate::text::has_prefix(#[trigger] parts[i], element_exchange_head(i, workspace.elements@[i])),
        decreases workspace.elements.len() - index,
    {
        let piece = archimate_element_xml(workspace, index);
        body.append(piece.as_str());
        proof {
            parts.lemma_flatten_push(piece@);
            parts = parts.push(piece@);
        }
        index = index + 1;
    }
    let mut more = String::new();
    more.append("  </elements>\n  <relationships>\n");
    let ghost opening = more@;
    let ghost mut rparts: Seq<Seq<char>> = Seq::empty();
    let mut r: usize = 0;
    while r < workspace.relationships.len()
        invariant
            r <= workspace.relationships@.len(),
            workspace.wf(),
            rparts.len() == r,
            more@ == opening + rparts.flatten(),
            forall|i: int| 0 <= i < r ==> entry_fits(*workspace, i, #[trigger] rparts[i]),
        decreases workspace.relationships.len() - r,
    {
        let piece = archimate_relationship_xml(workspace, r);
        more.append(piece.as_str());
        proof {
            rparts.lemma_flatten_push(piece@);
            rparts = rparts.push(piece@);
        }
        r = r + 1;
    }
    let ghost after_relationships = more@;
    let mut defs = String::new();
    defs.append("  </relationships>\n  <propertyDefinitions>\n");
    let mut definitions: Vec<(&'static str, &'static str)> = vec![
        ("id", "c4c.id"),
        ("kind", "c4c.kind"),
        ("parent", "c4c.parent"),
        ("technology", "c4c.technology"),
        ("tags", "c4c.tags"),
        ("description", "c4c.description"),
        ("source", "c4c.source"),
    ];
    assert(definitions@ =~= base_definitions());
    let extra = archimate_extra_property_definitions(workspace);
    let mut x: usize = 0;
    while x < extra.len()
        invariant
            x <= extra@.len(),
            definitions@.len() == 7 + x,
            definitions@.take(7) == base_definitions(),
        decreases extra.len() - x,
    {
        let ghost before = definitions@;
        definitions.push(extra[x]);
        assert(definitions@.take(7) =~= before.take(7));
        x = x + 1;
    }
    let ghost defs_head = defs@;
    let mut d: usize = 0;
    while d < definitions.len()
        invariant
            d <= definitions@.len(),
            defs@ == defs_head + definition_lines(definitions@.take(d as int)),
        decreases definitions.len() - d,
    {
        defs.append("    <propertyDefinition identifier=\"property-");
        defs.append(definitions[d].0);
        defs.append("\" type=\"string\"><name xml:lang=\"en\">");
        defs.append(definitions[d].1);
        defs.append("</name></propertyDefinition>\n");
        proof {
            let now = definitions@.take(d + 1);
            assert(now.drop_last() =~= definitions@.take(d as int));
            assert(now.last() == definitions@[d as int]);
        }
        d = d + 1;
    }
    assert(definitions@.take(definitions@.len() as int) =~= definitions@);
    assert(definitions@.take(7) =~= base_definitions());
    let tail = String::from_str("  </propertyDefinitions>\n</model>\n");
    more.append(defs.as_str());
    assert(more@ =~= opening + rparts.flatten() + defs@);
    body.append(more.as_str());
    let r = cat3(head.as_str(), body.as_str(), tail.as_str());
    assert(r@.take(head@.len() as int) =~= head@);
    assert(r@.skip(r@.len() - tail@.len()) =~= tail@);
    assert(r@ =~= archimate_intro(*workspace) + parts.flatten() + (more@ + tail@));
    assert(r@ =~= archimate_intro(*workspace) + parts.flatten() + "  </elements>\n  <relationships>\n"@ + rparts.flatten()
        + (defs@ + tail@));
    assert(r@ =~= archimate_intro(*workspace) + parts.flatten() + "  </elements>\n  <relationships>\n"@ + rparts.flatten()
        + "  </relationships>\n  <propertyDefinitions>\n"@ + definition_lines(definitions@) + "  </propertyDefinitions>\n</model>\n"@);
    r
}

/// Why strict-safe mode refuses to run a local renderer for `format`, or nothing when it does
/// not apply.
pub fn renderer_refusal(strict_safe: bool, format: &str) -> (r: Option<String>)
    ensures
        r is Some <==> strict_safe,
        r matches Some(m) ==> m@ == "--strict-safe rejects external local renderer execution for "@ + format@
            + ". Export --format dot or --format mermaid instead. No renderer was executed and no network request was made."@,
{
    if strict_safe {
        Some(cat3("--strict-safe rejects external local renderer execution for ", format,
            ". Export --format dot or --format mermaid instead. No renderer was executed and no network request was made."))
    } else {
        None
    }
}

/// The options of an export.
#[derive(Debug, Clone, Copy)]
pub struct ExportOptions {
    pub strict_safe: bool,
}

/// The formats a workspace can be exported in.
#[derive(Debug, Clone, Copy, PartialEq, Eq, Structural)]
pub enum ExportFormat {
    Json,
    Mermaid,
    D2,
    PlantUml,
    C4PlantUml,
    Dot,
    DrawIo,
    ArchiMate,
    ArchiNative,
    Html,
    Svg,
    Png,
}

/// The format a name selects, compared ASCII case-insensitively.
pub open spec fn format_named(name: Seq<char>) -> Option<ExportFormat> {
    let n = Seq::new(name.len(), |i: int| crate::text::lower(name[i]));
    if n == "json"@ || n == "structurizr-json"@ { Some(ExportFormat::Json) }
    else if n == "mermaid"@ || n == "mmd"@ { Some(ExportFormat::Mermaid) }
    else if n == "d2"@ { Some(ExportFormat::D2) }
    else if n == "plantuml"@ || n == "puml"@ { Some(ExportFormat::PlantUml) }
    else if n == "c4plantuml"@ || n == "c4-plantuml"@ { Some(ExportFormat::C4PlantUml) }
    else if n == "dot"@ || n == "graphviz"@ { Some(ExportFormat::Dot) }
    else if n == "drawio"@ || n == "draw.io"@ { Some(ExportFormat::DrawIo) }
    else if n == "archimate"@ || n == "archimate-xml"@ || n == "opengroup-archimate"@ { Some(ExportFormat::ArchiMate) }
    else if n == "archi"@ || n == "archi-native"@ || n == "archimate-native"@ { Some(ExportFormat::ArchiNative) }
    else if n == "html"@ || n == "site"@ { Some(ExportFormat::Html) }
    else if n == "svg"@ { Some(ExportFormat::Svg) }
    else if n == "png"@ { Some(ExportFormat::Png) }
    else { None }
}

impl ExportFormat {
    /// The format named `value`; an unknown name is refused with the list of formats.
    pub fn parse(value: &str) -> (r: Result<ExportFormat, String>)
        ensures
            match format_named(value@) {
                Some(f) => r == Ok::<ExportFormat, String>(f),
                None => r is Err,
            },
    {
        let n = ascii_lowercase(value);
        let s = n.as_str();
        if seq_eq(s, "json") || seq_eq(s, "structurizr-json") { Ok(ExportFormat::Json) }
        else if seq_eq(s, "mermaid") || seq_eq(s, "mmd") { Ok(ExportFormat::Mermaid) }
        else if seq_eq(s, "d2") { Ok(ExportFormat::D2) }
        else if seq_eq(s, "plantuml") || seq_eq(s, "puml") { Ok(ExportFormat::PlantUml) }
        else if seq_eq(s, "c4plantuml") || seq_eq(s, "c4-plantuml") { Ok(ExportFormat::C4PlantUml) }
        else if seq_eq(s, "dot") || seq_eq(s, "graphviz") { Ok(ExportFormat::Dot) }
        else if seq_eq(s, "drawio") || seq_eq(s, "draw.io") { Ok(ExportFormat::DrawIo) }
        else if seq_eq(s, "archimate") || seq_eq(s, "archimate-xml") || seq_eq(s, "opengroup-archimate") { Ok(ExportFormat::ArchiMate) }
        else if seq_eq(s, "archi") || seq_eq(s, "archi-native") || seq_eq(s, "archimate-native") { Ok(ExportFormat::ArchiNative) }
        else if seq_eq(s, "html") || seq_eq(s, "site") { Ok(ExportFormat::Html) }
        else if seq_eq(s, "svg") { Ok(ExportFormat::Svg) }
        else if seq_eq(s, "png") { Ok(ExportFormat::Png) }
        else {
            Err(cat3("unsupported export format '", value, "'; supported: json, mermaid, d2, plantuml, c4plantuml, dot, drawio, archimate, archi, html, svg, png"))
        }
    }
}

/// The file an exported text goes to, with its content.
#[derive(Debug)]
pub struct ExportArtifact {
    pub path: String,
    pub content: String,
}

/// One artifact per view: the view's key made safe, the extension, and the rendered view.
pub fn view_artifacts(workspace: &Workspace, format: ExportFormat) -> (r: Vec<ExportArtifact>)
    requires
        matches!(format, ExportFormat::D2 | ExportFormat::PlantUml | ExportFormat::C4PlantUml | ExportFormat::Dot | ExportFormat::DrawIo),
    ensures
        r@.len() == workspace.views@.len(),
{
    let extension = match format {
        ExportFormat::D2 => "d2",
        ExportFormat::PlantUml | ExportFormat::C4PlantUml => "puml",
        ExportFormat::Dot => "dot",
        _ => "drawio",
    };
    let mut out: Vec<ExportArtifact> = Vec::new();
    let mut i: usize = 0;
    while i < workspace.views.len()
        invariant
            i <= workspace.views@.len(),
            out@.len() == i,
        decreases workspace.views.len() - i,
    {
        let view = &workspace.views[i];
        let path = cat3(safe_name(view_key(view).as_str()).as_str(), ".", extension);
        let content = match format {
            ExportFormat::D2 => d2(workspace, view),
            ExportFormat::PlantUml => plantuml(workspace, view),
            ExportFormat::C4PlantUml => c4plantuml(workspace, view),
            ExportFormat::Dot => dot(workspace, view),
            _ => drawio(workspace, view),
        };
        out.push(ExportArtifact { path, content });
        i = i + 1;
    }
    out
}

} // verus!
