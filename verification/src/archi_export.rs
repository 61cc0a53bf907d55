use vstd::prelude::*;
use vstd::view::View as _;
use crate::archimate::{
    archimate_element_default_color, archimate_element_folder, folder_color, last_attribute, last_property_index,
    relationship_archimate_type, spec_type_by_native,
};
use crate::exporters::{map_chars, safe_char, safe_name, view_key, xml_attr, xml_text, ViewGraph, ViewGraphRelationship};
use crate::inspect::archimate_type_text;
use crate::lookup::{find, found};
use crate::model::{Element, ElementKind, Property, Relationship, View, ViewKind, Workspace};
use crate::text::{cat, cat3, cat5, decimal, ends_with, seq_eq, starts_with, trim, trim_ws, usize_to_string};

verus! {

/// Position and size of a node of an exported Archi diagram.
#[derive(Clone, Copy, Debug, PartialEq, Eq, Structural)]
pub struct ArchiNativeBounds {
    pub x: isize,
    pub y: isize,
    pub width: isize,
    pub height: isize,
}

/// A connection drawn on an exported Archi diagram: the elements it joins, the diagram objects
/// that show them, and the model relationship it shows (a synthetic one when the model has
/// none between those elements).
#[derive(Debug)]
pub struct ArchiNativeConnection {
    pub id: String,
    pub source_element: String,
    pub destination_element: String,
    pub source_object: String,
    pub destination_object: String,
    pub relationship_id: String,
    pub description: String,
    pub synthetic: bool,
}

/// Where one view's objects and groups are placed: bounds by element identifier and by group
/// index, the last entry for a key being the one that counts.
#[derive(Debug)]
pub struct ArchiNativeLayout {
    pub objects: Vec<(String, ArchiNativeBounds)>,
    pub groups: Vec<(usize, ArchiNativeBounds)>,
}

/// How one view is drawn: its layout, and for each of its connections, by position, the two
/// bendpoints (start x, start y, end x, end y) of its route when it has generated ones.
#[derive(Debug)]
pub struct ArchiNativeDrawing {
    pub layout: ArchiNativeLayout,
    pub bendpoints: Vec<Option<((isize, isize, isize, isize), (isize, isize, isize, isize))>>,
}

/// A text made safe for a file or identifier, `view` for nothing.
pub open spec fn safe_text(value: Seq<char>) -> Seq<char> {
    if map_chars(value, |c: char| safe_char(c)).len() == 0 {
        "view"@
    } else {
        map_chars(value, |c: char| safe_char(c))
    }
}

fn safe(value: &str) -> (r: String)
    ensures
        r@ == safe_text(value@),
{
    safe_name(value)
}

/// The identifier of an exported element.
pub fn archi_native_element_id(identifier: &str) -> (r: String)
    ensures
        r@ == "id-c4c-element-"@ + safe_text(identifier@),
{
    cat("id-c4c-element-", safe(identifier).as_str())
}

/// The identifier of an exported relationship: by its own identifier, else by its position.
pub open spec fn native_relationship_id(index: nat, r: Relationship) -> Seq<char> {
    match r.id {
        Some(id) => "id-c4c-relationship-"@ + safe_text(id@),
        None => "id-c4c-relationship-"@ + decimal(index + 1),
    }
}

/// The identifier of the exported relationship at `index`.
pub fn archi_native_relationship_id(index: usize, relationship: &Relationship) -> (r: String)
    requires
        index < usize::MAX,
    ensures
        r@ == native_relationship_id(index as nat, *relationship),
{
    match &relationship.id {
        Some(id) => cat("id-c4c-relationship-", safe(id.as_str()).as_str()),
        None => cat("id-c4c-relationship-", usize_to_string(index + 1).as_str()),
    }
}

/// The identifier of the diagram object that shows `identifier` on the view keyed `key`.
pub fn archi_native_object_id(key: &str, identifier: &str) -> (r: String)
    ensures
        r@ == "id-c4c-viewobject-"@ + safe_text(key@) + "-"@ + safe_text(identifier@),
{
    proof { reveal_strlit(""); }
    let r = cat5("id-c4c-viewobject-", safe(key).as_str(), "-", safe(identifier).as_str(), "");
    assert(r@ =~= "id-c4c-viewobject-"@ + safe_text(key@) + "-"@ + safe_text(identifier@));
    r
}

/// The folder an element kind is exported into.
pub open spec fn native_folder(kind: ElementKind) -> Seq<char> {
    match kind {
        ElementKind::Person => "business"@,
        ElementKind::SoftwareSystem | ElementKind::Container | ElementKind::Component
        | ElementKind::SoftwareSystemInstance | ElementKind::ContainerInstance => "application"@,
        ElementKind::DeploymentNode | ElementKind::InfrastructureNode => "technology"@,
        ElementKind::Generic | ElementKind::DeploymentEnvironment | ElementKind::DeploymentGroup => "other"@,
        ElementKind::ArchiMate(k) => match spec_type_by_native(k@) {
            Some(t) => t.folder@,
            None => "other"@,
        },
    }
}

/// The folder an element kind is exported into.
pub fn archi_native_folder(kind: &ElementKind) -> (r: &'static str)
    ensures
        r@ == native_folder(*kind),
{
    match kind {
        ElementKind::Person => "business",
        ElementKind::SoftwareSystem | ElementKind::Container | ElementKind::Component
        | ElementKind::SoftwareSystemInstance | ElementKind::ContainerInstance => "application",
        ElementKind::DeploymentNode | ElementKind::InfrastructureNode => "technology",
        ElementKind::Generic | ElementKind::DeploymentEnvironment | ElementKind::DeploymentGroup => "other",
        ElementKind::ArchiMate(k) => match archimate_element_folder(k) {
            Some(f) => f,
            None => "other",
        },
    }
}

/// The native type an element kind is exported as.
pub open spec fn native_type_name(kind: ElementKind) -> Seq<char> {
    match kind {
        ElementKind::Person => "BusinessActor"@,
        ElementKind::SoftwareSystem | ElementKind::Container | ElementKind::Component
        | ElementKind::SoftwareSystemInstance | ElementKind::ContainerInstance => "ApplicationComponent"@,
        ElementKind::DeploymentNode | ElementKind::InfrastructureNode => "Node"@,
        ElementKind::Generic | ElementKind::DeploymentEnvironment | ElementKind::DeploymentGroup => "Grouping"@,
        ElementKind::ArchiMate(k) => k@,
    }
}

/// The native type an element kind is exported as.
pub fn archi_native_type(kind: &ElementKind) -> (r: &str)
    ensures
        r@ == native_type_name(*kind),
{
    match kind {
        ElementKind::Person => "BusinessActor",
        ElementKind::SoftwareSystem | ElementKind::Container | ElementKind::Component
        | ElementKind::SoftwareSystemInstance | ElementKind::ContainerInstance => "ApplicationComponent",
        ElementKind::DeploymentNode | ElementKind::InfrastructureNode => "Node",
        ElementKind::Generic | ElementKind::DeploymentEnvironment | ElementKind::DeploymentGroup => "Grouping",
        ElementKind::ArchiMate(k) => k,
    }
}

/// The fill colour an element kind is drawn with when nothing overrides it.
pub open spec fn native_fill(kind: ElementKind) -> Seq<char> {
    match kind {
        ElementKind::Person => "#ffffb5"@,
        ElementKind::DeploymentNode | ElementKind::InfrastructureNode => "#c9d9ff"@,
        ElementKind::Generic | ElementKind::DeploymentEnvironment | ElementKind::DeploymentGroup => "#eeeeee"@,
        ElementKind::ArchiMate(k) => match spec_type_by_native(k@) {
            Some(t) => folder_color(t.folder@),
            None => "#b5ffff"@,
        },
        _ => "#b5ffff"@,
    }
}

/// The fill colour an element kind is drawn with when nothing overrides it.
pub fn archi_native_fill(kind: &ElementKind) -> (r: &'static str)
    ensures
        r@ == native_fill(*kind),
{
    match kind {
        ElementKind::Person => "#ffffb5",
        ElementKind::DeploymentNode | ElementKind::InfrastructureNode => "#c9d9ff",
        ElementKind::Generic | ElementKind::DeploymentEnvironment | ElementKind::DeploymentGroup => "#eeeeee",
        ElementKind::ArchiMate(k) => match archimate_element_default_color(k) {
            Some(c) => c,
            None => "#b5ffff",
        },
        _ => "#b5ffff",
    }
}

/// The native type a relationship is exported as: its ArchiMate type, else an association.
pub open spec fn native_relationship_type(r: Relationship) -> Seq<char> {
    match archimate_type_text(r) {
        Some(t) => t,
        None => "AssociationRelationship"@,
    }
}

/// The native type a relationship is exported as.
pub fn archi_native_relationship_type(relationship: &Relationship) -> (r: &'static str)
    ensures
        r@ == native_relationship_type(*relationship),
{
    match relationship_archimate_type(relationship) {
        Some(t) => t,
        None => "AssociationRelationship",
    }
}

/// The name an element is exported with: its trimmed name, else its type and identifier.
pub open spec fn native_element_name(e: Element) -> Seq<char> {
    if trim_ws(e.name@).len() == 0 {
        native_type_name(e.kind) + " "@ + e.id@
    } else {
        trim_ws(e.name@)
    }
}

/// The name an element is exported with.
pub fn archi_native_element_name(element: &Element) -> (r: String)
    ensures
        r@ == native_element_name(*element),
{
    let trimmed = trim(element.name.as_str());
    if trimmed.as_str().unicode_len() == 0 {
        cat3(archi_native_type(&element.kind), " ", element.id.as_str())
    } else {
        trimmed
    }
}

/// The key of a view as the exporters use it.
pub open spec fn view_key_text(view: View) -> Seq<char> {
    match view.key {
        Some(k) => k@,
        None => crate::mermaid::default_view_key_of(view.kind),
    }
}

/// The name a view is exported with: its trimmed title (or key), else its key.
pub open spec fn native_view_name(view: View) -> Seq<char> {
    let name = trim_ws(match view.title { Some(t) => t@, None => view_key_text(view) });
    if name.len() == 0 { view_key_text(view) } else { name }
}

/// The name a view is exported with.
pub fn archi_native_view_name(view: &View) -> (r: String)
    ensures
        r@ == native_view_name(*view),
{
    let key = view_key(view);
    let name = match &view.title {
        Some(t) => trim(t.as_str()),
        None => trim(key.as_str()),
    };
    if name.as_str().unicode_len() == 0 {
        key
    } else {
        name
    }
}

/// The value of the last property with key `key`.
fn property_text(properties: &Vec<Property>, key: &str) -> (r: Option<String>)
    ensures
        match r {
            Some(v) => last_attribute(properties@, key@) == Some(v@),
            None => last_attribute(properties@, key@) is None,
        },
{
    match last_property_index(properties, key) {
        Some(i) => Some(properties[i].value.clone()),
        None => None,
    }
}

/// A view's `object.<identifier>.<name>` property.
pub fn archi_native_view_object_property(view: &View, identifier: &str, name: &str) -> (r: Option<String>)
    ensures
        match r {
            Some(v) => last_attribute(view.properties@, "object."@ + identifier@ + "."@ + name@) == Some(v@),
            None => last_attribute(view.properties@, "object."@ + identifier@ + "."@ + name@) is None,
        },
{
    proof { reveal_strlit(""); }
    let key = cat5("object.", identifier, ".", name, "");
    assert(key@ =~= "object."@ + identifier@ + "."@ + name@);
    property_text(&view.properties, key.as_str())
}

/// A view's `group.<group name>.<name>` property.
pub fn archi_native_view_group_property(view: &View, group_name: &str, name: &str) -> (r: Option<String>)
    ensures
        match r {
            Some(v) => last_attribute(view.properties@, "group."@ + group_name@ + "."@ + name@) == Some(v@),
            None => last_attribute(view.properties@, "group."@ + group_name@ + "."@ + name@) is None,
        },
{
    proof { reveal_strlit(""); }
    let key = cat5("group.", group_name, ".", name, "");
    assert(key@ =~= "group."@ + group_name@ + "."@ + name@);
    property_text(&view.properties, key.as_str())
}

/// Whether a view places some group by hand: a `group.<name>.x` property.
pub open spec fn manual_group_key(key: Seq<char>) -> bool {
    crate::text::has_prefix(key, "group."@) && crate::text::has_suffix(key, ".x"@)
}

/// Whether a view places some group by hand.
pub fn archi_native_has_manual_group_bounds(view: &View) -> (r: bool)
    ensures
        r == exists|i: int| 0 <= i < view.properties@.len() && manual_group_key((#[trigger] view.properties@[i]).key@),
{
    let mut i: usize = 0;
    while i < view.properties.len()
        invariant
            i <= view.properties@.len(),
            forall|j: int| 0 <= j < i ==> !manual_group_key((#[trigger] view.properties@[j]).key@),
        decreases view.properties.len() - i,
    {
        let key = view.properties[i].key.as_str();
        if starts_with(key, "group.") && ends_with(key, ".x") {
            return true;
        }
        i = i + 1;
    }
    false
}

/// A text escaped for an XML attribute value.
pub open spec fn attr_text(value: Seq<char>) -> Seq<char> {
    map_chars(value, |c: char| crate::exporters::xml_attr_char(c))
}

/// A list of text pairs by their views.
pub open spec fn text_pairs(v: Seq<(String, String)>) -> Seq<(Seq<char>, Seq<char>)> {
    Seq::new(v.len(), |k: int| (v[k].0@, v[k].1@))
}

/// The value of the last pair with key `key`, as a map filled in order keeps it.
pub open spec fn pair_value(pairs: Seq<(Seq<char>, Seq<char>)>, key: Seq<char>) -> Option<Seq<char>>
    decreases pairs.len(),
{
    if pairs.len() == 0 {
        None
    } else if pairs.last().0 == key {
        Some(pairs.last().1)
    } else {
        pair_value(pairs.drop_last(), key)
    }
}

/// The value of the last pair of `v` with key `key`.
pub fn pair_lookup(v: &Vec<(String, String)>, key: &str) -> (r: Option<String>)
    ensures
        match r {
            Some(x) => pair_value(text_pairs(v@), key@) == Some(x@),
            None => pair_value(text_pairs(v@), key@) is None,
        },
{
    let mut i = v.len();
    assert(text_pairs(v@).take(i as int) =~= text_pairs(v@));
    while i > 0
        invariant
            i <= v@.len(),
            pair_value(text_pairs(v@), key@) == pair_value(text_pairs(v@).take(i as int), key@),
        decreases i,
    {
        assert(text_pairs(v@).take(i as int).drop_last() =~= text_pairs(v@).take(i - 1));
        if seq_eq(v[i - 1].0.as_str(), key) {
            return Some(v[i - 1].1.clone());
        }
        i = i - 1;
    }
    None
}

/// The object identifier of each element of `ids` that the workspace defines, in order.
pub open spec fn object_entries(w: Workspace, key: Seq<char>, ids: Seq<String>) -> Seq<(Seq<char>, Seq<char>)>
    decreases ids.len(),
{
    if ids.len() == 0 {
        Seq::empty()
    } else {
        let rest = object_entries(w, key, ids.drop_last());
        let id = ids.last()@;
        if found(w.elements@, id) is Some {
            rest.push((id, "id-c4c-viewobject-"@ + safe_text(key) + "-"@ + safe_text(id)))
        } else {
            rest
        }
    }
}

/// The diagram object identifier of each element that a view shows and the workspace defines.
pub fn archi_native_object_map(workspace: &Workspace, view: &View, graph: &ViewGraph) -> (r: Vec<(String, String)>)
    ensures
        text_pairs(r@) == object_entries(*workspace, safe_text(view_key_text(*view)), graph.element_ids@),
{
    let key = safe(view_key(view).as_str());
    let ghost k = key@;
    let mut out: Vec<(String, String)> = Vec::new();
    let mut i: usize = 0;
    while i < graph.element_ids.len()
        invariant
            i <= graph.element_ids@.len(),
            k == key@,
            text_pairs(out@) == object_entries(*workspace, k, graph.element_ids@.take(i as int)),
        decreases graph.element_ids.len() - i,
    {
        let id = &graph.element_ids[i];
        assert(graph.element_ids@.take(i + 1).drop_last() =~= graph.element_ids@.take(i as int));
        if find(workspace, id.as_str()).is_some() {
            let object = archi_native_object_id(key.as_str(), id.as_str());
            let ghost before = text_pairs(out@);
            out.push((id.clone(), object));
            assert(text_pairs(out@) =~= before.push((id@, "id-c4c-viewobject-"@ + safe_text(k) + "-"@ + safe_text(id@))));
        }
        i = i + 1;
    }
    assert(graph.element_ids@.take(graph.element_ids@.len() as int) =~= graph.element_ids@);
    out
}

/// Whether a model relationship joins the endpoints of a view edge.
pub open spec fn joins(r: Relationship, g: ViewGraphRelationship) -> bool {
    r.source@ == g.source@ && r.destination@ == g.destination@
}

/// The first model relationship that joins the endpoints of `g`.
pub open spec fn first_joining(rels: Seq<Relationship>, g: ViewGraphRelationship) -> Option<int> {
    if exists|i: int| 0 <= i < rels.len() && joins(#[trigger] rels[i], g) {
        Some(choose|i: int| 0 <= i < rels.len() && joins(#[trigger] rels[i], g)
            && forall|j: int| 0 <= j < i ==> !joins(#[trigger] rels[j], g))
    } else {
        None
    }
}

/// The model relationship a view edge shows: the one it came from when that joins its
/// endpoints, else the first that does; none for an edge that came from no relationship.
pub open spec fn shown_relationship(rels: Seq<Relationship>, g: ViewGraphRelationship) -> Option<int> {
    match g.relationship_index {
        None => None,
        Some(k) => if k < rels.len() && joins(rels[k as int], g) { Some(k as int) } else { first_joining(rels, g) },
    }
}

/// The relationship identifier a view edge is drawn with, and whether it is synthetic.
pub open spec fn view_relationship_text(w: Workspace, view: View, g: ViewGraphRelationship, position: nat) -> (Seq<char>, bool) {
    match shown_relationship(w.relationships@, g) {
        Some(k) => (native_relationship_id(k as nat, w.relationships@[k]), false),
        None => ("id-c4c-relationship-view-"@ + safe_text(view_key_text(view)) + "-"@ + decimal(position + 1), true),
    }
}

fn first_joining_index(rels: &Vec<Relationship>, g: &ViewGraphRelationship) -> (r: Option<usize>)
    ensures
        match r {
            Some(i) => first_joining(rels@, *g) == Some(i as int) && i < rels@.len(),
            None => first_joining(rels@, *g) is None,
        },
{
    let mut i: usize = 0;
    while i < rels.len()
        invariant
            i <= rels@.len(),
            forall|j: int| 0 <= j < i ==> !joins(#[trigger] rels@[j], *g),
        decreases rels.len() - i,
    {
        if seq_eq(rels[i].source.as_str(), g.source.as_str()) && seq_eq(rels[i].destination.as_str(), g.destination.as_str()) {
            proof {
                assert(joins(rels@[i as int], *g));
                let c = choose|c: int| 0 <= c < rels@.len() && joins(#[trigger] rels@[c], *g)
                    && forall|j: int| 0 <= j < c ==> !joins(#[trigger] rels@[j], *g);
                if c < i {
                } else if c > i {
                    assert(!joins(rels@[i as int], *g));
                }
            }
            return Some(i);
        }
        i = i + 1;
    }
    None
}

/// The relationship identifier a view edge at `position` is drawn with, and whether it is a
/// synthetic one made for the view.
pub fn archi_native_view_relationship_id(workspace: &Workspace, view: &View, relationship: &ViewGraphRelationship, position: usize) -> (r: (String, bool))
    requires
        position < usize::MAX,
    ensures
        (r.0@, r.1) == view_relationship_text(*workspace, *view, *relationship, position as nat),
{
    let exact = match relationship.relationship_index {
        None => None,
        Some(k) => {
            if k < workspace.relationships.len() && seq_eq(workspace.relationships[k].source.as_str(), relationship.source.as_str())
                && seq_eq(workspace.relationships[k].destination.as_str(), relationship.destination.as_str()) {
                Some(k)
            } else {
                first_joining_index(&workspace.relationships, relationship)
            }
        },
    };
    match exact {
        Some(index) => (archi_native_relationship_id(index, &workspace.relationships[index]), false),
        None => {
            let key = safe(view_key(view).as_str());
            let n = usize_to_string(position + 1);
            proof { reveal_strlit(""); }
            let id = cat5("id-c4c-relationship-view-", key.as_str(), "-", n.as_str(), "");
            assert(id@ =~= "id-c4c-relationship-view-"@ + safe_text(view_key_text(*view)) + "-"@ + decimal(position as nat + 1));
            (id, true)
        },
    }
}

/// The positions of the view edges whose two endpoints have diagram objects, in order.
pub open spec fn kept_positions(objects: Seq<(Seq<char>, Seq<char>)>, edges: Seq<ViewGraphRelationship>) -> Seq<int>
    decreases edges.len(),
{
    if edges.len() == 0 {
        Seq::empty()
    } else {
        let rest = kept_positions(objects, edges.drop_last());
        let g = edges.last();
        if pair_value(objects, g.source@) is Some && pair_value(objects, g.destination@) is Some {
            rest.push(edges.len() - 1)
        } else {
            rest
        }
    }
}

/// What the connection drawn for the view edge at `position` holds.
pub open spec fn connection_is(c: ArchiNativeConnection, w: Workspace, view: View, objects: Seq<(Seq<char>, Seq<char>)>, g: ViewGraphRelationship, position: nat) -> bool {
    &&& c.id@ == "id-c4c-connection-"@ + safe_text(view_key_text(view)) + "-"@ + decimal(position + 1)
    &&& c.source_element@ == g.source@
    &&& c.destination_element@ == g.destination@
    &&& pair_value(objects, g.source@) == Some(c.source_object@)
    &&& pair_value(objects, g.destination@) == Some(c.destination_object@)
    &&& (c.relationship_id@, c.synthetic) == view_relationship_text(w, view, g, position)
    &&& c.description@ == g.description@
}

/// The connections drawn on a view: one for each edge whose endpoints have diagram objects,
/// in edge order.
pub fn archi_native_connections(workspace: &Workspace, view: &View, graph: &ViewGraph, objects: &Vec<(String, String)>) -> (r: Vec<ArchiNativeConnection>)
    ensures
        r@.len() == kept_positions(text_pairs(objects@), graph.relationships@).len(),
        forall|k: int| 0 <= k < r@.len() ==> {
            let p = #[trigger] kept_positions(text_pairs(objects@), graph.relationships@)[k];
            0 <= p < graph.relationships@.len() && connection_is(r@[k], *workspace, *view, text_pairs(objects@),
                graph.relationships@[p], p as nat)
        },
{
    let key = safe(view_key(view).as_str());
    let ghost objs = text_pairs(objects@);
    let ghost edges = graph.relationships@;
    let mut out: Vec<ArchiNativeConnection> = Vec::new();
    let mut i: usize = 0;
    while i < graph.relationships.len()
        invariant
            i <= edges.len(),
            edges == graph.relationships@,
            objs == text_pairs(objects@),
            key@ == safe_text(view_key_text(*view)),
            out@.len() == kept_positions(objs, edges.take(i as int)).len(),
            forall|k: int| 0 <= k < out@.len() ==> {
                let p = #[trigger] kept_positions(objs, edges.take(i as int))[k];
                0 <= p < i && connection_is(out@[k], *workspace, *view, objs, edges[p], p as nat)
            },
        decreases graph.relationships.len() - i,
    {
        let g = &graph.relationships[i];
        let ghost before = kept_positions(objs, edges.take(i as int));
        assert(edges.take(i + 1).drop_last() =~= edges.take(i as int));
        assert(edges.take(i + 1).last() == edges[i as int]);
        let source = pair_lookup(objects, g.source.as_str());
        let destination = pair_lookup(objects, g.destination.as_str());
        match (source, destination) {
            (Some(source_object), Some(destination_object)) => {
                let (relationship_id, synthetic) = archi_native_view_relationship_id(workspace, view, g, i);
                let n = usize_to_string(i + 1);
                proof { reveal_strlit(""); }
                let id = cat5("id-c4c-connection-", key.as_str(), "-", n.as_str(), "");
                assert(id@ =~= "id-c4c-connection-"@ + safe_text(view_key_text(*view)) + "-"@ + decimal(i as nat + 1));
                let c = ArchiNativeConnection {
                    id,
                    source_element: g.source.clone(),
                    destination_element: g.destination.clone(),
                    source_object,
                    destination_object,
                    relationship_id,
                    description: g.description.clone(),
                    synthetic,
                };
                let ghost old_out = out@;
                out.push(c);
                assert(kept_positions(objs, edges.take(i + 1)) == before.push(i as int));
                assert forall|k: int| 0 <= k < out@.len() implies {
                    let p = #[trigger] kept_positions(objs, edges.take(i + 1))[k];
                    0 <= p < i + 1 && connection_is(out@[k], *workspace, *view, objs, edges[p], p as nat)
                } by {
                    if k < old_out.len() {
                        assert(out@[k] == old_out[k]);
                        assert(kept_positions(objs, edges.take(i + 1))[k] == before[k]);
                    }
                }
            },
            _ => {
                assert(kept_positions(objs, edges.take(i + 1)) == before);
            },
        }
        i = i + 1;
    }
    assert(edges.take(edges.len() as int) =~= edges);
    out
}

/// The fill colour of the object that shows `identifier` on a view: the view's override, else
/// the element's `background` attribute, else the kind's colour.
pub open spec fn object_fill_text(w: Workspace, view: View, identifier: Seq<char>, kind: ElementKind) -> Seq<char> {
    match last_attribute(view.properties@, "object."@ + identifier + ".background"@) {
        Some(v) => v,
        None => match found(w.elements@, identifier) {
            Some(k) => match last_attribute(w.elements@[k].attributes@, "background"@) {
                Some(v) => v,
                None => native_fill(kind),
            },
            None => native_fill(kind),
        },
    }
}

/// The fill colour of the object that shows `identifier` on a view.
pub fn archi_native_object_fill(workspace: &Workspace, view: &View, identifier: &str, kind: &ElementKind) -> (r: String)
    ensures
        r@ == object_fill_text(*workspace, *view, identifier@, *kind),
{
    proof {
        reveal_strlit(".");
        reveal_strlit("background");
        reveal_strlit(".background");
        assert("object."@ + identifier@ + "."@ + "background"@ =~= "object."@ + identifier@ + ".background"@);
    }
    match archi_native_view_object_property(view, identifier, "background") {
        Some(v) => v,
        None => match find(workspace, identifier) {
            Some(k) => match property_text(&workspace.elements[k].attributes, "background") {
                Some(v) => v,
                None => String::from_str(archi_native_fill(kind)),
            },
            None => String::from_str(archi_native_fill(kind)),
        },
    }
}

/// The first relationship exported with identifier `id`.
pub open spec fn relationship_with_id(rels: Seq<Relationship>, id: Seq<char>) -> Option<int> {
    if exists|i: int| 0 <= i < rels.len() && native_relationship_id(i as nat, #[trigger] rels[i]) == id {
        Some(choose|i: int| 0 <= i < rels.len() && native_relationship_id(i as nat, #[trigger] rels[i]) == id
            && forall|j: int| 0 <= j < i ==> native_relationship_id(j as nat, #[trigger] rels[j]) != id)
    } else {
        None
    }
}

/// The line style a relationship's colour and thickness attributes give.
pub open spec fn relationship_style(r: Relationship) -> Seq<char> {
    (match last_attribute(r.attributes@, "color"@) {
        Some(c) => " lineColor=\""@ + attr_text(c) + "\""@,
        None => Seq::empty(),
    }) + (match last_attribute(r.attributes@, "thickness"@) {
        Some(t) => " lineWidth=\""@ + attr_text(t) + "\""@,
        None => Seq::empty(),
    })
}

/// The line style of a connection: that of the relationship exported with `id`, nothing when
/// there is none.
pub open spec fn connection_style_text(w: Workspace, id: Seq<char>) -> Seq<char> {
    match relationship_with_id(w.relationships@, id) {
        None => Seq::empty(),
        Some(k) => relationship_style(w.relationships@[k]),
    }
}

fn style_of(r: &Relationship) -> (out: String)
    ensures
        out@ == relationship_style(*r),
{
    let mut out = String::new();
    match property_text(&r.attributes, "color") {
        Some(c) => {
            out.append(" lineColor=\"");
            out.append(xml_attr(c.as_str()).as_str());
            out.append("\"");
        },
        None => {},
    }
    let ghost first = out@;
    match property_text(&r.attributes, "thickness") {
        Some(t) => {
            out.append(" lineWidth=\"");
            out.append(xml_attr(t.as_str()).as_str());
            out.append("\"");
        },
        None => {},
    }
    proof {
        let tail = match last_attribute(r.attributes@, "thickness"@) {
            Some(t) => " lineWidth=\""@ + attr_text(t) + "\""@,
            None => Seq::<char>::empty(),
        };
        assert(out@ =~= first + tail);
    }
    out
}

fn relationship_index_with_id(rels: &Vec<Relationship>, relationship_id: &str) -> (hit: Option<usize>)
    ensures
        match hit {
            Some(k) => relationship_with_id(rels@, relationship_id@) == Some(k as int) && k < rels@.len(),
            None => relationship_with_id(rels@, relationship_id@) is None,
        },
{
    let mut i: usize = 0;
    while i < rels.len()
        invariant
            i <= rels@.len(),
            forall|j: int| 0 <= j < i ==> native_relationship_id(j as nat, #[trigger] rels@[j]) != relationship_id@,
        decreases rels.len() - i,
    {
        let id = archi_native_relationship_id(i, &rels[i]);
        if seq_eq(id.as_str(), relationship_id) {
            proof {
                let c = choose|c: int| 0 <= c < rels@.len() && native_relationship_id(c as nat, #[trigger] rels@[c]) == relationship_id@
                    && forall|j: int| 0 <= j < c ==> native_relationship_id(j as nat, #[trigger] rels@[j]) != relationship_id@;
                assert(native_relationship_id(i as nat, rels@[i as int]) == relationship_id@);
                if c < i {
                } else if c > i {
                    assert(native_relationship_id(i as nat, rels@[i as int]) != relationship_id@);
                }
            }
            return Some(i);
        }
        i = i + 1;
    }
    None
}

/// The line style of the connections that show the relationship exported with `id`.
pub fn archi_native_connection_style(workspace: &Workspace, relationship_id: &str) -> (r: String)
    ensures
        r@ == connection_style_text(*workspace, relationship_id@),
{
    match relationship_index_with_id(&workspace.relationships, relationship_id) {
        None => String::new(),
        Some(k) => style_of(&workspace.relationships[k]),
    }
}

/// An integer in decimal, with a minus sign when negative.
pub open spec fn int_text(v: int) -> Seq<char> {
    if v < 0 { "-"@ + decimal((-v) as nat) } else { decimal(v as nat) }
}

/// `v` in decimal, with a minus sign when negative.
pub fn i128_to_string(v: i128) -> (r: String)
    ensures
        r@ == int_text(v as int),
{
    if v < 0 {
        let magnitude: u128 = ((-(v + 1)) as u128) + 1;
        let digits = crate::projection::u128_to_string(magnitude);
        cat("-", digits.as_str())
    } else {
        crate::projection::u128_to_string(v as u128)
    }
}

fn spaces(n: usize) -> (r: String)
    ensures
        r@ == Seq::new(n as nat, |i: int| ' '),
{
    let mut out = String::new();
    let mut i: usize = 0;
    while i < n
        invariant
            i <= n,
            out@ == Seq::new(i as nat, |k: int| ' '),
        decreases n - i,
    {
        out.append(" ");
        proof { reveal_strlit(" "); }
        assert(out@ =~= Seq::new((i + 1) as nat, |k: int| ' '));
        i = i + 1;
    }
    out
}

/// The `<bounds>` line of a diagram node.
pub open spec fn bounds_text(indent: Seq<char>, x: int, y: int, width: int, height: int) -> Seq<char> {
    indent + "  <bounds x=\""@ + int_text(x) + "\" y=\""@ + int_text(y) + "\" width=\""@ + int_text(width)
        + "\" height=\""@ + int_text(height) + "\"/>\n"@
}

fn bounds_xml(indent: &str, x: i128, y: i128, width: i128, height: i128) -> (r: String)
    ensures
        r@ == bounds_text(indent@, x as int, y as int, width as int, height as int),
{
    let mut out = String::from_str(indent);
    out.append("  <bounds x=\"");
    out.append(i128_to_string(x).as_str());
    out.append("\" y=\"");
    out.append(i128_to_string(y).as_str());
    out.append("\" width=\"");
    out.append(i128_to_string(width).as_str());
    out.append("\" height=\"");
    out.append(i128_to_string(height).as_str());
    out.append("\"/>\n");
    out
}

/// The bounds of `key` in a layout: the last entry for it.
pub open spec fn bounds_of_key(entries: Seq<(String, ArchiNativeBounds)>, key: Seq<char>) -> Option<ArchiNativeBounds>
    decreases entries.len(),
{
    if entries.len() == 0 {
        None
    } else if entries.last().0@ == key {
        Some(entries.last().1)
    } else {
        bounds_of_key(entries.drop_last(), key)
    }
}

/// The bounds a layout gives the object of `key`.
pub fn object_bounds(entries: &Vec<(String, ArchiNativeBounds)>, key: &str) -> (r: Option<ArchiNativeBounds>)
    ensures
        r == bounds_of_key(entries@, key@),
{
    let mut i = entries.len();
    assert(entries@.take(i as int) =~= entries@);
    while i > 0
        invariant
            i <= entries@.len(),
            bounds_of_key(entries@, key@) == bounds_of_key(entries@.take(i as int), key@),
        decreases i,
    {
        assert(entries@.take(i as int).drop_last() =~= entries@.take(i - 1));
        if seq_eq(entries[i - 1].0.as_str(), key) {
            return Some(entries[i - 1].1);
        }
        i = i - 1;
    }
    None
}

/// The bounds of group `key` in a layout: the last entry for it.
pub open spec fn bounds_of_group(entries: Seq<(usize, ArchiNativeBounds)>, key: usize) -> Option<ArchiNativeBounds>
    decreases entries.len(),
{
    if entries.len() == 0 {
        None
    } else if entries.last().0 == key {
        Some(entries.last().1)
    } else {
        bounds_of_group(entries.drop_last(), key)
    }
}

/// The bounds a layout gives group `key`.
pub fn group_bounds(entries: &Vec<(usize, ArchiNativeBounds)>, key: usize) -> (r: Option<ArchiNativeBounds>)
    ensures
        r == bounds_of_group(entries@, key),
{
    let mut i = entries.len();
    assert(entries@.take(i as int) =~= entries@);
    while i > 0
        invariant
            i <= entries@.len(),
            bounds_of_group(entries@, key) == bounds_of_group(entries@.take(i as int), key),
        decreases i,
    {
        assert(entries@.take(i as int).drop_last() =~= entries@.take(i - 1));
        if entries[i - 1].0 == key {
            return Some(entries[i - 1].1);
        }
        i = i - 1;
    }
    None
}

/// The identifiers of the connections that end at `id`, in order.
pub open spec fn target_ids(cs: Seq<ArchiNativeConnection>, id: Seq<char>) -> Seq<Seq<char>>
    decreases cs.len(),
{
    if cs.len() == 0 {
        Seq::empty()
    } else if cs.last().destination_element@ == id {
        target_ids(cs.drop_last(), id).push(cs.last().id@)
    } else {
        target_ids(cs.drop_last(), id)
    }
}

/// The identifiers of the connections that end at `identifier`, joined by spaces.
fn target_connections(connections: &Vec<ArchiNativeConnection>, identifier: &str) -> (r: String)
    ensures
        r@ == crate::archi_native::join_words(target_ids(connections@, identifier@)),
{
    let mut out = String::new();
    let mut first = true;
    let mut i: usize = 0;
    while i < connections.len()
        invariant
            i <= connections@.len(),
            out@ == crate::archi_native::join_words(target_ids(connections@.take(i as int), identifier@)),
            first == (target_ids(connections@.take(i as int), identifier@).len() == 0),
        decreases connections.len() - i,
    {
        assert(connections@.take(i + 1).drop_last() =~= connections@.take(i as int));
        assert(connections@.take(i + 1).last() == connections@[i as int]);
        if seq_eq(connections[i].destination_element.as_str(), identifier) {
            let ghost ws = target_ids(connections@.take(i as int), identifier@);
            let ghost w = connections@[i as int].id@;
            assert(ws.push(w).drop_last() =~= ws);
            if !first {
                out.append(" ");
            } else {
                assert(ws.push(w) =~= seq![w]);
            }
            out.append(connections[i].id.as_str());
            first = false;
        }
        i = i + 1;
    }
    assert(connections@.take(connections@.len() as int) =~= connections@);
    out
}

/// An optional colour attribute of an object: the view's override, else the element's own.
/// An optional colour attribute of an object: ` attribute="value"` with the view's override,
/// else the element's own, nothing when neither gives one.
pub open spec fn object_color_text(view: View, element: Element, identifier: Seq<char>, name: Seq<char>, attribute: Seq<char>) -> Seq<char> {
    match (match last_attribute(view.properties@, "object."@ + identifier + "."@ + name) {
        Some(v) => Some(v),
        None => last_attribute(element.attributes@, name),
    }) {
        Some(v) => " "@ + (attribute + "=\""@ + attr_text(v)) + "\""@,
        None => Seq::empty(),
    }
}

fn object_color(view: &View, element: &Element, identifier: &str, name: &str, attribute: &str) -> (r: String)
    ensures
        r@ == object_color_text(*view, *element, identifier@, name@, attribute@),
{
    let value = match archi_native_view_object_property(view, identifier, name) {
        Some(v) => Some(v),
        None => property_text(&element.attributes, name),
    };
    match value {
        Some(v) => {
            let quoted = cat3(attribute, "=\"", xml_attr(v.as_str()).as_str());
            cat3(" ", quoted.as_str(), "\"")
        },
        None => String::new(),
    }
}

/// The `<sourceConnection>` element of one connection, with its two bendpoints when they are
/// used and given.
pub open spec fn source_connection_text(w: Workspace, c: ArchiNativeConnection, bend: Option<((isize, isize, isize, isize), (isize, isize, isize, isize))>, use_bendpoints: bool, indent: Seq<char>) -> Seq<char> {
    indent + "  <sourceConnection xsi:type=\"archimate:Connection\" id=\""@ + c.id@ + "\" source=\""@ + c.source_object@
        + "\" target=\""@ + c.destination_object@ + "\" archimateRelationship=\""@ + c.relationship_id@ + "\""@
        + connection_style_text(w, c.relationship_id@) + ">\n"@
        + (if use_bendpoints {
            match bend {
                Some((first, second)) => bendpoint_text(indent, first) + bendpoint_text(indent, second),
                None => Seq::empty(),
            }
        } else {
            Seq::empty()
        })
        + indent + "  </sourceConnection>\n"@
}

/// The bendpoints given for the connection at `route`, if any.
pub open spec fn bend_at(bends: Seq<Option<((isize, isize, isize, isize), (isize, isize, isize, isize))>>, route: int) -> Option<((isize, isize, isize, isize), (isize, isize, isize, isize))> {
    if 0 <= route < bends.len() { bends[route] } else { None }
}

/// The `<sourceConnection>` elements of the connections among `cs` that start at `id`.
pub open spec fn source_connections_text(w: Workspace, cs: Seq<ArchiNativeConnection>, bends: Seq<Option<((isize, isize, isize, isize), (isize, isize, isize, isize))>>, use_bendpoints: bool, id: Seq<char>, indent: Seq<char>) -> Seq<char>
    decreases cs.len(),
{
    if cs.len() == 0 {
        Seq::empty()
    } else {
        source_connections_text(w, cs.drop_last(), bends, use_bendpoints, id, indent)
            + if cs.last().source_element@ == id {
                source_connection_text(w, cs.last(), bend_at(bends, cs.len() - 1), use_bendpoints, indent)
            } else {
                Seq::empty()
            }
    }
}

fn source_connection_xml(
    workspace: &Workspace,
    connection: &ArchiNativeConnection,
    bend: Option<((isize, isize, isize, isize), (isize, isize, isize, isize))>,
    use_bendpoints: bool,
    indent: &str,
) -> (out: String)
    ensures
        out@ == source_connection_text(*workspace, *connection, bend, use_bendpoints, indent@),
{
    let mut out = String::from_str(indent);
    out.append("  <sourceConnection xsi:type=\"archimate:Connection\" id=\"");
    out.append(connection.id.as_str());
    out.append("\" source=\"");
    out.append(connection.source_object.as_str());
    out.append("\" target=\"");
    out.append(connection.destination_object.as_str());
    out.append("\" archimateRelationship=\"");
    out.append(connection.relationship_id.as_str());
    out.append("\"");
    out.append(archi_native_connection_style(workspace, connection.relationship_id.as_str()).as_str());
    out.append(">\n");
    let ghost head = out@;
    let mut bends = String::new();
    if use_bendpoints {
        match bend {
            Some((first, second)) => {
                bends.append(bendpoint_xml(indent, first).as_str());
                bends.append(bendpoint_xml(indent, second).as_str());
            },
            None => {},
        }
    }
    out.append(bends.as_str());
    out.append(indent);
    out.append("  </sourceConnection>\n");
    out
}

/// The `<sourceConnection>` elements of the connections that start at `identifier`, each with
/// its generated bendpoints when they are used.
fn source_connections(
    workspace: &Workspace,
    connections: &Vec<ArchiNativeConnection>,
    bendpoints: &Vec<Option<((isize, isize, isize, isize), (isize, isize, isize, isize))>>,
    use_bendpoints: bool,
    identifier: &str,
    indent: &str,
) -> (r: String)
    ensures
        r@ == source_connections_text(*workspace, connections@, bendpoints@, use_bendpoints, identifier@, indent@),
{
    let mut out = String::new();
    let mut route: usize = 0;
    while route < connections.len()
        invariant
            route <= connections@.len(),
            out@ == source_connections_text(*workspace, connections@.take(route as int), bendpoints@, use_bendpoints, identifier@, indent@),
        decreases connections.len() - route,
    {
        assert(connections@.take(route + 1).drop_last() =~= connections@.take(route as int));
        assert(connections@.take(route + 1).last() == connections@[route as int]);
        let connection = &connections[route];
        if seq_eq(connection.source_element.as_str(), identifier) {
            let bend = if route < bendpoints.len() { bendpoints[route] } else { None };
            out.append(source_connection_xml(workspace, connection, bend, use_bendpoints, indent).as_str());
        }
        route = route + 1;
    }
    assert(connections@.take(connections@.len() as int) =~= connections@);
    out
}

/// The `<bendpoint>` line of a connection.
pub open spec fn bendpoint_text(indent: Seq<char>, p: (isize, isize, isize, isize)) -> Seq<char> {
    indent + "    <bendpoint startX=\""@ + int_text(p.0 as int) + "\" startY=\""@ + int_text(p.1 as int)
        + "\" endX=\""@ + int_text(p.2 as int) + "\" endY=\""@ + int_text(p.3 as int) + "\"/>\n"@
}

fn bendpoint_xml(indent: &str, p: (isize, isize, isize, isize)) -> (r: String)
    ensures
        r@ == bendpoint_text(indent@, p),
{
    let mut out = String::from_str(indent);
    out.append("    <bendpoint startX=\"");
    out.append(i128_to_string(p.0 as i128).as_str());
    out.append("\" startY=\"");
    out.append(i128_to_string(p.1 as i128).as_str());
    out.append("\" endX=\"");
    out.append(i128_to_string(p.2 as i128).as_str());
    out.append("\" endY=\"");
    out.append(i128_to_string(p.3 as i128).as_str());
    out.append("\"/>\n");
    out
}

/// The opening tag of the object that shows `id`.
pub open spec fn object_open_text(w: Workspace, view: View, cs: Seq<ArchiNativeConnection>, id: Seq<char>, object_id: Seq<char>, element: Element, pad: Seq<char>) -> Seq<char> {
    let targets = crate::archi_native::join_words(target_ids(cs, id));
    pad + "<child xsi:type=\"archimate:DiagramObject\" id=\""@ + object_id + "\" archimateElement=\""@
        + ("id-c4c-element-"@ + safe_text(id)) + "\" type=\"1\" fillColor=\""@
        + object_fill_text(w, view, id, element.kind) + "\""@
        + object_color_text(view, element, id, "color"@, "fontColor"@)
        + object_color_text(view, element, id, "stroke"@, "lineColor"@)
        + (if targets.len() > 0 { " targetConnections=\""@ + targets + "\""@ } else { Seq::empty() })
        + ">\n"@
}

fn object_open(workspace: &Workspace, view: &View, element: &Element, connections: &Vec<ArchiNativeConnection>, identifier: &str, object_id: &str, pad: &str) -> (r: String)
    requires
        found(workspace.elements@, identifier@) matches Some(k) && workspace.elements@[k] == *element,
    ensures
        r@ == object_open_text(*workspace, *view, connections@, identifier@, object_id@, *element, pad@),
{
    let targets = target_connections(connections, identifier);
    let mut xml = String::from_str(pad);
    xml.append("<child xsi:type=\"archimate:DiagramObject\" id=\"");
    xml.append(object_id);
    xml.append("\" archimateElement=\"");
    xml.append(archi_native_element_id(identifier).as_str());
    xml.append("\" type=\"1\" fillColor=\"");
    xml.append(archi_native_object_fill(workspace, view, identifier, &element.kind).as_str());
    xml.append("\"");
    xml.append(object_color(view, element, identifier, "color", "fontColor").as_str());
    xml.append(object_color(view, element, identifier, "stroke", "lineColor").as_str());
    let ghost before = xml@;
    let mut t = String::new();
    if targets.as_str().unicode_len() > 0 {
        t.append(" targetConnections=\"");
        t.append(targets.as_str());
        t.append("\"");
    }
    xml.append(t.as_str());
    xml.append(">\n");
    xml
}

/// The `<child>` element of the object that shows `id` at `(x, y)`: its identifiers, colours and
/// the connections that end at it, its bounds, the connections that start at it, then
/// `children`; nothing when the workspace has no such element or the view no object for it.
pub open spec fn object_text(
    w: Workspace,
    view: View,
    bends: Seq<Option<((isize, isize, isize, isize), (isize, isize, isize, isize))>>,
    objects: Seq<(Seq<char>, Seq<char>)>,
    cs: Seq<ArchiNativeConnection>,
    use_bendpoints: bool,
    id: Seq<char>,
    x: int,
    y: int,
    size: ArchiNativeBounds,
    indent: nat,
    children: Seq<char>,
) -> Option<Seq<char>> {
    match found(w.elements@, id) {
        None => None,
        Some(k) => match pair_value(objects, id) {
            None => None,
            Some(object_id) => {
                let pad = Seq::new(indent, |i: int| ' ');
                let element = w.elements@[k];
                Some(object_open_text(w, view, cs, id, object_id, element, pad)
                    + bounds_text(pad, x, y, size.width as int, size.height as int)
                    + source_connections_text(w, cs, bends, use_bendpoints, id, pad) + children + pad + "</child>\n"@)
            },
        },
    }
}

/// The `<child>` element of the diagram object that shows `identifier` at `(x, y)`, with its
/// connections and `children` inside; nothing when the workspace has no such element or the
/// view no object for it.
#[verifier::spinoff_prover]
fn object_xml(
    workspace: &Workspace,
    view: &View,
    drawing: &ArchiNativeDrawing,
    objects: &Vec<(String, String)>,
    connections: &Vec<ArchiNativeConnection>,
    use_bendpoints: bool,
    identifier: &str,
    x: i128,
    y: i128,
    size: ArchiNativeBounds,
    indent: usize,
    children: &str,
) -> (r: Option<String>)
    ensures
        crate::archi_layout::text_of(r) == object_text(*workspace, *view, drawing.bendpoints@, text_pairs(objects@), connections@,
            use_bendpoints, identifier@, x as int, y as int, size, indent as nat, children@),
{
    let k = match find(workspace, identifier) {
        Some(k) => k,
        None => return None,
    };
    let element = &workspace.elements[k];
    let object_id = match pair_lookup(objects, identifier) {
        Some(o) => o,
        None => return None,
    };
    let pad = spaces(indent);
    let mut xml = object_open(workspace, view, element, connections, identifier, object_id.as_str(), pad.as_str());
    xml.append(bounds_xml(pad.as_str(), x, y, size.width as i128, size.height as i128).as_str());
    xml.append(source_connections(workspace, connections, &drawing.bendpoints, use_bendpoints, identifier, pad.as_str()).as_str());
    xml.append(children);
    xml.append(pad.as_str());
    xml.append("</child>\n");
    Some(xml)
}

/// Whether `v` holds `s`.
fn holds(v: &Vec<String>, s: &str) -> (r: bool)
    ensures
        r == exists|j: int| 0 <= j < v@.len() && (#[trigger] v@[j])@ == s@,
{
    let mut i: usize = 0;
    while i < v.len()
        invariant
            i <= v@.len(),
            forall|j: int| 0 <= j < i ==> (#[trigger] v@[j])@ != s@,
        decreases v.len() - i,
    {
        if seq_eq(v[i].as_str(), s) {
            return true;
        }
        i = i + 1;
    }
    false
}

/// Whether `v` holds `x`.
fn holds_index(v: &Vec<usize>, x: usize) -> (r: bool)
    ensures
        r == v@.contains(x),
{
    let mut i: usize = 0;
    while i < v.len()
        invariant
            i <= v@.len(),
            forall|j: int| 0 <= j < i ==> v@[j] != x,
        decreases v.len() - i,
    {
        if v[i] == x {
            assert(v@[i as int] == x);
            return true;
        }
        i = i + 1;
    }
    false
}

/// The scope of a container view, which the exporter draws its containers inside.
fn container_scope(view: &View) -> (r: Option<&str>) {
    if matches!(view.kind, ViewKind::Container) {
        match &view.scope {
            Some(s) => Some(s.as_str()),
            None => None,
        }
    } else {
        None
    }
}

/// Whether an optional text equals an optional text.
fn same_option(a: &Option<String>, b: Option<&str>) -> (r: bool)
    ensures
        r == match (*a, b) {
            (Some(x), Some(y)) => x@ == y@,
            (None, None) => true,
            _ => false,
        },
{
    match (a, b) {
        (Some(x), Some(y)) => seq_eq(x.as_str(), y),
        (None, None) => true,
        _ => false,
    }
}

/// The shown containers whose parent is `scope`, in graph order.
pub open spec fn nested_of(w: Workspace, ids: Seq<String>, scope: Option<Seq<char>>) -> Seq<Seq<char>>
    decreases ids.len(),
{
    if ids.len() == 0 {
        Seq::empty()
    } else {
        let rest = nested_of(w, ids.drop_last(), scope);
        let id = ids.last()@;
        match found(w.elements@, id) {
            Some(k) => if w.elements@[k].kind == ElementKind::Container && crate::archi_layout::text_of(w.elements@[k].parent) == scope {
                rest.push(id)
            } else {
                rest
            },
            None => rest,
        }
    }
}

/// The containers a container view draws inside its scope: the shown containers whose parent
/// is the scope.
fn nested_ids(workspace: &Workspace, graph: &ViewGraph, scope: Option<&str>) -> (r: Vec<String>)
    ensures
        crate::archi_native::views(r@) == nested_of(*workspace, graph.element_ids@, match scope { Some(s) => Some(s@), None => None }),
{
    let ghost sc = match scope { Some(s) => Some(s@), None => None::<Seq<char>> };
    let mut out: Vec<String> = Vec::new();
    let mut i: usize = 0;
    assert(crate::archi_native::views(out@) =~= Seq::<Seq<char>>::empty());
    while i < graph.element_ids.len()
        invariant
            i <= graph.element_ids@.len(),
            sc == match scope { Some(s) => Some(s@), None => None::<Seq<char>> },
            crate::archi_native::views(out@) == nested_of(*workspace, graph.element_ids@.take(i as int), sc),
        decreases graph.element_ids.len() - i,
    {
        assert(graph.element_ids@.take(i + 1).drop_last() =~= graph.element_ids@.take(i as int));
        assert(graph.element_ids@.take(i + 1).last() == graph.element_ids@[i as int]);
        let ghost before = crate::archi_native::views(out@);
        match find(workspace, graph.element_ids[i].as_str()) {
            Some(k) => {
                let e = &workspace.elements[k];
                if matches!(e.kind, ElementKind::Container) && same_option(&e.parent, scope) {
                    out.push(graph.element_ids[i].clone());
                    assert(crate::archi_native::views(out@) =~= before.push(graph.element_ids@[i as int]@));
                }
            },
            None => {},
        }
        i = i + 1;
    }
    assert(graph.element_ids@.take(graph.element_ids@.len() as int) =~= graph.element_ids@);
    out
}

/// The group of the element an identifier names, if it has one.
pub open spec fn group_of_id(w: Workspace, id: Seq<char>) -> Option<usize> {
    match found(w.elements@, id) {
        Some(k) => w.elements@[k].group,
        None => None,
    }
}

/// The group an element identifier's element belongs to, if any.
fn group_of(workspace: &Workspace, identifier: &str) -> (r: Option<usize>)
    ensures
        r == group_of_id(*workspace, identifier@),
{
    match find(workspace, identifier) {
        Some(k) => workspace.elements[k].group,
        None => None,
    }
}

/// Whether the view shows an element of group `g`.
pub open spec fn shows_group(w: Workspace, ids: Seq<String>, g: usize) -> bool {
    exists|i: int| 0 <= i < ids.len() && group_of_id(w, (#[trigger] ids[i])@) == Some(g)
}

/// The groups below `n` that hold an element the view shows, in group order.
pub open spec fn visible_groups_of(w: Workspace, ids: Seq<String>, n: nat) -> Seq<usize>
    decreases n,
{
    if n == 0 {
        Seq::empty()
    } else {
        let rest = visible_groups_of(w, ids, (n - 1) as nat);
        if shows_group(w, ids, (n - 1) as usize) { rest.push((n - 1) as usize) } else { rest }
    }
}

/// The groups that hold an element the view shows, in group order.
fn visible_groups(workspace: &Workspace, graph: &ViewGraph) -> (r: Vec<usize>)
    ensures
        r@ == visible_groups_of(*workspace, graph.element_ids@, workspace.groups@.len()),
        forall|i: int| 0 <= i < r@.len() ==> r@[i] < workspace.groups@.len(),
{
    let mut out: Vec<usize> = Vec::new();
    let mut g: usize = 0;
    while g < workspace.groups.len()
        invariant
            g <= workspace.groups@.len(),
            out@ == visible_groups_of(*workspace, graph.element_ids@, g as nat),
            forall|i: int| 0 <= i < out@.len() ==> out@[i] < workspace.groups@.len(),
        decreases workspace.groups.len() - g,
    {
        let mut i: usize = 0;
        let mut shown = false;
        while i < graph.element_ids.len()
            invariant
                i <= graph.element_ids@.len(),
                shown == exists|j: int| 0 <= j < i && group_of_id(*workspace, (#[trigger] graph.element_ids@[j])@) == Some(g),
            decreases graph.element_ids.len() - i,
        {
            if group_of(workspace, graph.element_ids[i].as_str()) == Some(g) {
                shown = true;
            }
            i = i + 1;
        }
        if shown {
            out.push(g);
        }
        g = g + 1;
    }
    out
}

/// The elements of the view outside groups and outside the scope, each with the containers
/// drawn inside it when it is the scope.
fn view_objects_xml(
    workspace: &Workspace,
    view: &View,
    drawing: &ArchiNativeDrawing,
    graph: &ViewGraph,
    objects: &Vec<(String, String)>,
    connections: &Vec<ArchiNativeConnection>,
    use_bendpoints: bool,
    nested: &Vec<String>,
    groups: &Vec<usize>,
    scope: Option<&str>,
) -> (r: String) {
    let layout = &drawing.layout;
    let mut out = String::new();
    let mut i: usize = 0;
    while i < graph.element_ids.len()
        invariant
            i <= graph.element_ids@.len(),
        decreases graph.element_ids.len() - i,
    {
        let identifier = graph.element_ids[i].as_str();
        let grouped = match group_of(workspace, identifier) {
            Some(g) => holds_index(groups, g),
            None => false,
        };
        if !holds(nested, identifier) && !grouped {
            match object_bounds(&layout.objects, identifier) {
                Some(bounds) => {
                    let mut children = String::new();
                    let is_scope = match scope {
                        Some(s) => seq_eq(s, identifier),
                        None => false,
                    };
                    if is_scope {
                        let mut c: usize = 0;
                        while c < nested.len()
                            invariant
                                c <= nested@.len(),
                            decreases nested.len() - c,
                        {
                            match object_bounds(&layout.objects, nested[c].as_str()) {
                                Some(child) => {
                                    let x = child.x as i128 - bounds.x as i128;
                                    let y = child.y as i128 - bounds.y as i128;
                                    match object_xml(workspace, view, drawing, objects, connections, use_bendpoints,
                                        nested[c].as_str(), x, y, child, 8, "") {
                                        Some(xml) => children.append(xml.as_str()),
                                        None => {},
                                    }
                                },
                                None => {},
                            }
                            c = c + 1;
                        }
                    }
                    match object_xml(workspace, view, drawing, objects, connections, use_bendpoints, identifier,
                        bounds.x as i128, bounds.y as i128, bounds, 6, children.as_str()) {
                        Some(xml) => out.append(xml.as_str()),
                        None => {},
                    }
                },
                None => {},
            }
        }
        i = i + 1;
    }
    out
}

/// The groups of the view, each with its members drawn inside it.
fn view_groups_xml(
    workspace: &Workspace,
    view: &View,
    drawing: &ArchiNativeDrawing,
    graph: &ViewGraph,
    objects: &Vec<(String, String)>,
    connections: &Vec<ArchiNativeConnection>,
    use_bendpoints: bool,
    groups: &Vec<usize>,
    key: &str,
) -> (r: String)
    requires
        forall|i: int| 0 <= i < groups@.len() ==> groups@[i] < workspace.groups@.len(),
{
    let layout = &drawing.layout;
    let mut out = String::new();
    let mut n: usize = 0;
    while n < groups.len()
        invariant
            n <= groups@.len(),
            forall|i: int| 0 <= i < groups@.len() ==> groups@[i] < workspace.groups@.len(),
        decreases groups.len() - n,
    {
        let g = groups[n];
        match group_bounds(&layout.groups, g) {
            Some(bounds) => {
                let name = workspace.groups[g].name.as_str();
                assert(g < workspace.groups.len());
                out.append("      <child xsi:type=\"archimate:Group\" id=\"id-c4c-viewgroup-");
                out.append(key);
                out.append("-");
                out.append(usize_to_string(g + 1).as_str());
                out.append("\" name=\"");
                out.append(xml_attr(name).as_str());
                out.append("\"");
                match archi_native_view_group_property(view, name, "background") {
                    Some(fill) => {
                        out.append(" fillColor=\"");
                        out.append(xml_attr(fill.as_str()).as_str());
                        out.append("\"");
                    },
                    None => {},
                }
                out.append(">\n");
                out.append(bounds_xml("      ", bounds.x as i128, bounds.y as i128, bounds.width as i128, bounds.height as i128).as_str());
                let mut i: usize = 0;
                while i < graph.element_ids.len()
                    invariant
                        i <= graph.element_ids@.len(),
                    decreases graph.element_ids.len() - i,
                {
                    let identifier = graph.element_ids[i].as_str();
                    if group_of(workspace, identifier) == Some(g) {
                        match object_bounds(&layout.objects, identifier) {
                            Some(member) => {
                                let x = member.x as i128 - bounds.x as i128;
                                let y = member.y as i128 - bounds.y as i128;
                                match object_xml(workspace, view, drawing, objects, connections, use_bendpoints,
                                    identifier, x, y, member, 8, "") {
                                    Some(xml) => out.append(xml.as_str()),
                                    None => {},
                                }
                            },
                            None => {},
                        }
                    }
                    i = i + 1;
                }
                out.append("      </child>\n");
            },
            None => {},
        }
        n = n + 1;
    }
    out
}

/// The opening line of a view's diagram element.
pub open spec fn view_head_text(view: View) -> Seq<char> {
    "    <element xsi:type=\"archimate:ArchimateDiagramModel\" name=\""@ + attr_text(native_view_name(view))
        + "\" id=\"id-c4c-view-"@ + safe_text(view_key_text(view)) + "\" connectionRouterType=\"2\">\n"@
}

/// The diagram element of one view, drawn as `drawing` places it: its objects (the scope's
/// containers inside the scope), their connections, and its groups with their members.
pub fn archi_native_view(workspace: &Workspace, view: &View, drawing: &ArchiNativeDrawing) -> (r: String)
    ensures
        crate::text::has_prefix(r@, view_head_text(*view)),
        crate::text::has_suffix(r@, "    </element>\n"@),
{
    let graph = crate::exporters::view_graph(workspace, view);
    let key = safe(view_key(view).as_str());
    let objects = archi_native_object_map(workspace, view, &graph);
    let connections = archi_native_connections(workspace, view, &graph, &objects);
    let scope = container_scope(view);
    let nested = nested_ids(workspace, &graph, scope);
    let groups = visible_groups(workspace, &graph);
    let use_bendpoints = !archi_native_has_manual_group_bounds(view);
    let mut head = String::from_str("    <element xsi:type=\"archimate:ArchimateDiagramModel\" name=\"");
    head.append(xml_attr(archi_native_view_name(view).as_str()).as_str());
    head.append("\" id=\"id-c4c-view-");
    head.append(key.as_str());
    head.append("\" connectionRouterType=\"2\">\n");
    let mut body = view_objects_xml(workspace, view, drawing, &graph, &objects, &connections, use_bendpoints, &nested, &groups, scope);
    body.append(view_groups_xml(workspace, view, drawing, &graph, &objects, &connections, use_bendpoints, &groups, key.as_str()).as_str());
    let tail = String::from_str("    </element>\n");
    let r = cat3(head.as_str(), body.as_str(), tail.as_str());
    assert(r@.take(head@.len() as int) =~= head@);
    assert(r@.skip(r@.len() - tail@.len()) =~= tail@);
    r
}

/// A text escaped for XML character data.
pub open spec fn content_text(value: Seq<char>) -> Seq<char> {
    map_chars(value, |c: char| crate::exporters::xml_text_char(c))
}

/// Whether an element was made up by an import and is left out of the export.
pub open spec fn is_synthetic(e: Element) -> bool {
    exists|i: int| 0 <= i < e.tags@.len() && (#[trigger] e.tags@[i])@ == "c4c_archi_synthetic"@
}

/// The `<element>` entry of a model element.
pub open spec fn element_entry(e: Element) -> Seq<char> {
    "    <element xsi:type=\"archimate:"@ + native_type_name(e.kind) + "\" name=\""@
        + attr_text(native_element_name(e)) + "\" id=\""@ + "id-c4c-element-"@ + safe_text(e.id@) + "\""@
        + match e.description {
            Some(d) => ">\n      <documentation>"@ + content_text(d@) + "</documentation>\n    </element>\n"@,
            None => "/>\n"@,
        }
}

/// The entries of the elements exported into `folder`, in model order.
pub open spec fn folder_entries(elements: Seq<Element>, folder: Seq<char>) -> Seq<char>
    decreases elements.len(),
{
    if elements.len() == 0 {
        Seq::empty()
    } else {
        let e = elements.last();
        folder_entries(elements.drop_last(), folder)
            + if native_folder(e.kind) == folder && !is_synthetic(e) { element_entry(e) } else { Seq::empty() }
    }
}

fn element_xml(e: &Element) -> (r: String)
    ensures
        r@ == element_entry(*e),
{
    let mut out = String::from_str("    <element xsi:type=\"archimate:");
    out.append(archi_native_type(&e.kind));
    out.append("\" name=\"");
    out.append(xml_attr(archi_native_element_name(e).as_str()).as_str());
    out.append("\" id=\"");
    out.append(archi_native_element_id(e.id.as_str()).as_str());
    out.append("\"");
    match &e.description {
        Some(d) => {
            out.append(">\n      <documentation>");
            out.append(xml_text(d.as_str()).as_str());
            out.append("</documentation>\n    </element>\n");
        },
        None => out.append("/>\n"),
    }
    out
}

/// The opening line of an exported folder.
pub open spec fn folder_head(name: Seq<char>, folder: Seq<char>) -> Seq<char> {
    "  <folder name=\""@ + attr_text(name) + "\" id=\"id-c4c-folder-"@ + folder + "\" type=\""@ + folder + "\">\n"@
}

/// An exported folder up to its own entries: its opening line and the elements in it.
pub open spec fn folder_start(w: Workspace, name: Seq<char>, folder: Seq<char>) -> Seq<char> {
    folder_head(name, folder) + folder_entries(w.elements@, folder)
}

fn folder_start_xml(workspace: &Workspace, name: &str, folder: &str) -> (r: String)
    ensures
        r@ == folder_start(*workspace, name@, folder@),
{
    let mut out = String::from_str("  <folder name=\"");
    out.append(xml_attr(name).as_str());
    out.append("\" id=\"id-c4c-folder-");
    out.append(folder);
    out.append("\" type=\"");
    out.append(folder);
    out.append("\">\n");
    let ghost head = out@;
    let elements = &workspace.elements;
    let mut i: usize = 0;
    while i < elements.len()
        invariant
            i <= elements@.len(),
            out@ == head + folder_entries(elements@.take(i as int), folder@),
        decreases elements.len() - i,
    {
        let e = &elements[i];
        assert(elements@.take(i + 1).drop_last() =~= elements@.take(i as int));
        assert(elements@.take(i + 1).last() == *e);
        proof { reveal_strlit("c4c_archi_synthetic"); }
        let synthetic = holds(&e.tags, "c4c_archi_synthetic");
        let ghost before = out@;
        if seq_eq(archi_native_folder(&e.kind), folder) && !synthetic {
            out.append(element_xml(e).as_str());
        }
        assert(out@ =~= before + if native_folder(e.kind) == folder@ && !is_synthetic(*e) { element_entry(*e) } else { Seq::empty() });
        i = i + 1;
    }
    assert(elements@.take(elements@.len() as int) =~= elements@);
    out
}

/// The `<element>` entry of an exported relationship; an empty description gives no name.
pub open spec fn relationship_entry(id: Seq<char>, source: Seq<char>, destination: Seq<char>, description: Option<Seq<char>>, native_type: Seq<char>) -> Seq<char> {
    "    <element xsi:type=\"archimate:"@ + native_type + "\" id=\""@ + attr_text(id) + "\" source=\""@
        + "id-c4c-element-"@ + safe_text(source) + "\" target=\""@ + "id-c4c-element-"@ + safe_text(destination) + "\""@
        + (match description {
            Some(d) => if d.len() > 0 { " name=\""@ + attr_text(d) + "\""@ } else { Seq::empty() },
            None => Seq::empty(),
        })
        + "/>\n"@
}

fn relationship_xml(id: &str, source: &str, destination: &str, description: Option<&str>, native_type: &str) -> (r: String)
    ensures
        r@ == relationship_entry(id@, source@, destination@, match description { Some(d) => Some(d@), None => None }, native_type@),
{
    let mut out = String::from_str("    <element xsi:type=\"archimate:");
    out.append(native_type);
    out.append("\" id=\"");
    out.append(xml_attr(id).as_str());
    out.append("\" source=\"");
    out.append(archi_native_element_id(source).as_str());
    out.append("\" target=\"");
    out.append(archi_native_element_id(destination).as_str());
    out.append("\"");
    match description {
        Some(d) => {
            if d.unicode_len() > 0 {
                out.append(" name=\"");
                out.append(xml_attr(d).as_str());
                out.append("\"");
            }
        },
        None => {},
    }
    out.append("/>\n");
    out
}

/// The entries of the model's relationships, in order.
pub open spec fn model_relationship_entries(rels: Seq<Relationship>) -> Seq<char>
    decreases rels.len(),
{
    if rels.len() == 0 {
        Seq::empty()
    } else {
        let r = rels.last();
        model_relationship_entries(rels.drop_last()) + relationship_entry(
            native_relationship_id((rels.len() - 1) as nat, r), r.source@, r.destination@,
            match r.description { Some(d) => Some(d@), None => None }, native_relationship_type(r))
    }
}

/// Association entries, one per `(id, source, destination, description)`.
pub open spec fn association_entries(cs: Seq<(Seq<char>, Seq<char>, Seq<char>, Seq<char>)>) -> Seq<char>
    decreases cs.len(),
{
    if cs.len() == 0 {
        Seq::empty()
    } else {
        association_entries(cs.drop_last()) + relationship_entry(cs.last().0, cs.last().1, cs.last().2, Some(cs.last().3),
            "AssociationRelationship"@)
    }
}

/// The relationship entries of the export: those of the model, then one association for each
/// synthetic connection of each view.
fn relationships_xml(workspace: &Workspace) -> (r: String)
    ensures
        crate::text::has_prefix(r@, model_relationship_entries(workspace.relationships@)),
        (exists|cs: Seq<(Seq<char>, Seq<char>, Seq<char>, Seq<char>)>|
            r@ == model_relationship_entries(workspace.relationships@) + association_entries(cs)),
{
    let rels = &workspace.relationships;
    let mut out = String::new();
    let mut i: usize = 0;
    while i < rels.len()
        invariant
            i <= rels@.len(),
            out@ == model_relationship_entries(rels@.take(i as int)),
        decreases rels.len() - i,
    {
        let r = &rels[i];
        assert(rels@.take(i + 1).drop_last() =~= rels@.take(i as int));
        assert(rels@.take(i + 1).last() == *r);
        let id = archi_native_relationship_id(i, r);
        let description = match &r.description {
            Some(d) => Some(d.as_str()),
            None => None,
        };
        out.append(relationship_xml(id.as_str(), r.source.as_str(), r.destination.as_str(), description,
            archi_native_relationship_type(r)).as_str());
        i = i + 1;
    }
    assert(rels@.take(rels@.len() as int) =~= rels@);
    let ghost model = out@;
    let mut synthetic = String::new();
    let ghost mut cs: Seq<(Seq<char>, Seq<char>, Seq<char>, Seq<char>)> = Seq::empty();
    let mut v: usize = 0;
    while v < workspace.views.len()
        invariant
            v <= workspace.views@.len(),
            synthetic@ == association_entries(cs),
        decreases workspace.views.len() - v,
    {
        let view = &workspace.views[v];
        let graph = crate::exporters::view_graph(workspace, view);
        let objects = archi_native_object_map(workspace, view, &graph);
        let connections = archi_native_connections(workspace, view, &graph, &objects);
        let mut c: usize = 0;
        while c < connections.len()
            invariant
                c <= connections@.len(),
                synthetic@ == association_entries(cs),
            decreases connections.len() - c,
        {
            let connection = &connections[c];
            if connection.synthetic {
                synthetic.append(relationship_xml(connection.relationship_id.as_str(), connection.source_element.as_str(),
                    connection.destination_element.as_str(), Some(connection.description.as_str()),
                    "AssociationRelationship").as_str());
                proof {
                    let item = (connection.relationship_id@, connection.source_element@, connection.destination_element@,
                        connection.description@);
                    assert(cs.push(item).drop_last() =~= cs);
                    cs = cs.push(item);
                }
            }
            c = c + 1;
        }
        v = v + 1;
    }
    out.append(synthetic.as_str());
    assert(out@.take(model.len() as int) =~= model);
    assert(out@ =~= model_relationship_entries(workspace.relationships@) + association_entries(cs));
    out
}

/// The start of an exported model: the XML declaration and the opening of the model, named
/// after the workspace (`Workspace` when it has no name).
pub open spec fn archi_header(w: Workspace) -> Seq<char> {
    "<?xml version=\"1.0\" encoding=\"UTF-8\"?>\n<archimate:model xmlns:xsi=\"http://www.w3.org/2001/XMLSchema-instance\" xmlns:archimate=\"http://www.archimatetool.com/archimate\" name=\""@
        + attr_text(match w.name { Some(n) => n@, None => "Workspace"@ }) + "\" id=\"id-c4c-model\" version=\"5.0.0\">\n"@
}

/// The folders of the exported elements, each closed.
pub open spec fn element_folders(w: Workspace) -> Seq<char> {
    folder_start(w, "Strategy"@, "strategy"@) + "  </folder>\n"@
        + folder_start(w, "Business"@, "business"@) + "  </folder>\n"@
        + folder_start(w, "Application"@, "application"@) + "  </folder>\n"@
        + folder_start(w, "Technology & Physical"@, "technology"@) + "  </folder>\n"@
        + folder_start(w, "Motivation"@, "motivation"@) + "  </folder>\n"@
        + folder_start(w, "Implementation & Migration"@, "implementation_migration"@) + "  </folder>\n"@
        + folder_start(w, "Other"@, "other"@) + "  </folder>\n"@
}

/// The part of an export that the model alone decides: the header, the element folders, and
/// the relations folder up to the model's own relationships.
pub open spec fn archi_model_text(w: Workspace) -> Seq<char> {
    archi_header(w) + element_folders(w) + folder_start(w, "Relations"@, "relations"@)
        + model_relationship_entries(w.relationships@)
}

fn header_xml(workspace: &Workspace) -> (r: String)
    ensures
        r@ == archi_header(*workspace),
{
    let mut head = String::from_str("<?xml version=\"1.0\" encoding=\"UTF-8\"?>\n<archimate:model xmlns:xsi=\"http://www.w3.org/2001/XMLSchema-instance\" xmlns:archimate=\"http://www.archimatetool.com/archimate\" name=\"");
    match &workspace.name {
        Some(n) => head.append(xml_attr(n.as_str()).as_str()),
        None => head.append(xml_attr("Workspace").as_str()),
    }
    head.append("\" id=\"id-c4c-model\" version=\"5.0.0\">\n");
    head
}

fn element_folders_xml(workspace: &Workspace) -> (r: String)
    ensures
        r@ == element_folders(*workspace),
{
    let mut out = folder_start_xml(workspace, "Strategy", "strategy");
    out.append("  </folder>\n");
    out.append(folder_start_xml(workspace, "Business", "business").as_str());
    out.append("  </folder>\n");
    out.append(folder_start_xml(workspace, "Application", "application").as_str());
    out.append("  </folder>\n");
    out.append(folder_start_xml(workspace, "Technology & Physical", "technology").as_str());
    out.append("  </folder>\n");
    out.append(folder_start_xml(workspace, "Motivation", "motivation").as_str());
    out.append("  </folder>\n");
    out.append(folder_start_xml(workspace, "Implementation & Migration", "implementation_migration").as_str());
    out.append("  </folder>\n");
    out.append(folder_start_xml(workspace, "Other", "other").as_str());
    out.append("  </folder>\n");
    out
}

/// One diagram element per view, in order, each opened with its view's head.
pub open spec fn drawn_views(w: Workspace, parts: Seq<Seq<char>>) -> bool {
    &&& parts.len() == w.views@.len()
    &&& forall|i: int| 0 <= i < parts.len() ==> crate::text::has_prefix(#[trigger] parts[i], view_head_text(w.views@[i]))
        && crate::text::has_suffix(parts[i], "    </element>\n"@)
}

/// The views folder holding the diagram elements `parts`.
pub open spec fn views_folder(w: Workspace, parts: Seq<Seq<char>>) -> Seq<char> {
    "  </folder>\n"@ + folder_start(w, "Views"@, "diagrams"@) + parts.flatten() + "  </folder>\n"@
}

fn views_xml(workspace: &Workspace, drawings: &Vec<ArchiNativeDrawing>) -> (r: String)
    requires
        drawings@.len() == workspace.views@.len(),
    ensures
        crate::text::has_prefix(r@, "  </folder>\n"@ + folder_start(*workspace, "Views"@, "diagrams"@)),
        crate::text::has_suffix(r@, "  </folder>\n"@),
        (exists|parts: Seq<Seq<char>>| drawn_views(*workspace, parts) && r@ == views_folder(*workspace, parts)),
{
    let mut head = String::from_str("  </folder>\n");
    head.append(folder_start_xml(workspace, "Views", "diagrams").as_str());
    let mut body = String::new();
    let ghost mut parts: Seq<Seq<char>> = Seq::empty();
    let mut v: usize = 0;
    while v < workspace.views.len()
        invariant
            v <= workspace.views@.len(),
            drawings@.len() == workspace.views@.len(),
            parts.len() == v,
            body@ == parts.flatten(),
            forall|i: int| 0 <= i < v ==> crate::text::has_prefix(#[trigger] parts[i], view_head_text(workspace.views@[i]))
                && crate::text::has_suffix(parts[i], "    </element>\n"@),
        decreases workspace.views.len() - v,
    {
        let piece = archi_native_view(workspace, &workspace.views[v], &drawings[v]);
        body.append(piece.as_str());
        proof {
            parts.lemma_flatten_push(piece@);
            parts = parts.push(piece@);
        }
        v = v + 1;
    }
    let r = cat3(head.as_str(), body.as_str(), "  </folder>\n");
    assert(r@.take(head@.len() as int) =~= head@);
    assert(r@.skip(r@.len() - "  </folder>\n"@.len()) =~= "  </folder>\n"@);
    assert(drawn_views(*workspace, parts));
    assert(r@ =~= views_folder(*workspace, parts));
    r
}

fn footer_xml(workspace: &Workspace) -> (r: String)
    ensures
        r@ == archi_footer(*workspace),
{
    let mut tail = String::new();
    match &workspace.description {
        Some(d) => {
            tail.append("  <purpose>");
            tail.append(xml_text(d.as_str()).as_str());
            tail.append("</purpose>\n");
        },
        None => {},
    }
    tail.append("</archimate:model>\n");
    tail
}

/// The end of an export: the workspace's description as the model's purpose, then the close.
pub open spec fn archi_footer(w: Workspace) -> Seq<char> {
    (match w.description {
        Some(d) => "  <purpose>"@ + content_text(d@) + "</purpose>\n"@,
        None => Seq::empty(),
    }) + "</archimate:model>\n"@
}

/// The model in Archi's native format, each view drawn as the drawing at its position places
/// it.
#[verifier::spinoff_prover]
#[verifier::rlimit(40)]
pub fn archi_native(workspace: &Workspace, drawings: &Vec<ArchiNativeDrawing>) -> (r: String)
    requires
        drawings@.len() == workspace.views@.len(),
    ensures
        crate::text::has_prefix(r@, archi_model_text(*workspace)),
        crate::text::has_suffix(r@, archi_footer(*workspace)),
        (exists|cs: Seq<(Seq<char>, Seq<char>, Seq<char>, Seq<char>)>, parts: Seq<Seq<char>>| drawn_views(*workspace, parts)
            && r@ == archi_model_text(*workspace) + association_entries(cs) + views_folder(*workspace, parts) + archi_footer(*workspace)),
{
    let head = header_xml(workspace);
    let folders = element_folders_xml(workspace);
    let relations_start = folder_start_xml(workspace, "Relations", "relations");
    let relations = relationships_xml(workspace);
    let body = views_xml(workspace, drawings);
    let tail = footer_xml(workspace);
    let start = cat3(head.as_str(), folders.as_str(), relations_start.as_str());
    let middle = cat(relations.as_str(), body.as_str());
    let r = cat3(start.as_str(), middle.as_str(), tail.as_str());
    proof {
        let m = model_relationship_entries(workspace.relationships@);
        assert(relations@.take(m.len() as int) == m);
        assert(middle@.take(m.len() as int) =~= m);
        assert(r@.take((start@.len() + m.len()) as int) =~= start@ + m);
        assert(start@ + m == archi_model_text(*workspace));
        assert(r@.skip(r@.len() - tail@.len()) =~= tail@);
        let parts = choose|parts: Seq<Seq<char>>| drawn_views(*workspace, parts) && body@ == views_folder(*workspace, parts);
        let cs = choose|cs: Seq<(Seq<char>, Seq<char>, Seq<char>, Seq<char>)>| relations@ == m + association_entries(cs);
        assert(r@ =~= archi_model_text(*workspace) + association_entries(cs) + views_folder(*workspace, parts) + archi_footer(*workspace));
    }
    r
}

} // verus!
