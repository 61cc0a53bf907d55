use vstd::prelude::*;
use vstd::view::View as _;
use crate::archimate::{last_attribute, relationship_access_direction, relationship_archimate_type, relationship_type_source, spec_relationship_info};
use crate::model::{Element, Property, Relationship, StyleMode, View, ViewKind, Workspace};
use crate::text::{cat, cat3, decimal, seq_eq, usize_to_string};
use crate::validate::{archimate_viewpoint, element_kind_debug, element_kind_text, view_kind_debug, view_kind_text, viewpoint_value};

verus! {

/// What `{:?}` writes for a string: the text in double quotes with Rust's debug escapes.
pub uninterp spec fn debug_quoted(s: Seq<char>) -> Seq<char>;

/// Printable ASCII other than `"` and `\`, which debug formatting writes unchanged.
pub open spec fn plain_ascii(s: Seq<char>) -> bool {
    forall|i: int| 0 <= i < s.len() ==> ' ' <= #[trigger] s[i] && s[i] <= '~' && s[i] != '"' && s[i] != '\\'
}

/// `<str as Debug>::fmt` through `format!("{:?}")`. Its documentation: the string in double
/// quotes, with `"`, `\` and non-printable characters escaped; printable ASCII other than
/// those two stays as it is.
#[verifier::external_body]
pub(crate) fn debug_str(s: &str) -> (r: String)
    ensures
        r@ == debug_quoted(s@),
        plain_ascii(s@) ==> r@ == seq!['"'] + s@ + seq!['"'],
{
    format!("{:?}", s)
}

/// How `{:?}` writes an optional string.
pub open spec fn debug_option_text(value: Option<String>) -> Seq<char> {
    match value {
        Some(v) => "Some("@ + debug_quoted(v@) + ")"@,
        None => "None"@,
    }
}

/// The items of a list of strings as `{:?}` writes them, separated by `, `.
pub open spec fn debug_items(values: Seq<String>) -> Seq<char>
    decreases values.len(),
{
    if values.len() == 0 {
        Seq::empty()
    } else if values.len() == 1 {
        debug_quoted(values[0]@)
    } else {
        debug_items(values.drop_last()) + ", "@ + debug_quoted(values.last()@)
    }
}

/// How `{:?}` writes a list of strings.
pub open spec fn debug_list_text(values: Seq<String>) -> Seq<char> {
    "["@ + debug_items(values) + "]"@
}

/// The line that the inspection writes for one element.
pub open spec fn element_line(e: Element) -> Seq<char> {
    "  "@ + e.id@ + " "@ + element_kind_text(e.kind) + " '"@ + e.name@ + "' desc="@
        + debug_option_text(e.description) + " tech="@ + debug_option_text(e.technology) + " parent="@
        + debug_option_text(e.parent) + " tags="@ + debug_list_text(e.tags@) + "\n"@
}

/// The element lines of the inspection, one per element in declaration order.
pub open spec fn element_lines(elements: Seq<Element>) -> Seq<char>
    decreases elements.len(),
{
    if elements.len() == 0 {
        Seq::empty()
    } else {
        element_lines(elements.drop_last()) + element_line(elements.last())
    }
}

/// How `{:?}` writes an optional text.
pub open spec fn debug_option_seq(value: Option<Seq<char>>) -> Seq<char> {
    match value {
        Some(v) => "Some("@ + debug_quoted(v) + ")"@,
        None => "None"@,
    }
}

/// The ArchiMate relationship type that a relationship's `type` attribute names, if any.
pub open spec fn archimate_type_text(r: Relationship) -> Option<Seq<char>> {
    match relationship_type_source(r) {
        Some(v) => match spec_relationship_info(v) {
            Some(t) => Some(t.native@),
            None => None,
        },
        None => None,
    }
}

/// The line that the inspection writes for one relationship.
pub open spec fn relationship_line(r: Relationship) -> Seq<char> {
    "  "@ + match r.id { Some(id) => id@ + " = "@, None => Seq::empty() } + r.source@ + " -> "@
        + r.destination@ + " desc="@ + debug_option_text(r.description) + " tech="@
        + debug_option_text(r.technology) + " tags="@ + debug_list_text(r.tags@) + " archimateType="@
        + debug_option_seq(archimate_type_text(r)) + " access="@
        + debug_option_seq(last_attribute(r.attributes@, "access"@)) + "\n"@
}

/// The relationship lines of the inspection, one per relationship in declaration order.
pub open spec fn relationship_lines(relationships: Seq<Relationship>) -> Seq<char>
    decreases relationships.len(),
{
    if relationships.len() == 0 {
        Seq::empty()
    } else {
        relationship_lines(relationships.drop_last()) + relationship_line(relationships.last())
    }
}

/// The line that the inspection writes for one view.
pub open spec fn view_line(v: View) -> Seq<char> {
    "  "@ + view_kind_text(v.kind) + " scope="@ + debug_option_text(v.scope) + " key="@
        + debug_option_text(v.key) + " desc="@ + debug_option_text(v.description) + " viewpoint="@
        + debug_option_seq(viewpoint_value(v)) + "\n"@
}

/// The view lines of the inspection, one per view in declaration order.
pub open spec fn view_lines(views: Seq<View>) -> Seq<char>
    decreases views.len(),
{
    if views.len() == 0 {
        Seq::empty()
    } else {
        view_lines(views.drop_last()) + view_line(views.last())
    }
}

/// The workspace's name as the inspection writes it.
pub open spec fn workspace_label(w: Workspace) -> Seq<char> {
    match w.name {
        Some(name) => name@,
        None => "<unnamed>"@,
    }
}

/// The start of the inspection: the name, then the element lines, the relationship lines
/// and the view lines, each under its heading.
pub open spec fn inspect_head(w: Workspace) -> Seq<char> {
    "workspace: "@ + workspace_label(w) + "\nelements:\n"@ + element_lines(w.elements@) + "relationships:\n"@
        + relationship_lines(w.relationships@) + "views:\n"@ + view_lines(w.views@)
}

fn debug_option(value: &Option<String>) -> (r: String)
    ensures
        r@ == debug_option_text(*value),
{
    match value {
        Some(v) => cat3("Some(", debug_str(v.as_str()).as_str(), ")"),
        None => String::from_str("None"),
    }
}

fn debug_option_str(value: Option<&str>) -> (r: String)
    ensures
        r@ == debug_option_seq(match value { Some(v) => Some(v@), None => None }),
{
    match value {
        Some(v) => cat3("Some(", debug_str(v).as_str(), ")"),
        None => String::from_str("None"),
    }
}

fn debug_list(values: &Vec<String>) -> (r: String)
    ensures
        r@ == debug_list_text(values@),
{
    let mut out = String::from_str("[");
    proof { reveal_strlit("["); reveal_strlit(", "); }
    let mut i: usize = 0;
    while i < values.len()
        invariant
            i <= values@.len(),
            out@ == "["@ + debug_items(values@.take(i as int)),
            "["@ == seq!['['],
            ", "@ == seq![',', ' '],
        decreases values.len() - i,
    {
        let ghost before = values@.take(i as int);
        if i > 0 {
            out.append(", ");
        }
        out.append(debug_str(values[i].as_str()).as_str());
        proof {
            let now = values@.take(i as int + 1);
            assert(now.drop_last() =~= before);
            assert(now.last() == values@[i as int]);
            if i == 0 {
                assert(debug_items(before) =~= Seq::<char>::empty());
            }
        }
        i = i + 1;
    }
    assert(values@.take(values@.len() as int) =~= values@);
    out.append("]");
    out
}

/// How `{:?}` writes a key and value pair of strings.
pub open spec fn debug_pair(p: Property) -> Seq<char> {
    "("@ + debug_quoted(p.key@) + ", "@ + debug_quoted(p.value@) + ")"@
}

/// The pairs of a list as `{:?}` writes them, separated by `, `.
pub open spec fn debug_pair_items(ps: Seq<Property>) -> Seq<char>
    decreases ps.len(),
{
    if ps.len() == 0 {
        Seq::empty()
    } else if ps.len() == 1 {
        debug_pair(ps[0])
    } else {
        debug_pair_items(ps.drop_last()) + ", "@ + debug_pair(ps.last())
    }
}

fn debug_pair_text(p: &Property) -> (r: String)
    ensures
        r@ == debug_pair(*p),
{
    let mut out = String::from_str("(");
    out.append(debug_str(p.key.as_str()).as_str());
    out.append(", ");
    out.append(debug_str(p.value.as_str()).as_str());
    out.append(")");
    out
}

fn debug_pairs(properties: &Vec<Property>) -> (r: String)
    ensures
        r@ == "["@ + debug_pair_items(properties@) + "]"@,
{
    let mut out = String::from_str("[");
    proof { reveal_strlit("["); reveal_strlit(", "); }
    let mut i: usize = 0;
    while i < properties.len()
        invariant
            i <= properties@.len(),
            out@ == "["@ + debug_pair_items(properties@.take(i as int)),
            "["@ == seq!['['],
            ", "@ == seq![',', ' '],
        decreases properties.len() - i,
    {
        let ghost before = properties@.take(i as int);
        if i > 0 {
            out.append(", ");
        }
        out.append(debug_pair_text(&properties[i]).as_str());
        proof {
            let now = properties@.take(i as int + 1);
            assert(now.drop_last() =~= before);
            assert(now.last() == properties@[i as int]);
            if i == 0 {
                assert(debug_pair_items(before) =~= Seq::<char>::empty());
            }
        }
        i = i + 1;
    }
    assert(properties@.take(properties@.len() as int) =~= properties@);
    out.append("]");
    out
}

fn style_mode_debug(mode: StyleMode) -> (r: &'static str) {
    match mode {
        StyleMode::Default => "Default",
        StyleMode::Light => "Light",
        StyleMode::Dark => "Dark",
    }
}

/// Whether a view carries data beyond a plain system context or container view: another
/// kind, being the default, animations, properties, a filter, an environment, dynamic steps,
/// image sources, layout separations, or includes and excludes beyond plain identifiers.
pub open spec fn m4_view_data(view: View) -> bool {
    !(view.kind == ViewKind::SystemContext || view.kind == ViewKind::Container) || view.is_default
        || view.animations@.len() > 0 || view.properties@.len() > 0 || view.filter is Some
        || view.environment is Some || view.dynamic_relationships@.len() > 0 || view.image_sources@.len() > 0
        || (match view.auto_layout {
            Some(l) => l.rank_separation is Some || l.node_separation is Some,
            None => false,
        })
        || (exists|i: int| 0 <= i < view.includes@.len()
            && ((#[trigger] view.includes@[i]).value@ == "*?"@ || view.includes@[i].expression))
        || (exists|i: int| 0 <= i < view.excludes@.len() && (#[trigger] view.excludes@[i]).expression)
}

pub(crate) fn has_m4_view_data(view: &View) -> (r: bool)
    ensures
        r == m4_view_data(*view),
{
    if !matches!(view.kind, ViewKind::SystemContext | ViewKind::Container) || view.is_default
        || view.animations.len() > 0 || view.properties.len() > 0 || view.filter.is_some()
        || view.environment.is_some() || view.dynamic_relationships.len() > 0 || view.image_sources.len() > 0 {
        return true;
    }
    match &view.auto_layout {
        Some(layout) => {
            if layout.rank_separation.is_some() || layout.node_separation.is_some() {
                return true;
            }
        },
        None => {},
    }
    let mut i: usize = 0;
    while i < view.includes.len()
        invariant
            i <= view.includes@.len(),
            forall|j: int| 0 <= j < i ==> !((#[trigger] view.includes@[j]).value@ == "*?"@ || view.includes@[j].expression),
        decreases view.includes.len() - i,
    {
        if seq_eq(view.includes[i].value.as_str(), "*?") || view.includes[i].expression {
            assert(view.includes@[i as int].value@ == "*?"@ || view.includes@[i as int].expression);
            return true;
        }
        i = i + 1;
    }
    let mut i: usize = 0;
    while i < view.excludes.len()
        invariant
            i <= view.excludes@.len(),
            forall|j: int| 0 <= j < i ==> !(#[trigger] view.excludes@[j]).expression,
        decreases view.excludes.len() - i,
    {
        if view.excludes[i].expression {
            assert(view.excludes@[i as int].expression);
            return true;
        }
        i = i + 1;
    }
    false
}

/// Whether an element carries the extra data of the full model grammar.
pub fn has_m3_element_data(element: &Element) -> (r: bool)
    ensures
        r == (element.element_type is Some || element.url is Some || element.properties@.len() > 0
            || element.perspectives@.len() > 0 || element.health_checks@.len() > 0 || element.instance_of is Some
            || element.reference is Some || element.deployment_groups@.len() > 0 || element.directives@.len() > 0
            || element.instances is Some),
{
    element.element_type.is_some() || element.url.is_some() || element.properties.len() > 0
        || element.perspectives.len() > 0 || element.health_checks.len() > 0 || element.instance_of.is_some()
        || element.reference.is_some() || element.deployment_groups.len() > 0 || element.directives.len() > 0
        || element.instances.is_some()
}

fn append_m3(output: &mut String, workspace: &Workspace)
    ensures
        crate::text::has_prefix(final(output)@, old(output)@ + match workspace.extension {
            Some(e) => "  extends "@ + debug_quoted(e.target@) + "\n"@,
            None => Seq::<char>::empty(),
        }),
{
    match &workspace.extension {
        Some(extension) => {
            output.append("  extends ");
            output.append(debug_str(extension.target.as_str()).as_str());
            output.append("\n");
        },
        None => {},
    }
    assert(output@ =~= old(output)@ + match workspace.extension {
        Some(e) => "  extends "@ + debug_quoted(e.target@) + "\n"@,
        None => Seq::<char>::empty(),
    });
    let ghost mid = output@;
    let mut rest = String::new();
    match &workspace.enterprise {
        Some(enterprise) => {
            rest.append("  enterprise ");
            rest.append(debug_str(enterprise.name.as_str()).as_str());
            rest.append("\n");
        },
        None => {},
    }
    rest.append("  properties=");
    rest.append(debug_pairs(&workspace.properties).as_str());
    rest.append(" impliedRelationships=");
    rest.append(debug_option(&workspace.implied_relationships).as_str());
    rest.append("\n  directives=[");
    let mut i: usize = 0;
    while i < workspace.directives.len()
        invariant
            i <= workspace.directives@.len(),
        decreases workspace.directives.len() - i,
    {
        if i > 0 {
            rest.append(", ");
        }
        rest.append("(");
        rest.append(debug_str(workspace.directives[i].name.as_str()).as_str());
        rest.append(", ");
        rest.append(debug_list(&workspace.directives[i].arguments).as_str());
        rest.append(")");
        i = i + 1;
    }
    rest.append("] preserved=[");
    let mut i: usize = 0;
    while i < workspace.preserved.len()
        invariant
            i <= workspace.preserved@.len(),
        decreases workspace.preserved.len() - i,
    {
        if i > 0 {
            rest.append(", ");
        }
        rest.append("(");
        rest.append(debug_str(workspace.preserved[i].name.as_str()).as_str());
        rest.append(", ");
        rest.append(debug_list(&workspace.preserved[i].arguments).as_str());
        rest.append(")");
        i = i + 1;
    }
    rest.append("] groups=");
    rest.append(usize_to_string(workspace.groups.len()).as_str());
    rest.append(" removals=");
    rest.append(usize_to_string(workspace.removed_relationships.len()).as_str());
    rest.append("\n");
    let mut e: usize = 0;
    while e < workspace.elements.len()
        invariant
            e <= workspace.elements@.len(),
        decreases workspace.elements.len() - e,
    {
        let element = &workspace.elements[e];
        if has_m3_element_data(element) {
            rest.append("  ");
            rest.append(element.id.as_str());
            rest.append(" type=");
            rest.append(debug_option(&element.element_type).as_str());
            rest.append(" url=");
            rest.append(debug_option(&element.url).as_str());
            rest.append(" properties=");
            rest.append(debug_pairs(&element.properties).as_str());
            rest.append(" perspectives=");
            rest.append(debug_pairs(&element.perspectives).as_str());
            rest.append(" healthChecks=[");
            let mut h: usize = 0;
            while h < element.health_checks.len()
                invariant
                    h <= element.health_checks@.len(),
                decreases element.health_checks.len() - h,
            {
                let check = &element.health_checks[h];
                if h > 0 {
                    rest.append(", ");
                }
                rest.append("(");
                rest.append(debug_str(check.name.as_str()).as_str());
                rest.append(", ");
                rest.append(debug_str(check.url.as_str()).as_str());
                rest.append(", ");
                rest.append(debug_option(&check.interval).as_str());
                rest.append(", ");
                rest.append(debug_option(&check.timeout).as_str());
                rest.append(")");
                h = h + 1;
            }
            rest.append("]\n");
        }
        e = e + 1;
    }
    output.append(rest.as_str());
    assert(output@.take(mid.len() as int) =~= mid);
}

/// The lines `  from -> to` of the include dependencies.
pub open spec fn dependency_lines(ds: Seq<crate::model::IncludeDependency>) -> Seq<char>
    decreases ds.len(),
{
    if ds.len() == 0 {
        Seq::empty()
    } else {
        dependency_lines(ds.drop_last()) + "  "@ + ds.last().from@ + " -> "@ + ds.last().to@ + "\n"@
    }
}

/// The section that lists the include dependencies, empty when there are none.
pub open spec fn m6_text(w: Workspace) -> Seq<char> {
    if w.dependencies@.len() > 0 { "m6 includes:\n"@ + dependency_lines(w.dependencies@) } else { Seq::empty() }
}

/// The section that counts documentation sections and decisions, empty when there are none.
pub open spec fn m7_text(w: Workspace) -> Seq<char> {
    if w.documentation@.len() > 0 || w.decisions@.len() > 0 {
        "m7 documentation: sections="@ + decimal(w.documentation@.len()) + " decisions="@ + decimal(w.decisions@.len()) + "\n"@
    } else {
        Seq::empty()
    }
}

/// A text that starts with `p + q` starts with `p`.
proof fn lemma_prefix_of_prefix(y: Seq<char>, t: Seq<char>, p: Seq<char>, q: Seq<char>)
    requires
        crate::text::has_prefix(y, t),
        t =~= p + q,
    ensures
        crate::text::has_prefix(y, p),
{
    assert forall|i: int| 0 <= i < p.len() implies y[i] == p[i] by {
        assert(y.take(t.len() as int)[i] == t[i]);
        assert(t[i] == (p + q)[i]);
    }
    assert(y.take(p.len() as int) =~= p);
}

/// Whether the workspace has view properties or a view with data beyond the plain kinds.
pub open spec fn m4_present(w: Workspace) -> bool {
    w.view_properties@.len() > 0 || exists|v: int| 0 <= v < w.views@.len() && m4_view_data(#[trigger] w.views@[v])
}

/// Whether the workspace has styles, themes, branding or terminology.
pub open spec fn m5_present(w: Workspace) -> bool {
    w.element_styles@.len() > 0 || w.relationship_styles@.len() > 0 || w.themes@.len() > 0 || w.branding is Some
        || w.terminology@.len() > 0
}

/// Whether a workspace carries data of the full model grammar.
pub open spec fn m3_data(w: Workspace) -> bool {
    w.extension is Some || w.properties@.len() > 0 || w.directives@.len() > 0 || w.preserved@.len() > 0
        || w.groups@.len() > 0 || w.removed_relationships@.len() > 0 || w.implied_relationships is Some
        || w.enterprise is Some
        || exists|e: int| 0 <= e < w.elements@.len() && m3_element_data(#[trigger] w.elements@[e])
}

/// Whether an element carries the extra data of the full model grammar.
pub open spec fn m3_element_data(element: Element) -> bool {
    element.element_type is Some || element.url is Some || element.properties@.len() > 0
        || element.perspectives@.len() > 0 || element.health_checks@.len() > 0 || element.instance_of is Some
        || element.reference is Some || element.deployment_groups@.len() > 0 || element.directives@.len() > 0
        || element.instances is Some
}

fn workspace_has_m3_data(workspace: &Workspace) -> (r: bool)
    ensures
        r == m3_data(*workspace),
{
    if workspace.extension.is_some() || workspace.properties.len() > 0 || workspace.directives.len() > 0
        || workspace.preserved.len() > 0 || workspace.groups.len() > 0 || workspace.removed_relationships.len() > 0
        || workspace.implied_relationships.is_some() || workspace.enterprise.is_some() {
        return true;
    }
    let mut e: usize = 0;
    while e < workspace.elements.len()
        invariant
            e <= workspace.elements@.len(),
            forall|j: int| 0 <= j < e ==> !m3_element_data(#[trigger] workspace.elements@[j]),
        decreases workspace.elements.len() - e,
    {
        if has_m3_element_data(&workspace.elements[e]) {
            assert(m3_element_data(workspace.elements@[e as int]));
            return true;
        }
        e = e + 1;
    }
    false
}

fn append_m5(output: &mut String, workspace: &Workspace)
    ensures
        crate::text::has_prefix(final(output)@, old(output)@ + "m5:\n  elementStyles="@ + decimal(workspace.element_styles@.len()) + " relationshipStyles="@ + decimal(workspace.relationship_styles@.len()) + " themes=["@),
{
    output.append("m5:\n  elementStyles=");
    output.append(usize_to_string(workspace.element_styles.len()).as_str());
    output.append(" relationshipStyles=");
    output.append(usize_to_string(workspace.relationship_styles.len()).as_str());
    output.append(" themes=[");
    let ghost mid = output@;
    let mut rest = String::new();
    let mut t: usize = 0;
    while t < workspace.themes.len()
        invariant
            t <= workspace.themes@.len(),
        decreases workspace.themes.len() - t,
    {
        let theme = &workspace.themes[t];
        if t > 0 {
            rest.append(", ");
        }
        rest.append("(");
        rest.append(debug_str(theme.source.as_str()).as_str());
        rest.append(", ");
        rest.append(style_mode_debug(theme.mode));
        rest.append(", ");
        rest.append(usize_to_string(theme.span.start).as_str());
        rest.append(")");
        t = t + 1;
    }
    rest.append("] terminology=");
    rest.append(debug_pairs(&workspace.terminology).as_str());
    rest.append("\n");
    match &workspace.branding {
        Some(branding) => {
            rest.append("  branding logo=");
            match &branding.logo {
                Some(logo) => {
                    rest.append("Some(");
                    rest.append(debug_str(logo.value.as_str()).as_str());
                    rest.append(")");
                },
                None => rest.append("None"),
            }
            rest.append(" fonts=[");
            let mut f: usize = 0;
            while f < branding.fonts.len()
                invariant
                    f <= branding.fonts@.len(),
                decreases branding.fonts.len() - f,
            {
                let font = &branding.fonts[f];
                if f > 0 {
                    rest.append(", ");
                }
                rest.append("(");
                rest.append(debug_str(font.name.as_str()).as_str());
                rest.append(", ");
                rest.append(debug_option(&font.location).as_str());
                rest.append(", ");
                rest.append(usize_to_string(font.span.start).as_str());
                rest.append(")");
                f = f + 1;
            }
            rest.append("]\n");
        },
        None => {},
    }
    output.append(rest.as_str());
    assert(output@.take(mid.len() as int) =~= mid);
}

fn append_m4(output: &mut String, workspace: &Workspace)
    ensures
        crate::text::has_prefix(final(output)@, old(output)@ + "m4 views:\n  properties="@ + ("["@ + debug_pair_items(workspace.view_properties@) + "]"@) + "\n"@),
{
    output.append("m4 views:\n  properties=");
    output.append(debug_pairs(&workspace.view_properties).as_str());
    output.append("\n");
    let ghost mid = output@;
    let mut rest = String::new();
    let mut v: usize = 0;
    while v < workspace.views.len()
        invariant
            v <= workspace.views@.len(),
        decreases workspace.views.len() - v,
    {
        let view = &workspace.views[v];
        if has_m4_view_data(view) {
            rest.append("  ");
            rest.append(view_kind_debug(&view.kind));
            rest.append(" layout=");
            match &view.auto_layout {
                Some(layout) => {
                    rest.append("Some((");
                    rest.append(debug_str(layout.direction.as_str()).as_str());
                    rest.append(", ");
                    rest.append(debug_option(&layout.rank_separation).as_str());
                    rest.append(", ");
                    rest.append(debug_option(&layout.node_separation).as_str());
                    rest.append("))");
                },
                None => rest.append("None"),
            }
            rest.append(" default=");
            rest.append(if view.is_default { "true" } else { "false" });
            rest.append(" animations=");
            rest.append(usize_to_string(view.animations.len()).as_str());
            rest.append(" properties=");
            rest.append(usize_to_string(view.properties.len()).as_str());
            rest.append(" dynamic=");
            rest.append(usize_to_string(view.dynamic_relationships.len()).as_str());
            rest.append(" images=");
            rest.append(usize_to_string(view.image_sources.len()).as_str());
            rest.append("\n");
        }
        v = v + 1;
    }
    output.append(rest.as_str());
    assert(output@.take(mid.len() as int) =~= mid);
}

/// The line that the inspection writes for one relationship.
fn relationship_line_of(relationship: &Relationship) -> (r: String)
    ensures
        r@ == relationship_line(*relationship),
{
    let mut line = String::from_str("  ");
    match &relationship.id {
        Some(id) => {
            line.append(id.as_str());
            line.append(" = ");
        },
        None => {},
    }
    line.append(relationship.source.as_str());
    line.append(" -> ");
    line.append(relationship.destination.as_str());
    line.append(" desc=");
    line.append(debug_option(&relationship.description).as_str());
    line.append(" tech=");
    line.append(debug_option(&relationship.technology).as_str());
    line.append(" tags=");
    line.append(debug_list(&relationship.tags).as_str());
    line.append(" archimateType=");
    line.append(debug_option_str(relationship_archimate_type(relationship)).as_str());
    line.append(" access=");
    line.append(debug_option_str(relationship_access_direction(relationship)).as_str());
    line.append("\n");
    line
}

/// The line that the inspection writes for one view.
fn view_line_of(view: &View) -> (r: String)
    ensures
        r@ == view_line(*view),
{
    let mut line = String::from_str("  ");
    line.append(view_kind_debug(&view.kind));
    line.append(" scope=");
    line.append(debug_option(&view.scope).as_str());
    line.append(" key=");
    line.append(debug_option(&view.key).as_str());
    line.append(" desc=");
    line.append(debug_option(&view.description).as_str());
    line.append(" viewpoint=");
    let viewpoint = match archimate_viewpoint(view) {
        Some(p) => Some(view.properties[p].value.as_str()),
        None => None,
    };
    line.append(debug_option_str(viewpoint).as_str());
    line.append("\n");
    line
}

/// The line that the inspection writes for one element.
fn element_line_of(element: &Element) -> (r: String)
    ensures
        r@ == element_line(*element),
{
    let mut line = String::from_str("  ");
    line.append(element.id.as_str());
    line.append(" ");
    line.append(element_kind_debug(&element.kind).as_str());
    line.append(" '");
    line.append(element.name.as_str());
    line.append("' desc=");
    line.append(debug_option(&element.description).as_str());
    line.append(" tech=");
    line.append(debug_option(&element.technology).as_str());
    line.append(" parent=");
    line.append(debug_option(&element.parent).as_str());
    line.append(" tags=");
    line.append(debug_list(&element.tags).as_str());
    line.append("\n");
    line
}

/// `rest` is the view-data section `a`, the style section `b`, the dependency and documentation
/// sections, then the full-grammar section `c`; each of `a`, `b`, `c` is empty exactly when its
/// data is absent, and starts with its heading otherwise.
pub open spec fn tail_parts(w: Workspace, rest: Seq<char>, a: Seq<char>, b: Seq<char>, c: Seq<char>) -> bool {
    &&& rest == a + b + m6_text(w) + m7_text(w) + c
    &&& (m4_present(w) ==> crate::text::has_prefix(a, "m4 views:\n  properties="@))
    &&& (!m4_present(w) ==> a.len() == 0)
    &&& (m5_present(w) ==> crate::text::has_prefix(b, "m5:\n  elementStyles="@))
    &&& (!m5_present(w) ==> b.len() == 0)
    &&& (m3_data(w) ==> crate::text::has_prefix(c, "m3:\n"@))
    &&& (!m3_data(w) ==> c.len() == 0)
}

/// The include-dependency section.
fn dependencies_section(workspace: &Workspace) -> (r: String)
    ensures
        r@ == m6_text(*workspace),
{
    let mut rest = String::new();
    if workspace.dependencies.len() > 0 {
        rest.append("m6 includes:\n");
        let ghost head6 = rest@;
        let mut d: usize = 0;
        while d < workspace.dependencies.len()
            invariant
                d <= workspace.dependencies@.len(),
                rest@ == head6 + dependency_lines(workspace.dependencies@.take(d as int)),
            decreases workspace.dependencies.len() - d,
        {
            rest.append("  ");
            rest.append(workspace.dependencies[d].from.as_str());
            rest.append(" -> ");
            rest.append(workspace.dependencies[d].to.as_str());
            rest.append("\n");
            proof {
                let now = workspace.dependencies@.take(d as int + 1);
                assert(now.drop_last() =~= workspace.dependencies@.take(d as int));
                assert(now.last() == workspace.dependencies@[d as int]);
            }
            d = d + 1;
        }
        assert(workspace.dependencies@.take(workspace.dependencies@.len() as int) =~= workspace.dependencies@);
    }
    rest
}

/// The documentation-count section.
fn documentation_section(workspace: &Workspace) -> (r: String)
    ensures
        r@ == m7_text(*workspace),
{
    let mut rest = String::new();
    if workspace.documentation.len() > 0 || workspace.decisions.len() > 0 {
        rest.append("m7 documentation: sections=");
        rest.append(usize_to_string(workspace.documentation.len()).as_str());
        rest.append(" decisions=");
        rest.append(usize_to_string(workspace.decisions.len()).as_str());
        rest.append("\n");
    }
    rest
}

/// The optional sections that follow the view lines, in order: view data, styles, include
/// dependencies, documentation counts and the full-grammar data.
fn inspect_tail(workspace: &Workspace, any_m4: bool) -> (rest: String)
    requires
        any_m4 == (exists|j: int| 0 <= j < workspace.views@.len() && m4_view_data(#[trigger] workspace.views@[j])),
    ensures
        (exists|a: Seq<char>, b: Seq<char>, c: Seq<char>| tail_parts(*workspace, rest@, a, b, c)),
{
    let mut sa = String::new();
    if workspace.view_properties.len() > 0 || any_m4 {
        append_m4(&mut sa, workspace);
        proof {
            lemma_prefix_of_prefix(sa@, Seq::empty() + "m4 views:\n  properties="@ + ("["@ + debug_pair_items(workspace.view_properties@) + "]"@) + "\n"@,
                "m4 views:\n  properties="@, ("["@ + debug_pair_items(workspace.view_properties@) + "]"@) + "\n"@);
        }
    }
    let mut sb = String::new();
    if workspace.element_styles.len() > 0 || workspace.relationship_styles.len() > 0 || workspace.themes.len() > 0
        || workspace.branding.is_some() || workspace.terminology.len() > 0 {
        append_m5(&mut sb, workspace);
        proof {
            lemma_prefix_of_prefix(sb@, Seq::empty() + "m5:\n  elementStyles="@ + decimal(workspace.element_styles@.len()) + " relationshipStyles="@
                + decimal(workspace.relationship_styles@.len()) + " themes=["@, "m5:\n  elementStyles="@,
                decimal(workspace.element_styles@.len()) + " relationshipStyles="@ + decimal(workspace.relationship_styles@.len()) + " themes=["@);
        }
    }
    let six = dependencies_section(workspace);
    let seven = documentation_section(workspace);
    let mut sc = String::new();
    if workspace_has_m3_data(workspace) {
        sc.append("m3:\n");
        let ghost m3_head = sc@;
        append_m3(&mut sc, workspace);
        proof {
            let extra = match &workspace.extension {
                Some(e) => "  extends "@ + debug_quoted(e.target@) + "\n"@,
                None => Seq::<char>::empty(),
            };
            lemma_prefix_of_prefix(sc@, m3_head + extra, "m3:\n"@, extra);
        }
    }
    let mut rest = String::new();
    rest.append(sa.as_str());
    rest.append(sb.as_str());
    rest.append(six.as_str());
    rest.append(seven.as_str());
    rest.append(sc.as_str());
    assert(rest@ =~= sa@ + sb@ + m6_text(*workspace) + m7_text(*workspace) + sc@);
    assert(tail_parts(*workspace, rest@, sa@, sb@, sc@));
    rest
}

/// A plain-text summary of a workspace: its name, elements, relationships and views, then
/// the view, style, preprocessing, documentation and model-grammar data it carries.
pub fn inspect(workspace: &Workspace) -> (r: String)
    ensures
        crate::text::has_prefix(r@, inspect_head(*workspace)),
        (exists|a: Seq<char>, b: Seq<char>, c: Seq<char>|
            crate::text::has_prefix(r@, inspect_head(*workspace)) && #[trigger] tail_parts(*workspace, r@.skip(inspect_head(*workspace).len() as int), a, b, c)),
{
    let mut output = String::from_str("workspace: ");
    match &workspace.name {
        Some(name) => output.append(name.as_str()),
        None => output.append("<unnamed>"),
    }
    output.append("\nelements:\n");
    let ghost head = output@;
    assert(head == "workspace: "@ + workspace_label(*workspace) + "\nelements:\n"@);
    let mut e: usize = 0;
    while e < workspace.elements.len()
        invariant
            e <= workspace.elements@.len(),
            output@ == head + element_lines(workspace.elements@.take(e as int)),
        decreases workspace.elements.len() - e,
    {
        let element = &workspace.elements[e];
        let ghost before = output@;
        output.append(element_line_of(element).as_str());
        proof {
            let now = workspace.elements@.take(e as int + 1);
            assert(now.drop_last() =~= workspace.elements@.take(e as int));
            assert(now.last() == *element);
        }
        e = e + 1;
    }
    assert(workspace.elements@.take(workspace.elements@.len() as int) =~= workspace.elements@);
    output.append("relationships:\n");
    let ghost head2 = output@;
    let mut r: usize = 0;
    while r < workspace.relationships.len()
        invariant
            r <= workspace.relationships@.len(),
            output@ == head2 + relationship_lines(workspace.relationships@.take(r as int)),
        decreases workspace.relationships.len() - r,
    {
        let relationship = &workspace.relationships[r];
        output.append(relationship_line_of(relationship).as_str());
        proof {
            let now = workspace.relationships@.take(r as int + 1);
            assert(now.drop_last() =~= workspace.relationships@.take(r as int));
            assert(now.last() == *relationship);
        }
        r = r + 1;
    }
    assert(workspace.relationships@.take(workspace.relationships@.len() as int) =~= workspace.relationships@);
    output.append("views:\n");
    let ghost head3 = output@;
    let mut v: usize = 0;
    let mut any_m4 = false;
    while v < workspace.views.len()
        invariant
            v <= workspace.views@.len(),
            output@ == head3 + view_lines(workspace.views@.take(v as int)),
            any_m4 == (exists|j: int| 0 <= j < v && m4_view_data(#[trigger] workspace.views@[j])),
        decreases workspace.views.len() - v,
    {
        let view = &workspace.views[v];
        output.append(view_line_of(view).as_str());
        proof {
            let now = workspace.views@.take(v as int + 1);
            assert(now.drop_last() =~= workspace.views@.take(v as int));
            assert(now.last() == *view);
        }
        if has_m4_view_data(view) {
            any_m4 = true;
        }
        proof {
            if !any_m4 {
                assert forall|j: int| 0 <= j < v + 1 implies !m4_view_data(#[trigger] workspace.views@[j]) by {}
            }
        }
        v = v + 1;
    }
    assert(workspace.views@.take(workspace.views@.len() as int) =~= workspace.views@);
    let ghost mid = output@;
    assert(mid =~= inspect_head(*workspace));
    let rest = inspect_tail(workspace, any_m4);
    output.append(rest.as_str());
    assert(output@ =~= inspect_head(*workspace) + rest@);
    assert(output@.take(mid.len() as int) =~= mid);
    assert(output@.skip(mid.len() as int) =~= rest@);
    output
}

} // verus!
