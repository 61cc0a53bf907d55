use vstd::prelude::*;
use vstd::view::View as _;
use crate::chars::{hex_digit, is_hex_digit};
use crate::diagnostic::{all_in, Diagnostic, Severity};
use crate::inspect::{debug_quoted, debug_str};
use crate::lookup::{find, found, is_first, absent, element_kind_label, kind_label};
use crate::model::{Element, ElementKind, Property, View, ViewKind, Workspace};
use crate::source::{SourceMap, Span};
use crate::text::{cat, cat3, cat5, chars_of, eq_ignore_case, ieq, usize_to_string};

verus! {

/// Appends a diagnostic whose span names a text of `sources`.
pub fn report(diagnostics: &mut Vec<Diagnostic>, sources: &SourceMap, diagnostic: Diagnostic)
    requires
        all_in(old(diagnostics)@, sources),
        sources.has(diagnostic.span),
    ensures
        all_in(final(diagnostics)@, sources),
        final(diagnostics)@ == old(diagnostics)@.push(diagnostic),
{
    diagnostics.push(diagnostic);
}

/// Whether `value` equals one of `allowed`, ignoring ASCII case.
pub open spec fn one_of(value: Seq<char>, allowed: Seq<&str>) -> bool {
    exists|i: int| 0 <= i < allowed.len() && eq_ignore_case(value, (#[trigger] allowed[i])@)
}

fn is_one_of(value: &str, allowed: &Vec<&str>) -> (r: bool)
    ensures
        r == one_of(value@, allowed@),
{
    let mut i: usize = 0;
    while i < allowed.len()
        invariant
            i <= allowed@.len(),
            forall|j: int| 0 <= j < i ==> !eq_ignore_case(value@, (#[trigger] allowed@[j])@),
        decreases allowed.len() - i,
    {
        if ieq(value, allowed[i]) {
            return true;
        }
        i = i + 1;
    }
    false
}

fn joined_with_commas(allowed: &Vec<&str>) -> (r: String) {
    let mut r = String::new();
    let mut i: usize = 0;
    while i < allowed.len()
        invariant
            i <= allowed@.len(),
        decreases allowed.len() - i,
    {
        if i > 0 {
            r.append(", ");
        }
        r.append(allowed[i]);
        i = i + 1;
    }
    r
}

/// Reports a property whose value is none of `allowed` (ASCII case ignored).
pub fn validate_enum(property: &Property, allowed: &Vec<&str>, label: &str, diagnostics: &mut Vec<Diagnostic>, sources: &SourceMap)
    requires
        all_in(old(diagnostics)@, sources),
        sources.has(property.span),
    ensures
        all_in(final(diagnostics)@, sources),
        final(diagnostics)@.len() == old(diagnostics)@.len() + if one_of(property.value@, allowed@) { 0int } else { 1int },
        final(diagnostics)@.take(old(diagnostics)@.len() as int) == old(diagnostics)@,
        !one_of(property.value@, allowed@) ==> ({
            let d = final(diagnostics)@.last();
            &&& d.span == property.span
            &&& d.severity == Severity::Error
            &&& d.message@ == "invalid "@ + label@ + " '"@ + property.value@ + "'"@
        }),
{
    if !is_one_of(property.value.as_str(), allowed) {
        let message = cat5("invalid ", label, " '", property.value.as_str(), "'");
        let help = cat("use one of: ", joined_with_commas(allowed).as_str());
        report(diagnostics, sources, Diagnostic::error(property.span, message).with_help(help));
        proof {
            reveal_strlit("");
            assert(final(diagnostics)@.take(old(diagnostics)@.len() as int) =~= old(diagnostics)@);
            assert(message@ =~= "invalid "@ + label@ + " '"@ + property.value@ + "'"@);
        }
    } else {
        assert(diagnostics@.take(old(diagnostics)@.len() as int) =~= old(diagnostics)@);
    }
}

/// The value of a run of ASCII digits.
pub open spec fn digits_value(s: Seq<char>) -> int
    decreases s.len(),
{
    if s.len() == 0 {
        0
    } else {
        digits_value(s.drop_last()) * 10 + (s.last() as int - '0' as int)
    }
}

pub open spec fn all_digits(s: Seq<char>) -> bool {
    forall|i: int| 0 <= i < s.len() ==> '0' <= #[trigger] s[i] && s[i] <= '9'
}

/// What `str::parse::<i32>` gives: an optional `+` or `-`, then one or more ASCII digits,
/// with the value inside the range of `i32`.
pub open spec fn parsed_i32(s: Seq<char>) -> Option<int> {
    let negative = s.len() > 0 && s[0] == '-';
    let signed = s.len() > 0 && (s[0] == '-' || s[0] == '+');
    let digits = if signed { s.drop_first() } else { s };
    let value = if negative { -digits_value(digits) } else { digits_value(digits) };
    if digits.len() > 0 && all_digits(digits) && -2147483648 <= value <= 2147483647 {
        Some(value)
    } else {
        None
    }
}

proof fn lemma_digits_nonneg(s: Seq<char>)
    requires
        all_digits(s),
    ensures
        digits_value(s) >= 0,
    decreases s.len(),
{
    if s.len() > 0 {
        lemma_digits_nonneg(s.drop_last());
    }
}

proof fn lemma_digits_grow(s: Seq<char>, k: int)
    requires
        all_digits(s),
        0 <= k <= s.len(),
    ensures
        digits_value(s.take(k)) <= digits_value(s),
    decreases s.len() - k,
{
    if k < s.len() {
        lemma_digits_grow(s, k + 1);
        assert(s.take(k + 1).drop_last() =~= s.take(k));
        lemma_digits_nonneg(s.take(k));
    } else {
        assert(s.take(k) =~= s);
    }
}

/// `str::parse::<i32>`, done on the characters.
pub fn parse_i32(s: &str) -> (r: Option<i64>)
    ensures
        match r {
            Some(v) => parsed_i32(s@) == Some(v as int),
            None => parsed_i32(s@) is None,
        },
{
    let v = chars_of(s);
    let n = v.len();
    if n == 0 {
        return None;
    }
    let negative = v[0] == '-';
    let signed = v[0] == '-' || v[0] == '+';
    let start: usize = if signed { 1 } else { 0 };
    if start == n {
        return None;
    }
    let ghost digits = if signed { v@.drop_first() } else { v@ };
    assert(digits =~= v@.subrange(start as int, n as int));
    let mut value: i64 = 0;
    let mut i = start;
    while i < n
        invariant
            v@ == s@,
            n == v@.len(),
            n > 0,
            start <= i <= n,
            signed == (s@[0] == '-' || s@[0] == '+'),
            negative == (s@[0] == '-'),
            start == if signed { 1usize } else { 0usize },
            digits == (if signed { s@.drop_first() } else { s@ }),
            digits == v@.subrange(start as int, n as int),
            all_digits(v@.subrange(start as int, i as int)),
            value == digits_value(v@.subrange(start as int, i as int)),
            0 <= value <= 2147483648,
        decreases n - i,
    {
        let c = v[i];
        if c < '0' || c > '9' {
            assert(!all_digits(digits)) by {
                assert(digits[i - start] == c);
            }
            return None;
        }
        let d = (c as u32 - '0' as u32) as i64;
        let next = value * 10 + d;
        assert(v@.subrange(start as int, i + 1).drop_last() =~= v@.subrange(start as int, i as int));
        if next > 2147483648 {
            proof {
                let prefix = v@.subrange(start as int, i + 1);
                assert(digits_value(prefix) == next);
                if all_digits(digits) {
                    assert(digits.take(i + 1 - start) =~= prefix);
                    lemma_digits_grow(digits, i + 1 - start);
                }
            }
            return None;
        }
        value = next;
        i = i + 1;
    }
    assert(v@.subrange(start as int, n as int) =~= digits);
    if negative {
        Some(-value)
    } else if value > 2147483647 {
        None
    } else {
        Some(value)
    }
}

/// Reports a property whose value is not an integer, or not inside `range` when one is given.
pub(crate) fn validate_integer(property: &Property, range: Option<(i64, i64)>, diagnostics: &mut Vec<Diagnostic>, sources: &SourceMap)
    requires
        all_in(old(diagnostics)@, sources),
        sources.has(property.span),
        match range { Some((a, b)) => 0 <= a && 0 <= b, None => true },
    ensures
        all_in(final(diagnostics)@, sources),
        final(diagnostics)@.take(old(diagnostics)@.len() as int) == old(diagnostics)@,
        final(diagnostics)@.len() == old(diagnostics)@.len() + if (match parsed_i32(property.value@) {
            Some(v) => match range { Some((a, b)) => a <= v <= b, None => true },
            None => false,
        }) { 0int } else { 1int },
{
    match parse_i32(property.value.as_str()) {
        Some(value) => {
            match range {
                Some((minimum, maximum)) => {
                    if value < minimum || value > maximum {
                        let bounds = cat3(usize_to_string(minimum as usize).as_str(), " and ", usize_to_string(maximum as usize).as_str());
                        let message = cat3(property.key.as_str(), " must be between ", bounds.as_str());
                        report(diagnostics, sources, Diagnostic::error(property.span, message)
                            .with_help(String::from_str("use an integer inside the documented range")));
                        assert(diagnostics@.take(old(diagnostics)@.len() as int) =~= old(diagnostics)@);
                    } else {
                        assert(diagnostics@.take(old(diagnostics)@.len() as int) =~= old(diagnostics)@);
                    }
                },
                None => {
                    assert(diagnostics@.take(old(diagnostics)@.len() as int) =~= old(diagnostics)@);
                },
            }
        },
        None => {
            let message = cat(property.key.as_str(), " must be an integer");
            report(diagnostics, sources, Diagnostic::error(property.span, message)
                .with_help(String::from_str("replace this value with an integer")));
            assert(diagnostics@.take(old(diagnostics)@.len() as int) =~= old(diagnostics)@);
        },
    }
}

/// A `#RRGGBB` color: `#` and six hexadecimal digits.
pub open spec fn hex_color(s: Seq<char>) -> bool {
    &&& s.len() == 7
    &&& s[0] == '#'
    &&& forall|i: int| 1 <= i < 7 ==> hex_digit(#[trigger] s[i])
}

/// Reports a property whose value is not a `#RRGGBB` color.
pub fn validate_hex_color(property: &Property, diagnostics: &mut Vec<Diagnostic>, sources: &SourceMap)
    requires
        all_in(old(diagnostics)@, sources),
        sources.has(property.span),
    ensures
        all_in(final(diagnostics)@, sources),
        final(diagnostics)@.take(old(diagnostics)@.len() as int) == old(diagnostics)@,
        final(diagnostics)@.len() == old(diagnostics)@.len() + if hex_color(property.value@) { 0int } else { 1int },
{
    let v = chars_of(property.value.as_str());
    let mut valid = v.len() == 7 && v[0] == '#';
    if valid {
        let mut i: usize = 1;
        while i < 7
            invariant
                v@ == property.value@,
                v@.len() == 7,
                1 <= i <= 7,
                valid == (forall|j: int| 1 <= j < i ==> hex_digit(#[trigger] v@[j])),
            decreases 7 - i,
        {
            if !is_hex_digit(v[i]) {
                valid = false;
            }
            i = i + 1;
        }
    }
    if !valid {
        let message = cat(property.key.as_str(), " must be a #RRGGBB color");
        report(diagnostics, sources, Diagnostic::error(property.span, message)
            .with_help(String::from_str("use a six-digit hexadecimal color such as #008e00")));
    }
    assert(diagnostics@.take(old(diagnostics)@.len() as int) =~= old(diagnostics)@);
}

/// The identifier names an element declared before `order`.
pub open spec fn prior(w: Workspace, id: Seq<char>, order: usize) -> bool {
    match found(w.elements@, id) {
        Some(k) => w.elements@[k].order < order,
        None => false,
    }
}

/// Checks that `identifier` names an element declared before `order`; gives its index.
pub fn validate_prior_reference(workspace: &Workspace, identifier: &str, span: Span, order: usize, label: &str,
    diagnostics: &mut Vec<Diagnostic>) -> (r: Option<usize>)
    requires
        all_in(old(diagnostics)@, &workspace.source_map),
        workspace.source_map.has(span),
    ensures
        all_in(final(diagnostics)@, &workspace.source_map),
        final(diagnostics)@.take(old(diagnostics)@.len() as int) == old(diagnostics)@,
        final(diagnostics)@.len() == old(diagnostics)@.len() + if prior(*workspace, identifier@, order) { 0int } else { 1int },
        match r {
            Some(k) => found(workspace.elements@, identifier@) == Some(k as int) && prior(*workspace, identifier@, order),
            None => !prior(*workspace, identifier@, order),
        },
{
    match find(workspace, identifier) {
        Some(k) => {
            if workspace.elements[k].order < order {
                assert(diagnostics@.take(old(diagnostics)@.len() as int) =~= old(diagnostics)@);
                Some(k)
            } else {
                let message = cat5(label, " '", identifier, "' is a forward reference", "");
                report(diagnostics, &workspace.source_map, Diagnostic::error(span, message)
                    .with_help(String::from_str("move the referenced element before this statement")));
                assert(diagnostics@.take(old(diagnostics)@.len() as int) =~= old(diagnostics)@);
                None
            }
        },
        None => {
            let message = cat5(label, " '", identifier, "' is not defined", "");
            let help = cat3("define '", identifier, "' before this statement, or check the identifier");
            report(diagnostics, &workspace.source_map, Diagnostic::error(span, message).with_help(help));
            assert(diagnostics@.take(old(diagnostics)@.len() as int) =~= old(diagnostics)@);
            None
        },
    }
}

/// Where an element of each kind may stand, given the kind of the element its parent names.
pub open spec fn parent_fits(kind: ElementKind, parent: Option<ElementKind>) -> bool {
    match kind {
        ElementKind::Person | ElementKind::SoftwareSystem | ElementKind::Generic
        | ElementKind::DeploymentEnvironment | ElementKind::ArchiMate(_) => parent is None,
        ElementKind::Container => parent matches Some(p) && p is SoftwareSystem,
        ElementKind::Component => parent matches Some(p) && p is Container,
        ElementKind::DeploymentGroup => parent matches Some(p) && p is DeploymentEnvironment,
        ElementKind::DeploymentNode => parent matches Some(p) && (p is DeploymentEnvironment || p is DeploymentNode),
        ElementKind::InfrastructureNode | ElementKind::SoftwareSystemInstance
        | ElementKind::ContainerInstance => parent matches Some(p) && p is DeploymentNode,
    }
}

/// What a deployment node may hold: further deployment nodes, to any depth, infrastructure
/// nodes and software system and container instances; nothing else stands in one.
pub proof fn deployment_node_children(kind: ElementKind)
    ensures
        parent_fits(kind, Some(ElementKind::DeploymentNode)) <==> (kind is DeploymentNode || kind is InfrastructureNode
            || kind is SoftwareSystemInstance || kind is ContainerInstance),
{
}

/// A deployment node may stand in anything that may hold a deployment node, so deployment
/// nodes nest: whatever may stand in a deployment environment as a node may also stand in a
/// node.
pub proof fn deployment_nodes_nest(parent: ElementKind)
    requires
        parent_fits(ElementKind::DeploymentNode, Some(parent)),
    ensures
        parent_fits(ElementKind::DeploymentNode, Some(ElementKind::DeploymentNode)),
        parent is DeploymentEnvironment || parent is DeploymentNode,
{
}

/// The kind of the element that the parent of element `e` names, if it names one.
pub open spec fn parent_kind(w: Workspace, e: Element) -> Option<ElementKind> {
    match e.parent {
        Some(p) => match found(w.elements@, p@) {
            Some(k) => Some(w.elements@[k].kind),
            None => None,
        },
        None => None,
    }
}

pub(crate) fn parent_help(kind: &ElementKind) -> (r: &'static str) {
    match kind {
        ElementKind::Container => "define containers inside a softwareSystem block",
        ElementKind::Component => "define components inside a container block",
        ElementKind::DeploymentGroup | ElementKind::DeploymentNode => "define this inside a deploymentEnvironment block",
        ElementKind::InfrastructureNode | ElementKind::SoftwareSystemInstance | ElementKind::ContainerInstance =>
            "define this inside a deploymentNode block",
        _ => "move this element to the model, enterprise, or a compatible group",
    }
}

/// Reports an element whose parent is not of a kind that may hold it.
pub fn validate_parent(workspace: &Workspace, element: &Element, diagnostics: &mut Vec<Diagnostic>)
    requires
        all_in(old(diagnostics)@, &workspace.source_map),
        workspace.source_map.has(element.span),
    ensures
        all_in(final(diagnostics)@, &workspace.source_map),
        final(diagnostics)@.take(old(diagnostics)@.len() as int) == old(diagnostics)@,
        final(diagnostics)@.len() == old(diagnostics)@.len() + if parent_fits(element.kind, parent_kind(*workspace, *element)) { 0int } else { 1int },
{
    let parent: Option<usize> = match &element.parent {
        Some(p) => find(workspace, p.as_str()),
        None => None,
    };
    let valid = match element.kind {
        ElementKind::Person | ElementKind::SoftwareSystem | ElementKind::Generic
        | ElementKind::DeploymentEnvironment | ElementKind::ArchiMate(_) => parent.is_none(),
        ElementKind::Container => match parent {
            Some(k) => matches!(workspace.elements[k].kind, ElementKind::SoftwareSystem),
            None => false,
        },
        ElementKind::Component => match parent {
            Some(k) => matches!(workspace.elements[k].kind, ElementKind::Container),
            None => false,
        },
        ElementKind::DeploymentGroup => match parent {
            Some(k) => matches!(workspace.elements[k].kind, ElementKind::DeploymentEnvironment),
            None => false,
        },
        ElementKind::DeploymentNode => match parent {
            Some(k) => matches!(workspace.elements[k].kind, ElementKind::DeploymentEnvironment | ElementKind::DeploymentNode),
            None => false,
        },
        ElementKind::InfrastructureNode | ElementKind::SoftwareSystemInstance | ElementKind::ContainerInstance => match parent {
            Some(k) => matches!(workspace.elements[k].kind, ElementKind::DeploymentNode),
            None => false,
        },
    };
    if !valid {
        let message = cat5(element_kind_label(&element.kind), " '", element.id.as_str(), "' is not allowed in this parent", "");
        report(diagnostics, &workspace.source_map, Diagnostic::error(element.span, message)
            .with_help(String::from_str(parent_help(&element.kind))));
    }
    assert(diagnostics@.take(old(diagnostics)@.len() as int) =~= old(diagnostics)@);
}

/// Whether an element of `kind` may stand in a group owned by an element of `owner` (none:
/// the model).
pub open spec fn group_fits(kind: ElementKind, owner: Option<ElementKind>) -> bool {
    match owner {
        None => kind is Person || kind is SoftwareSystem || kind is Generic || kind is ArchiMate,
        Some(o) => (o is SoftwareSystem && kind is Container) || (o is Container && kind is Component),
    }
}

/// The kind of the element that owns a group, when its owner names one.
pub open spec fn group_owner_kind(w: Workspace, g: crate::model::Group) -> Option<ElementKind> {
    match g.owner {
        Some(o) => match crate::lookup::found(w.elements@, o@) {
            Some(k) => Some(w.elements@[k].kind),
            None => None,
        },
        None => None,
    }
}

/// Whether the element stands in a group of its workspace that belongs to another
/// abstraction level.
pub open spec fn misgrouped(w: Workspace, e: Element) -> bool {
    match e.group {
        Some(g) => g < w.groups@.len() && !group_fits(e.kind, group_owner_kind(w, w.groups@[g as int])),
        None => false,
    }
}

/// Reports an element whose group belongs to another abstraction level.
pub fn validate_group(workspace: &Workspace, element: &Element, diagnostics: &mut Vec<Diagnostic>)
    requires
        all_in(old(diagnostics)@, &workspace.source_map),
        workspace.source_map.has(element.span),
    ensures
        all_in(final(diagnostics)@, &workspace.source_map),
        final(diagnostics)@.take(old(diagnostics)@.len() as int) == old(diagnostics)@,
        final(diagnostics)@.len() == old(diagnostics)@.len() + if misgrouped(*workspace, *element) { 1int } else { 0int },
{
    let g = match element.group {
        Some(g) => g,
        None => {
            assert(diagnostics@.take(old(diagnostics)@.len() as int) =~= old(diagnostics)@);
            return;
        },
    };
    if g >= workspace.groups.len() {
        assert(diagnostics@.take(old(diagnostics)@.len() as int) =~= old(diagnostics)@);
        return;
    }
    let group = &workspace.groups[g];
    let owner: Option<usize> = match &group.owner {
        Some(o) => find(workspace, o.as_str()),
        None => None,
    };
    let valid = match owner {
        None => matches!(element.kind, ElementKind::Person | ElementKind::SoftwareSystem | ElementKind::Generic | ElementKind::ArchiMate(_)),
        Some(k) => match workspace.elements[k].kind {
            ElementKind::SoftwareSystem => matches!(element.kind, ElementKind::Container),
            ElementKind::Container => matches!(element.kind, ElementKind::Component),
            _ => false,
        },
    };
    if !valid {
        let message = cat5("element '", element.id.as_str(), "' is incompatible with group '", group.name.as_str(), "' abstraction level");
        report(diagnostics, &workspace.source_map, Diagnostic::error(element.span, message)
            .with_help(String::from_str("group only elements at the same C4 abstraction level")));
    }
    assert(diagnostics@.take(old(diagnostics)@.len() as int) =~= old(diagnostics)@);
}

/// Reports groups owned by elements other than systems and containers, and groups nested in
/// groups with another owner or declared later.
pub fn validate_groups(workspace: &Workspace, diagnostics: &mut Vec<Diagnostic>)
    requires
        all_in(old(diagnostics)@, &workspace.source_map),
        workspace.wf(),
    ensures
        all_in(final(diagnostics)@, &workspace.source_map),
        final(diagnostics)@.len() >= old(diagnostics)@.len(),
        bare(*workspace) ==> final(diagnostics)@ == old(diagnostics)@,
{
    let mut index: usize = 0;
    while index < workspace.groups.len()
        invariant
            bare(*workspace) ==> diagnostics@ == old(diagnostics)@,
            index <= workspace.groups@.len(),
            all_in(diagnostics@, &workspace.source_map),
            diagnostics@.len() >= old(diagnostics)@.len(),
            workspace.wf(),
        decreases workspace.groups.len() - index,
    {
        let group = &workspace.groups[index];
        let valid_owner = match &group.owner {
            Some(o) => match find(workspace, o.as_str()) {
                Some(k) => matches!(workspace.elements[k].kind, ElementKind::SoftwareSystem | ElementKind::Container),
                None => true,
            },
            None => true,
        };
        let valid_parent = match group.parent {
            Some(parent) => {
                if parent < workspace.groups.len() {
                    let same_owner = match (&workspace.groups[parent].owner, &group.owner) {
                        (Some(a), Some(b)) => crate::text::seq_eq(a.as_str(), b.as_str()),
                        (None, None) => true,
                        _ => false,
                    };
                    same_owner && parent < index
                } else {
                    false
                }
            },
            None => true,
        };
        if !valid_owner || !valid_parent {
            assert(crate::model::sp(workspace.groups@[index as int].span, workspace.source_map.len()));
            let message = cat3("group '", group.name.as_str(), "' has an incompatible abstraction level");
            report(diagnostics, &workspace.source_map, Diagnostic::error(group.span, message)
                .with_help(String::from_str("nest groups only with groups and elements at the same C4 level")));
        }
        index = index + 1;
    }
}

fn last_property_span(properties: &Vec<Property>, key: &str, fallback: Span) -> (r: Span)
    ensures
        r == fallback || exists|i: int| 0 <= i < properties@.len() && r == (#[trigger] properties@[i]).span,
{
    let mut i = properties.len();
    while i > 0
        invariant
            i <= properties@.len(),
        decreases i,
    {
        if crate::text::seq_eq(properties[i - 1].key.as_str(), key) {
            return properties[i - 1].span;
        }
        i = i - 1;
    }
    fallback
}

fn same_environment(a: &Option<String>, b: &Option<String>) -> (r: bool)
    ensures
        r == (crate::archi_layout::text_of(*a) == crate::archi_layout::text_of(*b)),
{
    match (a, b) {
        (Some(x), Some(y)) => crate::text::seq_eq(x.as_str(), y.as_str()),
        (None, None) => true,
        _ => false,
    }
}

/// The deployment environment that holds element `k`.
pub open spec fn environment_of(w: Workspace, k: int) -> Option<Seq<char>> {
    crate::lookup::environment_from(w.elements@, k, w.elements@.len())
}

/// A software system instance refers to a software system, a container instance to a container.
pub open spec fn instance_target_fits(kind: ElementKind, target: ElementKind) -> bool {
    &&& (kind is SoftwareSystemInstance ==> target is SoftwareSystem)
    &&& (kind is ContainerInstance ==> target is Container)
}

/// The deployment group `id` that element `k` names is declared before it, is a deployment
/// group, and stands in the same deployment environment.
pub open spec fn deployment_group_fits(w: Workspace, k: int, id: Seq<char>) -> bool {
    &&& prior(w, id, w.elements@[k].order)
    &&& match found(w.elements@, id) {
        Some(g) => w.elements@[g].kind is DeploymentGroup && environment_of(w, g) == environment_of(w, k),
        None => false,
    }
}

/// Every check on what element `k` refers to passes.
pub open spec fn element_references_fit(w: Workspace, k: int) -> bool {
    let e = w.elements@[k];
    &&& (e.instances is Some ==> e.kind is DeploymentNode)
    &&& (e.reference matches Some(r) ==> prior(w, r.identifier@, e.order) && match found(w.elements@, r.identifier@) {
        Some(t) => instance_target_fits(e.kind, w.elements@[t].kind),
        None => false,
    })
    &&& (e.instance_of matches Some(r) ==> prior(w, r.identifier@, e.order))
    &&& (e.health_checks@.len() > 0 ==> (e.kind is SoftwareSystemInstance || e.kind is ContainerInstance))
    &&& forall|i: int| 0 <= i < e.deployment_groups@.len() ==> #[trigger] deployment_group_fits(w, k, e.deployment_groups@[i].identifier@)
}

/// Checks what an element refers to: instances, instance targets, `instanceOf`, health checks
/// and deployment groups.
pub fn validate_element_references(workspace: &Workspace, k: usize, diagnostics: &mut Vec<Diagnostic>)
    requires
        all_in(old(diagnostics)@, &workspace.source_map),
        workspace.wf(),
        k < workspace.elements@.len(),
    ensures
        all_in(final(diagnostics)@, &workspace.source_map),
        final(diagnostics)@.len() >= old(diagnostics)@.len(),
        (final(diagnostics)@.len() == old(diagnostics)@.len()) == element_references_fit(*workspace, k as int),
{
    let element = &workspace.elements[k];
    assert(element.spans_in(workspace.source_map.len()));
    let start = diagnostics.len();
    if element.instances.is_some() && !matches!(element.kind, ElementKind::DeploymentNode) {
        let span = last_property_span(&element.attributes, "instances", element.span);
        report(diagnostics, &workspace.source_map, Diagnostic::error(span, String::from_str("instances is only allowed on deployment nodes"))
            .with_help(String::from_str("move this property to a deploymentNode")));
    }
    match &element.reference {
        Some(reference) => {
            let target = validate_prior_reference(workspace, reference.identifier.as_str(), reference.span, element.order,
                "instance reference", diagnostics);
            match target {
                Some(t) => {
                    let expected_system = matches!(element.kind, ElementKind::SoftwareSystemInstance);
                    let expected_container = matches!(element.kind, ElementKind::ContainerInstance);
                    let target_kind = &workspace.elements[t].kind;
                    let wrong = (expected_system && !matches!(target_kind, ElementKind::SoftwareSystem))
                        || (expected_container && !matches!(target_kind, ElementKind::Container));
                    if wrong {
                        let expected_label = if expected_system {
                            element_kind_label(&ElementKind::SoftwareSystem)
                        } else {
                            element_kind_label(&ElementKind::Container)
                        };
                        let message = cat3(element_kind_label(&element.kind), " must reference a ", expected_label);
                        report(diagnostics, &workspace.source_map, Diagnostic::error(reference.span, message)
                            .with_help(String::from_str("reference a deployable element of the required kind")));
                    }
                },
                None => {},
            }
        },
        None => {},
    }
    match &element.instance_of {
        Some(reference) => {
            let _ = validate_prior_reference(workspace, reference.identifier.as_str(), reference.span, element.order,
                "instanceOf reference", diagnostics);
        },
        None => {},
    }
    if element.health_checks.len() > 0 && !matches!(element.kind, ElementKind::SoftwareSystemInstance | ElementKind::ContainerInstance) {
        report(diagnostics, &workspace.source_map, Diagnostic::error(element.health_checks[0].span,
            String::from_str("healthCheck is only allowed on software system or container instances"))
            .with_help(String::from_str("move the health check into an instance block")));
    }
    let ghost mid = diagnostics@.len();
    assert((mid == old(diagnostics)@.len()) == ({
        &&& (element.instances is Some ==> element.kind is DeploymentNode)
        &&& (element.reference matches Some(r) ==> prior(*workspace, r.identifier@, element.order) && match found(workspace.elements@, r.identifier@) {
            Some(t) => instance_target_fits(element.kind, workspace.elements@[t].kind),
            None => false,
        })
        &&& (element.instance_of matches Some(r) ==> prior(*workspace, r.identifier@, element.order))
        &&& (element.health_checks@.len() > 0 ==> (element.kind is SoftwareSystemInstance || element.kind is ContainerInstance))
    }));
    let environment = crate::lookup::deployment_environment(workspace, k);
    let mut i: usize = 0;
    while i < element.deployment_groups.len()
        invariant
            i <= element.deployment_groups@.len(),
            all_in(diagnostics@, &workspace.source_map),
            diagnostics@.len() >= mid,
            mid >= old(diagnostics)@.len(),
            workspace.wf(),
            k < workspace.elements@.len(),
            element == workspace.elements@[k as int],
            element.spans_in(workspace.source_map.len()),
            crate::archi_layout::text_of(environment) == environment_of(*workspace, k as int),
            (diagnostics@.len() == mid) == forall|j: int| 0 <= j < i ==> #[trigger] deployment_group_fits(*workspace, k as int, element.deployment_groups@[j].identifier@),
        decreases element.deployment_groups.len() - i,
    {
        let reference = &element.deployment_groups[i];
        let ghost at_start = diagnostics@;
        let group = validate_prior_reference(workspace, reference.identifier.as_str(), reference.span, element.order,
            "deployment group", diagnostics);
        match group {
            Some(g) => {
                let other = crate::lookup::deployment_environment(workspace, g);
                if !matches!(workspace.elements[g].kind, ElementKind::DeploymentGroup) || !same_environment(&other, &environment) {
                    let message = cat3("deployment group '", reference.identifier.as_str(), "' is not in the same deployment environment");
                    report(diagnostics, &workspace.source_map, Diagnostic::error(reference.span, message)
                        .with_help(String::from_str("reference a deployment group from this environment")));
                }
            },
            None => {},
        }
        proof {
            assert((diagnostics@.len() == at_start.len()) == deployment_group_fits(*workspace, k as int, element.deployment_groups@[i as int].identifier@));
            assert forall|j: int| 0 <= j < i + 1 && (diagnostics@.len() == mid) implies
                #[trigger] deployment_group_fits(*workspace, k as int, element.deployment_groups@[j].identifier@) by {
            }
        }
        i = i + 1;
    }
    proof {
        assert((diagnostics@.len() == old(diagnostics)@.len()) == element_references_fit(*workspace, k as int));
    }
}

/// The name of a view kind's variant, as `{:?}` writes it.
pub open spec fn view_kind_text(kind: ViewKind) -> Seq<char> {
    match kind {
        ViewKind::SystemLandscape => "SystemLandscape"@,
        ViewKind::SystemContext => "SystemContext"@,
        ViewKind::Container => "Container"@,
        ViewKind::Component => "Component"@,
        ViewKind::Filtered => "Filtered"@,
        ViewKind::Dynamic => "Dynamic"@,
        ViewKind::Deployment => "Deployment"@,
        ViewKind::Custom => "Custom"@,
        ViewKind::Image => "Image"@,
        ViewKind::ArchiMate => "ArchiMate"@,
    }
}

/// How `{:?}` writes an element kind: the variant's name, with an ArchiMate kind's
/// native type quoted in brackets.
pub open spec fn element_kind_text(kind: ElementKind) -> Seq<char> {
    match kind {
        ElementKind::Person => "Person"@,
        ElementKind::SoftwareSystem => "SoftwareSystem"@,
        ElementKind::Container => "Container"@,
        ElementKind::Component => "Component"@,
        ElementKind::Generic => "Generic"@,
        ElementKind::DeploymentEnvironment => "DeploymentEnvironment"@,
        ElementKind::DeploymentGroup => "DeploymentGroup"@,
        ElementKind::DeploymentNode => "DeploymentNode"@,
        ElementKind::InfrastructureNode => "InfrastructureNode"@,
        ElementKind::SoftwareSystemInstance => "SoftwareSystemInstance"@,
        ElementKind::ContainerInstance => "ContainerInstance"@,
        ElementKind::ArchiMate(name) => "ArchiMate("@ + debug_quoted(name@) + ")"@,
    }
}

/// How `{:?}` writes a view kind.
pub fn view_kind_debug(kind: &ViewKind) -> (r: &'static str)
    ensures
        r@ == view_kind_text(*kind),
{
    match kind {
        ViewKind::SystemLandscape => "SystemLandscape",
        ViewKind::SystemContext => "SystemContext",
        ViewKind::Container => "Container",
        ViewKind::Component => "Component",
        ViewKind::Filtered => "Filtered",
        ViewKind::Dynamic => "Dynamic",
        ViewKind::Deployment => "Deployment",
        ViewKind::Custom => "Custom",
        ViewKind::Image => "Image",
        ViewKind::ArchiMate => "ArchiMate",
    }
}

/// How `{:?}` writes an element kind.
pub fn element_kind_debug(kind: &ElementKind) -> (r: String)
    ensures
        r@ == element_kind_text(*kind),
{
    match kind {
        ElementKind::Person => String::from_str("Person"),
        ElementKind::SoftwareSystem => String::from_str("SoftwareSystem"),
        ElementKind::Container => String::from_str("Container"),
        ElementKind::Component => String::from_str("Component"),
        ElementKind::Generic => String::from_str("Generic"),
        ElementKind::DeploymentEnvironment => String::from_str("DeploymentEnvironment"),
        ElementKind::DeploymentGroup => String::from_str("DeploymentGroup"),
        ElementKind::DeploymentNode => String::from_str("DeploymentNode"),
        ElementKind::InfrastructureNode => String::from_str("InfrastructureNode"),
        ElementKind::SoftwareSystemInstance => String::from_str("SoftwareSystemInstance"),
        ElementKind::ContainerInstance => String::from_str("ContainerInstance"),
        ElementKind::ArchiMate(name) => cat3("ArchiMate(", debug_str(name).as_str(), ")"),
    }
}

/// Whether two element kinds are the same (ArchiMate kinds by their native type).
pub fn same_kind(a: &ElementKind, b: &ElementKind) -> (r: bool)
    ensures
        r == match (*a, *b) {
            (ElementKind::ArchiMate(x), ElementKind::ArchiMate(y)) => x@ == y@,
            _ => a == b,
        },
{
    match (a, b) {
        (ElementKind::Person, ElementKind::Person) => true,
        (ElementKind::SoftwareSystem, ElementKind::SoftwareSystem) => true,
        (ElementKind::Container, ElementKind::Container) => true,
        (ElementKind::Component, ElementKind::Component) => true,
        (ElementKind::Generic, ElementKind::Generic) => true,
        (ElementKind::DeploymentEnvironment, ElementKind::DeploymentEnvironment) => true,
        (ElementKind::DeploymentGroup, ElementKind::DeploymentGroup) => true,
        (ElementKind::DeploymentNode, ElementKind::DeploymentNode) => true,
        (ElementKind::InfrastructureNode, ElementKind::InfrastructureNode) => true,
        (ElementKind::SoftwareSystemInstance, ElementKind::SoftwareSystemInstance) => true,
        (ElementKind::ContainerInstance, ElementKind::ContainerInstance) => true,
        (ElementKind::ArchiMate(x), ElementKind::ArchiMate(y)) => crate::text::seq_eq(x, y),
        _ => false,
    }
}

/// The view's scope names an element of `kind` declared before the view.
pub open spec fn scope_fits(w: Workspace, view: View, kind: ElementKind) -> bool {
    match view.scope {
        Some(scope) => match found(w.elements@, scope@) {
            Some(k) => w.elements@[k].order < view.order && w.elements@[k].kind == kind,
            None => false,
        },
        None => false,
    }
}

/// Reports a view whose scope is missing, declared later, or of another kind than `kind`.
pub fn require_kind(workspace: &Workspace, view: &View, kind: ElementKind, label: &str, diagnostics: &mut Vec<Diagnostic>)
    requires
        all_in(old(diagnostics)@, &workspace.source_map),
        workspace.wf(),
        view.spans_in(workspace.source_map.len()),
        !(kind is ArchiMate),
    ensures
        all_in(final(diagnostics)@, &workspace.source_map),
        final(diagnostics)@.take(old(diagnostics)@.len() as int) == old(diagnostics)@,
        final(diagnostics)@.len() == old(diagnostics)@.len() + if scope_fits(*workspace, *view, kind) { 0int } else { 1int },
{
    let span = match view.scope_span {
        Some(s) => s,
        None => view.span,
    };
    let found_scope = match &view.scope {
        Some(scope) => find(workspace, scope.as_str()),
        None => None,
    };
    match found_scope {
        Some(k) => {
            let element = &workspace.elements[k];
            if element.order >= view.order {
                let message = cat5(label, " scope '", element.id.as_str(), "' is a forward reference", "");
                let help = cat3("move the ", element_kind_label(&kind), " before this view");
                report(diagnostics, &workspace.source_map, Diagnostic::error(span, message).with_help(help));
            } else if same_kind(&element.kind, &kind) {
            } else {
                let debug = element_kind_debug(&element.kind);
                let first = cat5(label, " scope '", element.id.as_str(), "' has wrong kind ", debug.as_str());
                let help = cat3("use a ", element_kind_label(&kind), " identifier as the view scope");
                report(diagnostics, &workspace.source_map, Diagnostic::error(span, first).with_help(help));
            }
        },
        None => {
            let message = cat(label, " scope is missing or undefined");
            let help = cat3("define the ", element_kind_label(&kind), " before this view");
            report(diagnostics, &workspace.source_map, Diagnostic::error(span, message).with_help(help));
        },
    }
    assert(diagnostics@.take(old(diagnostics)@.len() as int) =~= old(diagnostics)@);
}

/// Checks a view's layout direction, include and exclude selectors and animation steps.
pub fn validate_view_options(workspace: &Workspace, view: &View, diagnostics: &mut Vec<Diagnostic>)
    requires
        all_in(old(diagnostics)@, &workspace.source_map),
        workspace.wf(),
        view.spans_in(workspace.source_map.len()),
    ensures
        all_in(final(diagnostics)@, &workspace.source_map),
        final(diagnostics)@.len() >= old(diagnostics)@.len(),
{
    match &view.auto_layout {
        Some(layout) => {
            let directions = vec!["tb", "bt", "lr", "rl"];
            if !is_one_of(layout.direction.as_str(), &directions) {
                let message = cat3("invalid autoLayout direction '", layout.direction.as_str(), "'");
                report(diagnostics, &workspace.source_map, Diagnostic::error(layout.span, message)
                    .with_help(String::from_str("use tb, bt, lr, or rl")));
            }
        },
        None => {},
    }
    let mut pass: usize = 0;
    while pass < 2
        invariant
            all_in(diagnostics@, &workspace.source_map),
            diagnostics@.len() >= old(diagnostics)@.len(),
            workspace.wf(),
            view.spans_in(workspace.source_map.len()),
        decreases 2 - pass,
    {
        let selectors = if pass == 0 { &view.includes } else { &view.excludes };
        let mut i: usize = 0;
        while i < selectors.len()
            invariant
                all_in(diagnostics@, &workspace.source_map),
                diagnostics@.len() >= old(diagnostics)@.len(),
                workspace.wf(),
                view.spans_in(workspace.source_map.len()),
                selectors == &view.includes || selectors == &view.excludes,
            decreases selectors.len() - i,
        {
            let selector = &selectors[i];
            assert(crate::model::sp(selector.span, workspace.source_map.len()));
            let value = selector.value.as_str();
            if crate::text::seq_eq(value, "*") || crate::text::seq_eq(value, "*?") {
            } else if selector.expression {
                match crate::expand::relationship_pattern(value) {
                    Some((source, destination)) => {
                        if !crate::text::seq_eq(source.as_str(), "*") && find(workspace, source.as_str()).is_none() {
                            let message = cat3("view relationship expression references undefined element '", source.as_str(), "'");
                            report(diagnostics, &workspace.source_map, Diagnostic::error(selector.span, message));
                        }
                        if !crate::text::seq_eq(destination.as_str(), "*") && find(workspace, destination.as_str()).is_none() {
                            let message = cat3("view relationship expression references undefined element '", destination.as_str(), "'");
                            report(diagnostics, &workspace.source_map, Diagnostic::error(selector.span, message));
                        }
                    },
                    None => {
                        if crate::view_expression::expression_candidate(value) {
                            match crate::view_expression::parse_view_expression(value) {
                                Ok(_) => {},
                                Err(message) => {
                                    let full = cat("unsupported view expression: ", message.as_str());
                                    report(diagnostics, &workspace.source_map, Diagnostic::error(selector.span, full)
                                        .with_help(String::from_str("use tag/type/property comparisons with !, &&, ||, and parentheses")));
                                },
                            }
                        }
                    },
                }
            } else if find(workspace, value).is_none() {
                let message = cat3("view selector '", value, "' is not defined");
                report(diagnostics, &workspace.source_map, Diagnostic::error(selector.span, message)
                    .with_help(String::from_str("use an existing element identifier, wildcard, or supported expression")));
            }
            i = i + 1;
        }
        pass = pass + 1;
    }
    let mut s: usize = 0;
    while s < view.animations.len()
        invariant
            all_in(diagnostics@, &workspace.source_map),
            diagnostics@.len() >= old(diagnostics)@.len(),
            workspace.wf(),
            view.spans_in(workspace.source_map.len()),
        decreases view.animations.len() - s,
    {
        let step = &view.animations[s];
        assert(crate::model::sp(view.animations@[s as int].span, workspace.source_map.len()));
        assert(crate::model::refs_in(step.elements@, workspace.source_map.len()));
        let mut r: usize = 0;
        while r < step.elements.len()
            invariant
                all_in(diagnostics@, &workspace.source_map),
                diagnostics@.len() >= old(diagnostics)@.len(),
                workspace.wf(),
                crate::model::refs_in(step.elements@, workspace.source_map.len()),
            decreases step.elements.len() - r,
        {
            let reference = &step.elements[r];
            assert(crate::model::sp(reference.span, workspace.source_map.len()));
            if find(workspace, reference.identifier.as_str()).is_none() {
                let message = cat3("animation element '", reference.identifier.as_str(), "' is not defined");
                report(diagnostics, &workspace.source_map, Diagnostic::error(reference.span, message));
            }
            r = r + 1;
        }
        s = s + 1;
    }
}

/// Checks that a filtered view is configured and based on a keyed static view.
pub fn validate_filtered_view(workspace: &Workspace, view: &View, diagnostics: &mut Vec<Diagnostic>)
    requires
        all_in(old(diagnostics)@, &workspace.source_map),
        workspace.wf(),
        view.spans_in(workspace.source_map.len()),
    ensures
        all_in(final(diagnostics)@, &workspace.source_map),
        final(diagnostics)@.len() >= old(diagnostics)@.len(),
{
    let filter = match &view.filter {
        Some(filter) => filter,
        None => {
            report(diagnostics, &workspace.source_map, Diagnostic::error(view.span, String::from_str("filtered view configuration is missing")));
            return;
        },
    };
    match crate::expand::view_by_key(workspace, filter.base_key.identifier.as_str()) {
        Some(b) => {
            let base = &workspace.views[b];
            let supported = matches!(base.kind, ViewKind::SystemLandscape | ViewKind::SystemContext | ViewKind::Container
                | ViewKind::Component | ViewKind::ArchiMate);
            if !supported {
                let message = cat5("filtered view base '", filter.base_key.identifier.as_str(), "' has unsupported type ",
                    view_kind_debug(&base.kind), "");
                report(diagnostics, &workspace.source_map, Diagnostic::error(filter.base_key.span, message)
                    .with_help(String::from_str("base a filtered view on a static view")));
            }
        },
        None => {
            let message = cat3("filtered view base '", filter.base_key.identifier.as_str(), "' is not defined");
            report(diagnostics, &workspace.source_map, Diagnostic::error(filter.base_key.span, message)
                .with_help(String::from_str("define a keyed static view before referencing it")));
        },
    }
}

fn same_text(a: &Option<String>, b: &str) -> (r: bool)
    ensures
        r == (crate::archi_layout::text_of(*a) == Some(b@)),
{
    match a {
        Some(x) => crate::text::seq_eq(x.as_str(), b),
        None => false,
    }
}

/// Whether an element may take part in a dynamic view with scope `scope`: with `*`, people
/// and software systems; with a software system, those and its containers; with a container,
/// those, its components and the containers of its software system.
pub open spec fn dynamic_allows(w: Workspace, scope: Option<Seq<char>>, e: Element) -> bool {
    let outer = e.kind == ElementKind::Person || e.kind == ElementKind::SoftwareSystem;
    match scope {
        None => false,
        Some(sc) => if sc == "*"@ {
            outer
        } else {
            match found(w.elements@, sc) {
                Some(s) => match w.elements@[s].kind {
                    ElementKind::SoftwareSystem => outer || (e.kind == ElementKind::Container
                        && crate::archi_layout::text_of(e.parent) == Some(sc)),
                    ElementKind::Container => outer || (e.kind == ElementKind::Component
                        && crate::archi_layout::text_of(e.parent) == Some(sc))
                        || (e.kind == ElementKind::Container
                        && crate::lookup::system_of(w.elements@, e.id@) == crate::lookup::system_of(w.elements@, sc)),
                    _ => false,
                },
                None => false,
            }
        },
    }
}

/// Whether an element may take part in a dynamic view with scope `scope`.
pub(crate) fn dynamic_element_allowed(workspace: &Workspace, scope: &Option<String>, k: usize) -> (r: bool)
    requires
        k < workspace.elements@.len(),
    ensures
        r == dynamic_allows(*workspace, crate::archi_layout::text_of(*scope), workspace.elements@[k as int]),
{
    let element = &workspace.elements[k];
    let scope = match scope {
        Some(scope) => scope,
        None => {
            return false;
        },
    };
    let outer = matches!(element.kind, ElementKind::Person | ElementKind::SoftwareSystem);
    if crate::text::seq_eq(scope.as_str(), "*") {
        return outer;
    }
    match find(workspace, scope.as_str()) {
        Some(s) => match workspace.elements[s].kind {
            ElementKind::SoftwareSystem => outer || (matches!(element.kind, ElementKind::Container) && same_text(&element.parent, scope.as_str())),
            ElementKind::Container => {
                if outer || (matches!(element.kind, ElementKind::Component) && same_text(&element.parent, scope.as_str())) {
                    true
                } else if matches!(element.kind, ElementKind::Container) {
                    let a = crate::lookup::software_system_of(workspace, element.id.as_str());
                    let b = crate::lookup::software_system_of(workspace, scope.as_str());
                    same_environment(&a, &b)
                } else {
                    false
                }
            },
            _ => false,
        },
        None => false,
    }
}

/// Checks a dynamic view's scope and each of its steps.
pub fn validate_dynamic_view(workspace: &Workspace, view: &View, diagnostics: &mut Vec<Diagnostic>)
    requires
        all_in(old(diagnostics)@, &workspace.source_map),
        workspace.wf(),
        view.spans_in(workspace.source_map.len()),
    ensures
        all_in(final(diagnostics)@, &workspace.source_map),
        final(diagnostics)@.len() >= old(diagnostics)@.len(),
{
    let any_scope = same_text(&view.scope, "*");
    if !any_scope {
        let fits = match &view.scope {
            Some(scope) => match find(workspace, scope.as_str()) {
                Some(k) => matches!(workspace.elements[k].kind, ElementKind::SoftwareSystem | ElementKind::Container),
                None => false,
            },
            None => false,
        };
        if !fits {
            let span = match view.scope_span {
                Some(s) => s,
                None => view.span,
            };
            report(diagnostics, &workspace.source_map, Diagnostic::error(span,
                String::from_str("dynamic view scope must be '*', a software system, or a container"))
                .with_help(String::from_str("use a supported dynamic view scope")));
        }
    }
    let mut i: usize = 0;
    while i < view.dynamic_relationships.len()
        invariant
            all_in(diagnostics@, &workspace.source_map),
            diagnostics@.len() >= old(diagnostics)@.len(),
            workspace.wf(),
            view.spans_in(workspace.source_map.len()),
        decreases view.dynamic_relationships.len() - i,
    {
        let instance = &view.dynamic_relationships[i];
        assert(crate::model::sp(view.dynamic_relationships@[i as int].span, workspace.source_map.len()));
        match &instance.relationship {
            Some(reference) => {
                let message = cat3("dynamic relationship identifier '", reference.identifier.as_str(), "' cannot be resolved");
                report(diagnostics, &workspace.source_map, Diagnostic::error(reference.span, message)
                    .with_help(String::from_str("relationship identifiers are not supported; use 'source -> destination'")));
            },
            None => {},
        }
        let mut side: usize = 0;
        while side < 2
            invariant
                all_in(diagnostics@, &workspace.source_map),
                diagnostics@.len() >= old(diagnostics)@.len(),
                workspace.wf(),
                crate::model::opt_ref_in(instance.source, workspace.source_map.len()),
                crate::model::opt_ref_in(instance.destination, workspace.source_map.len()),
            decreases 2 - side,
        {
            let endpoint = if side == 0 { &instance.source } else { &instance.destination };
            match endpoint {
                Some(reference) => {
                    match find(workspace, reference.identifier.as_str()) {
                        Some(k) => {
                            if !dynamic_element_allowed(workspace, &view.scope, k) {
                                let message = cat3("dynamic element '", reference.identifier.as_str(), "' is outside the view scope");
                                report(diagnostics, &workspace.source_map, Diagnostic::error(reference.span, message)
                                    .with_help(String::from_str("use an element permitted by this dynamic view scope")));
                            }
                        },
                        None => {
                            let message = cat3("dynamic element '", reference.identifier.as_str(), "' is not defined");
                            report(diagnostics, &workspace.source_map, Diagnostic::error(reference.span, message));
                        },
                    }
                },
                None => {},
            }
            side = side + 1;
        }
        match (&instance.source, &instance.destination) {
            (Some(source), Some(destination)) => {
                let exist = find(workspace, source.identifier.as_str()).is_some() && find(workspace, destination.identifier.as_str()).is_some();
                if exist {
                    let mut defined = false;
                    let mut r: usize = 0;
                    while r < workspace.relationships.len()
                        invariant
                            r <= workspace.relationships@.len(),
                        decreases workspace.relationships.len() - r,
                    {
                        if crate::text::seq_eq(workspace.relationships[r].source.as_str(), source.identifier.as_str())
                            && crate::text::seq_eq(workspace.relationships[r].destination.as_str(), destination.identifier.as_str()) {
                            defined = true;
                        }
                        r = r + 1;
                    }
                    if !defined {
                        let message = cat5("dynamic relationship '", source.identifier.as_str(), " -> ", destination.identifier.as_str(), "' is not defined in the model");
                        report(diagnostics, &workspace.source_map, Diagnostic::error(instance.span, message)
                            .with_help(String::from_str("define the relationship in the model before using it dynamically")));
                    }
                }
            },
            _ => {},
        }
        i = i + 1;
    }
}

/// Checks a deployment view's scope and environment.
pub fn validate_deployment_view(workspace: &Workspace, view: &View, diagnostics: &mut Vec<Diagnostic>)
    requires
        all_in(old(diagnostics)@, &workspace.source_map),
        workspace.wf(),
        view.spans_in(workspace.source_map.len()),
    ensures
        all_in(final(diagnostics)@, &workspace.source_map),
        final(diagnostics)@.len() >= old(diagnostics)@.len(),
{
    if !same_text(&view.scope, "*") {
        require_kind(workspace, view, ElementKind::SoftwareSystem, "deployment view", diagnostics);
    }
    let valid = match &view.environment {
        Some(environment) => {
            let mut hit = false;
            let mut e: usize = 0;
            while e < workspace.elements.len()
                invariant
                    e <= workspace.elements@.len(),
                decreases workspace.elements.len() - e,
            {
                let element = &workspace.elements[e];
                if matches!(element.kind, ElementKind::DeploymentEnvironment)
                    && (crate::text::seq_eq(element.id.as_str(), environment.identifier.as_str())
                        || crate::text::seq_eq(element.name.as_str(), environment.identifier.as_str())) {
                    hit = true;
                }
                e = e + 1;
            }
            hit
        },
        None => false,
    };
    if !valid {
        let span = match &view.environment {
            Some(item) => item.span,
            None => view.span,
        };
        report(diagnostics, &workspace.source_map, Diagnostic::error(span, String::from_str("deployment view environment is missing or undefined"))
            .with_help(String::from_str("use an existing deployment environment identifier or name")));
    }
}

/// Checks that a custom view includes only generic elements.
pub fn validate_custom_view(workspace: &Workspace, view: &View, diagnostics: &mut Vec<Diagnostic>)
    requires
        all_in(old(diagnostics)@, &workspace.source_map),
        workspace.wf(),
        view.spans_in(workspace.source_map.len()),
    ensures
        all_in(final(diagnostics)@, &workspace.source_map),
        final(diagnostics)@.len() >= old(diagnostics)@.len(),
        final(diagnostics)@.take(old(diagnostics)@.len() as int) == old(diagnostics)@,
        final(diagnostics)@.len() == old(diagnostics)@.len() + non_generic_includes(*workspace, view.includes@),
        forall|i: int| old(diagnostics)@.len() <= i < final(diagnostics)@.len() ==>
            (#[trigger] final(diagnostics)@[i]).message@ == "custom views may include only generic elements"@,
{
    let mut i: usize = 0;
    assert(view.includes@.take(0) =~= Seq::<crate::model::ViewSelector>::empty());
    while i < view.includes.len()
        invariant
            all_in(diagnostics@, &workspace.source_map),
            diagnostics@.len() >= old(diagnostics)@.len(),
            workspace.wf(),
            view.spans_in(workspace.source_map.len()),
            i <= view.includes@.len(),
            diagnostics@.take(old(diagnostics)@.len() as int) == old(diagnostics)@,
            diagnostics@.len() == old(diagnostics)@.len() + non_generic_includes(*workspace, view.includes@.take(i as int)),
            forall|j: int| old(diagnostics)@.len() <= j < diagnostics@.len() ==>
                (#[trigger] diagnostics@[j]).message@ == "custom views may include only generic elements"@,
        decreases view.includes.len() - i,
    {
        assert(view.includes@.take(i + 1).drop_last() =~= view.includes@.take(i as int));
        assert(view.includes@.take(i + 1).last() == view.includes@[i as int]);
        let ghost before = diagnostics@;
        let selector = &view.includes[i];
        assert(crate::model::sp(view.includes@[i as int].span, workspace.source_map.len()));
        if !selector.expression {
            match find(workspace, selector.value.as_str()) {
                Some(k) => {
                    if !matches!(workspace.elements[k].kind, ElementKind::Generic) {
                        report(diagnostics, &workspace.source_map, Diagnostic::error(selector.span,
                            String::from_str("custom views may include only generic elements"))
                            .with_help(String::from_str("use elements declared with the element keyword")));
                        assert(diagnostics@.take(old(diagnostics)@.len() as int) =~= before.take(old(diagnostics)@.len() as int));
                    }
                },
                None => {},
            }
        }
        i = i + 1;
    }
    assert(view.includes@.take(view.includes@.len() as int) =~= view.includes@);
}

/// How many identifier includes of a custom view name an element that is not generic.
pub open spec fn non_generic_includes(w: Workspace, includes: Seq<crate::model::ViewSelector>) -> nat
    decreases includes.len(),
{
    if includes.len() == 0 {
        0
    } else {
        let s = includes.last();
        non_generic_includes(w, includes.drop_last()) + if !s.expression && (match found(w.elements@, s.value@) {
            Some(k) => !(w.elements@[k].kind is Generic),
            None => false,
        }) { 1nat } else { 0nat }
    }
}

/// Checks that an image view's scope, unless `*`, names an element.
pub fn validate_image_view(workspace: &Workspace, view: &View, diagnostics: &mut Vec<Diagnostic>)
    requires
        all_in(old(diagnostics)@, &workspace.source_map),
        workspace.wf(),
        view.spans_in(workspace.source_map.len()),
    ensures
        all_in(final(diagnostics)@, &workspace.source_map),
        final(diagnostics)@.len() >= old(diagnostics)@.len(),
        match view.scope {
            Some(scope) => if scope@ != "*"@ && found(workspace.elements@, scope@) is None {
                final(diagnostics)@.len() == old(diagnostics)@.len() + 1
                    && final(diagnostics)@.drop_last() == old(diagnostics)@
                    && final(diagnostics)@.last().message@ == "image view scope '"@ + scope@ + "' is not defined"@
                    && final(diagnostics)@.last().severity == Severity::Error
            } else {
                final(diagnostics)@ == old(diagnostics)@
            },
            None => final(diagnostics)@ == old(diagnostics)@,
        },
{
    match &view.scope {
        Some(scope) => {
            if !crate::text::seq_eq(scope.as_str(), "*") && find(workspace, scope.as_str()).is_none() {
                let span = match view.scope_span {
                    Some(s) => s,
                    None => view.span,
                };
                let message = cat3("image view scope '", scope.as_str(), "' is not defined");
                report(diagnostics, &workspace.source_map, Diagnostic::error(span, message));
            }
        },
        None => {},
    }
}

/// The viewpoints an ArchiMate view may declare.
pub(crate) fn archimate_viewpoints() -> (r: Vec<&'static str>) {
    vec![
        "introductory", "organization", "applicationCooperation", "applicationUsage",
        "informationStructure", "technology", "technologyUsage", "implementationAndDeployment",
        "motivation", "strategy", "layered", "physical", "migration", "implementationAndMigration",
    ]
}

/// The value of the first `viewpoint` property of a view, if it has one.
pub open spec fn viewpoint_value(view: View) -> Option<Seq<char>> {
    if exists|i: int| 0 <= i < view.properties@.len() && (#[trigger] view.properties@[i]).key@ == "viewpoint"@ {
        let i = choose|i: int| 0 <= i < view.properties@.len() && (#[trigger] view.properties@[i]).key@ == "viewpoint"@
            && forall|j: int| 0 <= j < i ==> (#[trigger] view.properties@[j]).key@ != "viewpoint"@;
        Some(view.properties@[i].value@)
    } else {
        None
    }
}

/// The index of the first `viewpoint` property of a view.
pub fn archimate_viewpoint(view: &View) -> (r: Option<usize>)
    ensures
        match r {
            Some(i) => i < view.properties@.len() && view.properties@[i as int].key@ == "viewpoint"@
                && (forall|j: int| 0 <= j < i ==> (#[trigger] view.properties@[j]).key@ != "viewpoint"@)
                && viewpoint_value(*view) == Some(view.properties@[i as int].value@),
            None => forall|j: int| 0 <= j < view.properties@.len() ==> (#[trigger] view.properties@[j]).key@ != "viewpoint"@,
        },
        r is None <==> viewpoint_value(*view) is None,
{
    proof { reveal_strlit("viewpoint"); }
    let mut i: usize = 0;
    while i < view.properties.len()
        invariant
            i <= view.properties@.len(),
            forall|j: int| 0 <= j < i ==> (#[trigger] view.properties@[j]).key@ != "viewpoint"@,
        decreases view.properties.len() - i,
    {
        if crate::text::seq_eq(view.properties[i].key.as_str(), "viewpoint") {
            proof {
                let k = choose|k: int| 0 <= k < view.properties@.len() && (#[trigger] view.properties@[k]).key@ == "viewpoint"@
                    && forall|j: int| 0 <= j < k ==> (#[trigger] view.properties@[j]).key@ != "viewpoint"@;
                assert(0 <= i < view.properties@.len() && view.properties@[i as int].key@ == "viewpoint"@
                    && forall|j: int| 0 <= j < i ==> (#[trigger] view.properties@[j]).key@ != "viewpoint"@);
                if k < i {
                } else if k > i {
                    assert(view.properties@[i as int].key@ != "viewpoint"@);
                }
                assert(k == i);
            }
            return Some(i);
        }
        i = i + 1;
    }
    None
}

/// The object identifier of an `object.<identifier>.<field>` view property.
/// Where the last `.` of a text ends, or nothing.
pub open spec fn last_dot_end(s: Seq<char>) -> nat
    decreases s.len(),
{
    if s.len() == 0 {
        0
    } else if s.last() == '.' {
        s.len()
    } else {
        last_dot_end(s.drop_last())
    }
}

/// The identifier of an `object.<identifier>.<field>` key: what lies between `object.` and the
/// last `.`, if there is such a `.`.
pub open spec fn object_identifier_of(key: Seq<char>) -> Option<Seq<char>> {
    if !crate::text::has_prefix(key, "object."@) {
        None
    } else {
        let t = key.skip(7);
        if last_dot_end(t) == 0 { None } else { Some(t.take(last_dot_end(t) - 1)) }
    }
}

fn object_identifier(key: &str) -> (r: Option<String>)
    ensures
        crate::archi_layout::text_of(r) == object_identifier_of(key@),
{
    let v = chars_of(key);
    if !crate::text::starts_with(key, "object.") {
        return None;
    }
    proof { reveal_strlit("object."); }
    let ghost t = v@.skip(7);
    let mut last = v.len();
    assert(t.take(last - 7) =~= t);
    while last > 7 && v[last - 1] != '.'
        invariant
            7 <= last <= v@.len(),
            v@ == key@,
            t == v@.skip(7),
            last_dot_end(t) == last_dot_end(t.take(last - 7)),
        decreases last,
    {
        assert(t.take(last - 7).drop_last() =~= t.take(last - 8));
        assert(t.take(last - 7).last() == v@[last - 1]);
        last = last - 1;
    }
    if last > 7 {
        assert(t.take(last - 7).last() == v@[last - 1]);
    }
    if last == 7 {
        return None;
    }
    let r = crate::text::string_of(&v.as_slice()[7..last - 1]);
    assert(r@ =~= t.take(last - 8));
    Some(r)
}

/// The text after the last `.` of a key, or the whole key.
fn last_segment(key: &str) -> (r: String) {
    let v = chars_of(key);
    let mut i = v.len();
    while i > 0 && v[i - 1] != '.'
        invariant
            i <= v@.len(),
        decreases i,
    {
        i = i - 1;
    }
    crate::text::string_of(&v.as_slice()[i..v.len()])
}

/// Checks an ArchiMate view: its viewpoint, and that each object with a manual layout is
/// shown and has sound coordinates and colors.
pub fn validate_archimate_view(workspace: &Workspace, view: &View, diagnostics: &mut Vec<Diagnostic>)
    requires
        all_in(old(diagnostics)@, &workspace.source_map),
        workspace.wf(),
        view.spans_in(workspace.source_map.len()),
    ensures
        all_in(final(diagnostics)@, &workspace.source_map),
        final(diagnostics)@.len() >= old(diagnostics)@.len(),
{
    let expanded = crate::expand::expand_view(workspace, view);
    match archimate_viewpoint(view) {
        Some(i) => {
            assert(crate::model::sp(view.properties@[i as int].span, workspace.source_map.len()));
            validate_enum(&view.properties[i], &archimate_viewpoints(), "ArchiMate viewpoint", diagnostics, &workspace.source_map);
        },
        None => {},
    }
    let mut seen: Vec<String> = Vec::new();
    let mut i: usize = 0;
    while i < view.properties.len()
        invariant
            all_in(diagnostics@, &workspace.source_map),
            diagnostics@.len() >= old(diagnostics)@.len(),
            workspace.wf(),
            view.spans_in(workspace.source_map.len()),
        decreases view.properties.len() - i,
    {
        let property = &view.properties[i];
        assert(crate::model::sp(view.properties@[i as int].span, workspace.source_map.len()));
        match object_identifier(property.key.as_str()) {
            Some(identifier) => {
                let mut first = true;
                let mut q: usize = 0;
                while q < seen.len()
                    invariant
                        q <= seen@.len(),
                    decreases seen.len() - q,
                {
                    if crate::text::seq_eq(seen[q].as_str(), identifier.as_str()) {
                        first = false;
                    }
                    q = q + 1;
                }
                if first {
                    if !expanded.contains(identifier.as_str()) {
                        let message = cat3("archimateView object '", identifier.as_str(), "' is not included in the view");
                        report(diagnostics, &workspace.source_map, Diagnostic::error(property.span, message)
                            .with_help(String::from_str("include the element before defining manual layout for it")));
                    }
                    seen.push(identifier);
                }
                let field = last_segment(property.key.as_str());
                let f = field.as_str();
                if crate::text::seq_eq(f, "x") || crate::text::seq_eq(f, "y") || crate::text::seq_eq(f, "width")
                    || crate::text::seq_eq(f, "height") || crate::text::seq_eq(f, "fontSize") {
                    validate_integer(property, Some((0, 2147483647)), diagnostics, &workspace.source_map);
                } else if crate::text::seq_eq(f, "background") || crate::text::seq_eq(f, "color") || crate::text::seq_eq(f, "stroke") {
                    validate_hex_color(property, diagnostics, &workspace.source_map);
                }
            },
            None => {},
        }
        i = i + 1;
    }
}

/// Checks ArchiMate attributes of elements and relationships: colors, sizes, junction kinds,
/// relationship types, styles and access directions.
pub fn validate_archimate_metadata(workspace: &Workspace, diagnostics: &mut Vec<Diagnostic>)
    requires
        all_in(old(diagnostics)@, &workspace.source_map),
        workspace.wf(),
    ensures
        all_in(final(diagnostics)@, &workspace.source_map),
        final(diagnostics)@.len() >= old(diagnostics)@.len(),
        bare(*workspace) ==> final(diagnostics)@ == old(diagnostics)@,
{
    let mut e: usize = 0;
    while e < workspace.elements.len()
        invariant
            bare(*workspace) ==> diagnostics@ == old(diagnostics)@,
            all_in(diagnostics@, &workspace.source_map),
            diagnostics@.len() >= old(diagnostics)@.len(),
            workspace.wf(),
        decreases workspace.elements.len() - e,
    {
        let element = &workspace.elements[e];
        assert(workspace.elements@[e as int].spans_in(workspace.source_map.len()));
        let mut i: usize = 0;
        while i < element.attributes.len()
            invariant
                all_in(diagnostics@, &workspace.source_map),
                diagnostics@.len() >= old(diagnostics)@.len(),
                workspace.wf(),
                crate::model::props_in(element.attributes@, workspace.source_map.len()),
            decreases element.attributes.len() - i,
        {
            let property = &element.attributes[i];
            assert(crate::model::sp(element.attributes@[i as int].span, workspace.source_map.len()));
            let k = property.key.as_str();
            if crate::text::seq_eq(k, "background") || crate::text::seq_eq(k, "color") || crate::text::seq_eq(k, "stroke") {
                validate_hex_color(property, diagnostics, &workspace.source_map);
            } else if crate::text::seq_eq(k, "fontSize") || crate::text::seq_eq(k, "width") || crate::text::seq_eq(k, "height") {
                validate_integer(property, Some((0, 2147483647)), diagnostics, &workspace.source_map);
            } else if crate::text::seq_eq(k, "kind") {
                validate_enum(property, &vec!["and", "or"], "junction kind", diagnostics, &workspace.source_map);
            }
            i = i + 1;
        }
        e = e + 1;
    }
    let mut r: usize = 0;
    while r < workspace.relationships.len()
        invariant
            bare(*workspace) ==> diagnostics@ == old(diagnostics)@,
            all_in(diagnostics@, &workspace.source_map),
            diagnostics@.len() >= old(diagnostics)@.len(),
            workspace.wf(),
        decreases workspace.relationships.len() - r,
    {
        let relationship = &workspace.relationships[r];
        assert(workspace.relationships@[r as int].spans_in(workspace.source_map.len()));
        let mut i: usize = 0;
        while i < relationship.attributes.len()
            invariant
                all_in(diagnostics@, &workspace.source_map),
                diagnostics@.len() >= old(diagnostics)@.len(),
                workspace.wf(),
                crate::model::props_in(relationship.attributes@, workspace.source_map.len()),
            decreases relationship.attributes.len() - i,
        {
            let property = &relationship.attributes[i];
            assert(crate::model::sp(relationship.attributes@[i as int].span, workspace.source_map.len()));
            let k = property.key.as_str();
            if crate::text::seq_eq(k, "type") {
                if crate::archimate::archimate_relationship_type(property.value.as_str()).is_none() {
                    let message = cat3("unknown ArchiMate relationship type '", property.value.as_str(), "'");
                    report(diagnostics, &workspace.source_map, Diagnostic::error(property.span, message)
                        .with_help(String::from_str("use FlowRelationship, AccessRelationship, ServingRelationship, or another supported ArchiMate relationship type")));
                }
            } else if crate::text::seq_eq(k, "color") {
                validate_hex_color(property, diagnostics, &workspace.source_map);
            } else if crate::text::seq_eq(k, "thickness") {
                validate_integer(property, Some((0, 2147483647)), diagnostics, &workspace.source_map);
            } else if crate::text::seq_eq(k, "style") {
                validate_enum(property, &vec!["solid", "dashed", "dotted"], "relationship style", diagnostics, &workspace.source_map);
            } else if crate::text::seq_eq(k, "access") {
                validate_enum(property, &vec!["read", "write", "readWrite", "access"], "AccessRelationship direction", diagnostics, &workspace.source_map);
            }
            i = i + 1;
        }
        r = r + 1;
    }
}

/// The ArchiMate layer of an element kind: its type's layer for an ArchiMate kind, `other`
/// for generic and deployment groupings.
pub open spec fn kind_layer(kind: ElementKind) -> Seq<char> {
    match kind {
        ElementKind::Person => "business"@,
        ElementKind::SoftwareSystem | ElementKind::Container | ElementKind::Component
        | ElementKind::SoftwareSystemInstance | ElementKind::ContainerInstance => "application"@,
        ElementKind::DeploymentNode | ElementKind::InfrastructureNode => "technology"@,
        ElementKind::ArchiMate(native) => match crate::archimate::spec_type_by_native(native@) {
            Some(t) => t.layer@,
            None => "other"@,
        },
        _ => "other"@,
    }
}

/// The ArchiMate role of an element kind: its type's role for an ArchiMate kind, `composite`
/// for generic and deployment groupings.
pub open spec fn kind_role(kind: ElementKind) -> Seq<char> {
    match kind {
        ElementKind::Person | ElementKind::SoftwareSystem | ElementKind::Container | ElementKind::Component
        | ElementKind::SoftwareSystemInstance | ElementKind::ContainerInstance | ElementKind::DeploymentNode
        | ElementKind::InfrastructureNode => "active"@,
        ElementKind::ArchiMate(native) => match crate::archimate::spec_type_by_native(native@) {
            Some(t) => t.role@,
            None => "composite"@,
        },
        _ => "composite"@,
    }
}

/// The ArchiMate layer an element kind belongs to.
pub fn element_archimate_layer(kind: &ElementKind) -> (r: &'static str)
    ensures
        r@ == kind_layer(*kind),
{
    match kind {
        ElementKind::Person => "business",
        ElementKind::SoftwareSystem | ElementKind::Container | ElementKind::Component
        | ElementKind::SoftwareSystemInstance | ElementKind::ContainerInstance => "application",
        ElementKind::DeploymentNode | ElementKind::InfrastructureNode => "technology",
        ElementKind::ArchiMate(native) => match crate::archimate::archimate_element_layer(native) {
            Some(layer) => layer,
            None => "other",
        },
        _ => "other",
    }
}

/// The ArchiMate role (active, behavior, passive, ...) of an element kind.
pub fn element_archimate_role(kind: &ElementKind) -> (r: &'static str)
    ensures
        r@ == kind_role(*kind),
{
    match kind {
        ElementKind::Person | ElementKind::SoftwareSystem | ElementKind::Container | ElementKind::Component
        | ElementKind::SoftwareSystemInstance | ElementKind::ContainerInstance | ElementKind::DeploymentNode
        | ElementKind::InfrastructureNode => "active",
        ElementKind::ArchiMate(native) => match crate::archimate::archimate_element_role(native) {
            Some(role) => role,
            None => "composite",
        },
        _ => "composite",
    }
}

/// A semantic finding: an error under `strict`, else a warning with `help`.
fn semantic_diagnostic(span: Span, message: String, help: &str, strict: bool) -> (d: Diagnostic)
    ensures
        d.span == span,
        d.severity == if strict { Severity::Error } else { Severity::Warning },
{
    if strict {
        Diagnostic::error(span, message).with_help(String::from_str(
            "fix the ArchiMate relationship/viewpoint or run without --strict to keep this as a warning"))
    } else {
        Diagnostic::warning(span, message).with_help(String::from_str(help))
    }
}

fn is(s: &str, t: &str) -> (r: bool)
    ensures
        r == (s@ == t@),
{
    crate::text::seq_eq(s, t)
}

/// ArchiMate conformance findings for relationships between ArchiMate elements (or of an
/// ArchiMate type), and for ArchiMate views whose viewpoint layer they lack.
pub fn archimate_semantic_diagnostics(workspace: &Workspace, strict: bool) -> (r: Vec<Diagnostic>)
    requires
        workspace.wf(),
    ensures
        all_in(r@, &workspace.source_map),
        forall|i: int| 0 <= i < r@.len() ==> (#[trigger] r@[i]).severity == if strict { Severity::Error } else { Severity::Warning },
        bare(*workspace) ==> r@.len() == 0,
{
    let mut diagnostics: Vec<Diagnostic> = Vec::new();
    let mut index: usize = 0;
    while index < workspace.relationships.len()
        invariant
            bare(*workspace) ==> diagnostics@.len() == 0,
            all_in(diagnostics@, &workspace.source_map),
            forall|i: int| 0 <= i < diagnostics@.len() ==> (#[trigger] diagnostics@[i]).severity == if strict { Severity::Error } else { Severity::Warning },
            workspace.wf(),
        decreases workspace.relationships.len() - index,
    {
        let relationship = &workspace.relationships[index];
        assert(workspace.relationships@[index as int].spans_in(workspace.source_map.len()));
        let s = find(workspace, relationship.source.as_str());
        let d = find(workspace, relationship.destination.as_str());
        match (s, d) {
            (Some(s), Some(d)) => {
                let source = &workspace.elements[s];
                let destination = &workspace.elements[d];
                let typed = crate::archimate::relationship_archimate_type(relationship);
                let mentions = typed.is_some() || matches!(source.kind, ElementKind::ArchiMate(_))
                    || matches!(destination.kind, ElementKind::ArchiMate(_));
                if mentions {
                    let kind = match typed {
                        Some(t) => t,
                        None => "AssociationRelationship",
                    };
                    let source_layer = element_archimate_layer(&source.kind);
                    let target_layer = element_archimate_layer(&destination.kind);
                    let source_role = element_archimate_role(&source.kind);
                    let target_role = element_archimate_role(&destination.kind);
                    let problem: Option<String> = if is(kind, "AccessRelationship") && !(is(target_role, "passive") || is(target_role, "junction")) {
                        Some(cat5("AccessRelationship from '", source.id.as_str(), "' targets '", destination.id.as_str(), "', which is not passive structure"))
                    } else if is(kind, "AccessRelationship") && crate::archimate::relationship_access_direction(relationship).is_none() {
                        Some(String::from_str("AccessRelationship has no access direction; default ArchiMate access is ambiguous"))
                    } else if is(kind, "AssignmentRelationship") && !(is(source_role, "active") || is(source_role, "junction")) {
                        Some(cat3("AssignmentRelationship source '", source.id.as_str(), "' is not active structure"))
                    } else if is(kind, "InfluenceRelationship") && !(is(source_layer, "motivation") || is(source_layer, "strategy"))
                        && !(is(target_layer, "motivation") || is(target_layer, "strategy")) {
                        Some(cat5("InfluenceRelationship usually connects motivation or strategy elements, not '", source.id.as_str(),
                            "' to '", destination.id.as_str(), "'"))
                    } else if (is(kind, "FlowRelationship") || is(kind, "TriggeringRelationship") || is(kind, "ServingRelationship"))
                        && (is(source_layer, "motivation") || is(target_layer, "motivation")) {
                        Some(cat(kind, " between motivation and non-behavior elements is questionable"))
                    } else {
                        None
                    };
                    match problem {
                        Some(message) => {
                            diagnostics.push(semantic_diagnostic(relationship.span, message,
                                "use --strict to make ArchiMate semantic conformance issues fatal", strict));
                        },
                        None => {},
                    }
                }
            },
            _ => {},
        }
        index = index + 1;
    }
    let mut v: usize = 0;
    while v < workspace.views.len()
        invariant
            bare(*workspace) ==> diagnostics@.len() == 0,
            all_in(diagnostics@, &workspace.source_map),
            forall|i: int| 0 <= i < diagnostics@.len() ==> (#[trigger] diagnostics@[i]).severity == if strict { Severity::Error } else { Severity::Warning },
            workspace.wf(),
        decreases workspace.views.len() - v,
    {
        let view = &workspace.views[v];
        assert(workspace.views@[v as int].spans_in(workspace.source_map.len()));
        if matches!(view.kind, ViewKind::ArchiMate) {
            match archimate_viewpoint(view) {
                Some(p) => {
                    let viewpoint = &view.properties[p];
                    assert(crate::model::sp(view.properties@[p as int].span, workspace.source_map.len()));
                    let value = viewpoint.value.as_str();
                    let expected: Option<&str> = if is(value, "organization") {
                        Some("business")
                    } else if is(value, "applicationCooperation") || is(value, "applicationUsage") || is(value, "informationStructure") {
                        Some("application")
                    } else if is(value, "technology") || is(value, "technologyUsage") {
                        Some("technology")
                    } else if is(value, "motivation") {
                        Some("motivation")
                    } else if is(value, "strategy") {
                        Some("strategy")
                    } else if is(value, "physical") {
                        Some("physical")
                    } else if is(value, "implementationAndDeployment") || is(value, "implementationAndMigration") || is(value, "migration") {
                        Some("implementation_migration")
                    } else {
                        None
                    };
                    match expected {
                        Some(layer) => {
                            let graph = crate::expand::expand_view(workspace, view);
                            let mut present = false;
                            let mut e: usize = 0;
                            while e < graph.elements.len()
                                invariant
                                    e <= graph.elements@.len(),
                                decreases graph.elements.len() - e,
                            {
                                match find(workspace, graph.elements[e].as_str()) {
                                    Some(k) => {
                                        if is(element_archimate_layer(&workspace.elements[k].kind), layer) {
                                            present = true;
                                        }
                                    },
                                    None => {},
                                }
                                e = e + 1;
                            }
                            if !present {
                                let message = cat5("archimateView viewpoint '", value, "' contains no ", layer, " elements");
                                diagnostics.push(semantic_diagnostic(viewpoint.span, message,
                                    "change the viewpoint or include elements from the expected ArchiMate layer", strict));
                            }
                        },
                        None => {},
                    }
                },
                None => {},
            }
        }
        v = v + 1;
    }
    diagnostics
}

/// The shapes an element style may name.
pub(crate) fn element_shapes() -> (r: Vec<&'static str>)
    ensures
        r@ == shape_names(),
{
    vec![
        "box", "roundedbox", "circle", "ellipse", "hexagon", "diamond", "cylinder", "bucket", "pipe",
        "person", "robot", "folder", "webbrowser", "window", "terminal", "shell",
        "mobiledeviceportrait", "mobiledevicelandscape", "component",
    ]
}

/// The shapes an element style may name.
pub open spec fn shape_names() -> Seq<&'static str> {
    seq![
        "box", "roundedbox", "circle", "ellipse", "hexagon", "diamond", "cylinder", "bucket", "pipe",
        "person", "robot", "folder", "webbrowser", "window", "terminal", "shell",
        "mobiledeviceportrait", "mobiledevicelandscape", "component",
    ]
}

/// Whether an integer text is in range, when a range is given.
pub open spec fn integer_fits(value: Seq<char>, range: Option<(int, int)>) -> bool {
    match parsed_i32(value) {
        Some(v) => match range { Some((a, b)) => a <= v <= b, None => true },
        None => false,
    }
}

/// Whether an element style value is refused: a shape, border or flag outside its values, or
/// a number that does not read or is out of range.
pub open spec fn element_style_invalid(p: Property) -> bool {
    let k = p.key@;
    if k == "shape"@ { !one_of(p.value@, shape_names()) }
    else if k == "border"@ { !one_of(p.value@, seq!["solid", "dashed", "dotted"]) }
    else if k == "metadata"@ || k == "description"@ { !one_of(p.value@, seq!["true", "false"]) }
    else if k == "strokeWidth"@ { !integer_fits(p.value@, Some((1, 10))) }
    else if k == "opacity"@ { !integer_fits(p.value@, Some((0, 100))) }
    else if k == "width"@ || k == "height"@ || k == "fontSize"@ { !integer_fits(p.value@, None) }
    else { false }
}

/// Whether a relationship style value is refused.
pub open spec fn relationship_style_invalid(p: Property) -> bool {
    let k = p.key@;
    if k == "style"@ { !one_of(p.value@, seq!["solid", "dashed", "dotted"]) }
    else if k == "routing"@ { !one_of(p.value@, seq!["direct", "orthogonal", "curved"]) }
    else if k == "jump"@ { !one_of(p.value@, seq!["true", "false"]) }
    else if k == "position"@ || k == "opacity"@ { !integer_fits(p.value@, Some((0, 100))) }
    else if k == "thickness"@ || k == "fontSize"@ || k == "width"@ { !integer_fits(p.value@, None) }
    else { false }
}

/// Checks one element style value.
fn validate_element_style_value(property: &Property, diagnostics: &mut Vec<Diagnostic>, sources: &SourceMap)
    requires
        all_in(old(diagnostics)@, sources),
        sources.has(property.span),
    ensures
        all_in(final(diagnostics)@, sources),
        final(diagnostics)@.len() >= old(diagnostics)@.len(),
        final(diagnostics)@.take(old(diagnostics)@.len() as int) == old(diagnostics)@,
        final(diagnostics)@.len() == old(diagnostics)@.len() + if element_style_invalid(*property) { 1int } else { 0int },
{
    let k = property.key.as_str();
    if is(k, "shape") {
        validate_enum(property, &element_shapes(), "shape", diagnostics, sources);
    } else if is(k, "border") {
        validate_enum(property, &vec!["solid", "dashed", "dotted"], "border", diagnostics, sources);
    } else if is(k, "metadata") || is(k, "description") {
        validate_enum(property, &vec!["true", "false"], "boolean", diagnostics, sources);
    } else if is(k, "strokeWidth") {
        validate_integer(property, Some((1, 10)), diagnostics, sources);
    } else if is(k, "opacity") {
        validate_integer(property, Some((0, 100)), diagnostics, sources);
    } else if is(k, "width") || is(k, "height") || is(k, "fontSize") {
        validate_integer(property, None, diagnostics, sources);
    }
}

/// Checks one relationship style value.
fn validate_relationship_style_value(property: &Property, diagnostics: &mut Vec<Diagnostic>, sources: &SourceMap)
    requires
        all_in(old(diagnostics)@, sources),
        sources.has(property.span),
    ensures
        all_in(final(diagnostics)@, sources),
        final(diagnostics)@.len() >= old(diagnostics)@.len(),
        final(diagnostics)@.take(old(diagnostics)@.len() as int) == old(diagnostics)@,
        final(diagnostics)@.len() == old(diagnostics)@.len() + if relationship_style_invalid(*property) { 1int } else { 0int },
{
    let k = property.key.as_str();
    if is(k, "style") {
        validate_enum(property, &vec!["solid", "dashed", "dotted"], "relationship style", diagnostics, sources);
    } else if is(k, "routing") {
        validate_enum(property, &vec!["direct", "orthogonal", "curved"], "routing", diagnostics, sources);
    } else if is(k, "jump") {
        validate_enum(property, &vec!["true", "false"], "boolean", diagnostics, sources);
    } else if is(k, "position") || is(k, "opacity") {
        validate_integer(property, Some((0, 100)), diagnostics, sources);
    } else if is(k, "thickness") || is(k, "fontSize") || is(k, "width") {
        validate_integer(property, None, diagnostics, sources);
    }
}

/// Checks style values and the terminology's metadata mode.
pub fn validate_styles(workspace: &Workspace, diagnostics: &mut Vec<Diagnostic>)
    requires
        all_in(old(diagnostics)@, &workspace.source_map),
        workspace.wf(),
    ensures
        all_in(final(diagnostics)@, &workspace.source_map),
        final(diagnostics)@.len() >= old(diagnostics)@.len(),
        bare(*workspace) ==> final(diagnostics)@ == old(diagnostics)@,
        final(diagnostics)@.take(old(diagnostics)@.len() as int) == old(diagnostics)@,
        final(diagnostics)@.len() == old(diagnostics)@.len() + style_problems(*workspace),
{
    let ghost n0 = diagnostics@.len();
    let mut s: usize = 0;
    assert(workspace.element_styles@.take(0) =~= Seq::<crate::model::ElementStyle>::empty());
    while s < workspace.element_styles.len()
        invariant
            bare(*workspace) ==> diagnostics@ == old(diagnostics)@,
            all_in(diagnostics@, &workspace.source_map),
            diagnostics@.len() >= old(diagnostics)@.len(),
            workspace.wf(),
            s <= workspace.element_styles@.len(),
            n0 == old(diagnostics)@.len(),
            diagnostics@.take(n0 as int) == old(diagnostics)@,
            diagnostics@.len() == n0 + element_style_problems(workspace.element_styles@.take(s as int)),
        decreases workspace.element_styles.len() - s,
    {
        let style = &workspace.element_styles[s];
        assert(workspace.element_styles@.take(s + 1).drop_last() =~= workspace.element_styles@.take(s as int));
        assert(workspace.element_styles@.take(s + 1).last() == *style);
        assert(crate::model::sp(workspace.element_styles@[s as int].span, workspace.source_map.len()));
        let ghost m0 = diagnostics@.len();
        let mut i: usize = 0;
        assert(style.values@.take(0) =~= Seq::<Property>::empty());
        while i < style.values.len()
            invariant
                all_in(diagnostics@, &workspace.source_map),
                diagnostics@.len() >= old(diagnostics)@.len(),
                crate::model::props_in(style.values@, workspace.source_map.len()),
                i <= style.values@.len(),
                n0 == old(diagnostics)@.len(),
                m0 >= n0,
                diagnostics@.take(n0 as int) == old(diagnostics)@,
                diagnostics@.len() == m0 + invalid_element_values(style.values@.take(i as int)),
            decreases style.values.len() - i,
        {
            assert(style.values@.take(i + 1).drop_last() =~= style.values@.take(i as int));
            assert(style.values@.take(i + 1).last() == style.values@[i as int]);
            assert(crate::model::sp(style.values@[i as int].span, workspace.source_map.len()));
            let ghost before = diagnostics@;
            validate_element_style_value(&style.values[i], diagnostics, &workspace.source_map);
            assert(diagnostics@.take(n0 as int) =~= before.take(n0 as int));
            i = i + 1;
        }
        assert(style.values@.take(style.values@.len() as int) =~= style.values@);
        s = s + 1;
    }
    assert(workspace.element_styles@.take(workspace.element_styles@.len() as int) =~= workspace.element_styles@);
    let ghost n1 = diagnostics@.len();
    let mut s: usize = 0;
    assert(workspace.relationship_styles@.take(0) =~= Seq::<crate::model::RelationshipStyle>::empty());
    while s < workspace.relationship_styles.len()
        invariant
            bare(*workspace) ==> diagnostics@ == old(diagnostics)@,
            all_in(diagnostics@, &workspace.source_map),
            diagnostics@.len() >= old(diagnostics)@.len(),
            workspace.wf(),
            s <= workspace.relationship_styles@.len(),
            n0 == old(diagnostics)@.len(),
            n1 == n0 + element_style_problems(workspace.element_styles@),
            diagnostics@.take(n0 as int) == old(diagnostics)@,
            diagnostics@.len() == n1 + relationship_style_problems(workspace.relationship_styles@.take(s as int)),
        decreases workspace.relationship_styles.len() - s,
    {
        let style = &workspace.relationship_styles[s];
        assert(workspace.relationship_styles@.take(s + 1).drop_last() =~= workspace.relationship_styles@.take(s as int));
        assert(workspace.relationship_styles@.take(s + 1).last() == *style);
        assert(crate::model::sp(workspace.relationship_styles@[s as int].span, workspace.source_map.len()));
        let ghost m0 = diagnostics@.len();
        let mut i: usize = 0;
        assert(style.values@.take(0) =~= Seq::<Property>::empty());
        while i < style.values.len()
            invariant
                all_in(diagnostics@, &workspace.source_map),
                diagnostics@.len() >= old(diagnostics)@.len(),
                crate::model::props_in(style.values@, workspace.source_map.len()),
                i <= style.values@.len(),
                n0 == old(diagnostics)@.len(),
                m0 >= n0,
                diagnostics@.take(n0 as int) == old(diagnostics)@,
                diagnostics@.len() == m0 + invalid_relationship_values(style.values@.take(i as int)),
            decreases style.values.len() - i,
        {
            assert(style.values@.take(i + 1).drop_last() =~= style.values@.take(i as int));
            assert(style.values@.take(i + 1).last() == style.values@[i as int]);
            assert(crate::model::sp(style.values@[i as int].span, workspace.source_map.len()));
            let ghost before = diagnostics@;
            validate_relationship_style_value(&style.values[i], diagnostics, &workspace.source_map);
            assert(diagnostics@.take(n0 as int) =~= before.take(n0 as int));
            i = i + 1;
        }
        assert(style.values@.take(style.values@.len() as int) =~= style.values@);
        s = s + 1;
    }
    assert(workspace.relationship_styles@.take(workspace.relationship_styles@.len() as int) =~= workspace.relationship_styles@);
    proof { reveal_strlit("metadata"); }
    match crate::archimate::last_property_index(&workspace.terminology, "metadata") {
        Some(t) => {
            let property = &workspace.terminology[t];
            assert(crate::model::sp(workspace.terminology@[t as int].span, workspace.source_map.len()));
            let ghost before = diagnostics@;
            validate_enum(property, &vec!["square", "round", "curly", "angle", "double-angle", "none"], "metadata mode",
                diagnostics, &workspace.source_map);
            assert(diagnostics@.take(n0 as int) =~= before.take(n0 as int));
        },
        None => {},
    }
}

/// How many values of the styles are refused, style by style.
pub open spec fn invalid_element_values(values: Seq<Property>) -> nat
    decreases values.len(),
{
    if values.len() == 0 { 0 } else {
        invalid_element_values(values.drop_last()) + if element_style_invalid(values.last()) { 1nat } else { 0nat }
    }
}

/// How many relationship style values are refused.
pub open spec fn invalid_relationship_values(values: Seq<Property>) -> nat
    decreases values.len(),
{
    if values.len() == 0 { 0 } else {
        invalid_relationship_values(values.drop_last()) + if relationship_style_invalid(values.last()) { 1nat } else { 0nat }
    }
}

/// How many element style values are refused over all element styles.
pub open spec fn element_style_problems(styles: Seq<crate::model::ElementStyle>) -> nat
    decreases styles.len(),
{
    if styles.len() == 0 { 0 } else {
        element_style_problems(styles.drop_last()) + invalid_element_values(styles.last().values@)
    }
}

/// How many relationship style values are refused over all relationship styles.
pub open spec fn relationship_style_problems(styles: Seq<crate::model::RelationshipStyle>) -> nat
    decreases styles.len(),
{
    if styles.len() == 0 { 0 } else {
        relationship_style_problems(styles.drop_last()) + invalid_relationship_values(styles.last().values@)
    }
}

/// How many problems the styles have: refused element and relationship style values, and a
/// metadata mode (the last one given) that is not one of its values.
pub open spec fn style_problems(w: Workspace) -> nat {
    element_style_problems(w.element_styles@) + relationship_style_problems(w.relationship_styles@)
        + match crate::archimate::last_attribute(w.terminology@, "metadata"@) {
            Some(v) => if one_of(v, seq!["square", "round", "curly", "angle", "double-angle", "none"]) { 0nat } else { 1nat },
            None => 0nat,
        }
}

/// No two elements share an identifier.
pub open spec fn unique_ids(w: Workspace) -> bool {
    forall|i: int, j: int| 0 <= i < j < w.elements@.len() ==> (#[trigger] w.elements@[i]).id@ != (#[trigger] w.elements@[j]).id@
}

/// Every element stands in a parent that may hold it.
pub open spec fn parents_fit(w: Workspace) -> bool {
    forall|i: int| 0 <= i < w.elements@.len() ==> parent_fits((#[trigger] w.elements@[i]).kind, parent_kind(w, w.elements@[i]))
}

/// What an element refers to is declared before it, and only the elements that may carry
/// instances, health checks and instance references do.
pub open spec fn references_fit(w: Workspace) -> bool {
    forall|i: int| 0 <= i < w.elements@.len() ==> {
        let e = #[trigger] w.elements@[i];
        &&& (e.instances is Some ==> e.kind is DeploymentNode)
        &&& (e.reference matches Some(r) ==> prior(w, r.identifier@, e.order))
        &&& (e.instance_of matches Some(r) ==> prior(w, r.identifier@, e.order))
        &&& (e.health_checks@.len() > 0 ==> (e.kind is SoftwareSystemInstance || e.kind is ContainerInstance))
    }
}

/// Both endpoints of every relationship name elements declared before it.
pub open spec fn endpoints_prior(w: Workspace) -> bool {
    forall|i: int| 0 <= i < w.relationships@.len() ==> {
        let r = #[trigger] w.relationships@[i];
        prior(w, r.source@, r.order) && prior(w, r.destination@, r.order)
    }
}

/// No two relationships share an identifier.
pub open spec fn unique_relationship_ids(w: Workspace) -> bool {
    forall|i: int, j: int| 0 <= i < j < w.relationships@.len() ==>
        !((#[trigger] w.relationships@[i]).id matches Some(a) && (#[trigger] w.relationships@[j]).id matches Some(b) && a@ == b@)
}

/// Relationship `c` is one that removal `m` can remove: declared before it, with its source and
/// destination and, where the removal gives one, its description.
pub open spec fn removes(m: crate::model::RemovedRelationship, c: crate::model::Relationship) -> bool {
    &&& c.order < m.order
    &&& c.source@ == m.source@
    &&& c.destination@ == m.destination@
    &&& (m.description matches Some(d) ==> (c.description matches Some(x) && x@ == d@))
}

/// Some relationship of `w` is one that removal `k` can remove.
pub open spec fn removal_matched(w: Workspace, k: int) -> bool {
    exists|q: int| 0 <= q < w.relationships@.len() && removes(w.removed_relationships@[k], #[trigger] w.relationships@[q])
}

/// Every relationship removal names an earlier relationship.
pub open spec fn removals_matched(w: Workspace) -> bool {
    forall|k: int| 0 <= k < w.removed_relationships@.len() ==> #[trigger] removal_matched(w, k)
}

/// The text of a list of diagnostics, each rendered against its source file, blank lines between.
pub open spec fn report_text(ds: Seq<Diagnostic>, sources: SourceMap) -> Seq<char> {
    crate::diagnostic::joined(Seq::new(ds.len(), |i: int| crate::diagnostic::rendered(sources.file(ds[i].span.source_id.0 as int), &ds[i])), "\n\n"@)
}

/// No two views share a key.
pub open spec fn unique_view_keys(w: Workspace) -> bool {
    forall|i: int, j: int| 0 <= i < j < w.views@.len() ==>
        !((#[trigger] w.views@[i]).key matches Some(a) && (#[trigger] w.views@[j]).key matches Some(b) && a@ == b@)
}

/// `path:line:column` of a span.
fn place(sources: &SourceMap, span: Span) -> (r: String)
    requires
        sources.wf(),
        sources.has(span),
{
    let source = sources.get(span.source_id);
    proof { sources.lemma_file(span.source_id.0 as int); }
    let (line, column) = source.line_column(span.start);
    cat5(source.path.as_str(), ":", usize_to_string(line).as_str(), ":", usize_to_string(column).as_str())
}

/// The last element before `j` with the identifier of element `j`.
fn earlier_same_id(workspace: &Workspace, j: usize) -> (r: Option<usize>)
    requires
        j < workspace.elements@.len(),
    ensures
        match r {
            Some(i) => i < j && workspace.elements@[i as int].id@ == workspace.elements@[j as int].id@,
            None => forall|i: int| 0 <= i < j ==> (#[trigger] workspace.elements@[i]).id@ != workspace.elements@[j as int].id@,
        },
{
    let mut i = j;
    while i > 0
        invariant
            i <= j < workspace.elements@.len(),
            forall|q: int| i <= q < j ==> (#[trigger] workspace.elements@[q]).id@ != workspace.elements@[j as int].id@,
        decreases i,
    {
        if crate::text::seq_eq(workspace.elements[i - 1].id.as_str(), workspace.elements[j].id.as_str()) {
            return Some(i - 1);
        }
        i = i - 1;
    }
    None
}

/// Validates with default options.
pub fn validate(workspace: &Workspace) -> (r: Result<(), String>)
    requires
        workspace.wf(),
    ensures
        bare(*workspace) ==> r is Ok,
        r is Ok ==> {
            &&& unique_ids(*workspace)
            &&& parents_fit(*workspace)
            &&& references_fit(*workspace)
            &&& forall|k: int| 0 <= k < workspace.elements@.len() ==> #[trigger] element_references_fit(*workspace, k)
            &&& endpoints_prior(*workspace)
            &&& unique_relationship_ids(*workspace)
            &&& removals_matched(*workspace)
            &&& unique_view_keys(*workspace)
        },
        r matches Err(m) ==> exists|ds: Seq<Diagnostic>| ds.len() > 0 && all_in(ds, &workspace.source_map)
            && m@ == report_text(ds, workspace.source_map),
{
    validate_with_options(workspace, crate::model::ValidationOptions { strict_archimate: false })
}

/// A workspace with no elements, relationships, removed relationships, views, groups, styles or
/// terminology: nothing in it can be wrong.
pub open spec fn bare(w: Workspace) -> bool {
    &&& w.elements@.len() == 0
    &&& w.relationships@.len() == 0
    &&& w.removed_relationships@.len() == 0
    &&& w.views@.len() == 0
    &&& w.groups@.len() == 0
    &&& w.element_styles@.len() == 0
    &&& w.relationship_styles@.len() == 0
    &&& w.terminology@.len() == 0
}

/// Checks the model, views, ArchiMate data and styles; all problems come back rendered
/// together. `strict_archimate` makes ArchiMate conformance findings errors.
pub fn validate_with_options(workspace: &Workspace, options: crate::model::ValidationOptions) -> (r: Result<(), String>)
    requires
        workspace.wf(),
    ensures
        bare(*workspace) ==> r is Ok,
        r is Ok ==> {
            &&& unique_ids(*workspace)
            &&& parents_fit(*workspace)
            &&& references_fit(*workspace)
            &&& forall|k: int| 0 <= k < workspace.elements@.len() ==> #[trigger] element_references_fit(*workspace, k)
            &&& endpoints_prior(*workspace)
            &&& unique_relationship_ids(*workspace)
            &&& removals_matched(*workspace)
            &&& unique_view_keys(*workspace)
        },
        r matches Err(m) ==> exists|ds: Seq<Diagnostic>| ds.len() > 0 && all_in(ds, &workspace.source_map)
            && m@ == report_text(ds, workspace.source_map),
{
    let sources = &workspace.source_map;
    let mut diagnostics: Vec<Diagnostic> = Vec::new();
    let mut e: usize = 0;
    while e < workspace.elements.len()
        invariant
            bare(*workspace) ==> diagnostics@.len() == 0,
            e <= workspace.elements@.len(),
            workspace.wf(),
            sources == &workspace.source_map,
            all_in(diagnostics@, sources),
            diagnostics@.len() == 0 ==> forall|i: int, j: int| 0 <= i < j < e ==> (#[trigger] workspace.elements@[i]).id@ != (#[trigger] workspace.elements@[j]).id@,
            diagnostics@.len() == 0 ==> forall|i: int| 0 <= i < e ==> parent_fits((#[trigger] workspace.elements@[i]).kind, parent_kind(*workspace, workspace.elements@[i])),
            diagnostics@.len() == 0 ==> forall|i: int| 0 <= i < e ==> {
                let x = #[trigger] workspace.elements@[i];
                &&& (x.instances is Some ==> x.kind is DeploymentNode)
                &&& (x.reference matches Some(r) ==> prior(*workspace, r.identifier@, x.order))
                &&& (x.instance_of matches Some(r) ==> prior(*workspace, r.identifier@, x.order))
                &&& (x.health_checks@.len() > 0 ==> (x.kind is SoftwareSystemInstance || x.kind is ContainerInstance))
            },
            diagnostics@.len() == 0 ==> forall|i: int| 0 <= i < e ==> #[trigger] element_references_fit(*workspace, i),
        decreases workspace.elements.len() - e,
    {
        let element = &workspace.elements[e];
        assert(workspace.elements@[e as int].spans_in(sources.len()));
        let before = diagnostics.len();
        match earlier_same_id(workspace, e) {
            Some(i) => {
                let original = &workspace.elements[i];
                assert(workspace.elements@[i as int].spans_in(sources.len()));
                let message = cat3("duplicate identifier '", element.id.as_str(), "'");
                let at = place(sources, original.id_span);
                let help = cat5("rename this element; '", original.id.as_str(), "' was first defined at ", at.as_str(), "");
                report(&mut diagnostics, sources, Diagnostic::error(element.id_span, message).with_help(help));
            },
            None => {},
        }
        validate_parent(workspace, element, &mut diagnostics);
        validate_group(workspace, element, &mut diagnostics);
        let ghost before_references = diagnostics@.len();
        validate_element_references(workspace, e, &mut diagnostics);
        proof {
            if diagnostics@.len() == 0 {
                assert(before_references == 0);
                assert forall|i: int| 0 <= i < e + 1 implies #[trigger] element_references_fit(*workspace, i) by {}
                assert forall|i: int, j: int| 0 <= i < j < e + 1 implies (#[trigger] workspace.elements@[i]).id@ != (#[trigger] workspace.elements@[j]).id@ by {
                    if j == e {
                        assert(workspace.elements@[i].id@ != workspace.elements@[e as int].id@);
                    }
                }
            }
        }
        e = e + 1;
    }
    let ghost elements_ok = unique_ids(*workspace) && parents_fit(*workspace) && references_fit(*workspace)
        && forall|i: int| 0 <= i < workspace.elements@.len() ==> #[trigger] element_references_fit(*workspace, i);
    assert(diagnostics@.len() == 0 ==> elements_ok);
    validate_groups(workspace, &mut diagnostics);
    let ghost after_elements = diagnostics@.len();
    assert(after_elements == 0 ==> elements_ok);
    let mut r: usize = 0;
    while r < workspace.relationships.len()
        invariant
            bare(*workspace) ==> diagnostics@.len() == 0,
            r <= workspace.relationships@.len(),
            workspace.wf(),
            sources == &workspace.source_map,
            all_in(diagnostics@, sources),
            diagnostics@.len() >= after_elements,
            after_elements == 0 ==> elements_ok,
            diagnostics@.len() == 0 ==> forall|i: int| 0 <= i < r ==> {
                let x = #[trigger] workspace.relationships@[i];
                prior(*workspace, x.source@, x.order) && prior(*workspace, x.destination@, x.order)
            },
            diagnostics@.len() == 0 ==> forall|i: int, j: int| 0 <= i < j < r ==>
                !((#[trigger] workspace.relationships@[i]).id matches Some(a) && (#[trigger] workspace.relationships@[j]).id matches Some(b) && a@ == b@),
        decreases workspace.relationships.len() - r,
    {
        let ghost start = diagnostics@.len();
        let relationship = &workspace.relationships[r];
        assert(workspace.relationships@[r as int].spans_in(sources.len()));
        match &relationship.id {
            Some(id) => {
                let mut q = r;
                let mut original: Option<usize> = None;
                while q > 0 && original.is_none()
                    invariant
                        q <= r < workspace.relationships@.len(),
                        match original { Some(o) => o < workspace.relationships@.len(), None => true },
                        original is None ==> forall|i: int| q <= i < r ==> !((#[trigger] workspace.relationships@[i]).id matches Some(a) && a@ == id@),
                    decreases q + if original is None { 1int } else { 0int },
                {
                    let same = match &workspace.relationships[q - 1].id {
                        Some(other) => crate::text::seq_eq(other.as_str(), id.as_str()),
                        None => false,
                    };
                    if same {
                        original = Some(q - 1);
                    } else {
                        q = q - 1;
                    }
                }
                match original {
                    Some(o) => {
                        let first = &workspace.relationships[o];
                        assert(workspace.relationships@[o as int].spans_in(sources.len()));
                        let first_span = match first.id_span {
                            Some(s) => s,
                            None => first.span,
                        };
                        let at = place(sources, first_span);
                        let span = match relationship.id_span {
                            Some(s) => s,
                            None => relationship.span,
                        };
                        let message = cat3("duplicate relationship identifier '", id.as_str(), "'");
                        let help = cat5("rename this relationship; '", id.as_str(), "' was first defined at ", at.as_str(), "");
                        report(&mut diagnostics, sources, Diagnostic::error(span, message).with_help(help));
                    },
                    None => {},
                }
            },
            None => {},
        }
        let ghost mid = diagnostics@.len();
        let _ = validate_prior_reference(workspace, relationship.source.as_str(), relationship.source_span, relationship.order,
            "relationship source", &mut diagnostics);
        let _ = validate_prior_reference(workspace, relationship.destination.as_str(), relationship.destination_span, relationship.order,
            "relationship destination", &mut diagnostics);
        proof {
            if diagnostics@.len() == 0 {
                assert(mid == start);
                assert forall|i: int, j: int| 0 <= i < j < r + 1 implies
                    !((#[trigger] workspace.relationships@[i]).id matches Some(a) && (#[trigger] workspace.relationships@[j]).id matches Some(b) && a@ == b@) by {
                }
            }
        }
        r = r + 1;
    }
    let ghost after_relationship_loop = diagnostics@.len();
    assert(after_relationship_loop == 0 ==> endpoints_prior(*workspace) && unique_relationship_ids(*workspace));
    let mut m: usize = 0;
    while m < workspace.removed_relationships.len()
        invariant
            bare(*workspace) ==> diagnostics@.len() == 0,
            m <= workspace.removed_relationships@.len(),
            workspace.wf(),
            sources == &workspace.source_map,
            all_in(diagnostics@, sources),
            diagnostics@.len() >= after_elements,
            after_elements == 0 ==> elements_ok,
            after_relationship_loop == 0 ==> endpoints_prior(*workspace) && unique_relationship_ids(*workspace),
            diagnostics@.len() >= after_relationship_loop,
            diagnostics@.len() == 0 ==> forall|k: int| 0 <= k < m ==> #[trigger] removal_matched(*workspace, k),
        decreases workspace.removed_relationships.len() - m,
    {
        let removed = &workspace.removed_relationships[m];
        assert(crate::model::sp(workspace.removed_relationships@[m as int].span, sources.len()));
        let _ = validate_prior_reference(workspace, removed.source.as_str(), removed.source_span, removed.order,
            "removed relationship source", &mut diagnostics);
        let _ = validate_prior_reference(workspace, removed.destination.as_str(), removed.destination_span, removed.order,
            "removed relationship destination", &mut diagnostics);
        let mut matches_one = false;
        let mut q: usize = 0;
        while q < workspace.relationships.len()
            invariant
                q <= workspace.relationships@.len(),
                removed == &workspace.removed_relationships@[m as int],
                m < workspace.removed_relationships@.len(),
                matches_one ==> exists|p: int| 0 <= p < workspace.relationships@.len() && removes(*removed, #[trigger] workspace.relationships@[p]),
            decreases workspace.relationships.len() - q,
        {
            let candidate = &workspace.relationships[q];
            let described = match &removed.description {
                Some(d) => match &candidate.description {
                    Some(c) => crate::text::seq_eq(c.as_str(), d.as_str()),
                    None => false,
                },
                None => true,
            };
            if candidate.order < removed.order && crate::text::seq_eq(candidate.source.as_str(), removed.source.as_str())
                && crate::text::seq_eq(candidate.destination.as_str(), removed.destination.as_str()) && described {
                matches_one = true;
                proof {
                    assert(removes(*removed, workspace.relationships@[q as int]));
                }
            }
            q = q + 1;
        }
        let ghost before_removal_report = diagnostics@.len();
        if !matches_one {
            let message = cat5("relationship removal '", removed.source.as_str(), " -/> ", removed.destination.as_str(), "' has no earlier matching relationship");
            report(&mut diagnostics, sources, Diagnostic::error(removed.span, message)
                .with_help(String::from_str("define the relationship before removing it, and check its description")));
        }
        proof {
            if diagnostics@.len() == 0 {
                assert(matches_one);
                assert(removal_matched(*workspace, m as int));
            }
        }
        m = m + 1;
    }
    let ghost after_relationships = diagnostics@.len();
    assert(after_relationships == 0 ==> removals_matched(*workspace));
    assert(after_relationships == 0 ==> elements_ok);
    assert(after_relationships == 0 ==> endpoints_prior(*workspace) && unique_relationship_ids(*workspace));
    let ghost model_ok = elements_ok && endpoints_prior(*workspace) && unique_relationship_ids(*workspace) && removals_matched(*workspace);
    assert(after_relationships == 0 ==> model_ok);
    let mut v: usize = 0;
    while v < workspace.views.len()
        invariant
            bare(*workspace) ==> diagnostics@.len() == 0,
            v <= workspace.views@.len(),
            workspace.wf(),
            sources == &workspace.source_map,
            all_in(diagnostics@, sources),
            diagnostics@.len() >= after_relationships,
            after_relationships == 0 ==> model_ok,
            diagnostics@.len() == 0 ==> forall|i: int, j: int| 0 <= i < j < v ==>
                !((#[trigger] workspace.views@[i]).key matches Some(a) && (#[trigger] workspace.views@[j]).key matches Some(b) && a@ == b@),
        decreases workspace.views.len() - v,
    {
        let view = &workspace.views[v];
        assert(workspace.views@[v as int].spans_in(sources.len()));
        match &view.key {
            Some(key) => {
                let mut q = v;
                let mut original: Option<usize> = None;
                while q > 0 && original.is_none()
                    invariant
                        q <= v < workspace.views@.len(),
                        match original { Some(o) => o < workspace.views@.len(), None => true },
                        original is None ==> forall|i: int| q <= i < v ==> !((#[trigger] workspace.views@[i]).key matches Some(a) && a@ == key@),
                    decreases q + if original is None { 1int } else { 0int },
                {
                    let same = match &workspace.views[q - 1].key {
                        Some(other) => crate::text::seq_eq(other.as_str(), key.as_str()),
                        None => false,
                    };
                    if same {
                        original = Some(q - 1);
                    } else {
                        q = q - 1;
                    }
                }
                match original {
                    Some(o) => {
                        let span = match view.key_span {
                            Some(s) => s,
                            None => view.span,
                        };
                        let message = cat3("duplicate view key '", key.as_str(), "'");
                        let help = cat3("rename this view; the key was first used by a ", view_kind_debug(&workspace.views[o].kind), " view");
                        report(&mut diagnostics, sources, Diagnostic::error(span, message).with_help(help));
                    },
                    None => {
                        proof {
                            assert(q == 0);
                        }
                    },
                }
            },
            None => {},
        }
        validate_view_options(workspace, view, &mut diagnostics);
        match view.kind {
            ViewKind::SystemLandscape => {},
            ViewKind::SystemContext => require_kind(workspace, view, ElementKind::SoftwareSystem, "systemContext", &mut diagnostics),
            ViewKind::Container => require_kind(workspace, view, ElementKind::SoftwareSystem, "container view", &mut diagnostics),
            ViewKind::Component => require_kind(workspace, view, ElementKind::Container, "component view", &mut diagnostics),
            ViewKind::Filtered => validate_filtered_view(workspace, view, &mut diagnostics),
            ViewKind::Dynamic => validate_dynamic_view(workspace, view, &mut diagnostics),
            ViewKind::Deployment => validate_deployment_view(workspace, view, &mut diagnostics),
            ViewKind::Custom => validate_custom_view(workspace, view, &mut diagnostics),
            ViewKind::Image => validate_image_view(workspace, view, &mut diagnostics),
            ViewKind::ArchiMate => validate_archimate_view(workspace, view, &mut diagnostics),
        }
        proof {
            if diagnostics@.len() == 0 {
                assert forall|i: int, j: int| 0 <= i < j < v + 1 implies
                    !((#[trigger] workspace.views@[i]).key matches Some(a) && (#[trigger] workspace.views@[j]).key matches Some(b) && a@ == b@) by {
                }
            }
        }
        v = v + 1;
    }
    let ghost after_views = diagnostics@.len();
    assert(after_views == 0 ==> model_ok && unique_view_keys(*workspace));
    validate_archimate_metadata(workspace, &mut diagnostics);
    if options.strict_archimate {
        let extra = archimate_semantic_diagnostics(workspace, true);
        let mut i: usize = 0;
        while i < extra.len()
            invariant
                i <= extra@.len(),
                all_in(extra@, sources),
                all_in(diagnostics@, sources),
                diagnostics@.len() >= after_views,
                bare(*workspace) ==> extra@.len() == 0 && diagnostics@.len() == 0,
            decreases extra.len() - i,
        {
            report(&mut diagnostics, sources, extra[i].duplicate());
            i = i + 1;
        }
    }
    validate_styles(workspace, &mut diagnostics);
    if diagnostics.len() == 0 {
        Ok(())
    } else {
        let text = crate::diagnostic::render_all(diagnostics.as_slice(), sources);
        assert(text@ == report_text(diagnostics@, workspace.source_map));
        Err(text)
    }
}

} // verus!
