use vstd::prelude::*;
use vstd::view::View as _;
use crate::expand::{context_shows, endpoints_shown, expand_view, endpoint, static_base_view, view_endpoint, wildcard_shows, ExpandedView};
use crate::lookup::{find, found};
use crate::model::{Element, ElementKind, Relationship, StyleMode, View, ViewKind, Workspace};
use crate::text::{cat, cat3, cat5, chars_of, ieq, seq_eq, string_of, usize_to_string};

verus! {

/// The identifier with `.` and `-` written as `_`: a Mermaid node id.
pub open spec fn node_name(s: Seq<char>) -> Seq<char> {
    Seq::new(s.len(), |i: int| if s[i] == '.' || s[i] == '-' { '_' } else { s[i] })
}

pub fn node_id(identifier: &str) -> (r: String)
    ensures
        r@ == node_name(identifier@),
{
    let v = chars_of(identifier);
    let mut out: Vec<char> = Vec::new();
    let mut i: usize = 0;
    while i < v.len()
        invariant
            v@ == identifier@,
            i <= v@.len(),
            out@ == node_name(v@.subrange(0, i as int)),
        decreases v.len() - i,
    {
        let c = v[i];
        out.push(if c == '.' || c == '-' { '_' } else { c });
        i = i + 1;
        assert(out@ =~= node_name(v@.subrange(0, i as int)));
    }
    assert(v@.subrange(0, v@.len() as int) =~= v@);
    string_of(out.as_slice())
}

/// The text with `"` written as `'` and `|` as `/`, safe inside a Mermaid label.
pub open spec fn escaped(s: Seq<char>) -> Seq<char> {
    Seq::new(s.len(), |i: int| if s[i] == '"' { '\'' } else if s[i] == '|' { '/' } else { s[i] })
}

pub fn escape(value: &str) -> (r: String)
    ensures
        r@ == escaped(value@),
{
    let v = chars_of(value);
    let mut out: Vec<char> = Vec::new();
    let mut i: usize = 0;
    while i < v.len()
        invariant
            v@ == value@,
            i <= v@.len(),
            out@ == escaped(v@.subrange(0, i as int)),
        decreases v.len() - i,
    {
        let c = v[i];
        out.push(if c == '"' { '\'' } else if c == '|' { '/' } else { c });
        i = i + 1;
        assert(out@ =~= escaped(v@.subrange(0, i as int)));
    }
    assert(v@.subrange(0, v@.len() as int) =~= v@);
    string_of(out.as_slice())
}

/// The label an element kind gets when the terminology does not rename it.
pub open spec fn default_label(kind: ElementKind) -> Seq<char> {
    match kind {
        ElementKind::Person => "Person"@,
        ElementKind::SoftwareSystem => "Software System"@,
        ElementKind::Container => "Container"@,
        ElementKind::Component => "Component"@,
        ElementKind::Generic => "Element"@,
        ElementKind::DeploymentEnvironment => "Deployment Environment"@,
        ElementKind::DeploymentGroup => "Deployment Group"@,
        ElementKind::DeploymentNode => "Deployment Node"@,
        ElementKind::InfrastructureNode => "Infrastructure Node"@,
        ElementKind::SoftwareSystemInstance => "Software System Instance"@,
        ElementKind::ContainerInstance => "Container Instance"@,
        ElementKind::ArchiMate(native) => native@,
    }
}

/// The implicit style tag of an element kind: its native type, or its default label.
pub open spec fn element_style_tag_text(kind: ElementKind) -> Seq<char> {
    default_label(kind)
}

/// The terminology key that renames an element kind, if any.
pub open spec fn terminology_key(kind: ElementKind) -> Option<Seq<char>> {
    match kind {
        ElementKind::Person => Some("person"@),
        ElementKind::SoftwareSystem => Some("softwareSystem"@),
        ElementKind::Container => Some("container"@),
        ElementKind::Component => Some("component"@),
        ElementKind::DeploymentNode => Some("deploymentNode"@),
        ElementKind::InfrastructureNode => Some("infrastructureNode"@),
        _ => None,
    }
}

/// The label of an element kind: an ArchiMate kind's native type; else the last terminology
/// entry for its key, else its default label.
pub open spec fn kind_label_text(w: Workspace, kind: ElementKind) -> Seq<char> {
    match kind {
        ElementKind::ArchiMate(native) => native@,
        _ => match terminology_key(kind) {
            Some(key) => match crate::archimate::last_attribute(w.terminology@, key) {
                Some(v) => v,
                None => default_label(kind),
            },
            None => default_label(kind),
        },
    }
}

pub(crate) fn default_kind_label(kind: &ElementKind) -> (r: &'static str)
    ensures
        r@ == default_label(*kind),
{
    match kind {
        ElementKind::Person => "Person",
        ElementKind::SoftwareSystem => "Software System",
        ElementKind::Container => "Container",
        ElementKind::Component => "Component",
        ElementKind::Generic => "Element",
        ElementKind::DeploymentEnvironment => "Deployment Environment",
        ElementKind::DeploymentGroup => "Deployment Group",
        ElementKind::DeploymentNode => "Deployment Node",
        ElementKind::InfrastructureNode => "Infrastructure Node",
        ElementKind::SoftwareSystemInstance => "Software System Instance",
        ElementKind::ContainerInstance => "Container Instance",
        ElementKind::ArchiMate(native) => native,
    }
}

/// The implicit style tag of an element kind.
pub(crate) fn element_style_tag(kind: &ElementKind) -> (r: &'static str)
    ensures
        r@ == element_style_tag_text(*kind),
{
    match kind {
        ElementKind::ArchiMate(native) => native,
        _ => default_kind_label(kind),
    }
}

/// The label of an element kind: the last terminology entry for it, else its default label.
pub(crate) fn terminology_label(workspace: &Workspace, kind: &ElementKind) -> (r: String)
    ensures
        r@ == kind_label_text(*workspace, *kind),
{
    let key: Option<&str> = match kind {
        ElementKind::Person => Some("person"),
        ElementKind::SoftwareSystem => Some("softwareSystem"),
        ElementKind::Container => Some("container"),
        ElementKind::Component => Some("component"),
        ElementKind::DeploymentNode => Some("deploymentNode"),
        ElementKind::InfrastructureNode => Some("infrastructureNode"),
        ElementKind::ArchiMate(native) => {
            return String::from_str(native);
        },
        _ => None,
    };
    match key {
        Some(key) => {
            match crate::archimate::last_property_index(&workspace.terminology, key) {
                Some(t) => workspace.terminology[t].value.clone(),
                None => String::from_str(default_kind_label(kind)),
            }
        },
        None => String::from_str(default_kind_label(kind)),
    }
}

/// The value of the first entry with key `key`.
pub open spec fn style_value(entries: Seq<(String, String)>, key: Seq<char>) -> Option<Seq<char>>
    decreases entries.len(),
{
    if entries.len() == 0 {
        None
    } else if entries[0].0@ == key {
        Some(entries[0].1@)
    } else {
        style_value(entries.drop_first(), key)
    }
}

/// A style as key/value pairs; setting a key again replaces its value.
pub struct StyleValues {
    pub entries: Vec<(String, String)>,
}

proof fn lemma_style_value_update(entries: Seq<(String, String)>, i: int, entry: (String, String), key: Seq<char>)
    requires
        0 <= i < entries.len(),
        entries[i].0@ == entry.0@,
        forall|j: int| 0 <= j < i ==> (#[trigger] entries[j]).0@ != entry.0@,
    ensures
        style_value(entries.update(i, entry), key) == if key == entry.0@ { Some(entry.1@) } else { style_value(entries, key) },
    decreases i,
{
    if i == 0 {
        assert(entries.update(i, entry).drop_first() =~= entries.drop_first());
        assert(entries.update(i, entry)[0] == entry);
    } else {
        assert(entries.update(i, entry)[0] == entries[0]);
        assert(entries[0].0@ != entry.0@);
        assert(entries.update(i, entry).drop_first() =~= entries.drop_first().update(i - 1, entry));
        assert forall|j: int| 0 <= j < i - 1 implies (#[trigger] entries.drop_first()[j]).0@ != entry.0@ by {
            assert(entries.drop_first()[j] == entries[j + 1]);
        }
        lemma_style_value_update(entries.drop_first(), i - 1, entry, key);
    }
}

proof fn lemma_style_value_push(entries: Seq<(String, String)>, entry: (String, String), key: Seq<char>)
    requires
        forall|j: int| 0 <= j < entries.len() ==> (#[trigger] entries[j]).0@ != entry.0@,
    ensures
        style_value(entries.push(entry), key) == if key == entry.0@ { Some(entry.1@) } else { style_value(entries, key) },
    decreases entries.len(),
{
    if entries.len() == 0 {
        assert(entries.push(entry)[0] == entry);
        assert(entries.push(entry).drop_first() =~= Seq::<(String, String)>::empty());
        assert(style_value(Seq::<(String, String)>::empty(), key) is None);
    } else {
        assert(entries.push(entry)[0] == entries[0]);
        assert(entries[0].0@ != entry.0@);
        assert(entries.push(entry).drop_first() =~= entries.drop_first().push(entry));
        assert forall|j: int| 0 <= j < entries.drop_first().len() implies (#[trigger] entries.drop_first()[j]).0@ != entry.0@ by {
            assert(entries.drop_first()[j] == entries[j + 1]);
        }
        lemma_style_value_push(entries.drop_first(), entry, key);
    }
}

impl StyleValues {
    /// No values.
    pub fn new() -> (r: Self)
        ensures
            r.entries@.len() == 0,
    {
        StyleValues { entries: Vec::new() }
    }

    /// Gives `key` the value `value`; every other key keeps its value.
    pub fn set(&mut self, key: &str, value: &str)
        ensures
            style_value(final(self).entries@, key@) == Some(value@),
            forall|k: Seq<char>| k != key@ ==> style_value(final(self).entries@, k) == style_value(old(self).entries@, k),
    {
        let mut i: usize = 0;
        while i < self.entries.len()
            invariant
                i <= self.entries@.len(),
                self.entries@ == old(self).entries@,
                forall|j: int| 0 <= j < i ==> (#[trigger] self.entries@[j]).0@ != key@,
            decreases self.entries.len() - i,
        {
            if seq_eq(self.entries[i].0.as_str(), key) {
                let entry = (String::from_str(key), String::from_str(value));
                proof {
                    assert forall|k: Seq<char>| true implies style_value(self.entries@.update(i as int, entry), k)
                        == if k == entry.0@ { Some(entry.1@) } else { style_value(self.entries@, k) } by {
                        lemma_style_value_update(self.entries@, i as int, entry, k);
                    }
                }
                self.entries.set(i, entry);
                return;
            }
            i = i + 1;
        }
        let entry = (String::from_str(key), String::from_str(value));
        proof {
            assert forall|k: Seq<char>| true implies style_value(self.entries@.push(entry), k)
                == if k == entry.0@ { Some(entry.1@) } else { style_value(self.entries@, k) } by {
                lemma_style_value_push(self.entries@, entry, k);
            }
        }
        self.entries.push(entry);
    }

    /// The value of `key`, if it has one.
    pub fn get(&self, key: &str) -> (r: Option<String>)
        ensures
            match r {
                Some(v) => style_value(self.entries@, key@) == Some(v@),
                None => style_value(self.entries@, key@) is None,
            },
    {
        let mut i: usize = 0;
        assert(self.entries@.skip(0) =~= self.entries@);
        while i < self.entries.len()
            invariant
                i <= self.entries@.len(),
                style_value(self.entries@, key@) == style_value(self.entries@.skip(i as int), key@),
            decreases self.entries.len() - i,
        {
            assert(self.entries@.skip(i as int)[0] == self.entries@[i as int]);
            assert(self.entries@.skip(i as int).drop_first() =~= self.entries@.skip(i + 1));
            if seq_eq(self.entries[i].0.as_str(), key) {
                return Some(self.entries[i].1.clone());
            }
            i = i + 1;
        }
        None
    }
}

fn has_tag(tags: &Vec<String>, tag: &str) -> (r: bool)
    ensures
        r == exists|j: int| 0 <= j < tags@.len() && (#[trigger] tags@[j])@ == tag@,
{
    let mut i: usize = 0;
    while i < tags.len()
        invariant
            i <= tags@.len(),
            forall|j: int| 0 <= j < i ==> (#[trigger] tags@[j])@ != tag@,
        decreases tags.len() - i,
    {
        if seq_eq(tags[i].as_str(), tag) {
            return true;
        }
        i = i + 1;
    }
    false
}

proof fn lemma_last_at(props: Seq<crate::model::Property>, key: Seq<char>, i: int)
    requires
        0 <= i < props.len(),
        props[i].key@ == key,
        forall|j: int| i < j < props.len() ==> (#[trigger] props[j]).key@ != key,
    ensures
        crate::archimate::last_attribute(props, key) == Some(props[i].value@),
{
    let c = choose|c: int| 0 <= c < props.len() && (#[trigger] props[c]).key@ == key
        && forall|j: int| c < j < props.len() ==> (#[trigger] props[j]).key@ != key;
    if c < i {
    } else if c > i {
        assert(props[c].key@ == key);
    }
}

proof fn lemma_last_none(props: Seq<crate::model::Property>, key: Seq<char>)
    requires
        forall|j: int| 0 <= j < props.len() ==> (#[trigger] props[j]).key@ != key,
    ensures
        crate::archimate::last_attribute(props, key) is None,
{
}

proof fn lemma_last_index(props: Seq<crate::model::Property>, key: Seq<char>, w: int) -> (c: int)
    requires
        0 <= w < props.len(),
        props[w].key@ == key,
    ensures
        0 <= c < props.len(),
        props[c].key@ == key,
        forall|j: int| c < j < props.len() ==> (#[trigger] props[j]).key@ != key,
    decreases props.len(),
{
    if props.last().key@ == key {
        (props.len() - 1) as int
    } else {
        let c = lemma_last_index(props.drop_last(), key, w);
        assert forall|j: int| c < j < props.len() implies (#[trigger] props[j]).key@ != key by {
            if j < props.len() - 1 {
                assert(props.drop_last()[j] == props[j]);
            }
        }
        c
    }
}

proof fn lemma_last_some(props: Seq<crate::model::Property>, key: Seq<char>) -> (c: int)
    requires
        crate::archimate::last_attribute(props, key) is Some,
    ensures
        0 <= c < props.len(),
        props[c].key@ == key,
        forall|j: int| c < j < props.len() ==> (#[trigger] props[j]).key@ != key,
        crate::archimate::last_attribute(props, key) == Some(props[c].value@),
{
    let w = choose|i: int| 0 <= i < props.len() && (#[trigger] props[i]).key@ == key;
    let c = lemma_last_index(props, key, w);
    lemma_last_at(props, key, c);
    c
}

/// The value of the last property with key `key` after `p` is added.
proof fn lemma_last_attribute_push(props: Seq<crate::model::Property>, p: crate::model::Property, key: Seq<char>)
    ensures
        crate::archimate::last_attribute(props.push(p), key)
            == if p.key@ == key { Some(p.value@) } else { crate::archimate::last_attribute(props, key) },
{
    let s = props.push(p);
    assert(s[props.len() as int] == p);
    if p.key@ == key {
        lemma_last_at(s, key, props.len() as int);
    } else if crate::archimate::last_attribute(props, key) is Some {
        let c = lemma_last_some(props, key);
        assert(s[c] == props[c]);
        assert forall|j: int| c < j < s.len() implies (#[trigger] s[j]).key@ != key by {
            if j < props.len() {
                assert(s[j] == props[j]);
            }
        }
        lemma_last_at(s, key, c);
    } else {
        assert forall|i: int| 0 <= i < props.len() implies (#[trigger] props[i]).key@ != key by {
            if props[i].key@ == key {
                assert(crate::archimate::last_attribute(props, key) is Some);
            }
        }
        assert forall|i: int| 0 <= i < s.len() implies (#[trigger] s[i]).key@ != key by {
            if i < props.len() {
                assert(s[i] == props[i]);
            }
        }
        lemma_last_none(s, key);
    }
}

/// The style values that apply to an element, in order: those of each default-mode style
/// whose tag is the kind's implicit tag or one of the element's tags.
pub open spec fn element_style_values(styles: Seq<crate::model::ElementStyle>, implicit: Seq<char>, element: Element) -> Seq<crate::model::Property>
    decreases styles.len(),
{
    if styles.len() == 0 {
        Seq::empty()
    } else {
        let st = styles.last();
        element_style_values(styles.drop_last(), implicit, element)
            + if st.mode == StyleMode::Default && (st.tag@ == implicit
                || exists|j: int| 0 <= j < element.tags@.len() && (#[trigger] element.tags@[j])@ == st.tag@) {
                st.values@
            } else {
                Seq::empty()
            }
    }
}

/// The style values that apply to a relationship, in order: those of each default-mode style
/// tagged `Relationship` or with one of the relationship's tags.
pub open spec fn relationship_style_values(styles: Seq<crate::model::RelationshipStyle>, relationship: Relationship) -> Seq<crate::model::Property>
    decreases styles.len(),
{
    if styles.len() == 0 {
        Seq::empty()
    } else {
        let st = styles.last();
        relationship_style_values(styles.drop_last(), relationship)
            + if st.mode == StyleMode::Default && (st.tag@ == "Relationship"@
                || exists|j: int| 0 <= j < relationship.tags@.len() && (#[trigger] relationship.tags@[j])@ == st.tag@) {
                st.values@
            } else {
                Seq::empty()
            }
    }
}

/// Sets each of `values` in turn.
fn apply_values(effective: &mut StyleValues, values: &Vec<crate::model::Property>, ghost_before: Ghost<Seq<crate::model::Property>>)
    requires
        forall|k: Seq<char>| style_value(old(effective).entries@, k) == crate::archimate::last_attribute(ghost_before@, k),
    ensures
        forall|k: Seq<char>| style_value(final(effective).entries@, k) == crate::archimate::last_attribute(ghost_before@ + values@, k),
{
    let mut i: usize = 0;
    assert(ghost_before@ + values@.take(0) =~= ghost_before@);
    while i < values.len()
        invariant
            i <= values@.len(),
            forall|k: Seq<char>| style_value(effective.entries@, k) == crate::archimate::last_attribute(ghost_before@ + values@.take(i as int), k),
        decreases values.len() - i,
    {
        effective.set(values[i].key.as_str(), values[i].value.as_str());
        proof {
            let prev = ghost_before@ + values@.take(i as int);
            assert(ghost_before@ + values@.take(i + 1) =~= prev.push(values@[i as int]));
            assert forall|k: Seq<char>| style_value(effective.entries@, k)
                == crate::archimate::last_attribute(ghost_before@ + values@.take(i + 1), k) by {
                lemma_last_attribute_push(prev, values@[i as int], k);
            }
        }
        i = i + 1;
    }
    assert(ghost_before@ + values@.take(values@.len() as int) =~= ghost_before@ + values@);
}

/// The default-mode style values that apply to an element: those of its kind's tag and of its
/// tags, later styles overriding earlier ones.
pub(crate) fn effective_element_style(workspace: &Workspace, element: &Element) -> (r: StyleValues)
    ensures
        forall|k: Seq<char>| style_value(r.entries@, k) == crate::archimate::last_attribute(
            element_style_values(workspace.element_styles@, element_style_tag_text(element.kind), *element), k),
{
    let implicit = element_style_tag(&element.kind);
    let mut effective = StyleValues::new();
    assert(crate::archimate::last_attribute(Seq::<crate::model::Property>::empty(), Seq::<char>::empty()) is None);
    let ghost styles = workspace.element_styles@;
    let mut s: usize = 0;
    assert(element_style_values(styles.take(0), implicit@, *element) =~= Seq::<crate::model::Property>::empty());
    while s < workspace.element_styles.len()
        invariant
            s <= styles.len(),
            styles == workspace.element_styles@,
            forall|k: Seq<char>| style_value(effective.entries@, k) == crate::archimate::last_attribute(
                element_style_values(styles.take(s as int), implicit@, *element), k),
        decreases workspace.element_styles.len() - s,
    {
        let style = &workspace.element_styles[s];
        assert(styles.take(s + 1).drop_last() =~= styles.take(s as int));
        assert(styles.take(s + 1).last() == *style);
        let ghost before = element_style_values(styles.take(s as int), implicit@, *element);
        if matches!(style.mode, StyleMode::Default) && (seq_eq(style.tag.as_str(), implicit) || has_tag(&element.tags, style.tag.as_str())) {
            apply_values(&mut effective, &style.values, Ghost(before));
        } else {
            assert(before + Seq::<crate::model::Property>::empty() =~= before);
        }
        s = s + 1;
    }
    assert(styles.take(styles.len() as int) =~= styles);
    effective
}

/// The default-mode style values that apply to a relationship.
pub(crate) fn effective_relationship_style(workspace: &Workspace, relationship: &Relationship) -> (r: StyleValues)
    ensures
        forall|k: Seq<char>| style_value(r.entries@, k) == crate::archimate::last_attribute(
            relationship_style_values(workspace.relationship_styles@, *relationship), k),
{
    let mut effective = StyleValues::new();
    let ghost styles = workspace.relationship_styles@;
    let mut s: usize = 0;
    assert(relationship_style_values(styles.take(0), *relationship) =~= Seq::<crate::model::Property>::empty());
    while s < workspace.relationship_styles.len()
        invariant
            s <= styles.len(),
            styles == workspace.relationship_styles@,
            forall|k: Seq<char>| style_value(effective.entries@, k) == crate::archimate::last_attribute(
                relationship_style_values(styles.take(s as int), *relationship), k),
        decreases workspace.relationship_styles.len() - s,
    {
        let style = &workspace.relationship_styles[s];
        assert(styles.take(s + 1).drop_last() =~= styles.take(s as int));
        assert(styles.take(s + 1).last() == *style);
        let ghost before = relationship_style_values(styles.take(s as int), *relationship);
        if matches!(style.mode, StyleMode::Default) && (seq_eq(style.tag.as_str(), "Relationship") || has_tag(&relationship.tags, style.tag.as_str())) {
            apply_values(&mut effective, &style.values, Ghost(before));
        } else {
            assert(before + Seq::<crate::model::Property>::empty() =~= before);
        }
        s = s + 1;
    }
    assert(styles.take(styles.len() as int) =~= styles);
    effective
}

/// The dash declaration of a border or line style, named ASCII case-insensitively.
pub open spec fn dash_text(value: Option<Seq<char>>) -> Seq<Seq<char>> {
    match value {
        Some(v) => if crate::text::eq_ignore_case(v, "dashed"@) {
            seq!["stroke-dasharray:5 5"@]
        } else if crate::text::eq_ignore_case(v, "dotted"@) {
            seq!["stroke-dasharray:2 3"@]
        } else {
            Seq::empty()
        },
        None => Seq::empty(),
    }
}

/// A declaration `prefix` + value + `suffix` when the style has the key.
pub open spec fn declaration(entries: Seq<(String, String)>, key: Seq<char>, prefix: Seq<char>, suffix: Seq<char>) -> Seq<Seq<char>> {
    match style_value(entries, key) {
        Some(v) => seq![prefix + v + suffix],
        None => Seq::empty(),
    }
}

fn dash_css(value: &Option<String>, css: &mut Vec<String>)
    ensures
        crate::archi_native::views(final(css)@) == crate::archi_native::views(old(css)@) + dash_text(crate::archi_layout::text_of(*value)),
{
    let ghost before = crate::archi_native::views(css@);
    match value {
        Some(v) => {
            if ieq(v.as_str(), "dashed") {
                css.push(String::from_str("stroke-dasharray:5 5"));
            } else if ieq(v.as_str(), "dotted") {
                css.push(String::from_str("stroke-dasharray:2 3"));
            }
        },
        None => {},
    }
    assert(crate::archi_native::views(css@) =~= before + dash_text(crate::archi_layout::text_of(*value)));
}

fn push_declaration(css: &mut Vec<String>, style: &StyleValues, key: &str, prefix: &str, suffix: &str)
    ensures
        crate::archi_native::views(final(css)@) == crate::archi_native::views(old(css)@) + declaration(style.entries@, key@, prefix@, suffix@),
{
    let ghost before = crate::archi_native::views(css@);
    match style.get(key) {
        Some(v) => css.push(cat3(prefix, v.as_str(), suffix)),
        None => {},
    }
    assert(crate::archi_native::views(css@) =~= before + declaration(style.entries@, key@, prefix@, suffix@));
}

/// Mermaid CSS declarations for an element style: fill, colour, stroke, stroke width and dashes.
pub open spec fn element_css(entries: Seq<(String, String)>) -> Seq<Seq<char>> {
    declaration(entries, "background"@, "fill:"@, ""@) + declaration(entries, "color"@, "color:"@, ""@)
        + declaration(entries, "stroke"@, "stroke:"@, ""@) + declaration(entries, "strokeWidth"@, "stroke-width:"@, "px"@)
        + dash_text(style_value(entries, "border"@))
}

/// Mermaid CSS declarations for an element style.
pub(crate) fn element_mermaid_css(style: &StyleValues) -> (r: Vec<String>)
    ensures
        crate::archi_native::views(r@) == element_css(style.entries@),
{
    let mut css: Vec<String> = Vec::new();
    assert(crate::archi_native::views(css@) =~= Seq::<Seq<char>>::empty());
    push_declaration(&mut css, style, "background", "fill:", "");
    push_declaration(&mut css, style, "color", "color:", "");
    push_declaration(&mut css, style, "stroke", "stroke:", "");
    push_declaration(&mut css, style, "strokeWidth", "stroke-width:", "px");
    dash_css(&style.get("border"), &mut css);
    assert(crate::archi_native::views(css@) =~= element_css(style.entries@));
    css
}

/// Mermaid CSS declarations for a relationship style: stroke, stroke width and dashes.
pub open spec fn relationship_css(entries: Seq<(String, String)>) -> Seq<Seq<char>> {
    declaration(entries, "color"@, "stroke:"@, ""@) + declaration(entries, "thickness"@, "stroke-width:"@, "px"@)
        + dash_text(style_value(entries, "style"@))
}

/// Mermaid CSS declarations for a relationship style.
pub(crate) fn relationship_mermaid_css(style: &StyleValues) -> (r: Vec<String>)
    ensures
        crate::archi_native::views(r@) == relationship_css(style.entries@),
{
    let mut css: Vec<String> = Vec::new();
    assert(crate::archi_native::views(css@) =~= Seq::<Seq<char>>::empty());
    push_declaration(&mut css, style, "color", "stroke:", "");
    push_declaration(&mut css, style, "thickness", "stroke-width:", "px");
    dash_css(&style.get("style"), &mut css);
    assert(crate::archi_native::views(css@) =~= relationship_css(style.entries@));
    css
}

fn join_commas(parts: &Vec<String>) -> (r: String) {
    let mut r = String::new();
    let mut i: usize = 0;
    while i < parts.len()
        invariant
            i <= parts@.len(),
        decreases parts.len() - i,
    {
        if i > 0 {
            r.append(",");
        }
        r.append(parts[i].as_str());
        i = i + 1;
    }
    r
}

/// The brackets of a Mermaid node of a shape, named ASCII case-insensitively; a box otherwise.
pub open spec fn shape_brackets(shape: Option<Seq<char>>) -> (Seq<char>, Seq<char>) {
    match shape {
        Some(s) => {
            let l = Seq::new(s.len(), |i: int| crate::text::lower(s[i]));
            if l == "roundedbox"@ { ("(\""@, "\")"@) }
            else if l == "circle"@ { ("((\""@, "\"))"@) }
            else if l == "hexagon"@ { ("{{\""@, "\"}}"@) }
            else if l == "diamond"@ { ("{\""@, "\"}"@) }
            else if l == "cylinder"@ { ("[(\""@, "\")]"@) }
            else { ("[\""@, "\"]"@) }
        },
        None => ("[\""@, "\"]"@),
    }
}

/// A Mermaid node body with a quoted label in the bracket pair of the style's shape.
pub(crate) fn mermaid_shape(label: &str, shape: &Option<String>) -> (r: String)
    ensures
        r@ == shape_brackets(crate::archi_layout::text_of(*shape)).0 + label@ + shape_brackets(crate::archi_layout::text_of(*shape)).1,
{
    let lowered = match shape {
        Some(s) => Some(crate::text::ascii_lowercase(s.as_str())),
        None => None,
    };
    let (open, close) = match &lowered {
        Some(s) => {
            if seq_eq(s.as_str(), "roundedbox") {
                ("(\"", "\")")
            } else if seq_eq(s.as_str(), "circle") {
                ("((\"", "\"))")
            } else if seq_eq(s.as_str(), "hexagon") {
                ("{{\"", "\"}}")
            } else if seq_eq(s.as_str(), "diamond") {
                ("{\"", "\"}")
            } else if seq_eq(s.as_str(), "cylinder") {
                ("[(\"", "\")]")
            } else {
                ("[\"", "\"]")
            }
        },
        None => ("[\"", "\"]"),
    };
    cat3(open, label, close)
}

/// A dynamic view as a Mermaid sequence diagram, one message per step with both endpoints.
/// The name a dynamic step shows for an element: its name, or the identifier when the
/// workspace has no such element.
pub open spec fn participant_name(w: Workspace, r: crate::model::Reference) -> Seq<char> {
    match found(w.elements@, r.identifier@) {
        Some(k) => w.elements@[k].name@,
        None => r.identifier@,
    }
}

/// The message line of a dynamic step with both ends: sender, receiver, and its description
/// after its sequence number.
pub open spec fn dynamic_line(w: Workspace, d: crate::model::DynamicRelationship) -> Seq<char> {
    match (d.source, d.destination) {
        (Some(s), Some(t)) => {
            let description = match d.description { Some(x) => x@, None => Seq::empty() };
            let label = match d.sequence { Some(q) => q@ + ": "@ + description, None => description };
            "  "@ + escaped(participant_name(w, s)) + "->>"@ + escaped(participant_name(w, t)) + ": "@ + escaped(label) + "\n"@
        },
        _ => Seq::empty(),
    }
}

/// The message lines of the steps, in order.
pub open spec fn dynamic_lines(w: Workspace, ds: Seq<crate::model::DynamicRelationship>) -> Seq<char>
    decreases ds.len(),
{
    if ds.len() == 0 {
        Seq::empty()
    } else {
        dynamic_lines(w, ds.drop_last()) + dynamic_line(w, ds.last())
    }
}

fn participant(workspace: &Workspace, r: &crate::model::Reference) -> (n: String)
    ensures
        n@ == participant_name(*workspace, *r),
{
    match find(workspace, r.identifier.as_str()) {
        Some(k) => workspace.elements[k].name.clone(),
        None => r.identifier.clone(),
    }
}

fn dynamic_step(workspace: &Workspace, instance: &crate::model::DynamicRelationship) -> (r: String)
    ensures
        r@ == dynamic_line(*workspace, *instance),
{
    match (&instance.source, &instance.destination) {
        (Some(source), Some(destination)) => {
            let source_name = participant(workspace, source);
            let destination_name = participant(workspace, destination);
            let description = match &instance.description {
                Some(d) => d.clone(),
                None => String::new(),
            };
            let label = match &instance.sequence {
                Some(sequence) => cat3(sequence.as_str(), ": ", description.as_str()),
                None => description,
            };
            let mut output = String::from_str("  ");
            output.append(escape(source_name.as_str()).as_str());
            output.append("->>");
            output.append(escape(destination_name.as_str()).as_str());
            output.append(": ");
            output.append(escape(label.as_str()).as_str());
            output.append("\n");
            output
        },
        _ => String::new(),
    }
}

/// A dynamic view as a Mermaid sequence diagram: one message per step with both ends.
pub(crate) fn dynamic_mermaid(workspace: &Workspace, view: &View) -> (r: String)
    ensures
        r@ == "sequenceDiagram\n"@ + dynamic_lines(*workspace, view.dynamic_relationships@),
{
    let mut output = String::from_str("sequenceDiagram\n");
    let ghost head = output@;
    let steps = &view.dynamic_relationships;
    let mut i: usize = 0;
    assert(head + dynamic_lines(*workspace, steps@.take(0)) =~= head);
    while i < steps.len()
        invariant
            i <= steps@.len(),
            head == "sequenceDiagram\n"@,
            output@ == head + dynamic_lines(*workspace, steps@.take(i as int)),
        decreases steps.len() - i,
    {
        assert(steps@.take(i + 1).drop_last() =~= steps@.take(i as int));
        assert(steps@.take(i + 1).last() == steps@[i as int]);
        output.append(dynamic_step(workspace, &steps[i]).as_str());
        i = i + 1;
    }
    assert(steps@.take(steps@.len() as int) =~= steps@);
    output
}

fn view_kind_name(kind: &ViewKind) -> (r: &'static str)
    ensures
        r@ == crate::validate::view_kind_text(*kind),
{
    crate::validate::view_kind_debug(kind)
}

/// The key of a view that names none: its kind in kebab case.
pub open spec fn default_view_key_of(kind: ViewKind) -> Seq<char> {
    match kind {
        ViewKind::SystemLandscape => "system-landscape"@,
        ViewKind::SystemContext => "system-context"@,
        ViewKind::Container => "container"@,
        ViewKind::Component => "component"@,
        ViewKind::Filtered => "filtered"@,
        ViewKind::Dynamic => "dynamic"@,
        ViewKind::Deployment => "deployment"@,
        ViewKind::Custom => "custom"@,
        ViewKind::Image => "image"@,
        ViewKind::ArchiMate => "archimate"@,
    }
}

/// The key of a view that names none: its kind in kebab case.
pub fn default_view_key(kind: &ViewKind) -> (r: &'static str)
    ensures
        r@ == default_view_key_of(*kind),
        r@ == match kind {
            ViewKind::SystemLandscape => "system-landscape"@,
            ViewKind::SystemContext => "system-context"@,
            ViewKind::Container => "container"@,
            ViewKind::Component => "component"@,
            ViewKind::Filtered => "filtered"@,
            ViewKind::Dynamic => "dynamic"@,
            ViewKind::Deployment => "deployment"@,
            ViewKind::Custom => "custom"@,
            ViewKind::Image => "image"@,
            ViewKind::ArchiMate => "archimate"@,
        },
{
    match kind {
        ViewKind::SystemLandscape => "system-landscape",
        ViewKind::SystemContext => "system-context",
        ViewKind::Container => "container",
        ViewKind::Component => "component",
        ViewKind::Filtered => "filtered",
        ViewKind::Dynamic => "dynamic",
        ViewKind::Deployment => "deployment",
        ViewKind::Custom => "custom",
        ViewKind::Image => "image",
        ViewKind::ArchiMate => "archimate",
    }
}

/// The arguments of an image source, separated by single spaces.
pub open spec fn spaced(args: Seq<String>) -> Seq<char>
    decreases args.len(),
{
    if args.len() == 0 {
        Seq::empty()
    } else {
        spaced(args.drop_last()) + (if args.len() > 1 { " "@ } else { Seq::empty() }) + args.last()@
    }
}

/// One comment line per image source: `%% kind arguments`.
pub open spec fn image_lines(sources: Seq<crate::model::ImageSource>) -> Seq<char>
    decreases sources.len(),
{
    if sources.len() == 0 {
        Seq::empty()
    } else {
        image_lines(sources.drop_last()) + "%% "@ + sources.last().kind@ + " "@ + spaced(sources.last().arguments@) + "\n"@
    }
}

/// The text of a relationship's description, empty when it has none.
pub open spec fn description_text(r: Relationship) -> Seq<char> {
    match r.description {
        Some(d) => d@,
        None => Seq::empty(),
    }
}

/// What tells two edges apart: source, destination and description.
pub open spec fn edge_key(s: Seq<char>, d: Seq<char>, desc: Seq<char>) -> Seq<char> {
    s + "->"@ + d + ":"@ + desc
}

/// The flowchart line of an edge.
pub open spec fn edge_line(s: Seq<char>, d: Seq<char>, desc: Seq<char>) -> Seq<char> {
    "  "@ + node_name(s) + " -->|"@ + escaped(desc) + "| "@ + node_name(d) + "\n"@
}

/// The key of relationship `k` with its ends as `ev` draws them.
pub open spec fn relationship_key(w: Workspace, ev: View, k: int) -> Seq<char> {
    edge_key(endpoint(w, ev, w.relationships@[k].source@), endpoint(w, ev, w.relationships@[k].destination@),
        description_text(w.relationships@[k]))
}

/// The flowchart line of relationship `k` with its ends as `ev` draws them.
pub open spec fn relationship_line(w: Workspace, ev: View, k: int) -> Seq<char> {
    edge_line(endpoint(w, ev, w.relationships@[k].source@), endpoint(w, ev, w.relationships@[k].destination@),
        description_text(w.relationships@[k]))
}

/// Relationship `k` is drawn: shown, between two different shown ends as `ev` draws them.
pub open spec fn edge_drawn(w: Workspace, ev: View, ex: ExpandedView, k: int) -> bool {
    let s = endpoint(w, ev, w.relationships@[k].source@);
    let d = endpoint(w, ev, w.relationships@[k].destination@);
    ex.has_rel(k) && s != d && ex.has(s) && ex.has(d)
}

/// `out` holds, for every drawn relationship, the line of a drawn relationship with the same
/// source, destination and description: only such edges are merged.
pub open spec fn edges_in(w: Workspace, ev: View, ex: ExpandedView, out: Seq<char>) -> bool {
    forall|k: int| 0 <= k < w.relationships@.len() && #[trigger] edge_drawn(w, ev, ex, k) ==>
        exists|j: int| 0 <= j < w.relationships@.len() && edge_drawn(w, ev, ex, j)
            && relationship_key(w, ev, j) == relationship_key(w, ev, k)
            && #[trigger] crate::text::has_infix(out, relationship_line(w, ev, j))
}

/// An identifier that holds neither `:` nor `>`, as every DSL identifier does.
pub open spec fn plain_identifier(s: Seq<char>) -> bool {
    forall|i: int| 0 <= i < s.len() ==> s[i] != ':' && s[i] != '>'
}

proof fn lemma_infix_in(a: Seq<char>, e: Seq<char>, b: Seq<char>, p: Seq<char>)
    requires
        crate::text::has_infix(e, p),
    ensures
        crate::text::has_infix(a + e + b, p),
{
    let i = choose|i: int| 0 <= i <= e.len() - p.len() && #[trigger] e.subrange(i, i + p.len()) == p;
    assert((a + e + b).subrange(a.len() + i, a.len() + i + p.len()) =~= e.subrange(i, i + p.len()));
}

/// Between plain identifiers, equal edge keys have the same source, destination and description.
pub proof fn edge_keys_distinguish(s: Seq<char>, d: Seq<char>, x: Seq<char>, s2: Seq<char>, d2: Seq<char>, x2: Seq<char>)
    requires
        plain_identifier(s),
        plain_identifier(d),
        plain_identifier(s2),
        plain_identifier(d2),
        edge_key(s, d, x) == edge_key(s2, d2, x2),
    ensures
        s == s2,
        d == d2,
        x == x2,
{
    let k = edge_key(s, d, x);
    let ls: int = s.len() as int;
    let ls2: int = s2.len() as int;
    let l1: int = ls + 2 + d.len();
    let l2: int = ls2 + 2 + d2.len();
    reveal_strlit("->");
    reveal_strlit(":");
    let arrow = "->"@;
    let colon = ":"@;
    assert(arrow.len() == 2 && arrow[0] == '-' && arrow[1] == '>');
    assert(colon.len() == 1 && colon[0] == ':');
    let p1 = s + arrow + d;
    let p2 = s2 + arrow + d2;
    assert(k == p1 + colon + x);
    assert(k == p2 + colon + x2);
    assert forall|i: int| 0 <= i < p1.len() implies p1[i] != ':' by {
        if i < ls {
        } else if i < ls + 2 {
        } else {
            assert(p1[i] == d[i - ls - 2]);
        }
    }
    assert forall|i: int| 0 <= i < p2.len() implies p2[i] != ':' by {
        if i < ls2 {
        } else if i < ls2 + 2 {
        } else {
            assert(p2[i] == d2[i - ls2 - 2]);
        }
    }
    assert(k[l1] == ':');
    assert(k[l2] == ':');
    if l1 < l2 {
        assert(k[l1] == p2[l1]);
    }
    if l2 < l1 {
        assert(k[l2] == p1[l2]);
    }
    assert(l1 == l2);
    assert(x =~= k.subrange(l1 + 1, k.len() as int));
    assert(x2 =~= k.subrange(l1 + 1, k.len() as int));
    assert(p1 =~= k.take(l1));
    assert(p2 =~= k.take(l1));
    assert(p1 == p2);
    assert(p1[ls + 1] == '>');
    assert(p2[ls2 + 1] == '>');
    if ls < ls2 {
        assert(p1[ls2 + 1] == d[ls2 - ls - 1]);
    }
    if ls2 < ls {
        assert(p2[ls + 1] == d2[ls - ls2 - 1]);
    }
    assert(ls == ls2);
    assert(s =~= p1.take(ls));
    assert(s2 =~= p2.take(ls));
    assert(d =~= p1.skip(ls + 2));
    assert(d2 =~= p2.skip(ls + 2));
}

/// In a flowchart that holds its edges, every drawn relationship has its own line, with its
/// own ends and description, wherever the identifiers are plain: edges with the same ends
/// but another description are not merged into it.
pub proof fn every_drawn_relationship_has_its_line(w: Workspace, ev: View, ex: ExpandedView, out: Seq<char>, k: int)
    requires
        edges_in(w, ev, ex, out),
        0 <= k < w.relationships@.len(),
        edge_drawn(w, ev, ex, k),
        forall|j: int| 0 <= j < w.relationships@.len() ==> plain_identifier(#[trigger] endpoint(w, ev, w.relationships@[j].source@))
            && plain_identifier(endpoint(w, ev, w.relationships@[j].destination@)),
    ensures
        crate::text::has_infix(out, relationship_line(w, ev, k)),
{
    let j = choose|j: int| 0 <= j < w.relationships@.len() && edge_drawn(w, ev, ex, j)
        && relationship_key(w, ev, j) == relationship_key(w, ev, k)
        && #[trigger] crate::text::has_infix(out, relationship_line(w, ev, j));
    let _ = endpoint(w, ev, w.relationships@[j].source@);
    let _ = endpoint(w, ev, w.relationships@[k].source@);
    edge_keys_distinguish(endpoint(w, ev, w.relationships@[j].source@), endpoint(w, ev, w.relationships@[j].destination@),
        description_text(w.relationships@[j]), endpoint(w, ev, w.relationships@[k].source@),
        endpoint(w, ev, w.relationships@[k].destination@), description_text(w.relationships@[k]));
}

/// Lines stay in a text that grows around them.
proof fn lemma_edges_in_context(w: Workspace, ev: View, ex: ExpandedView, a: Seq<char>, e: Seq<char>, b: Seq<char>)
    requires
        edges_in(w, ev, ex, e),
    ensures
        edges_in(w, ev, ex, a + e + b),
{
    assert forall|k: int| 0 <= k < w.relationships@.len() && #[trigger] edge_drawn(w, ev, ex, k) implies
        exists|j: int| 0 <= j < w.relationships@.len() && edge_drawn(w, ev, ex, j)
            && relationship_key(w, ev, j) == relationship_key(w, ev, k)
            && #[trigger] crate::text::has_infix(a + e + b, relationship_line(w, ev, j)) by {
        let j = choose|j: int| 0 <= j < w.relationships@.len() && edge_drawn(w, ev, ex, j)
            && relationship_key(w, ev, j) == relationship_key(w, ev, k)
            && #[trigger] crate::text::has_infix(e, relationship_line(w, ev, j));
        lemma_infix_in(a, e, b, relationship_line(w, ev, j));
    }
}

/// Each key emitted so far is that of a drawn relationship whose line stands in `out`.
spec fn keys_drawn(w: Workspace, ev: View, ex: ExpandedView, emitted: Seq<String>, drawn: Seq<int>, out: Seq<char>) -> bool {
    emitted.len() == drawn.len()
    && forall|q: int| 0 <= q < drawn.len() ==> 0 <= #[trigger] drawn[q] < w.relationships@.len()
        && edge_drawn(w, ev, ex, drawn[q])
        && emitted[q]@ == relationship_key(w, ev, drawn[q])
        && crate::text::has_infix(out, relationship_line(w, ev, drawn[q]))
}

/// Every relationship before `n` that is drawn has a line with its key in `out`.
spec fn drawn_before(w: Workspace, ev: View, ex: ExpandedView, n: int, out: Seq<char>) -> bool {
    forall|k: int| 0 <= k < n && #[trigger] edge_drawn(w, ev, ex, k) ==>
        exists|j: int| 0 <= j < w.relationships@.len() && edge_drawn(w, ev, ex, j)
            && relationship_key(w, ev, j) == relationship_key(w, ev, k)
            && #[trigger] crate::text::has_infix(out, relationship_line(w, ev, j))
}

proof fn lemma_keys_drawn_extend(w: Workspace, ev: View, ex: ExpandedView, emitted: Seq<String>, drawn: Seq<int>, out: Seq<char>, extra: Seq<char>)
    requires
        keys_drawn(w, ev, ex, emitted, drawn, out),
    ensures
        keys_drawn(w, ev, ex, emitted, drawn, out + extra),
{
    assert forall|q: int| 0 <= q < drawn.len() implies 0 <= #[trigger] drawn[q] < w.relationships@.len()
        && edge_drawn(w, ev, ex, drawn[q])
        && emitted[q]@ == relationship_key(w, ev, drawn[q])
        && crate::text::has_infix(out + extra, relationship_line(w, ev, drawn[q])) by {
        lemma_infix_in(Seq::empty(), out, extra, relationship_line(w, ev, drawn[q]));
        assert(Seq::<char>::empty() + out + extra =~= out + extra);
    }
}

proof fn lemma_keys_drawn_push(w: Workspace, ev: View, ex: ExpandedView, emitted: Seq<String>, drawn: Seq<int>, out: Seq<char>,
    key: String, k: int)
    requires
        keys_drawn(w, ev, ex, emitted, drawn, out),
        0 <= k < w.relationships@.len(),
        edge_drawn(w, ev, ex, k),
        key@ == relationship_key(w, ev, k),
        crate::text::has_infix(out, relationship_line(w, ev, k)),
    ensures
        keys_drawn(w, ev, ex, emitted.push(key), drawn.push(k), out),
{
    assert forall|q: int| 0 <= q < drawn.len() + 1 implies 0 <= #[trigger] drawn.push(k)[q] < w.relationships@.len()
        && edge_drawn(w, ev, ex, drawn.push(k)[q])
        && emitted.push(key)[q]@ == relationship_key(w, ev, drawn.push(k)[q])
        && crate::text::has_infix(out, relationship_line(w, ev, drawn.push(k)[q])) by {
        if q < drawn.len() {
            assert(emitted.push(key)[q] == emitted[q]);
            assert(drawn.push(k)[q] == drawn[q]);
        }
    }
}

proof fn lemma_drawn_before_extend(w: Workspace, ev: View, ex: ExpandedView, n: int, out: Seq<char>, extra: Seq<char>)
    requires
        drawn_before(w, ev, ex, n, out),
    ensures
        drawn_before(w, ev, ex, n, out + extra),
{
    assert forall|k: int| 0 <= k < n && #[trigger] edge_drawn(w, ev, ex, k) implies
        exists|j: int| 0 <= j < w.relationships@.len() && edge_drawn(w, ev, ex, j)
            && relationship_key(w, ev, j) == relationship_key(w, ev, k)
            && #[trigger] crate::text::has_infix(out + extra, relationship_line(w, ev, j)) by {
        let j = choose|j: int| 0 <= j < w.relationships@.len() && edge_drawn(w, ev, ex, j)
            && relationship_key(w, ev, j) == relationship_key(w, ev, k)
            && #[trigger] crate::text::has_infix(out, relationship_line(w, ev, j));
        lemma_infix_in(Seq::empty(), out, extra, relationship_line(w, ev, j));
        assert(Seq::<char>::empty() + out + extra =~= out + extra);
    }
}

proof fn lemma_drawn_before_next(w: Workspace, ev: View, ex: ExpandedView, n: int, out: Seq<char>, j: int)
    requires
        0 <= n < w.relationships@.len(),
        drawn_before(w, ev, ex, n, out),
        edge_drawn(w, ev, ex, n) ==> 0 <= j < w.relationships@.len() && edge_drawn(w, ev, ex, j)
            && relationship_key(w, ev, j) == relationship_key(w, ev, n)
            && crate::text::has_infix(out, relationship_line(w, ev, j)),
    ensures
        drawn_before(w, ev, ex, n + 1, out),
{
    assert forall|k: int| 0 <= k < n + 1 && #[trigger] edge_drawn(w, ev, ex, k) implies
        exists|j: int| 0 <= j < w.relationships@.len() && edge_drawn(w, ev, ex, j)
            && relationship_key(w, ev, j) == relationship_key(w, ev, k)
            && #[trigger] crate::text::has_infix(out, relationship_line(w, ev, j)) by {
        if k == n {
            assert(crate::text::has_infix(out, relationship_line(w, ev, j)));
        }
    }
}

/// The edge lines of a flowchart, each drawn relationship once per source, destination and
/// description, with the link styles of the edges drawn.
fn mermaid_edges(workspace: &Workspace, expanded: &ExpandedView, endpoint_view: &View) -> (r: (String, Vec<String>))
    ensures
        edges_in(*workspace, *endpoint_view, *expanded, r.0@),
{
    let ghost w = *workspace;
    let ghost ev = *endpoint_view;
    let ghost ex = *expanded;
    let mut output = String::new();
    let mut emitted: Vec<String> = Vec::new();
    let ghost mut drawn: Seq<int> = Seq::empty();
    let mut link_styles: Vec<String> = Vec::new();
    let mut link_index: usize = 0;
    let mut index: usize = 0;
    while index < workspace.relationships.len()
        invariant
            w == *workspace,
            ev == *endpoint_view,
            ex == *expanded,
            index <= workspace.relationships@.len(),
            link_index <= index,
            keys_drawn(w, ev, ex, emitted@, drawn, output@),
            drawn_before(w, ev, ex, index as int, output@),
        decreases workspace.relationships.len() - index,
    {
        let relationship = &workspace.relationships[index];
        let ghost mut witness: int = index as int;
        if expanded.contains_rel(index) {
            let source = view_endpoint(workspace, endpoint_view, relationship.source.as_str());
            let destination = view_endpoint(workspace, endpoint_view, relationship.destination.as_str());
            if !seq_eq(source.as_str(), destination.as_str()) && expanded.contains(source.as_str()) && expanded.contains(destination.as_str()) {
                let description = match &relationship.description {
                    Some(d) => d.clone(),
                    None => String::new(),
                };
                assert(description@ == description_text(workspace.relationships@[index as int]));
                let key = cat5(source.as_str(), "->", destination.as_str(), ":", description.as_str());
                assert(key@ == relationship_key(w, ev, index as int));
                let mut seen = false;
                let mut q: usize = 0;
                while q < emitted.len()
                    invariant
                        q <= emitted@.len(),
                        seen ==> exists|p: int| 0 <= p < q && (#[trigger] emitted@[p])@ == key@,
                    decreases emitted.len() - q,
                {
                    if seq_eq(emitted[q].as_str(), key.as_str()) {
                        seen = true;
                    }
                    q = q + 1;
                }
                if !seen {
                    let ghost emitted0 = emitted@;
                    let ghost before = output@;
                    emitted.push(key);
                    output.append("  ");
                    output.append(node_id(source.as_str()).as_str());
                    output.append(" -->|");
                    output.append(escape(description.as_str()).as_str());
                    output.append("| ");
                    output.append(node_id(destination.as_str()).as_str());
                    output.append("\n");
                    proof {
                        let line = relationship_line(w, ev, index as int);
                        assert(output@ =~= before + line);
                        assert(output@.subrange(before.len() as int, (before.len() + line.len()) as int) =~= line);
                        assert(crate::text::has_infix(output@, line));
                        lemma_keys_drawn_extend(w, ev, ex, emitted0, drawn, before, line);
                        lemma_keys_drawn_push(w, ev, ex, emitted0, drawn, output@, key, index as int);
                        assert(emitted@ == emitted0.push(key));
                        lemma_drawn_before_extend(w, ev, ex, index as int, before, line);
                        drawn = drawn.push(index as int);
                    }
                    let css = relationship_mermaid_css(&effective_relationship_style(workspace, relationship));
                    if css.len() > 0 {
                        link_styles.push(cat5("  linkStyle ", usize_to_string(link_index).as_str(), " ", join_commas(&css).as_str(), "\n"));
                    }
                    link_index = link_index + 1;
                } else {
                    proof {
                        let p = choose|p: int| 0 <= p < q && (#[trigger] emitted@[p])@ == key@;
                        witness = drawn[p];
                    }
                }
            }
        }
        proof {
            lemma_drawn_before_next(w, ev, ex, index as int, output@, witness);
        }
        index = index + 1;
    }
    (output, link_styles)
}

/// A view as Mermaid text: a flowchart of the shown elements and relationships for static
/// views, a sequence diagram for dynamic views, and a note for custom and image views.
pub fn mermaid(workspace: &Workspace, view: &View) -> (r: String)
    ensures
        matches!(view.kind, ViewKind::Dynamic) ==> r@ == "sequenceDiagram\n"@ + dynamic_lines(*workspace, view.dynamic_relationships@),
        matches!(view.kind, ViewKind::Custom) ==> r@ == "%% "@ + crate::validate::view_kind_text(view.kind)
            + " view rendering is deferred; source metadata was preserved\n"@,
        matches!(view.kind, ViewKind::Image) ==> r@ == "%% Image view rendering is deferred\n"@ + image_lines(view.image_sources@),
        !matches!(view.kind, ViewKind::Dynamic | ViewKind::Custom | ViewKind::Image) ==> crate::text::has_prefix(r@, "flowchart LR\n"@),
        !matches!(view.kind, ViewKind::Dynamic | ViewKind::Custom | ViewKind::Image) ==> (exists|ex: ExpandedView, ev: View|
            ex.fits(workspace.relationships@.len()) && wildcard_shows(*workspace, *view, ex)
            && context_shows(*workspace, *view, ex) && (view.filter is None ==> ev == *view && endpoints_shown(*workspace, *view, ex))
            && #[trigger] edges_in(*workspace, ev, ex, r@)),
{
    if matches!(view.kind, ViewKind::Dynamic) {
        return dynamic_mermaid(workspace, view);
    }
    if matches!(view.kind, ViewKind::Custom) {
        return cat3("%% ", view_kind_name(&view.kind), " view rendering is deferred; source metadata was preserved\n");
    }
    if matches!(view.kind, ViewKind::Image) {
        let mut output = String::new();
        let mut i: usize = 0;
        while i < view.image_sources.len()
            invariant
                i <= view.image_sources@.len(),
                output@ == image_lines(view.image_sources@.take(i as int)),
            decreases view.image_sources.len() - i,
        {
            let source = &view.image_sources[i];
            output.append("%% ");
            output.append(source.kind.as_str());
            output.append(" ");
            let ghost head = output@;
            let mut a: usize = 0;
            while a < source.arguments.len()
                invariant
                    a <= source.arguments@.len(),
                    output@ == head + spaced(source.arguments@.take(a as int)),
                decreases source.arguments.len() - a,
            {
                if a > 0 {
                    output.append(" ");
                }
                output.append(source.arguments[a].as_str());
                proof {
                    let now = source.arguments@.take(a as int + 1);
                    assert(now.drop_last() =~= source.arguments@.take(a as int));
                    assert(now.last() == source.arguments@[a as int]);
                }
                a = a + 1;
            }
            assert(source.arguments@.take(source.arguments@.len() as int) =~= source.arguments@);
            output.append("\n");
            proof {
                let now = view.image_sources@.take(i as int + 1);
                assert(now.drop_last() =~= view.image_sources@.take(i as int));
                assert(now.last() == view.image_sources@[i as int]);
            }
            i = i + 1;
        }
        assert(view.image_sources@.take(view.image_sources@.len() as int) =~= view.image_sources@);
        let r = cat("%% Image view rendering is deferred\n", output.as_str());
        return r;
    }
    let expanded = expand_view(workspace, view);
    let mut output = String::new();
    let mut class_definitions: Vec<String> = Vec::new();
    let mut e: usize = 0;
    while e < workspace.elements.len()
        invariant
            e <= workspace.elements@.len(),
        decreases workspace.elements.len() - e,
    {
        let element = &workspace.elements[e];
        if expanded.contains(element.id.as_str()) {
            let label = cat3(escape(element.name.as_str()).as_str(), "\\n", terminology_label(workspace, &element.kind).as_str());
            let style = effective_element_style(workspace, element);
            let node = node_id(element.id.as_str());
            let class_name = cat("style_", node.as_str());
            let css = element_mermaid_css(&style);
            let shape = mermaid_shape(label.as_str(), &style.get("shape"));
            output.append("  ");
            output.append(node.as_str());
            output.append(shape.as_str());
            if css.len() > 0 {
                output.append(":::");
                output.append(class_name.as_str());
            }
            output.append("\n");
            if css.len() > 0 {
                class_definitions.push(cat5("  classDef ", class_name.as_str(), " ", join_commas(&css).as_str(), "\n"));
            }
        }
        e = e + 1;
    }
    let base = static_base_view(workspace, view);
    let endpoint_view = match base {
        Some(b) => &workspace.views[b],
        None => view,
    };
    let (edges, link_styles) = mermaid_edges(workspace, &expanded, endpoint_view);
    let ghost nodes = output@;
    output.append(edges.as_str());
    let mut styles_text = String::new();
    let mut i: usize = 0;
    while i < class_definitions.len()
        invariant
            i <= class_definitions@.len(),
        decreases class_definitions.len() - i,
    {
        styles_text.append(class_definitions[i].as_str());
        i = i + 1;
    }
    let mut i: usize = 0;
    while i < link_styles.len()
        invariant
            i <= link_styles@.len(),
        decreases link_styles.len() - i,
    {
        styles_text.append(link_styles[i].as_str());
        i = i + 1;
    }
    output.append(styles_text.as_str());
    let r = cat("flowchart LR\n", output.as_str());
    assert(r@.take("flowchart LR\n"@.len() as int) =~= "flowchart LR\n"@);
    proof {
        assert(r@ =~= ("flowchart LR\n"@ + nodes) + edges@ + styles_text@);
        lemma_edges_in_context(*workspace, *endpoint_view, expanded, "flowchart LR\n"@ + nodes, edges@, styles_text@);
        assert(edges_in(*workspace, *endpoint_view, expanded, r@));
    }
    r
}

} // verus!
