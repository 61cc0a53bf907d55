use vstd::prelude::*;
use vstd::view::View as _;
use crate::archi_native::{hex_digits, views};
use crate::exporters::{is_control, kind_name, view_graph, view_key};
use crate::model::{DocumentationOwner, Element, ElementKind, Property, Relationship, StyleMode, View, ViewKind, Workspace};
use crate::text::{cat, chars_of, string_of};

verus! {

/// A JSON value whose objects keep their fields in order.
#[derive(Debug)]
pub enum Json {
    Null,
    Str(String),
    Array(Vec<Json>),
    Object(Vec<(&'static str, Json)>),
}

/// How deep a JSON value nests.
pub open spec fn json_height(j: Json) -> nat
    decreases j, 1int,
{
    match j {
        Json::Null => 0,
        Json::Str(_) => 0,
        Json::Array(v) => 1 + items_height(v@),
        Json::Object(f) => 1 + fields_height(f@),
    }
}

/// The greatest height among `v`.
pub open spec fn items_height(v: Seq<Json>) -> nat
    decreases v, 0int,
{
    if v.len() == 0 {
        0
    } else {
        let a = items_height(v.drop_last());
        let b = json_height(v.last());
        if a < b { b } else { a }
    }
}

/// The greatest height among the values of `f`.
pub open spec fn fields_height(f: Seq<(&'static str, Json)>) -> nat
    decreases f, 0int,
{
    if f.len() == 0 {
        0
    } else {
        let a = fields_height(f.drop_last());
        let b = json_height(f.last().1);
        if a < b { b } else { a }
    }
}

/// How a character is written inside a JSON string.
pub open spec fn json_char(c: char) -> Seq<char> {
    if c == '"' {
        seq!['\\', '"']
    } else if c == '\\' {
        seq!['\\', '\\']
    } else if c == '\n' {
        seq!['\\', 'n']
    } else if c == '\r' {
        seq!['\\', 'r']
    } else if c == '\t' {
        seq!['\\', 't']
    } else if is_control(c) {
        seq!['\\', 'u'] + hex_digits((c as u32) as nat, 4)
    } else {
        seq![c]
    }
}

/// A JSON string literal for `s`.
pub open spec fn json_quoted(s: Seq<char>) -> Seq<char> {
    seq!['"'] + crate::exporters::map_chars(s, |c: char| json_char(c)) + seq!['"']
}

/// Two spaces per level.
pub open spec fn indent(depth: nat) -> Seq<char> {
    Seq::new(2 * depth, |i: int| ' ')
}

/// The text of a JSON value at nesting `depth`: two-space indentation, one item or field per
/// line, and `[]` and `{}` for empty containers.
pub open spec fn render_json(j: Json, depth: nat) -> Seq<char>
    decreases j, 1int,
{
    match j {
        Json::Null => "null"@,
        Json::Str(s) => json_quoted(s@),
        Json::Array(v) => if v@.len() == 0 {
            "[]"@
        } else {
            "[\n"@ + render_items(v@, depth + 1) + "\n"@ + indent(depth) + "]"@
        },
        Json::Object(f) => if f@.len() == 0 {
            "{}"@
        } else {
            "{\n"@ + render_fields(f@, depth + 1) + "\n"@ + indent(depth) + "}"@
        },
    }
}

/// The items of an array, one per line at `depth`, separated by commas.
pub open spec fn render_items(v: Seq<Json>, depth: nat) -> Seq<char>
    decreases v, 0int,
{
    if v.len() == 0 {
        Seq::empty()
    } else if v.len() == 1 {
        indent(depth) + render_json(v[0], depth)
    } else {
        render_items(v.drop_last(), depth) + ",\n"@ + indent(depth) + render_json(v.last(), depth)
    }
}

/// The fields of an object, one per line at `depth`, separated by commas.
pub open spec fn render_fields(f: Seq<(&'static str, Json)>, depth: nat) -> Seq<char>
    decreases f, 0int,
{
    if f.len() == 0 {
        Seq::empty()
    } else if f.len() == 1 {
        indent(depth) + json_quoted(f[0].0@) + ": "@ + render_json(f[0].1, depth)
    } else {
        render_fields(f.drop_last(), depth) + ",\n"@ + indent(depth) + json_quoted(f.last().0@) + ": "@
            + render_json(f.last().1, depth)
    }
}

fn hex4(n: u32) -> (r: Vec<char>)
    requires
        n < 0x10000,
    ensures
        r@ == hex_digits(n as nat, 4),
{
    let mut digits: Vec<char> = Vec::new();
    let mut rest: u32 = n;
    let mut k: usize = 0;
    while k < 4
        invariant
            k <= 4,
            digits@.len() == k,
            hex_digits(n as nat, 4) == hex_digits(rest as nat, (4 - k) as nat) + digits@,
        decreases 4 - k,
    {
        let d = (rest % 16) as u64;
        let c = if d < 10 { ((d as u8) + 48) as char } else { ((d as u8) + 87) as char };
        assert(c == crate::archi_native::hex_digit(d as nat));
        let ghost before = digits@;
        digits.insert(0, c);
        assert(hex_digits(rest as nat, (4 - k) as nat) == hex_digits((rest / 16) as nat, (4 - k - 1) as nat).push(c));
        assert(digits@ =~= seq![c] + before);
        assert(hex_digits((rest / 16) as nat, (4 - k - 1) as nat).push(c) + before
            =~= hex_digits((rest / 16) as nat, (4 - k - 1) as nat) + digits@);
        rest = rest / 16;
        k = k + 1;
    }
    assert(hex_digits(rest as nat, 0) =~= Seq::<char>::empty());
    assert(Seq::<char>::empty() + digits@ =~= digits@);
    digits
}

/// `value` as a JSON string literal.
pub fn quoted_json(value: &str) -> (r: String)
    ensures
        r@ == json_quoted(value@),
{
    let v = chars_of(value);
    let mut out: Vec<char> = vec!['"'];
    let mut i: usize = 0;
    assert(v@.take(0) =~= Seq::<char>::empty());
    while i < v.len()
        invariant
            v@ == value@,
            i <= v@.len(),
            out@ == seq!['"'] + crate::exporters::map_chars(v@.take(i as int), |c: char| json_char(c)),
        decreases v.len() - i,
    {
        assert(v@.take(i + 1).drop_last() =~= v@.take(i as int));
        let c = v[i];
        let ghost before = out@;
        if c == '"' {
            out.push('\\');
            out.push('"');
        } else if c == '\\' {
            out.push('\\');
            out.push('\\');
        } else if c == '\n' {
            out.push('\\');
            out.push('n');
        } else if c == '\r' {
            out.push('\\');
            out.push('r');
        } else if c == '\t' {
            out.push('\\');
            out.push('t');
        } else if (c as u32) < 0x20 || (0x7f <= (c as u32) && (c as u32) < 0xa0) {
            out.push('\\');
            out.push('u');
            let mut h = hex4(c as u32);
            let ghost hv = h@;
            let ghost mid = out@;
            out.append(&mut h);
            assert(out@ =~= mid + hv);
            assert(mid =~= before + seq!['\\', 'u']);
            assert(hv == hex_digits((c as u32) as nat, 4));
        } else {
            out.push(c);
        }
        assert(out@ =~= before + json_char(c));
        i = i + 1;
    }
    assert(v@.take(v@.len() as int) =~= v@);
    out.push('"');
    string_of(out.as_slice())
}

fn spaces(depth: usize) -> (r: String)
    requires
        depth < usize::MAX / 2,
    ensures
        r@ == indent(depth as nat),
{
    let mut out = String::new();
    let mut i: usize = 0;
    assert(2 * depth < usize::MAX) by (nonlinear_arith)
        requires
            depth < usize::MAX / 2,
    ;
    let width = 2 * depth;
    while i < width
        invariant
            width == 2 * depth,
            i <= width,
            out@ == Seq::new(i as nat, |k: int| ' '),
        decreases width - i,
    {
        out.push(' ');
        i = i + 1;
        assert(out@ =~= Seq::new(i as nat, |k: int| ' '));
    }
    assert(out@ =~= indent(depth as nat));
    out
}

proof fn lemma_item_height(v: Seq<Json>, k: int)
    requires
        0 <= k < v.len(),
    ensures
        json_height(v[k]) <= items_height(v),
        items_height(v.take(k + 1)) <= items_height(v),
    decreases v.len(),
{
    if k < v.len() - 1 {
        lemma_item_height(v.drop_last(), k);
        assert(v.drop_last()[k] == v[k]);
        assert(v.drop_last().take(k + 1) =~= v.take(k + 1));
    } else {
        assert(v.take(k + 1) =~= v);
    }
}

proof fn lemma_field_height(f: Seq<(&'static str, Json)>, k: int)
    requires
        0 <= k < f.len(),
    ensures
        json_height(f[k].1) <= fields_height(f),
    decreases f.len(),
{
    if k < f.len() - 1 {
        lemma_field_height(f.drop_last(), k);
        assert(f.drop_last()[k] == f[k]);
    }
}

impl Json {
    /// The text of this value at nesting `depth`.
    pub fn render(&self, depth: usize) -> (r: String)
        requires
            depth + json_height(*self) < usize::MAX / 2,
        ensures
            r@ == render_json(*self, depth as nat),
        decreases *self,
    {
        match self {
            Json::Null => String::from_str("null"),
            Json::Str(s) => quoted_json(s.as_str()),
            Json::Array(values) => {
                if values.len() == 0 {
                    return String::from_str("[]");
                }
                let inner = depth + 1;
                let pad = spaces(inner);
                let mut body = String::new();
                let mut i: usize = 0;
                assert(self->Array_0 == *values);
                assert(values@.take(0) =~= Seq::<Json>::empty());
                while i < values.len()
                    invariant
                        i <= values@.len(),
                        inner == depth + 1,
                        inner + items_height(values@) < usize::MAX / 2,
                        pad@ == indent(inner as nat),
                        body@ == render_items(values@.take(i as int), inner as nat),
                        *self is Array,
                        self->Array_0 == *values,
                    decreases values.len() - i,
                {
                    proof {
                        lemma_item_height(values@, i as int);
                    }
                    assert(values@.take(i + 1).drop_last() =~= values@.take(i as int));
                    assert(values@.take(i + 1).last() == values@[i as int]);
                    if i > 0 {
                        body.append(",\n");
                    } else {
                        assert(values@.take(1)[0] == values@[0]);
                    }
                    body.append(pad.as_str());
                    proof {
                        assert(*self is Array);
                        assert(self->Array_0 == *values);
                        assert(decreases_to!(*self => self->Array_0));
                        assert(decreases_to!(*values => values@));
                        assert(decreases_to!(values@ => values@[i as int]));
                    }
                    let item = values[i].render(inner);
                    body.append(item.as_str());
                    proof {
                        reveal_strlit(",\n");
                    }
                    i = i + 1;
                }
                assert(values@.take(values@.len() as int) =~= values@);
                let close = spaces(depth);
                let r = cat(cat("[\n", body.as_str()).as_str(), cat(cat("\n", close.as_str()).as_str(), "]").as_str());
                r
            },
            Json::Object(fields) => {
                if fields.len() == 0 {
                    return String::from_str("{}");
                }
                let inner = depth + 1;
                let pad = spaces(inner);
                let mut body = String::new();
                let mut i: usize = 0;
                assert(self->Object_0 == *fields);
                assert(fields@.take(0) =~= Seq::<(&'static str, Json)>::empty());
                while i < fields.len()
                    invariant
                        i <= fields@.len(),
                        inner == depth + 1,
                        inner + fields_height(fields@) < usize::MAX / 2,
                        pad@ == indent(inner as nat),
                        body@ == render_fields(fields@.take(i as int), inner as nat),
                        *self is Object,
                        self->Object_0 == *fields,
                    decreases fields.len() - i,
                {
                    proof {
                        lemma_field_height(fields@, i as int);
                    }
                    assert(fields@.take(i + 1).drop_last() =~= fields@.take(i as int));
                    assert(fields@.take(i + 1).last() == fields@[i as int]);
                    if i > 0 {
                        body.append(",\n");
                    } else {
                        assert(fields@.take(1)[0] == fields@[0]);
                    }
                    body.append(pad.as_str());
                    body.append(quoted_json(fields[i].0).as_str());
                    body.append(": ");
                    proof {
                        assert(*self is Object);
                        assert(self->Object_0 == *fields);
                        assert(decreases_to!(*self => self->Object_0));
                        assert(decreases_to!(*fields => fields@));
                        assert(decreases_to!(fields@ => fields@[i as int]));
                        assert(decreases_to!(fields@[i as int] => fields@[i as int].1));
                    }
                    let value = fields[i].1.render(inner);
                    body.append(value.as_str());
                    proof {
                        reveal_strlit(",\n");
                        reveal_strlit(": ");
                    }
                    i = i + 1;
                }
                assert(fields@.take(fields@.len() as int) =~= fields@);
                let close = spaces(depth);
                let r = cat(cat("{\n", body.as_str()).as_str(), cat(cat("\n", close.as_str()).as_str(), "}").as_str());
                r
            },
        }
    }
}

fn push_item(items: &mut Vec<Json>, value: Json)
    ensures
        final(items)@ == old(items)@.push(value),
        items_height(final(items)@) == (if items_height(old(items)@) < json_height(value) { json_height(value) } else { items_height(old(items)@) }),
{
    let ghost before = items@;
    items.push(value);
    assert(items@.drop_last() =~= before);
}

fn push_field(fields: &mut Vec<(&'static str, Json)>, key: &'static str, value: Json)
    ensures
        final(fields)@.len() == old(fields)@.len() + 1,
        fields_height(final(fields)@) == (if fields_height(old(fields)@) < json_height(value) { json_height(value) } else { fields_height(old(fields)@) }),
{
    let ghost before = fields@;
    fields.push((key, value));
    assert(fields@.drop_last() =~= before);
}

fn text_json(value: &str) -> (r: Json)
    ensures
        json_height(r) == 0,
{
    Json::Str(String::from_str(value))
}

fn optional_json(value: &Option<String>) -> (r: Json)
    ensures
        json_height(r) == 0,
{
    match value {
        Some(v) => Json::Str(v.clone()),
        None => Json::Null,
    }
}

fn properties_json(properties: &Vec<Property>) -> (r: Json)
    ensures
        json_height(r) <= 2,
{
    let mut items: Vec<Json> = Vec::new();
    let mut i: usize = 0;
    while i < properties.len()
        invariant
            i <= properties@.len(),
            items_height(items@) <= 1,
        decreases properties.len() - i,
    {
        let mut fields: Vec<(&'static str, Json)> = Vec::new();
        push_field(&mut fields, "key", text_json(properties[i].key.as_str()));
        push_field(&mut fields, "value", text_json(properties[i].value.as_str()));
        push_item(&mut items, Json::Object(fields));
        i = i + 1;
    }
    Json::Array(items)
}

fn joined_tags(tags: &Vec<String>) -> (r: String) {
    let mut out = String::new();
    let mut i: usize = 0;
    while i < tags.len()
        invariant
            i <= tags@.len(),
        decreases tags.len() - i,
    {
        if i > 0 {
            out.append(",");
        }
        out.append(tags[i].as_str());
        i = i + 1;
    }
    out
}

fn element_fields(element: &Element) -> (r: Vec<(&'static str, Json)>)
    ensures
        fields_height(r@) <= 2,
{
    let mut fields: Vec<(&'static str, Json)> = Vec::new();
    push_field(&mut fields, "id", text_json(element.id.as_str()));
    push_field(&mut fields, "name", text_json(element.name.as_str()));
    push_field(&mut fields, "description", optional_json(&element.description));
    push_field(&mut fields, "technology", optional_json(&element.technology));
    push_field(&mut fields, "parentId", optional_json(&element.parent));
    push_field(&mut fields, "tags", text_json(joined_tags(&element.tags).as_str()));
    push_field(&mut fields, "kind", text_json(kind_name(&element.kind)));
    push_field(&mut fields, "properties", properties_json(&element.properties));
    fields
}

fn element_json(element: &Element) -> (r: Json)
    ensures
        json_height(r) <= 3,
{
    Json::Object(element_fields(element))
}

fn is_child_of(element: &Element, parent: &str) -> (r: bool) {
    match &element.parent {
        Some(p) => crate::text::seq_eq(p.as_str(), parent),
        None => false,
    }
}

fn container_json(workspace: &Workspace, container: &Element) -> (r: Json)
    ensures
        json_height(r) <= 5,
{
    let mut fields = element_fields(container);
    let mut components: Vec<Json> = Vec::new();
    let mut i: usize = 0;
    while i < workspace.elements.len()
        invariant
            i <= workspace.elements@.len(),
            items_height(components@) <= 3,
        decreases workspace.elements.len() - i,
    {
        let element = &workspace.elements[i];
        if matches!(element.kind, ElementKind::Component) && is_child_of(element, container.id.as_str()) {
            push_item(&mut components, element_json(element));
        }
        i = i + 1;
    }
    push_field(&mut fields, "components", Json::Array(components));
    Json::Object(fields)
}

fn software_system_json(workspace: &Workspace, system: &Element) -> (r: Json)
    ensures
        json_height(r) <= 7,
{
    let mut fields = element_fields(system);
    let mut containers: Vec<Json> = Vec::new();
    let mut i: usize = 0;
    while i < workspace.elements.len()
        invariant
            i <= workspace.elements@.len(),
            items_height(containers@) <= 5,
        decreases workspace.elements.len() - i,
    {
        let element = &workspace.elements[i];
        if matches!(element.kind, ElementKind::Container) && is_child_of(element, system.id.as_str()) {
            push_item(&mut containers, container_json(workspace, element));
        }
        i = i + 1;
    }
    push_field(&mut fields, "containers", Json::Array(containers));
    Json::Object(fields)
}

fn relationship_json(index: usize, relationship: &Relationship) -> (r: Json)
    ensures
        json_height(r) <= 3,
{
    let mut fields: Vec<(&'static str, Json)> = Vec::new();
    push_field(&mut fields, "id", Json::Str(crate::projection::u128_to_string(index as u128 + 1)));
    push_field(&mut fields, "sourceId", text_json(relationship.source.as_str()));
    push_field(&mut fields, "destinationId", text_json(relationship.destination.as_str()));
    push_field(&mut fields, "description", optional_json(&relationship.description));
    push_field(&mut fields, "technology", optional_json(&relationship.technology));
    push_field(&mut fields, "tags", text_json(joined_tags(&relationship.tags).as_str()));
    push_field(&mut fields, "properties", properties_json(&relationship.properties));
    Json::Object(fields)
}

fn view_json(workspace: &Workspace, view: &View) -> (r: Json)
    ensures
        json_height(r) <= 3,
{
    let graph = view_graph(workspace, view);
    let mut fields: Vec<(&'static str, Json)> = Vec::new();
    push_field(&mut fields, "key", Json::Str(view_key(view)));
    push_field(&mut fields, "scope", optional_json(&view.scope));
    push_field(&mut fields, "description", optional_json(&view.description));
    push_field(&mut fields, "title", optional_json(&view.title));
    let mut elements: Vec<Json> = Vec::new();
    let mut i: usize = 0;
    while i < graph.element_ids.len()
        invariant
            i <= graph.element_ids@.len(),
            items_height(elements@) <= 1,
        decreases graph.element_ids.len() - i,
    {
        let mut id: Vec<(&'static str, Json)> = Vec::new();
        push_field(&mut id, "id", text_json(graph.element_ids[i].as_str()));
        push_item(&mut elements, Json::Object(id));
        i = i + 1;
    }
    push_field(&mut fields, "elements", Json::Array(elements));
    let mut relationships: Vec<Json> = Vec::new();
    let mut j: usize = 0;
    while j < graph.relationships.len()
        invariant
            j <= graph.relationships@.len(),
            items_height(relationships@) <= 1,
        decreases graph.relationships.len() - j,
    {
        let id = match graph.relationships[j].relationship_index {
            Some(index) => crate::projection::u128_to_string(index as u128 + 1),
            None => cat("dynamic-", crate::projection::u128_to_string(j as u128 + 1).as_str()),
        };
        let mut entry: Vec<(&'static str, Json)> = Vec::new();
        push_field(&mut entry, "id", Json::Str(id));
        push_item(&mut relationships, Json::Object(entry));
        j = j + 1;
    }
    push_field(&mut fields, "relationships", Json::Array(relationships));
    Json::Object(fields)
}

fn style_mode(mode: StyleMode) -> (r: &'static str) {
    match mode {
        StyleMode::Default => "default",
        StyleMode::Light => "light",
        StyleMode::Dark => "dark",
    }
}

fn style_json(tag: &str, mode: StyleMode, values: &Vec<Property>, properties: &Vec<Property>) -> (r: Json)
    ensures
        json_height(r) <= 3,
{
    let mut fields: Vec<(&'static str, Json)> = Vec::new();
    push_field(&mut fields, "tag", text_json(tag));
    push_field(&mut fields, "mode", text_json(style_mode(mode)));
    push_field(&mut fields, "values", properties_json(values));
    push_field(&mut fields, "properties", properties_json(properties));
    Json::Object(fields)
}

fn styles_json(workspace: &Workspace) -> (r: Json)
    ensures
        json_height(r) <= 5,
{
    let mut fields: Vec<(&'static str, Json)> = Vec::new();
    let mut elements: Vec<Json> = Vec::new();
    let mut i: usize = 0;
    while i < workspace.element_styles.len()
        invariant
            i <= workspace.element_styles@.len(),
            items_height(elements@) <= 3,
        decreases workspace.element_styles.len() - i,
    {
        let style = &workspace.element_styles[i];
        push_item(&mut elements, style_json(style.tag.as_str(), style.mode, &style.values, &style.properties));
        i = i + 1;
    }
    push_field(&mut fields, "elements", Json::Array(elements));
    let mut relationships: Vec<Json> = Vec::new();
    let mut j: usize = 0;
    while j < workspace.relationship_styles.len()
        invariant
            j <= workspace.relationship_styles@.len(),
            items_height(relationships@) <= 3,
        decreases workspace.relationship_styles.len() - j,
    {
        let style = &workspace.relationship_styles[j];
        push_item(&mut relationships, style_json(style.tag.as_str(), style.mode, &style.values, &style.properties));
        j = j + 1;
    }
    push_field(&mut fields, "relationships", Json::Array(relationships));
    let mut themes: Vec<Json> = Vec::new();
    let mut k: usize = 0;
    while k < workspace.themes.len()
        invariant
            k <= workspace.themes@.len(),
            items_height(themes@) <= 1,
        decreases workspace.themes.len() - k,
    {
        let theme = &workspace.themes[k];
        let mut entry: Vec<(&'static str, Json)> = Vec::new();
        push_field(&mut entry, "source", text_json(theme.source.as_str()));
        push_field(&mut entry, "mode", text_json(style_mode(theme.mode)));
        push_item(&mut themes, Json::Object(entry));
        k = k + 1;
    }
    push_field(&mut fields, "themes", Json::Array(themes));
    push_field(&mut fields, "terminology", properties_json(&workspace.terminology));
    let branding = match &workspace.branding {
        None => Json::Null,
        Some(b) => {
            let mut entry: Vec<(&'static str, Json)> = Vec::new();
            let logo = match &b.logo {
                Some(p) => Json::Str(p.value.clone()),
                None => Json::Null,
            };
            push_field(&mut entry, "logo", logo);
            let mut fonts: Vec<Json> = Vec::new();
            let mut f: usize = 0;
            while f < b.fonts.len()
                invariant
                    f <= b.fonts@.len(),
                    items_height(fonts@) <= 1,
                decreases b.fonts.len() - f,
            {
                let mut font: Vec<(&'static str, Json)> = Vec::new();
                push_field(&mut font, "name", text_json(b.fonts[f].name.as_str()));
                push_field(&mut font, "location", optional_json(&b.fonts[f].location));
                push_item(&mut fonts, Json::Object(font));
                f = f + 1;
            }
            push_field(&mut entry, "fonts", Json::Array(fonts));
            Json::Object(entry)
        },
    };
    push_field(&mut fields, "branding", branding);
    Json::Object(fields)
}

fn owner(owner: &DocumentationOwner) -> (r: String) {
    match owner {
        DocumentationOwner::Workspace => String::from_str("workspace"),
        DocumentationOwner::Element(identifier) => identifier.clone(),
    }
}

fn documentation_format_name(format: &crate::model::DocumentationFormat) -> (r: &'static str) {
    match format {
        crate::model::DocumentationFormat::Markdown => "Markdown",
        crate::model::DocumentationFormat::AsciiDoc => "AsciiDoc",
    }
}

fn decision_format_name(format: &crate::model::DecisionFormat) -> (r: &'static str) {
    match format {
        crate::model::DecisionFormat::AdrTools => "AdrTools",
        crate::model::DecisionFormat::Madr => "Madr",
        crate::model::DecisionFormat::Log4brains => "Log4brains",
        crate::model::DecisionFormat::MarkdownGeneric => "MarkdownGeneric",
    }
}

fn documentation_json(workspace: &Workspace) -> (r: Json)
    ensures
        json_height(r) <= 3,
{
    let mut fields: Vec<(&'static str, Json)> = Vec::new();
    let mut sections: Vec<Json> = Vec::new();
    let mut i: usize = 0;
    while i < workspace.documentation.len()
        invariant
            i <= workspace.documentation@.len(),
            items_height(sections@) <= 1,
        decreases workspace.documentation.len() - i,
    {
        let section = &workspace.documentation[i];
        let mut entry: Vec<(&'static str, Json)> = Vec::new();
        push_field(&mut entry, "owner", Json::Str(owner(&section.owner)));
        push_field(&mut entry, "title", text_json(section.title.as_str()));
        push_field(&mut entry, "source", text_json(section.source_path.as_str()));
        push_field(&mut entry, "format", text_json(documentation_format_name(&section.format)));
        push_item(&mut sections, Json::Object(entry));
        i = i + 1;
    }
    push_field(&mut fields, "sections", Json::Array(sections));
    let mut decisions: Vec<Json> = Vec::new();
    let mut j: usize = 0;
    while j < workspace.decisions.len()
        invariant
            j <= workspace.decisions@.len(),
            items_height(decisions@) <= 1,
        decreases workspace.decisions.len() - j,
    {
        let decision = &workspace.decisions[j];
        let mut entry: Vec<(&'static str, Json)> = Vec::new();
        push_field(&mut entry, "id", text_json(decision.id.as_str()));
        push_field(&mut entry, "title", text_json(decision.title.as_str()));
        push_field(&mut entry, "owner", Json::Str(owner(&decision.owner)));
        push_field(&mut entry, "status", optional_json(&decision.status));
        push_field(&mut entry, "date", optional_json(&decision.date));
        push_field(&mut entry, "source", text_json(decision.source_path.as_str()));
        push_field(&mut entry, "format", text_json(decision_format_name(&decision.format)));
        push_item(&mut decisions, Json::Object(entry));
        j = j + 1;
    }
    push_field(&mut fields, "decisions", Json::Array(decisions));
    Json::Object(fields)
}

fn is_deployment_kind(kind: &ElementKind) -> (r: bool) {
    matches!(kind, ElementKind::DeploymentEnvironment | ElementKind::DeploymentGroup | ElementKind::DeploymentNode
        | ElementKind::InfrastructureNode | ElementKind::SoftwareSystemInstance | ElementKind::ContainerInstance)
}

fn views_of_kind(workspace: &Workspace, kind: ViewKind) -> (r: Json)
    ensures
        json_height(r) <= 4,
{
    let mut items: Vec<Json> = Vec::new();
    let mut i: usize = 0;
    while i < workspace.views.len()
        invariant
            i <= workspace.views@.len(),
            items_height(items@) <= 3,
        decreases workspace.views.len() - i,
    {
        if workspace.views[i].kind == kind {
            push_item(&mut items, view_json(workspace, &workspace.views[i]));
        }
        i = i + 1;
    }
    Json::Array(items)
}

/// The workspace as Structurizr-style JSON: model, views by kind, and the c4c extension with
/// all elements, styles and documentation. The text is a rendered JSON value and a newline.
pub fn json(workspace: &Workspace) -> (r: String)
    ensures
        exists|j: Json| r@ == render_json(j, 0) + "\n"@,
{
    let mut people: Vec<Json> = Vec::new();
    let mut systems: Vec<Json> = Vec::new();
    let mut deployment: Vec<Json> = Vec::new();
    let mut all: Vec<Json> = Vec::new();
    let mut i: usize = 0;
    while i < workspace.elements.len()
        invariant
            i <= workspace.elements@.len(),
            items_height(people@) <= 3,
            items_height(systems@) <= 7,
            items_height(deployment@) <= 3,
            items_height(all@) <= 3,
        decreases workspace.elements.len() - i,
    {
        let element = &workspace.elements[i];
        if matches!(element.kind, ElementKind::Person) {
            push_item(&mut people, element_json(element));
        }
        if matches!(element.kind, ElementKind::SoftwareSystem) {
            push_item(&mut systems, software_system_json(workspace, element));
        }
        if is_deployment_kind(&element.kind) {
            push_item(&mut deployment, element_json(element));
        }
        push_item(&mut all, element_json(element));
        i = i + 1;
    }
    let mut relationships: Vec<Json> = Vec::new();
    let mut k: usize = 0;
    while k < workspace.relationships.len()
        invariant
            k <= workspace.relationships@.len(),
            items_height(relationships@) <= 3,
        decreases workspace.relationships.len() - k,
    {
        push_item(&mut relationships, relationship_json(k, &workspace.relationships[k]));
        k = k + 1;
    }
    let mut model: Vec<(&'static str, Json)> = Vec::new();
    push_field(&mut model, "people", Json::Array(people));
    push_field(&mut model, "softwareSystems", Json::Array(systems));
    push_field(&mut model, "deploymentElements", Json::Array(deployment));
    push_field(&mut model, "relationships", Json::Array(relationships));
    let mut views: Vec<(&'static str, Json)> = Vec::new();
    push_field(&mut views, "systemLandscapeViews", views_of_kind(workspace, ViewKind::SystemLandscape));
    push_field(&mut views, "systemContextViews", views_of_kind(workspace, ViewKind::SystemContext));
    push_field(&mut views, "containerViews", views_of_kind(workspace, ViewKind::Container));
    push_field(&mut views, "componentViews", views_of_kind(workspace, ViewKind::Component));
    push_field(&mut views, "filteredViews", views_of_kind(workspace, ViewKind::Filtered));
    push_field(&mut views, "dynamicViews", views_of_kind(workspace, ViewKind::Dynamic));
    push_field(&mut views, "deploymentViews", views_of_kind(workspace, ViewKind::Deployment));
    push_field(&mut views, "customViews", views_of_kind(workspace, ViewKind::Custom));
    push_field(&mut views, "imageViews", views_of_kind(workspace, ViewKind::Image));
    push_field(&mut views, "archimateViews", views_of_kind(workspace, ViewKind::ArchiMate));
    let mut extension: Vec<(&'static str, Json)> = Vec::new();
    push_field(&mut extension, "formatVersion", text_json("8"));
    push_field(&mut extension, "identifiers", text_json(workspace.identifiers.as_str()));
    push_field(&mut extension, "elements", Json::Array(all));
    push_field(&mut extension, "styles", styles_json(workspace));
    push_field(&mut extension, "documentation", documentation_json(workspace));
    let mut root: Vec<(&'static str, Json)> = Vec::new();
    push_field(&mut root, "name", optional_json(&workspace.name));
    push_field(&mut root, "description", optional_json(&workspace.description));
    push_field(&mut root, "model", Json::Object(model));
    push_field(&mut root, "views", Json::Object(views));
    push_field(&mut root, "c4c", Json::Object(extension));
    let value = Json::Object(root);
    let text = value.render(0);
    cat(text.as_str(), "\n")
}

} // verus!
