use vstd::prelude::*;
use vstd::view::View as _;
use crate::model::{Element, Group, Relationship, RemovedRelationship, View, Workspace};
use crate::source::SourceMap;

verus! {

/// Declaration orders and group indices small enough to be shifted past another workspace's.
pub open spec fn shiftable(w: Workspace) -> bool {
    &&& forall|i: int| 0 <= i < w.elements@.len() ==> (#[trigger] w.elements@[i]).order < 0x4000_0000
        && (w.elements@[i].group matches Some(g) ==> g < 0x4000_0000)
    &&& forall|i: int| 0 <= i < w.relationships@.len() ==> (#[trigger] w.relationships@[i]).order < 0x4000_0000
    &&& forall|i: int| 0 <= i < w.removed_relationships@.len() ==> (#[trigger] w.removed_relationships@[i]).order < 0x4000_0000
    &&& forall|i: int| 0 <= i < w.views@.len() ==> (#[trigger] w.views@[i]).order < 0x4000_0000
    &&& forall|i: int| 0 <= i < w.groups@.len() ==> ((#[trigger] w.groups@[i]).parent matches Some(p) ==> p < 0x4000_0000)
    &&& w.groups@.len() < 0x4000_0000
}

/// Whether the workspace's orders and group indices are small enough to be shifted.
pub fn is_shiftable(w: &Workspace) -> (r: bool)
    ensures
        r == shiftable(*w),
{
    let limit: usize = 0x4000_0000;
    let mut i: usize = 0;
    while i < w.elements.len()
        invariant
            i <= w.elements@.len(),
            limit == 0x4000_0000,
            forall|j: int| 0 <= j < i ==> (#[trigger] w.elements@[j]).order < 0x4000_0000
                && (w.elements@[j].group matches Some(g) ==> g < 0x4000_0000),
        decreases w.elements.len() - i,
    {
        if w.elements[i].order >= limit {
            return false;
        }
        match w.elements[i].group {
            Some(g) => {
                if g >= limit {
                    return false;
                }
            },
            None => {},
        }
        i = i + 1;
    }
    let mut i: usize = 0;
    while i < w.relationships.len()
        invariant
            i <= w.relationships@.len(),
            limit == 0x4000_0000,
            forall|j: int| 0 <= j < i ==> (#[trigger] w.relationships@[j]).order < 0x4000_0000,
        decreases w.relationships.len() - i,
    {
        if w.relationships[i].order >= limit {
            return false;
        }
        i = i + 1;
    }
    let mut i: usize = 0;
    while i < w.removed_relationships.len()
        invariant
            i <= w.removed_relationships@.len(),
            limit == 0x4000_0000,
            forall|j: int| 0 <= j < i ==> (#[trigger] w.removed_relationships@[j]).order < 0x4000_0000,
        decreases w.removed_relationships.len() - i,
    {
        if w.removed_relationships[i].order >= limit {
            return false;
        }
        i = i + 1;
    }
    let mut i: usize = 0;
    while i < w.views.len()
        invariant
            i <= w.views@.len(),
            limit == 0x4000_0000,
            forall|j: int| 0 <= j < i ==> (#[trigger] w.views@[j]).order < 0x4000_0000,
        decreases w.views.len() - i,
    {
        if w.views[i].order >= limit {
            return false;
        }
        i = i + 1;
    }
    let mut i: usize = 0;
    while i < w.groups.len()
        invariant
            i <= w.groups@.len(),
            limit == 0x4000_0000,
            forall|j: int| 0 <= j < i ==> ((#[trigger] w.groups@[j]).parent matches Some(p) ==> p < 0x4000_0000),
        decreases w.groups.len() - i,
    {
        match w.groups[i].parent {
            Some(p) => {
                if p >= limit {
                    return false;
                }
            },
            None => {},
        }
        i = i + 1;
    }
    w.groups.len() < limit
}

/// One more than the largest declaration order of the workspace, or zero.
fn order_offset(base: &Workspace) -> (r: usize)
    requires
        shiftable(*base),
    ensures
        r <= 0x4000_0000,
        forall|i: int| 0 <= i < base.elements@.len() ==> (#[trigger] base.elements@[i]).order < r,
        forall|i: int| 0 <= i < base.relationships@.len() ==> (#[trigger] base.relationships@[i]).order < r,
        forall|i: int| 0 <= i < base.removed_relationships@.len() ==> (#[trigger] base.removed_relationships@[i]).order < r,
        forall|i: int| 0 <= i < base.views@.len() ==> (#[trigger] base.views@[i]).order < r,
{
    let mut top: usize = 0;
    let mut i: usize = 0;
    while i < base.elements.len()
        invariant
            shiftable(*base),
            i <= base.elements@.len(),
            top <= 0x4000_0000,
            forall|j: int| 0 <= j < i ==> (#[trigger] base.elements@[j]).order < top,
        decreases base.elements.len() - i,
    {
        if base.elements[i].order + 1 > top {
            top = base.elements[i].order + 1;
        }
        i = i + 1;
    }
    let mut i: usize = 0;
    while i < base.relationships.len()
        invariant
            shiftable(*base),
            i <= base.relationships@.len(),
            top <= 0x4000_0000,
            forall|j: int| 0 <= j < base.elements@.len() ==> (#[trigger] base.elements@[j]).order < top,
            forall|j: int| 0 <= j < i ==> (#[trigger] base.relationships@[j]).order < top,
        decreases base.relationships.len() - i,
    {
        if base.relationships[i].order + 1 > top {
            top = base.relationships[i].order + 1;
        }
        i = i + 1;
    }
    let mut i: usize = 0;
    while i < base.removed_relationships.len()
        invariant
            shiftable(*base),
            i <= base.removed_relationships@.len(),
            top <= 0x4000_0000,
            forall|j: int| 0 <= j < base.elements@.len() ==> (#[trigger] base.elements@[j]).order < top,
            forall|j: int| 0 <= j < base.relationships@.len() ==> (#[trigger] base.relationships@[j]).order < top,
            forall|j: int| 0 <= j < i ==> (#[trigger] base.removed_relationships@[j]).order < top,
        decreases base.removed_relationships.len() - i,
    {
        if base.removed_relationships[i].order + 1 > top {
            top = base.removed_relationships[i].order + 1;
        }
        i = i + 1;
    }
    let mut i: usize = 0;
    while i < base.views.len()
        invariant
            shiftable(*base),
            i <= base.views@.len(),
            top <= 0x4000_0000,
            forall|j: int| 0 <= j < base.elements@.len() ==> (#[trigger] base.elements@[j]).order < top,
            forall|j: int| 0 <= j < base.relationships@.len() ==> (#[trigger] base.relationships@[j]).order < top,
            forall|j: int| 0 <= j < base.removed_relationships@.len() ==> (#[trigger] base.removed_relationships@[j]).order < top,
            forall|j: int| 0 <= j < i ==> (#[trigger] base.views@[j]).order < top,
        decreases base.views.len() - i,
    {
        if base.views[i].order + 1 > top {
            top = base.views[i].order + 1;
        }
        i = i + 1;
    }
    top
}

/// The derived elements follow the base's in `r`, with their orders moved by `shift`, which
/// exceeds every base order.
pub open spec fn shifted(base: Workspace, derived: Workspace, r: Workspace, shift: int) -> bool {
    &&& forall|i: int| 0 <= i < base.elements@.len() ==> (#[trigger] base.elements@[i]).order < shift
    &&& forall|i: int| 0 <= i < base.relationships@.len() ==> (#[trigger] base.relationships@[i]).order < shift
    &&& forall|i: int| 0 <= i < base.views@.len() ==> (#[trigger] base.views@[i]).order < shift
    &&& forall|j: int| 0 <= j < derived.elements@.len() ==> {
        let e = #[trigger] r.elements@[base.elements@.len() + j];
        &&& e.id == derived.elements@[j].id
        &&& e.kind == derived.elements@[j].kind
        &&& e.parent == derived.elements@[j].parent
        &&& e.order == derived.elements@[j].order + shift
    }
}

/// `s` is `d` with every order moved by `shift`.
pub open spec fn moved(d: Seq<Element>, s: Seq<Element>, shift: int) -> bool {
    &&& s.len() == d.len()
    &&& forall|j: int| 0 <= j < d.len() ==> {
        let e = #[trigger] s[j];
        &&& e.id == d[j].id
        &&& e.kind == d[j].kind
        &&& e.parent == d[j].parent
        &&& e.order == d[j].order + shift
    }
}

/// Every order of `b` is below `shift`.
pub open spec fn below(b: Workspace, shift: int) -> bool {
    &&& forall|i: int| 0 <= i < b.elements@.len() ==> (#[trigger] b.elements@[i]).order < shift
    &&& forall|i: int| 0 <= i < b.relationships@.len() ==> (#[trigger] b.relationships@[i]).order < shift
    &&& forall|i: int| 0 <= i < b.views@.len() ==> (#[trigger] b.views@[i]).order < shift
}

/// A workspace that extends `base`: the derived declarations follow the base's, with their
/// declaration orders shifted past the base's and their group indices past the base's groups;
/// the derived name, description, identifiers mode, extension, implied-relationship setting,
/// enterprise and branding win where it has them; everything else is concatenated, base first.
pub fn merge_workspaces(base: Workspace, derived: Workspace, sources: SourceMap) -> (r: Workspace)
    requires
        shiftable(base),
        shiftable(derived),
    ensures
        r.elements@.len() == base.elements@.len() + derived.elements@.len(),
        r.relationships@.len() == base.relationships@.len() + derived.relationships@.len(),
        r.views@.len() == base.views@.len() + derived.views@.len(),
        r.groups@.len() == base.groups@.len() + derived.groups@.len(),
        forall|i: int| 0 <= i < base.elements@.len() ==> (#[trigger] r.elements@[i]) == base.elements@[i],
        forall|i: int| 0 <= i < base.relationships@.len() ==> (#[trigger] r.relationships@[i]) == base.relationships@[i],
        forall|i: int| 0 <= i < base.views@.len() ==> (#[trigger] r.views@[i]) == base.views@[i],
        exists|shift: int| #![trigger shifted(base, derived, r, shift)] shifted(base, derived, r, shift),
        r.name == (if derived.name is Some { derived.name } else { base.name }),
        r.identifiers == derived.identifiers,
        r.source_map == sources,
{
    let offset = order_offset(&base);
    let group_offset = base.groups.len();
    let ghost base0 = base;
    let ghost derived0 = derived;
    let mut merged = base;
    let mut derived = derived;
    let ghost base_elements = merged.elements@;
    let ghost derived_elements = derived.elements@;
    let mut k: usize = 0;
    while k < derived.elements.len()
        invariant
            k <= derived.elements@.len(),
            derived.elements@.len() == derived_elements.len(),
            forall|j: int| 0 <= j < derived_elements.len() ==> {
                let e = #[trigger] derived.elements@[j];
                &&& e.id == derived_elements[j].id
                &&& e.kind == derived_elements[j].kind
                &&& e.parent == derived_elements[j].parent
                &&& e.order == derived_elements[j].order + if j < k { offset as int } else { 0int }
                &&& (j >= k ==> e.group == derived_elements[j].group)
            },
            forall|j: int| 0 <= j < derived_elements.len() ==> (#[trigger] derived_elements[j]).order < 0x4000_0000
                && (derived_elements[j].group matches Some(g) ==> g < 0x4000_0000),
            offset <= 0x4000_0000,
            group_offset < 0x4000_0000,
            derived.relationships@ == derived0.relationships@,
            derived.removed_relationships@ == derived0.removed_relationships@,
            derived.views@ == derived0.views@,
            derived.groups@ == derived0.groups@,
            shiftable(derived0),
            derived_elements == derived0.elements@,
            derived.name == derived0.name,
            derived.identifiers == derived0.identifiers,
        decreases derived.elements.len() - k,
    {
        let order = derived.elements[k].order;
        derived.elements[k].order = order + offset;
        match derived.elements[k].group {
            Some(g) => {
                derived.elements[k].group = Some(g + group_offset);
            },
            None => {},
        }
        k = k + 1;
    }
    let ghost shifted_elements = derived.elements@;
    assert(moved(derived0.elements@, shifted_elements, offset as int));
    assert(below(base0, offset as int));
    let mut k: usize = 0;
    while k < derived.relationships.len()
        invariant
            k <= derived.relationships@.len(),
            forall|j: int| k <= j < derived.relationships@.len() ==> (#[trigger] derived.relationships@[j]).order < 0x4000_0000,
            offset <= 0x4000_0000,
            derived.removed_relationships@ == derived0.removed_relationships@,
            derived.views@ == derived0.views@,
            derived.groups@ == derived0.groups@,
            shiftable(derived0),
            derived.elements@ == shifted_elements,
            moved(derived0.elements@, shifted_elements, offset as int),
            below(base0, offset as int),
            derived.relationships@.len() == derived0.relationships@.len(),
            derived.views@.len() == derived0.views@.len(),
            derived.groups@.len() == derived0.groups@.len(),
            derived.name == derived0.name,
            derived.identifiers == derived0.identifiers,
        decreases derived.relationships.len() - k,
    {
        let order = derived.relationships[k].order;
        derived.relationships[k].order = order + offset;
        k = k + 1;
    }
    let mut k: usize = 0;
    while k < derived.removed_relationships.len()
        invariant
            k <= derived.removed_relationships@.len(),
            forall|j: int| k <= j < derived.removed_relationships@.len() ==> (#[trigger] derived.removed_relationships@[j]).order < 0x4000_0000,
            offset <= 0x4000_0000,
            derived.views@ == derived0.views@,
            derived.groups@ == derived0.groups@,
            shiftable(derived0),
            derived.elements@ == shifted_elements,
            moved(derived0.elements@, shifted_elements, offset as int),
            below(base0, offset as int),
            derived.relationships@.len() == derived0.relationships@.len(),
            derived.views@.len() == derived0.views@.len(),
            derived.groups@.len() == derived0.groups@.len(),
            derived.name == derived0.name,
            derived.identifiers == derived0.identifiers,
        decreases derived.removed_relationships.len() - k,
    {
        let order = derived.removed_relationships[k].order;
        derived.removed_relationships[k].order = order + offset;
        k = k + 1;
    }
    let mut k: usize = 0;
    while k < derived.views.len()
        invariant
            k <= derived.views@.len(),
            forall|j: int| k <= j < derived.views@.len() ==> (#[trigger] derived.views@[j]).order < 0x4000_0000,
            offset <= 0x4000_0000,
            derived.groups@ == derived0.groups@,
            shiftable(derived0),
            derived.elements@ == shifted_elements,
            moved(derived0.elements@, shifted_elements, offset as int),
            below(base0, offset as int),
            derived.relationships@.len() == derived0.relationships@.len(),
            derived.views@.len() == derived0.views@.len(),
            derived.groups@.len() == derived0.groups@.len(),
            derived.name == derived0.name,
            derived.identifiers == derived0.identifiers,
        decreases derived.views.len() - k,
    {
        let order = derived.views[k].order;
        derived.views[k].order = order + offset;
        k = k + 1;
    }
    let mut k: usize = 0;
    while k < derived.groups.len()
        invariant
            k <= derived.groups@.len(),
            forall|j: int| k <= j < derived.groups@.len() ==> ((#[trigger] derived.groups@[j]).parent matches Some(p) ==> p < 0x4000_0000),
            group_offset < 0x4000_0000,
            derived.elements@ == shifted_elements,
            moved(derived0.elements@, shifted_elements, offset as int),
            below(base0, offset as int),
            derived.relationships@.len() == derived0.relationships@.len(),
            derived.views@.len() == derived0.views@.len(),
            derived.groups@.len() == derived0.groups@.len(),
            derived.name == derived0.name,
            derived.identifiers == derived0.identifiers,
        decreases derived.groups.len() - k,
    {
        match derived.groups[k].parent {
            Some(p) => {
                derived.groups[k].parent = Some(p + group_offset);
            },
            None => {},
        }
        k = k + 1;
    }
    assert(merged.elements@ == base0.elements@);
    assert(derived.elements@.len() == derived0.elements@.len());
    if derived.name.is_some() {
        merged.name = derived.name;
    }
    if derived.description.is_some() {
        merged.description = derived.description;
    }
    merged.identifiers = derived.identifiers;
    merged.identifiers_explicit = derived.identifiers_explicit;
    merged.extension = derived.extension;
    if derived.implied_relationships.is_some() {
        merged.implied_relationships = derived.implied_relationships;
    }
    if derived.enterprise.is_some() {
        merged.enterprise = derived.enterprise;
    }
    if derived.branding.is_some() {
        merged.branding = derived.branding;
    }
    merged.span = derived.span;
    merged.source_map = sources;
    merged.elements.append(&mut derived.elements);
    merged.relationships.append(&mut derived.relationships);
    merged.removed_relationships.append(&mut derived.removed_relationships);
    merged.views.append(&mut derived.views);
    merged.attributes.append(&mut derived.attributes);
    merged.properties.append(&mut derived.properties);
    merged.view_properties.append(&mut derived.view_properties);
    merged.directives.append(&mut derived.directives);
    merged.preserved.append(&mut derived.preserved);
    merged.groups.append(&mut derived.groups);
    merged.element_styles.append(&mut derived.element_styles);
    merged.relationship_styles.append(&mut derived.relationship_styles);
    merged.themes.append(&mut derived.themes);
    merged.terminology.append(&mut derived.terminology);
    merged.dependencies.append(&mut derived.dependencies);
    merged.documentation.append(&mut derived.documentation);
    merged.decisions.append(&mut derived.decisions);
    merged.warnings.append(&mut derived.warnings);
    assert(shifted(base0, derived0, merged, offset as int));
    merged
}

} // verus!
