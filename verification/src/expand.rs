use vstd::prelude::*;
use vstd::view::View as _;
use crate::lookup::{descends_from, find, is_descendant_of, software_system_of, deployment_environment, system_of};
use crate::model::{Element, ElementKind, FilterMode, Relationship, View, ViewKind, Workspace};
use crate::text::{chars_of, seq_eq, string_of, trim_bounds, trim_ws};
use crate::view_expression::parse_view_expression;

verus! {

/// The elements and relationships that a view shows.
#[derive(Debug)]
pub struct ExpandedView {
    pub elements: Vec<String>,
    pub relationships: Vec<usize>,
}

/// Whether some string of `v` is `x`.
pub open spec fn holds(v: Seq<String>, x: Seq<char>) -> bool {
    exists|j: int| 0 <= j < v.len() && (#[trigger] v[j])@ == x
}

proof fn lemma_holds_push(v: Seq<String>, s: String, x: Seq<char>)
    ensures
        holds(v.push(s), x) == (holds(v, x) || s@ == x),
{
    if holds(v, x) {
        let j = choose|j: int| 0 <= j < v.len() && (#[trigger] v[j])@ == x;
        assert(v.push(s)[j] == v[j]);
    }
    if s@ == x {
        assert(v.push(s)[v.len() as int] == s);
    }
    if holds(v.push(s), x) {
        let j = choose|j: int| 0 <= j < v.len() + 1 && (#[trigger] v.push(s)[j])@ == x;
        if j < v.len() {
            assert(v.push(s)[j] == v[j]);
        }
    }
}

/// No two strings of `s` are equal.
pub open spec fn distinct_strings(s: Seq<String>) -> bool {
    forall|i: int, j: int| 0 <= i < j < s.len() ==> (#[trigger] s[i])@ != (#[trigger] s[j])@
}

/// No string of `kept` equals a string of `all` from position `i` on.
spec fn apart_from(kept: Seq<String>, all: Seq<String>, i: int) -> bool {
    forall|j: int, q: int| 0 <= j < kept.len() && i <= q < all.len() ==> (#[trigger] kept[j])@ != (#[trigger] all[q])@
}

proof fn lemma_keep_next(kept: Seq<String>, all: Seq<String>, i: int, taken: bool)
    requires
        distinct_strings(all),
        distinct_strings(kept),
        apart_from(kept, all, i),
        0 <= i < all.len(),
    ensures
        taken ==> distinct_strings(kept.push(all[i])) && apart_from(kept.push(all[i]), all, i + 1),
        apart_from(kept, all, i + 1),
{
    if taken {
        let next = kept.push(all[i]);
        assert forall|a: int, b: int| 0 <= a < b < next.len() implies (#[trigger] next[a])@ != (#[trigger] next[b])@ by {
            assert(next[a] == kept[a]);
            if b < kept.len() {
                assert(next[b] == kept[b]);
            } else {
                assert(kept[a]@ != all[i]@);
            }
        }
        assert forall|j: int, q: int| 0 <= j < next.len() && i + 1 <= q < all.len() implies (#[trigger] next[j])@ != (#[trigger] all[q])@ by {
            if j < kept.len() {
                assert(next[j] == kept[j]);
            }
        }
    }
}

impl ExpandedView {
    /// Whether the view shows the element with identifier `id`.
    pub open spec fn has(&self, id: Seq<char>) -> bool {
        holds(self.elements@, id)
    }

    /// Whether the view shows the relationship at index `k`.
    pub open spec fn has_rel(&self, k: int) -> bool {
        exists|i: int| 0 <= i < self.relationships@.len() && (#[trigger] self.relationships@[i]) as int == k
    }

    /// Every relationship shown is one of the first `n`.
    pub open spec fn within(&self, n: nat) -> bool {
        forall|i: int| 0 <= i < self.relationships@.len() ==> (#[trigger] self.relationships@[i]) < n
    }

    /// No element and no relationship is listed twice.
    pub open spec fn distinct(&self) -> bool {
        &&& distinct_strings(self.elements@)
        &&& self.relationships@.no_duplicates()
    }

    /// Every relationship shown is one of the first `n`, and nothing is listed twice.
    pub open spec fn fits(&self, n: nat) -> bool {
        self.within(n) && self.distinct()
    }

    pub fn new() -> (e: Self)
        ensures
            e.elements@.len() == 0,
            e.relationships@.len() == 0,
            forall|n: nat| e.fits(n),
    {
        ExpandedView { elements: Vec::new(), relationships: Vec::new() }
    }

    pub fn contains(&self, id: &str) -> (r: bool)
        ensures
            r == self.has(id@),
    {
        let mut i: usize = 0;
        while i < self.elements.len()
            invariant
                i <= self.elements@.len(),
                forall|j: int| 0 <= j < i ==> (#[trigger] self.elements@[j])@ != id@,
            decreases self.elements.len() - i,
        {
            if seq_eq(self.elements[i].as_str(), id) {
                return true;
            }
            i = i + 1;
        }
        false
    }

    pub fn insert(&mut self, id: &str)
        ensures
            forall|x: Seq<char>| final(self).has(x) == (old(self).has(x) || x == id@),
            final(self).relationships@ == old(self).relationships@,
            old(self).distinct() ==> final(self).distinct(),
            grows(*old(self), *final(self)),
            grows_rels(*old(self), *final(self)),
    {
        if !self.contains(id) {
            self.elements.push(String::from_str(id));
            proof {
                assert forall|i: int, j: int| old(self).distinct() && 0 <= i < j < self.elements@.len()
                    implies (#[trigger] self.elements@[i])@ != (#[trigger] self.elements@[j])@ by {
                    assert(self.elements@[i] == old(self).elements@[i]);
                    if j < old(self).elements@.len() {
                        assert(self.elements@[j] == old(self).elements@[j]);
                    }
                }
                assert forall|x: Seq<char>| self.has(x) == (old(self).has(x) || x == id@) by {
                    if old(self).has(x) {
                        let i = choose|i: int| 0 <= i < old(self).elements@.len() && (#[trigger] old(self).elements@[i])@ == x;
                        assert(self.elements@[i] == old(self).elements@[i]);
                    }
                    if x == id@ {
                        assert(self.elements@[self.elements@.len() - 1]@ == id@);
                    }
                    if self.has(x) {
                        let i = choose|i: int| 0 <= i < self.elements@.len() && (#[trigger] self.elements@[i])@ == x;
                        if i < old(self).elements@.len() {
                            assert(self.elements@[i] == old(self).elements@[i]);
                        }
                    }
                }
            }
        }
    }

    pub fn remove(&mut self, id: &str)
        ensures
            forall|x: Seq<char>| final(self).has(x) == (old(self).has(x) && x != id@),
            final(self).relationships@ == old(self).relationships@,
            old(self).distinct() ==> final(self).distinct(),
    {
        let mut kept: Vec<String> = Vec::new();
        let mut i: usize = 0;
        while i < self.elements.len()
            invariant
                i <= self.elements@.len(),
                forall|x: Seq<char>| #[trigger] holds(kept@, x) == (holds(self.elements@.take(i as int), x) && x != id@),
                self.distinct() ==> forall|a: int, b: int| 0 <= a < b < kept@.len() ==> (#[trigger] kept@[a])@ != (#[trigger] kept@[b])@,
            decreases self.elements.len() - i,
        {
            let ghost before = kept@;
            if !seq_eq(self.elements[i].as_str(), id) {
                kept.push(self.elements[i].clone());
                proof {
                    if self.distinct() {
                        let e = self.elements@[i as int]@;
                        assert(!holds(self.elements@.take(i as int), e)) by {
                            if holds(self.elements@.take(i as int), e) {
                                let q = choose|q: int| 0 <= q < i && (#[trigger] self.elements@.take(i as int)[q])@ == e;
                                assert(self.elements@[q] == self.elements@.take(i as int)[q]);
                            }
                        }
                        assert(!holds(before, e));
                        assert forall|a: int, b: int| 0 <= a < b < kept@.len() implies (#[trigger] kept@[a])@ != (#[trigger] kept@[b])@ by {
                            assert(kept@[a] == before[a]);
                            if b < before.len() {
                                assert(kept@[b] == before[b]);
                            }
                        }
                    }
                }
            }
            proof {
                let prefix = self.elements@.take(i + 1);
                assert(prefix =~= self.elements@.take(i as int).push(self.elements@[i as int]));
                assert forall|x: Seq<char>| #[trigger] holds(kept@, x) == (holds(prefix, x) && x != id@) by {
                    lemma_holds_push(self.elements@.take(i as int), self.elements@[i as int], x);
                    if kept@.len() > before.len() {
                        lemma_holds_push(before, self.elements@[i as int], x);
                        assert(kept@ =~= before.push(self.elements@[i as int]));
                    } else {
                        assert(kept@ =~= before);
                    }
                }
            }
            i = i + 1;
        }
        proof {
            assert(self.elements@.take(self.elements@.len() as int) =~= self.elements@);
            assert forall|x: Seq<char>| holds(kept@, x) == (old(self).has(x) && x != id@) by {
                assert(holds(kept@, x) == (holds(self.elements@, x) && x != id@));
            }
        }
        self.elements = kept;
    }

    pub fn contains_rel(&self, k: usize) -> (r: bool)
        ensures
            r == self.has_rel(k as int),
    {
        let mut i: usize = 0;
        while i < self.relationships.len()
            invariant
                i <= self.relationships@.len(),
                forall|j: int| 0 <= j < i ==> (#[trigger] self.relationships@[j]) != k,
            decreases self.relationships.len() - i,
        {
            if self.relationships[i] == k {
                return true;
            }
            i = i + 1;
        }
        false
    }

    pub fn insert_rel(&mut self, k: usize)
        ensures
            forall|x: int| final(self).has_rel(x) == (old(self).has_rel(x) || x == k),
            forall|n: nat| old(self).within(n) && k < n ==> final(self).within(n),
            final(self).elements@ == old(self).elements@,
            old(self).distinct() ==> final(self).distinct(),
            grows(*old(self), *final(self)),
            grows_rels(*old(self), *final(self)),
    {
        if !self.contains_rel(k) {
            self.relationships.push(k);
            proof {
                if old(self).distinct() {
                    assert forall|i: int, j: int| 0 <= i < self.relationships@.len() && 0 <= j < self.relationships@.len() && i != j
                        implies self.relationships@[i] != self.relationships@[j] by {
                        if i < old(self).relationships@.len() {
                            assert(self.relationships@[i] == old(self).relationships@[i]);
                        }
                        if j < old(self).relationships@.len() {
                            assert(self.relationships@[j] == old(self).relationships@[j]);
                        }
                    }
                }
                assert forall|x: int| self.has_rel(x) == (old(self).has_rel(x) || x == k) by {
                    if old(self).has_rel(x) {
                        let i = choose|i: int| 0 <= i < old(self).relationships@.len() && (#[trigger] old(self).relationships@[i]) as int == x;
                        assert(self.relationships@[i] == old(self).relationships@[i]);
                    }
                    if x == k {
                        assert(self.relationships@[self.relationships@.len() - 1] == k);
                    }
                }
            }
        }
    }
}

/// The source and destination of a relationship selector `source -> destination`.
pub fn relationship_pattern(value: &str) -> (r: Option<(String, String)>)
    ensures
        match r {
            Some((a, b)) => exists|k: int| #![trigger value@.subrange(k, k + 2)]
                0 <= k && k + 2 <= value@.len() && value@.subrange(k, k + 2) == "->"@
                && a@ == trim_ws(value@.subrange(0, k)) && b@ == trim_ws(value@.subrange(k + 2, value@.len() as int)),
            None => !crate::text::has_infix(value@, "->"@),
        },
{
    let v = chars_of(value);
    proof {
        reveal_strlit("->");
    }
    if v.len() < 2 {
        assert(!crate::text::has_infix(value@, "->"@)) by {
            if crate::text::has_infix(value@, "->"@) {
                let i = choose|i: int| 0 <= i <= value@.len() - 2 && #[trigger] value@.subrange(i, i + 2) == "->"@;
            }
        }
        return None;
    }
    let mut k: usize = 0;
    while k + 1 < v.len()
        invariant
            v@ == value@,
            v@.len() >= 2,
            k + 1 <= v@.len(),
            forall|j: int| 0 <= j < k ==> #[trigger] v@.subrange(j, j + 2) != "->"@,
        decreases v.len() - k,
    {
        proof {
            reveal_strlit("->");
        }
        if v[k] == '-' && v[k + 1] == '>' {
            let (a0, a1) = trim_bounds(&v.as_slice()[0..k]);
            let (b0, b1) = trim_bounds(&v.as_slice()[k + 2..v.len()]);
            let a = string_of(&v.as_slice()[a0..a1]);
            let b = string_of(&v.as_slice()[k + 2 + b0..k + 2 + b1]);
            proof {
                assert(v@.subrange(k as int, k + 2) =~= "->"@);
                assert(v@.subrange(0, k as int) =~= v@.subrange(0, k as int));
                assert(a@ =~= v@.subrange(0, k as int).subrange(a0 as int, a1 as int));
                assert(b@ =~= v@.subrange(k + 2, v@.len() as int).subrange(b0 as int, b1 as int));
            }
            return Some((a, b));
        }
        assert(v@.subrange(k as int, k + 2)[0] == v@[k as int]);
        assert(v@.subrange(k as int, k + 2)[1] == v@[k + 1]);
        k = k + 1;
    }
    assert(!crate::text::has_infix(value@, "->"@)) by {
        reveal_strlit("->");
        if crate::text::has_infix(value@, "->"@) {
            let i = choose|i: int| 0 <= i <= value@.len() - 2 && #[trigger] value@.subrange(i, i + 2) == "->"@;
            assert(v@.subrange(i, i + 2) != "->"@);
        }
    }
    None
}

/// Whether a relationship matches a selector's source and destination (`*` matches any).
pub open spec fn rel_matches(r: Relationship, source: Seq<char>, destination: Seq<char>) -> bool {
    (source == "*"@ || r.source@ == source) && (destination == "*"@ || r.destination@ == destination)
}

pub fn relationship_matches(relationship: &Relationship, source: &str, destination: &str) -> (r: bool)
    ensures
        r == rel_matches(*relationship, source@, destination@),
{
    (seq_eq(source, "*") || seq_eq(relationship.source.as_str(), source))
        && (seq_eq(destination, "*") || seq_eq(relationship.destination.as_str(), destination))
}

/// The first view whose key is `key`.
pub fn view_by_key(workspace: &Workspace, key: &str) -> (r: Option<usize>)
    ensures
        match r {
            Some(k) => k < workspace.views@.len()
                && (workspace.views@[k as int].key matches Some(x) && x@ == key@),
            None => forall|k: int| 0 <= k < workspace.views@.len() ==>
                !((#[trigger] workspace.views@[k]).key matches Some(x) && x@ == key@),
        },
{
    let mut k: usize = 0;
    while k < workspace.views.len()
        invariant
            k <= workspace.views@.len(),
            forall|j: int| 0 <= j < k ==> !((#[trigger] workspace.views@[j]).key matches Some(x) && x@ == key@),
        decreases workspace.views.len() - k,
    {
        match &workspace.views[k].key {
            Some(x) => {
                if seq_eq(x.as_str(), key) {
                    return Some(k);
                }
            },
            None => {},
        }
        k = k + 1;
    }
    None
}

/// The view a filtered view is based on.
pub fn static_base_view(workspace: &Workspace, view: &View) -> (r: Option<usize>)
    ensures
        match r {
            Some(k) => k < workspace.views@.len(),
            None => true,
        },
        view.filter is None ==> r is None,
{
    match &view.filter {
        Some(filter) => view_by_key(workspace, filter.base_key.identifier.as_str()),
        None => None,
    }
}

/// What an endpoint of a relationship is drawn as in `view`: in a system context view whose
/// implied relationships are on, anything inside the scope is drawn as the scope.
pub open spec fn endpoint(w: Workspace, view: View, id: Seq<char>) -> Seq<char> {
    match view.scope {
        Some(scope) => if view.kind == ViewKind::SystemContext
            && !(w.implied_relationships matches Some(x) && x@ == "false"@)
            && descends_from(w.elements@, id, scope@, w.elements@.len()) {
            scope@
        } else {
            id
        },
        None => id,
    }
}

pub fn view_endpoint(workspace: &Workspace, view: &View, identifier: &str) -> (r: String)
    ensures
        r@ == endpoint(*workspace, *view, identifier@),
{
    match &view.scope {
        Some(scope) => {
            let implied_off = match &workspace.implied_relationships {
                Some(x) => seq_eq(x.as_str(), "false"),
                None => false,
            };
            if matches!(view.kind, ViewKind::SystemContext) && !implied_off
                && is_descendant_of(workspace, identifier, scope.as_str()) {
                scope.clone()
            } else {
                String::from_str(identifier)
            }
        },
        None => String::from_str(identifier),
    }
}

/// Whether an element may join a container view of `scope` through a relationship.
/// Whether a container view of `scope` may show `id` through a relationship: the scope itself,
/// a person or software system, or a container of the scope.
pub open spec fn container_view_allows(w: Workspace, scope: Seq<char>, id: Seq<char>) -> bool {
    match crate::lookup::found(w.elements@, id) {
        Some(k) => {
            let e = w.elements@[k];
            e.id@ == scope || e.kind == ElementKind::Person || e.kind == ElementKind::SoftwareSystem
                || (e.kind == ElementKind::Container && crate::archi_layout::text_of(e.parent) == Some(scope))
        },
        None => false,
    }
}

/// Whether a component view of `scope` may show `id` through a relationship: the scope itself,
/// a person or software system, a component of the scope, or a container of the scope's
/// software system.
pub open spec fn component_view_allows(w: Workspace, scope: Seq<char>, id: Seq<char>) -> bool {
    match crate::lookup::found(w.elements@, id) {
        Some(k) => {
            let e = w.elements@[k];
            if e.id@ == scope || e.kind == ElementKind::Person || e.kind == ElementKind::SoftwareSystem {
                true
            } else if e.kind == ElementKind::Component && crate::archi_layout::text_of(e.parent) == Some(scope) {
                true
            } else if e.kind == ElementKind::Container {
                system_of(w.elements@, id) == system_of(w.elements@, scope)
            } else {
                false
            }
        },
        None => false,
    }
}

pub(crate) fn container_view_element_allowed(workspace: &Workspace, scope: &str, identifier: &str) -> (r: bool)
    ensures
        r == container_view_allows(*workspace, scope@, identifier@),
{
    match find(workspace, identifier) {
        Some(k) => {
            let element = &workspace.elements[k];
            seq_eq(element.id.as_str(), scope)
                || matches!(element.kind, ElementKind::Person | ElementKind::SoftwareSystem)
                || (matches!(element.kind, ElementKind::Container) && match &element.parent {
                    Some(p) => seq_eq(p.as_str(), scope),
                    None => false,
                })
        },
        None => false,
    }
}

fn same_option(a: &Option<String>, b: &Option<String>) -> (r: bool)
    ensures
        r == match (*a, *b) {
            (Some(x), Some(y)) => x@ == y@,
            (None, None) => true,
            _ => false,
        },
{
    match (a, b) {
        (Some(x), Some(y)) => seq_eq(x.as_str(), y.as_str()),
        (None, None) => true,
        _ => false,
    }
}

/// Whether an element may join a component view of `scope` through a relationship.
pub(crate) fn component_view_element_allowed(workspace: &Workspace, scope: &str, identifier: &str) -> (r: bool)
    ensures
        r == component_view_allows(*workspace, scope@, identifier@),
{
    let system = software_system_of(workspace, scope);
    match find(workspace, identifier) {
        Some(k) => {
            let element = &workspace.elements[k];
            if seq_eq(element.id.as_str(), scope) || matches!(element.kind, ElementKind::Person | ElementKind::SoftwareSystem) {
                return true;
            }
            if matches!(element.kind, ElementKind::Component) {
                let inside = match &element.parent {
                    Some(p) => seq_eq(p.as_str(), scope),
                    None => false,
                };
                if inside {
                    return true;
                }
            }
            if matches!(element.kind, ElementKind::Container) {
                let other = software_system_of(workspace, identifier);
                return same_option(&other, &system);
            }
            false
        },
        None => false,
    }
}

/// Adds every relationship whose two endpoints are shown.
fn add_connecting(workspace: &Workspace, expanded: &mut ExpandedView)
    requires
        old(expanded).fits(workspace.relationships@.len()),
    ensures
        final(expanded).fits(workspace.relationships@.len()),
        final(expanded).elements@ == old(expanded).elements@,
        forall|x: int| final(expanded).has_rel(x) == (old(expanded).has_rel(x) || (0 <= x < workspace.relationships@.len()
            && old(expanded).has(workspace.relationships@[x].source@) && old(expanded).has(workspace.relationships@[x].destination@))),
{
    let mut index: usize = 0;
    while index < workspace.relationships.len()
        invariant
            index <= workspace.relationships@.len(),
            expanded.fits(workspace.relationships@.len()),
            expanded.elements@ == old(expanded).elements@,
            forall|x: int| expanded.has_rel(x) == (old(expanded).has_rel(x) || (0 <= x < index
                && old(expanded).has(workspace.relationships@[x].source@) && old(expanded).has(workspace.relationships@[x].destination@))),
        decreases workspace.relationships.len() - index,
    {
        let relationship = &workspace.relationships[index];
        if expanded.contains(relationship.source.as_str()) && expanded.contains(relationship.destination.as_str()) {
            expanded.insert_rel(index);
        }
        index = index + 1;
    }
}

/// Whether some include selector of the view is `*` or `*?`.
pub open spec fn has_wildcard(view: View) -> bool {
    exists|i: int| 0 <= i < view.includes@.len()
        && ((#[trigger] view.includes@[i]).value@ == "*"@ || view.includes@[i].value@ == "*?"@)
}

/// What a view with a wildcard include and no excludes is sure to show: every element for an
/// ArchiMate view, every person and software system for a system landscape.
pub open spec fn wildcard_shows(w: Workspace, view: View, ex: ExpandedView) -> bool {
    has_wildcard(view) && view.excludes@.len() == 0 ==> {
        &&& view.kind is ArchiMate ==> forall|i: int| 0 <= i < w.elements@.len() ==> ex.has(#[trigger] w.elements@[i].id@)
        &&& view.kind is SystemLandscape ==> forall|i: int| 0 <= i < w.elements@.len()
            && ((#[trigger] w.elements@[i]).kind is Person || w.elements@[i].kind is SoftwareSystem) ==> ex.has(w.elements@[i].id@)
    }
}

/// Whether some include selector of the view is `*?`.
pub open spec fn has_reluctant(view: View) -> bool {
    exists|i: int| 0 <= i < view.includes@.len() && (#[trigger] view.includes@[i]).value@ == "*?"@
}

/// Relationship `k` has an end, as the view draws it, at `sc`.
pub open spec fn touches(w: Workspace, view: View, sc: Seq<char>, k: int) -> bool {
    endpoint(w, view, w.relationships@[k].source@) == sc || endpoint(w, view, w.relationships@[k].destination@) == sc
}

/// Relationship `k` is shown with both its ends, as the view draws them.
pub open spec fn shown_with_ends(w: Workspace, view: View, ex: ExpandedView, k: int) -> bool {
    ex.has_rel(k) && ex.has(endpoint(w, view, w.relationships@[k].source@))
        && ex.has(endpoint(w, view, w.relationships@[k].destination@))
}

/// Among the first `n` relationships, every one with an end at `sc` is shown with both ends.
pub open spec fn covers(w: Workspace, view: View, sc: Seq<char>, ex: ExpandedView, n: int) -> bool {
    forall|k: int| 0 <= k < n && #[trigger] touches(w, view, sc, k) ==> shown_with_ends(w, view, ex, k)
}

/// A system context view with a plain wildcard and no excludes shows every relationship that
/// has an end at its scope, whether the scope uses the other end or the other end uses the
/// scope, together with both ends.
pub open spec fn context_shows(w: Workspace, view: View, ex: ExpandedView) -> bool {
    view.kind is SystemContext && has_wildcard(view) && !has_reluctant(view) && view.excludes@.len() == 0
        && view.filter is None ==> match view.scope {
            Some(sc) => covers(w, view, sc@, ex, w.relationships@.len() as int),
            None => true,
        }
}

/// Where a view covers its scope, both what the scope uses and what uses the scope are shown:
/// the other end of every relationship that starts or ends at the scope.
pub proof fn scope_neighbours_shown(w: Workspace, view: View, sc: Seq<char>, ex: ExpandedView, k: int)
    requires
        covers(w, view, sc, ex, w.relationships@.len() as int),
        0 <= k < w.relationships@.len(),
    ensures
        endpoint(w, view, w.relationships@[k].source@) == sc ==> ex.has_rel(k) && ex.has(endpoint(w, view, w.relationships@[k].destination@)),
        endpoint(w, view, w.relationships@[k].destination@) == sc ==> ex.has_rel(k) && ex.has(endpoint(w, view, w.relationships@[k].source@)),
{
    if touches(w, view, sc, k) {
        assert(shown_with_ends(w, view, ex, k));
    }
}

/// Every relationship `a` shows, `b` shows too.
pub open spec fn grows_rels(a: ExpandedView, b: ExpandedView) -> bool {
    forall|k: int| a.has_rel(k) ==> #[trigger] b.has_rel(k)
}

proof fn lemma_covers_grow(w: Workspace, view: View, sc: Seq<char>, a: ExpandedView, b: ExpandedView, n: int)
    requires
        covers(w, view, sc, a, n),
        grows(a, b),
        grows_rels(a, b),
    ensures
        covers(w, view, sc, b, n),
{
    assert forall|k: int| 0 <= k < n && #[trigger] touches(w, view, sc, k) implies shown_with_ends(w, view, b, k) by {
        assert(shown_with_ends(w, view, a, k));
        assert(a.has(endpoint(w, view, w.relationships@[k].source@)));
        assert(a.has(endpoint(w, view, w.relationships@[k].destination@)));
    }
}

proof fn lemma_grows_rels_trans(a: ExpandedView, b: ExpandedView, c: ExpandedView)
    requires
        grows_rels(a, b),
        grows_rels(b, c),
    ensures
        grows_rels(a, c),
{
    assert forall|k: int| a.has_rel(k) implies #[trigger] c.has_rel(k) by {
        assert(b.has_rel(k));
    }
}

/// Everything `a` shows, `b` shows too.
pub open spec fn grows(a: ExpandedView, b: ExpandedView) -> bool {
    forall|x: Seq<char>| a.has(x) ==> #[trigger] b.has(x)
}

proof fn lemma_grows_trans(a: ExpandedView, b: ExpandedView, c: ExpandedView)
    requires
        grows(a, b),
        grows(b, c),
    ensures
        grows(a, c),
{
    assert forall|x: Seq<char>| a.has(x) implies #[trigger] c.has(x) by {
        assert(b.has(x));
    }
}

/// Adds what the view's explicit include selectors name, then the relationships between
/// shown elements.
pub fn apply_explicit_includes(workspace: &Workspace, view: &View, expanded: &mut ExpandedView)
    requires
        old(expanded).fits(workspace.relationships@.len()),
    ensures
        final(expanded).fits(workspace.relationships@.len()),
        grows(*old(expanded), *final(expanded)),
        grows_rels(*old(expanded), *final(expanded)),
{
    let mut s: usize = 0;
    while s < view.includes.len()
        invariant
            s <= view.includes@.len(),
            expanded.fits(workspace.relationships@.len()),
            grows(*old(expanded), *expanded),
            grows_rels(*old(expanded), *expanded),
        decreases view.includes.len() - s,
    {
        let selector = &view.includes[s];
        if seq_eq(selector.value.as_str(), "*") || seq_eq(selector.value.as_str(), "*?") {
        } else {
            match relationship_pattern(selector.value.as_str()) {
                Some((source, destination)) => {
                    let mut index: usize = 0;
                    while index < workspace.relationships.len()
                        invariant
                            index <= workspace.relationships@.len(),
                            expanded.fits(workspace.relationships@.len()),
                            grows(*old(expanded), *expanded),
                            grows_rels(*old(expanded), *expanded),
                        decreases workspace.relationships.len() - index,
                    {
                        let relationship = &workspace.relationships[index];
                        if relationship_matches(relationship, source.as_str(), destination.as_str()) {
                            let ghost s0 = *expanded;
                            expanded.insert(relationship.source.as_str());
                            let ghost s1 = *expanded;
                            expanded.insert(relationship.destination.as_str());
                            let ghost s2 = *expanded;
                            expanded.insert_rel(index);
                            proof {
                                lemma_grows_trans(s0, s1, s2);
                                lemma_grows_trans(s0, s2, *expanded);
                                lemma_grows_trans(*old(expanded), s0, *expanded);
                                lemma_grows_rels_trans(s0, s1, s2);
                                lemma_grows_rels_trans(s0, s2, *expanded);
                                lemma_grows_rels_trans(*old(expanded), s0, *expanded);
                            }
                        }
                        index = index + 1;
                    }
                },
                None => {
                    if selector.expression {
                        match parse_view_expression(selector.value.as_str()) {
                            Ok(expression) => {
                                let mut e: usize = 0;
                                while e < workspace.elements.len()
                                    invariant
                                        e <= workspace.elements@.len(),
                                        expanded.fits(workspace.relationships@.len()),
                                        grows(*old(expanded), *expanded),
                                        grows_rels(*old(expanded), *expanded),
                                    decreases workspace.elements.len() - e,
                                {
                                    if expression.matches_element(&workspace.elements[e]) {
                                        expanded.insert(workspace.elements[e].id.as_str());
                                    }
                                    e = e + 1;
                                }
                                let mut index: usize = 0;
                                while index < workspace.relationships.len()
                                    invariant
                                        index <= workspace.relationships@.len(),
                                        expanded.fits(workspace.relationships@.len()),
                                        grows(*old(expanded), *expanded),
                                        grows_rels(*old(expanded), *expanded),
                                    decreases workspace.relationships.len() - index,
                                {
                                    let relationship = &workspace.relationships[index];
                                    if expression.matches_relationship(relationship) {
                                        let ghost s0 = *expanded;
                                        expanded.insert(relationship.source.as_str());
                                        let ghost s1 = *expanded;
                                        expanded.insert(relationship.destination.as_str());
                                        let ghost s2 = *expanded;
                                        expanded.insert_rel(index);
                                        proof {
                                            lemma_grows_trans(s0, s1, s2);
                                            lemma_grows_trans(s0, s2, *expanded);
                                            lemma_grows_trans(*old(expanded), s0, *expanded);
                                            lemma_grows_rels_trans(s0, s1, s2);
                                            lemma_grows_rels_trans(s0, s2, *expanded);
                                            lemma_grows_rels_trans(*old(expanded), s0, *expanded);
                                        }
                                    }
                                    index = index + 1;
                                }
                            },
                            Err(_) => {},
                        }
                    } else {
                        expanded.insert(selector.value.as_str());
                    }
                },
            }
        }
        s = s + 1;
    }
    let ghost before = *expanded;
    add_connecting(workspace, expanded);
    proof {
        assert(grows(before, *expanded));
        lemma_grows_trans(*old(expanded), before, *expanded);
        assert(grows_rels(before, *expanded));
        lemma_grows_rels_trans(*old(expanded), before, *expanded);
    }
}

/// Keeps the relationships at the indices for which `keep` holds.
/// The relationships whose flag is set, in order.
pub open spec fn kept_of(rels: Seq<usize>, keep: Seq<bool>) -> Seq<usize>
    decreases rels.len(),
{
    if rels.len() == 0 || keep.len() < rels.len() {
        Seq::empty()
    } else {
        let rest = kept_of(rels.drop_last(), keep.take(rels.len() - 1));
        if keep[rels.len() - 1] { rest.push(rels.last()) } else { rest }
    }
}

/// Some relationship index of `rels` whose flag in `keep` is set is `x`.
pub open spec fn flagged(rels: Seq<usize>, keep: Seq<bool>, x: usize) -> bool {
    exists|i: int| 0 <= i < rels.len() && keep[i] && #[trigger] rels[i] == x
}

/// Each relationship kept is one whose flag is set.
proof fn lemma_kept_of(rels: Seq<usize>, keep: Seq<bool>)
    requires
        keep.len() == rels.len(),
    ensures
        forall|j: int| 0 <= j < kept_of(rels, keep).len() ==> flagged(rels, keep, #[trigger] kept_of(rels, keep)[j]),
    decreases rels.len(),
{
    if rels.len() > 0 {
        let n = rels.len() - 1;
        let shorter = keep.take(n as int);
        lemma_kept_of(rels.drop_last(), shorter);
        let rest = kept_of(rels.drop_last(), shorter);
        assert(kept_of(rels, keep) == (if keep[n as int] { rest.push(rels.last()) } else { rest }));
        assert forall|j: int| 0 <= j < kept_of(rels, keep).len() implies flagged(rels, keep, #[trigger] kept_of(rels, keep)[j]) by {
            if j < rest.len() {
                assert(kept_of(rels, keep)[j] == rest[j]);
                assert(flagged(rels.drop_last(), shorter, rest[j]));
                let i = choose|i: int| 0 <= i < rels.drop_last().len() && shorter[i] && #[trigger] rels.drop_last()[i] == rest[j];
                assert(keep[i] == shorter[i]);
                assert(rels.drop_last()[i] == rels[i]);
            } else {
                assert(kept_of(rels, keep)[j] == rels[n as int]);
                assert(keep[n as int]);
            }
        }
    }
}

/// Every relationship whose flag is set is kept.
proof fn lemma_kept_of_keeps(rels: Seq<usize>, keep: Seq<bool>)
    requires
        keep.len() == rels.len(),
    ensures
        forall|i: int| 0 <= i < rels.len() && keep[i] ==> kept_of(rels, keep).contains(#[trigger] rels[i]),
    decreases rels.len(),
{
    if rels.len() > 0 {
        let n = rels.len() - 1;
        let shorter = keep.take(n as int);
        lemma_kept_of_keeps(rels.drop_last(), shorter);
        let rest = kept_of(rels.drop_last(), shorter);
        assert(kept_of(rels, keep) == (if keep[n as int] { rest.push(rels.last()) } else { rest }));
        assert forall|i: int| 0 <= i < rels.len() && keep[i] implies kept_of(rels, keep).contains(#[trigger] rels[i]) by {
            if i < n {
                assert(shorter[i] == keep[i]);
                assert(rels.drop_last()[i] == rels[i]);
                assert(rest.contains(rels.drop_last()[i]));
                let j = choose|j: int| 0 <= j < rest.len() && rest[j] == rels[i];
                if keep[n as int] {
                    assert(rest.push(rels.last())[j] == rels[i]);
                }
            } else {
                assert(rest.push(rels.last())[rest.len() as int] == rels[i]);
            }
        }
    }
}

/// Every relationship shown has both ends, as `ev` draws them, shown.
pub open spec fn endpoints_shown(w: Workspace, ev: View, ex: ExpandedView) -> bool {
    forall|i: int| 0 <= i < ex.relationships@.len() ==> {
        let r = w.relationships@[#[trigger] ex.relationships@[i] as int];
        ex.has(endpoint(w, ev, r.source@)) && ex.has(endpoint(w, ev, r.destination@))
    }
}

fn keep_relationships(expanded: &mut ExpandedView, keep: &Vec<bool>)
    requires
        keep@.len() == old(expanded).relationships@.len(),
    ensures
        forall|n: nat| old(expanded).within(n) ==> final(expanded).within(n),
        final(expanded).elements@ == old(expanded).elements@,
        old(expanded).distinct() ==> final(expanded).distinct(),
        forall|x: int| final(expanded).has_rel(x) ==> old(expanded).has_rel(x),
        final(expanded).relationships@ == kept_of(old(expanded).relationships@, keep@),
{
    let mut kept: Vec<usize> = Vec::new();
    let mut i: usize = 0;
    while i < expanded.relationships.len()
        invariant
            i <= expanded.relationships@.len(),
            keep@.len() == expanded.relationships@.len(),
            expanded.relationships@ == old(expanded).relationships@,
            expanded.elements@ == old(expanded).elements@,
            forall|j: int| 0 <= j < kept@.len() ==> old(expanded).has_rel(#[trigger] kept@[j] as int),
            kept@ == kept_of(expanded.relationships@.take(i as int), keep@.take(i as int)),
            old(expanded).distinct() ==> forall|j: int, q: int| 0 <= j < kept@.len() && i <= q < expanded.relationships@.len() ==> #[trigger] kept@[j] != #[trigger] expanded.relationships@[q],
            old(expanded).distinct() ==> kept@.no_duplicates(),
        decreases expanded.relationships.len() - i,
    {
        let ghost before = kept@;
        assert(expanded.relationships@.take(i + 1).drop_last() =~= expanded.relationships@.take(i as int));
        assert(keep@.take(i + 1).take(i as int) =~= keep@.take(i as int));
        assert(keep@.take(i + 1)[i as int] == keep@[i as int]);
        if keep[i] {
            let ghost x = expanded.relationships@[i as int];
            assert(old(expanded).has_rel(x as int)) by {
                assert(old(expanded).relationships@[i as int] == x);
            }
            kept.push(expanded.relationships[i]);
            proof {
                if old(expanded).distinct() {
                    assert forall|j: int, q: int| 0 <= j < kept@.len() && i + 1 <= q < expanded.relationships@.len()
                        implies #[trigger] kept@[j] != #[trigger] expanded.relationships@[q] by {
                        if j < before.len() {
                            assert(kept@[j] == before[j]);
                        } else {
                            assert(kept@[j] == expanded.relationships@[i as int]);
                        }
                    }
                    assert forall|a: int, b: int| 0 <= a < kept@.len() && 0 <= b < kept@.len() && a != b implies kept@[a] != kept@[b] by {
                        if a < before.len() && b < before.len() {
                            assert(kept@[a] == before[a] && kept@[b] == before[b]);
                        } else if a < before.len() {
                            assert(kept@[a] == before[a]);
                            assert(before[a] != expanded.relationships@[i as int]);
                        } else {
                            assert(kept@[b] == before[b]);
                            assert(before[b] != expanded.relationships@[i as int]);
                        }
                    }
                }
            }
        }
        i = i + 1;
    }
    assert(old(expanded).relationships@.take(old(expanded).relationships@.len() as int) =~= old(expanded).relationships@);
    assert(keep@.take(keep@.len() as int) =~= keep@);
    expanded.relationships = kept;
    proof {
        assert forall|x: int| expanded.has_rel(x) implies old(expanded).has_rel(x) by {
            let j = choose|j: int| 0 <= j < expanded.relationships@.len() && (#[trigger] expanded.relationships@[j]) as int == x;
            assert(old(expanded).has_rel(kept@[j] as int));
        }
        assert forall|n: nat| old(expanded).within(n) implies expanded.within(n) by {
            assert forall|j: int| 0 <= j < kept@.len() implies (#[trigger] kept@[j]) < n by {
                assert(old(expanded).has_rel(kept@[j] as int));
                let q = choose|q: int| 0 <= q < old(expanded).relationships@.len() && (#[trigger] old(expanded).relationships@[q]) as int == kept@[j] as int;
            }
        }
    }
}

/// Removes what the view's exclude selectors name, then every relationship with an endpoint
/// that is not shown.
pub fn apply_excludes(workspace: &Workspace, view: &View, expanded: &mut ExpandedView)
    requires
        old(expanded).fits(workspace.relationships@.len()),
    ensures
        final(expanded).fits(workspace.relationships@.len()),
        view.filter is None ==> endpoints_shown(*workspace, *view, *final(expanded)),
        view.excludes@.len() == 0 ==> final(expanded).elements@ == old(expanded).elements@,
        view.excludes@.len() == 0 && view.filter is None ==> forall|k: int| old(expanded).has_rel(k)
            && final(expanded).has(endpoint(*workspace, *view, workspace.relationships@[k].source@))
            && final(expanded).has(endpoint(*workspace, *view, workspace.relationships@[k].destination@))
            ==> #[trigger] final(expanded).has_rel(k),
{
    let mut s: usize = 0;
    while s < view.excludes.len()
        invariant
            s <= view.excludes@.len(),
            expanded.fits(workspace.relationships@.len()),
            view.excludes@.len() == 0 ==> expanded.elements@ == old(expanded).elements@,
            view.excludes@.len() == 0 ==> expanded.relationships@ == old(expanded).relationships@,
        decreases view.excludes.len() - s,
    {
        let selector = &view.excludes[s];
        match relationship_pattern(selector.value.as_str()) {
            Some((source, destination)) => {
                let mut keep: Vec<bool> = Vec::new();
                let mut i: usize = 0;
                while i < expanded.relationships.len()
                    invariant
                        i <= expanded.relationships@.len(),
                        keep@.len() == i,
                        expanded.fits(workspace.relationships@.len()),
                    decreases expanded.relationships.len() - i,
                {
                    let index = expanded.relationships[i];
                    keep.push(!relationship_matches(&workspace.relationships[index], source.as_str(), destination.as_str()));
                    i = i + 1;
                }
                keep_relationships(expanded, &keep);
            },
            None => {
                if selector.expression {
                    match parse_view_expression(selector.value.as_str()) {
                        Ok(expression) => {
                            let mut kept: Vec<String> = Vec::new();
                            let mut i: usize = 0;
                            while i < expanded.elements.len()
                                invariant
                                    i <= expanded.elements@.len(),
                                    expanded.fits(workspace.relationships@.len()),
                                    distinct_strings(kept@),
                                    apart_from(kept@, expanded.elements@, i as int),
                                decreases expanded.elements.len() - i,
                            {
                                let keep_it = match find(workspace, expanded.elements[i].as_str()) {
                                    Some(k) => !expression.matches_element(&workspace.elements[k]),
                                    None => true,
                                };
                                proof {
                                    lemma_keep_next(kept@, expanded.elements@, i as int, keep_it);
                                }
                                if keep_it {
                                    kept.push(expanded.elements[i].clone());
                                }
                                i = i + 1;
                            }
                            expanded.elements = kept;
                            let mut keep: Vec<bool> = Vec::new();
                            let mut i: usize = 0;
                            while i < expanded.relationships.len()
                                invariant
                                    i <= expanded.relationships@.len(),
                                    keep@.len() == i,
                                    expanded.fits(workspace.relationships@.len()),
                                decreases expanded.relationships.len() - i,
                            {
                                let index = expanded.relationships[i];
                                keep.push(!expression.matches_relationship(&workspace.relationships[index]));
                                i = i + 1;
                            }
                            keep_relationships(expanded, &keep);
                        },
                        Err(_) => {},
                    }
                } else {
                    expanded.remove(selector.value.as_str());
                }
            },
        }
        s = s + 1;
    }
    let base = static_base_view(workspace, view);
    let mut keep: Vec<bool> = Vec::new();
    let mut i: usize = 0;
    while i < expanded.relationships.len()
        invariant
            i <= expanded.relationships@.len(),
            keep@.len() == i,
            expanded.fits(workspace.relationships@.len()),
            match base { Some(b) => b < workspace.views@.len(), None => true },
            view.filter is None ==> base is None,
            view.excludes@.len() == 0 ==> expanded.elements@ == old(expanded).elements@,
            base is None ==> forall|j: int| 0 <= j < i ==> #[trigger] keep@[j] == ({
                let r = workspace.relationships@[expanded.relationships@[j] as int];
                expanded.has(endpoint(*workspace, *view, r.source@)) && expanded.has(endpoint(*workspace, *view, r.destination@))
            }),
        decreases expanded.relationships.len() - i,
    {
        let relationship = &workspace.relationships[expanded.relationships[i]];
        let endpoint_view = match base {
            Some(b) => &workspace.views[b],
            None => view,
        };
        let source = view_endpoint(workspace, endpoint_view, relationship.source.as_str());
        let destination = view_endpoint(workspace, endpoint_view, relationship.destination.as_str());
        keep.push(expanded.contains(source.as_str()) && expanded.contains(destination.as_str()));
        i = i + 1;
    }
    let ghost before = *expanded;
    keep_relationships(expanded, &keep);
    proof {
        if view.excludes@.len() == 0 && view.filter is None {
            lemma_kept_of_keeps(before.relationships@, keep@);
            assert forall|k: int| old(expanded).has_rel(k)
                && expanded.has(endpoint(*workspace, *view, workspace.relationships@[k].source@))
                && expanded.has(endpoint(*workspace, *view, workspace.relationships@[k].destination@))
                implies #[trigger] expanded.has_rel(k) by {
                let j = choose|j: int| 0 <= j < before.relationships@.len() && (#[trigger] before.relationships@[j]) as int == k;
                assert(keep@[j]);
                assert(kept_of(before.relationships@, keep@).contains(before.relationships@[j]));
                let q = choose|q: int| 0 <= q < expanded.relationships@.len() && expanded.relationships@[q] == before.relationships@[j];
                assert(expanded.relationships@[q] as int == k);
            }
        }
        if view.filter is None {
            lemma_kept_of(before.relationships@, keep@);
            assert forall|j: int| 0 <= j < expanded.relationships@.len() implies {
                let r = workspace.relationships@[#[trigger] expanded.relationships@[j] as int];
                expanded.has(endpoint(*workspace, *view, r.source@)) && expanded.has(endpoint(*workspace, *view, r.destination@))
            } by {
                assert(flagged(before.relationships@, keep@, kept_of(before.relationships@, keep@)[j]));
                let q = choose|q: int| 0 <= q < before.relationships@.len() && keep@[q]
                    && #[trigger] before.relationships@[q] == kept_of(before.relationships@, keep@)[j];
                assert(keep@[q]);
            }
        }
    }
}

/// Whether some tag is among the wanted ones.
pub open spec fn meet(tags: Seq<String>, wanted: Seq<String>) -> bool {
    exists|i: int, j: int| 0 <= i < tags.len() && 0 <= j < wanted.len() && (#[trigger] tags[i])@ == (#[trigger] wanted[j])@
}

fn tags_meet(tags: &Vec<String>, wanted: &Vec<String>) -> (r: bool)
    ensures
        r == meet(tags@, wanted@),
{
    let mut i: usize = 0;
    while i < tags.len()
        invariant
            i <= tags@.len(),
            forall|a: int, b: int| 0 <= a < i && 0 <= b < wanted@.len() ==> (#[trigger] tags@[a])@ != (#[trigger] wanted@[b])@,
        decreases tags.len() - i,
    {
        let mut j: usize = 0;
        while j < wanted.len()
            invariant
                j <= wanted@.len(),
                i < tags@.len(),
                forall|a: int, b: int| 0 <= a < i && 0 <= b < wanted@.len() ==> (#[trigger] tags@[a])@ != (#[trigger] wanted@[b])@,
                forall|b: int| 0 <= b < j ==> tags@[i as int]@ != (#[trigger] wanted@[b])@,
            decreases wanted.len() - j,
        {
            if seq_eq(tags[i].as_str(), wanted[j].as_str()) {
                return true;
            }
            j = j + 1;
        }
        i = i + 1;
    }
    false
}

/// A filtered view: its base view's expansion, narrowed by tags, then its own excludes.
/// `fuel` bounds how many filtered views are followed in a chain.
fn expand_filtered_view(workspace: &Workspace, view: &View, fuel: usize) -> (r: ExpandedView)
    ensures
        r.fits(workspace.relationships@.len()),
        view.filter is None ==> endpoints_shown(*workspace, *view, r),
    decreases fuel, 1nat,
{
    let filter = match &view.filter {
        Some(filter) => filter,
        None => {
            return ExpandedView::new();
        },
    };
    let b = match view_by_key(workspace, filter.base_key.identifier.as_str()) {
        Some(b) => b,
        None => {
            return ExpandedView::new();
        },
    };
    if fuel == 0 {
        return ExpandedView::new();
    }
    let base = &workspace.views[b];
    let mut expanded = expand_view_with_fuel(workspace, base, fuel - 1);
    let narrowing = matches!(filter.mode, FilterMode::Include);
    let mut tagged: Vec<usize> = Vec::new();
    if narrowing {
        let mut i: usize = 0;
        while i < expanded.relationships.len()
            invariant
                i <= expanded.relationships@.len(),
                expanded.fits(workspace.relationships@.len()),
                forall|q: int| 0 <= q < tagged@.len() ==> (#[trigger] tagged@[q]) < workspace.relationships@.len(),
            decreases expanded.relationships.len() - i,
        {
            let index = expanded.relationships[i];
            if tags_meet(&workspace.relationships[index].tags, &filter.tags) {
                tagged.push(index);
            }
            i = i + 1;
        }
    }
    let mut kept: Vec<String> = Vec::new();
    let mut i: usize = 0;
    while i < expanded.elements.len()
        invariant
            i <= expanded.elements@.len(),
            expanded.fits(workspace.relationships@.len()),
            b < workspace.views@.len(),
            forall|q: int| 0 <= q < tagged@.len() ==> (#[trigger] tagged@[q]) < workspace.relationships@.len(),
            distinct_strings(kept@),
            apart_from(kept@, expanded.elements@, i as int),
        decreases expanded.elements.len() - i,
    {
        let identifier = expanded.elements[i].as_str();
        let matching = match find(workspace, identifier) {
            Some(k) => tags_meet(&workspace.elements[k].tags, &filter.tags),
            None => false,
        };
        let keep_it = if narrowing {
            let mut touched = false;
            let mut t: usize = 0;
            while t < tagged.len()
                invariant
                    t <= tagged@.len(),
                    b < workspace.views@.len(),
                    forall|q: int| 0 <= q < tagged@.len() ==> (#[trigger] tagged@[q]) < workspace.relationships@.len(),
                decreases tagged.len() - t,
            {
                let relationship = &workspace.relationships[tagged[t]];
                let source = view_endpoint(workspace, base, relationship.source.as_str());
                let destination = view_endpoint(workspace, base, relationship.destination.as_str());
                if seq_eq(source.as_str(), identifier) || seq_eq(destination.as_str(), identifier) {
                    touched = true;
                }
                t = t + 1;
            }
            matching || touched
        } else {
            match find(workspace, identifier) {
                Some(_) => !matching,
                None => true,
            }
        };
        proof {
            lemma_keep_next(kept@, expanded.elements@, i as int, keep_it);
        }
        if keep_it {
            kept.push(expanded.elements[i].clone());
        }
        i = i + 1;
    }
    expanded.elements = kept;
    let mut keep: Vec<bool> = Vec::new();
    let mut i: usize = 0;
    while i < expanded.relationships.len()
        invariant
            i <= expanded.relationships@.len(),
            keep@.len() == i,
            expanded.fits(workspace.relationships@.len()),
            b < workspace.views@.len(),
        decreases expanded.relationships.len() - i,
    {
        let index = expanded.relationships[i];
        let relationship = &workspace.relationships[index];
        let tag_test = if narrowing {
            let mut found_it = false;
            let mut t: usize = 0;
            while t < tagged.len()
                invariant
                    t <= tagged@.len(),
                decreases tagged.len() - t,
            {
                if tagged[t] == index {
                    found_it = true;
                }
                t = t + 1;
            }
            found_it
        } else {
            !tags_meet(&relationship.tags, &filter.tags)
        };
        let source = view_endpoint(workspace, base, relationship.source.as_str());
        let destination = view_endpoint(workspace, base, relationship.destination.as_str());
        keep.push(tag_test && expanded.contains(source.as_str()) && expanded.contains(destination.as_str()));
        i = i + 1;
    }
    keep_relationships(&mut expanded, &keep);
    apply_excludes(workspace, view, &mut expanded);
    expanded
}

/// A deployment view: the nodes of its environment and, for its scope, the container
/// instances of that software system (all of them for `*`), with the relationships between.
fn expand_deployment_view(workspace: &Workspace, view: &View) -> (r: ExpandedView)
    ensures
        r.fits(workspace.relationships@.len()),
        view.filter is None ==> endpoints_shown(*workspace, *view, r),
{
    let mut expanded = ExpandedView::new();
    let reference = match &view.environment {
        Some(reference) => reference,
        None => {
            return expanded;
        },
    };
    let mut environment: Option<usize> = None;
    let mut e: usize = 0;
    while e < workspace.elements.len()
        invariant
            e <= workspace.elements@.len(),
            match environment { Some(k) => k < workspace.elements@.len(), None => true },
        decreases workspace.elements.len() - e,
    {
        let element = &workspace.elements[e];
        if matches!(element.kind, ElementKind::DeploymentEnvironment)
            && (seq_eq(element.id.as_str(), reference.identifier.as_str()) || seq_eq(element.name.as_str(), reference.identifier.as_str())) {
            environment = Some(e);
            break;
        }
        e = e + 1;
    }
    let environment_id = match environment {
        Some(k) => workspace.elements[k].id.clone(),
        None => {
            return expanded;
        },
    };
    let all = match &view.scope {
        Some(scope) => seq_eq(scope.as_str(), "*"),
        None => false,
    };
    let mut e: usize = 0;
    while e < workspace.elements.len()
        invariant
            e <= workspace.elements@.len(),
            expanded.fits(workspace.relationships@.len()),
        decreases workspace.elements.len() - e,
    {
        let element = &workspace.elements[e];
        let inside = match deployment_environment(workspace, e) {
            Some(id) => seq_eq(id.as_str(), environment_id.as_str()),
            None => false,
        };
        if inside {
            let shown = match element.kind {
                ElementKind::DeploymentNode | ElementKind::InfrastructureNode => true,
                ElementKind::ContainerInstance => {
                    if all {
                        true
                    } else {
                        let system = match &element.reference {
                            Some(r) => software_system_of(workspace, r.identifier.as_str()),
                            None => None,
                        };
                        same_option(&system, &view.scope)
                    }
                },
                _ => false,
            };
            if shown {
                expanded.insert(element.id.as_str());
            }
        }
        e = e + 1;
    }
    add_connecting(workspace, &mut expanded);
    apply_excludes(workspace, view, &mut expanded);
    expanded
}

/// What `view` shows, following filtered views at most as deep as there are views. Nothing
/// is listed twice; outside filtered views, both ends of every relationship shown are shown.
pub fn expand_view(workspace: &Workspace, view: &View) -> (r: ExpandedView)
    ensures
        r.fits(workspace.relationships@.len()),
        view.filter is None ==> endpoints_shown(*workspace, *view, r),
        wildcard_shows(*workspace, *view, r),
        context_shows(*workspace, *view, r),
{
    expand_view_with_fuel(workspace, view, workspace.views.len())
}

fn expand_view_with_fuel(workspace: &Workspace, view: &View, fuel: usize) -> (r: ExpandedView)
    ensures
        r.fits(workspace.relationships@.len()),
        view.filter is None ==> endpoints_shown(*workspace, *view, r),
        wildcard_shows(*workspace, *view, r),
        context_shows(*workspace, *view, r),
    decreases fuel, 2nat,
{
    if matches!(view.kind, ViewKind::Filtered) {
        return expand_filtered_view(workspace, view, fuel);
    }
    if matches!(view.kind, ViewKind::Deployment) {
        return expand_deployment_view(workspace, view);
    }
    let mut expanded = ExpandedView::new();
    let mut wildcard = false;
    let mut reluctant = false;
    let mut s: usize = 0;
    while s < view.includes.len()
        invariant_except_break
            !wildcard,
            forall|j: int| 0 <= j < s ==> !((#[trigger] view.includes@[j]).value@ == "*"@ || view.includes@[j].value@ == "*?"@),
        invariant
            s <= view.includes@.len(),
            wildcard ==> has_wildcard(*view),
            reluctant ==> has_reluctant(*view),
        ensures
            wildcard == has_wildcard(*view),
            reluctant ==> has_reluctant(*view),
        decreases view.includes.len() - s,
    {
        let value = view.includes[s].value.as_str();
        if seq_eq(value, "*") || seq_eq(value, "*?") {
            wildcard = true;
            reluctant = seq_eq(value, "*?");
            proof {
                if reluctant {
                    assert(view.includes@[s as int].value@ == "*?"@);
                }
            }
            break;
        }
        s = s + 1;
    }
    if !wildcard {
        apply_explicit_includes(workspace, view, &mut expanded);
        apply_excludes(workspace, view, &mut expanded);
        return expanded;
    }
    match view.kind {
        ViewKind::SystemLandscape => {
            let mut e: usize = 0;
            while e < workspace.elements.len()
                invariant
                    e <= workspace.elements@.len(),
                    expanded.fits(workspace.relationships@.len()),
                    forall|i: int| 0 <= i < e && ((#[trigger] workspace.elements@[i]).kind is Person
                        || workspace.elements@[i].kind is SoftwareSystem) ==> expanded.has(workspace.elements@[i].id@),
                decreases workspace.elements.len() - e,
            {
                if matches!(workspace.elements[e].kind, ElementKind::Person | ElementKind::SoftwareSystem) {
                    expanded.insert(workspace.elements[e].id.as_str());
                }
                e = e + 1;
            }
        },
        ViewKind::SystemContext => {
            match &view.scope {
                Some(scope) => {
                    expanded.insert(scope.as_str());
                    let mut index: usize = 0;
                    while index < workspace.relationships.len()
                        invariant
                            index <= workspace.relationships@.len(),
                            expanded.fits(workspace.relationships@.len()),
                            expanded.has(scope@),
                            !reluctant ==> covers(*workspace, *view, scope@, expanded, index as int),
                        decreases workspace.relationships.len() - index,
                    {
                        let relationship = &workspace.relationships[index];
                        let source = if reluctant {
                            relationship.source.clone()
                        } else {
                            view_endpoint(workspace, view, relationship.source.as_str())
                        };
                        let destination = if reluctant {
                            relationship.destination.clone()
                        } else {
                            view_endpoint(workspace, view, relationship.destination.as_str())
                        };
                        let ghost s0 = expanded;
                        if seq_eq(source.as_str(), scope.as_str()) {
                            let ghost a = expanded;
                            expanded.insert(destination.as_str());
                            let ghost b = expanded;
                            expanded.insert_rel(index);
                            proof {
                                lemma_grows_trans(a, b, expanded);
                                lemma_grows_rels_trans(a, b, expanded);
                            }
                        }
                        let ghost s1 = expanded;
                        assert(grows(s0, s1) && grows_rels(s0, s1));
                        assert(expanded.fits(workspace.relationships@.len()));
                        if seq_eq(destination.as_str(), scope.as_str()) {
                            let ghost a = expanded;
                            expanded.insert(source.as_str());
                            let ghost b = expanded;
                            expanded.insert_rel(index);
                            proof {
                                lemma_grows_trans(a, b, expanded);
                                lemma_grows_rels_trans(a, b, expanded);
                            }
                        }
                        proof {
                            assert(grows(s1, expanded) && grows_rels(s1, expanded));
                            lemma_grows_trans(s0, s1, expanded);
                            lemma_grows_rels_trans(s0, s1, expanded);
                            if !reluctant {
                                lemma_covers_grow(*workspace, *view, scope@, s0, expanded, index as int);
                                assert forall|k: int| 0 <= k < index + 1 && #[trigger] touches(*workspace, *view, scope@, k)
                                    implies shown_with_ends(*workspace, *view, expanded, k) by {
                                    if k == index {
                                        assert(source@ == endpoint(*workspace, *view, workspace.relationships@[k].source@));
                                        assert(destination@ == endpoint(*workspace, *view, workspace.relationships@[k].destination@));
                                        if source@ == scope@ {
                                            assert(s1.has(destination@) && s1.has_rel(k) && s1.has(scope@));
                                        }
                                    }
                                }
                            }
                        }
                        index = index + 1;
                    }
                },
                None => {},
            }
        },
        ViewKind::Container => {
            match &view.scope {
                Some(scope) => {
                    let mut containers = ExpandedView::new();
                    let mut e: usize = 0;
                    while e < workspace.elements.len()
                        invariant
                            e <= workspace.elements@.len(),
                            expanded.fits(workspace.relationships@.len()),
                        decreases workspace.elements.len() - e,
                    {
                        let element = &workspace.elements[e];
                        let in_scope = match &element.parent {
                            Some(p) => seq_eq(p.as_str(), scope.as_str()),
                            None => false,
                        } || seq_eq(element.id.as_str(), scope.as_str());
                        if in_scope {
                            expanded.insert(element.id.as_str());
                            if matches!(element.kind, ElementKind::Container) {
                                containers.insert(element.id.as_str());
                            }
                        }
                        e = e + 1;
                    }
                    let mut index: usize = 0;
                    while index < workspace.relationships.len()
                        invariant
                            index <= workspace.relationships@.len(),
                            expanded.fits(workspace.relationships@.len()),
                        decreases workspace.relationships.len() - index,
                    {
                        let relationship = &workspace.relationships[index];
                        let relevant = if reluctant {
                            containers.contains(relationship.source.as_str()) || containers.contains(relationship.destination.as_str())
                        } else {
                            expanded.contains(relationship.source.as_str()) || expanded.contains(relationship.destination.as_str())
                        };
                        if relevant {
                            if container_view_element_allowed(workspace, scope.as_str(), relationship.source.as_str()) {
                                expanded.insert(relationship.source.as_str());
                            }
                            if container_view_element_allowed(workspace, scope.as_str(), relationship.destination.as_str()) {
                                expanded.insert(relationship.destination.as_str());
                            }
                            if expanded.contains(relationship.source.as_str()) && expanded.contains(relationship.destination.as_str()) {
                                expanded.insert_rel(index);
                            }
                        }
                        index = index + 1;
                    }
                },
                None => {},
            }
        },
        ViewKind::Component => {
            match &view.scope {
                Some(scope) => {
                    expanded.insert(scope.as_str());
                    let mut components = ExpandedView::new();
                    let mut e: usize = 0;
                    while e < workspace.elements.len()
                        invariant
                            e <= workspace.elements@.len(),
                            expanded.fits(workspace.relationships@.len()),
                        decreases workspace.elements.len() - e,
                    {
                        let element = &workspace.elements[e];
                        let inside = match &element.parent {
                            Some(p) => seq_eq(p.as_str(), scope.as_str()),
                            None => false,
                        };
                        if inside {
                            components.insert(element.id.as_str());
                            expanded.insert(element.id.as_str());
                        }
                        e = e + 1;
                    }
                    let mut index: usize = 0;
                    while index < workspace.relationships.len()
                        invariant
                            index <= workspace.relationships@.len(),
                            expanded.fits(workspace.relationships@.len()),
                        decreases workspace.relationships.len() - index,
                    {
                        let relationship = &workspace.relationships[index];
                        if components.contains(relationship.source.as_str()) || components.contains(relationship.destination.as_str()) {
                            if component_view_element_allowed(workspace, scope.as_str(), relationship.source.as_str()) {
                                expanded.insert(relationship.source.as_str());
                            }
                            if component_view_element_allowed(workspace, scope.as_str(), relationship.destination.as_str()) {
                                expanded.insert(relationship.destination.as_str());
                            }
                            if expanded.contains(relationship.source.as_str()) && expanded.contains(relationship.destination.as_str()) {
                                expanded.insert_rel(index);
                            }
                        }
                        index = index + 1;
                    }
                },
                None => {},
            }
        },
        ViewKind::ArchiMate => {
            let mut e: usize = 0;
            while e < workspace.elements.len()
                invariant
                    e <= workspace.elements@.len(),
                    expanded.fits(workspace.relationships@.len()),
                    forall|i: int| 0 <= i < e ==> expanded.has(#[trigger] workspace.elements@[i].id@),
                decreases workspace.elements.len() - e,
            {
                expanded.insert(workspace.elements[e].id.as_str());
                e = e + 1;
            }
            let ghost before = expanded;
            add_connecting(workspace, &mut expanded);
            assert(grows(before, expanded));
        },
        _ => {},
    }
    let ghost shown = expanded;
    let ghost context_scope = match &view.scope { Some(sc) => sc@, None => Seq::<char>::empty() };
    assert(view.kind is SystemContext && view.scope is Some && !reluctant ==>
        covers(*workspace, *view, context_scope, shown, workspace.relationships@.len() as int));
    proof {
        if view.excludes@.len() == 0 {
            if view.kind is ArchiMate {
                assert(forall|i: int| 0 <= i < workspace.elements@.len() ==> shown.has(#[trigger] workspace.elements@[i].id@));
            }
        }
    }
    if !reluctant {
        let mut index: usize = 0;
        while index < workspace.relationships.len()
            invariant
                index <= workspace.relationships@.len(),
                expanded.fits(workspace.relationships@.len()),
                grows(shown, expanded),
                grows_rels(shown, expanded),
            decreases workspace.relationships.len() - index,
        {
            let relationship = &workspace.relationships[index];
            let source = view_endpoint(workspace, view, relationship.source.as_str());
            let destination = view_endpoint(workspace, view, relationship.destination.as_str());
            if !seq_eq(source.as_str(), destination.as_str()) && expanded.contains(source.as_str()) && expanded.contains(destination.as_str()) {
                let ghost prev = expanded;
                expanded.insert_rel(index);
                proof {
                    lemma_grows_trans(shown, prev, expanded);
                    lemma_grows_rels_trans(shown, prev, expanded);
                }
            }
            index = index + 1;
        }
    }
    let ghost mid = expanded;
    apply_explicit_includes(workspace, view, &mut expanded);
    let ghost after = expanded;
    apply_excludes(workspace, view, &mut expanded);
    proof {
        lemma_grows_trans(shown, mid, after);
        lemma_grows_rels_trans(shown, mid, after);
        if view.excludes@.len() == 0 {
            assert(grows(after, expanded));
            lemma_grows_trans(shown, after, expanded);
        }
        if view.kind is SystemContext && view.scope is Some && !reluctant && view.excludes@.len() == 0 && view.filter is None {
            let n = workspace.relationships@.len() as int;
            assert forall|k: int| 0 <= k < n && #[trigger] touches(*workspace, *view, context_scope, k)
                implies shown_with_ends(*workspace, *view, expanded, k) by {
                assert(shown_with_ends(*workspace, *view, shown, k));
                let src = endpoint(*workspace, *view, workspace.relationships@[k].source@);
                let dst = endpoint(*workspace, *view, workspace.relationships@[k].destination@);
                assert(shown.has(src) && shown.has(dst) && shown.has_rel(k));
                assert(after.has(src) && after.has(dst) && after.has_rel(k));
                assert(expanded.has(src) && expanded.has(dst));
                assert(expanded.has_rel(k));
            }
        }
    }
    expanded
}

} // verus!
