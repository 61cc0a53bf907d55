use vstd::prelude::*;
use vstd::view::View as _;
use crate::archi_export::{
    archi_native_type, archi_native_view_group_property, archi_native_view_object_property, native_type_name,
    ArchiNativeBounds, ArchiNativeConnection, ArchiNativeLayout,
};
use crate::archi_native::{parse_i64, parsed_i64, IntParse};
use crate::archimate::last_attribute;
use crate::exporters::ViewGraph;
use crate::lookup::{find, found};
use crate::model::{ElementKind, View, Workspace};
use crate::text::{ascii_lowercase, ends_with, has_suffix, lower, seq_eq};
use crate::validate::{element_archimate_layer, element_archimate_role, kind_layer, kind_role};

verus! {

/// The viewpoint a view declares: its last `viewpoint` property.
pub fn archi_native_viewpoint(view: &View) -> (r: Option<String>)
    ensures
        match r {
            Some(v) => last_attribute(view.properties@, "viewpoint"@) == Some(v@),
            None => last_attribute(view.properties@, "viewpoint"@) is None,
        },
{
    match crate::archimate::last_property_index(&view.properties, "viewpoint") {
        Some(i) => Some(view.properties[i].value.clone()),
        None => None,
    }
}

/// Whether a text ends with `Service` or `Interface`.
pub open spec fn service_like(native: Seq<char>) -> bool {
    has_suffix(native, "Service"@) || has_suffix(native, "Interface"@)
}

/// The rank (row or column, from the top or left) an element kind takes in the layout of a
/// viewpoint: consumers before services before the things that realise them.
pub open spec fn base_rank_of(viewpoint: Seq<char>, kind: ElementKind) -> nat {
    let native = native_type_name(kind);
    let layer = kind_layer(kind);
    let role = kind_role(kind);
    if viewpoint == "applicationCooperation"@ || viewpoint == "applicationUsage"@ || viewpoint == "informationStructure"@ {
        if layer == "business"@ && role == "active"@ { 0 }
        else if layer == "business"@ { 1 }
        else if layer == "application"@ && service_like(native) { 1 }
        else if layer == "application"@ && role == "active"@ { 2 }
        else if layer == "application"@ && role == "passive"@ { 4 }
        else if layer == "application"@ { 3 }
        else if layer == "technology"@ || layer == "physical"@ || layer == "implementation_migration"@ { 4 }
        else if layer == "motivation"@ || layer == "strategy"@ { 0 }
        else { 4 }
    } else if viewpoint == "motivation"@ || viewpoint == "strategy"@ {
        if native == "Stakeholder"@ || native == "Driver"@ || native == "Assessment"@ { 0 }
        else if native == "Goal"@ || native == "Outcome"@ || native == "Principle"@ { 1 }
        else if native == "Requirement"@ || native == "Constraint"@ { 2 }
        else if layer == "strategy"@ { 3 }
        else if layer == "application"@ || layer == "technology"@ || layer == "physical"@ { 4 }
        else { 3 }
    } else if viewpoint == "technology"@ || viewpoint == "technologyUsage"@ || viewpoint == "implementationAndDeployment"@ {
        if service_like(native) { 0 }
        else if native == "Node"@ || native == "Device"@ || native == "SystemSoftware"@
            || native == "CommunicationNetwork"@ || native == "Path"@ { 1 }
        else if native == "Artifact"@ { 2 }
        else if layer == "physical"@ { 3 }
        else if layer == "implementation_migration"@ { 4 }
        else { 1 }
    } else if viewpoint == "layered"@ {
        if layer == "business"@ { 0 }
        else if layer == "application"@ { 1 }
        else if layer == "technology"@ { 2 }
        else if layer == "physical"@ { 3 }
        else if layer == "implementation_migration"@ { 4 }
        else if layer == "motivation"@ || layer == "strategy"@ { 0 }
        else { 5 }
    } else {
        if layer == "business"@ || layer == "motivation"@ || layer == "strategy"@ { 0 }
        else if layer == "application"@ { 1 }
        else if layer == "technology"@ { 2 }
        else if layer == "physical"@ { 3 }
        else if layer == "implementation_migration"@ { 4 }
        else { 5 }
    }
}

/// The rank an element kind takes in the layout of a viewpoint.
pub fn archi_native_base_rank(viewpoint: &str, kind: &ElementKind) -> (r: usize)
    ensures
        r as nat == base_rank_of(viewpoint@, *kind),
{
    let native = archi_native_type(kind);
    let layer = element_archimate_layer(kind);
    let role = element_archimate_role(kind);
    let service = ends_with(native, "Service") || ends_with(native, "Interface");
    if seq_eq(viewpoint, "applicationCooperation") || seq_eq(viewpoint, "applicationUsage") || seq_eq(viewpoint, "informationStructure") {
        if seq_eq(layer, "business") && seq_eq(role, "active") { 0 }
        else if seq_eq(layer, "business") { 1 }
        else if seq_eq(layer, "application") && service { 1 }
        else if seq_eq(layer, "application") && seq_eq(role, "active") { 2 }
        else if seq_eq(layer, "application") && seq_eq(role, "passive") { 4 }
        else if seq_eq(layer, "application") { 3 }
        else if seq_eq(layer, "technology") || seq_eq(layer, "physical") || seq_eq(layer, "implementation_migration") { 4 }
        else if seq_eq(layer, "motivation") || seq_eq(layer, "strategy") { 0 }
        else { 4 }
    } else if seq_eq(viewpoint, "motivation") || seq_eq(viewpoint, "strategy") {
        if seq_eq(native, "Stakeholder") || seq_eq(native, "Driver") || seq_eq(native, "Assessment") { 0 }
        else if seq_eq(native, "Goal") || seq_eq(native, "Outcome") || seq_eq(native, "Principle") { 1 }
        else if seq_eq(native, "Requirement") || seq_eq(native, "Constraint") { 2 }
        else if seq_eq(layer, "strategy") { 3 }
        else if seq_eq(layer, "application") || seq_eq(layer, "technology") || seq_eq(layer, "physical") { 4 }
        else { 3 }
    } else if seq_eq(viewpoint, "technology") || seq_eq(viewpoint, "technologyUsage") || seq_eq(viewpoint, "implementationAndDeployment") {
        if service { 0 }
        else if seq_eq(native, "Node") || seq_eq(native, "Device") || seq_eq(native, "SystemSoftware")
            || seq_eq(native, "CommunicationNetwork") || seq_eq(native, "Path") { 1 }
        else if seq_eq(native, "Artifact") { 2 }
        else if seq_eq(layer, "physical") { 3 }
        else if seq_eq(layer, "implementation_migration") { 4 }
        else { 1 }
    } else if seq_eq(viewpoint, "layered") {
        if seq_eq(layer, "business") { 0 }
        else if seq_eq(layer, "application") { 1 }
        else if seq_eq(layer, "technology") { 2 }
        else if seq_eq(layer, "physical") { 3 }
        else if seq_eq(layer, "implementation_migration") { 4 }
        else if seq_eq(layer, "motivation") || seq_eq(layer, "strategy") { 0 }
        else { 5 }
    } else {
        if seq_eq(layer, "business") || seq_eq(layer, "motivation") || seq_eq(layer, "strategy") { 0 }
        else if seq_eq(layer, "application") { 1 }
        else if seq_eq(layer, "technology") { 2 }
        else if seq_eq(layer, "physical") { 3 }
        else if seq_eq(layer, "implementation_migration") { 4 }
        else { 5 }
    }
}

/// The other end of a connection that touches `id`.
pub open spec fn neighbor_of(c: ArchiNativeConnection, id: Seq<char>) -> Option<Seq<char>> {
    if c.source_element@ == id {
        Some(c.destination_element@)
    } else if c.destination_element@ == id {
        Some(c.source_element@)
    } else {
        None
    }
}

fn neighbor<'a>(c: &'a ArchiNativeConnection, id: &str) -> (r: Option<&'a String>)
    ensures
        match r {
            Some(o) => neighbor_of(*c, id@) == Some(o@),
            None => neighbor_of(*c, id@) is None,
        },
{
    if seq_eq(c.source_element.as_str(), id) {
        Some(&c.destination_element)
    } else if seq_eq(c.destination_element.as_str(), id) {
        Some(&c.source_element)
    } else {
        None
    }
}

/// The base ranks of the defined elements that connections join to `id`, in connection order.
pub open spec fn neighbor_ranks(w: Workspace, viewpoint: Seq<char>, cs: Seq<ArchiNativeConnection>, id: Seq<char>) -> Seq<nat>
    decreases cs.len(),
{
    if cs.len() == 0 {
        Seq::empty()
    } else {
        let rest = neighbor_ranks(w, viewpoint, cs.drop_last(), id);
        match neighbor_of(cs.last(), id) {
            Some(o) => match found(w.elements@, o) {
                Some(k) => rest.push(base_rank_of(viewpoint, w.elements@[k].kind)),
                None => rest,
            },
            None => rest,
        }
    }
}

/// `x` put into the ascending `s` before the first larger value.
pub open spec fn insert_rank(x: nat, s: Seq<nat>) -> Seq<nat>
    decreases s.len(),
{
    if s.len() == 0 {
        seq![x]
    } else if x <= s[0] {
        seq![x] + s
    } else {
        seq![s[0]] + insert_rank(x, s.drop_first())
    }
}

/// `s` in ascending order.
pub open spec fn sort_ranks(s: Seq<nat>) -> Seq<nat>
    decreases s.len(),
{
    if s.len() == 0 {
        Seq::empty()
    } else {
        insert_rank(s.last(), sort_ranks(s.drop_last()))
    }
}

proof fn lemma_insert_rank_at(x: nat, s: Seq<nat>, p: int)
    requires
        0 <= p <= s.len(),
        forall|j: int| 0 <= j < p ==> x > #[trigger] s[j],
        p < s.len() ==> x <= s[p],
    ensures
        insert_rank(x, s) == s.insert(p, x),
    decreases p,
{
    if p == 0 {
        if s.len() == 0 {
            assert(s.insert(0, x) =~= seq![x]);
        } else {
            assert(s.insert(0, x) =~= seq![x] + s);
        }
    } else {
        assert forall|j: int| 0 <= j < p - 1 implies x > #[trigger] s.drop_first()[j] by {
            assert(s.drop_first()[j] == s[j + 1]);
        }
        lemma_insert_rank_at(x, s.drop_first(), p - 1);
        assert(s.insert(p, x) =~= seq![s[0]] + s.drop_first().insert(p - 1, x));
    }
}

fn insert_rank_exec(v: &mut Vec<usize>, x: usize)
    ensures
        final(v)@.map_values(|r: usize| r as nat) == insert_rank(x as nat, old(v)@.map_values(|r: usize| r as nat)),
{
    let ghost s = v@.map_values(|r: usize| r as nat);
    let mut p: usize = 0;
    while p < v.len() && v[p] < x
        invariant
            p <= v@.len(),
            v@ == old(v)@,
            s == old(v)@.map_values(|r: usize| r as nat),
            forall|j: int| 0 <= j < p ==> x as nat > #[trigger] s[j],
        decreases v.len() - p,
    {
        p = p + 1;
    }
    proof {
        lemma_insert_rank_at(x as nat, s, p as int);
    }
    v.insert(p, x);
    assert(v@.map_values(|r: usize| r as nat) =~= s.insert(p as int, x as nat));
}

/// The rank of `id`'s element in the layout of a viewpoint: 9 for an unknown identifier; for
/// a junction, the median rank of its neighbours (2 when it has none); else its base rank.
pub open spec fn viewpoint_rank_of(w: Workspace, viewpoint: Seq<char>, cs: Seq<ArchiNativeConnection>, id: Seq<char>) -> nat {
    match found(w.elements@, id) {
        None => 9,
        Some(k) => if native_type_name(w.elements@[k].kind) == "Junction"@ {
            let ranks = sort_ranks(neighbor_ranks(w, viewpoint, cs, id));
            if ranks.len() > 0 { ranks[(ranks.len() / 2) as int] } else { 2 }
        } else {
            base_rank_of(viewpoint, w.elements@[k].kind)
        },
    }
}

/// The rank of an element in the layout of a viewpoint.
pub fn archi_native_viewpoint_rank(workspace: &Workspace, viewpoint: &str, connections: &Vec<ArchiNativeConnection>, identifier: &str) -> (r: usize)
    ensures
        r as nat == viewpoint_rank_of(*workspace, viewpoint@, connections@, identifier@),
{
    let k = match find(workspace, identifier) {
        Some(k) => k,
        None => return 9,
    };
    let kind = &workspace.elements[k].kind;
    if !seq_eq(archi_native_type(kind), "Junction") {
        return archi_native_base_rank(viewpoint, kind);
    }
    let mut ranks: Vec<usize> = Vec::new();
    let ghost cs = connections@;
    let mut i: usize = 0;
    assert(sort_ranks(neighbor_ranks(*workspace, viewpoint@, cs.take(0), identifier@)) =~= Seq::<nat>::empty());
    assert(ranks@.map_values(|r: usize| r as nat) =~= Seq::<nat>::empty());
    while i < connections.len()
        invariant
            i <= cs.len(),
            cs == connections@,
            ranks@.map_values(|r: usize| r as nat) == sort_ranks(neighbor_ranks(*workspace, viewpoint@, cs.take(i as int), identifier@)),
        decreases connections.len() - i,
    {
        assert(cs.take(i + 1).drop_last() =~= cs.take(i as int));
        assert(cs.take(i + 1).last() == cs[i as int]);
        match neighbor(&connections[i], identifier) {
            Some(other) => match find(workspace, other.as_str()) {
                Some(j) => {
                    let rank = archi_native_base_rank(viewpoint, &workspace.elements[j].kind);
                    proof {
                        let before = neighbor_ranks(*workspace, viewpoint@, cs.take(i as int), identifier@);
                        let after = neighbor_ranks(*workspace, viewpoint@, cs.take(i + 1), identifier@);
                        assert(after == before.push(rank as nat));
                        assert(after.drop_last() =~= before);
                        assert(sort_ranks(after) == insert_rank(rank as nat, sort_ranks(before)));
                    }
                    insert_rank_exec(&mut ranks, rank);
                },
                None => {},
            },
            None => {},
        }
        i = i + 1;
    }
    assert(cs.take(cs.len() as int) =~= cs);
    let middle = ranks.len() / 2;
    if middle < ranks.len() {
        assert(ranks@.map_values(|r: usize| r as nat)[middle as int] == ranks@[middle as int] as nat);
        ranks[middle]
    } else {
        2
    }
}

/// Whether a connection joins `id` to an element outside every group.
pub open spec fn ungrouped_neighbor(w: Workspace, c: ArchiNativeConnection, id: Seq<char>) -> bool {
    match neighbor_of(c, id) {
        Some(o) => match found(w.elements@, o) {
            Some(k) => w.elements@[k].group is None,
            None => false,
        },
        None => false,
    }
}

/// Whether some connection joins `identifier` to an element outside every group.
pub fn archi_native_has_ungrouped_neighbor(workspace: &Workspace, connections: &Vec<ArchiNativeConnection>, identifier: &str) -> (r: bool)
    ensures
        r == exists|i: int| 0 <= i < connections@.len() && ungrouped_neighbor(*workspace, #[trigger] connections@[i], identifier@),
{
    let mut i: usize = 0;
    while i < connections.len()
        invariant
            i <= connections@.len(),
            forall|j: int| 0 <= j < i ==> !ungrouped_neighbor(*workspace, #[trigger] connections@[j], identifier@),
        decreases connections.len() - i,
    {
        match neighbor(&connections[i], identifier) {
            Some(other) => match find(workspace, other.as_str()) {
                Some(k) => {
                    if workspace.elements[k].group.is_none() {
                        assert(ungrouped_neighbor(*workspace, connections@[i as int], identifier@));
                        return true;
                    }
                },
                None => {},
            },
            None => {},
        }
        i = i + 1;
    }
    false
}

/// Whether two bounds overlap, edges touching not counted.
pub open spec fn overlap(a: ArchiNativeBounds, b: ArchiNativeBounds) -> bool {
    &&& (a.x as int) < b.x as int + b.width as int
    &&& a.x as int + a.width as int > b.x as int
    &&& (a.y as int) < b.y as int + b.height as int
    &&& a.y as int + a.height as int > b.y as int
}

/// Whether two bounds overlap.
pub fn bounds_overlap(left: ArchiNativeBounds, right: ArchiNativeBounds) -> (r: bool)
    ensures
        r == overlap(left, right),
{
    (left.x as i128) < right.x as i128 + right.width as i128
        && left.x as i128 + left.width as i128 > right.x as i128
        && (left.y as i128) < right.y as i128 + right.height as i128
        && left.y as i128 + left.height as i128 > right.y as i128
}

/// What a connection-touching scan of `cs` has met around `id`: the other groups and the other
/// elements, each once, in order of first meeting; neighbours in `own` are passed over.
pub open spec fn external_seen(w: Workspace, cs: Seq<ArchiNativeConnection>, id: Seq<char>, own: usize) -> (Seq<usize>, Seq<Seq<char>>)
    decreases cs.len(),
{
    if cs.len() == 0 {
        (Seq::empty(), Seq::empty())
    } else {
        let (groups, elements) = external_seen(w, cs.drop_last(), id, own);
        match neighbor_of(cs.last(), id) {
            None => (groups, elements),
            Some(o) => {
                let group = match found(w.elements@, o) {
                    Some(k) => w.elements@[k].group,
                    None => None,
                };
                if group == Some(own) {
                    (groups, elements)
                } else {
                    let elements2 = if elements.contains(o) { elements } else { elements.push(o) };
                    let groups2 = match group {
                        Some(g) => if groups.contains(g) { groups } else { groups.push(g) },
                        None => groups,
                    };
                    (groups2, elements2)
                }
            },
        }
    }
}

fn contains_usize(v: &Vec<usize>, x: usize) -> (r: bool)
    ensures
        r == v@.contains(x),
{
    let mut i: usize = 0;
    while i < v.len()
        invariant
            i <= v@.len(),
            forall|j: int| 0 <= j < i ==> v@[j] != x,
        decreases v.len() - i,
    {
        if v[i] == x {
            assert(v@[i as int] == x);
            return true;
        }
        i = i + 1;
    }
    false
}

fn contains_string(v: &Vec<String>, x: &str) -> (r: bool)
    ensures
        r == crate::archi_native::views(v@).contains(x@),
{
    let mut i: usize = 0;
    while i < v.len()
        invariant
            i <= v@.len(),
            forall|j: int| 0 <= j < i ==> v@[j]@ != x@,
        decreases v.len() - i,
    {
        if seq_eq(v[i].as_str(), x) {
            assert(crate::archi_native::views(v@)[i as int] == x@);
            return true;
        }
        i = i + 1;
    }
    proof {
        if crate::archi_native::views(v@).contains(x@) {
            let j = choose|j: int| 0 <= j < crate::archi_native::views(v@).len() && crate::archi_native::views(v@)[j] == x@;
            assert(v@[j]@ == x@);
        }
    }
    false
}

/// How many other groups and other elements outside `own_group` connections join `identifier` to.
pub fn archi_native_external_score(workspace: &Workspace, connections: &Vec<ArchiNativeConnection>, identifier: &str, own_group: usize) -> (r: (usize, usize))
    ensures
        r.0 == external_seen(*workspace, connections@, identifier@, own_group).0.len(),
        r.1 == external_seen(*workspace, connections@, identifier@, own_group).1.len(),
{
    let mut groups: Vec<usize> = Vec::new();
    let mut elements: Vec<String> = Vec::new();
    let ghost cs = connections@;
    let mut i: usize = 0;
    assert(crate::archi_native::views(elements@) =~= Seq::<Seq<char>>::empty());
    while i < connections.len()
        invariant
            i <= cs.len(),
            cs == connections@,
            (groups@, crate::archi_native::views(elements@)) == external_seen(*workspace, cs.take(i as int), identifier@, own_group),
        decreases connections.len() - i,
    {
        assert(cs.take(i + 1).drop_last() =~= cs.take(i as int));
        assert(cs.take(i + 1).last() == cs[i as int]);
        match neighbor(&connections[i], identifier) {
            Some(other) => {
                let group = match find(workspace, other.as_str()) {
                    Some(k) => workspace.elements[k].group,
                    None => None,
                };
                if group != Some(own_group) {
                    if !contains_string(&elements, other.as_str()) {
                        let ghost before = crate::archi_native::views(elements@);
                        elements.push(other.clone());
                        assert(crate::archi_native::views(elements@) =~= before.push(other@));
                    }
                    match group {
                        Some(g) => {
                            if !contains_usize(&groups, g) {
                                groups.push(g);
                            }
                        },
                        None => {},
                    }
                }
            },
            None => {},
        }
        i = i + 1;
    }
    assert(cs.take(cs.len() as int) =~= cs);
    (groups.len(), elements.len())
}

/// Whether some connection joins `a` and `b`, either way.
pub open spec fn joined(cs: Seq<ArchiNativeConnection>, a: Seq<char>, b: Seq<char>) -> bool {
    exists|i: int| 0 <= i < cs.len() && ((#[trigger] cs[i]).source_element@ == a && cs[i].destination_element@ == b
        || cs[i].destination_element@ == a && cs[i].source_element@ == b)
}

/// How many members other than `candidate` connections join to it.
pub open spec fn connected_count(members: Seq<String>, cs: Seq<ArchiNativeConnection>, candidate: Seq<char>) -> nat
    decreases members.len(),
{
    if members.len() == 0 {
        0
    } else {
        connected_count(members.drop_last(), cs, candidate)
            + if members.last()@ != candidate && joined(cs, candidate, members.last()@) { 1nat } else { 0nat }
    }
}

/// Whether the member at `c` is joined to more than half of the others.
pub open spec fn hub_candidate(members: Seq<String>, cs: Seq<ArchiNativeConnection>, c: int) -> bool {
    connected_count(members, cs, members[c]@) * 2 > members.len() - 1
}

/// The hub of a group of at least three members: a candidate joined to the most members,
/// the last such when several tie.
pub open spec fn is_hub(members: Seq<String>, cs: Seq<ArchiNativeConnection>, c: int) -> bool {
    &&& members.len() >= 3
    &&& 0 <= c < members.len()
    &&& hub_candidate(members, cs, c)
    &&& forall|j: int| 0 <= j < members.len() && hub_candidate(members, cs, j)
        ==> connected_count(members, cs, members[j]@) <= connected_count(members, cs, members[c]@)
    &&& forall|j: int| c < j < members.len() && hub_candidate(members, cs, j)
        ==> connected_count(members, cs, members[j]@) < connected_count(members, cs, members[c]@)
}

fn joined_exec(cs: &Vec<ArchiNativeConnection>, a: &str, b: &str) -> (r: bool)
    ensures
        r == joined(cs@, a@, b@),
{
    let mut i: usize = 0;
    while i < cs.len()
        invariant
            i <= cs@.len(),
            forall|j: int| 0 <= j < i ==> !((#[trigger] cs@[j]).source_element@ == a@ && cs@[j].destination_element@ == b@
                || cs@[j].destination_element@ == a@ && cs@[j].source_element@ == b@),
        decreases cs.len() - i,
    {
        let c = &cs[i];
        if (seq_eq(c.source_element.as_str(), a) && seq_eq(c.destination_element.as_str(), b))
            || (seq_eq(c.destination_element.as_str(), a) && seq_eq(c.source_element.as_str(), b)) {
            return true;
        }
        i = i + 1;
    }
    false
}

fn connected_count_exec(members: &Vec<String>, cs: &Vec<ArchiNativeConnection>, candidate: &str) -> (r: usize)
    ensures
        r as nat == connected_count(members@, cs@, candidate@),
        r <= members@.len(),
{
    let mut n: usize = 0;
    let mut j: usize = 0;
    while j < members.len()
        invariant
            j <= members@.len(),
            n <= j,
            n as nat == connected_count(members@.take(j as int), cs@, candidate@),
        decreases members.len() - j,
    {
        assert(members@.take(j + 1).drop_last() =~= members@.take(j as int));
        assert(members@.take(j + 1).last() == members@[j as int]);
        if !seq_eq(members[j].as_str(), candidate) && joined_exec(cs, candidate, members[j].as_str()) {
            n = n + 1;
        }
        j = j + 1;
    }
    assert(members@.take(members@.len() as int) =~= members@);
    n
}

/// The member that most of a group's connections meet, if one is joined to more than half of
/// the others; groups of fewer than three members have none.
pub fn archi_native_internal_hub(members: &Vec<String>, connections: &Vec<ArchiNativeConnection>) -> (r: Option<usize>)
    ensures
        match r {
            Some(c) => is_hub(members@, connections@, c as int),
            None => members@.len() < 3 || forall|j: int| 0 <= j < members@.len() ==> !hub_candidate(members@, connections@, j),
        },
{
    if members.len() < 3 {
        return None;
    }
    let mut best: Option<(usize, usize)> = None;
    let mut c: usize = 0;
    while c < members.len()
        invariant
            c <= members@.len(),
            members@.len() >= 3,
            match best {
                Some((b, n)) => {
                    &&& b < c
                    &&& hub_candidate(members@, connections@, b as int)
                    &&& n as nat == connected_count(members@, connections@, members@[b as int]@)
                    &&& forall|j: int| 0 <= j < c && hub_candidate(members@, connections@, j)
                        ==> connected_count(members@, connections@, members@[j]@) <= n
                    &&& forall|j: int| b < j < c && hub_candidate(members@, connections@, j)
                        ==> connected_count(members@, connections@, members@[j]@) < n
                },
                None => forall|j: int| 0 <= j < c ==> !hub_candidate(members@, connections@, j),
            },
        decreases members.len() - c,
    {
        let n = connected_count_exec(members, connections, members[c].as_str());
        if (n as u128) * 2 > (members.len() - 1) as u128 {
            assert(hub_candidate(members@, connections@, c as int));
            match best {
                Some((b, m)) => {
                    if n >= m {
                        best = Some((c, n));
                    }
                },
                None => {
                    best = Some((c, n));
                },
            }
        } else {
            assert(!hub_candidate(members@, connections@, c as int));
        }
        c = c + 1;
    }
    match best {
        Some((b, _)) => Some(b),
        None => None,
    }
}

/// A text with its ASCII capitals lowered.
pub open spec fn lowered(s: Seq<char>) -> Seq<char> {
    Seq::new(s.len(), |i: int| lower(s[i]))
}

/// Whether connections of a view are routed vertically: a top-down or bottom-up layout, or a
/// viewpoint whose layers stack.
pub open spec fn route_vertical_of(view: View) -> bool {
    (match view.auto_layout {
        Some(l) => lowered(l.direction@) == "tb"@ || lowered(l.direction@) == "bt"@,
        None => false,
    }) || (match last_attribute(view.properties@, "viewpoint"@) {
        Some(v) => v == "motivation"@ || v == "strategy"@ || v == "technology"@ || v == "technologyUsage"@
            || v == "implementationAndDeployment"@ || v == "implementationAndMigration"@ || v == "migration"@
            || v == "layered"@,
        None => false,
    })
}

/// Whether connections of a view are routed vertically.
pub fn archi_native_route_vertical(view: &View) -> (r: bool)
    ensures
        r == route_vertical_of(*view),
{
    let by_layout = match &view.auto_layout {
        Some(l) => {
            let d = ascii_lowercase(l.direction.as_str());
            seq_eq(d.as_str(), "tb") || seq_eq(d.as_str(), "bt")
        },
        None => false,
    };
    if by_layout {
        return true;
    }
    match archi_native_viewpoint(view) {
        Some(v) => {
            let v = v.as_str();
            seq_eq(v, "motivation") || seq_eq(v, "strategy") || seq_eq(v, "technology") || seq_eq(v, "technologyUsage")
                || seq_eq(v, "implementationAndDeployment") || seq_eq(v, "implementationAndMigration")
                || seq_eq(v, "migration") || seq_eq(v, "layered")
        },
        None => false,
    }
}

/// What `str::parse::<isize>` gives for an optional text on a 64-bit machine, if anything.
#[verifier::opaque]
pub open spec fn parsed_isize(s: Option<Seq<char>>) -> Option<int> {
    match s {
        Some(t) => match parsed_i64(t) {
            IntParse::Value(v) => if isize::MIN <= v <= isize::MAX { Some(v) } else { None },
            _ => None,
        },
        None => None,
    }
}

/// An optional string by its view.
pub open spec fn text_of(value: Option<String>) -> Option<Seq<char>> {
    match value { Some(s) => Some(s@), None => None }
}

fn parse_isize(value: &Option<String>) -> (r: Option<isize>)
    ensures
        match r {
            Some(v) => parsed_isize(text_of(*value)) == Some(v as int),
            None => parsed_isize(text_of(*value)) is None,
        },
{
    reveal(parsed_isize);
    match value {
        Some(s) => match parse_i64(s.as_str()) {
            Ok(v) => {
                if isize::MIN as i64 <= v && v <= isize::MAX as i64 {
                    Some(v as isize)
                } else {
                    None
                }
            },
            Err(_) => None,
        },
        None => None,
    }
}

/// A view's `object.<id>.<name>` property.
#[verifier::opaque]
pub open spec fn object_property(view: View, id: Seq<char>, name: Seq<char>) -> Option<Seq<char>> {
    last_attribute(view.properties@, "object."@ + id + "."@ + name)
}

/// A view's `group.<name>.<field>` property.
#[verifier::opaque]
pub open spec fn group_property(view: View, name: Seq<char>, field: Seq<char>) -> Option<Seq<char>> {
    last_attribute(view.properties@, "group."@ + name + "."@ + field)
}

/// An optional integer, or `default`.
pub open spec fn or_default(v: Option<int>, default: int) -> int {
    match v { Some(x) => x, None => default }
}

/// The larger of `v` and one.
pub open spec fn at_least_one(v: int) -> int {
    if v < 1 { 1 } else { v }
}

/// The bounds a view places `id` at by hand, when it gives any of x, y, width and height: each
/// that parses, the default for the others, all kept as given.
pub open spec fn manual_bounds_of(view: View, id: Seq<char>, default: ArchiNativeBounds) -> Option<(int, int, int, int)> {
    if object_property(view, id, "x"@) is None && object_property(view, id, "y"@) is None
        && object_property(view, id, "width"@) is None && object_property(view, id, "height"@) is None {
        None
    } else {
        Some((
            or_default(parsed_isize(object_property(view, id, "x"@)), default.x as int),
            or_default(parsed_isize(object_property(view, id, "y"@)), default.y as int),
            or_default(parsed_isize(object_property(view, id, "width"@)), default.width as int),
            or_default(parsed_isize(object_property(view, id, "height"@)), default.height as int),
        ))
    }
}

/// Whether bounds hold the given numbers.
pub open spec fn bounds_are(b: ArchiNativeBounds, t: (int, int, int, int)) -> bool {
    b.x as int == t.0 && b.y as int == t.1 && b.width as int == t.2 && b.height as int == t.3
}

fn option_text(v: Option<String>) -> (r: Option<String>)
    ensures
        r == v,
{
    v
}

/// The bounds a view places an object at by hand, if it places it.
pub fn archi_native_manual_bounds(view: &View, identifier: &str, default: ArchiNativeBounds) -> (r: Option<ArchiNativeBounds>)
    ensures
        match manual_bounds_of(*view, identifier@, default) {
            Some(t) => r matches Some(b) && bounds_are(b, t),
            None => r is None,
        },
{
    reveal(object_property);
    let x = option_text(archi_native_view_object_property(view, identifier, "x"));
    let y = option_text(archi_native_view_object_property(view, identifier, "y"));
    let width = option_text(archi_native_view_object_property(view, identifier, "width"));
    let height = option_text(archi_native_view_object_property(view, identifier, "height"));
    if x.is_none() && y.is_none() && width.is_none() && height.is_none() {
        return None;
    }
    let bx = match parse_isize(&x) { Some(v) => v, None => default.x };
    let by = match parse_isize(&y) { Some(v) => v, None => default.y };
    let w = match parse_isize(&width) { Some(v) => v, None => default.width };
    let h = match parse_isize(&height) { Some(v) => v, None => default.height };
    Some(ArchiNativeBounds { x: bx, y: by, width: w, height: h })
}

/// The bounds a view places a group at by hand: all four of x, y, width and height must be
/// given and parse; width and height at least one.
pub open spec fn manual_group_bounds_of(view: View, name: Seq<char>) -> Option<(int, int, int, int)> {
    match (parsed_isize(group_property(view, name, "x"@)), parsed_isize(group_property(view, name, "y"@)),
        parsed_isize(group_property(view, name, "width"@)), parsed_isize(group_property(view, name, "height"@))) {
        (Some(x), Some(y), Some(w), Some(h)) => Some((x, y, at_least_one(w), at_least_one(h))),
        _ => None,
    }
}

/// The bounds a view places a group at by hand, if it places it completely.
pub fn archi_native_manual_group_bounds(view: &View, name: &str) -> (r: Option<ArchiNativeBounds>)
    ensures
        match manual_group_bounds_of(*view, name@) {
            Some(t) => r matches Some(b) && bounds_are(b, t),
            None => r is None,
        },
{
    reveal(group_property);
    let x = parse_isize(&option_text(archi_native_view_group_property(view, name, "x")));
    let y = parse_isize(&option_text(archi_native_view_group_property(view, name, "y")));
    let w = parse_isize(&option_text(archi_native_view_group_property(view, name, "width")));
    let h = parse_isize(&option_text(archi_native_view_group_property(view, name, "height")));
    match (x, y, w, h) {
        (Some(x), Some(y), Some(w), Some(h)) => Some(ArchiNativeBounds {
            x,
            y,
            width: if w < 1 { 1 } else { w },
            height: if h < 1 { 1 } else { h },
        }),
        _ => None,
    }
}

/// Whether bounds hold the numbers given, when some are.
pub open spec fn placed_at(b: ArchiNativeBounds, t: Option<(int, int, int, int)>) -> bool {
    match t {
        Some(t) => bounds_are(b, t),
        None => false,
    }
}

/// Whether a view places `id` completely by hand: all four of x, y, width and height.
pub open spec fn fully_placed(view: View, id: Seq<char>) -> bool {
    object_property(view, id, "x"@) is Some && object_property(view, id, "y"@) is Some
        && object_property(view, id, "width"@) is Some && object_property(view, id, "height"@) is Some
}

/// The bounds an object placed by hand gets, from a 180 by 80 default at the origin.
pub open spec fn hand_bounds(view: View, id: Seq<char>) -> Option<(int, int, int, int)> {
    manual_bounds_of(view, id, ArchiNativeBounds { x: 0, y: 0, width: 180, height: 80 })
}

fn hand_placed(view: &View, id: &str) -> (r: Option<ArchiNativeBounds>)
    ensures
        r is Some <==> fully_placed(*view, id@),
        r matches Some(b) ==> placed_at(b, hand_bounds(*view, id@)),
{
    reveal(object_property);
    if archi_native_view_object_property(view, id, "x").is_none() || archi_native_view_object_property(view, id, "y").is_none()
        || archi_native_view_object_property(view, id, "width").is_none()
        || archi_native_view_object_property(view, id, "height").is_none() {
        return None;
    }
    archi_native_manual_bounds(view, id, ArchiNativeBounds { x: 0, y: 0, width: 180, height: 80 })
}

/// Whether a list of placed objects holds, in order, each of `ids` at its bounds by hand.
pub open spec fn objects_placed(view: View, ids: Seq<String>, objects: Seq<(String, ArchiNativeBounds)>) -> bool {
    &&& objects.len() == ids.len()
    &&& forall|i: int| 0 <= i < objects.len() ==> (#[trigger] objects[i]).0@ == ids[i]@
        && placed_at(objects[i].1, hand_bounds(view, ids[i]@))
}

/// The bounds a view places a group at by hand, the group given by its index.
pub open spec fn group_hand_bounds(w: Workspace, view: View, g: usize) -> Option<(int, int, int, int)> {
    manual_group_bounds_of(view, w.groups@[g as int].name@)
}

/// Whether a list of placed groups holds, in order, each of `groups` at its bounds by hand.
pub open spec fn groups_placed(w: Workspace, view: View, groups: Seq<usize>, placed: Seq<(usize, ArchiNativeBounds)>) -> bool {
    &&& placed.len() == groups.len()
    &&& forall|i: int| 0 <= i < placed.len() ==> (#[trigger] placed[i]).0 == groups[i]
        && placed_at(placed[i].1, group_hand_bounds(w, view, groups[i]))
}

fn hand_objects(view: &View, ids: &Vec<String>) -> (r: Option<Vec<(String, ArchiNativeBounds)>>)
    ensures
        r is Some <==> forall|i: int| 0 <= i < ids@.len() ==> fully_placed(*view, (#[trigger] ids@[i])@),
        r matches Some(objects) ==> objects_placed(*view, ids@, objects@),
{
    let mut objects: Vec<(String, ArchiNativeBounds)> = Vec::new();
    let mut i: usize = 0;
    while i < ids.len()
        invariant
            i <= ids@.len(),
            forall|j: int| 0 <= j < i ==> fully_placed(*view, (#[trigger] ids@[j])@),
            objects_placed(*view, ids@.take(i as int), objects@),
        decreases ids.len() - i,
    {
        let b = match hand_placed(view, ids[i].as_str()) {
            Some(b) => b,
            None => {
                assert(!fully_placed(*view, ids@[i as int]@));
                return None;
            },
        };
        let ghost before = objects@;
        objects.push((ids[i].clone(), b));
        assert forall|j: int| 0 <= j < objects@.len() implies (#[trigger] objects@[j]).0@ == ids@.take(i + 1)[j]@
            && placed_at(objects@[j].1, hand_bounds(*view, ids@.take(i + 1)[j]@)) by {
            if j < i {
                assert(objects@[j] == before[j]);
                assert(ids@.take(i + 1)[j] == ids@.take(i as int)[j]);
            }
        }
        i = i + 1;
    }
    assert(ids@.take(ids@.len() as int) =~= ids@);
    Some(objects)
}

fn hand_groups(workspace: &Workspace, view: &View, groups: &Vec<usize>) -> (r: Option<Vec<(usize, ArchiNativeBounds)>>)
    requires
        forall|i: int| 0 <= i < groups@.len() ==> groups@[i] < workspace.groups@.len(),
    ensures
        r is Some <==> forall|i: int| 0 <= i < groups@.len() ==> group_hand_bounds(*workspace, *view, #[trigger] groups@[i]) is Some,
        r matches Some(placed) ==> groups_placed(*workspace, *view, groups@, placed@),
{
    let mut placed: Vec<(usize, ArchiNativeBounds)> = Vec::new();
    let mut g: usize = 0;
    while g < groups.len()
        invariant
            g <= groups@.len(),
            forall|i: int| 0 <= i < groups@.len() ==> groups@[i] < workspace.groups@.len(),
            forall|j: int| 0 <= j < g ==> group_hand_bounds(*workspace, *view, #[trigger] groups@[j]) is Some,
            groups_placed(*workspace, *view, groups@.take(g as int), placed@),
        decreases groups.len() - g,
    {
        let index = groups[g];
        let b = match archi_native_manual_group_bounds(view, workspace.groups[index].name.as_str()) {
            Some(b) => b,
            None => {
                assert(group_hand_bounds(*workspace, *view, groups@[g as int]) is None);
                return None;
            },
        };
        assert(placed_at(b, group_hand_bounds(*workspace, *view, index)));
        let ghost before = placed@;
        placed.push((index, b));
        assert forall|j: int| 0 <= j < placed@.len() implies (#[trigger] placed@[j]).0 == groups@.take(g + 1)[j]
            && placed_at(placed@[j].1, group_hand_bounds(*workspace, *view, groups@.take(g + 1)[j])) by {
            if j < g {
                assert(placed@[j] == before[j]);
                assert(groups@.take(g + 1)[j] == groups@.take(g as int)[j]);
            }
        }
        g = g + 1;
    }
    assert(groups@.take(groups@.len() as int) =~= groups@);
    Some(placed)
}

/// A layout taken whole from the view, when it places every shown element and every visible
/// group by hand: each element at its bounds in graph order, each group at its bounds.
pub fn archi_native_complete_manual_group_layout(workspace: &Workspace, view: &View, graph: &ViewGraph, visible_groups: &Vec<usize>) -> (r: Option<ArchiNativeLayout>)
    requires
        forall|i: int| 0 <= i < visible_groups@.len() ==> visible_groups@[i] < workspace.groups@.len(),
    ensures
        r is Some <==> (forall|i: int| 0 <= i < graph.element_ids@.len() ==> fully_placed(*view, (#[trigger] graph.element_ids@[i])@))
            && (forall|i: int| 0 <= i < visible_groups@.len() ==> group_hand_bounds(*workspace, *view, #[trigger] visible_groups@[i]) is Some),
        r matches Some(l) ==> objects_placed(*view, graph.element_ids@, l.objects@)
            && groups_placed(*workspace, *view, visible_groups@, l.groups@),
{
    let objects = match hand_objects(view, &graph.element_ids) {
        Some(o) => o,
        None => return None,
    };
    let groups = match hand_groups(workspace, view, visible_groups) {
        Some(g) => g,
        None => return None,
    };
    Some(ArchiNativeLayout { objects, groups })
}

} // verus!
