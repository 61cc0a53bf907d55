use vstd::prelude::*;
use vstd::view::View as _;
use crate::text::{trim, cat, cat3, cat5, decimal, digit_char, seq_eq, usize_to_string, ascii_lowercase};
use crate::archi_native::{
    objects_in,
    ArchiNativeModel, ArchiElement, ArchiRelationship, ArchiDiagram, ArchiDiagramChild, ArchiDiagramObject,
    ArchiBounds, views, collect_objects, dsl_identifier, dsl_identifier_of, dsl_string, dsl_escaped,
};
use crate::archimate::archimate_element_keyword;
use crate::xml::attribute;

verus! {

proof fn lemma_decimal_len(n: nat)
    ensures
        decimal(n).len() >= 1,
        n >= 10 ==> decimal(n).len() >= 2,
    decreases n,
{
    if n >= 10 {
        lemma_decimal_len(n / 10);
    }
}

proof fn lemma_decimal_injective(a: nat, b: nat)
    requires
        decimal(a) == decimal(b),
    ensures
        a == b,
    decreases a,
{
    lemma_decimal_len(a);
    lemma_decimal_len(b);
    if a < 10 && b < 10 {
        assert(decimal(a)[0] == digit_char(a));
        assert(decimal(b)[0] == digit_char(b));
    } else if a >= 10 && b >= 10 {
        assert(decimal(a).last() == digit_char(a % 10));
        assert(decimal(b).last() == digit_char(b % 10));
        assert(decimal(a).drop_last() == decimal(a / 10));
        assert(decimal(b).drop_last() == decimal(b / 10));
        lemma_decimal_injective(a / 10, b / 10);
    }
}

/// `base`, an underscore and `k`.
pub open spec fn suffixed(base: Seq<char>, k: nat) -> Seq<char> {
    base + "_"@ + decimal(k)
}

proof fn lemma_suffixed_distinct(base: Seq<char>, a: nat, b: nat)
    ensures
        suffixed(base, a) != base,
        a != b ==> suffixed(base, a) != suffixed(base, b),
{
    reveal_strlit("_");
    lemma_decimal_len(a);
    if a != b && suffixed(base, a) == suffixed(base, b) {
        assert(suffixed(base, a).skip(base.len() as int + 1) =~= decimal(a));
        assert(suffixed(base, b).skip(base.len() as int + 1) =~= decimal(b));
        lemma_decimal_injective(a, b);
    }
}

/// Whether `used` holds `s`, and where.
fn position_of(used: &Vec<String>, s: &str) -> (r: Option<usize>)
    ensures
        match r {
            Some(j) => j < used@.len() && used@[j as int]@ == s@,
            None => !views(used@).contains(s@),
        },
{
    let mut i: usize = 0;
    while i < used.len()
        invariant
            i <= used@.len(),
            forall|k: int| 0 <= k < i ==> used@[k]@ != s@,
        decreases used.len() - i,
    {
        if seq_eq(used[i].as_str(), s) {
            return Some(i);
        }
        i = i + 1;
    }
    assert(!views(used@).contains(s@)) by {
        if views(used@).contains(s@) {
            let k = choose|k: int| 0 <= k < views(used@).len() && views(used@)[k] == s@;
            assert(used@[k]@ == s@);
        }
    }
    None
}

proof fn lemma_positions_bound(s: Seq<usize>, n: nat)
    requires
        s.no_duplicates(),
        forall|i: int| 0 <= i < s.len() ==> (#[trigger] s[i]) < n,
    ensures
        s.len() <= n,
    decreases n,
{
    if n == 0 {
        if s.len() > 0 {
            assert(s[0] < 0);
        }
    } else {
        let top = (n - 1) as usize;
        if s.contains(top) {
            let k = choose|k: int| 0 <= k < s.len() && s[k] == top;
            let t = s.remove(k);
            assert forall|i: int| 0 <= i < t.len() implies (#[trigger] t[i]) < n - 1 by {
                if i < k {
                    assert(t[i] == s[i]);
                    assert(s[i] != s[k]);
                } else {
                    assert(t[i] == s[i + 1]);
                    assert(s[i + 1] != s[k]);
                }
            }
            assert(t.no_duplicates()) by {
                assert forall|i: int, j: int| 0 <= i < t.len() && 0 <= j < t.len() && i != j implies t[i] != t[j] by {
                    let si = if i < k { i } else { i + 1 };
                    let sj = if j < k { j } else { j + 1 };
                    assert(t[i] == s[si] && t[j] == s[sj]);
                }
            }
            lemma_positions_bound(t, (n - 1) as nat);
        } else {
            assert forall|i: int| 0 <= i < s.len() implies (#[trigger] s[i]) < n - 1 by {
                assert(s[i] != top);
            }
            lemma_positions_bound(s, (n - 1) as nat);
        }
    }
}

/// `n` written in decimal.
pub fn u128_to_string(n: u128) -> (r: String)
    ensures
        r@ == decimal(n as nat),
    decreases n,
{
    let d: u8 = (n % 10) as u8;
    let c: char = (d + 48) as char;
    assert(c == digit_char((n % 10) as nat));
    if n < 10 {
        let mut r = String::new();
        r.push(c);
        assert(r@ =~= seq![c]);
        r
    } else {
        let mut r = u128_to_string(n / 10);
        r.push(c);
        r
    }
}

/// The first of `base`, `base_2`, `base_3`, … that `used` does not hold.
pub fn fresh_key(used: &Vec<String>, base: &str) -> (r: String)
    ensures
        !views(used@).contains(r@),
        !views(used@).contains(base@) ==> r@ == base@,
        views(used@).contains(base@) ==> exists|k: nat| 2 <= k && r@ == #[trigger] suffixed(base@, k)
            && forall|j: nat| 2 <= j < k ==> views(used@).contains(#[trigger] suffixed(base@, j)),
{
    let first = position_of(used, base);
    match first {
        None => {
            return String::from_str(base);
        },
        Some(p0) => {
            let ghost mut positions: Seq<usize> = seq![p0];
            let mut suffix: u128 = 2;
            let total = used.len();
            assert(views(used@)[p0 as int] == base@);
            loop
                invariant
                    2 <= suffix <= used@.len() + 1,
                    total == used@.len(),
                    positions.len() == suffix - 1,
                    positions.no_duplicates(),
                    forall|t: int| 0 <= t < positions.len() ==> (#[trigger] positions[t]) < used@.len(),
                    used@[positions[0] as int]@ == base@,
                    forall|t: int| 1 <= t < positions.len() ==> used@[(#[trigger] positions[t]) as int]@ == suffixed(base@, (t + 1) as nat),
                    forall|j: nat| 2 <= j < suffix ==> views(used@).contains(#[trigger] suffixed(base@, j)),
                    views(used@).contains(base@),
                decreases used@.len() + 2 - suffix,
            {
                let n = u128_to_string(suffix);
                let head = cat(base, "_");
                let candidate = cat(head.as_str(), n.as_str());
                assert(candidate@ == suffixed(base@, suffix as nat));
                match position_of(used, candidate.as_str()) {
                    None => {
                        return candidate;
                    },
                    Some(j) => {
                        proof {
                            assert forall|t: int| 0 <= t < positions.len() implies positions[t] != j by {
                                if t == 0 {
                                    lemma_suffixed_distinct(base@, suffix as nat, suffix as nat);
                                } else {
                                    lemma_suffixed_distinct(base@, suffix as nat, (t + 1) as nat);
                                }
                            }
                            let grown = positions.push(j);
                            assert(grown.no_duplicates()) by {
                                assert forall|a: int, b: int| 0 <= a < grown.len() && 0 <= b < grown.len() && a != b implies grown[a] != grown[b] by {
                                    if a < positions.len() && b < positions.len() {
                                        assert(grown[a] == positions[a] && grown[b] == positions[b]);
                                    } else if a < positions.len() {
                                        assert(grown[a] == positions[a]);
                                    } else {
                                        assert(grown[b] == positions[b]);
                                    }
                                }
                            }
                            assert(views(used@)[j as int] == candidate@);
                            positions = grown;
                            lemma_positions_bound(positions, used@.len() as nat);
                        }
                        suffix = suffix + 1;
                    },
                }
            }
        },
    }
}

/// Keys for `names`, one each in order: the DSL identifier of the name, with `_2`, `_3`, …
/// added to the first that repeats an earlier key.
pub fn unique_keys(names: &Vec<String>) -> (r: Vec<String>)
    ensures
        r@.len() == names@.len(),
        views(r@).no_duplicates(),
        forall|i: int| 0 <= i < r@.len() ==> (#[trigger] r@[i])@ == dsl_identifier_of(names@[i]@)
            || exists|k: nat| 2 <= k && r@[i]@ == #[trigger] suffixed(dsl_identifier_of(names@[i]@), k),
{
    let mut used: Vec<String> = Vec::new();
    let mut i: usize = 0;
    while i < names.len()
        invariant
            i <= names@.len(),
            used@.len() == i,
            views(used@).no_duplicates(),
            forall|j: int| 0 <= j < i ==> (#[trigger] used@[j])@ == dsl_identifier_of(names@[j]@)
                || exists|k: nat| 2 <= k && used@[j]@ == #[trigger] suffixed(dsl_identifier_of(names@[j]@), k),
        decreases names.len() - i,
    {
        let base = dsl_identifier(names[i].as_str());
        let key = fresh_key(&used, base.as_str());
        let ghost before = used@;
        used.push(key);
        proof {
            assert(views(used@) =~= views(before).push(used@[i as int]@));
            assert forall|a: int, b: int| 0 <= a < views(used@).len() && 0 <= b < views(used@).len() && a != b
                implies views(used@)[a] != views(used@)[b] by {
                if a < i && b < i {
                    assert(views(before)[a] != views(before)[b]);
                } else if a == i {
                    assert(views(used@)[b] == views(before)[b]);
                    assert(views(before).contains(views(before)[b]));
                } else {
                    assert(views(used@)[a] == views(before)[a]);
                    assert(views(before).contains(views(before)[a]));
                }
            }
            if views(before).contains(base@) {
                let k = choose|k: nat| 2 <= k && used@[i as int]@ == #[trigger] suffixed(base@, k)
                    && forall|j: nat| 2 <= j < k ==> views(before).contains(#[trigger] suffixed(base@, j));
                assert(used@[i as int]@ == suffixed(dsl_identifier_of(names@[i as int]@), k));
            }
            assert forall|j: int| 0 <= j <= i implies (#[trigger] used@[j])@ == dsl_identifier_of(names@[j]@)
                || exists|k: nat| 2 <= k && used@[j]@ == #[trigger] suffixed(dsl_identifier_of(names@[j]@), k) by {
                if j < i {
                    assert(used@[j] == before[j]);
                }
            }
        }
        i = i + 1;
    }
    used
}

/// `v` in decimal, with a minus sign when negative.
pub fn i64_to_string(v: i64) -> (r: String)
    ensures
        r@ == (if v < 0 { "-"@ + decimal((-v) as nat) } else { decimal(v as nat) }),
{
    if v < 0 {
        let magnitude: u128 = ((-(v as i128)) as u128);
        let digits = u128_to_string(magnitude);
        cat("-", digits.as_str())
    } else {
        u128_to_string(v as u128)
    }
}

/// `n` spaces.
fn spaces(n: usize) -> (r: String)
    ensures
        r@ == Seq::new(n as nat, |i: int| ' '),
{
    let mut out = String::new();
    let mut i: usize = 0;
    while i < n
        invariant
            i <= n,
            out@ == Seq::new(i as nat, |k: int| ' '),
        decreases n - i,
    {
        out.push(' ');
        i = i + 1;
        assert(out@ =~= Seq::new(i as nat, |k: int| ' '));
    }
    out
}

/// The last of `elements` with identifier `id`, as a map keyed by identifier keeps it.
fn lookup_element(elements: &Vec<&ArchiElement>, id: &str) -> (r: Option<usize>)
    ensures
        r matches Some(i) ==> i < elements@.len() && elements@[i as int].id@ == id@,
{
    let mut i = elements.len();
    while i > 0
        invariant
            i <= elements@.len(),
        decreases i,
    {
        if seq_eq(elements[i - 1].id.as_str(), id) {
            return Some(i - 1);
        }
        i = i - 1;
    }
    None
}

/// Whether `v` holds `s`.
fn holds(v: &Vec<String>, s: &str) -> (r: bool)
    ensures
        r == views(v@).contains(s@),
{
    match position_of(v, s) {
        Some(j) => {
            assert(views(v@)[j as int] == s@);
            true
        },
        None => false,
    }
}

/// Visual groups as projection groups: for each group, its direct objects whose element no
/// earlier group took, with the group's vertical position (none sorts last) and name.
fn collect_projection_groups(children: &Vec<ArchiDiagramChild>, assigned: &mut Vec<String>, groups: &mut Vec<(i64, String, Vec<String>)>)
    decreases children@,
{
    let mut i: usize = 0;
    while i < children.len()
        invariant
            i <= children@.len(),
        decreases children.len() - i,
    {
        match &children[i] {
            ArchiDiagramChild::Group(g) => {
                let mut members: Vec<String> = Vec::new();
                let mut k: usize = 0;
                while k < g.children.len()
                    invariant
                        k <= g.children@.len(),
                    decreases g.children.len() - k,
                {
                    match &g.children[k] {
                        ArchiDiagramChild::Object(o) => {
                            if !holds(assigned, o.element.as_str()) {
                                assigned.push(o.element.clone());
                                members.push(o.element.clone());
                            }
                        },
                        ArchiDiagramChild::Group(_) => {},
                    }
                    k = k + 1;
                }
                if members.len() > 0 {
                    let y = match g.bounds {
                        Some(b) => b.y,
                        None => i64::MAX,
                    };
                    groups.push((y, g.name.clone(), members));
                }
                collect_projection_groups(&g.children, assigned, groups);
            },
            ArchiDiagramChild::Object(_) => {},
        }
        i = i + 1;
    }
}

/// The projection groups of all diagrams, ordered by vertical position, ties in order.
fn projection_groups(model: &ArchiNativeModel) -> (r: Vec<(String, Vec<String>)>) {
    let mut assigned: Vec<String> = Vec::new();
    let mut found: Vec<(i64, String, Vec<String>)> = Vec::new();
    let mut f: usize = 0;
    while f < model.folders.len()
        invariant
            f <= model.folders@.len(),
        decreases model.folders.len() - f,
    {
        let folder = &model.folders[f];
        let mut d: usize = 0;
        while d < folder.diagrams.len()
            invariant
                d <= folder.diagrams@.len(),
            decreases folder.diagrams.len() - d,
        {
            collect_projection_groups(&folder.diagrams[d].children, &mut assigned, &mut found);
            d = d + 1;
        }
        f = f + 1;
    }
    let mut sorted: Vec<(i64, String, Vec<String>)> = Vec::new();
    while found.len() > 0
        invariant
            true,
        decreases found.len(),
    {
        let entry = found.remove(0);
        let mut p = sorted.len();
        while p > 0 && sorted[p - 1].0 > entry.0
            invariant
                p <= sorted@.len(),
            decreases p,
        {
            p = p - 1;
        }
        sorted.insert(p, entry);
    }
    let mut out: Vec<(String, Vec<String>)> = Vec::new();
    while sorted.len() > 0
        invariant
            true,
        decreases sorted.len(),
    {
        let (_, name, members) = sorted.remove(0);
        out.push((name, members));
    }
    out
}

/// `ids` with each of `xs` added in order unless it is already there.
pub open spec fn add_distinct(ids: Seq<Seq<char>>, xs: Seq<Seq<char>>) -> Seq<Seq<char>>
    decreases xs.len(),
{
    if xs.len() == 0 {
        ids
    } else {
        let p = add_distinct(ids, xs.drop_last());
        if p.contains(xs.last()) { p } else { p.push(xs.last()) }
    }
}

/// The elements the objects show, in order.
pub open spec fn element_refs(objs: Seq<ArchiDiagramObject>) -> Seq<Seq<char>> {
    Seq::new(objs.len(), |k: int| objs[k].element@)
}

proof fn lemma_add_distinct_concat(ids: Seq<Seq<char>>, xs: Seq<Seq<char>>, ys: Seq<Seq<char>>)
    ensures
        add_distinct(ids, xs + ys) == add_distinct(add_distinct(ids, xs), ys),
    decreases ys.len(),
{
    if ys.len() == 0 {
        assert(xs + ys =~= xs);
    } else {
        assert((xs + ys).drop_last() =~= xs + ys.drop_last());
        assert((xs + ys).last() == ys.last());
        lemma_add_distinct_concat(ids, xs, ys.drop_last());
    }
}

/// The distinct elements that `children` show, in document order.
fn collect_diagram_element_ids(children: &Vec<ArchiDiagramChild>, ids: &mut Vec<String>)
    ensures
        views(final(ids)@) == add_distinct(views(old(ids)@), element_refs(objects_in(children@))),
    decreases children@,
{
    let ghost start = views(ids@);
    let mut i: usize = 0;
    assert(children@.take(0) =~= Seq::<ArchiDiagramChild>::empty());
    assert(element_refs(objects_in(children@.take(0))) =~= Seq::<Seq<char>>::empty());
    while i < children.len()
        invariant
            i <= children@.len(),
            start == views(old(ids)@),
            views(ids@) == add_distinct(start, element_refs(objects_in(children@.take(i as int)))),
        decreases children.len() - i,
    {
        assert(children@.take(i + 1).drop_last() =~= children@.take(i as int));
        assert(children@.take(i + 1).last() == children@[i as int]);
        let ghost prefix = objects_in(children@.take(i as int));
        assert(objects_in(children@.take(i + 1)) == prefix + crate::archi_native::objects_below(children@[i as int]));
        match &children[i] {
            ArchiDiagramChild::Object(o) => {
                assert(crate::archi_native::objects_below(children@[i as int]) == seq![*o] + objects_in(o.children@));
                let ghost mid = views(ids@);
                if !holds(ids, o.element.as_str()) {
                    ids.push(o.element.clone());
                    assert(views(ids@) =~= mid.push(o.element@));
                }
                proof {
                    assert(element_refs(seq![*o]) =~= seq![o.element@]);
                    assert(seq![o.element@].drop_last() =~= Seq::<Seq<char>>::empty());
                    assert(add_distinct(mid, Seq::<Seq<char>>::empty()) == mid);
                    assert(seq![o.element@].last() == o.element@);
                    assert(add_distinct(mid, seq![o.element@]) == views(ids@));
                }
                collect_diagram_element_ids(&o.children, ids);
                proof {
                    let a = element_refs(prefix);
                    let b = element_refs(seq![*o]);
                    let c = element_refs(objects_in(o.children@));
                    assert(element_refs(prefix + (seq![*o] + objects_in(o.children@))) =~= a + (b + c));
                    lemma_add_distinct_concat(start, a, b + c);
                    lemma_add_distinct_concat(add_distinct(start, a), b, c);
                }
            },
            ArchiDiagramChild::Group(g) => {
                assert(crate::archi_native::objects_below(children@[i as int]) == objects_in(g.children@));
                collect_diagram_element_ids(&g.children, ids);
                proof {
                    let a = element_refs(prefix);
                    let c = element_refs(objects_in(g.children@));
                    assert(element_refs(prefix + objects_in(g.children@)) =~= a + c);
                    lemma_add_distinct_concat(start, a, c);
                }
            },
        }
        i = i + 1;
    }
    assert(children@.take(children@.len() as int) =~= children@);
}

/// Whether one of the objects has a connection that shows `rel`.
pub open spec fn shows_relationship(objs: Seq<ArchiDiagramObject>, rel: Seq<char>) -> bool {
    exists|k: int, c: int| 0 <= k < objs.len() && 0 <= c < objs[k].connections@.len()
        && (#[trigger] objs[k].connections@[c]).relationship@ == rel
}

fn connections_show(o: &ArchiDiagramObject, relationship: &str) -> (r: bool)
    ensures
        r == exists|c: int| 0 <= c < o.connections@.len() && (#[trigger] o.connections@[c]).relationship@ == relationship@,
{
    let mut k: usize = 0;
    while k < o.connections.len()
        invariant
            k <= o.connections@.len(),
            forall|c: int| 0 <= c < k ==> (#[trigger] o.connections@[c]).relationship@ != relationship@,
        decreases o.connections.len() - k,
    {
        if seq_eq(o.connections[k].relationship.as_str(), relationship) {
            return true;
        }
        k = k + 1;
    }
    false
}

proof fn lemma_shows_concat(a: Seq<ArchiDiagramObject>, b: Seq<ArchiDiagramObject>, rel: Seq<char>)
    ensures
        shows_relationship(a + b, rel) == (shows_relationship(a, rel) || shows_relationship(b, rel)),
{
    let ab = a + b;
    if shows_relationship(ab, rel) {
        let (k, c) = choose|k: int, c: int| 0 <= k < ab.len() && 0 <= c < ab[k].connections@.len()
            && (#[trigger] ab[k].connections@[c]).relationship@ == rel;
        if k < a.len() {
            assert(ab[k] == a[k]);
            assert(a[k].connections@[c].relationship@ == rel);
        } else {
            assert(ab[k] == b[k - a.len()]);
            assert(b[k - a.len()].connections@[c].relationship@ == rel);
        }
    }
    if shows_relationship(a, rel) {
        let (k, c) = choose|k: int, c: int| 0 <= k < a.len() && 0 <= c < a[k].connections@.len()
            && (#[trigger] a[k].connections@[c]).relationship@ == rel;
        assert(ab[k] == a[k]);
        assert(ab[k].connections@[c].relationship@ == rel);
    }
    if shows_relationship(b, rel) {
        let (k, c) = choose|k: int, c: int| 0 <= k < b.len() && 0 <= c < b[k].connections@.len()
            && (#[trigger] b[k].connections@[c]).relationship@ == rel;
        assert(ab[a.len() + k] == b[k]);
        assert(ab[a.len() + k].connections@[c].relationship@ == rel);
    }
}

/// The objects of the first `j` children come first among the objects of all of them.
proof fn lemma_objects_prefix(s: Seq<ArchiDiagramChild>, j: int)
    requires
        0 <= j <= s.len(),
    ensures
        objects_in(s.take(j)).len() <= objects_in(s).len(),
        forall|k: int| 0 <= k < objects_in(s.take(j)).len() ==> #[trigger] objects_in(s)[k] == objects_in(s.take(j))[k],
    decreases s.len(),
{
    if j == s.len() {
        assert(s.take(j) =~= s);
    } else {
        assert(s.take(j) =~= s.drop_last().take(j));
        lemma_objects_prefix(s.drop_last(), j);
        assert(objects_in(s) == objects_in(s.drop_last()) + crate::archi_native::objects_below(s.last()));
    }
}

proof fn lemma_shows_prefix(s: Seq<ArchiDiagramChild>, j: int, rel: Seq<char>)
    requires
        0 <= j <= s.len(),
        shows_relationship(objects_in(s.take(j)), rel),
    ensures
        shows_relationship(objects_in(s), rel),
{
    lemma_objects_prefix(s, j);
    let p = objects_in(s.take(j));
    let (k, c) = choose|k: int, c: int| 0 <= k < p.len() && 0 <= c < p[k].connections@.len()
        && (#[trigger] p[k].connections@[c]).relationship@ == rel;
    assert(objects_in(s)[k] == p[k]);
    assert(objects_in(s)[k].connections@[c].relationship@ == rel);
}

/// Whether a connection among `children` or below them shows `relationship`.
fn children_have_relationship(children: &Vec<ArchiDiagramChild>, relationship: &str) -> (r: bool)
    ensures
        r == shows_relationship(objects_in(children@), relationship@),
    decreases children@,
{
    let mut i: usize = 0;
    assert(children@.take(0) =~= Seq::<ArchiDiagramChild>::empty());
    while i < children.len()
        invariant
            i <= children@.len(),
            !shows_relationship(objects_in(children@.take(i as int)), relationship@),
        decreases children.len() - i,
    {
        assert(children@.take(i + 1).drop_last() =~= children@.take(i as int));
        assert(children@.take(i + 1).last() == children@[i as int]);
        let ghost prefix = objects_in(children@.take(i as int));
        assert(objects_in(children@.take(i + 1)) == prefix + crate::archi_native::objects_below(children@[i as int]));
        match &children[i] {
            ArchiDiagramChild::Object(o) => {
                let direct = connections_show(o, relationship);
                let below = children_have_relationship(&o.children, relationship);
                assert(crate::archi_native::objects_below(children@[i as int]) == seq![*o] + objects_in(o.children@));
                proof {
                    lemma_shows_concat(seq![*o], objects_in(o.children@), relationship@);
                    lemma_shows_concat(prefix, seq![*o] + objects_in(o.children@), relationship@);
                    if direct {
                        let c = choose|c: int| 0 <= c < o.connections@.len() && (#[trigger] o.connections@[c]).relationship@ == relationship@;
                        assert(seq![*o][0].connections@[c].relationship@ == relationship@);
                    } else {
                        assert(!shows_relationship(seq![*o], relationship@));
                    }
                }
                if direct || below {
                    proof { lemma_shows_prefix(children@, i + 1, relationship@); }
                    return true;
                }
            },
            ArchiDiagramChild::Group(g) => {
                let below = children_have_relationship(&g.children, relationship);
                assert(crate::archi_native::objects_below(children@[i as int]) == objects_in(g.children@));
                proof {
                    lemma_shows_concat(prefix, objects_in(g.children@), relationship@);
                }
                if below {
                    proof { lemma_shows_prefix(children@, i + 1, relationship@); }
                    return true;
                }
            },
        }
        i = i + 1;
    }
    assert(children@.take(children@.len() as int) =~= children@);
    false
}

/// The access direction of an imported relationship: its `accessType` attribute, else its
/// `access` attribute, named ASCII case-insensitively.
pub open spec fn access_direction_of(r: ArchiRelationship) -> Option<Seq<char>> {
    let value = match crate::xml::attribute_value(r.attributes@, "accessType"@) {
        Some(v) => Some(v),
        None => crate::xml::attribute_value(r.attributes@, "access"@),
    };
    match value {
        None => None,
        Some(v) => {
            let l = crate::archi_layout::lowered(v);
            if l == "read"@ { Some("read"@) }
            else if l == "write"@ { Some("write"@) }
            else if l == "readwrite"@ || l == "read_write"@ || l == "read-write"@ { Some("readWrite"@) }
            else if l == "access"@ { Some("access"@) }
            else { None }
        },
    }
}

fn relationship_access_direction(relationship: &ArchiRelationship) -> (r: Option<&'static str>)
    ensures
        match r { Some(v) => Some(v@), None => None::<Seq<char>> } == access_direction_of(*relationship),
{
    let value = match attribute(&relationship.attributes, "accessType") {
        Some(v) => v,
        None => match attribute(&relationship.attributes, "access") {
            Some(v) => v,
            None => {
                return None;
            },
        },
    };
    let lowered = ascii_lowercase(value.as_str());
    let l = lowered.as_str();
    if seq_eq(l, "read") {
        Some("read")
    } else if seq_eq(l, "write") {
        Some("write")
    } else if seq_eq(l, "readwrite") || seq_eq(l, "read_write") || seq_eq(l, "read-write") {
        Some("readWrite")
    } else if seq_eq(l, "access") {
        Some("access")
    } else {
        None
    }
}

/// The DSL keyword of a projected element: junctions by their kind, other types by the
/// element table, `grouping` for the unknown.
/// The DSL keyword of a projected element.
pub open spec fn projected_keyword(e: ArchiElement) -> Seq<char> {
    if e.native_type@ == "Junction"@ {
        let value = match crate::xml::attribute_value(e.attributes@, "kind"@) {
            Some(v) => Some(crate::archi_layout::lowered(v)),
            None => match crate::xml::attribute_value(e.attributes@, "type"@) {
                Some(v) => Some(crate::archi_layout::lowered(v)),
                None => None,
            },
        };
        match value {
            Some(v) => if v == "and"@ { "andJunction"@ } else if v == "or"@ { "orJunction"@ } else { "junction"@ },
            None => "junction"@,
        }
    } else {
        match crate::archimate::spec_type_by_native(e.native_type@) {
            Some(t) => t.keyword@,
            None => "grouping"@,
        }
    }
}

fn projected_element_keyword(element: &ArchiElement) -> (r: &'static str)
    ensures
        r@ == projected_keyword(*element),
{
    if seq_eq(element.native_type.as_str(), "Junction") {
        let value = match attribute(&element.attributes, "kind") {
            Some(v) => Some(ascii_lowercase(v.as_str())),
            None => match attribute(&element.attributes, "type") {
                Some(v) => Some(ascii_lowercase(v.as_str())),
                None => None,
            },
        };
        return match value {
            Some(v) => if seq_eq(v.as_str(), "and") {
                "andJunction"
            } else if seq_eq(v.as_str(), "or") {
                "orJunction"
            } else {
                "junction"
            },
            None => "junction",
        };
    }
    match archimate_element_keyword(element.native_type.as_str()) {
        Some(k) => k,
        None => "grouping",
    }
}

/// The name of a projected element: its trimmed name, or its type and identifier.
fn projected_element_name(element: &ArchiElement) -> (r: String) {
    let trimmed = trim(element.name.as_str());
    if trimmed.as_str().unicode_len() == 0 {
        let id = dsl_identifier(element.id.as_str());
        cat3(element.native_type.as_str(), " ", id.as_str())
    } else {
        trimmed
    }
}

/// Writes one projected element line.
fn append_projected_element(output: &mut String, element: &ArchiElement, identifier: &str, indent: usize) {
    let pad = spaces(indent);
    let name = dsl_string(projected_element_name(element).as_str());
    let keyword = projected_element_keyword(element);
    let head = cat5(pad.as_str(), identifier, " = ", keyword, " ");
    output.append(head.as_str());
    output.append(name.as_str());
    match &element.description {
        Some(d) => {
            output.append(" ");
            output.append(dsl_string(d.as_str()).as_str());
        },
        None => {},
    }
    output.append("\n");
}

/// Writes an `archimate` block of elements, or nothing for none.
fn append_projected_block(output: &mut String, block: &Vec<&ArchiElement>, elements: &Vec<&ArchiElement>, idents: &Vec<String>, indent: usize)
    requires
        idents@.len() == elements@.len(),
        indent < usize::MAX - 2,
{
    if block.len() == 0 {
        return;
    }
    let pad = spaces(indent);
    output.append(pad.as_str());
    output.append("archimate {\n");
    let mut i: usize = 0;
    while i < block.len()
        invariant
            i <= block@.len(),
            idents@.len() == elements@.len(),
            indent < usize::MAX - 2,
        decreases block.len() - i,
    {
        let e = block[i];
        match lookup_element(elements, e.id.as_str()) {
            Some(k) => append_projected_element(output, e, idents[k].as_str(), indent + 2),
            None => {},
        }
        i = i + 1;
    }
    output.append(pad.as_str());
    output.append("}\n");
}

/// Where a projection starts: the workspace line with the model's name and purpose.
pub open spec fn projection_head(model: ArchiNativeModel) -> Seq<char> {
    "workspace "@ + seq!['"'] + dsl_escaped(model.name@) + seq!['"'] + match model.purpose {
        Some(p) => " "@ + seq!['"'] + dsl_escaped(p@) + seq!['"'],
        None => Seq::empty(),
    } + " {\n  model {\n"@
}

/// The DSL workspace projected from a native model: its elements in `archimate` blocks
/// (grouped by the visual groups of its diagrams), its relationships with their types, access
/// and the views that show them, and one `archimateView` per diagram with the positions of its
/// objects. Elements and views get distinct identifiers.
pub fn project_to_dsl(model: &ArchiNativeModel) -> (r: String)
    ensures
        r@ == projection_head(*model) + r@.subrange(projection_head(*model).len() as int, r@.len() - 2) + "}\n"@,
        r@.len() >= projection_head(*model).len() + 2,
{
    let mut elements: Vec<&ArchiElement> = Vec::new();
    let mut names: Vec<String> = Vec::new();
    let mut f: usize = 0;
    while f < model.folders.len()
        invariant
            f <= model.folders@.len(),
            names@.len() == elements@.len(),
        decreases model.folders.len() - f,
    {
        let folder = &model.folders[f];
        let mut k: usize = 0;
        while k < folder.elements.len()
            invariant
                k <= folder.elements@.len(),
                names@.len() == elements@.len(),
            decreases folder.elements.len() - k,
        {
            elements.push(&folder.elements[k]);
            names.push(folder.elements[k].name.clone());
            k = k + 1;
        }
        f = f + 1;
    }
    let idents = unique_keys(&names);
    let groups = projection_groups(model);
    let mut diagrams: Vec<&ArchiDiagram> = Vec::new();
    let mut diagram_names: Vec<String> = Vec::new();
    let mut f2: usize = 0;
    while f2 < model.folders.len()
        invariant
            f2 <= model.folders@.len(),
            diagram_names@.len() == diagrams@.len(),
        decreases model.folders.len() - f2,
    {
        let folder = &model.folders[f2];
        let mut k: usize = 0;
        while k < folder.diagrams.len()
            invariant
                k <= folder.diagrams@.len(),
                diagram_names@.len() == diagrams@.len(),
            decreases folder.diagrams.len() - k,
        {
            diagrams.push(&folder.diagrams[k]);
            diagram_names.push(folder.diagrams[k].name.clone());
            k = k + 1;
        }
        f2 = f2 + 1;
    }
    let keys = unique_keys(&diagram_names);
    let mut tags: Vec<String> = Vec::new();
    let mut t: usize = 0;
    while t < keys.len()
        invariant
            t <= keys@.len(),
            tags@.len() == t,
        decreases keys.len() - t,
    {
        tags.push(cat("archi_view_", keys[t].as_str()));
        t = t + 1;
    }

    let mut head = cat("workspace ", dsl_string(model.name.as_str()).as_str());
    match &model.purpose {
        Some(p) => {
            head.append(" ");
            head.append(dsl_string(p.as_str()).as_str());
        },
        None => {},
    }
    head.append(" {\n  model {\n");
    let mut body = String::new();

    let mut ungrouped: Vec<&ArchiElement> = Vec::new();
    let mut i: usize = 0;
    while i < elements.len()
        invariant
            i <= elements@.len(),
        decreases elements.len() - i,
    {
        let e = elements[i];
        let mut grouped = false;
        let mut g: usize = 0;
        while g < groups.len()
            invariant
                g <= groups@.len(),
            decreases groups.len() - g,
        {
            if holds(&groups[g].1, e.id.as_str()) {
                grouped = true;
            }
            g = g + 1;
        }
        if !grouped {
            ungrouped.push(e);
        }
        i = i + 1;
    }
    append_projected_block(&mut body, &ungrouped, &elements, &idents, 4);
    let mut g: usize = 0;
    while g < groups.len()
        invariant
            g <= groups@.len(),
            idents@.len() == elements@.len(),
        decreases groups.len() - g,
    {
        body.append("    group ");
        body.append(dsl_string(groups[g].0.as_str()).as_str());
        body.append(" {\n");
        let mut members: Vec<&ArchiElement> = Vec::new();
        let mut k: usize = 0;
        while k < elements.len()
            invariant
                k <= elements@.len(),
                g < groups@.len(),
            decreases elements.len() - k,
        {
            if holds(&groups[g].1, elements[k].id.as_str()) {
                members.push(elements[k]);
            }
            k = k + 1;
        }
        append_projected_block(&mut body, &members, &elements, &idents, 6);
        body.append("    }\n");
        g = g + 1;
    }

    let mut f3: usize = 0;
    while f3 < model.folders.len()
        invariant
            f3 <= model.folders@.len(),
            idents@.len() == elements@.len(),
            tags@.len() == diagrams@.len(),
        decreases model.folders.len() - f3,
    {
        let folder = &model.folders[f3];
        let mut k: usize = 0;
        while k < folder.relationships.len()
            invariant
                k <= folder.relationships@.len(),
                idents@.len() == elements@.len(),
                tags@.len() == diagrams@.len(),
            decreases folder.relationships.len() - k,
        {
            let relationship = &folder.relationships[k];
            let source = lookup_element(&elements, relationship.source.as_str());
            let target = lookup_element(&elements, relationship.target.as_str());
            if let (Some(s), Some(t)) = (source, target) {
                body.append("    ");
                body.append(idents[s].as_str());
                body.append(" -> ");
                body.append(idents[t].as_str());
                if relationship.name.as_str().unicode_len() > 0 {
                    body.append(" ");
                    body.append(dsl_string(relationship.name.as_str()).as_str());
                }
                let mut shown = String::new();
                let mut d: usize = 0;
                while d < diagrams.len()
                    invariant
                        d <= diagrams@.len(),
                        tags@.len() == diagrams@.len(),
                    decreases diagrams.len() - d,
                {
                    if children_have_relationship(&diagrams[d].children, relationship.id.as_str()) {
                        if shown.as_str().unicode_len() > 0 {
                            shown.append(",");
                        }
                        shown.append(tags[d].as_str());
                    }
                    d = d + 1;
                }
                body.append(" {\n      type ");
                body.append(relationship.native_type.as_str());
                body.append("\n");
                match relationship_access_direction(relationship) {
                    Some(access) => {
                        body.append("      access ");
                        body.append(access);
                        body.append("\n");
                    },
                    None => {},
                }
                if shown.as_str().unicode_len() > 0 {
                    body.append("      tags ");
                    body.append(dsl_string(shown.as_str()).as_str());
                    body.append("\n");
                }
                body.append("    }\n");
            }
            k = k + 1;
        }
        f3 = f3 + 1;
    }
    body.append("  }\n");

    if diagrams.len() > 0 {
        body.append("  views {\n");
        let mut d: usize = 0;
        while d < diagrams.len()
            invariant
                d <= diagrams@.len(),
                idents@.len() == elements@.len(),
                tags@.len() == diagrams@.len(),
                keys@.len() == diagrams@.len(),
            decreases diagrams.len() - d,
        {
            let diagram = diagrams[d];
            let mut visible: Vec<String> = Vec::new();
            collect_diagram_element_ids(&diagram.children, &mut visible);
            let mut included = String::new();
            let mut v: usize = 0;
            while v < visible.len()
                invariant
                    v <= visible@.len(),
                    idents@.len() == elements@.len(),
                decreases visible.len() - v,
            {
                match lookup_element(&elements, visible[v].as_str()) {
                    Some(x) => {
                        if included.as_str().unicode_len() > 0 {
                            included.append(" ");
                        }
                        included.append(idents[x].as_str());
                    },
                    None => {},
                }
                v = v + 1;
            }
            if included.as_str().unicode_len() > 0 {
                body.append("    archimateView ");
                body.append(keys[d].as_str());
                body.append(" {\n      include ");
                body.append(included.as_str());
                body.append("\n      exclude relationship.tag!=");
                body.append(tags[d].as_str());
                body.append("\n      title ");
                body.append(dsl_string(diagram.name.as_str()).as_str());
                body.append("\n");
                match attribute(&diagram.attributes, "viewpoint") {
                    Some(viewpoint) => {
                        body.append("      viewpoint ");
                        body.append(viewpoint.as_str());
                        body.append("\n");
                    },
                    None => {},
                }
                let mut objects: Vec<&ArchiDiagramObject> = Vec::new();
                collect_objects(&diagram.children, &mut objects);
                let mut o: usize = 0;
                while o < objects.len()
                    invariant
                        o <= objects@.len(),
                        idents@.len() == elements@.len(),
                    decreases objects.len() - o,
                {
                    let object = objects[o];
                    if let Some(x) = lookup_element(&elements, object.element.as_str()) {
                        if let Some(b) = object.bounds {
                            body.append("      object ");
                            body.append(idents[x].as_str());
                            body.append(" {\n        x ");
                            body.append(i64_to_string(b.x).as_str());
                            body.append("\n        y ");
                            body.append(i64_to_string(b.y).as_str());
                            body.append("\n        width ");
                            body.append(i64_to_string(b.width).as_str());
                            body.append("\n        height ");
                            body.append(i64_to_string(b.height).as_str());
                            body.append("\n");
                            match attribute(&object.attributes, "fillColor") {
                                Some(color) => {
                                    body.append("        background ");
                                    body.append(color.as_str());
                                    body.append("\n");
                                },
                                None => {},
                            }
                            body.append("      }\n");
                        }
                    }
                    o = o + 1;
                }
                body.append("    }\n");
            }
            d = d + 1;
        }
        body.append("  }\n");
    }
    proof {
        reveal_strlit("workspace ");
        reveal_strlit(" ");
        reveal_strlit(" {\n  model {\n");
        reveal_strlit("}\n");
    }
    let r = cat3(head.as_str(), body.as_str(), "}\n");
    assert(head@ == projection_head(*model));
    assert(r@.subrange(projection_head(*model).len() as int, r@.len() - 2) =~= body@);
    r
}

} // verus!
