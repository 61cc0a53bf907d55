use vstd::prelude::*;
use vstd::view::View as _;
use crate::text::{cat, cat3, cat5, decimal, seq_eq, usize_to_string};
use crate::archi_native::{hash_text, lemma_sort_words_keeps, 
    ArchiNativeModel, ArchiDiagram, ArchiDiagramChild, ArchiDiagramObject, ArchiConnection, ArchiElement, ArchiFolder,
    ArchiRelationship, ArchiSidecar, views, sort_words, lines_sorted, diagrams_of, objects_in, derefs, last_object,
    lemma_sort_words_sorted, insert_sorted, find_object, collect_objects, debug_option, debug_option_exec,
    validate_connections, parse, hash, canonical_diff, connection_problems,
};
use crate::archi_export::{pair_lookup, pair_value, text_pairs};
use crate::archi_native::{model_from_xml, model_fields, model_ok, read_as, xml_diff};
use crate::xml::{tree_of, xml_outcome, XmlTree};
use crate::xml::{xml_wf, XmlElement};
use crate::xml::parse_xml;
use crate::projection::project_to_dsl;

verus! {

/// `acc` put before what `x` holds; an error is passed on.
pub open spec fn after<T>(acc: Seq<T>, x: Result<Seq<T>, Seq<char>>) -> Result<Seq<T>, Seq<char>> {
    match x {
        Ok(rest) => Ok(acc + rest),
        Err(e) => Err(e),
    }
}

proof fn lemma_after_after<T>(acc: Seq<T>, c: Seq<T>, x: Result<Seq<T>, Seq<char>>)
    ensures
        after(acc, after(c, x)) == after(acc + c, x),
{
    match x {
        Ok(rest) => {
            assert(acc + (c + rest) =~= (acc + c) + rest);
        },
        Err(_) => {},
    }
}

/// `ws` joined with commas.
pub open spec fn join_commas(ws: Seq<Seq<char>>) -> Seq<char>
    decreases ws.len(),
{
    if ws.len() == 0 {
        Seq::empty()
    } else if ws.len() == 1 {
        ws[0]
    } else {
        join_commas(ws.drop_last()) + ","@ + ws.last()
    }
}

/// The refusal of a diagram object whose element the model lacks.
pub open spec fn unknown_element(o: ArchiDiagramObject) -> Seq<char> {
    "diagram object "@ + o.id@ + " has unknown element"@
}

/// The element values of the objects among `children` and below them, in document order; an
/// object of an unknown element is refused.
pub open spec fn members_of(children: Seq<ArchiDiagramChild>, elements: Seq<(Seq<char>, Seq<char>)>) -> Result<Seq<Seq<char>>, Seq<char>>
    decreases children, 0int,
{
    if children.len() == 0 {
        Ok(Seq::empty())
    } else {
        match member_values(children[0], elements) {
            Err(e) => Err(e),
            Ok(v) => after(v, members_of(children.drop_first(), elements)),
        }
    }
}

/// The element values of the objects in `c`: its own, then those below it.
pub open spec fn member_values(c: ArchiDiagramChild, elements: Seq<(Seq<char>, Seq<char>)>) -> Result<Seq<Seq<char>>, Seq<char>>
    decreases c, 1int,
{
    match c {
        ArchiDiagramChild::Object(o) => match pair_value(elements, o.element@) {
            None => Err(unknown_element(o)),
            Some(v) => after(seq![v], members_of(o.children@, elements)),
        },
        ArchiDiagramChild::Group(g) => members_of(g.children@, elements),
    }
}

/// Adds the element values of the objects among `children` and below them to `members`.
fn collect_group_members(children: &Vec<ArchiDiagramChild>, elements: &Vec<(String, String)>, members: &mut Vec<String>) -> (r: Result<(), String>)
    ensures
        match members_of(children@, text_pairs(elements@)) {
            Ok(ms) => r is Ok && views(final(members)@) == views(old(members)@) + ms,
            Err(e) => r matches Err(m) && m@ == e,
        },
    decreases children@,
{
    let ghost els = text_pairs(elements@);
    let ghost start = views(members@);
    let ghost mut acc: Seq<Seq<char>> = Seq::empty();
    let mut i: usize = 0;
    assert(children@.skip(0) =~= children@);
    assert(start + acc =~= start);
    assert(after(acc, members_of(children@, els)) == members_of(children@, els)) by {
        match members_of(children@, els) {
            Ok(rest) => { assert(acc + rest =~= rest); },
            Err(_) => {},
        }
    }
    while i < children.len()
        invariant
            i <= children@.len(),
            els == text_pairs(elements@),
            start == views(old(members)@),
            views(members@) == start + acc,
            members_of(children@, els) == after(acc, members_of(children@.skip(i as int), els)),
        decreases children.len() - i,
    {
        assert(children@.skip(i as int)[0] == children@[i as int]);
        assert(children@.skip(i as int).drop_first() =~= children@.skip(i + 1));
        let ghost rest = members_of(children@.skip(i + 1), els);
        match &children[i] {
            ArchiDiagramChild::Object(o) => {
                match pair_lookup(elements, o.element.as_str()) {
                    Some(v) => {
                        let ghost before = views(members@);
                        members.push(v);
                        assert(views(members@) =~= before + seq![v@]);
                        let sub = collect_group_members(&o.children, elements, members);
                        match sub {
                            Ok(()) => {
                                proof {
                                    let below = members_of(o.children@, els)->Ok_0;
                                    let c = seq![v@] + below;
                                    assert(member_values(children@[i as int], els) == Ok::<Seq<Seq<char>>, Seq<char>>(c));
                                    lemma_after_after(acc, c, rest);
                                    assert(views(members@) =~= start + (acc + c));
                                    acc = acc + c;
                                }
                            },
                            Err(m) => {
                                return Err(m);
                            },
                        }
                    },
                    None => {
                        return Err(cat3("diagram object ", o.id.as_str(), " has unknown element"));
                    },
                }
            },
            ArchiDiagramChild::Group(g) => {
                let sub = collect_group_members(&g.children, elements, members);
                match sub {
                    Ok(()) => {
                        proof {
                            let c = members_of(g.children@, els)->Ok_0;
                            lemma_after_after(acc, c, rest);
                            assert(views(members@) =~= start + (acc + c));
                            acc = acc + c;
                        }
                    },
                    Err(m) => {
                        return Err(m);
                    },
                }
            },
        }
        i = i + 1;
    }
    assert(children@.skip(i as int) =~= Seq::<ArchiDiagramChild>::empty());
    assert(acc + Seq::<Seq<char>>::empty() =~= acc);
    Ok(())
}

/// The element value shown by the object `id` among `objs`.
pub open spec fn object_value_of(objs: Seq<ArchiDiagramObject>, elements: Seq<(Seq<char>, Seq<char>)>, id: Seq<char>) -> Option<Seq<char>> {
    match last_object(objs, id) {
        Some(o) => pair_value(elements, o.element@),
        None => None,
    }
}

/// The signature line of a connection on diagram `d`, by the values of its ends and of its
/// relationship; an unknown end or relationship is refused.
pub open spec fn connection_line(d: Seq<char>, c: ArchiConnection, objs: Seq<ArchiDiagramObject>, elements: Seq<(Seq<char>, Seq<char>)>, rels: Seq<(Seq<char>, Seq<char>)>) -> Result<Seq<Seq<char>>, Seq<char>> {
    match object_value_of(objs, elements, c.source@) {
        None => Err("connection "@ + c.id@ + " has unknown source"@),
        Some(s) => match object_value_of(objs, elements, c.target@) {
            None => Err("connection "@ + c.id@ + " has unknown target"@),
            Some(t) => match pair_value(rels, c.relationship@) {
                None => Err("connection "@ + c.id@ + " has unknown relationship"@),
                Some(r) => Ok(seq!["view|"@ + d + "|connection|"@ + s + "|"@ + t + "|"@ + r]),
            },
        },
    }
}

/// The signature lines of a list of connections, in order; the first refusal stops it.
pub open spec fn connection_lines(d: Seq<char>, cs: Seq<ArchiConnection>, objs: Seq<ArchiDiagramObject>, elements: Seq<(Seq<char>, Seq<char>)>, rels: Seq<(Seq<char>, Seq<char>)>) -> Result<Seq<Seq<char>>, Seq<char>>
    decreases cs.len(),
{
    if cs.len() == 0 {
        Ok(Seq::empty())
    } else {
        match connection_line(d, cs[0], objs, elements, rels) {
            Err(e) => Err(e),
            Ok(l) => after(l, connection_lines(d, cs.drop_first(), objs, elements, rels)),
        }
    }
}

/// The signature lines of the children of a diagram, in document order.
pub open spec fn view_children_lines(d: Seq<char>, children: Seq<ArchiDiagramChild>, objs: Seq<ArchiDiagramObject>, elements: Seq<(Seq<char>, Seq<char>)>, rels: Seq<(Seq<char>, Seq<char>)>) -> Result<Seq<Seq<char>>, Seq<char>>
    decreases children, 0int,
{
    if children.len() == 0 {
        Ok(Seq::empty())
    } else {
        match view_child_lines(d, children[0], objs, elements, rels) {
            Err(e) => Err(e),
            Ok(l) => after(l, view_children_lines(d, children.drop_first(), objs, elements, rels)),
        }
    }
}

/// The signature lines of one child of a diagram: an object by its element's value, then its
/// connections and what is below it; a group by its name and its members' sorted values, then
/// what is below it.
pub open spec fn view_child_lines(d: Seq<char>, c: ArchiDiagramChild, objs: Seq<ArchiDiagramObject>, elements: Seq<(Seq<char>, Seq<char>)>, rels: Seq<(Seq<char>, Seq<char>)>) -> Result<Seq<Seq<char>>, Seq<char>>
    decreases c, 1int,
{
    match c {
        ArchiDiagramChild::Object(o) => match pair_value(elements, o.element@) {
            None => Err(unknown_element(o)),
            Some(v) => match connection_lines(d, o.connections@, objs, elements, rels) {
                Err(e) => Err(e),
                Ok(cl) => after(seq!["view|"@ + d + "|object|"@ + v] + cl, view_children_lines(d, o.children@, objs, elements, rels)),
            },
        },
        ArchiDiagramChild::Group(g) => match members_of(g.children@, elements) {
            Err(e) => Err(e),
            Ok(ms) => after(seq!["view|"@ + d + "|group|"@ + g.name@ + "|"@ + join_commas(sort_words(ms))],
                view_children_lines(d, g.children@, objs, elements, rels)),
        },
    }
}

/// The element value shown by the object `id` of the diagram.
fn object_value(objects: &Vec<&ArchiDiagramObject>, elements: &Vec<(String, String)>, id: &str) -> (r: Option<String>)
    ensures
        match r {
            Some(v) => object_value_of(derefs(objects@), text_pairs(elements@), id@) == Some(v@),
            None => object_value_of(derefs(objects@), text_pairs(elements@), id@) is None,
        },
{
    match find_object(objects, id) {
        Some(o) => pair_lookup(elements, o.element.as_str()),
        None => None,
    }
}

/// The signature lines of a list of connections.
fn connections_signature(
    diagram: &str,
    connections: &Vec<ArchiConnection>,
    objects: &Vec<&ArchiDiagramObject>,
    elements: &Vec<(String, String)>,
    relationships: &Vec<(String, String)>,
) -> (r: Result<Vec<String>, String>)
    ensures
        match connection_lines(diagram@, connections@, derefs(objects@), text_pairs(elements@), text_pairs(relationships@)) {
            Ok(ls) => r matches Ok(v) && views(v@) == ls,
            Err(e) => r matches Err(m) && m@ == e,
        },
{
    let ghost objs = derefs(objects@);
    let ghost els = text_pairs(elements@);
    let ghost rls = text_pairs(relationships@);
    let ghost cs = connections@;
    let mut out: Vec<String> = Vec::new();
    let mut k: usize = 0;
    assert(cs.skip(0) =~= cs);
    assert(views(out@) =~= Seq::<Seq<char>>::empty());
    assert(after(views(out@), connection_lines(diagram@, cs, objs, els, rls)) == connection_lines(diagram@, cs, objs, els, rls)) by {
        match connection_lines(diagram@, cs, objs, els, rls) {
            Ok(rest) => { assert(views(out@) + rest =~= rest); },
            Err(_) => {},
        }
    }
    while k < connections.len()
        invariant
            k <= cs.len(),
            cs == connections@,
            objs == derefs(objects@),
            els == text_pairs(elements@),
            rls == text_pairs(relationships@),
            connection_lines(diagram@, cs, objs, els, rls) == after(views(out@), connection_lines(diagram@, cs.skip(k as int), objs, els, rls)),
        decreases connections.len() - k,
    {
        assert(cs.skip(k as int)[0] == cs[k as int]);
        assert(cs.skip(k as int).drop_first() =~= cs.skip(k + 1));
        let c = &connections[k];
        let source = match object_value(objects, elements, c.source.as_str()) {
            Some(v) => v,
            None => {
                return Err(cat3("connection ", c.id.as_str(), " has unknown source"));
            },
        };
        let target = match object_value(objects, elements, c.target.as_str()) {
            Some(v) => v,
            None => {
                return Err(cat3("connection ", c.id.as_str(), " has unknown target"));
            },
        };
        let relationship = match pair_lookup(relationships, c.relationship.as_str()) {
            Some(v) => v,
            None => {
                return Err(cat3("connection ", c.id.as_str(), " has unknown relationship"));
            },
        };
        let head = cat5("view|", diagram, "|connection|", source.as_str(), "|");
        proof { reveal_strlit(""); }
        let line = cat5(head.as_str(), target.as_str(), "|", relationship.as_str(), "");
        let ghost before = views(out@);
        out.push(line);
        proof {
            let l = seq!["view|"@ + diagram@ + "|connection|"@ + source@ + "|"@ + target@ + "|"@ + relationship@];
            assert(line@ =~= l[0]);
            assert(views(out@) =~= before + l);
            lemma_after_after(before, l, connection_lines(diagram@, cs.skip(k + 1), objs, els, rls));
        }
        k = k + 1;
    }
    assert(cs.skip(k as int) =~= Seq::<ArchiConnection>::empty());
    assert(views(out@) + Seq::<Seq<char>>::empty() =~= views(out@));
    Ok(out)
}

/// Joins `words` with commas.
fn join_with_commas(words: &Vec<String>) -> (r: String)
    ensures
        r@ == join_commas(views(words@)),
{
    let mut joined = String::new();
    let mut m: usize = 0;
    assert(views(words@).take(0) =~= Seq::<Seq<char>>::empty());
    while m < words.len()
        invariant
            m <= words@.len(),
            joined@ == join_commas(views(words@).take(m as int)),
        decreases words.len() - m,
    {
        assert(views(words@).take(m + 1).drop_last() =~= views(words@).take(m as int));
        assert(views(words@).take(m + 1).last() == words@[m as int]@);
        if m > 0 {
            joined.append(",");
        } else {
            assert(views(words@).take(1) =~= seq![words@[0]@]);
        }
        joined.append(words[m].as_str());
        m = m + 1;
    }
    assert(views(words@).take(words@.len() as int) =~= views(words@));
    joined
}

/// `words` sorted.
fn sorted_words(words: &Vec<String>) -> (r: Vec<String>)
    ensures
        views(r@) == sort_words(views(words@)),
{
    let mut sorted: Vec<String> = Vec::new();
    let mut i: usize = 0;
    assert(views(words@).take(0) =~= Seq::<Seq<char>>::empty());
    assert(views(sorted@) =~= Seq::<Seq<char>>::empty());
    while i < words.len()
        invariant
            i <= words@.len(),
            views(sorted@) == sort_words(views(words@).take(i as int)),
        decreases words.len() - i,
    {
        assert(views(words@).take(i + 1).drop_last() =~= views(words@).take(i as int));
        insert_sorted(&mut sorted, words[i].clone());
        i = i + 1;
    }
    assert(views(words@).take(words@.len() as int) =~= views(words@));
    sorted
}

/// Adds the signature lines of a diagram's children to `signature`: objects, connections and
/// groups by the values of what they show.
fn collect_view_children(
    diagram: &str,
    children: &Vec<ArchiDiagramChild>,
    objects: &Vec<&ArchiDiagramObject>,
    elements: &Vec<(String, String)>,
    relationships: &Vec<(String, String)>,
    signature: &mut Vec<String>,
) -> (r: Result<(), String>)
    ensures
        match view_children_lines(diagram@, children@, derefs(objects@), text_pairs(elements@), text_pairs(relationships@)) {
            Ok(ls) => r is Ok && views(final(signature)@) == views(old(signature)@) + ls,
            Err(e) => r matches Err(m) && m@ == e,
        },
    decreases children@,
{
    let ghost objs = derefs(objects@);
    let ghost els = text_pairs(elements@);
    let ghost rls = text_pairs(relationships@);
    let ghost start = views(signature@);
    let ghost mut acc: Seq<Seq<char>> = Seq::empty();
    let ghost full = view_children_lines(diagram@, children@, objs, els, rls);
    let mut i: usize = 0;
    assert(children@.skip(0) =~= children@);
    assert(start + acc =~= start);
    assert(after(acc, full) == full) by {
        match full {
            Ok(rest) => { assert(acc + rest =~= rest); },
            Err(_) => {},
        }
    }
    while i < children.len()
        invariant
            i <= children@.len(),
            objs == derefs(objects@),
            els == text_pairs(elements@),
            rls == text_pairs(relationships@),
            start == views(old(signature)@),
            full == view_children_lines(diagram@, children@, objs, els, rls),
            views(signature@) == start + acc,
            full == after(acc, view_children_lines(diagram@, children@.skip(i as int), objs, els, rls)),
        decreases children.len() - i,
    {
        assert(children@.skip(i as int)[0] == children@[i as int]);
        assert(children@.skip(i as int).drop_first() =~= children@.skip(i + 1));
        let ghost rest = view_children_lines(diagram@, children@.skip(i + 1), objs, els, rls);
        match &children[i] {
            ArchiDiagramChild::Object(o) => {
                let element = match pair_lookup(elements, o.element.as_str()) {
                    Some(v) => v,
                    None => {
                        return Err(cat3("diagram object ", o.id.as_str(), " has unknown element"));
                    },
                };
                let lines = match connections_signature(diagram, &o.connections, objects, elements, relationships) {
                    Ok(lines) => lines,
                    Err(m) => {
                        return Err(m);
                    },
                };
                let head = cat3("view|", diagram, "|object|");
                let ghost before = views(signature@);
                signature.push(cat(head.as_str(), element.as_str()));
                let mut k: usize = 0;
                while k < lines.len()
                    invariant
                        k <= lines@.len(),
                        views(signature@) == before + seq!["view|"@ + diagram@ + "|object|"@ + element@] + views(lines@).take(k as int),
                    decreases lines.len() - k,
                {
                    let ghost now = views(signature@);
                    signature.push(lines[k].clone());
                    assert(views(lines@).take(k + 1) =~= views(lines@).take(k as int).push(lines@[k as int]@));
                    assert(views(signature@) =~= now.push(lines@[k as int]@));
                    k = k + 1;
                }
                assert(views(lines@).take(lines@.len() as int) =~= views(lines@));
                let ghost c0 = seq!["view|"@ + diagram@ + "|object|"@ + element@] + views(lines@);
                let sub = collect_view_children(diagram, &o.children, objects, elements, relationships, signature);
                match sub {
                    Ok(()) => {
                        proof {
                            let below = view_children_lines(diagram@, o.children@, objs, els, rls)->Ok_0;
                            lemma_after_after(c0, below, Ok::<Seq<Seq<char>>, Seq<char>>(Seq::empty()));
                            let c = c0 + below;
                            assert(view_child_lines(diagram@, children@[i as int], objs, els, rls) == Ok::<Seq<Seq<char>>, Seq<char>>(c));
                            lemma_after_after(acc, c, rest);
                            assert(views(signature@) =~= start + (acc + c));
                            acc = acc + c;
                        }
                    },
                    Err(m) => {
                        return Err(m);
                    },
                }
            },
            ArchiDiagramChild::Group(g) => {
                let mut members: Vec<String> = Vec::new();
                assert(views(members@) =~= Seq::<Seq<char>>::empty());
                match collect_group_members(&g.children, elements, &mut members) {
                    Ok(()) => {},
                    Err(m) => {
                        return Err(m);
                    },
                }
                assert(views(members@) =~= members_of(g.children@, els)->Ok_0);
                let sorted = sorted_words(&members);
                let joined = join_with_commas(&sorted);
                let head = cat5("view|", diagram, "|group|", g.name.as_str(), "|");
                let ghost before = views(signature@);
                signature.push(cat(head.as_str(), joined.as_str()));
                let ghost c0 = seq!["view|"@ + diagram@ + "|group|"@ + g.name@ + "|"@ + join_commas(sort_words(views(members@)))];
                assert(views(signature@) =~= before + c0);
                let sub = collect_view_children(diagram, &g.children, objects, elements, relationships, signature);
                match sub {
                    Ok(()) => {
                        proof {
                            let below = view_children_lines(diagram@, g.children@, objs, els, rls)->Ok_0;
                            let c = c0 + below;
                            assert(view_child_lines(diagram@, children@[i as int], objs, els, rls) == Ok::<Seq<Seq<char>>, Seq<char>>(c));
                            lemma_after_after(acc, c, rest);
                            assert(views(signature@) =~= start + (acc + c));
                            acc = acc + c;
                        }
                    },
                    Err(m) => {
                        return Err(m);
                    },
                }
            },
        }
        i = i + 1;
    }
    assert(children@.skip(i as int) =~= Seq::<ArchiDiagramChild>::empty());
    assert(acc + Seq::<Seq<char>>::empty() =~= acc);
    Ok(())
}

/// The value an element is signed by: its type, name and description.
pub open spec fn element_value(e: ArchiElement) -> Seq<char> {
    e.native_type@ + "|"@ + e.name@ + "|"@ + match e.description { Some(d) => d@, None => Seq::empty() }
}

/// The identifier and value of each element of the folders, in order.
pub open spec fn element_pairs(folders: Seq<ArchiFolder>) -> Seq<(Seq<char>, Seq<char>)>
    decreases folders.len(),
{
    if folders.len() == 0 {
        Seq::empty()
    } else {
        element_pairs(folders.drop_last())
            + Seq::new(folders.last().elements@.len(), |k: int| (folders.last().elements@[k].id@, element_value(folders.last().elements@[k])))
    }
}

/// The folder lines of the signature, each followed by its element lines.
pub open spec fn folder_lines(folders: Seq<ArchiFolder>) -> Seq<Seq<char>>
    decreases folders.len(),
{
    if folders.len() == 0 {
        Seq::empty()
    } else {
        let f = folders.last();
        folder_lines(folders.drop_last()) + seq!["folder|"@ + f.folder_type@ + "|"@ + f.name@]
            + Seq::new(f.elements@.len(), |k: int| "element|"@ + element_value(f.elements@[k]))
    }
}

/// The relationships of all folders, in order.
pub open spec fn relationships_of(folders: Seq<ArchiFolder>) -> Seq<ArchiRelationship>
    decreases folders.len(),
{
    if folders.len() == 0 {
        Seq::empty()
    } else {
        folders[0].relationships@ + relationships_of(folders.drop_first())
    }
}

/// The identifier and value of each relationship, by the values of its ends; an unknown end
/// is refused.
pub open spec fn relationship_pairs(rels: Seq<ArchiRelationship>, elements: Seq<(Seq<char>, Seq<char>)>) -> Result<Seq<(Seq<char>, Seq<char>)>, Seq<char>>
    decreases rels.len(),
{
    if rels.len() == 0 {
        Ok(Seq::empty())
    } else {
        let r = rels[0];
        match pair_value(elements, r.source@) {
            None => Err("relationship "@ + r.id@ + " has unknown source"@),
            Some(s) => match pair_value(elements, r.target@) {
                None => Err("relationship "@ + r.id@ + " has unknown target"@),
                Some(t) => after(seq![(r.id@, r.native_type@ + "|"@ + r.name@ + "|"@ + s + "|"@ + t)],
                    relationship_pairs(rels.drop_first(), elements)),
            },
        }
    }
}

/// The signature lines of the relationships.
pub open spec fn relationship_lines(pairs: Seq<(Seq<char>, Seq<char>)>) -> Seq<Seq<char>> {
    Seq::new(pairs.len(), |k: int| "relationship|"@ + pairs[k].1)
}

/// The signature lines of a list of diagrams: each its name, then its children's lines.
pub open spec fn diagrams_lines(ds: Seq<ArchiDiagram>, elements: Seq<(Seq<char>, Seq<char>)>, rels: Seq<(Seq<char>, Seq<char>)>) -> Result<Seq<Seq<char>>, Seq<char>>
    decreases ds.len(),
{
    if ds.len() == 0 {
        Ok(Seq::empty())
    } else {
        let d = ds[0];
        match view_children_lines(d.name@, d.children@, objects_in(d.children@), elements, rels) {
            Err(e) => Err(e),
            Ok(l) => after(seq!["view|"@ + d.name@] + l, diagrams_lines(ds.drop_first(), elements, rels)),
        }
    }
}

/// The signature lines of a model before sorting: name, purpose, folders with their elements,
/// relationships, then diagrams; a reference to anything unknown is refused.
pub open spec fn signature_lines(m: ArchiNativeModel) -> Result<Seq<Seq<char>>, Seq<char>> {
    let elements = element_pairs(m.folders@);
    let head = seq!["model|"@ + m.name@, "purpose|"@ + match m.purpose { Some(p) => p@, None => Seq::empty() }]
        + folder_lines(m.folders@);
    match relationship_pairs(relationships_of(m.folders@), elements) {
        Err(e) => Err(e),
        Ok(rels) => after(head + relationship_lines(rels), diagrams_lines(diagrams_of(m.folders@), elements, rels)),
    }
}

/// The semantic signature of a model: its signature lines, sorted.
pub open spec fn signature_of(m: ArchiNativeModel) -> Result<Seq<Seq<char>>, Seq<char>> {
    match signature_lines(m) {
        Ok(lines) => Ok(sort_words(lines)),
        Err(e) => Err(e),
    }
}

/// The diagrams of `folders` from the first: the first folder's, then the rest.
proof fn lemma_diagrams_of_first(folders: Seq<ArchiFolder>)
    requires
        folders.len() > 0,
    ensures
        diagrams_of(folders) == folders[0].diagrams@ + diagrams_of(folders.drop_first()),
    decreases folders.len(),
{
    if folders.len() == 1 {
        assert(folders.drop_last() =~= Seq::<ArchiFolder>::empty());
        assert(folders.drop_first() =~= Seq::<ArchiFolder>::empty());
        assert(folders.last() == folders[0]);
        assert(diagrams_of(folders.drop_last()) =~= Seq::<ArchiDiagram>::empty());
        assert(diagrams_of(folders) =~= folders[0].diagrams@);
        assert(folders[0].diagrams@ + Seq::<ArchiDiagram>::empty() =~= folders[0].diagrams@);
    } else {
        lemma_diagrams_of_first(folders.drop_last());
        assert(folders.drop_last().drop_first() =~= folders.drop_first().drop_last());
        assert(folders.drop_last()[0] == folders[0]);
        assert(folders.drop_first().last() == folders.last());
        assert(diagrams_of(folders) =~= folders[0].diagrams@ + diagrams_of(folders.drop_first()));
    }
}

/// Adds the folder and element lines and the element pairs of the folders.
fn sign_folders(model: &ArchiNativeModel, lines: &mut Vec<String>, elements: &mut Vec<(String, String)>)
    requires
        old(elements)@.len() == 0,
    ensures
        views(final(lines)@) == views(old(lines)@) + folder_lines(model.folders@),
        text_pairs(final(elements)@) == element_pairs(model.folders@),
{
    let ghost start = views(lines@);
    let folders = &model.folders;
    let mut f: usize = 0;
    assert(folders@.take(0) =~= Seq::<ArchiFolder>::empty());
    assert(text_pairs(elements@) =~= Seq::<(Seq<char>, Seq<char>)>::empty());
    assert(start + Seq::<Seq<char>>::empty() =~= start);
    while f < folders.len()
        invariant
            f <= folders@.len(),
            start == views(old(lines)@),
            views(lines@) == start + folder_lines(folders@.take(f as int)),
            text_pairs(elements@) == element_pairs(folders@.take(f as int)),
        decreases folders.len() - f,
    {
        let folder = &folders[f];
        assert(folders@.take(f + 1).drop_last() =~= folders@.take(f as int));
        assert(folders@.take(f + 1).last() == *folder);
        let ghost lines0 = views(lines@) + seq!["folder|"@ + folder.folder_type@ + "|"@ + folder.name@];
        let ghost pairs0 = text_pairs(elements@);
        proof { reveal_strlit(""); }
        let line = cat5("folder|", folder.folder_type.as_str(), "|", folder.name.as_str(), "");
        assert(line@ =~= "folder|"@ + folder.folder_type@ + "|"@ + folder.name@);
        lines.push(line);
        assert(views(lines@) =~= lines0);
        let mut k: usize = 0;
        while k < folder.elements.len()
            invariant
                k <= folder.elements@.len(),
                views(lines@) == lines0 + Seq::new(k as nat, |j: int| "element|"@ + element_value(folder.elements@[j])),
                text_pairs(elements@) == pairs0 + Seq::new(k as nat, |j: int| (folder.elements@[j].id@, element_value(folder.elements@[j]))),
            decreases folder.elements.len() - k,
        {
            let e = &folder.elements[k];
            let description = match &e.description {
                Some(d) => d.clone(),
                None => String::new(),
            };
            let value = cat5(e.native_type.as_str(), "|", e.name.as_str(), "|", description.as_str());
            assert(value@ =~= element_value(*e));
            let ghost l_before = views(lines@);
            let ghost p_before = text_pairs(elements@);
            assert(*e == folder.elements@[k as int]);
            elements.push((e.id.clone(), value.clone()));
            assert(text_pairs(elements@) =~= p_before.push((e.id@, value@)));
            let line = cat("element|", value.as_str());
            lines.push(line);
            assert(views(lines@) =~= l_before.push("element|"@ + value@));
            assert(views(lines@) =~= lines0 + Seq::new((k + 1) as nat, |j: int| "element|"@ + element_value(folder.elements@[j])));
            assert(text_pairs(elements@) =~= pairs0 + Seq::new((k + 1) as nat, |j: int| (folder.elements@[j].id@, element_value(folder.elements@[j]))));
            k = k + 1;
        }
        assert(views(lines@) =~= start + folder_lines(folders@.take(f + 1)));
        assert(text_pairs(elements@) =~= element_pairs(folders@.take(f + 1)));
        f = f + 1;
    }
    assert(folders@.take(folders@.len() as int) =~= folders@);
}

/// Adds the relationship lines and pairs of the folders, by the values of their ends.
fn sign_relationships(model: &ArchiNativeModel, elements: &Vec<(String, String)>, lines: &mut Vec<String>, relationships: &mut Vec<(String, String)>) -> (r: Result<(), String>)
    requires
        old(relationships)@.len() == 0,
    ensures
        match relationship_pairs(relationships_of(model.folders@), text_pairs(elements@)) {
            Ok(ps) => r is Ok && text_pairs(final(relationships)@) == ps
                && views(final(lines)@) == views(old(lines)@) + relationship_lines(ps),
            Err(e) => r matches Err(m) && m@ == e,
        },
{
    let ghost els = text_pairs(elements@);
    let ghost start = views(lines@);
    let ghost full = relationship_pairs(relationships_of(model.folders@), els);
    let folders = &model.folders;
    let mut f: usize = 0;
    assert(folders@.skip(0) =~= folders@);
    assert(text_pairs(relationships@) =~= Seq::<(Seq<char>, Seq<char>)>::empty());
    assert(relationship_lines(text_pairs(relationships@)) =~= Seq::<Seq<char>>::empty());
    assert(start + Seq::<Seq<char>>::empty() =~= start);
    assert(after(text_pairs(relationships@), full) == full) by {
        match full {
            Ok(rest) => { assert(text_pairs(relationships@) + rest =~= rest); },
            Err(_) => {},
        }
    }
    while f < folders.len()
        invariant
            f <= folders@.len(),
            els == text_pairs(elements@),
            start == views(old(lines)@),
            full == relationship_pairs(relationships_of(model.folders@), els),
            views(lines@) == start + relationship_lines(text_pairs(relationships@)),
            full == after(text_pairs(relationships@), relationship_pairs(relationships_of(folders@.skip(f as int)), els)),
        decreases folders.len() - f,
    {
        let folder = &folders[f];
        assert(folders@.skip(f as int)[0] == *folder);
        assert(folders@.skip(f as int).drop_first() =~= folders@.skip(f + 1));
        let ghost tail = relationships_of(folders@.skip(f + 1));
        assert(relationships_of(folders@.skip(f as int)) == folder.relationships@ + tail);
        assert(folder.relationships@.skip(0) + tail =~= folder.relationships@ + tail);
        let mut k: usize = 0;
        while k < folder.relationships.len()
            invariant
                k <= folder.relationships@.len(),
                els == text_pairs(elements@),
                start == views(old(lines)@),
                views(lines@) == start + relationship_lines(text_pairs(relationships@)),
                full == relationship_pairs(relationships_of(model.folders@), els),
                full == after(text_pairs(relationships@), relationship_pairs(folder.relationships@.skip(k as int) + tail, els)),
            decreases folder.relationships.len() - k,
        {
            let rel = &folder.relationships[k];
            let ghost rest = folder.relationships@.skip(k as int) + tail;
            assert(rest[0] == *rel);
            assert(rest.drop_first() =~= folder.relationships@.skip(k + 1) + tail);
            let source = match pair_lookup(elements, rel.source.as_str()) {
                Some(v) => v,
                None => {
                    let m = cat3("relationship ", rel.id.as_str(), " has unknown source");
                    assert(relationship_pairs(rest, els) == Err::<Seq<(Seq<char>, Seq<char>)>, Seq<char>>(m@));
                    return Err(m);
                },
            };
            let target = match pair_lookup(elements, rel.target.as_str()) {
                Some(v) => v,
                None => {
                    let m = cat3("relationship ", rel.id.as_str(), " has unknown target");
                    assert(relationship_pairs(rest, els) == Err::<Seq<(Seq<char>, Seq<char>)>, Seq<char>>(m@));
                    return Err(m);
                },
            };
            let head = cat5(rel.native_type.as_str(), "|", rel.name.as_str(), "|", source.as_str());
            let value = cat3(head.as_str(), "|", target.as_str());
            let ghost pair = (rel.id@, rel.native_type@ + "|"@ + rel.name@ + "|"@ + source@ + "|"@ + target@);
            assert(value@ =~= pair.1);
            let ghost p_before = text_pairs(relationships@);
            let ghost l_before = views(lines@);
            relationships.push((rel.id.clone(), value.clone()));
            let line = cat("relationship|", value.as_str());
            lines.push(line);
            assert(views(lines@) =~= l_before.push("relationship|"@ + pair.1));
            proof {
                assert(text_pairs(relationships@) =~= p_before + seq![pair]);
                assert(relationship_lines(text_pairs(relationships@)) =~= relationship_lines(p_before) + seq!["relationship|"@ + pair.1]);
                assert(views(lines@) =~= start + relationship_lines(text_pairs(relationships@)));
                lemma_after_after(p_before, seq![pair], relationship_pairs(folder.relationships@.skip(k + 1) + tail, els));
            }
            k = k + 1;
        }
        assert(folder.relationships@.skip(k as int) + tail =~= tail);
        f = f + 1;
    }
    assert(folders@.skip(f as int) =~= Seq::<ArchiFolder>::empty());
    assert(text_pairs(relationships@) + Seq::<(Seq<char>, Seq<char>)>::empty() =~= text_pairs(relationships@));
    Ok(())
}

/// Adds the lines of the diagrams of the folders.
fn sign_diagrams(model: &ArchiNativeModel, elements: &Vec<(String, String)>, relationships: &Vec<(String, String)>, lines: &mut Vec<String>) -> (r: Result<(), String>)
    ensures
        match diagrams_lines(diagrams_of(model.folders@), text_pairs(elements@), text_pairs(relationships@)) {
            Ok(ls) => r is Ok && views(final(lines)@) == views(old(lines)@) + ls,
            Err(e) => r matches Err(m) && m@ == e,
        },
{
    let ghost els = text_pairs(elements@);
    let ghost rls = text_pairs(relationships@);
    let ghost start = views(lines@);
    let ghost full = diagrams_lines(diagrams_of(model.folders@), els, rls);
    let ghost mut acc: Seq<Seq<char>> = Seq::empty();
    let folders = &model.folders;
    let mut f: usize = 0;
    assert(folders@.skip(0) =~= folders@);
    assert(start + acc =~= start);
    assert(after(acc, full) == full) by {
        match full {
            Ok(rest) => { assert(acc + rest =~= rest); },
            Err(_) => {},
        }
    }
    while f < folders.len()
        invariant
            f <= folders@.len(),
            els == text_pairs(elements@),
            rls == text_pairs(relationships@),
            start == views(old(lines)@),
            full == diagrams_lines(diagrams_of(model.folders@), els, rls),
            views(lines@) == start + acc,
            full == after(acc, diagrams_lines(diagrams_of(folders@.skip(f as int)), els, rls)),
        decreases folders.len() - f,
    {
        let folder = &folders[f];
        assert(folders@.skip(f as int)[0] == *folder);
        assert(folders@.skip(f as int).drop_first() =~= folders@.skip(f + 1));
        proof { lemma_diagrams_of_first(folders@.skip(f as int)); }
        let ghost tail = diagrams_of(folders@.skip(f + 1));
        assert(folder.diagrams@.skip(0) + tail =~= folder.diagrams@ + tail);
        let mut k: usize = 0;
        while k < folder.diagrams.len()
            invariant
                k <= folder.diagrams@.len(),
                els == text_pairs(elements@),
                rls == text_pairs(relationships@),
                start == views(old(lines)@),
                views(lines@) == start + acc,
                full == diagrams_lines(diagrams_of(model.folders@), els, rls),
                full == after(acc, diagrams_lines(folder.diagrams@.skip(k as int) + tail, els, rls)),
            decreases folder.diagrams.len() - k,
        {
            let d = &folder.diagrams[k];
            let ghost rest = folder.diagrams@.skip(k as int) + tail;
            assert(rest[0] == *d);
            assert(rest.drop_first() =~= folder.diagrams@.skip(k + 1) + tail);
            let ghost before = views(lines@);
            let line = cat("view|", d.name.as_str());
            lines.push(line);
            assert(views(lines@) =~= before.push("view|"@ + d.name@));
            let mut objects: Vec<&ArchiDiagramObject> = Vec::new();
            collect_objects(&d.children, &mut objects);
            assert(derefs(objects@) =~= objects_in(d.children@)) by {
                assert(derefs(Seq::<&ArchiDiagramObject>::empty()) =~= Seq::<ArchiDiagramObject>::empty());
            }
            let sub = collect_view_children(d.name.as_str(), &d.children, &objects, elements, relationships, lines);
            match sub {
                Ok(()) => {
                    proof {
                        let l = view_children_lines(d.name@, d.children@, objects_in(d.children@), els, rls)->Ok_0;
                        let c = seq!["view|"@ + d.name@] + l;
                        assert(views(lines@) == before.push("view|"@ + d.name@) + l);
                        assert(views(lines@) =~= start + (acc + c));
                        lemma_after_after(acc, c, diagrams_lines(folder.diagrams@.skip(k + 1) + tail, els, rls));
                        acc = acc + c;
                    }
                },
                Err(m) => {
                    assert(diagrams_lines(rest, els, rls) == Err::<Seq<Seq<char>>, Seq<char>>(m@));
                    return Err(m);
                },
            }
            k = k + 1;
        }
        assert(folder.diagrams@.skip(k as int) + tail =~= tail);
        f = f + 1;
    }
    assert(folders@.skip(f as int) =~= Seq::<ArchiFolder>::empty());
    assert(acc + Seq::<Seq<char>>::empty() =~= acc);
    Ok(())
}

/// The semantic signature of a native model: its name and purpose, folders, elements,
/// relationships and diagram contents written by the values of what they refer to rather than
/// by identifiers, as sorted lines; a reference to an unknown element, object or relationship
/// is refused.
pub fn semantic_signature(model: &ArchiNativeModel) -> (r: Result<Vec<String>, String>)
    ensures
        match signature_of(*model) {
            Ok(lines) => r matches Ok(v) && views(v@) == lines,
            Err(e) => r matches Err(m) && m@ == e,
        },
        r matches Ok(lines) ==> lines_sorted(views(lines@)) && views(lines@).contains("model|"@ + model.name@),
{
    let mut lines: Vec<String> = Vec::new();
    lines.push(cat("model|", model.name.as_str()));
    match &model.purpose {
        Some(p) => lines.push(cat("purpose|", p.as_str())),
        None => lines.push(String::from_str("purpose|")),
    }
    let ghost head2 = views(lines@);
    assert(head2 =~= seq!["model|"@ + model.name@, "purpose|"@ + match model.purpose { Some(p) => p@, None => Seq::empty() }]);
    let mut elements: Vec<(String, String)> = Vec::new();
    sign_folders(model, &mut lines, &mut elements);
    let mut relationships: Vec<(String, String)> = Vec::new();
    match sign_relationships(model, &elements, &mut lines, &mut relationships) {
        Ok(()) => {},
        Err(m) => {
            return Err(m);
        },
    }
    let ghost before_views = views(lines@);
    match sign_diagrams(model, &elements, &relationships, &mut lines) {
        Ok(()) => {},
        Err(m) => {
            return Err(m);
        },
    }
    proof {
        let els = element_pairs(model.folders@);
        let rels = text_pairs(relationships@);
        let dl = diagrams_lines(diagrams_of(model.folders@), els, rels)->Ok_0;
        assert(views(lines@) =~= (head2 + folder_lines(model.folders@) + relationship_lines(rels)) + dl);
        assert(signature_lines(*model) == Ok::<Seq<Seq<char>>, Seq<char>>(views(lines@)));
    }
    let sorted = sorted_words(&lines);
    proof {
        lemma_sort_words_sorted(views(lines@));
        lemma_sort_words_keeps(views(lines@));
        assert(views(lines@)[0] == "model|"@ + model.name@);
    }
    Ok(sorted)
}

/// Where two lists of lines first differ, or the length of the shorter.
pub open spec fn first_mismatch(a: Seq<Seq<char>>, b: Seq<Seq<char>>) -> nat
    decreases a.len(),
{
    if a.len() == 0 || b.len() == 0 || a[0] != b[0] {
        0
    } else {
        first_mismatch(a.drop_first(), b.drop_first()) + 1
    }
}

/// The line at `i`, if there is one.
pub open spec fn line_at(s: Seq<Seq<char>>, i: nat) -> Option<Seq<char>> {
    if i < s.len() { Some(s[i as int]) } else { None }
}

/// Compares two semantic signatures: nothing when they are equal, else where they first
/// differ with the lines there.
pub fn semantic_difference(a: &Vec<String>, b: &Vec<String>) -> (r: Option<String>)
    ensures
        r is None <==> views(a@) == views(b@),
        r matches Some(m) ==> m@ == "semantic model differs at item "@ + decimal(first_mismatch(views(a@), views(b@)))
            + ": "@ + debug_option(line_at(views(a@), first_mismatch(views(a@), views(b@)))) + " vs "@
            + debug_option(line_at(views(b@), first_mismatch(views(a@), views(b@)))),
{
    let mut i: usize = 0;
    assert(views(a@).skip(0) =~= views(a@));
    assert(views(b@).skip(0) =~= views(b@));
    while i < a.len() && i < b.len() && seq_eq(a[i].as_str(), b[i].as_str())
        invariant
            i <= a@.len(),
            i <= b@.len(),
            forall|k: int| 0 <= k < i ==> views(a@)[k] == views(b@)[k],
            first_mismatch(views(a@), views(b@)) == first_mismatch(views(a@).skip(i as int), views(b@).skip(i as int)) + i,
        decreases a.len() - i,
    {
        assert(views(a@).skip(i as int).drop_first() =~= views(a@).skip(i + 1));
        assert(views(b@).skip(i as int).drop_first() =~= views(b@).skip(i + 1));
        assert(views(a@).skip(i as int)[0] == views(a@)[i as int]);
        assert(views(b@).skip(i as int)[0] == views(b@)[i as int]);
        i = i + 1;
    }
    if i == a.len() && i == b.len() {
        assert(views(a@) =~= views(b@));
        return None;
    }
    if i < a.len() && i < b.len() {
        assert(views(a@).skip(i as int)[0] == views(a@)[i as int]);
        assert(views(b@).skip(i as int)[0] == views(b@)[i as int]);
        assert(views(a@)[i as int] != views(b@)[i as int]);
    }
    assert(views(a@) != views(b@)) by {
        if i < a.len() && i < b.len() {
            assert(views(a@)[i as int] != views(b@)[i as int]);
        } else {
            assert(views(a@).len() != views(b@).len());
        }
    }
    let left: Option<String> = if i < a.len() { Some(a[i].clone()) } else { None };
    let right: Option<String> = if i < b.len() { Some(b[i].clone()) } else { None };
    let index = usize_to_string(i);
    let la = debug_option_exec(&left);
    let lb = debug_option_exec(&right);
    let head = cat5("semantic model differs at item ", index.as_str(), ": ", la.as_str(), " vs ");
    Some(cat(head.as_str(), lb.as_str()))
}

/// The message for two signatures that differ: where they first differ, and the lines there.
pub open spec fn difference_message(a: Seq<Seq<char>>, b: Seq<Seq<char>>) -> Seq<char> {
    "semantic model differs at item "@ + decimal(first_mismatch(a, b)) + ": "@ + debug_option(line_at(a, first_mismatch(a, b)))
        + " vs "@ + debug_option(line_at(b, first_mismatch(a, b)))
}

/// How two native models compare by meaning: the first connection problem of either (prefixed
/// by its model's name), else a refused signature, else where their signatures differ.
pub open spec fn semantic_outcome(a: ArchiNativeModel, b: ArchiNativeModel) -> Result<(), Seq<char>> {
    if connection_problems(a).len() > 0 {
        Err(a.name@ + ": "@ + connection_problems(a)[0])
    } else if connection_problems(b).len() > 0 {
        Err(b.name@ + ": "@ + connection_problems(b)[0])
    } else {
        match signature_of(a) {
            Err(e) => Err(e),
            Ok(x) => match signature_of(b) {
                Err(e) => Err(e),
                Ok(y) => if x == y { Ok(()) } else { Err(difference_message(x, y)) },
            },
        }
    }
}

/// Whether a result is the outcome given, its error by its text.
pub open spec fn outcome_is(r: Result<(), String>, o: Result<(), Seq<char>>) -> bool {
    match o {
        Ok(()) => r is Ok,
        Err(e) => r matches Err(m) && m@ == e,
    }
}

/// Compares two native models by meaning.
pub fn semantic_compare(a: &ArchiNativeModel, b: &ArchiNativeModel) -> (r: Result<(), String>)
    ensures
        outcome_is(r, semantic_outcome(*a, *b)),
{
    let da = validate_connections(a);
    if da.len() > 0 {
        return Err(cat3(a.name.as_str(), ": ", da[0].as_str()));
    }
    let db = validate_connections(b);
    if db.len() > 0 {
        return Err(cat3(b.name.as_str(), ": ", db[0].as_str()));
    }
    let sa = semantic_signature(a)?;
    let sb = semantic_signature(b)?;
    match semantic_difference(&sa, &sb) {
        None => Ok(()),
        Some(m) => Err(m),
    }
}

/// Compares two native documents by meaning: each must parse, then the models compare as
/// `semantic_compare` does.
pub fn semantic_diff_files(a_xml: &str, b_xml: &str) -> (r: Result<(), String>)
    ensures
        r is Ok ==> exists|a: ArchiNativeModel, ta: XmlElement, b: ArchiNativeModel, tb: XmlElement|
            read_as(a_xml@, ta, a) && read_as(b_xml@, tb, b) && semantic_outcome(a, b) == Ok::<(), Seq<char>>(()),
        xml_outcome(a_xml@) matches Err(x) ==> r matches Err(m) && m@ == x,
{
    let a = parse(a_xml)?;
    let b = parse(b_xml)?;
    let r = semantic_compare(&a, &b);
    if r.is_ok() {
        assert(semantic_outcome(a, b) == Ok::<(), Seq<char>>(()));
        let ghost ta = choose|ta: XmlElement| read_as(a_xml@, ta, a);
        let ghost tb = choose|tb: XmlElement| read_as(b_xml@, tb, b);
        assert(read_as(a_xml@, ta, a) && read_as(b_xml@, tb, b));
    }
    r
}

/// How two native documents compare as XML: the first connection problem of either model
/// (prefixed by the document's label), else the first difference of their canonical forms.
pub open spec fn native_outcome(a_label: Seq<char>, a: ArchiNativeModel, ta: XmlElement, b_label: Seq<char>, b: ArchiNativeModel, tb: XmlElement) -> Result<(), Seq<char>> {
    if connection_problems(a).len() > 0 {
        Err(a_label + ": "@ + connection_problems(a)[0])
    } else if connection_problems(b).len() > 0 {
        Err(b_label + ": "@ + connection_problems(b)[0])
    } else {
        match xml_diff(ta, tb, "/"@ + ta.name@) {
            None => Ok(()),
            Some(d) => Err(d),
        }
    }
}

/// Compares two native documents, each read as its model and its element tree.
pub fn native_compare(a_label: &str, a: &ArchiNativeModel, ta: &XmlElement, b_label: &str, b: &ArchiNativeModel, tb: &XmlElement) -> (r: Result<(), String>)
    ensures
        outcome_is(r, native_outcome(a_label@, *a, *ta, b_label@, *b, *tb)),
{
    let da = validate_connections(a);
    if da.len() > 0 {
        return Err(cat3(a_label, ": ", da[0].as_str()));
    }
    let db = validate_connections(b);
    if db.len() > 0 {
        return Err(cat3(b_label, ": ", db[0].as_str()));
    }
    match canonical_diff(ta, tb) {
        None => Ok(()),
        Some(d) => Err(d),
    }
}

/// Compares two native documents as XML: each must parse into a model, then they compare as
/// `native_compare` does.
pub fn diff_files(a_label: &str, a_xml: &str, b_label: &str, b_xml: &str) -> (r: Result<(), String>)
    ensures
        r is Ok ==> exists|a: ArchiNativeModel, ta: XmlElement, b: ArchiNativeModel, tb: XmlElement|
            read_as(a_xml@, ta, a) && read_as(b_xml@, tb, b)
            && native_outcome(a_label@, a, ta, b_label@, b, tb) == Ok::<(), Seq<char>>(()),
        xml_outcome(a_xml@) matches Err(x) ==> r matches Err(m) && m@ == x,
        r matches Err(m) ==> xml_outcome(a_xml@) is Ok ==> exists|ta: XmlElement| #[trigger] tree_of(ta) == xml_outcome(a_xml@)->Ok_0
            && xml_wf(ta) && (!model_ok(ta) || (xml_outcome(b_xml@) matches Err(x) && x == m@)
                || exists|tb: XmlElement| #[trigger] tree_of(tb) == xml_outcome(b_xml@)->Ok_0 && xml_outcome(b_xml@) is Ok && xml_wf(tb)
                    && (!model_ok(tb) || exists|a: ArchiNativeModel, b: ArchiNativeModel|
                        model_fields(ta, a) && model_fields(tb, b) && native_outcome(a_label@, a, ta, b_label@, b, tb) == Err::<(), Seq<char>>(m@))),
{
    let ta = parse_xml(a_xml)?;
    let a = match model_from_xml(&ta) {
        Ok(a) => a,
        Err(m) => {
            assert(tree_of(ta) == xml_outcome(a_xml@)->Ok_0);
            return Err(m);
        },
    };
    assert(tree_of(ta) == xml_outcome(a_xml@)->Ok_0);
    let tb = parse_xml(b_xml)?;
    assert(tree_of(tb) == xml_outcome(b_xml@)->Ok_0);
    let b = model_from_xml(&tb)?;
    let r = native_compare(a_label, &a, &ta, b_label, &b, &tb);
    if r.is_ok() {
        assert(native_outcome(a_label@, a, ta, b_label@, b, tb) == Ok::<(), Seq<char>>(()));
        assert(read_as(a_xml@, ta, a) && read_as(b_xml@, tb, b));
    } else {
        assert(tree_of(ta) == tree_of(ta) && tree_of(tb) == tree_of(tb));
    }
    r
}

/// The native XML kept in a sidecar, when the projection beside it is still the one the
/// sidecar was made for: an unknown format version is refused; a changed projection gives
/// nothing; the kept XML must parse and have sound connections.
pub fn sidecar_xml(sidecar: &ArchiSidecar, projection: &str) -> (r: Result<Option<String>, String>)
    ensures
        sidecar.format_version != 1 ==> (r matches Err(m) && m@ == "unsupported Archi sidecar version "@ + decimal(sidecar.format_version as nat)),
        sidecar.format_version == 1 && hash_text(projection@) != sidecar.projection_hash@ ==> r matches Ok(None),
        r matches Ok(Some(x)) ==> x@ == sidecar.source_xml@ && hash_text(projection@) == sidecar.projection_hash@
            && exists|m: ArchiNativeModel, root: XmlElement| read_as(sidecar.source_xml@, root, m) && connection_problems(m).len() == 0,
        r matches Ok(None) <==> (sidecar.format_version == 1 && hash_text(projection@) != sidecar.projection_hash@),
        sidecar.format_version == 1 && hash_text(projection@) == sidecar.projection_hash@ ==> match xml_outcome(sidecar.source_xml@) {
            Err(x) => r matches Err(m) && m@ == x,
            Ok(_) => r matches Ok(Some(x)) || r is Err,
        },
{
    if sidecar.format_version != 1 {
        let v = usize_to_string(sidecar.format_version as usize);
        return Err(cat("unsupported Archi sidecar version ", v.as_str()));
    }
    let current = hash(projection);
    if !seq_eq(current.as_str(), sidecar.projection_hash.as_str()) {
        return Ok(None);
    }
    let model = parse(sidecar.source_xml.as_str())?;
    let diagnostics = validate_connections(&model);
    if diagnostics.len() > 0 {
        return Err(cat("invalid Archi sidecar connection: ", diagnostics[0].as_str()));
    }
    assert(views(diagnostics@).len() == 0);
    Ok(Some(sidecar.source_xml.clone()))
}

/// What importing a native document gives: the projected workspace, the connection problems
/// to warn about, and the sidecar that keeps the document beside the projection.
pub fn import(source_xml: &str) -> (r: Result<(String, Vec<String>, ArchiSidecar), String>)
    ensures
        r matches Ok((dsl, warnings, sidecar)) ==> {
            &&& sidecar.format_version == 1
            &&& sidecar.source_xml@ == source_xml@
            &&& sidecar.projection_hash@ == hash_text(dsl@)
            &&& exists|m: ArchiNativeModel, root: XmlElement| read_as(source_xml@, root, m) && views(warnings@) == connection_problems(m)
        },
        xml_outcome(source_xml@) matches Err(x) ==> r matches Err(m) && m@ == x,
{
    let model = parse(source_xml)?;
    let warnings = validate_connections(&model);
    let dsl = project_to_dsl(&model);
    let projection_hash = hash(dsl.as_str());
    let sidecar = ArchiSidecar { format_version: 1, projection_hash, source_xml: String::from_str(source_xml) };
    Ok((dsl, warnings, sidecar))
}

/// A model whose connections are sound and whose references all resolve means the same as
/// itself.
pub proof fn lemma_semantic_reflexive(m: ArchiNativeModel)
    requires
        connection_problems(m).len() == 0,
        signature_of(m) is Ok,
    ensures
        semantic_outcome(m, m) == Ok::<(), Seq<char>>(()),
{
}

/// Two models mean the same in one order exactly when they do in the other.
pub proof fn lemma_semantic_symmetric(a: ArchiNativeModel, b: ArchiNativeModel)
    ensures
        semantic_outcome(a, b) is Ok <==> semantic_outcome(b, a) is Ok,
{
}

/// A document with sound connections has no canonical difference from itself.
pub proof fn lemma_native_reflexive(label: Seq<char>, m: ArchiNativeModel, t: XmlElement)
    requires
        connection_problems(m).len() == 0,
    ensures
        native_outcome(label, m, t, label, m, t) == Ok::<(), Seq<char>>(()),
{
    crate::archi_native::lemma_xml_diff_reflexive(t, "/"@ + t.name@);
}

} // verus!
