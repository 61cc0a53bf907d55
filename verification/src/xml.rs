use vstd::prelude::*;
use crate::chars::is_whitespace;
use crate::text::{chars_of, seq_eq, string_of};
use quick_xml::events::Event;

verus! {

#[verifier::external_type_specification]
#[verifier::external_body]
#[verifier::reject_recursive_types(R)]
pub struct ExXmlReader<R>(quick_xml::Reader<R>);

#[verifier::external_type_specification]
#[verifier::external_body]
pub struct ExXmlStart<'a>(quick_xml::events::BytesStart<'a>);

#[verifier::external_type_specification]
#[verifier::external_body]
pub struct ExXmlText<'a>(quick_xml::events::BytesText<'a>);

#[verifier::external_type_specification]
#[verifier::external_body]
pub struct ExXmlCData<'a>(quick_xml::events::BytesCData<'a>);

/// One step of reading an XML document, as plain values.
#[derive(Debug)]
pub enum XmlEvent {
    /// An opening tag, or an empty element when `empty` holds, with its decoded attributes.
    Start { name: String, attributes: Vec<(String, String)>, empty: bool },
    /// A closing tag.
    End,
    /// Decoded text or CDATA content.
    Text(String),
    /// A document type declaration.
    DocType,
    /// The end of the input.
    Eof,
    /// A declaration, processing instruction, comment or entity reference.
    Skip,
    /// The reader refused the input; the message says why.
    Error(String),
}

/// What one event of a document carries, as values.
pub enum XmlStep {
    Start { name: Seq<char>, attributes: Seq<(Seq<char>, Seq<char>)>, empty: bool },
    End,
    Text(Seq<char>),
    DocType,
    Eof,
    Skip,
    Error(Seq<char>),
}

/// Attribute pairs as values.
pub open spec fn pairs_view(ps: Seq<(String, String)>) -> Seq<(Seq<char>, Seq<char>)> {
    Seq::new(ps.len(), |i: int| (ps[i].0@, ps[i].1@))
}

/// The values an event carries.
pub open spec fn step_of(e: XmlEvent) -> XmlStep {
    match e {
        XmlEvent::Start { name, attributes, empty } => XmlStep::Start { name: name@, attributes: pairs_view(attributes@), empty },
        XmlEvent::End => XmlStep::End,
        XmlEvent::Text(t) => XmlStep::Text(t@),
        XmlEvent::DocType => XmlStep::DocType,
        XmlEvent::Eof => XmlStep::Eof,
        XmlEvent::Skip => XmlStep::Skip,
        XmlEvent::Error(m) => XmlStep::Error(m@),
    }
}

/// The event that a quick-xml reader made from `input` (text trimming off) hands out as its
/// event number `index`, counting from zero, converted as `next_event` converts it.
pub uninterp spec fn xml_event(input: Seq<char>, index: nat) -> XmlStep;

/// A quick-xml reader over a text, with the text and the number of events read so far.
pub struct XmlEvents<'a> {
    reader: quick_xml::Reader<&'a [u8]>,
    input: Ghost<Seq<char>>,
    read: Ghost<nat>,
}

impl<'a> XmlEvents<'a> {
    /// The text being read.
    pub closed spec fn source(&self) -> Seq<char> {
        self.input@
    }

    /// How many events have been read.
    pub closed spec fn position(&self) -> nat {
        self.read@
    }
}

/// `quick_xml::Reader::from_str` with text trimming off: a reader at the start of `input`.
#[verifier::external_body]
fn xml_reader<'a>(input: &'a str) -> (r: XmlEvents<'a>)
    ensures
        r.source() == input@,
        r.position() == 0,
{
    let mut reader = quick_xml::Reader::from_str(input);
    reader.config_mut().trim_text(false);
    XmlEvents { reader, input: Ghost(input@), read: Ghost(0) }
}

/// The opening tag `event` as plain values: its name and, through
/// `Attribute::decode_and_unescape_value`, its attributes in document order.
#[verifier::external_body]
fn start_event(reader: &quick_xml::Reader<&[u8]>, event: &quick_xml::events::BytesStart, empty: bool) -> (r: XmlEvent) {
    let mut attributes = Vec::new();
    for attribute in event.attributes() {
        let attribute = match attribute {
            Ok(attribute) => attribute,
            Err(error) => return XmlEvent::Error(format!("invalid XML attribute: {error}")),
        };
        let name = String::from_utf8_lossy(attribute.key.as_ref()).into_owned();
        match attribute.decode_and_unescape_value(reader.decoder()) {
            Ok(value) => attributes.push((name, value.into_owned())),
            Err(error) => return XmlEvent::Error(format!("invalid XML attribute '{name}': {error}")),
        }
    }
    XmlEvent::Start { name: String::from_utf8_lossy(event.name().as_ref()).into_owned(), attributes, empty }
}

/// The text `event` decoded by `BytesText::decode` and unescaped by `quick_xml::escape::unescape`.
#[verifier::external_body]
fn text_event(event: &quick_xml::events::BytesText) -> (r: XmlEvent) {
    match event.decode() {
        Err(error) => XmlEvent::Error(format!("invalid XML text: {error}")),
        Ok(decoded) => match quick_xml::escape::unescape(&decoded) {
            Err(error) => XmlEvent::Error(format!("invalid XML entity: {error}")),
            Ok(text) => XmlEvent::Text(text.into_owned()),
        },
    }
}

/// The CDATA `event` decoded by `BytesCData::decode`.
#[verifier::external_body]
fn cdata_event(event: &quick_xml::events::BytesCData) -> (r: XmlEvent) {
    match event.decode() {
        Err(error) => XmlEvent::Error(format!("invalid XML CDATA: {error}")),
        Ok(text) => XmlEvent::Text(text.into_owned()),
    }
}

/// `quick_xml::Reader::read_event`: the next event of the document, as plain values; a read
/// error carries `Reader::error_position`. The event is the one `xml_event` names.
#[verifier::external_body]
fn next_event(events: &mut XmlEvents) -> (r: XmlEvent)
    ensures
        step_of(r) == xml_event(old(events).source(), old(events).position()),
        final(events).source() == old(events).source(),
        final(events).position() == old(events).position() + 1,
{
    let r = match events.reader.read_event() {
        Err(error) => XmlEvent::Error(format!("invalid XML at byte {}: {error}", events.reader.error_position())),
        Ok(Event::Start(event)) => start_event(&events.reader, &event, false),
        Ok(Event::Empty(event)) => start_event(&events.reader, &event, true),
        Ok(Event::End(_)) => XmlEvent::End,
        Ok(Event::Text(event)) => text_event(&event),
        Ok(Event::CData(event)) => cdata_event(&event),
        Ok(Event::DocType(_)) => XmlEvent::DocType,
        Ok(Event::Eof) => XmlEvent::Eof,
        Ok(_) => XmlEvent::Skip,
    };
    events.read = Ghost(events.read@ + 1);
    r
}

/// An XML element: name, attributes ordered by name, normalized text and children.
#[derive(Debug)]
pub struct XmlElement {
    pub name: String,
    pub attributes: Vec<(String, String)>,
    pub text: String,
    pub children: Vec<XmlElement>,
}

/// Every element of the tree has its attributes ordered by name, each name once.
pub open spec fn xml_wf(e: XmlElement) -> bool
    decreases e,
{
    &&& names_sorted(e.attributes@)
    &&& forall|i: int| 0 <= i < e.children@.len() ==> xml_wf(#[trigger] e.children@[i])
}

/// Lexicographic order of characters by code point, which is the byte order of UTF-8 text.
pub open spec fn text_le(a: Seq<char>, b: Seq<char>) -> bool
    decreases a.len(),
{
    if a.len() == 0 {
        true
    } else if b.len() == 0 {
        false
    } else if a[0] != b[0] {
        (a[0] as int) < (b[0] as int)
    } else {
        text_le(a.drop_first(), b.drop_first())
    }
}

/// Whether `a` sorts before or equal to `b`.
pub fn text_le_exec(a: &str, b: &str) -> (r: bool)
    ensures
        r == text_le(a@, b@),
{
    let x = chars_of(a);
    let y = chars_of(b);
    let mut i: usize = 0;
    assert(x@.skip(0) =~= x@ && y@.skip(0) =~= y@);
    while i < x.len() && i < y.len() && x[i] == y[i]
        invariant
            x@ == a@,
            y@ == b@,
            i <= x@.len(),
            i <= y@.len(),
            text_le(a@, b@) == text_le(x@.skip(i as int), y@.skip(i as int)),
        decreases x.len() - i,
    {
        assert(x@.skip(i as int).drop_first() =~= x@.skip(i + 1));
        assert(y@.skip(i as int).drop_first() =~= y@.skip(i + 1));
        i = i + 1;
    }
    if i == x.len() {
        true
    } else if i == y.len() {
        false
    } else {
        x[i] < y[i]
    }
}

/// The value of attribute `name`.
pub open spec fn attribute_value(attributes: Seq<(String, String)>, name: Seq<char>) -> Option<Seq<char>>
    decreases attributes.len(),
{
    if attributes.len() == 0 {
        None
    } else if attributes[0].0@ == name {
        Some(attributes[0].1@)
    } else {
        attribute_value(attributes.drop_first(), name)
    }
}

/// The value of attribute `name`, if the element has it.
pub fn attribute<'a>(attributes: &'a Vec<(String, String)>, name: &str) -> (r: Option<&'a String>)
    ensures
        match r {
            Some(v) => attribute_value(attributes@, name@) == Some(v@),
            None => attribute_value(attributes@, name@) is None,
        },
{
    let mut i: usize = 0;
    assert(attributes@.skip(0) =~= attributes@);
    while i < attributes.len()
        invariant
            i <= attributes@.len(),
            attribute_value(attributes@, name@) == attribute_value(attributes@.skip(i as int), name@),
        decreases attributes.len() - i,
    {
        assert(attributes@.skip(i as int).drop_first() =~= attributes@.skip(i + 1));
        if seq_eq(attributes[i].0.as_str(), name) {
            return Some(&attributes[i].1);
        }
        i = i + 1;
    }
    None
}

/// Strict order of names.
pub open spec fn text_lt(a: Seq<char>, b: Seq<char>) -> bool {
    text_le(a, b) && a != b
}

/// Attribute names strictly increase, so that no name occurs twice.
pub open spec fn names_sorted(attributes: Seq<(String, String)>) -> bool {
    forall|i: int, j: int|
        0 <= i < j < attributes.len() ==> text_lt(#[trigger] attributes[i].0@, #[trigger] attributes[j].0@)
}

/// Any two names are ordered one way or the other.
pub proof fn lemma_text_le_total(a: Seq<char>, b: Seq<char>)
    ensures
        text_le(a, b) || text_le(b, a),
    decreases a.len(),
{
    if a.len() > 0 && b.len() > 0 && a[0] == b[0] {
        lemma_text_le_total(a.drop_first(), b.drop_first());
    }
}

/// The order is transitive.
pub proof fn lemma_text_le_trans(a: Seq<char>, b: Seq<char>, c: Seq<char>)
    requires
        text_le(a, b),
        text_le(b, c),
    ensures
        text_le(a, c),
    decreases a.len(),
{
    if a.len() > 0 && b.len() > 0 && c.len() > 0 && a[0] == b[0] && b[0] == c[0] {
        lemma_text_le_trans(a.drop_first(), b.drop_first(), c.drop_first());
    }
}

/// The order is antisymmetric.
pub proof fn lemma_text_le_antisym(a: Seq<char>, b: Seq<char>)
    requires
        text_le(a, b),
        text_le(b, a),
    ensures
        a == b,
    decreases a.len(),
{
    if a.len() > 0 && b.len() > 0 {
        lemma_text_le_antisym(a.drop_first(), b.drop_first());
        assert(a =~= seq![a[0]] + a.drop_first());
        assert(b =~= seq![b[0]] + b.drop_first());
    }
}

proof fn lemma_value_insert(s: Seq<(String, String)>, i: int, pair: (String, String), k: Seq<char>)
    requires
        0 <= i <= s.len(),
        forall|j: int| 0 <= j < i ==> (#[trigger] s[j]).0@ != pair.0@,
    ensures
        attribute_value(s.insert(i, pair), k) == (if k == pair.0@ { Some(pair.1@) } else {
            attribute_value(s, k)
        }),
    decreases i,
{
    if i > 0 {
        assert(s.insert(i, pair).drop_first() =~= s.drop_first().insert(i - 1, pair));
        assert forall|j: int| 0 <= j < i - 1 implies (#[trigger] s.drop_first()[j]).0@ != pair.0@ by {
            assert(s.drop_first()[j] == s[j + 1]);
        }
        lemma_value_insert(s.drop_first(), i - 1, pair, k);
    } else {
        assert(s.insert(i, pair).drop_first() =~= s);
    }
}

proof fn lemma_value_update(s: Seq<(String, String)>, i: int, pair: (String, String), k: Seq<char>)
    requires
        0 <= i < s.len(),
        s[i].0@ == pair.0@,
        forall|j: int| 0 <= j < i ==> (#[trigger] s[j]).0@ != pair.0@,
    ensures
        attribute_value(s.update(i, pair), k) == (if k == pair.0@ { Some(pair.1@) } else {
            attribute_value(s, k)
        }),
    decreases i,
{
    if i > 0 {
        assert(s.update(i, pair).drop_first() =~= s.drop_first().update(i - 1, pair));
        assert forall|j: int| 0 <= j < i - 1 implies (#[trigger] s.drop_first()[j]).0@ != pair.0@ by {
            assert(s.drop_first()[j] == s[j + 1]);
        }
        lemma_value_update(s.drop_first(), i - 1, pair, k);
    } else {
        assert(s.update(i, pair).drop_first() =~= s.drop_first());
    }
}

/// Sets attribute `name` to `value` in attributes ordered by name; a name given twice keeps
/// the last value.
pub fn set_attribute(attributes: &mut Vec<(String, String)>, name: String, value: String)
    requires
        names_sorted(old(attributes)@),
    ensures
        names_sorted(final(attributes)@),
        forall|k: Seq<char>|
            #[trigger] attribute_value(final(attributes)@, k) == (if k == name@ { Some(value@) } else {
                attribute_value(old(attributes)@, k)
            }),
{
    let ghost s = attributes@;
    let ghost pair = (name, value);
    let mut i: usize = 0;
    while i < attributes.len()
        invariant
            attributes@ == s,
            s == old(attributes)@,
            pair == (name, value),
            names_sorted(s),
            i <= s.len(),
            forall|j: int| 0 <= j < i ==> text_lt((#[trigger] s[j]).0@, name@),
        decreases attributes.len() - i,
    {
        if seq_eq(attributes[i].0.as_str(), name.as_str()) {
            proof {
                assert forall|k: Seq<char>| #[trigger] attribute_value(s.update(i as int, pair), k) == (if k == name@ { Some(value@) } else {
                    attribute_value(s, k)
                }) by {
                    lemma_value_update(s, i as int, pair, k);
                }
                assert forall|a: int, b: int| 0 <= a < b < s.len() implies text_lt(
                    #[trigger] s.update(i as int, pair)[a].0@, #[trigger] s.update(i as int, pair)[b].0@) by {
                    assert(s[a].0@ == s.update(i as int, pair)[a].0@);
                    assert(s[b].0@ == s.update(i as int, pair)[b].0@);
                }
            }
            attributes.set(i, (name, value));
            assert(attributes@ == s.update(i as int, pair));
            return;
        }
        if !text_le_exec(attributes[i].0.as_str(), name.as_str()) {
            proof {
                lemma_text_le_total(s[i as int].0@, name@);
                let t = s.insert(i as int, pair);
                assert forall|k: Seq<char>| #[trigger] attribute_value(t, k) == (if k == name@ { Some(value@) } else {
                    attribute_value(s, k)
                }) by {
                    lemma_value_insert(s, i as int, pair, k);
                }
                assert forall|a: int, b: int| 0 <= a < b < t.len() implies text_lt(#[trigger] t[a].0@, #[trigger] t[b].0@) by {
                    if a < i && b < i {
                        assert(t[a] == s[a] && t[b] == s[b]);
                    } else if a < i && b == i {
                    } else if a < i {
                        assert(t[a] == s[a] && t[b] == s[b - 1]);
                        lemma_text_le_trans(s[a].0@, name@, s[i as int].0@);
                        if b - 1 > i {
                            assert(text_lt(s[i as int].0@, s[b - 1].0@));
                            lemma_text_le_trans(s[a].0@, s[i as int].0@, s[b - 1].0@);
                        }
                        if s[a].0@ == s[b - 1].0@ {
                            lemma_text_le_antisym(s[a].0@, name@);
                            if b - 1 > i {
                                lemma_text_le_antisym(s[i as int].0@, name@);
                            }
                        }
                    } else if a == i {
                        assert(t[b] == s[b - 1]);
                        if b - 1 > i {
                            assert(text_lt(s[i as int].0@, s[b - 1].0@));
                            lemma_text_le_trans(name@, s[i as int].0@, s[b - 1].0@);
                            if name@ == s[b - 1].0@ {
                                lemma_text_le_antisym(name@, s[i as int].0@);
                            }
                        }
                    } else {
                        assert(t[a] == s[a - 1] && t[b] == s[b - 1]);
                    }
                }
            }
            attributes.insert(i, (name, value));
            return;
        }
        i = i + 1;
    }
    proof {
        let t = s.push(pair);
        assert(t =~= s.insert(s.len() as int, pair));
        assert forall|k: Seq<char>| #[trigger] attribute_value(t, k) == (if k == name@ { Some(value@) } else {
            attribute_value(s, k)
        }) by {
            lemma_value_insert(s, s.len() as int, pair, k);
        }
        assert forall|a: int, b: int| 0 <= a < b < t.len() implies text_lt(#[trigger] t[a].0@, #[trigger] t[b].0@) by {
            if b < s.len() {
                assert(t[a] == s[a] && t[b] == s[b]);
            } else {
                assert(t[a] == s[a]);
            }
        }
    }
    attributes.push((name, value));
}

/// `text` with its whitespace runs collapsed to single spaces and trimmed, appended to
/// `target` after a space when both are non-empty.
/// The words of a text so far, separated by single spaces, and whether whitespace follows
/// the last one.
pub open spec fn word_state(s: Seq<char>) -> (Seq<char>, bool)
    decreases s.len(),
{
    if s.len() == 0 {
        (Seq::empty(), false)
    } else {
        let (w, pending) = word_state(s.drop_last());
        let c = s.last();
        if crate::chars::unicode_whitespace(c) {
            (w, true)
        } else {
            ((if pending && w.len() > 0 { w.push(' ') } else { w }).push(c), false)
        }
    }
}

/// A text with its whitespace runs collapsed to single spaces and trimmed.
pub open spec fn normalized_text(s: Seq<char>) -> Seq<char> {
    word_state(s).0
}

pub(crate) fn append_text(target: &mut String, text: &str)
    ensures
        final(target)@ == if normalized_text(text@).len() == 0 {
            old(target)@
        } else {
            old(target)@ + (if old(target)@.len() > 0 { seq![' '] } else { Seq::empty() }) + normalized_text(text@)
        },
{
    let v = chars_of(text);
    let mut words: Vec<char> = Vec::new();
    let mut pending = false;
    let mut i: usize = 0;
    while i < v.len()
        invariant
            i <= v@.len(),
            v@ == text@,
            (words@, pending) == word_state(v@.take(i as int)),
        decreases v.len() - i,
    {
        assert(v@.take(i + 1).drop_last() =~= v@.take(i as int));
        assert(v@.take(i + 1).last() == v@[i as int]);
        if is_whitespace(v[i]) {
            pending = true;
        } else {
            if pending && words.len() > 0 {
                words.push(' ');
            }
            pending = false;
            words.push(v[i]);
        }
        i = i + 1;
    }
    assert(v@.take(v@.len() as int) =~= v@);
    if words.len() == 0 {
        return;
    }
    proof { reveal_strlit(" "); }
    if target.as_str().unicode_len() > 0 {
        target.append(" ");
    }
    target.append(string_of(words.as_slice()).as_str());
}

/// An XML element as values: name, attributes by name, normalized text and children.
pub struct XmlTree {
    pub name: Seq<char>,
    pub attributes: Map<Seq<char>, Seq<char>>,
    pub text: Seq<char>,
    pub children: Seq<XmlTree>,
}

/// Attributes as a map from names to values.
pub open spec fn attribute_map(attrs: Seq<(String, String)>) -> Map<Seq<char>, Seq<char>> {
    Map::new(|k: Seq<char>| attribute_value(attrs, k) is Some, |k: Seq<char>| attribute_value(attrs, k)->Some_0)
}

/// An element as values.
pub open spec fn tree_of(e: XmlElement) -> XmlTree
    decreases e, 1nat,
{
    proof {
        assert(decreases_to!(e => e.children));
        assert(decreases_to!(e.children => e.children@));
    }
    XmlTree {
        name: e.name@,
        attributes: attribute_map(e.attributes@),
        text: e.text@,
        children: trees_of(e.children@),
    }
}

/// Elements as values.
pub open spec fn trees_of(cs: Seq<XmlElement>) -> Seq<XmlTree>
    decreases cs, 0nat,
{
    if cs.len() == 0 {
        Seq::empty()
    } else {
        proof {
            assert(decreases_to!(cs => cs[cs.len() - 1]));
            assert(decreases_to!(cs => cs.subrange(0, cs.len() - 1)));
        }
        trees_of(cs.subrange(0, cs.len() - 1)).push(tree_of(cs[cs.len() - 1]))
    }
}

proof fn lemma_trees_push(cs: Seq<XmlElement>, x: XmlElement)
    ensures
        trees_of(cs.push(x)) == trees_of(cs).push(tree_of(x)),
{
    assert(cs.push(x).subrange(0, cs.len() as int) =~= cs);
}

proof fn lemma_trees_last(cs: Seq<XmlElement>)
    requires
        cs.len() > 0,
    ensures
        trees_of(cs) == trees_of(cs.drop_last()).push(tree_of(cs.last())),
        trees_of(cs).drop_last() == trees_of(cs.drop_last()),
        trees_of(cs).last() == tree_of(cs.last()),
        trees_of(cs).len() == cs.len(),
{
    assert(cs.subrange(0, cs.len() - 1) =~= cs.drop_last());
    assert(trees_of(cs.drop_last()).push(tree_of(cs.last())).drop_last() =~= trees_of(cs.drop_last()));
    lemma_trees_len(cs);
}

proof fn lemma_trees_len(cs: Seq<XmlElement>)
    ensures
        trees_of(cs).len() == cs.len(),
    decreases cs.len(),
{
    if cs.len() > 0 {
        lemma_trees_len(cs.subrange(0, cs.len() - 1));
    }
}

/// The attributes of an opening tag in document order, a later value of a name replacing an
/// earlier one.
pub open spec fn start_map(pairs: Seq<(Seq<char>, Seq<char>)>) -> Map<Seq<char>, Seq<char>>
    decreases pairs.len(),
{
    if pairs.len() == 0 {
        Map::empty()
    } else {
        start_map(pairs.drop_last()).insert(pairs.last().0, pairs.last().1)
    }
}

/// `target` with the normalized `text` added after a space.
pub open spec fn appended(target: Seq<char>, text: Seq<char>) -> Seq<char> {
    if normalized_text(text).len() == 0 {
        target
    } else {
        target + (if target.len() > 0 { seq![' '] } else { Seq::empty() }) + normalized_text(text)
    }
}

/// The elements still open, innermost last, and the root once it is closed.
pub struct XmlParse {
    pub stack: Seq<XmlTree>,
    pub root: Option<XmlTree>,
}

/// A closed element `t` added to the innermost open element, or made the root.
pub open spec fn adopt(st: XmlParse, t: XmlTree) -> Result<XmlParse, Seq<char>> {
    if st.stack.len() > 0 {
        let p = st.stack.last();
        Ok(XmlParse { stack: st.stack.drop_last().push(XmlTree { children: p.children.push(t), ..p }), root: st.root })
    } else if st.root is Some {
        Err("XML document has multiple root elements"@)
    } else {
        Ok(XmlParse { stack: st.stack, root: Some(t) })
    }
}

/// What reading the events of `input` from number `index` on makes of the state `st`, with
/// at most `fuel` more events.
pub open spec fn xml_run(input: Seq<char>, index: nat, fuel: nat, st: XmlParse) -> Result<XmlTree, Seq<char>>
    decreases fuel,
{
    if fuel == 0 {
        Err("XML input did not end"@)
    } else {
        match xml_event(input, index) {
            XmlStep::Error(m) => Err(m),
            XmlStep::Start { name, attributes, empty } => {
                let t = XmlTree { name, attributes: start_map(attributes), text: Seq::empty(), children: Seq::empty() };
                if empty {
                    match adopt(st, t) {
                        Ok(next) => xml_run(input, index + 1, (fuel - 1) as nat, next),
                        Err(m) => Err(m),
                    }
                } else {
                    xml_run(input, index + 1, (fuel - 1) as nat, XmlParse { stack: st.stack.push(t), root: st.root })
                }
            },
            XmlStep::End => {
                if st.stack.len() == 0 {
                    Err("unexpected XML closing element"@)
                } else {
                    match adopt(XmlParse { stack: st.stack.drop_last(), root: st.root }, st.stack.last()) {
                        Ok(next) => xml_run(input, index + 1, (fuel - 1) as nat, next),
                        Err(m) => Err(m),
                    }
                }
            },
            XmlStep::Text(x) => {
                if st.stack.len() > 0 {
                    let p = st.stack.last();
                    xml_run(input, index + 1, (fuel - 1) as nat,
                        XmlParse { stack: st.stack.drop_last().push(XmlTree { text: appended(p.text, x), ..p }), root: st.root })
                } else {
                    xml_run(input, index + 1, (fuel - 1) as nat, st)
                }
            },
            XmlStep::DocType => Err("XML DOCTYPE declarations are not allowed"@),
            XmlStep::Eof => {
                if st.stack.len() > 0 {
                    Err("unclosed XML element"@)
                } else {
                    match st.root {
                        Some(t) => Ok(t),
                        None => Err("XML document has no root element"@),
                    }
                }
            },
            XmlStep::Skip => xml_run(input, index + 1, (fuel - 1) as nat, st),
        }
    }
}

/// How many events parsing reads at most: two more than the characters of the input.
pub open spec fn xml_fuel(n: nat) -> nat {
    if n < usize::MAX - 2 { n + 2 } else { usize::MAX as nat }
}

/// The root element of `input`, or why it has none.
pub open spec fn xml_outcome(input: Seq<char>) -> Result<XmlTree, Seq<char>> {
    xml_run(input, 0, xml_fuel(input.len()), XmlParse { stack: Seq::empty(), root: None })
}

/// The state of an exec parse as values.
pub open spec fn parse_state(stack: Seq<XmlElement>, root: Option<XmlElement>) -> XmlParse {
    XmlParse {
        stack: trees_of(stack),
        root: match root { Some(e) => Some(tree_of(e)), None => None },
    }
}

/// A parse result as values.
pub open spec fn outcome_of(r: Result<XmlElement, String>) -> Result<XmlTree, Seq<char>> {
    match r {
        Ok(e) => Ok(tree_of(e)),
        Err(m) => Err(m@),
    }
}

/// Every element of `stack` is well formed.
pub open spec fn stack_wf(stack: Seq<XmlElement>) -> bool {
    forall|i: int| 0 <= i < stack.len() ==> xml_wf(#[trigger] stack[i])
}

proof fn lemma_adopt(parent: XmlElement, child: XmlElement, grown: XmlElement)
    requires
        xml_wf(parent),
        xml_wf(child),
        grown.attributes@ == parent.attributes@,
        grown.children@ == parent.children@.push(child),
    ensures
        xml_wf(grown),
{
    assert forall|i: int| 0 <= i < grown.children@.len() implies xml_wf(#[trigger] grown.children@[i]) by {
        if i < parent.children@.len() {
            assert(grown.children@[i] == parent.children@[i]);
        } else {
            assert(grown.children@[i] == child);
        }
    }
}

fn attach(stack: &mut Vec<XmlElement>, root: &mut Option<XmlElement>, element: XmlElement) -> (r: Result<(), String>)
    requires
        stack_wf(old(stack)@),
        xml_wf(element),
        *old(root) matches Some(e) ==> xml_wf(e),
    ensures
        final(stack)@.len() == old(stack)@.len(),
        stack_wf(final(stack)@),
        *final(root) matches Some(e) ==> xml_wf(e),
        old(stack)@.len() > 0 ==> {
            &&& r is Ok
            &&& *final(root) == *old(root)
            &&& final(stack)@.drop_last() == old(stack)@.drop_last()
            &&& final(stack)@.last().name == old(stack)@.last().name
            &&& final(stack)@.last().attributes == old(stack)@.last().attributes
            &&& final(stack)@.last().text == old(stack)@.last().text
            &&& final(stack)@.last().children@ == old(stack)@.last().children@.push(element)
        },
        old(stack)@.len() == 0 && *old(root) is Some ==> (r matches Err(m) && m@ == "XML document has multiple root elements"@
            && *final(root) == *old(root)),
        old(stack)@.len() == 0 && *old(root) is None ==> r is Ok && *final(root) == Some(element),
        match adopt(parse_state(old(stack)@, *old(root)), tree_of(element)) {
            Ok(st) => r is Ok && parse_state(final(stack)@, *final(root)) == st,
            Err(m) => r matches Err(x) && x@ == m,
        },
{
    let n = stack.len();
    if n > 0 {
        let mut parent = stack.pop().unwrap();
        let ghost before = parent;
        assert(xml_wf(stack@.push(before)[n - 1]));
        parent.children.push(element);
        proof {
            lemma_adopt(before, element, parent);
            lemma_trees_push(before.children@, element);
            lemma_trees_last(old(stack)@);
            assert(old(stack)@.drop_last() =~= stack@);
            assert(old(stack)@.last() == before);
        }
        stack.push(parent);
        proof {
            lemma_trees_push(old(stack)@.drop_last(), parent);
            assert(stack@ =~= old(stack)@.drop_last().push(parent));
            assert(attribute_map(parent.attributes@) =~= attribute_map(before.attributes@));
        }
        assert(stack@.drop_last() =~= old(stack)@.drop_last());
        assert forall|i: int| 0 <= i < stack@.len() implies xml_wf(#[trigger] stack@[i]) by {
            if i < n - 1 {
                assert(stack@[i] == old(stack)@[i]);
            }
        }
        Ok(())
    } else if root.is_some() {
        Err(String::from_str("XML document has multiple root elements"))
    } else {
        *root = Some(element);
        Ok(())
    }
}

/// Parses an XML document into its root element. Attributes are decoded and unescaped,
/// text and CDATA are normalized; a DOCTYPE, an unbalanced or unclosed element, a second root
/// or no root is refused. At most one event per input character is read.
pub fn parse_xml(input: &str) -> (r: Result<XmlElement, String>)
    ensures
        r matches Ok(e) ==> xml_wf(e),
        outcome_of(r) == xml_outcome(input@),
{
    let mut reader = xml_reader(input);
    let mut stack: Vec<XmlElement> = Vec::new();
    let mut root: Option<XmlElement> = None;
    let n = input.unicode_len();
    let mut fuel: usize = if n < usize::MAX - 2 { n + 2 } else { usize::MAX };
    assert(trees_of(stack@) =~= Seq::<XmlTree>::empty());
    assert(parse_state(stack@, root) == XmlParse { stack: Seq::empty(), root: None });
    loop
        invariant
            stack_wf(stack@),
            root matches Some(e) ==> xml_wf(e),
            reader.source() == input@,
            xml_outcome(input@) == xml_run(input@, reader.position(), fuel as nat, parse_state(stack@, root)),
        decreases fuel,
    {
        if fuel == 0 {
            return Err(String::from_str("XML input did not end"));
        }
        let ghost p0 = reader.position();
        let ghost f0 = fuel as nat;
        let ghost st0 = parse_state(stack@, root);
        let ghost stack0 = stack@;
        fuel = fuel - 1;
        let event = next_event(&mut reader);
        let ghost step = step_of(event);
        assert(xml_outcome(input@) == xml_run(input@, p0, f0, st0));
        match event {
            XmlEvent::Error(message) => {
                return Err(message);
            },
            XmlEvent::Start { name, attributes, empty } => {
                let ghost pv = pairs_view(attributes@);
                let mut sorted: Vec<(String, String)> = Vec::new();
                let mut pairs = attributes;
                let mut k: usize = 0;
                assert(attribute_map(sorted@) =~= start_map(pv.take(0)));
                while k < pairs.len()
                    invariant
                        k <= pairs@.len(),
                        names_sorted(sorted@),
                        pv == pairs_view(pairs@),
                        attribute_map(sorted@) == start_map(pv.take(k as int)),
                    decreases pairs.len() - k,
                {
                    let key = pairs[k].0.clone();
                    let value = pairs[k].1.clone();
                    let ghost before = sorted@;
                    set_attribute(&mut sorted, key, value);
                    proof {
                        assert(pv.take(k + 1).drop_last() =~= pv.take(k as int));
                        assert(pv.take(k + 1).last() == (key@, value@));
                        assert(attribute_map(sorted@) =~= attribute_map(before).insert(key@, value@));
                    }
                    k = k + 1;
                }
                assert(pv.take(pairs@.len() as int) =~= pv);
                pairs.clear();
                let element = XmlElement { name, attributes: sorted, text: String::new(), children: Vec::new() };
                assert(xml_wf(element));
                assert(trees_of(element.children@) =~= Seq::<XmlTree>::empty());
                assert(tree_of(element) == XmlTree { name: name@, attributes: start_map(pv), text: Seq::empty(), children: Seq::empty() });
                if empty {
                    attach(&mut stack, &mut root, element)?;
                } else {
                    stack.push(element);
                    proof {
                        lemma_trees_push(stack0, element);
                    }
                    assert forall|i: int| 0 <= i < stack@.len() implies xml_wf(#[trigger] stack@[i]) by {
                        if i < stack@.len() - 1 {
                            assert(stack@[i] == stack@.drop_last()[i]);
                        }
                    }
                }
            },
            XmlEvent::End => {
                let element = match stack.pop() {
                    Some(element) => element,
                    None => {
                        return Err(String::from_str("unexpected XML closing element"));
                    },
                };
                proof {
                    lemma_trees_last(stack0);
                    assert(stack0.drop_last() =~= stack@);
                }
                attach(&mut stack, &mut root, element)?;
            },
            XmlEvent::Text(text) => {
                let n = stack.len();
                if n > 0 {
                    let ghost before = stack@;
                    let mut parent = stack.pop().unwrap();
                    let ghost old_parent = parent;
                    assert(xml_wf(before[n - 1]));
                    append_text(&mut parent.text, text.as_str());
                    assert(xml_wf(parent));
                    stack.push(parent);
                    proof {
                        lemma_trees_last(before);
                        assert(before.drop_last().push(parent) =~= stack@);
                        lemma_trees_push(before.drop_last(), parent);
                        assert(attribute_map(parent.attributes@) =~= attribute_map(old_parent.attributes@));
                        assert(tree_of(parent) == XmlTree { text: appended(tree_of(old_parent).text, text@), ..tree_of(old_parent) });
                    }
                    assert forall|i: int| 0 <= i < stack@.len() implies xml_wf(#[trigger] stack@[i]) by {
                        if i < n - 1 {
                            assert(stack@[i] == before[i]);
                        }
                    }
                }
            },
            XmlEvent::DocType => {
                return Err(String::from_str("XML DOCTYPE declarations are not allowed"));
            },
            XmlEvent::Eof => {
                if stack.len() > 0 {
                    return Err(String::from_str("unclosed XML element"));
                }
                return match root {
                    Some(element) => Ok(element),
                    None => Err(String::from_str("XML document has no root element")),
                };
            },
            XmlEvent::Skip => {},
        }
    }
}

} // verus!
