use vstd::prelude::*;
use vstd::view::View as _;
use vstd::string::StringSliceAdditionalSpecFns;
use crate::text::{lower, to_lower, usize_to_string, decimal, chars_of, string_of, seq_eq, starts_with, ends_with, has_prefix, has_suffix, cat, cat3, cat5};
use crate::chars::{is_whitespace, unicode_whitespace};
use crate::inspect::{debug_quoted, debug_str};
use crate::xml::{XmlElement, parse_xml, text_le, text_le_exec, attribute, attribute_value, names_sorted, xml_wf};

verus! {

/// A native Archi model: its name, identity, format version, purpose and folders.
#[derive(Debug)]
pub struct ArchiNativeModel {
    pub name: String,
    pub id: String,
    pub version: String,
    pub purpose: Option<String>,
    pub attributes: Vec<(String, String)>,
    pub folders: Vec<ArchiFolder>,
}

/// A top-level folder of a native model with the elements, relationships and diagrams in it.
#[derive(Debug)]
pub struct ArchiFolder {
    pub name: String,
    pub id: String,
    pub folder_type: String,
    pub attributes: Vec<(String, String)>,
    pub elements: Vec<ArchiElement>,
    pub relationships: Vec<ArchiRelationship>,
    pub diagrams: Vec<ArchiDiagram>,
}

/// A model element of a native model.
#[derive(Debug)]
pub struct ArchiElement {
    pub id: String,
    pub name: String,
    pub description: Option<String>,
    pub native_type: String,
    pub attributes: Vec<(String, String)>,
}

/// A relationship between two model elements of a native model.
#[derive(Debug)]
pub struct ArchiRelationship {
    pub id: String,
    pub name: String,
    pub native_type: String,
    pub source: String,
    pub target: String,
    pub attributes: Vec<(String, String)>,
}

/// A diagram of a native model.
#[derive(Debug)]
pub struct ArchiDiagram {
    pub id: String,
    pub name: String,
    pub attributes: Vec<(String, String)>,
    pub children: Vec<ArchiDiagramChild>,
}

/// What a diagram holds: an object that shows a model element, or a visual group.
#[derive(Debug)]
pub enum ArchiDiagramChild {
    Object(ArchiDiagramObject),
    Group(ArchiGroup),
}

/// A diagram object that shows a model element, with its outgoing connections.
#[derive(Debug)]
pub struct ArchiDiagramObject {
    pub id: String,
    pub element: String,
    pub bounds: Option<ArchiBounds>,
    pub target_connections: Vec<String>,
    pub attributes: Vec<(String, String)>,
    pub connections: Vec<ArchiConnection>,
    pub children: Vec<ArchiDiagramChild>,
}

/// A visual group of a diagram.
#[derive(Debug)]
pub struct ArchiGroup {
    pub id: String,
    pub name: String,
    pub bounds: Option<ArchiBounds>,
    pub attributes: Vec<(String, String)>,
    pub children: Vec<ArchiDiagramChild>,
}

/// Position and size of a diagram node.
#[derive(Clone, Copy, Debug, PartialEq, Eq, Structural)]
pub struct ArchiBounds {
    pub x: i64,
    pub y: i64,
    pub width: i64,
    pub height: i64,
}

/// A diagram connection that shows a relationship between two diagram objects.
#[derive(Debug)]
pub struct ArchiConnection {
    pub id: String,
    pub source: String,
    pub target: String,
    pub relationship: String,
    pub attributes: Vec<(String, String)>,
    pub bendpoints: Vec<Vec<(String, String)>>,
}

/// What is kept beside a projected workspace: the format version, the hash of the projection
/// and the native XML it was projected from.
#[derive(Debug)]
pub struct ArchiSidecar {
    pub format_version: u32,
    pub projection_hash: String,
    pub source_xml: String,
}

/// The value of attribute `name` of `e`, if it has one.
pub open spec fn attr_of(e: XmlElement, name: Seq<char>) -> Option<Seq<char>> {
    attribute_value(e.attributes@, name)
}

/// The value of attribute `name` of `e`, or the empty text.
pub open spec fn attr_text(e: XmlElement, name: Seq<char>) -> Seq<char> {
    match attr_of(e, name) {
        Some(v) => v,
        None => Seq::empty(),
    }
}

/// The value of attribute `name`, or the empty text.
pub fn attr(e: &XmlElement, name: &str) -> (r: String)
    ensures
        r@ == attr_text(*e, name@),
{
    match attribute(&e.attributes, name) {
        Some(v) => v.clone(),
        None => String::new(),
    }
}

/// The message for a required attribute that is absent.
pub open spec fn missing_attr_message(e: XmlElement, name: Seq<char>) -> Seq<char> {
    e.name@ + " is missing required attribute '"@ + name + "'"@
}

/// The value of attribute `name`, which must be present.
pub fn required_attr(e: &XmlElement, name: &str) -> (r: Result<String, String>)
    ensures
        match attr_of(*e, name@) {
            Some(v) => r matches Ok(s) && s@ == v,
            None => r matches Err(m) && m@ == missing_attr_message(*e, name@),
        },
{
    match attribute(&e.attributes, name) {
        Some(v) => Ok(v.clone()),
        None => {
            let head = cat3(e.name.as_str(), " is missing required attribute '", name);
            Err(cat(head.as_str(), "'"))
        },
    }
}

/// The characters of `s` from index `k` on.
fn suffix_from(s: &str, k: usize) -> (r: String)
    requires
        k <= s@.len(),
    ensures
        r@ == s@.skip(k as int),
{
    let v = chars_of(s);
    let mut out: Vec<char> = Vec::new();
    let mut i = k;
    while i < v.len()
        invariant
            v@ == s@,
            k <= i <= v@.len(),
            out@ == v@.subrange(k as int, i as int),
        decreases v.len() - i,
    {
        out.push(v[i]);
        i = i + 1;
        assert(out@ =~= v@.subrange(k as int, i as int));
    }
    assert(v@.subrange(k as int, v@.len() as int) =~= s@.skip(k as int));
    string_of(out.as_slice())
}

/// The `xsi:type` of `e` without its `archimate:` prefix.
pub open spec fn native_type_of(e: XmlElement) -> Seq<char> {
    let t = attr_text(e, "xsi:type"@);
    if has_prefix(t, "archimate:"@) {
        t.skip("archimate:"@.len() as int)
    } else {
        t
    }
}

/// The native type of `e`: its `xsi:type` without the `archimate:` prefix.
pub fn native_type(e: &XmlElement) -> (r: String)
    ensures
        r@ == native_type_of(*e),
{
    let t = attr(e, "xsi:type");
    if starts_with(t.as_str(), "archimate:") {
        proof {
            reveal_strlit("archimate:");
        }
        suffix_from(t.as_str(), 10)
    } else {
        t
    }
}

/// The text of the first child named `name` whose text is not empty.
pub open spec fn first_text(children: Seq<XmlElement>, name: Seq<char>) -> Option<Seq<char>>
    decreases children.len(),
{
    if children.len() == 0 {
        None
    } else if children[0].name@ == name && children[0].text@.len() > 0 {
        Some(children[0].text@)
    } else {
        first_text(children.drop_first(), name)
    }
}

/// The text of the first child of `e` named `name` that has text.
pub fn child_text(e: &XmlElement, name: &str) -> (r: Option<String>)
    ensures
        match r {
            Some(t) => first_text(e.children@, name@) == Some(t@),
            None => first_text(e.children@, name@) is None,
        },
{
    let mut i: usize = 0;
    assert(e.children@.skip(0) =~= e.children@);
    while i < e.children.len()
        invariant
            i <= e.children@.len(),
            first_text(e.children@, name@) == first_text(e.children@.skip(i as int), name@),
        decreases e.children.len() - i,
    {
        assert(e.children@.skip(i as int).drop_first() =~= e.children@.skip(i + 1));
        let child = &e.children[i];
        if seq_eq(child.name.as_str(), name) && child.text.as_str().unicode_len() > 0 {
            return Some(child.text.clone());
        }
        i = i + 1;
    }
    None
}

/// A copy of a list of attributes.
pub fn copy_attributes(a: &Vec<(String, String)>) -> (r: Vec<(String, String)>)
    ensures
        r@ == a@,
{
    let mut r: Vec<(String, String)> = Vec::new();
    let mut i: usize = 0;
    while i < a.len()
        invariant
            i <= a@.len(),
            r@ == a@.take(i as int),
        decreases a.len() - i,
    {
        let pair = (a[i].0.clone(), a[i].1.clone());
        r.push(pair);
        i = i + 1;
        assert(r@ =~= a@.take(i as int));
    }
    assert(a@.take(a@.len() as int) =~= a@);
    r
}

/// What `str::parse::<i64>` makes of a text.
pub enum IntParse {
    Value(int),
    Empty,
    InvalidDigit,
    PosOverflow,
    NegOverflow,
}

/// Reads the digits left to right onto `acc`: the first character that is not a digit, or
/// the first step out of the range of `i64`, ends the reading with its error.
pub open spec fn scan_digits(digits: Seq<char>, negative: bool, acc: int) -> IntParse
    decreases digits.len(),
{
    if digits.len() == 0 {
        IntParse::Value(if negative { -acc } else { acc })
    } else if !('0' <= digits[0] && digits[0] <= '9') {
        IntParse::InvalidDigit
    } else {
        let next = acc * 10 + (digits[0] as int - '0' as int);
        if !negative && next > 0x7fff_ffff_ffff_ffff {
            IntParse::PosOverflow
        } else if negative && next > 0x8000_0000_0000_0000 {
            IntParse::NegOverflow
        } else {
            scan_digits(digits.drop_first(), negative, next)
        }
    }
}

/// `str::parse::<i64>`: an optional sign, then the digits.
pub open spec fn parsed_i64(s: Seq<char>) -> IntParse {
    if s.len() == 0 {
        IntParse::Empty
    } else if (s[0] == '+' || s[0] == '-') && s.len() == 1 {
        IntParse::InvalidDigit
    } else if s[0] == '+' {
        scan_digits(s.drop_first(), false, 0)
    } else if s[0] == '-' {
        scan_digits(s.drop_first(), true, 0)
    } else {
        scan_digits(s, false, 0)
    }
}

/// The message that `ParseIntError` displays for a failed parse.
pub open spec fn int_error_text(p: IntParse) -> Seq<char> {
    match p {
        IntParse::Empty => "cannot parse integer from empty string"@,
        IntParse::InvalidDigit => "invalid digit found in string"@,
        IntParse::PosOverflow => "number too large to fit in target type"@,
        IntParse::NegOverflow => "number too small to fit in target type"@,
        IntParse::Value(_) => Seq::empty(),
    }
}

/// `str::parse::<i64>` on the characters: the value, or the error message.
pub fn parse_i64(s: &str) -> (r: Result<i64, String>)
    ensures
        match parsed_i64(s@) {
            IntParse::Value(v) => r matches Ok(n) && n == v,
            p => r matches Err(m) && m@ == int_error_text(p),
        },
{
    let v = chars_of(s);
    let n = v.len();
    if n == 0 {
        return Err(String::from_str("cannot parse integer from empty string"));
    }
    if (v[0] == '+' || v[0] == '-') && n == 1 {
        return Err(String::from_str("invalid digit found in string"));
    }
    let negative = v[0] == '-';
    let start: usize = if v[0] == '+' || v[0] == '-' { 1 } else { 0 };
    let ghost p = parsed_i64(s@);
    assert(v@.skip(start as int) =~= if start == 1 { s@.drop_first() } else { s@ });
    let mut acc: u64 = 0;
    let mut i = start;
    while i < n
        invariant
            v@ == s@,
            n == v@.len(),
            start <= i <= n,
            p == parsed_i64(s@),
            p == scan_digits(v@.skip(i as int), negative, acc as int),
            acc <= 0x8000_0000_0000_0000,
            !negative ==> acc <= 0x7fff_ffff_ffff_ffff,
            negative == (s@[0] == '-'),
        decreases n - i,
    {
        let c = v[i];
        assert(v@.skip(i as int)[0] == c);
        assert(v@.skip(i as int).drop_first() =~= v@.skip(i + 1));
        if c < '0' || c > '9' {
            return Err(String::from_str("invalid digit found in string"));
        }
        let d: u64 = (c as u32 - '0' as u32) as u64;
        if acc > 922_337_203_685_477_580 || (acc == 922_337_203_685_477_580 && d > 8) {
            if negative {
                return Err(String::from_str("number too small to fit in target type"));
            } else {
                return Err(String::from_str("number too large to fit in target type"));
            }
        }
        let next = acc * 10 + d;
        if !negative && next > 0x7fff_ffff_ffff_ffff {
            return Err(String::from_str("number too large to fit in target type"));
        }
        acc = next;
        i = i + 1;
    }
    assert(v@.skip(n as int).len() == 0);
    if negative {
        if acc == 0x8000_0000_0000_0000 {
            Ok(i64::MIN)
        } else {
            Ok(-(acc as i64))
        }
    } else {
        Ok(acc as i64)
    }
}

/// What `number` gives: the integer value of attribute `name`, or the message.
pub open spec fn number_of(e: XmlElement, name: Seq<char>) -> Result<int, Seq<char>> {
    match attr_of(e, name) {
        None => Err(missing_attr_message(e, name)),
        Some(v) => match parsed_i64(v) {
            IntParse::Value(n) => Ok(n),
            p => Err("invalid "@ + e.name@ + "."@ + name + ": "@ + int_error_text(p)),
        },
    }
}

/// The integer value of attribute `name`, which must be present.
pub fn number(e: &XmlElement, name: &str) -> (r: Result<i64, String>)
    ensures
        match number_of(*e, name@) {
            Ok(v) => r matches Ok(n) && n == v,
            Err(t) => r matches Err(m) && m@ == t,
        },
{
    let text = required_attr(e, name)?;
    match parse_i64(text.as_str()) {
        Ok(n) => Ok(n),
        Err(error) => {
            let head = cat5("invalid ", e.name.as_str(), ".", name, ": ");
            Err(cat(head.as_str(), error.as_str()))
        },
    }
}

/// The whitespace-separated words of `s`, as `str::split_whitespace` gives them.
pub open spec fn words(s: Seq<char>) -> Seq<Seq<char>>
    decreases s.len(),
{
    if s.len() == 0 {
        Seq::empty()
    } else {
        let w = words(s.drop_last());
        if unicode_whitespace(s.last()) {
            w
        } else if s.len() > 1 && !unicode_whitespace(s[s.len() - 2]) {
            w.update(w.len() - 1, w.last().push(s.last()))
        } else {
            w.push(seq![s.last()])
        }
    }
}

/// The views of a list of strings.
pub open spec fn views(v: Seq<String>) -> Seq<Seq<char>> {
    Seq::new(v.len(), |k: int| v[k]@)
}

/// `str::split_whitespace`, collected.
pub fn split_words(s: &str) -> (r: Vec<String>)
    ensures
        views(r@) == words(s@),
{
    let v = chars_of(s);
    let mut out: Vec<String> = Vec::new();
    let mut cur: Vec<char> = Vec::new();
    let mut in_word = false;
    let mut i: usize = 0;
    assert(views(out@) =~= Seq::<Seq<char>>::empty());
    assert(v@.take(0) =~= Seq::<char>::empty());
    while i < v.len()
        invariant
            v@ == s@,
            i <= v@.len(),
            in_word == (i > 0 && !unicode_whitespace(v@[i - 1])),
            in_word ==> words(v@.take(i as int)) == views(out@).push(cur@),
            !in_word ==> words(v@.take(i as int)) == views(out@),
            !in_word ==> cur@.len() == 0,
        decreases v.len() - i,
    {
        let c = v[i];
        let ghost before = v@.take(i as int);
        let ghost out0 = out@;
        let ghost cur0 = cur@;
        assert(v@.take(i + 1).drop_last() =~= before);
        assert(v@.take(i + 1).last() == c);
        if i > 0 {
            assert(v@.take(i + 1)[i - 1] == v@[i - 1]);
        }
        if is_whitespace(c) {
            if in_word {
                let word = string_of(cur.as_slice());
                out.push(word);
                cur = Vec::new();
                assert(views(out@) =~= views(out0).push(cur0));
            }
            in_word = false;
        } else {
            cur.push(c);
            if in_word {
                assert(views(out0).push(cur0).update(views(out0).len() as int, cur0.push(c))
                    =~= views(out@).push(cur@));
            } else {
                assert(cur@ =~= seq![c]);
            }
            in_word = true;
        }
        i = i + 1;
    }
    assert(v@.take(v@.len() as int) =~= v@);
    if in_word {
        let ghost out0 = out@;
        let word = string_of(cur.as_slice());
        out.push(word);
        assert(views(out@) =~= views(out0).push(cur@));
    }
    out
}

/// The first child named `name`.
pub open spec fn first_named(children: Seq<XmlElement>, name: Seq<char>) -> Option<XmlElement>
    decreases children.len(),
{
    if children.len() == 0 {
        None
    } else if children[0].name@ == name {
        Some(children[0])
    } else {
        first_named(children.drop_first(), name)
    }
}

/// The children named `name`, in order.
pub open spec fn named(children: Seq<XmlElement>, name: Seq<char>) -> Seq<XmlElement>
    decreases children.len(),
{
    if children.len() == 0 {
        Seq::empty()
    } else if children.last().name@ == name {
        named(children.drop_last(), name).push(children.last())
    } else {
        named(children.drop_last(), name)
    }
}

/// What `parse_bounds` gives: nothing without a `bounds` child, else its four integers
/// `x`, `y`, `width` and `height`, or the message of the first that fails.
pub open spec fn bounds_of(e: XmlElement) -> Result<Option<(int, int, int, int)>, Seq<char>> {
    match first_named(e.children@, "bounds"@) {
        None => Ok(None),
        Some(b) => match number_of(b, "x"@) {
            Err(m) => Err(m),
            Ok(x) => match number_of(b, "y"@) {
                Err(m) => Err(m),
                Ok(y) => match number_of(b, "width"@) {
                    Err(m) => Err(m),
                    Ok(w) => match number_of(b, "height"@) {
                        Err(m) => Err(m),
                        Ok(h) => Ok(Some((x, y, w, h))),
                    },
                },
            },
        },
    }
}

/// The bounds of a diagram node, read from its first `bounds` child.
pub fn parse_bounds(e: &XmlElement) -> (r: Result<Option<ArchiBounds>, String>)
    ensures
        match bounds_of(*e) {
            Ok(None) => r matches Ok(None),
            Ok(Some(t)) => r matches Ok(Some(b)) && b.x == t.0 && b.y == t.1 && b.width == t.2
                && b.height == t.3,
            Err(t) => r matches Err(m) && m@ == t,
        },
{
    let mut i: usize = 0;
    assert(e.children@.skip(0) =~= e.children@);
    while i < e.children.len()
        invariant
            i <= e.children@.len(),
            first_named(e.children@, "bounds"@) == first_named(e.children@.skip(i as int), "bounds"@),
        decreases e.children.len() - i,
    {
        assert(e.children@.skip(i as int).drop_first() =~= e.children@.skip(i + 1));
        let b = &e.children[i];
        if seq_eq(b.name.as_str(), "bounds") {
            let x = number(b, "x")?;
            let y = number(b, "y")?;
            let width = number(b, "width")?;
            let height = number(b, "height")?;
            return Ok(Some(ArchiBounds { x, y, width, height }));
        }
        i = i + 1;
    }
    Ok(None)
}

/// Whether every one of the four attributes of a connection is present.
pub open spec fn connection_ok(e: XmlElement) -> bool {
    &&& attr_of(e, "id"@) is Some
    &&& attr_of(e, "source"@) is Some
    &&& attr_of(e, "target"@) is Some
    &&& attr_of(e, "archimateRelationship"@) is Some
}

/// What a connection read from `e` holds: its identifiers and attributes, and the attributes of
/// each of its bendpoints in order.
pub open spec fn connection_read(e: XmlElement, c: ArchiConnection) -> bool {
    &&& attr_of(e, "id"@) == Some(c.id@)
    &&& attr_of(e, "source"@) == Some(c.source@)
    &&& attr_of(e, "target"@) == Some(c.target@)
    &&& attr_of(e, "archimateRelationship"@) == Some(c.relationship@)
    &&& c.attributes@ == e.attributes@
    &&& c.bendpoints@.len() == named(e.children@, "bendpoint"@).len()
    &&& forall|k: int| 0 <= k < c.bendpoints@.len()
        ==> (#[trigger] c.bendpoints@[k])@ == named(e.children@, "bendpoint"@)[k].attributes@
}

/// Whether connections were read, in order, from the elements `es`.
pub open spec fn connections_read(es: Seq<XmlElement>, cs: Seq<ArchiConnection>) -> bool {
    cs.len() == es.len() && forall|k: int| 0 <= k < cs.len() ==> connection_read(es[k], #[trigger] cs[k])
}

/// Whether read bounds are those that `bounds_of` gives.
pub open spec fn bounds_read(b: Result<Option<(int, int, int, int)>, Seq<char>>, read: Option<ArchiBounds>) -> bool {
    match b {
        Ok(None) => read is None,
        Ok(Some(t)) => read matches Some(x) && x.x == t.0 && x.y == t.1 && x.width == t.2 && x.height == t.3,
        Err(_) => false,
    }
}

/// Whether diagram children were read, in order, from the supported elements of `es`.
pub open spec fn children_read(es: Seq<XmlElement>, cs: Seq<ArchiDiagramChild>) -> bool
    decreases es, 0int,
{
    if es.len() == 0 {
        cs.len() == 0
    } else if supported(es.last()) {
        cs.len() > 0 && children_read(es.drop_last(), cs.drop_last()) && child_read(es.last(), cs.last())
    } else {
        children_read(es.drop_last(), cs)
    }
}

/// What a diagram child read from `e` holds: a group or an object with its fields, bounds,
/// connections and the children below it.
pub open spec fn child_read(e: XmlElement, c: ArchiDiagramChild) -> bool
    decreases e, 1int,
{
    match c {
        ArchiDiagramChild::Group(g) => {
            &&& native_type_of(e) == "Group"@
            &&& attr_of(e, "id"@) == Some(g.id@)
            &&& g.name@ == attr_text(e, "name"@)
            &&& g.attributes@ == e.attributes@
            &&& bounds_read(bounds_of(e), g.bounds)
            &&& children_read(e.children@, g.children@)
        },
        ArchiDiagramChild::Object(o) => {
            &&& native_type_of(e) != "Group"@
            &&& attr_of(e, "id"@) == Some(o.id@)
            &&& attr_of(e, "archimateElement"@) == Some(o.element@)
            &&& o.attributes@ == e.attributes@
            &&& bounds_read(bounds_of(e), o.bounds)
            &&& views(o.target_connections@) == words(attr_text(e, "targetConnections"@))
            &&& connections_read(named(e.children@, "sourceConnection"@), o.connections@)
            &&& children_read(e.children@, o.children@)
        },
    }
}

/// A diagram connection read from a `sourceConnection` element.
pub fn parse_connection(e: &XmlElement) -> (r: Result<ArchiConnection, String>)
    ensures
        r is Ok <==> connection_ok(*e),
        r matches Ok(c) ==> connection_read(*e, c),
        r matches Err(m) ==> m@ == missing_attr_message(*e, "id"@) || m@ == missing_attr_message(*e, "source"@)
            || m@ == missing_attr_message(*e, "target"@)
            || m@ == missing_attr_message(*e, "archimateRelationship"@),
{
    let id = required_attr(e, "id")?;
    let source = required_attr(e, "source")?;
    let target = required_attr(e, "target")?;
    let relationship = required_attr(e, "archimateRelationship")?;
    let mut bendpoints: Vec<Vec<(String, String)>> = Vec::new();
    let mut i: usize = 0;
    while i < e.children.len()
        invariant
            i <= e.children@.len(),
            bendpoints@.len() == named(e.children@.take(i as int), "bendpoint"@).len(),
            forall|k: int| 0 <= k < bendpoints@.len()
                ==> (#[trigger] bendpoints@[k])@ == named(e.children@.take(i as int), "bendpoint"@)[k].attributes@,
        decreases e.children.len() - i,
    {
        assert(e.children@.take(i + 1).drop_last() =~= e.children@.take(i as int));
        let child = &e.children[i];
        if seq_eq(child.name.as_str(), "bendpoint") {
            bendpoints.push(copy_attributes(&child.attributes));
        }
        i = i + 1;
    }
    assert(e.children@.take(e.children@.len() as int) =~= e.children@);
    Ok(ArchiConnection { id, source, target, relationship, attributes: copy_attributes(&e.attributes), bendpoints })
}

/// A diagram child that is read: a `child` element of type `DiagramObject` or `Group`.
pub open spec fn supported(e: XmlElement) -> bool {
    e.name@ == "child"@ && (native_type_of(e) == "DiagramObject"@ || native_type_of(e) == "Group"@)
}

/// Whether `e` is a diagram child that is read.
pub fn is_supported_diagram_child(e: &XmlElement) -> (r: bool)
    ensures
        r == supported(*e),
{
    if !seq_eq(e.name.as_str(), "child") {
        return false;
    }
    let t = native_type(e);
    seq_eq(t.as_str(), "DiagramObject") || seq_eq(t.as_str(), "Group")
}

/// How many of `children` are read as diagram children.
pub open spec fn supported_count(children: Seq<XmlElement>) -> nat
    decreases children.len(),
{
    if children.len() == 0 {
        0
    } else {
        supported_count(children.drop_last()) + if supported(children.last()) { 1nat } else { 0nat }
    }
}

/// Whether a diagram child, with everything below it, reads without error: its supported
/// children do; a group has an `id`; an object has an `id`, an `archimateElement` and complete
/// source connections; both have readable bounds.
pub open spec fn child_ok(e: XmlElement) -> bool
    decreases e,
{
    &&& forall|i: int| 0 <= i < e.children@.len() && supported(#[trigger] e.children@[i]) ==> child_ok(e.children@[i])
    &&& attr_of(e, "id"@) is Some
    &&& bounds_of(e) is Ok
    &&& native_type_of(e) != "Group"@ ==> {
        &&& attr_of(e, "archimateElement"@) is Some
        &&& forall|i: int| 0 <= i < e.children@.len() && (#[trigger] e.children@[i]).name@ == "sourceConnection"@
            ==> connection_ok(e.children@[i])
    }
}

/// Reads the supported children of `e`.
fn parse_children(e: &XmlElement) -> (r: Result<Vec<ArchiDiagramChild>, String>)
    ensures
        r is Ok <==> forall|i: int| 0 <= i < e.children@.len() && supported(#[trigger] e.children@[i]) ==> child_ok(e.children@[i]),
        r matches Ok(v) ==> v@.len() == supported_count(e.children@) && children_read(e.children@, v@),
    decreases e, 1int,
{
    let mut out: Vec<ArchiDiagramChild> = Vec::new();
    let mut i: usize = 0;
    while i < e.children.len()
        invariant
            i <= e.children@.len(),
            forall|j: int| 0 <= j < i && supported(#[trigger] e.children@[j]) ==> child_ok(e.children@[j]),
            out@.len() == supported_count(e.children@.take(i as int)),
            children_read(e.children@.take(i as int), out@),
        decreases e.children.len() - i,
    {
        assert(e.children@.take(i + 1).drop_last() =~= e.children@.take(i as int));
        assert(e.children@.take(i + 1).last() == e.children@[i as int]);
        let child = &e.children[i];
        if is_supported_diagram_child(child) {
            match parse_diagram_child(child) {
                Ok(c) => {
                    let ghost before = out@;
                    out.push(c);
                    assert(out@.drop_last() =~= before);
                },
                Err(m) => {
                    return Err(m);
                },
            }
        }
        i = i + 1;
    }
    assert(e.children@.take(e.children@.len() as int) =~= e.children@);
    Ok(out)
}

/// Reads a diagram child: a group, or an object with its connections, each with the
/// supported children below it.
pub fn parse_diagram_child(e: &XmlElement) -> (r: Result<ArchiDiagramChild, String>)
    ensures
        r is Ok <==> child_ok(*e),
        r matches Ok(c) ==> child_read(*e, c),
    decreases e, 2int,
{
    let children = parse_children(e)?;
    let t = native_type(e);
    if seq_eq(t.as_str(), "Group") {
        let id = required_attr(e, "id")?;
        let name = attr(e, "name");
        let bounds = parse_bounds(e)?;
        return Ok(ArchiDiagramChild::Group(ArchiGroup { id, name, bounds, attributes: copy_attributes(&e.attributes), children }));
    }
    let id = required_attr(e, "id")?;
    let element = required_attr(e, "archimateElement")?;
    let bounds = parse_bounds(e)?;
    let target_connections = split_words(attr(e, "targetConnections").as_str());
    let mut connections: Vec<ArchiConnection> = Vec::new();
    let mut i: usize = 0;
    while i < e.children.len()
        invariant
            i <= e.children@.len(),
            forall|j: int| 0 <= j < i && (#[trigger] e.children@[j]).name@ == "sourceConnection"@ ==> connection_ok(e.children@[j]),
            connections_read(named(e.children@.take(i as int), "sourceConnection"@), connections@),
            native_type_of(*e) != "Group"@,
        decreases e.children.len() - i,
    {
        assert(e.children@.take(i + 1).drop_last() =~= e.children@.take(i as int));
        assert(e.children@.take(i + 1).last() == e.children@[i as int]);
        let child = &e.children[i];
        if seq_eq(child.name.as_str(), "sourceConnection") {
            match parse_connection(child) {
                Ok(c) => {
                    let ghost before = connections@;
                    let ghost es = named(e.children@.take(i as int), "sourceConnection"@);
                    connections.push(c);
                    assert forall|k: int| 0 <= k < connections@.len() implies connection_read(
                        named(e.children@.take(i + 1), "sourceConnection"@)[k], #[trigger] connections@[k]) by {
                        if k < before.len() {
                            assert(connections@[k] == before[k]);
                            assert(named(e.children@.take(i + 1), "sourceConnection"@)[k] == es[k]);
                        }
                    }
                },
                Err(m) => {
                    assert(!child_ok(*e)) by {
                        assert(e.children@[i as int].name@ == "sourceConnection"@);
                    }
                    return Err(m);
                },
            }
        }
        i = i + 1;
    }
    assert(e.children@.take(e.children@.len() as int) =~= e.children@);
    Ok(ArchiDiagramChild::Object(ArchiDiagramObject {
        id,
        element,
        bounds,
        target_connections,
        attributes: copy_attributes(&e.attributes),
        connections,
        children,
    }))
}

/// Whether a diagram element reads without error.
pub open spec fn diagram_ok(e: XmlElement) -> bool {
    &&& attr_of(e, "id"@) is Some
    &&& forall|i: int| 0 <= i < e.children@.len() && supported(#[trigger] e.children@[i]) ==> child_ok(e.children@[i])
}

/// A diagram read from an `ArchimateDiagramModel` element.
pub fn parse_diagram(e: &XmlElement) -> (r: Result<ArchiDiagram, String>)
    ensures
        r is Ok <==> diagram_ok(*e),
        r matches Ok(d) ==> {
            &&& attr_of(*e, "id"@) == Some(d.id@)
            &&& d.name@ == attr_text(*e, "name"@)
            &&& d.attributes@ == e.attributes@
            &&& d.children@.len() == supported_count(e.children@)
        },
{
    let id = required_attr(e, "id")?;
    let name = attr(e, "name");
    let attributes = copy_attributes(&e.attributes);
    let children = parse_children(e)?;
    Ok(ArchiDiagram { id, name, attributes, children })
}

/// Whether a model element, relationship or diagram reads without error.
pub open spec fn element_ok(e: XmlElement) -> bool {
    let t = native_type_of(e);
    if t == "ArchimateDiagramModel"@ {
        diagram_ok(e)
    } else if has_suffix(t, "Relationship"@) {
        attr_of(e, "id"@) is Some && attr_of(e, "source"@) is Some && attr_of(e, "target"@) is Some
    } else {
        attr_of(e, "id"@) is Some
    }
}

/// Whether a folder, with every `element` child in it, reads without error.
pub open spec fn folder_ok(f: XmlElement) -> bool {
    &&& attr_of(f, "id"@) is Some
    &&& attr_of(f, "type"@) is Some
    &&& forall|i: int| 0 <= i < f.children@.len() && (#[trigger] f.children@[i]).name@ == "element"@
        ==> element_ok(f.children@[i])
}

/// A folder: each `element` child becomes a diagram, a relationship or a model element by
/// its native type.
pub fn parse_folder(f: &XmlElement) -> (r: Result<ArchiFolder, String>)
    ensures
        r is Ok <==> folder_ok(*f),
        r matches Ok(p) ==> {
            &&& p.name@ == attr_text(*f, "name"@)
            &&& attr_of(*f, "id"@) == Some(p.id@)
            &&& attr_of(*f, "type"@) == Some(p.folder_type@)
            &&& p.attributes@ == f.attributes@
            &&& p.elements@.len() + p.relationships@.len() + p.diagrams@.len() == named(f.children@, "element"@).len()
        },
{
    let name = attr(f, "name");
    let id = required_attr(f, "id")?;
    let folder_type = required_attr(f, "type")?;
    let mut elements: Vec<ArchiElement> = Vec::new();
    let mut relationships: Vec<ArchiRelationship> = Vec::new();
    let mut diagrams: Vec<ArchiDiagram> = Vec::new();
    let mut i: usize = 0;
    while i < f.children.len()
        invariant
            i <= f.children@.len(),
            attr_of(*f, "id"@) is Some,
            attr_of(*f, "type"@) is Some,
            forall|j: int| 0 <= j < i && (#[trigger] f.children@[j]).name@ == "element"@ ==> element_ok(f.children@[j]),
            elements@.len() + relationships@.len() + diagrams@.len() == named(f.children@.take(i as int), "element"@).len(),
        decreases f.children.len() - i,
    {
        assert(f.children@.take(i + 1).drop_last() =~= f.children@.take(i as int));
        let e = &f.children[i];
        if seq_eq(e.name.as_str(), "element") {
            let t = native_type(e);
            if seq_eq(t.as_str(), "ArchimateDiagramModel") {
                match parse_diagram(e) {
                    Ok(d) => diagrams.push(d),
                    Err(m) => {
                        assert(!folder_ok(*f)) by {
                            assert(f.children@[i as int].name@ == "element"@);
                        }
                        return Err(m);
                    },
                }
            } else if ends_with(t.as_str(), "Relationship") {
                let fields = (required_attr(e, "id"), required_attr(e, "source"), required_attr(e, "target"));
                match fields {
                    (Ok(rid), Ok(source), Ok(target)) => {
                        let name = attr(e, "name");
                        let attributes = copy_attributes(&e.attributes);
                        relationships.push(ArchiRelationship { id: rid, name, native_type: t, source, target, attributes });
                    },
                    (Err(m), _, _) | (_, Err(m), _) | (_, _, Err(m)) => {
                        assert(!folder_ok(*f)) by {
                            assert(f.children@[i as int].name@ == "element"@);
                        }
                        return Err(m);
                    },
                }
            } else {
                match required_attr(e, "id") {
                    Ok(eid) => {
                        let name = attr(e, "name");
                        let description = child_text(e, "documentation");
                        let attributes = copy_attributes(&e.attributes);
                        elements.push(ArchiElement { id: eid, name, description, native_type: t, attributes });
                    },
                    Err(m) => {
                        assert(!folder_ok(*f)) by {
                            assert(f.children@[i as int].name@ == "element"@);
                        }
                        return Err(m);
                    },
                }
            }
        }
        i = i + 1;
    }
    assert(f.children@.take(f.children@.len() as int) =~= f.children@);
    Ok(ArchiFolder { name, id, folder_type, attributes: copy_attributes(&f.attributes), elements, relationships, diagrams })
}

/// Whether a document root reads as a native model.
pub open spec fn model_ok(root: XmlElement) -> bool {
    &&& root.name@ == "archimate:model"@
    &&& forall|i: int| 0 <= i < root.children@.len() && (#[trigger] root.children@[i]).name@ == "folder"@
        ==> folder_ok(root.children@[i])
    &&& attr_of(root, "id"@) is Some
    &&& attr_of(root, "version"@) is Some
}

/// What a native model read from `root` holds, beside its folders.
pub open spec fn model_fields(root: XmlElement, m: ArchiNativeModel) -> bool {
    &&& m.name@ == attr_text(root, "name"@)
    &&& attr_of(root, "id"@) == Some(m.id@)
    &&& attr_of(root, "version"@) == Some(m.version@)
    &&& match m.purpose {
        Some(p) => first_text(root.children@, "purpose"@) == Some(p@),
        None => first_text(root.children@, "purpose"@) is None,
    }
    &&& m.attributes@ == root.attributes@
    &&& m.folders@.len() == named(root.children@, "folder"@).len()
}

/// A native model read from the root element of an Archi document.
pub fn model_from_xml(root: &XmlElement) -> (r: Result<ArchiNativeModel, String>)
    ensures
        r is Ok <==> model_ok(*root),
        root.name@ != "archimate:model"@ ==> (r matches Err(m) && m@ == "expected archimate:model root, found "@ + root.name@),
        r matches Ok(m) ==> model_fields(*root, m),
{
    if !seq_eq(root.name.as_str(), "archimate:model") {
        return Err(cat("expected archimate:model root, found ", root.name.as_str()));
    }
    let mut folders: Vec<ArchiFolder> = Vec::new();
    let mut i: usize = 0;
    while i < root.children.len()
        invariant
            i <= root.children@.len(),
            root.name@ == "archimate:model"@,
            forall|j: int| 0 <= j < i && (#[trigger] root.children@[j]).name@ == "folder"@ ==> folder_ok(root.children@[j]),
            folders@.len() == named(root.children@.take(i as int), "folder"@).len(),
        decreases root.children.len() - i,
    {
        assert(root.children@.take(i + 1).drop_last() =~= root.children@.take(i as int));
        let f = &root.children[i];
        if seq_eq(f.name.as_str(), "folder") {
            match parse_folder(f) {
                Ok(p) => folders.push(p),
                Err(m) => {
                    assert(!model_ok(*root)) by {
                        assert(root.children@[i as int].name@ == "folder"@);
                    }
                    return Err(m);
                },
            }
        }
        i = i + 1;
    }
    assert(root.children@.take(root.children@.len() as int) =~= root.children@);
    let name = attr(root, "name");
    let id = required_attr(root, "id")?;
    let version = required_attr(root, "version")?;
    let purpose = child_text(root, "purpose");
    Ok(ArchiNativeModel { name, id, version, purpose, attributes: copy_attributes(&root.attributes), folders })
}

/// `root` is the root element of `input` and `m` the native model read from it.
pub open spec fn read_as(input: Seq<char>, root: XmlElement, m: ArchiNativeModel) -> bool {
    &&& crate::xml::xml_outcome(input) == Ok::<crate::xml::XmlTree, Seq<char>>(crate::xml::tree_of(root))
    &&& xml_wf(root)
    &&& model_ok(root)
    &&& model_fields(root, m)
}

/// Reads a native Archi document: its XML, then the model in it.
pub fn parse(input: &str) -> (r: Result<ArchiNativeModel, String>)
    ensures
        r matches Ok(m) ==> exists|root: XmlElement| #[trigger] read_as(input@, root, m),
        match crate::xml::xml_outcome(input@) {
            Err(x) => r matches Err(m) && m@ == x,
            Ok(t) => exists|root: XmlElement| #[trigger] crate::xml::tree_of(root) == t && xml_wf(root)
                && (r is Ok <==> model_ok(root))
                && (r matches Ok(m) ==> model_fields(root, m))
                && (root.name@ != "archimate:model"@ ==> (r matches Err(m) && m@ == "expected archimate:model root, found "@ + root.name@)),
        },
{
    let root = parse_xml(input)?;
    let r = model_from_xml(&root);
    assert(crate::xml::tree_of(root) == crate::xml::tree_of(root));
    if let Ok(m) = &r {
        assert(read_as(input@, root, *m));
    }
    r
}

/// The diagram objects among `children` and below them, in document order.
pub open spec fn objects_in(children: Seq<ArchiDiagramChild>) -> Seq<ArchiDiagramObject>
    decreases children, 0int,
{
    if children.len() == 0 {
        Seq::empty()
    } else {
        objects_in(children.drop_last()) + objects_below(children.last())
    }
}

/// The diagram objects in `c`: itself when it is an object, then those below it.
pub open spec fn objects_below(c: ArchiDiagramChild) -> Seq<ArchiDiagramObject>
    decreases c, 1int,
{
    match c {
        ArchiDiagramChild::Object(o) => seq![o] + objects_in(o.children@),
        ArchiDiagramChild::Group(g) => objects_in(g.children@),
    }
}

/// The objects a list of references points at.
pub open spec fn derefs(s: Seq<&ArchiDiagramObject>) -> Seq<ArchiDiagramObject> {
    Seq::new(s.len(), |k: int| *s[k])
}

/// Collects the diagram objects among `children` and below them.
pub(crate) fn collect_objects<'a>(children: &'a Vec<ArchiDiagramChild>, objects: &mut Vec<&'a ArchiDiagramObject>)
    ensures
        derefs(final(objects)@) == derefs(old(objects)@) + objects_in(children@),
    decreases children@,
{
    let ghost start = derefs(objects@);
    let mut i: usize = 0;
    assert(children@.take(0) =~= Seq::<ArchiDiagramChild>::empty());
    assert(start + Seq::<ArchiDiagramObject>::empty() =~= start);
    while i < children.len()
        invariant
            i <= children@.len(),
            start == derefs(old(objects)@),
            derefs(objects@) == start + objects_in(children@.take(i as int)),
        decreases children.len() - i,
    {
        assert(children@.take(i + 1).drop_last() =~= children@.take(i as int));
        assert(children@.take(i + 1).last() == children@[i as int]);
        let ghost before = derefs(objects@);
        assert(objects_in(children@.take(i + 1)) == objects_in(children@.take(i as int)) + objects_below(children@[i as int]));
        match &children[i] {
            ArchiDiagramChild::Object(o) => {
                objects.push(o);
                assert(derefs(objects@) =~= before + seq![*o]);
                collect_objects(&o.children, objects);
                assert(derefs(objects@) =~= before + (seq![*o] + objects_in(o.children@)));
                assert(objects_below(children@[i as int]) == seq![*o] + objects_in(o.children@));
            },
            ArchiDiagramChild::Group(g) => {
                collect_objects(&g.children, objects);
                assert(objects_below(children@[i as int]) == objects_in(g.children@));
            },
        }
        assert(derefs(objects@) =~= start + objects_in(children@.take(i + 1)));
        i = i + 1;
    }
    assert(children@.take(children@.len() as int) =~= children@);
}

/// The last object with identifier `id`, which a map keyed by identifier keeps.
pub open spec fn last_object(objs: Seq<ArchiDiagramObject>, id: Seq<char>) -> Option<ArchiDiagramObject>
    decreases objs.len(),
{
    if objs.len() == 0 {
        None
    } else if objs.last().id@ == id {
        Some(objs.last())
    } else {
        last_object(objs.drop_last(), id)
    }
}

/// The identifiers of the relationships of all folders, in order.
pub open spec fn relationship_ids(folders: Seq<ArchiFolder>) -> Seq<Seq<char>>
    decreases folders.len(),
{
    if folders.len() == 0 {
        Seq::empty()
    } else {
        let f = folders.last();
        relationship_ids(folders.drop_last()) + Seq::new(f.relationships@.len(), |k: int| f.relationships@[k].id@)
    }
}

/// The diagrams of all folders, in order.
pub open spec fn diagrams_of(folders: Seq<ArchiFolder>) -> Seq<ArchiDiagram>
    decreases folders.len(),
{
    if folders.len() == 0 {
        Seq::empty()
    } else {
        diagrams_of(folders.drop_last()) + folders.last().diagrams@
    }
}

/// The problems of one connection of diagram `d`: a source or target that is no object of the
/// diagram, a relationship that the model lacks, or a target that does not list it.
pub open spec fn connection_messages(d: Seq<char>, c: ArchiConnection, objs: Seq<ArchiDiagramObject>, rels: Seq<Seq<char>>) -> Seq<Seq<char>> {
    let prefix = "diagram '"@ + d + "' connection '"@ + c.id@ + "'"@;
    let source = if last_object(objs, c.source@) is None {
        seq![prefix + " has missing source "@ + c.source@]
    } else {
        Seq::empty()
    };
    match last_object(objs, c.target@) {
        None => source.push(prefix + " has missing target "@ + c.target@),
        Some(t) => {
            let relationship = if !rels.contains(c.relationship@) {
                seq![prefix + " has missing relationship "@ + c.relationship@]
            } else {
                Seq::empty()
            };
            let listed = if !views(t.target_connections@).contains(c.id@) {
                seq![prefix + " is absent from targetConnections on "@ + t.id@]
            } else {
                Seq::empty()
            };
            source + relationship + listed
        },
    }
}

/// The problems of a list of connections, in order.
pub open spec fn connections_messages(d: Seq<char>, cs: Seq<ArchiConnection>, objs: Seq<ArchiDiagramObject>, rels: Seq<Seq<char>>) -> Seq<Seq<char>>
    decreases cs.len(),
{
    if cs.len() == 0 {
        Seq::empty()
    } else {
        connections_messages(d, cs.drop_last(), objs, rels) + connection_messages(d, cs.last(), objs, rels)
    }
}

/// The connection problems among `children` and below them, in document order.
pub open spec fn children_messages(d: Seq<char>, children: Seq<ArchiDiagramChild>, objs: Seq<ArchiDiagramObject>, rels: Seq<Seq<char>>) -> Seq<Seq<char>>
    decreases children, 0int,
{
    if children.len() == 0 {
        Seq::empty()
    } else {
        children_messages(d, children.drop_last(), objs, rels) + child_messages(d, children.last(), objs, rels)
    }
}

/// The connection problems of `c`: those of its own connections, then those below it.
pub open spec fn child_messages(d: Seq<char>, c: ArchiDiagramChild, objs: Seq<ArchiDiagramObject>, rels: Seq<Seq<char>>) -> Seq<Seq<char>>
    decreases c, 1int,
{
    match c {
        ArchiDiagramChild::Object(o) => connections_messages(d, o.connections@, objs, rels)
            + children_messages(d, o.children@, objs, rels),
        ArchiDiagramChild::Group(g) => children_messages(d, g.children@, objs, rels),
    }
}

/// The connection problems of a list of diagrams, each checked against its own objects.
pub open spec fn diagrams_messages(ds: Seq<ArchiDiagram>, rels: Seq<Seq<char>>) -> Seq<Seq<char>>
    decreases ds.len(),
{
    if ds.len() == 0 {
        Seq::empty()
    } else {
        let d = ds.last();
        diagrams_messages(ds.drop_last(), rels) + children_messages(d.name@, d.children@, objects_in(d.children@), rels)
    }
}

/// Every connection problem of a model, in document order.
pub open spec fn connection_problems(m: ArchiNativeModel) -> Seq<Seq<char>> {
    diagrams_messages(diagrams_of(m.folders@), relationship_ids(m.folders@))
}

/// The last object of `objs` with identifier `id`.
pub(crate) fn find_object<'a>(objs: &Vec<&'a ArchiDiagramObject>, id: &str) -> (r: Option<&'a ArchiDiagramObject>)
    ensures
        match r {
            Some(o) => last_object(derefs(objs@), id@) == Some(*o),
            None => last_object(derefs(objs@), id@) is None,
        },
{
    let mut i = objs.len();
    assert(derefs(objs@).take(i as int) =~= derefs(objs@));
    while i > 0
        invariant
            i <= objs@.len(),
            last_object(derefs(objs@), id@) == last_object(derefs(objs@).take(i as int), id@),
        decreases i,
    {
        assert(derefs(objs@).take(i as int).drop_last() =~= derefs(objs@).take(i - 1));
        let o = objs[i - 1];
        if seq_eq(o.id.as_str(), id) {
            return Some(o);
        }
        i = i - 1;
    }
    None
}

/// Whether `v` holds `s`.
fn contains_text(v: &Vec<String>, s: &str) -> (r: bool)
    ensures
        r == views(v@).contains(s@),
{
    let mut i: usize = 0;
    while i < v.len()
        invariant
            i <= v@.len(),
            forall|k: int| 0 <= k < i ==> v@[k]@ != s@,
        decreases v.len() - i,
    {
        if seq_eq(v[i].as_str(), s) {
            assert(views(v@)[i as int] == s@);
            return true;
        }
        i = i + 1;
    }
    assert(!views(v@).contains(s@)) by {
        if views(v@).contains(s@) {
            let k = choose|k: int| 0 <= k < views(v@).len() && views(v@)[k] == s@;
            assert(v@[k]@ == s@);
        }
    }
    false
}

/// Appends `message` to `diagnostics`.
fn push_message(diagnostics: &mut Vec<String>, message: String)
    ensures
        views(final(diagnostics)@) == views(old(diagnostics)@).push(message@),
{
    diagnostics.push(message);
    assert(views(diagnostics@) =~= views(old(diagnostics)@).push(message@));
}

/// Checks one connection of diagram `d`.
fn check_connection(d: &str, c: &ArchiConnection, objs: &Vec<&ArchiDiagramObject>, rels: &Vec<String>, diagnostics: &mut Vec<String>)
    ensures
        views(final(diagnostics)@) == views(old(diagnostics)@) + connection_messages(d@, *c, derefs(objs@), views(rels@)),
{
    let ghost start = views(diagnostics@);
    let prefix = cat5("diagram '", d, "' connection '", c.id.as_str(), "'");
    let ghost objs_s = derefs(objs@);
    let ghost source_part: Seq<Seq<char>> = if last_object(objs_s, c.source@) is None {
        seq![prefix@ + " has missing source "@ + c.source@]
    } else {
        Seq::empty()
    };
    if find_object(objs, c.source.as_str()).is_none() {
        push_message(diagnostics, cat3(prefix.as_str(), " has missing source ", c.source.as_str()));
    }
    assert(views(diagnostics@) =~= start + source_part);
    match find_object(objs, c.target.as_str()) {
        None => {
            push_message(diagnostics, cat3(prefix.as_str(), " has missing target ", c.target.as_str()));
            assert(views(diagnostics@) =~= start + source_part.push(prefix@ + " has missing target "@ + c.target@));
        },
        Some(t) => {
            let ghost mid = views(diagnostics@);
            let ghost rel_part: Seq<Seq<char>> = if !views(rels@).contains(c.relationship@) {
                seq![prefix@ + " has missing relationship "@ + c.relationship@]
            } else {
                Seq::empty()
            };
            if !contains_text(rels, c.relationship.as_str()) {
                push_message(diagnostics, cat3(prefix.as_str(), " has missing relationship ", c.relationship.as_str()));
            }
            assert(views(diagnostics@) =~= mid + rel_part);
            let ghost mid2 = views(diagnostics@);
            let ghost listed_part: Seq<Seq<char>> = if !views(t.target_connections@).contains(c.id@) {
                seq![prefix@ + " is absent from targetConnections on "@ + t.id@]
            } else {
                Seq::empty()
            };
            if !contains_text(&t.target_connections, c.id.as_str()) {
                push_message(diagnostics, cat3(prefix.as_str(), " is absent from targetConnections on ", t.id.as_str()));
            }
            assert(views(diagnostics@) =~= mid2 + listed_part);
            assert(views(diagnostics@) =~= start + (source_part + rel_part + listed_part));
        },
    }
}

/// Checks the connections of `cs`.
fn check_connections(d: &str, cs: &Vec<ArchiConnection>, objs: &Vec<&ArchiDiagramObject>, rels: &Vec<String>, diagnostics: &mut Vec<String>)
    ensures
        views(final(diagnostics)@) == views(old(diagnostics)@) + connections_messages(d@, cs@, derefs(objs@), views(rels@)),
{
    let ghost start = views(diagnostics@);
    let mut i: usize = 0;
    assert(cs@.take(0) =~= Seq::<ArchiConnection>::empty());
    assert(start + Seq::<Seq<char>>::empty() =~= start);
    while i < cs.len()
        invariant
            i <= cs@.len(),
            start == views(old(diagnostics)@),
            views(diagnostics@) == start + connections_messages(d@, cs@.take(i as int), derefs(objs@), views(rels@)),
        decreases cs.len() - i,
    {
        assert(cs@.take(i + 1).drop_last() =~= cs@.take(i as int));
        assert(cs@.take(i + 1).last() == cs@[i as int]);
        let ghost before = views(diagnostics@);
        check_connection(d, &cs[i], objs, rels, diagnostics);
        assert(views(diagnostics@) =~= start + connections_messages(d@, cs@.take(i + 1), derefs(objs@), views(rels@)));
        i = i + 1;
    }
    assert(cs@.take(cs@.len() as int) =~= cs@);
}

/// Checks the connections among `children` and below them.
fn check_children(d: &str, children: &Vec<ArchiDiagramChild>, objs: &Vec<&ArchiDiagramObject>, rels: &Vec<String>, diagnostics: &mut Vec<String>)
    ensures
        views(final(diagnostics)@) == views(old(diagnostics)@) + children_messages(d@, children@, derefs(objs@), views(rels@)),
    decreases children@,
{
    let ghost start = views(diagnostics@);
    let mut i: usize = 0;
    assert(children@.take(0) =~= Seq::<ArchiDiagramChild>::empty());
    assert(start + Seq::<Seq<char>>::empty() =~= start);
    while i < children.len()
        invariant
            i <= children@.len(),
            start == views(old(diagnostics)@),
            views(diagnostics@) == start + children_messages(d@, children@.take(i as int), derefs(objs@), views(rels@)),
        decreases children.len() - i,
    {
        assert(children@.take(i + 1).drop_last() =~= children@.take(i as int));
        assert(children@.take(i + 1).last() == children@[i as int]);
        let ghost before = views(diagnostics@);
        assert(children_messages(d@, children@.take(i + 1), derefs(objs@), views(rels@))
            == children_messages(d@, children@.take(i as int), derefs(objs@), views(rels@))
            + child_messages(d@, children@[i as int], derefs(objs@), views(rels@)));
        match &children[i] {
            ArchiDiagramChild::Object(o) => {
                check_connections(d, &o.connections, objs, rels, diagnostics);
                check_children(d, &o.children, objs, rels, diagnostics);
                assert(child_messages(d@, children@[i as int], derefs(objs@), views(rels@))
                    == connections_messages(d@, o.connections@, derefs(objs@), views(rels@))
                    + children_messages(d@, o.children@, derefs(objs@), views(rels@)));
            },
            ArchiDiagramChild::Group(g) => {
                check_children(d, &g.children, objs, rels, diagnostics);
                assert(child_messages(d@, children@[i as int], derefs(objs@), views(rels@))
                    == children_messages(d@, g.children@, derefs(objs@), views(rels@)));
            },
        }
        assert(views(diagnostics@) =~= start + children_messages(d@, children@.take(i + 1), derefs(objs@), views(rels@)));
        i = i + 1;
    }
    assert(children@.take(children@.len() as int) =~= children@);
}

/// The identifiers of the relationships of all folders.
fn collect_relationship_ids(folders: &Vec<ArchiFolder>) -> (r: Vec<String>)
    ensures
        views(r@) == relationship_ids(folders@),
{
    let mut r: Vec<String> = Vec::new();
    let mut i: usize = 0;
    assert(folders@.take(0) =~= Seq::<ArchiFolder>::empty());
    assert(views(r@) =~= Seq::<Seq<char>>::empty());
    while i < folders.len()
        invariant
            i <= folders@.len(),
            views(r@) == relationship_ids(folders@.take(i as int)),
        decreases folders.len() - i,
    {
        assert(folders@.take(i + 1).drop_last() =~= folders@.take(i as int));
        assert(folders@.take(i + 1).last() == folders@[i as int]);
        let f = &folders[i];
        let ghost base = views(r@);
        let mut k: usize = 0;
        while k < f.relationships.len()
            invariant
                k <= f.relationships@.len(),
                views(r@) == base + Seq::new(k as nat, |j: int| f.relationships@[j].id@),
            decreases f.relationships.len() - k,
        {
            let ghost prev = r@;
            r.push(f.relationships[k].id.clone());
            assert(views(r@) =~= views(prev).push(f.relationships@[k as int].id@));
            k = k + 1;
            assert(views(r@) =~= base + Seq::new(k as nat, |j: int| f.relationships@[j].id@));
        }
        i = i + 1;
        assert(views(r@) =~= relationship_ids(folders@.take(i as int)));
    }
    assert(folders@.take(folders@.len() as int) =~= folders@);
    r
}

/// The connection problems of every diagram of a native model: a connection whose source,
/// target or relationship is missing, or that its target does not list among its
/// `targetConnections`, each named by diagram and connection.
pub fn validate_connections(model: &ArchiNativeModel) -> (r: Vec<String>)
    ensures
        views(r@) == connection_problems(*model),
{
    let rels = collect_relationship_ids(&model.folders);
    let mut diagnostics: Vec<String> = Vec::new();
    let ghost all_rels = relationship_ids(model.folders@);
    let mut i: usize = 0;
    assert(model.folders@.take(0) =~= Seq::<ArchiFolder>::empty());
    assert(views(diagnostics@) =~= Seq::<Seq<char>>::empty());
    while i < model.folders.len()
        invariant
            i <= model.folders@.len(),
            views(rels@) == all_rels,
            all_rels == relationship_ids(model.folders@),
            views(diagnostics@) == diagrams_messages(diagrams_of(model.folders@.take(i as int)), all_rels),
        decreases model.folders.len() - i,
    {
        assert(model.folders@.take(i + 1).drop_last() =~= model.folders@.take(i as int));
        assert(model.folders@.take(i + 1).last() == model.folders@[i as int]);
        let f = &model.folders[i];
        let ghost base = diagrams_of(model.folders@.take(i as int));
        let mut k: usize = 0;
        assert(base + f.diagrams@.take(0) =~= base);
        while k < f.diagrams.len()
            invariant
                k <= f.diagrams@.len(),
                views(rels@) == all_rels,
                views(diagnostics@) == diagrams_messages(base + f.diagrams@.take(k as int), all_rels),
            decreases f.diagrams.len() - k,
        {
            let d = &f.diagrams[k];
            let mut objects: Vec<&ArchiDiagramObject> = Vec::new();
            collect_objects(&d.children, &mut objects);
            assert(derefs(objects@) =~= objects_in(d.children@)) by {
                assert(derefs(Seq::<&ArchiDiagramObject>::empty()) =~= Seq::<ArchiDiagramObject>::empty());
            }
            check_children(d.name.as_str(), &d.children, &objects, &rels, &mut diagnostics);
            assert((base + f.diagrams@.take(k + 1)).drop_last() =~= base + f.diagrams@.take(k as int));
            assert((base + f.diagrams@.take(k + 1)).last() == *d);
            k = k + 1;
        }
        assert(f.diagrams@.take(f.diagrams@.len() as int) =~= f.diagrams@);
        i = i + 1;
    }
    assert(model.folders@.take(model.folders@.len() as int) =~= model.folders@);
    diagnostics
}

/// `x` put into the sorted `s` before the first word it does not follow.
pub open spec fn insert_word(x: Seq<char>, s: Seq<Seq<char>>) -> Seq<Seq<char>>
    decreases s.len(),
{
    if s.len() == 0 {
        seq![x]
    } else if text_le(x, s[0]) {
        seq![x] + s
    } else {
        seq![s[0]] + insert_word(x, s.drop_first())
    }
}

/// `ws` sorted by insertion.
pub open spec fn sort_words(ws: Seq<Seq<char>>) -> Seq<Seq<char>>
    decreases ws.len(),
{
    if ws.len() == 0 {
        Seq::empty()
    } else {
        insert_word(ws.last(), sort_words(ws.drop_last()))
    }
}

/// `ws` joined with single spaces.
pub open spec fn join_words(ws: Seq<Seq<char>>) -> Seq<char>
    decreases ws.len(),
{
    if ws.len() == 0 {
        Seq::empty()
    } else if ws.len() == 1 {
        ws[0]
    } else {
        join_words(ws.drop_last()) + " "@ + ws.last()
    }
}

proof fn lemma_insert_at(x: Seq<char>, s: Seq<Seq<char>>, p: int)
    requires
        0 <= p <= s.len(),
        forall|j: int| 0 <= j < p ==> !text_le(x, #[trigger] s[j]),
        p < s.len() ==> text_le(x, s[p]),
    ensures
        insert_word(x, s) == s.insert(p, x),
    decreases p,
{
    if p == 0 {
        if s.len() == 0 {
            assert(s.insert(0, x) =~= seq![x]);
        } else {
            assert(s.insert(0, x) =~= seq![x] + s);
        }
    } else {
        assert forall|j: int| 0 <= j < p - 1 implies !text_le(x, #[trigger] s.drop_first()[j]) by {
            assert(s.drop_first()[j] == s[j + 1]);
        }
        lemma_insert_at(x, s.drop_first(), p - 1);
        assert(s.insert(p, x) =~= seq![s[0]] + s.drop_first().insert(p - 1, x));
    }
}

/// Puts `x` into the sorted list `v`.
pub(crate) fn insert_sorted(v: &mut Vec<String>, x: String)
    ensures
        views(final(v)@) == insert_word(x@, views(old(v)@)),
{
    let ghost s = views(v@);
    let mut p: usize = 0;
    while p < v.len()
        invariant
            p <= v@.len(),
            views(v@) == s,
            s == views(old(v)@),
            forall|j: int| 0 <= j < p ==> !text_le(x@, #[trigger] s[j]),
        ensures
            p <= v@.len(),
            views(v@) == s,
            forall|j: int| 0 <= j < p ==> !text_le(x@, #[trigger] s[j]),
            p < v@.len() ==> text_le(x@, s[p as int]),
        decreases v.len() - p,
    {
        assert(s[p as int] == v@[p as int]@);
        if text_le_exec(x.as_str(), v[p].as_str()) {
            break;
        }
        p = p + 1;
    }
    proof {
        lemma_insert_at(x@, s, p as int);
    }
    let ghost xv = x@;
    v.insert(p, x);
    assert(views(v@) =~= s.insert(p as int, xv));
}

/// `s` with its words sorted and joined by single spaces.
fn sorted_words(s: &str) -> (r: String)
    ensures
        r@ == join_words(dedup_words(sort_words(words(s@)))),
{
    let ws = split_words(s);
    let mut sorted: Vec<String> = Vec::new();
    let mut i: usize = 0;
    assert(views(ws@).take(0) =~= Seq::<Seq<char>>::empty());
    assert(views(sorted@) =~= Seq::<Seq<char>>::empty());
    while i < ws.len()
        invariant
            i <= ws@.len(),
            views(sorted@) == sort_words(views(ws@).take(i as int)),
        decreases ws.len() - i,
    {
        assert(views(ws@).take(i + 1).drop_last() =~= views(ws@).take(i as int));
        insert_sorted(&mut sorted, ws[i].clone());
        i = i + 1;
    }
    assert(views(ws@).take(ws@.len() as int) =~= views(ws@));
    let mut out = String::new();
    let mut k: usize = 0;
    assert(views(sorted@).take(0) =~= Seq::<Seq<char>>::empty());
    while k < sorted.len()
        invariant
            k <= sorted@.len(),
            out@ == join_words(dedup_words(views(sorted@).take(k as int))),
            k > 0 ==> dedup_words(views(sorted@).take(k as int)).len() > 0,
        decreases sorted.len() - k,
    {
        let ghost prefix = views(sorted@).take(k + 1);
        assert(prefix.drop_last() =~= views(sorted@).take(k as int));
        assert(prefix.last() == sorted@[k as int]@);
        if k > 0 {
            assert(prefix[k - 1] == sorted@[k - 1]@);
        }
        if k == 0 || !seq_eq(sorted[k - 1].as_str(), sorted[k].as_str()) {
            if k > 0 {
                out.append(" ");
            }
            out.append(sorted[k].as_str());
            proof {
                reveal_strlit(" ");
                let before = dedup_words(views(sorted@).take(k as int));
                if k == 0 {
                    assert(before =~= Seq::<Seq<char>>::empty());
                    assert(dedup_words(prefix) =~= seq![sorted@[0]@]);
                } else {
                    assert(dedup_words(prefix) == before.push(prefix.last()));
                    assert(before.push(prefix.last()).drop_last() =~= before);
                    assert(join_words(before.push(prefix.last())) == join_words(before) + " "@ + prefix.last());
                }
            }
        } else {
            assert(dedup_words(prefix) == dedup_words(views(sorted@).take(k as int)));
        }
        k = k + 1;
    }
    assert(views(sorted@).take(sorted@.len() as int) =~= views(sorted@));
    out
}

/// `ws` without a word that equals the word just before it.
pub open spec fn dedup_words(ws: Seq<Seq<char>>) -> Seq<Seq<char>>
    decreases ws.len(),
{
    if ws.len() == 0 {
        Seq::empty()
    } else if ws.len() > 1 && ws[ws.len() - 2] == ws.last() {
        dedup_words(ws.drop_last())
    } else {
        dedup_words(ws.drop_last()).push(ws.last())
    }
}

/// The value of an attribute as it is compared: `targetConnections` is a set of words, written
/// sorted, each once.
pub open spec fn canon_value(name: Seq<char>, value: Seq<char>) -> Seq<char> {
    if name == "targetConnections"@ {
        join_words(dedup_words(sort_words(words(value))))
    } else {
        value
    }
}

/// The compared value of attribute `k`, if present.
pub open spec fn canon_get(attrs: Seq<(String, String)>, k: Seq<char>) -> Option<Seq<char>> {
    match attribute_value(attrs, k) {
        Some(v) => Some(canon_value(k, v)),
        None => None,
    }
}

/// The compared value of attribute `name`, if present.
fn canonical_get(attrs: &Vec<(String, String)>, name: &str) -> (r: Option<String>)
    ensures
        match r {
            Some(v) => canon_get(attrs@, name@) == Some(v@),
            None => canon_get(attrs@, name@) is None,
        },
{
    match attribute(attrs, name) {
        None => None,
        Some(v) => {
            if seq_eq(name, "targetConnections") {
                Some(sorted_words(v.as_str()))
            } else {
                Some(v.clone())
            }
        },
    }
}

/// What `{:?}` writes for an optional string.
pub open spec fn debug_option(v: Option<Seq<char>>) -> Seq<char> {
    match v {
        Some(t) => "Some("@ + debug_quoted(t) + ")"@,
        None => "None"@,
    }
}

pub(crate) fn debug_option_exec(v: &Option<String>) -> (r: String)
    ensures
        r@ == debug_option(match v { Some(t) => Some(t@), None => None }),
{
    match v {
        Some(t) => cat3("Some(", debug_str(t.as_str()).as_str(), ")"),
        None => String::from_str("None"),
    }
}

/// The names of a list of attributes.
pub open spec fn keys(attrs: Seq<(String, String)>) -> Seq<Seq<char>> {
    Seq::new(attrs.len(), |i: int| attrs[i].0@)
}

/// The first of `ks` whose compared value differs between `a` and `b`.
pub open spec fn first_key_diff(ks: Seq<Seq<char>>, a: Seq<(String, String)>, b: Seq<(String, String)>) -> Option<Seq<char>>
    decreases ks.len(),
{
    if ks.len() == 0 {
        None
    } else if canon_get(a, ks[0]) != canon_get(b, ks[0]) {
        Some(ks[0])
    } else {
        first_key_diff(ks.drop_first(), a, b)
    }
}

/// How a child appears in a difference path: by its `id`, or else by its position.
pub open spec fn child_label(e: XmlElement, index: nat) -> Seq<char> {
    match attr_of(e, "id"@) {
        Some(id) => e.name@ + "[@id='"@ + id + "']"@,
        None => e.name@ + "["@ + decimal(index) + "]"@,
    }
}

/// The first difference between two XML trees at `path`, in document order: the element
/// name, then the attributes compared by value, the text, the number of children, and then
/// the children in turn.
pub open spec fn xml_diff(a: XmlElement, b: XmlElement, path: Seq<char>) -> Option<Seq<char>>
    decreases a, 1int,
{
    if a.name@ != b.name@ {
        Some(path + ": element differs: "@ + a.name@ + " vs "@ + b.name@)
    } else {
        match first_key_diff(keys(a.attributes@) + keys(b.attributes@), a.attributes@, b.attributes@) {
            Some(k) => Some(path + ".@"@ + k + " differs: "@ + debug_option(canon_get(a.attributes@, k)) + " vs "@
                + debug_option(canon_get(b.attributes@, k))),
            None => if a.text@ != b.text@ {
                Some(path + ".text differs: "@ + debug_quoted(a.text@) + " vs "@ + debug_quoted(b.text@))
            } else if a.children@.len() != b.children@.len() {
                Some(path + ": child count differs: "@ + decimal(a.children@.len()) + " vs "@ + decimal(b.children@.len()))
            } else {
                children_diff(a.children@, b.children@, path, 0)
            },
        }
    }
}

/// The first difference among pairs of children, numbered from `index`.
pub open spec fn children_diff(a: Seq<XmlElement>, b: Seq<XmlElement>, path: Seq<char>, index: nat) -> Option<Seq<char>>
    decreases a, 0int,
{
    if a.len() == 0 || b.len() == 0 {
        None
    } else {
        match xml_diff(a[0], b[0], path + "/"@ + child_label(a[0], index)) {
            Some(d) => Some(d),
            None => children_diff(a.drop_first(), b.drop_first(), path, index + 1),
        }
    }
}

proof fn lemma_first_key_diff_append(k1: Seq<Seq<char>>, k2: Seq<Seq<char>>, a: Seq<(String, String)>, b: Seq<(String, String)>)
    ensures
        first_key_diff(k1 + k2, a, b) == (match first_key_diff(k1, a, b) {
            Some(k) => Some(k),
            None => first_key_diff(k2, a, b),
        }),
    decreases k1.len(),
{
    if k1.len() == 0 {
        assert(k1 + k2 =~= k2);
    } else {
        assert((k1 + k2).drop_first() =~= k1.drop_first() + k2);
        lemma_first_key_diff_append(k1.drop_first(), k2, a, b);
    }
}

/// The first name among the attributes `src` whose compared value differs between `a` and `b`.
fn scan_keys(src: &Vec<(String, String)>, a: &Vec<(String, String)>, b: &Vec<(String, String)>) -> (r: Option<String>)
    ensures
        match r {
            Some(k) => first_key_diff(keys(src@), a@, b@) == Some(k@),
            None => first_key_diff(keys(src@), a@, b@) is None,
        },
{
    let mut i: usize = 0;
    assert(keys(src@).skip(0) =~= keys(src@));
    while i < src.len()
        invariant
            i <= src@.len(),
            first_key_diff(keys(src@), a@, b@) == first_key_diff(keys(src@).skip(i as int), a@, b@),
        decreases src.len() - i,
    {
        assert(keys(src@).skip(i as int).drop_first() =~= keys(src@).skip(i + 1));
        assert(keys(src@).skip(i as int)[0] == src@[i as int].0@);
        let k = src[i].0.as_str();
        let va = canonical_get(a, k);
        let vb = canonical_get(b, k);
        let same = match (&va, &vb) {
            (Some(x), Some(y)) => seq_eq(x.as_str(), y.as_str()),
            (None, None) => true,
            _ => false,
        };
        if !same {
            return Some(src[i].0.clone());
        }
        i = i + 1;
    }
    None
}

/// How a child appears in a difference path.
fn child_label_exec(e: &XmlElement, index: usize) -> (r: String)
    ensures
        r@ == child_label(*e, index as nat),
{
    match attribute(&e.attributes, "id") {
        Some(id) => {
            let head = cat3(e.name.as_str(), "[@id='", id.as_str());
            cat(head.as_str(), "']")
        },
        None => {
            let n = usize_to_string(index);
            let head = cat3(e.name.as_str(), "[", n.as_str());
            cat(head.as_str(), "]")
        },
    }
}

/// The first difference between two XML trees, reported at `path`.
pub fn compare_xml(a: &XmlElement, b: &XmlElement, path: &str) -> (r: Option<String>)
    ensures
        match r {
            Some(d) => xml_diff(*a, *b, path@) == Some(d@),
            None => xml_diff(*a, *b, path@) is None,
        },
    decreases a,
{
    if !seq_eq(a.name.as_str(), b.name.as_str()) {
        let head = cat5(path, ": element differs: ", a.name.as_str(), " vs ", b.name.as_str());
        return Some(head);
    }
    proof {
        lemma_first_key_diff_append(keys(a.attributes@), keys(b.attributes@), a.attributes@, b.attributes@);
    }
    let key = match scan_keys(&a.attributes, &a.attributes, &b.attributes) {
        Some(k) => Some(k),
        None => scan_keys(&b.attributes, &a.attributes, &b.attributes),
    };
    if let Some(k) = key {
        let va = debug_option_exec(&canonical_get(&a.attributes, k.as_str()));
        let vb = debug_option_exec(&canonical_get(&b.attributes, k.as_str()));
        let head = cat5(path, ".@", k.as_str(), " differs: ", va.as_str());
        return Some(cat3(head.as_str(), " vs ", vb.as_str()));
    }
    if !seq_eq(a.text.as_str(), b.text.as_str()) {
        let ta = debug_str(a.text.as_str());
        let tb = debug_str(b.text.as_str());
        return Some(cat5(path, ".text differs: ", ta.as_str(), " vs ", tb.as_str()));
    }
    if a.children.len() != b.children.len() {
        let na = usize_to_string(a.children.len());
        let nb = usize_to_string(b.children.len());
        return Some(cat5(path, ": child count differs: ", na.as_str(), " vs ", nb.as_str()));
    }
    let mut i: usize = 0;
    assert(a.children@.skip(0) =~= a.children@);
    assert(b.children@.skip(0) =~= b.children@);
    while i < a.children.len()
        invariant
            i <= a.children@.len(),
            a.children@.len() == b.children@.len(),
            xml_diff(*a, *b, path@) == children_diff(a.children@.skip(i as int), b.children@.skip(i as int), path@, i as nat),
        decreases a.children.len() - i,
    {
        assert(a.children@.skip(i as int).drop_first() =~= a.children@.skip(i + 1));
        assert(b.children@.skip(i as int).drop_first() =~= b.children@.skip(i + 1));
        assert(a.children@.skip(i as int)[0] == a.children@[i as int]);
        assert(b.children@.skip(i as int)[0] == b.children@[i as int]);
        let label = child_label_exec(&a.children[i], i);
        let sub = cat3(path, "/", label.as_str());
        match compare_xml(&a.children[i], &b.children[i], sub.as_str()) {
            Some(d) => {
                return Some(d);
            },
            None => {},
        }
        i = i + 1;
    }
    None
}

/// The first difference between two Archi documents, ignoring formatting, the order of
/// attributes and the order of `targetConnections`; none when they are the same model.
pub fn canonical_diff(a: &XmlElement, b: &XmlElement) -> (r: Option<String>)
    ensures
        match r {
            Some(d) => xml_diff(*a, *b, "/"@ + a.name@) == Some(d@),
            None => xml_diff(*a, *b, "/"@ + a.name@) is None,
        },
{
    let path = cat("/", a.name.as_str());
    compare_xml(a, b, path.as_str())
}

/// ASCII letters and digits.
pub open spec fn ascii_alnum(c: char) -> bool {
    ('a' <= c && c <= 'z') || ('A' <= c && c <= 'Z') || ('0' <= c && c <= '9')
}

/// The identifier built so far from `s`, and whether a separator is pending: runs of
/// other characters become one `_` between lower-cased letters and digits.
pub open spec fn ident_scan(s: Seq<char>) -> (Seq<char>, bool)
    decreases s.len(),
{
    if s.len() == 0 {
        (Seq::empty(), false)
    } else {
        let (id, sep) = ident_scan(s.drop_last());
        let c = s.last();
        if ascii_alnum(c) {
            ((if sep && id.len() > 0 { id.push('_') } else { id }).push(lower(c)), false)
        } else {
            (id, true)
        }
    }
}

/// A DSL identifier for a native name: `element` when nothing is left, and an `element_`
/// prefix before a leading digit.
pub open spec fn dsl_identifier_of(s: Seq<char>) -> Seq<char> {
    let id = ident_scan(s).0;
    if id.len() == 0 {
        "element"@
    } else if '0' <= id[0] && id[0] <= '9' {
        "element_"@ + id
    } else {
        id
    }
}

/// A DSL identifier for a native name.
pub fn dsl_identifier(name: &str) -> (r: String)
    ensures
        r@ == dsl_identifier_of(name@),
{
    let v = chars_of(name);
    let mut id: Vec<char> = Vec::new();
    let mut separator = false;
    let mut i: usize = 0;
    assert(v@.take(0) =~= Seq::<char>::empty());
    while i < v.len()
        invariant
            v@ == name@,
            i <= v@.len(),
            ident_scan(v@.take(i as int)) == (id@, separator),
        decreases v.len() - i,
    {
        assert(v@.take(i + 1).drop_last() =~= v@.take(i as int));
        let c = v[i];
        if ('a' <= c && c <= 'z') || ('A' <= c && c <= 'Z') || ('0' <= c && c <= '9') {
            if separator && id.len() > 0 {
                id.push('_');
            }
            id.push(to_lower(c));
            separator = false;
        } else {
            separator = true;
        }
        i = i + 1;
    }
    assert(v@.take(v@.len() as int) =~= v@);
    let core = string_of(id.as_slice());
    if id.len() == 0 {
        return String::from_str("element");
    }
    if '0' <= id[0] && id[0] <= '9' {
        return cat("element_", core.as_str());
    }
    core
}

/// The characters of `s` escaped for a DSL string: `\`, `"`, newline and carriage return.
pub open spec fn dsl_escaped(s: Seq<char>) -> Seq<char>
    decreases s.len(),
{
    if s.len() == 0 {
        Seq::empty()
    } else {
        let c = s.last();
        dsl_escaped(s.drop_last()) + if c == '\\' {
            seq!['\\', '\\']
        } else if c == '"' {
            seq!['\\', '"']
        } else if c == '\n' {
            seq!['\\', 'n']
        } else if c == '\r' {
            seq!['\\', 'r']
        } else {
            seq![c]
        }
    }
}

/// `value` as a quoted DSL string.
pub fn dsl_string(value: &str) -> (r: String)
    ensures
        r@ == seq!['"'] + dsl_escaped(value@) + seq!['"'],
{
    let v = chars_of(value);
    let mut out: Vec<char> = Vec::new();
    out.push('"');
    let mut i: usize = 0;
    assert(v@.take(0) =~= Seq::<char>::empty());
    while i < v.len()
        invariant
            v@ == value@,
            i <= v@.len(),
            out@ == seq!['"'] + dsl_escaped(v@.take(i as int)),
        decreases v.len() - i,
    {
        assert(v@.take(i + 1).drop_last() =~= v@.take(i as int));
        let c = v[i];
        let ghost before = out@;
        if c == '\\' {
            out.push('\\');
            out.push('\\');
        } else if c == '"' {
            out.push('\\');
            out.push('"');
        } else if c == '\n' {
            out.push('\\');
            out.push('n');
        } else if c == '\r' {
            out.push('\\');
            out.push('r');
        } else {
            out.push(c);
        }
        i = i + 1;
        assert(out@ =~= seq!['"'] + dsl_escaped(v@.take(i as int)));
    }
    assert(v@.take(v@.len() as int) =~= v@);
    out.push('"');
    string_of(out.as_slice())
}

/// One step of FNV-1a over a byte.
pub open spec fn fnv_step(h: u64, b: u8) -> u64 {
    (h ^ (b as u64)).wrapping_mul(0x100000001b3)
}

/// FNV-1a 64 over `bytes`.
pub open spec fn fnv1a(bytes: Seq<u8>) -> u64
    decreases bytes.len(),
{
    if bytes.len() == 0 {
        0xcbf29ce484222325
    } else {
        fnv_step(fnv1a(bytes.drop_last()), bytes.last())
    }
}

/// Lower-case hexadecimal digit.
pub open spec fn hex_digit(d: nat) -> char {
    if d < 10 {
        ((d + 48) as u32) as char
    } else {
        ((d + 87) as u32) as char
    }
}

/// The lowest `n` hexadecimal digits of `v`, most significant first.
pub open spec fn hex_digits(v: nat, n: nat) -> Seq<char>
    decreases n,
{
    if n == 0 {
        Seq::empty()
    } else {
        hex_digits(v / 16, (n - 1) as nat).push(hex_digit(v % 16))
    }
}

fn hex_char(d: u64) -> (r: char)
    requires
        d < 16,
    ensures
        r == hex_digit(d as nat),
{
    if d < 10 {
        let c: u8 = (d as u8) + 48;
        c as char
    } else {
        let c: u8 = (d as u8) + 87;
        c as char
    }
}

/// The FNV-1a 64 hash of the UTF-8 encoding of `t`, written `fnv1a64:` and sixteen
/// lower-case hexadecimal digits.
pub open spec fn hash_text(t: Seq<char>) -> Seq<char> {
    "fnv1a64:"@ + hex_digits(fnv1a(vstd::utf8::encode_utf8(t)) as nat, 16)
}

/// The FNV-1a 64 hash of the UTF-8 bytes of `value`, written `fnv1a64:` and sixteen
/// lower-case hexadecimal digits.
pub fn hash(value: &str) -> (r: String)
    ensures
        r@ == "fnv1a64:"@ + hex_digits(fnv1a(value.spec_bytes()) as nat, 16),
        r@ == hash_text(value@),
{
    let bytes = value.as_bytes();
    let mut h: u64 = 0xcbf29ce484222325;
    let mut i: usize = 0;
    assert(bytes@.take(0) =~= Seq::<u8>::empty());
    while i < bytes.len()
        invariant
            bytes@ == value.spec_bytes(),
            i <= bytes@.len(),
            h == fnv1a(bytes@.take(i as int)),
        decreases bytes.len() - i,
    {
        assert(bytes@.take(i + 1).drop_last() =~= bytes@.take(i as int));
        h = (h ^ (bytes[i] as u64)).wrapping_mul(0x100000001b3);
        i = i + 1;
    }
    assert(bytes@.take(bytes@.len() as int) =~= bytes@);
    let mut digits: Vec<char> = Vec::new();
    let mut rest: u64 = h;
    let mut k: usize = 0;
    while k < 16
        invariant
            k <= 16,
            digits@.len() == k,
            hex_digits(h as nat, 16) == hex_digits(rest as nat, (16 - k) as nat) + digits@,
        decreases 16 - k,
    {
        let ghost before = digits@;
        digits.insert(0, hex_char(rest % 16));
        assert(hex_digits(rest as nat, (16 - k) as nat) == hex_digits((rest / 16) as nat, (16 - k - 1) as nat).push(hex_digit((rest % 16) as nat)));
        assert(digits@ =~= seq![hex_digit((rest % 16) as nat)] + before);
        assert(hex_digits((rest / 16) as nat, (16 - k - 1) as nat).push(hex_digit((rest % 16) as nat)) + before
            =~= hex_digits((rest / 16) as nat, (16 - k - 1) as nat) + digits@);
        rest = rest / 16;
        k = k + 1;
    }
    assert(hex_digits(rest as nat, 0) =~= Seq::<char>::empty());
    assert(Seq::<char>::empty() + digits@ =~= digits@);
    cat("fnv1a64:", string_of(digits.as_slice()).as_str())
}

/// Lines ordered by the order of their characters.
pub open spec fn lines_sorted(s: Seq<Seq<char>>) -> bool {
    forall|i: int, j: int| 0 <= i < j < s.len() ==> text_le(#[trigger] s[i], #[trigger] s[j])
}

proof fn lemma_insert_word_members(x: Seq<char>, s: Seq<Seq<char>>)
    ensures
        insert_word(x, s).len() == s.len() + 1,
        forall|k: int| 0 <= k < insert_word(x, s).len() ==> #[trigger] insert_word(x, s)[k] == x
            || s.contains(insert_word(x, s)[k]),
    decreases s.len(),
{
    if s.len() > 0 && !text_le(x, s[0]) {
        lemma_insert_word_members(x, s.drop_first());
        let rest = insert_word(x, s.drop_first());
        assert forall|k: int| 0 <= k < insert_word(x, s).len() implies #[trigger] insert_word(x, s)[k] == x
            || s.contains(insert_word(x, s)[k]) by {
            if k == 0 {
                assert(s[0] == insert_word(x, s)[0]);
            } else {
                assert(insert_word(x, s)[k] == rest[k - 1]);
                if rest[k - 1] != x {
                    let m = choose|m: int| 0 <= m < s.drop_first().len() && s.drop_first()[m] == rest[k - 1];
                    assert(s[m + 1] == rest[k - 1]);
                }
            }
        }
    } else if s.len() > 0 {
        assert forall|k: int| 0 <= k < insert_word(x, s).len() implies #[trigger] insert_word(x, s)[k] == x
            || s.contains(insert_word(x, s)[k]) by {
            if k > 0 {
                assert(insert_word(x, s)[k] == s[k - 1]);
            }
        }
    }
}

proof fn lemma_insert_word_sorted(x: Seq<char>, s: Seq<Seq<char>>)
    requires
        lines_sorted(s),
    ensures
        lines_sorted(insert_word(x, s)),
    decreases s.len(),
{
    if s.len() == 0 {
    } else if text_le(x, s[0]) {
        let t = seq![x] + s;
        assert forall|i: int, j: int| 0 <= i < j < t.len() implies text_le(#[trigger] t[i], #[trigger] t[j]) by {
            if i == 0 {
                if j > 1 {
                    crate::xml::lemma_text_le_trans(x, s[0], s[j - 1]);
                }
            } else {
                assert(t[i] == s[i - 1] && t[j] == s[j - 1]);
            }
        }
    } else {
        crate::xml::lemma_text_le_total(x, s[0]);
        let d = s.drop_first();
        assert forall|i: int, j: int| 0 <= i < j < d.len() implies text_le(#[trigger] d[i], #[trigger] d[j]) by {
            assert(d[i] == s[i + 1] && d[j] == s[j + 1]);
        }
        lemma_insert_word_sorted(x, d);
        lemma_insert_word_members(x, d);
        let rest = insert_word(x, d);
        let t = seq![s[0]] + rest;
        assert forall|i: int, j: int| 0 <= i < j < t.len() implies text_le(#[trigger] t[i], #[trigger] t[j]) by {
            if i == 0 {
                assert(t[j] == rest[j - 1]);
                if rest[j - 1] != x {
                    let m = choose|m: int| 0 <= m < d.len() && d[m] == rest[j - 1];
                    assert(s[m + 1] == rest[j - 1]);
                }
            } else {
                assert(t[i] == rest[i - 1] && t[j] == rest[j - 1]);
            }
        }
        assert(insert_word(x, s) == t);
    }
}

proof fn lemma_insert_word_keeps(x: Seq<char>, s: Seq<Seq<char>>)
    ensures
        insert_word(x, s).contains(x),
        forall|y: Seq<char>| s.contains(y) ==> #[trigger] insert_word(x, s).contains(y),
    decreases s.len(),
{
    if s.len() == 0 {
        assert(insert_word(x, s)[0] == x);
    } else if text_le(x, s[0]) {
        assert(insert_word(x, s)[0] == x);
        assert forall|y: Seq<char>| s.contains(y) implies #[trigger] insert_word(x, s).contains(y) by {
            let k = choose|k: int| 0 <= k < s.len() && s[k] == y;
            assert(insert_word(x, s)[k + 1] == y);
        }
    } else {
        let d = s.drop_first();
        lemma_insert_word_keeps(x, d);
        let rest = insert_word(x, d);
        assert(insert_word(x, s) == seq![s[0]] + rest);
        let kx = choose|k: int| 0 <= k < rest.len() && rest[k] == x;
        assert(insert_word(x, s)[kx + 1] == x);
        assert forall|y: Seq<char>| s.contains(y) implies #[trigger] insert_word(x, s).contains(y) by {
            let k = choose|k: int| 0 <= k < s.len() && s[k] == y;
            if k == 0 {
                assert(insert_word(x, s)[0] == y);
            } else {
                assert(d[k - 1] == y);
                assert(d.contains(y));
                assert(insert_word(x, d).contains(y));
                let m = choose|m: int| 0 <= m < rest.len() && rest[m] == y;
                assert(insert_word(x, s)[m + 1] == y);
            }
        }
    }
}

/// Sorting by insertion keeps every line.
pub proof fn lemma_sort_words_keeps(ws: Seq<Seq<char>>)
    ensures
        forall|y: Seq<char>| ws.contains(y) ==> #[trigger] sort_words(ws).contains(y),
    decreases ws.len(),
{
    if ws.len() > 0 {
        lemma_sort_words_keeps(ws.drop_last());
        lemma_insert_word_keeps(ws.last(), sort_words(ws.drop_last()));
        assert forall|y: Seq<char>| ws.contains(y) implies #[trigger] sort_words(ws).contains(y) by {
            let k = choose|k: int| 0 <= k < ws.len() && ws[k] == y;
            if k < ws.len() - 1 {
                assert(ws.drop_last()[k] == y);
                assert(ws.drop_last().contains(y));
            }
        }
    }
}

/// Sorting by insertion gives sorted lines.
pub proof fn lemma_sort_words_sorted(ws: Seq<Seq<char>>)
    ensures
        lines_sorted(sort_words(ws)),
        sort_words(ws).len() == ws.len(),
    decreases ws.len(),
{
    if ws.len() > 0 {
        lemma_sort_words_sorted(ws.drop_last());
        lemma_insert_word_sorted(ws.last(), sort_words(ws.drop_last()));
        lemma_insert_word_members(ws.last(), sort_words(ws.drop_last()));
    }
}

proof fn lemma_first_key_diff_same(ks: Seq<Seq<char>>, a: Seq<(String, String)>)
    ensures
        first_key_diff(ks, a, a) is None,
    decreases ks.len(),
{
    if ks.len() > 0 {
        lemma_first_key_diff_same(ks.drop_first(), a);
    }
}

/// A document has no difference from itself: comparing an XML tree with itself finds nothing.
pub proof fn lemma_xml_diff_reflexive(a: XmlElement, path: Seq<char>)
    ensures
        xml_diff(a, a, path) is None,
    decreases a, 1int,
{
    lemma_first_key_diff_same(keys(a.attributes@) + keys(a.attributes@), a.attributes@);
    lemma_children_diff_reflexive(a.children@, path, 0);
}

/// Comparing a list of children with itself finds nothing.
pub proof fn lemma_children_diff_reflexive(c: Seq<XmlElement>, path: Seq<char>, index: nat)
    ensures
        children_diff(c, c, path, index) is None,
    decreases c, 0int,
{
    if c.len() > 0 {
        lemma_xml_diff_reflexive(c[0], path + "/"@ + child_label(c[0], index));
        lemma_children_diff_reflexive(c.drop_first(), path, index + 1);
    }
}

proof fn lemma_first_key_none(ks: Seq<Seq<char>>, a: Seq<(String, String)>, b: Seq<(String, String)>)
    ensures
        first_key_diff(ks, a, b) is None <==> forall|i: int| 0 <= i < ks.len() ==> canon_get(a, #[trigger] ks[i]) == canon_get(b, ks[i]),
    decreases ks.len(),
{
    if ks.len() > 0 {
        lemma_first_key_none(ks.drop_first(), a, b);
        assert forall|i: int| 1 <= i < ks.len() implies #[trigger] ks[i] == ks.drop_first()[i - 1] by {}
        if first_key_diff(ks, a, b) is None {
            assert forall|i: int| 0 <= i < ks.len() implies canon_get(a, #[trigger] ks[i]) == canon_get(b, ks[i]) by {
                if i > 0 {
                    assert(ks[i] == ks.drop_first()[i - 1]);
                }
            }
        }
        if forall|i: int| 0 <= i < ks.len() ==> canon_get(a, #[trigger] ks[i]) == canon_get(b, ks[i]) {
            assert(canon_get(a, ks[0]) == canon_get(b, ks[0]));
            assert forall|i: int| 0 <= i < ks.drop_first().len() implies canon_get(a, #[trigger] ks.drop_first()[i]) == canon_get(b, ks.drop_first()[i]) by {
                assert(ks.drop_first()[i] == ks[i + 1]);
            }
        }
    }
}

/// Comparing two documents finds a difference exactly when comparing them the other way
/// round does, whatever the paths.
pub proof fn lemma_xml_diff_symmetric(a: XmlElement, b: XmlElement, p: Seq<char>, q: Seq<char>)
    ensures
        xml_diff(a, b, p) is None ==> xml_diff(b, a, q) is None,
    decreases a, 1int,
{
    if xml_diff(a, b, p) is None {
        let ka = keys(a.attributes@);
        let kb = keys(b.attributes@);
        lemma_first_key_none(ka + kb, a.attributes@, b.attributes@);
        lemma_first_key_none(kb + ka, b.attributes@, a.attributes@);
        assert forall|i: int| 0 <= i < (kb + ka).len() implies canon_get(b.attributes@, #[trigger] (kb + ka)[i]) == canon_get(a.attributes@, (kb + ka)[i]) by {
            if i < kb.len() {
                assert((kb + ka)[i] == (ka + kb)[ka.len() + i]);
            } else {
                assert((kb + ka)[i] == (ka + kb)[i - kb.len()]);
            }
        }
        lemma_children_diff_symmetric(a.children@, b.children@, p, q, 0, 0);
    }
}

/// The children of two documents compare equal one way exactly when they do the other way.
pub proof fn lemma_children_diff_symmetric(a: Seq<XmlElement>, b: Seq<XmlElement>, p: Seq<char>, q: Seq<char>, i: nat, j: nat)
    ensures
        children_diff(a, b, p, i) is None ==> children_diff(b, a, q, j) is None,
    decreases a, 0int,
{
    if a.len() > 0 && b.len() > 0 && children_diff(a, b, p, i) is None {
        lemma_xml_diff_symmetric(a[0], b[0], p + "/"@ + child_label(a[0], i), q + "/"@ + child_label(b[0], j));
        lemma_children_diff_symmetric(a.drop_first(), b.drop_first(), p, q, i + 1, j + 1);
    }
}

/// A canonical comparison finds no difference one way exactly when it finds none the other.
pub proof fn canonical_diff_symmetric(a: XmlElement, b: XmlElement)
    ensures
        xml_diff(a, b, "/"@ + a.name@) is None <==> xml_diff(b, a, "/"@ + b.name@) is None,
{
    lemma_xml_diff_symmetric(a, b, "/"@ + a.name@, "/"@ + b.name@);
    lemma_xml_diff_symmetric(b, a, "/"@ + b.name@, "/"@ + a.name@);
}

/// A character that a projected identifier may hold.
pub open spec fn dsl_ident_char(c: char) -> bool {
    ('a' <= c && c <= 'z') || ('0' <= c && c <= '9') || c == '_'
}

proof fn lemma_ident_scan_chars(s: Seq<char>)
    ensures
        forall|i: int| 0 <= i < ident_scan(s).0.len() ==> dsl_ident_char(#[trigger] ident_scan(s).0[i]),
    decreases s.len(),
{
    if s.len() > 0 {
        lemma_ident_scan_chars(s.drop_last());
        let (id, sep) = ident_scan(s.drop_last());
        let c = s.last();
        if ascii_alnum(c) {
            let base = if sep && id.len() > 0 { id.push('_') } else { id };
            assert forall|i: int| 0 <= i < base.len() implies dsl_ident_char(#[trigger] base[i]) by {
                if i < id.len() {
                    assert(base[i] == id[i]);
                }
            }
            let out = base.push(lower(c));
            assert(ident_scan(s).0 == out);
            assert forall|i: int| 0 <= i < out.len() implies dsl_ident_char(#[trigger] out[i]) by {
                if i < base.len() {
                    assert(out[i] == base[i]);
                } else {
                    assert(out[i] == lower(c));
                    if 'A' <= c && c <= 'Z' {
                        assert(((c as u32) + 32) as char == lower(c));
                        assert('a' <= lower(c) && lower(c) <= 'z') by {
                            assert((c as u32) >= 65 && (c as u32) <= 90);
                        }
                    }
                }
            }
        }
    }
}

/// Every identifier a projection gives is a valid DSL identifier: not empty, made of
/// lower-case ASCII letters, digits and `_`, and not starting with a digit.
pub proof fn lemma_dsl_identifier_valid(s: Seq<char>)
    ensures
        dsl_identifier_of(s).len() > 0,
        forall|i: int| 0 <= i < dsl_identifier_of(s).len() ==> dsl_ident_char(#[trigger] dsl_identifier_of(s)[i]),
        !('0' <= dsl_identifier_of(s)[0] && dsl_identifier_of(s)[0] <= '9'),
{
    lemma_ident_scan_chars(s);
    reveal_strlit("element");
    reveal_strlit("element_");
    let id = ident_scan(s).0;
    if id.len() > 0 && '0' <= id[0] && id[0] <= '9' {
        let out = "element_"@ + id;
        assert forall|i: int| 0 <= i < out.len() implies dsl_ident_char(#[trigger] out[i]) by {
            if i >= 8 {
                assert(out[i] == id[i - 8]);
            }
        }
    }
}

} // verus!
