use vstd::prelude::*;
use crate::chars::is_whitespace;
use crate::lookup::{element_kind_label, kind_label};
use crate::model::{Element, Property, Relationship};
use crate::text::{chars_of, eq_ignore_case, ieq, seq_eq, string_of, cat3, has_infix, contains};

verus! {

/// What a view expression predicate looks at.
#[derive(Debug, Clone, Copy, PartialEq, Eq, Structural)]
pub enum ExpressionTarget {
    Element,
    Relationship,
}

/// Which field a predicate compares.
#[derive(Debug)]
pub enum ExpressionField {
    Tag,
    Type,
    Property(String),
}

/// A boolean expression over element or relationship fields, as used in view selectors.
#[derive(Debug)]
pub enum ViewExpression {
    Predicate { target: ExpressionTarget, field: ExpressionField, equal: bool, value: String },
    Not(Box<ViewExpression>),
    And(Box<ViewExpression>, Box<ViewExpression>),
    Or(Box<ViewExpression>, Box<ViewExpression>),
}

#[derive(Debug)]
pub enum ExpressionToken {
    Value(String),
    Equal,
    NotEqual,
    And,
    Or,
    Not,
    LeftParen,
    RightParen,
}

/// `s` without its spaces.
pub open spec fn without_spaces(s: Seq<char>) -> Seq<char>
    decreases s.len(),
{
    if s.len() == 0 {
        Seq::empty()
    } else if s.last() == ' ' {
        without_spaces(s.drop_last())
    } else {
        without_spaces(s.drop_last()).push(s.last())
    }
}

/// Whether some tag equals `value`.
pub open spec fn has_tag(tags: Seq<String>, value: Seq<char>) -> bool {
    exists|i: int| 0 <= i < tags.len() && (#[trigger] tags[i])@ == value
}

/// Whether some property has key `key` and value `value`.
pub open spec fn has_property(properties: Seq<Property>, key: Seq<char>, value: Seq<char>) -> bool {
    exists|i: int| 0 <= i < properties.len() && (#[trigger] properties[i]).key@ == key && properties[i].value@ == value
}

/// What a predicate on an element field gives, before `equal` is applied.
pub open spec fn element_field(field: ExpressionField, element: Element, value: Seq<char>) -> bool {
    match field {
        ExpressionField::Tag => has_tag(element.tags@, value),
        ExpressionField::Type => eq_ignore_case(without_spaces(kind_label(element.kind)), without_spaces(value)),
        ExpressionField::Property(name) => has_property(element.properties@, name@, value),
    }
}

/// What a predicate on a relationship field gives, before `equal` is applied.
pub open spec fn relationship_field(field: ExpressionField, relationship: Relationship, value: Seq<char>) -> bool {
    match field {
        ExpressionField::Tag => has_tag(relationship.tags@, value),
        ExpressionField::Type => false,
        ExpressionField::Property(name) => has_property(relationship.properties@, name@, value),
    }
}

/// Three-valued conjunction: unknown sides are ignored unless one side is false.
pub open spec fn and3(l: Option<bool>, r: Option<bool>) -> Option<bool> {
    match (l, r) {
        (Some(a), Some(b)) => Some(a && b),
        (Some(false), None) => Some(false),
        (None, Some(false)) => Some(false),
        _ => None,
    }
}

/// Three-valued disjunction: an unknown side is ignored.
pub open spec fn or3(l: Option<bool>, r: Option<bool>) -> Option<bool> {
    match (l, r) {
        (Some(a), Some(b)) => Some(a || b),
        (Some(a), None) => Some(a),
        (None, Some(b)) => Some(b),
        (None, None) => None,
    }
}

/// The value of `e` on an element; predicates about relationships are unknown.
pub open spec fn element_value(e: ViewExpression, element: Element) -> Option<bool>
    decreases e,
{
    match e {
        ViewExpression::Predicate { target, field, equal, value } =>
            if target == ExpressionTarget::Element {
                Some(element_field(field, element, value@) == equal)
            } else {
                None
            },
        ViewExpression::Not(inner) => match element_value(*inner, element) {
            Some(v) => Some(!v),
            None => None,
        },
        ViewExpression::And(l, r) => and3(element_value(*l, element), element_value(*r, element)),
        ViewExpression::Or(l, r) => or3(element_value(*l, element), element_value(*r, element)),
    }
}

/// The value of `e` on a relationship; predicates about elements are unknown.
pub open spec fn relationship_value(e: ViewExpression, relationship: Relationship) -> Option<bool>
    decreases e,
{
    match e {
        ViewExpression::Predicate { target, field, equal, value } =>
            if target == ExpressionTarget::Relationship {
                Some(relationship_field(field, relationship, value@) == equal)
            } else {
                None
            },
        ViewExpression::Not(inner) => match relationship_value(*inner, relationship) {
            Some(v) => Some(!v),
            None => None,
        },
        ViewExpression::And(l, r) => and3(relationship_value(*l, relationship), relationship_value(*r, relationship)),
        ViewExpression::Or(l, r) => or3(relationship_value(*l, relationship), relationship_value(*r, relationship)),
    }
}

fn no_spaces(s: &str) -> (r: Vec<char>)
    ensures
        r@ == without_spaces(s@),
{
    let v = chars_of(s);
    let mut r: Vec<char> = Vec::new();
    let mut i: usize = 0;
    while i < v.len()
        invariant
            v@ == s@,
            i <= v@.len(),
            r@ == without_spaces(v@.subrange(0, i as int)),
        decreases v.len() - i,
    {
        proof {
            assert(v@.subrange(0, i + 1).drop_last() =~= v@.subrange(0, i as int));
        }
        if v[i] != ' ' {
            r.push(v[i]);
        }
        i = i + 1;
    }
    assert(v@.subrange(0, v@.len() as int) =~= v@);
    r
}

fn tags_have(tags: &Vec<String>, value: &str) -> (r: bool)
    ensures
        r == has_tag(tags@, value@),
{
    let mut i: usize = 0;
    while i < tags.len()
        invariant
            i <= tags@.len(),
            forall|j: int| 0 <= j < i ==> (#[trigger] tags@[j])@ != value@,
        decreases tags.len() - i,
    {
        if seq_eq(tags[i].as_str(), value) {
            return true;
        }
        i = i + 1;
    }
    false
}

fn properties_have(properties: &Vec<Property>, key: &str, value: &str) -> (r: bool)
    ensures
        r == has_property(properties@, key@, value@),
{
    let mut i: usize = 0;
    while i < properties.len()
        invariant
            i <= properties@.len(),
            forall|j: int| 0 <= j < i ==> !((#[trigger] properties@[j]).key@ == key@ && properties@[j].value@ == value@),
        decreases properties.len() - i,
    {
        if seq_eq(properties[i].key.as_str(), key) && seq_eq(properties[i].value.as_str(), value) {
            return true;
        }
        i = i + 1;
    }
    false
}

impl ViewExpression {
    /// The value of the expression on an element.
    pub fn element_value(&self, element: &Element) -> (r: Option<bool>)
        ensures
            r == element_value(*self, *element),
        decreases self,
    {
        match self {
            ViewExpression::Predicate { target, field, equal, value } => {
                if !matches!(target, ExpressionTarget::Element) {
                    return None;
                }
                let actual = match field {
                    ExpressionField::Tag => tags_have(&element.tags, value.as_str()),
                    ExpressionField::Type => {
                        let a = no_spaces(element_kind_label(&element.kind));
                        let b = no_spaces(value.as_str());
                        let sa = string_of(a.as_slice());
                        let sb = string_of(b.as_slice());
                        ieq(sa.as_str(), sb.as_str())
                    },
                    ExpressionField::Property(name) => properties_have(&element.properties, name.as_str(), value.as_str()),
                };
                Some(actual == *equal)
            },
            ViewExpression::Not(inner) => match inner.element_value(element) {
                Some(v) => Some(!v),
                None => None,
            },
            ViewExpression::And(l, r) => {
                let a = l.element_value(element);
                let b = r.element_value(element);
                match (a, b) {
                    (Some(x), Some(y)) => Some(x && y),
                    (Some(false), None) => Some(false),
                    (None, Some(false)) => Some(false),
                    _ => None,
                }
            },
            ViewExpression::Or(l, r) => {
                let a = l.element_value(element);
                let b = r.element_value(element);
                match (a, b) {
                    (Some(x), Some(y)) => Some(x || y),
                    (Some(x), None) => Some(x),
                    (None, Some(y)) => Some(y),
                    (None, None) => None,
                }
            },
        }
    }

    /// The value of the expression on a relationship.
    pub fn relationship_value(&self, relationship: &Relationship) -> (r: Option<bool>)
        ensures
            r == relationship_value(*self, *relationship),
        decreases self,
    {
        match self {
            ViewExpression::Predicate { target, field, equal, value } => {
                if !matches!(target, ExpressionTarget::Relationship) {
                    return None;
                }
                let actual = match field {
                    ExpressionField::Tag => tags_have(&relationship.tags, value.as_str()),
                    ExpressionField::Type => false,
                    ExpressionField::Property(name) => properties_have(&relationship.properties, name.as_str(), value.as_str()),
                };
                Some(actual == *equal)
            },
            ViewExpression::Not(inner) => match inner.relationship_value(relationship) {
                Some(v) => Some(!v),
                None => None,
            },
            ViewExpression::And(l, r) => {
                let a = l.relationship_value(relationship);
                let b = r.relationship_value(relationship);
                match (a, b) {
                    (Some(x), Some(y)) => Some(x && y),
                    (Some(false), None) => Some(false),
                    (None, Some(false)) => Some(false),
                    _ => None,
                }
            },
            ViewExpression::Or(l, r) => {
                let a = l.relationship_value(relationship);
                let b = r.relationship_value(relationship);
                match (a, b) {
                    (Some(x), Some(y)) => Some(x || y),
                    (Some(x), None) => Some(x),
                    (None, Some(y)) => Some(y),
                    (None, None) => None,
                }
            },
        }
    }

    /// Whether the expression holds of the element (unknown counts as no).
    pub fn matches_element(&self, element: &Element) -> (r: bool)
        ensures
            r == (element_value(*self, *element) == Some(true)),
    {
        match self.element_value(element) {
            Some(v) => v,
            None => false,
        }
    }

    /// Whether the expression holds of the relationship (unknown counts as no).
    pub fn matches_relationship(&self, relationship: &Relationship) -> (r: bool)
        ensures
            r == (relationship_value(*self, *relationship) == Some(true)),
    {
        match self.relationship_value(relationship) {
            Some(v) => v,
            None => false,
        }
    }
}

fn slice_string(s: &[char], from: usize, to: usize) -> (r: String)
    requires
        from <= to <= s@.len(),
    ensures
        r@ == s@.subrange(from as int, to as int),
{
    string_of(&s[from..to])
}

fn is_operator_char(c: char) -> (r: bool)
    ensures
        r == (c == '(' || c == ')' || c == '!' || c == '=' || c == '&' || c == '|'),
{
    c == '(' || c == ')' || c == '!' || c == '=' || c == '&' || c == '|'
}

/// Splits a view expression into values and operators. Fails on an unterminated quoted value.
pub(crate) fn expression_tokens(value: &str) -> (r: Result<Vec<ExpressionToken>, String>) {
    let chars = chars_of(value);
    let n = chars.len();
    let mut tokens: Vec<ExpressionToken> = Vec::new();
    let mut i: usize = 0;
    while i < n
        invariant
            n == chars@.len(),
            i <= n,
        decreases n - i,
    {
        let c = chars[i];
        if is_whitespace(c) {
            i = i + 1;
        } else if c == '(' {
            tokens.push(ExpressionToken::LeftParen);
            i = i + 1;
        } else if c == ')' {
            tokens.push(ExpressionToken::RightParen);
            i = i + 1;
        } else if c == '!' && i + 1 < n && chars[i + 1] == '=' {
            tokens.push(ExpressionToken::NotEqual);
            i = i + 2;
        } else if c == '!' {
            tokens.push(ExpressionToken::Not);
            i = i + 1;
        } else if c == '=' && i + 1 < n && chars[i + 1] == '=' {
            tokens.push(ExpressionToken::Equal);
            i = i + 2;
        } else if c == '&' && i + 1 < n && chars[i + 1] == '&' {
            tokens.push(ExpressionToken::And);
            i = i + 2;
        } else if c == '|' && i + 1 < n && chars[i + 1] == '|' {
            tokens.push(ExpressionToken::Or);
            i = i + 2;
        } else if c == '"' {
            let mut j = i + 1;
            while j < n && chars[j] != '"'
                invariant
                    i < j <= n,
                    n == chars@.len(),
                decreases n - j,
            {
                j = j + 1;
            }
            if j == n {
                return Err(String::from_str("unterminated quoted value"));
            }
            tokens.push(ExpressionToken::Value(slice_string(chars.as_slice(), i, j + 1)));
            i = j + 1;
        } else {
            let mut j = i + 1;
            while j < n && !(is_whitespace(chars[j]) || is_operator_char(chars[j]))
                invariant
                    i < j <= n,
                    n == chars@.len(),
                decreases n - j,
            {
                j = j + 1;
            }
            tokens.push(ExpressionToken::Value(slice_string(chars.as_slice(), i, j)));
            i = j;
        }
    }
    Ok(tokens)
}

/// `s` without leading and trailing double quotes.
pub open spec fn trim_quotes(s: Seq<char>) -> Seq<char>
    decreases s.len(),
{
    if s.len() > 0 && s[0] == '"' {
        trim_quotes(s.drop_first())
    } else if s.len() > 0 && s.last() == '"' {
        trim_quotes(s.drop_last())
    } else {
        s
    }
}

fn trim_quote_chars(s: &str) -> (r: String)
    ensures
        r@ == trim_quotes(s@),
{
    let v = chars_of(s);
    let mut a: usize = 0;
    let mut b: usize = v.len();
    assert(v@.subrange(0, v@.len() as int) =~= v@);
    while a < b && (v[a] == '"' || v[b - 1] == '"')
        invariant
            a <= b <= v@.len(),
            v@ == s@,
            trim_quotes(s@) == trim_quotes(v@.subrange(a as int, b as int)),
        decreases b - a,
    {
        if v[a] == '"' {
            assert(v@.subrange(a as int, b as int).drop_first() =~= v@.subrange(a + 1, b as int));
            a = a + 1;
        } else {
            assert(v@.subrange(a as int, b as int).drop_last() =~= v@.subrange(a as int, b - 1));
            b = b - 1;
        }
    }
    string_of(&v.as_slice()[a..b])
}

/// Where the first `.` of a text is, or its length.
pub open spec fn first_dot(s: Seq<char>) -> nat
    decreases s.len(),
{
    if s.len() == 0 || s[0] == '.' { 0 } else { 1 + first_dot(s.drop_first()) }
}

/// Whether a field is the property `name`.
pub open spec fn property_named(f: ExpressionField, name: Seq<char>) -> bool {
    match f {
        ExpressionField::Property(n) => n@ == name,
        _ => false,
    }
}

/// What reading a predicate field from `value` gives: the target before the first `.` and the
/// field after it, each refused with its own message.
pub open spec fn field_result(value: Seq<char>, r: Result<(ExpressionTarget, ExpressionField), String>) -> bool {
    let d = first_dot(value);
    let name = value.take(d as int);
    let field = value.skip(d as int + 1);
    if d >= value.len() {
        r matches Err(m) && m@ == "unsupported predicate '"@ + value + "'"@
    } else if name != "element"@ && name != "relationship"@ {
        r matches Err(m) && m@ == "unsupported expression target '"@ + name + "'"@
    } else {
        let t = if name == "element"@ { ExpressionTarget::Element } else { ExpressionTarget::Relationship };
        if field == "tag"@ {
            r matches Ok(p) && p.0 == t && p.1 is Tag
        } else if field == "type"@ && t == ExpressionTarget::Element {
            r matches Ok(p) && p.0 == t && p.1 is Type
        } else if crate::text::has_prefix(field, "properties."@) && field.len() > "properties."@.len() {
            r matches Ok(p) && p.0 == t && property_named(p.1, field.skip("properties."@.len() as int))
        } else {
            r matches Err(m) && m@ == "unsupported expression field '"@ + field + "'"@
        }
    }
}

/// The target and field named by `element.tag`, `element.type`, `element.properties.NAME`,
/// `relationship.tag` or `relationship.properties.NAME`.
pub(crate) fn expression_field(value: &str) -> (r: Result<(ExpressionTarget, ExpressionField), String>)
    ensures
        field_result(value@, r),
{
    let v = chars_of(value);
    let mut dot: usize = 0;
    assert(v@.skip(0) =~= v@);
    while dot < v.len() && v[dot] != '.'
        invariant
            dot <= v@.len(),
            v@ == value@,
            first_dot(v@) == dot + first_dot(v@.skip(dot as int)),
        decreases v.len() - dot,
    {
        assert(v@.skip(dot as int).drop_first() =~= v@.skip(dot + 1));
        dot = dot + 1;
    }
    if dot < v.len() {
        assert(v@.skip(dot as int)[0] == v@[dot as int]);
    } else {
        assert(v@.skip(dot as int) =~= Seq::<char>::empty());
    }
    if dot == v.len() {
        return Err(cat3("unsupported predicate '", value, "'"));
    }
    let target_name = slice_string(v.as_slice(), 0, dot);
    let field = slice_string(v.as_slice(), dot + 1, v.len());
    let target = if seq_eq(target_name.as_str(), "element") {
        ExpressionTarget::Element
    } else if seq_eq(target_name.as_str(), "relationship") {
        ExpressionTarget::Relationship
    } else {
        return Err(cat3("unsupported expression target '", target_name.as_str(), "'"));
    };
    let f = chars_of(field.as_str());
    let prefix = chars_of("properties.");
    if seq_eq(field.as_str(), "tag") {
        Ok((target, ExpressionField::Tag))
    } else if seq_eq(field.as_str(), "type") && matches!(target, ExpressionTarget::Element) {
        Ok((target, ExpressionField::Type))
    } else if crate::text::starts_with(field.as_str(), "properties.") && f.len() > prefix.len() {
        let name = slice_string(f.as_slice(), prefix.len(), f.len());
        Ok((target, ExpressionField::Property(name)))
    } else {
        Err(cat3("unsupported expression field '", field.as_str(), "'"))
    }
}

/// Whether a selector looks like an expression: it mentions `element.` or `relationship.`.
pub fn expression_candidate(value: &str) -> (r: bool)
    ensures
        r == (has_infix(value@, "element."@) || has_infix(value@, "relationship."@)),
{
    contains(value, "element.") || contains(value, "relationship.")
}

#[derive(Clone, Copy)]
enum Symbol {
    Equal,
    NotEqual,
    And,
    Or,
    Not,
    LeftParen,
    RightParen,
}

struct ExpressionParser {
    tokens: Vec<ExpressionToken>,
    index: usize,
}

impl ExpressionParser {
    fn eat(&mut self, symbol: Symbol) -> (r: bool)
        requires
            old(self).index <= old(self).tokens@.len(),
        ensures
            final(self).tokens@ == old(self).tokens@,
            final(self).index == if r { old(self).index + 1 } else { old(self).index as int },
            final(self).index <= final(self).tokens@.len(),
    {
        if self.index >= self.tokens.len() {
            return false;
        }
        let hit = match (&self.tokens[self.index], symbol) {
            (ExpressionToken::Equal, Symbol::Equal) => true,
            (ExpressionToken::NotEqual, Symbol::NotEqual) => true,
            (ExpressionToken::And, Symbol::And) => true,
            (ExpressionToken::Or, Symbol::Or) => true,
            (ExpressionToken::Not, Symbol::Not) => true,
            (ExpressionToken::LeftParen, Symbol::LeftParen) => true,
            (ExpressionToken::RightParen, Symbol::RightParen) => true,
            _ => false,
        };
        if hit {
            self.index = self.index + 1;
        }
        hit
    }

    fn take_value(&mut self) -> (r: Option<String>)
        requires
            old(self).index <= old(self).tokens@.len(),
        ensures
            final(self).tokens@ == old(self).tokens@,
            final(self).index == if r is Some { old(self).index + 1 } else { old(self).index as int },
            final(self).index <= final(self).tokens@.len(),
    {
        if self.index >= self.tokens.len() {
            return None;
        }
        let value = match &self.tokens[self.index] {
            ExpressionToken::Value(v) => v.clone(),
            _ => {
                return None;
            },
        };
        self.index = self.index + 1;
        Some(value)
    }

    fn parse_or(&mut self) -> (r: Result<ViewExpression, String>)
        requires
            old(self).index <= old(self).tokens@.len(),
        ensures
            final(self).tokens@ == old(self).tokens@,
            old(self).index <= final(self).index <= final(self).tokens@.len(),
        decreases old(self).tokens@.len() - old(self).index, 2nat,
    {
        let start = self.index;
        let mut expression = self.parse_and()?;
        while self.eat(Symbol::Or)
            invariant
                self.tokens@ == old(self).tokens@,
                start <= self.index <= self.tokens@.len(),
                start == old(self).index,
            decreases self.tokens@.len() - self.index,
        {
            let right = self.parse_and()?;
            expression = ViewExpression::Or(Box::new(expression), Box::new(right));
        }
        Ok(expression)
    }

    fn parse_and(&mut self) -> (r: Result<ViewExpression, String>)
        requires
            old(self).index <= old(self).tokens@.len(),
        ensures
            final(self).tokens@ == old(self).tokens@,
            old(self).index <= final(self).index <= final(self).tokens@.len(),
        decreases old(self).tokens@.len() - old(self).index, 1nat,
    {
        let start = self.index;
        let mut expression = self.parse_unary()?;
        while self.eat(Symbol::And)
            invariant
                self.tokens@ == old(self).tokens@,
                start <= self.index <= self.tokens@.len(),
                start == old(self).index,
            decreases self.tokens@.len() - self.index,
        {
            let right = self.parse_unary()?;
            expression = ViewExpression::And(Box::new(expression), Box::new(right));
        }
        Ok(expression)
    }

    fn parse_unary(&mut self) -> (r: Result<ViewExpression, String>)
        requires
            old(self).index <= old(self).tokens@.len(),
        ensures
            final(self).tokens@ == old(self).tokens@,
            old(self).index <= final(self).index <= final(self).tokens@.len(),
        decreases old(self).tokens@.len() - old(self).index, 0nat,
    {
        if self.eat(Symbol::Not) {
            let inner = self.parse_unary()?;
            return Ok(ViewExpression::Not(Box::new(inner)));
        }
        if self.eat(Symbol::LeftParen) {
            let expression = self.parse_or()?;
            if !self.eat(Symbol::RightParen) {
                return Err(String::from_str("missing ')'"));
            }
            return Ok(expression);
        }
        self.parse_predicate()
    }

    fn parse_predicate(&mut self) -> (r: Result<ViewExpression, String>)
        requires
            old(self).index <= old(self).tokens@.len(),
        ensures
            final(self).tokens@ == old(self).tokens@,
            old(self).index <= final(self).index <= final(self).tokens@.len(),
    {
        let name = match self.take_value() {
            Some(name) => name,
            None => {
                return Err(String::from_str("expected element or relationship predicate"));
            },
        };
        let equal = if self.eat(Symbol::Equal) {
            true
        } else if self.eat(Symbol::NotEqual) {
            false
        } else {
            return Err(String::from_str("expected == or !="));
        };
        let raw = match self.take_value() {
            Some(raw) => raw,
            None => {
                return Err(String::from_str("comparison value is missing"));
            },
        };
        let value = trim_quote_chars(raw.as_str());
        let (target, field) = expression_field(name.as_str())?;
        Ok(ViewExpression::Predicate { target, field, equal, value })
    }
}

/// Parses a view expression of predicates `target.field==value` or `!=`, with `!`, `&&`, `||`
/// and parentheses; `||` binds loosest.
pub fn parse_view_expression(value: &str) -> (r: Result<ViewExpression, String>) {
    let tokens = expression_tokens(value)?;
    let mut parser = ExpressionParser { tokens, index: 0 };
    let expression = parser.parse_or()?;
    if parser.index != parser.tokens.len() {
        return Err(String::from_str("unexpected trailing token"));
    }
    Ok(expression)
}

} // verus!
