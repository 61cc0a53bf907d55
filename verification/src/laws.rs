use vstd::prelude::*;
use crate::diagnostic::joined;
use crate::mermaid::{escaped, node_name};
use crate::source::{byte_at, char_index_at, is_line_start, lemma_char_index_of_byte, lemma_index_from, line_start_before, max_nat, min_nat, newline_count, Span};
use crate::view_expression::{element_value, relationship_value, ViewExpression};
use crate::model::{Element, Relationship};

verus! {

/// Merging two spans of one text gives a span that covers both.
pub proof fn merge_covers_both(a: Span, b: Span)
    ensures
        min_nat(a.start, b.start) <= a.start,
        min_nat(a.start, b.start) <= b.start,
        max_nat(a.end, b.end) >= a.end,
        max_nat(a.end, b.end) >= b.end,
{
}

/// Rendering a list of one diagnostic gives that diagnostic's rendering.
pub proof fn render_all_of_one(part: Seq<char>, sep: Seq<char>)
    ensures
        joined(seq![part], sep) == part,
{
}

/// Rendering a list joins the renderings of its prefix and its last diagnostic with the
/// separator.
pub proof fn render_all_appends(parts: Seq<Seq<char>>, part: Seq<char>, sep: Seq<char>)
    requires
        parts.len() > 0,
    ensures
        joined(parts.push(part), sep) == joined(parts, sep) + sep + part,
{
    assert(parts.push(part).drop_last() =~= parts);
}

/// A Mermaid node id holds no `.` and no `-`, and keeps the identifier's length.
pub proof fn node_ids_have_no_separators(s: Seq<char>)
    ensures
        node_name(s).len() == s.len(),
        forall|i: int| 0 <= i < s.len() ==> node_name(s)[i] != '.' && node_name(s)[i] != '-',
{
}

/// An escaped Mermaid label holds no `"` and no `|`, and keeps every other character.
pub proof fn escaped_labels_are_safe(s: Seq<char>)
    ensures
        escaped(s).len() == s.len(),
        forall|i: int| 0 <= i < s.len() ==> escaped(s)[i] != '"' && escaped(s)[i] != '|',
        forall|i: int| 0 <= i < s.len() && s[i] != '"' && s[i] != '|' ==> escaped(s)[i] == s[i],
{
}

proof fn lemma_line_start_before(s: Seq<char>, o: int)
    requires
        0 <= o <= s.len(),
    ensures
        0 <= line_start_before(s, o) <= o,
        newline_count(s.take(line_start_before(s, o))) == newline_count(s.take(o)),
        line_start_before(s, o) == 0 || s[line_start_before(s, o) - 1] == '\n',
    decreases o,
{
    if o > 0 {
        if s[o - 1] == '\n' {
        } else {
            lemma_line_start_before(s, o - 1);
            assert(s.take(o).drop_last() =~= s.take(o - 1));
        }
    }
}

/// The line of an offset, counted from one as `line_column` counts it, starts where the
/// column count of that offset starts: so `line_start` of that line and `line_column` agree.
pub proof fn line_and_column_agree(s: Seq<char>, o: int)
    requires
        0 <= o <= s.len(),
    ensures
        is_line_start(s, newline_count(s.take(o)) + 1int, line_start_before(s, o)),
{
    lemma_line_start_before(s, o);
}

/// For a byte offset `b`: the line that `line_column` gives starts at the byte offset that
/// `line_start` gives for it, and the column counts the characters from there to `b`'s
/// character; at a character's first byte, going back from the line start by those columns
/// gives `b` again.
pub proof fn line_start_round_trip(s: Seq<char>, b: int)
    requires
        b >= 0,
    ensures
        ({
            let o = char_index_at(s, b);
            let k = line_start_before(s, o);
            &&& is_line_start(s, newline_count(s.take(o)) + 1int, k)
            &&& k <= o
            &&& (exists|j: int| 0 <= j <= s.len() && byte_at(s, j) == b) ==> byte_at(s, k + (o - k)) == b
        }),
{
    assert(s.take(0) =~= Seq::<char>::empty());
    lemma_index_from(s, b, 0);
    let o = char_index_at(s, b);
    lemma_line_start_before(s, o);
    if exists|j: int| 0 <= j <= s.len() && byte_at(s, j) == b {
        let j = choose|j: int| 0 <= j <= s.len() && byte_at(s, j) == b;
        lemma_char_index_of_byte(s, j);
    }
}

/// `!e` is known exactly where `e` is, with the opposite value, on elements and on
/// relationships.
pub proof fn negation_flips(e: ViewExpression, element: Element, relationship: Relationship)
    ensures
        element_value(ViewExpression::Not(Box::new(e)), element) == match element_value(e, element) {
            Some(v) => Some(!v),
            None => None,
        },
        relationship_value(ViewExpression::Not(Box::new(e)), relationship) == match relationship_value(e, relationship) {
            Some(v) => Some(!v),
            None => None,
        },
{
}

} // verus!
