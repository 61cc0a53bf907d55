use vstd::prelude::*;
use vstd::set_lib::{lemma_int_range, lemma_len_subset, set_int_range};
use crate::chars::is_whitespace;
use crate::diagnostic::Diagnostic;
use crate::model::IncludeDependency;
use crate::source::{SourceId, SourceMap, SourceSegment, Span};
use crate::text::{cat, cat3, cat5, chars_of, seq_eq, string_of, usize_to_string};

verus! {

/// What preprocessing produced: the id of the generated text, the includes that were followed
/// and the warnings that came up.
#[derive(Debug)]
pub struct Preprocessed {
    pub source_id: SourceId,
    pub dependencies: Vec<IncludeDependency>,
    pub warnings: Vec<Diagnostic>,
}

/// One entry of a directory named by `!include`.
#[derive(Debug)]
pub struct DirectoryEntry {
    pub path: String,
    pub is_file: bool,
}

/// What reading a local include path gave.
#[derive(Debug)]
pub enum IncludeTarget {
    /// The path names a readable UTF-8 file.
    File { canonical: String, text: String },
    /// The path names a file that is not valid UTF-8.
    NotUtf8 { canonical: String },
    /// The path names a file that could not be read.
    Unreadable { canonical: String, error: String },
    /// The path could not be resolved.
    Missing { error: String },
    /// The path names a directory with these entries.
    Directory { entries: Vec<DirectoryEntry> },
    /// The path names a directory that could not be listed.
    DirectoryUnreadable { error: String },
    /// One entry of the directory could not be read.
    DirectoryEntryUnreadable { error: String },
}

/// What reading `path` gave.
#[derive(Debug)]
pub struct LoadedInclude {
    pub path: String,
    pub target: IncludeTarget,
}

/// Why preprocessing stopped: the rendered diagnostics, and the include path that had not been
/// read yet when that is the reason.
#[derive(Debug)]
pub struct PreprocessFailure {
    pub message: String,
    pub needs: Option<String>,
}

pub open spec fn canonical_of(t: IncludeTarget) -> Seq<char> {
    match t {
        IncludeTarget::File { canonical, .. } => canonical@,
        IncludeTarget::NotUtf8 { canonical } => canonical@,
        IncludeTarget::Unreadable { canonical, .. } => canonical@,
        _ => Seq::empty(),
    }
}

/// A text with no directive and no substitution: it has neither `!` nor `$`.
pub open spec fn plain(s: Seq<char>) -> bool {
    forall|i: int| 0 <= i < s.len() ==> (#[trigger] s[i]) != '!' && s[i] != '$'
}

struct Constant {
    name: Vec<char>,
    value: Vec<char>,
    span: Span,
}

/// Constants as name and value.
spec fn constant_pairs(cs: Seq<Constant>) -> Seq<(Seq<char>, Seq<char>)> {
    Seq::new(cs.len(), |i: int| (cs[i].name@, cs[i].value@))
}

/// The first constant from position `k` on named `name`.
pub open spec fn first_named(cs: Seq<(Seq<char>, Seq<char>)>, name: Seq<char>, k: int) -> Option<int>
    decreases cs.len() - k,
{
    if k < 0 || k >= cs.len() {
        None
    } else if cs[k].0 == name {
        Some(k)
    } else {
        first_named(cs, name, k + 1)
    }
}

/// The first `}` of `t` at or after position `j`.
pub open spec fn close_brace(t: Seq<char>, j: int) -> Option<int>
    decreases t.len() - j,
{
    if j < 0 || j >= t.len() {
        None
    } else if t[j] == '}' {
        Some(j)
    } else {
        close_brace(t, j + 1)
    }
}

/// `text` with each `${NAME}` replaced by the substituted value of the first constant named
/// `NAME`, none of the constants on `stack` taken again; `None` when a substitution is not
/// closed, names no constant, or comes back to a constant being substituted.
pub open spec fn substituted(cs: Seq<(Seq<char>, Seq<char>)>, text: Seq<char>, stack: Seq<usize>) -> Option<Seq<char>>
    decreases cs.len() - stack.len(), text.len(), 1nat,
{
    if text.len() == 0 {
        Some(Seq::empty())
    } else if text[0] == '$' && text.len() > 1 && text[1] == '{' {
        match close_brace(text, 2) {
            None => None,
            Some(j) => {
                if j < 2 || j >= text.len() {
                    None
                } else {
                    match constant_value(cs, text.subrange(2, j), stack) {
                        None => None,
                        Some(v) => match substituted(cs, text.skip(j + 1), stack) {
                            None => None,
                            Some(rest) => Some(v + rest),
                        },
                    }
                }
            },
        }
    } else {
        match substituted(cs, text.skip(1), stack) {
            None => None,
            Some(rest) => Some(seq![text[0]] + rest),
        }
    }
}

proof fn lemma_close_found(t: Seq<char>, s: int, j: int)
    requires
        0 <= s <= j < t.len(),
        t[j] == '}',
        forall|m: int| s <= m < j ==> t[m] != '}',
    ensures
        close_brace(t, s) == Some(j),
    decreases j - s,
{
    if s < j {
        lemma_close_found(t, s + 1, j);
    }
}

proof fn lemma_close_missing(t: Seq<char>, s: int)
    requires
        0 <= s <= t.len(),
        forall|m: int| s <= m < t.len() ==> t[m] != '}',
    ensures
        close_brace(t, s) is None,
    decreases t.len() - s,
{
    if s < t.len() {
        lemma_close_missing(t, s + 1);
    }
}

/// Substitution goes through a text in order: text before a `${NAME}` without `$` stays as it
/// is, the placeholder becomes the constant's substituted value, and the rest of the text is
/// substituted in turn, so every placeholder on a line is replaced.
pub proof fn substitution_composes(cs: Seq<(Seq<char>, Seq<char>)>, a: Seq<char>, name: Seq<char>, b: Seq<char>, stack: Seq<usize>)
    requires
        !a.contains('$'),
        !name.contains('}'),
    ensures
        substituted(cs, a + seq!['$', '{'] + name + seq!['}'] + b, stack) == match (constant_value(cs, name, stack), substituted(cs, b, stack)) {
            (Some(v), Some(r)) => Some(a + v + r),
            _ => None::<Seq<char>>,
        },
    decreases a.len(),
{
    let t = a + seq!['$', '{'] + name + seq!['}'] + b;
    if a.len() == 0 {
        assert(t =~= seq!['$', '{'] + name + seq!['}'] + b);
        let j = (name.len() + 2) as int;
        assert forall|m: int| 2 <= m < j implies t[m] != '}' by {
            assert(t[m] == name[m - 2]);
        }
        lemma_close_found(t, 2, j);
        assert(t.subrange(2, j) =~= name);
        assert(t.skip(j + 1) =~= b);
        assert(a + Seq::<char>::empty() =~= a);
        match (constant_value(cs, name, stack), substituted(cs, b, stack)) {
            (Some(v), Some(r)) => { assert(a + v + r =~= v + r); },
            _ => {},
        }
    } else {
        assert(t[0] == a[0]);
        assert(a[0] != '$') by {
            if a[0] == '$' {
                assert(a.contains('$'));
            }
        }
        let a1 = a.skip(1);
        assert(!a1.contains('$')) by {
            if a1.contains('$') {
                let m = choose|m: int| 0 <= m < a1.len() && a1[m] == '$';
                assert(a[m + 1] == '$');
            }
        }
        assert(t.skip(1) =~= a1 + seq!['$', '{'] + name + seq!['}'] + b);
        substitution_composes(cs, a1, name, b, stack);
        match (constant_value(cs, name, stack), substituted(cs, b, stack)) {
            (Some(v), Some(r)) => { assert(seq![t[0]] + (a1 + v + r) =~= a + v + r); },
            _ => {},
        }
    }
}

/// Text without `$` is left as it is.
pub proof fn plain_text_unchanged(cs: Seq<(Seq<char>, Seq<char>)>, text: Seq<char>, stack: Seq<usize>)
    requires
        !text.contains('$'),
    ensures
        substituted(cs, text, stack) == Some(text),
    decreases text.len(),
{
    if text.len() > 0 {
        let t1 = text.skip(1);
        assert(text[0] != '$') by {
            if text[0] == '$' {
                assert(text.contains('$'));
            }
        }
        assert(!t1.contains('$')) by {
            if t1.contains('$') {
                let m = choose|m: int| 0 <= m < t1.len() && t1[m] == '$';
                assert(text[m + 1] == '$');
            }
        }
        plain_text_unchanged(cs, t1, stack);
        assert(seq![text[0]] + t1 =~= text);
    } else {
        assert(text =~= Seq::<char>::empty());
    }
}

/// The substituted value of the first constant named `name`, unless it is on `stack`.
pub open spec fn constant_value(cs: Seq<(Seq<char>, Seq<char>)>, name: Seq<char>, stack: Seq<usize>) -> Option<Seq<char>>
    decreases cs.len() - stack.len(), 0nat, 0nat,
{
    match first_named(cs, name, 0) {
        None => None,
        Some(k) => {
            if stack.contains(k as usize) || stack.len() >= cs.len() || k < 0 || k >= cs.len() {
                None
            } else {
                substituted(cs, cs[k].1, stack.push(k as usize))
            }
        },
    }
}

struct Context {
    allow_network: bool,
    strict_safe: bool,
    constants: Vec<Constant>,
    stack: Vec<String>,
    base: usize,
    nested: Vec<usize>,
    dependencies: Vec<IncludeDependency>,
    warnings: Vec<Diagnostic>,
    output: Vec<char>,
    mappings: Vec<SourceSegment>,
    missing: Option<String>,
}

proof fn lemma_distinct_bound(s: Seq<usize>, n: nat)
    requires
        s.no_duplicates(),
        forall|i: int| 0 <= i < s.len() ==> (#[trigger] s[i]) < n,
    ensures
        s.len() <= n,
{
    let t = s.map_values(|x: usize| x as int);
    assert(t.no_duplicates()) by {
        assert forall|i: int, j: int| 0 <= i < t.len() && 0 <= j < t.len() && i != j implies t[i] != t[j] by {
            assert(s[i] != s[j]);
        }
    }
    t.unique_seq_to_set();
    lemma_int_range(0, n as int);
    assert(t.to_set().subset_of(set_int_range(0, n as int))) by {
        assert forall|x: int| t.to_set().contains(x) implies set_int_range(0, n as int).contains(x) by {
            let i = choose|i: int| 0 <= i < t.len() && t[i] == x;
            assert(s[i] < n);
        }
    }
    lemma_len_subset(t.to_set(), set_int_range(0, n as int));
}

fn chars_equal(a: &[char], b: &[char]) -> (r: bool)
    ensures
        r == (a@ == b@),
{
    if a.len() != b.len() {
        return false;
    }
    let mut i: usize = 0;
    while i < a.len()
        invariant
            a.len() == b.len(),
            i <= a.len(),
            forall|j: int| 0 <= j < i ==> a@[j] == b@[j],
        decreases a.len() - i,
    {
        if a[i] != b[i] {
            return false;
        }
        i = i + 1;
    }
    assert(a@ =~= b@);
    true
}

fn slice_vec(s: &[char], from: usize, to: usize) -> (r: Vec<char>)
    requires
        from <= to <= s@.len(),
    ensures
        r@ == s@.subrange(from as int, to as int),
{
    let mut r: Vec<char> = Vec::new();
    let mut i = from;
    while i < to
        invariant
            from <= i <= to <= s@.len(),
            r@ == s@.subrange(from as int, i as int),
        decreases to - i,
    {
        r.push(s[i]);
        i = i + 1;
        assert(r@ =~= s@.subrange(from as int, i as int));
    }
    r
}

/// Whether `s[from..to]` begins with the directive `name` followed by whitespace or nothing;
/// gives the offset after the name.
fn directive(s: &[char], from: usize, to: usize, name: &str) -> (r: Option<usize>)
    requires
        from <= to <= s@.len(),
    ensures
        match r {
            Some(k) => k == from + name@.len() && k <= to
                && s@.subrange(from as int, k as int) == name@,
            None => true,
        },
{
    let n = chars_of(name);
    if to - from < n.len() {
        return None;
    }
    let mut i: usize = 0;
    while i < n.len()
        invariant
            n@ == name@,
            from + n.len() <= to <= s@.len(),
            i <= n.len(),
            forall|j: int| 0 <= j < i ==> s@[from + j] == n@[j],
        decreases n.len() - i,
    {
        if s[from + i] != n[i] {
            return None;
        }
        i = i + 1;
    }
    let k = from + n.len();
    assert(s@.subrange(from as int, k as int) =~= n@);
    if k == to || is_whitespace(s[k]) {
        Some(k)
    } else {
        None
    }
}

/// The value without one pair of surrounding double quotes.
fn unquote(v: &[char]) -> (r: Vec<char>)
    ensures
        r@ == if v@.len() >= 2 && v@[0] == '"' && v@.last() == '"' {
            v@.subrange(1, v@.len() - 1)
        } else {
            v@
        },
{
    if v.len() >= 2 && v[0] == '"' && v[v.len() - 1] == '"' {
        slice_vec(v, 1, v.len() - 1)
    } else {
        slice_vec(v, 0, v.len())
    }
}

fn trimmed(v: &[char]) -> (r: Vec<char>)
    ensures
        r@ == crate::text::trim_ws(v@),
{
    let (a, b) = crate::text::trim_bounds(v);
    slice_vec(v, a, b)
}

/// Whether the value starts with `http://` or `https://`.
fn is_url(v: &[char]) -> (r: bool) {
    directive_prefix(v, "http://") || directive_prefix(v, "https://")
}

fn directive_prefix(v: &[char], p: &str) -> (r: bool)
    ensures
        r == crate::text::has_prefix(v@, p@),
{
    let s = string_of(v);
    crate::text::starts_with(s.as_str(), p)
}

/// The directory part of `path`: what precedes its last `/`, or nothing.
fn parent_of(path: &[char]) -> (r: Vec<char>)
    ensures
        r@.len() <= path@.len(),
        r@ == path@.subrange(0, r@.len() as int),
{
    let mut i = path.len();
    while i > 0
        invariant
            i <= path@.len(),
        decreases i,
    {
        if path[i - 1] == '/' {
            return slice_vec(path, 0, i - 1);
        }
        i = i - 1;
    }
    Vec::new()
}

/// `target` relative to directory `dir`; an absolute target stands alone.
fn join_path(dir: &[char], target: &[char]) -> (r: Vec<char>)
    ensures
        r@ == if target@.len() > 0 && target@[0] == '/' || dir@.len() == 0 {
            target@
        } else {
            dir@ + seq!['/'] + target@
        },
{
    let mut r = slice_vec(dir, 0, dir.len());
    if target.len() > 0 && target[0] == '/' || dir.len() == 0 {
        return slice_vec(target, 0, target.len());
    }
    r.push('/');
    let mut i: usize = 0;
    let ghost base = r@;
    while i < target.len()
        invariant
            i <= target@.len(),
            r@ == base + target@.subrange(0, i as int),
        decreases target.len() - i,
    {
        r.push(target[i]);
        i = i + 1;
        assert(r@ =~= base + target@.subrange(0, i as int));
    }
    assert(target@.subrange(0, target@.len() as int) =~= target@);
    r
}

/// Whether the file name of `path` has the extension `dsl`.
/// Whether a path's file name has the extension `dsl` after a `.` that is not its first
/// character.
pub open spec fn dsl_extension(path: Seq<char>) -> bool {
    let name = crate::documentation::file_name_of(path);
    let d = crate::validate::last_dot_end(name);
    d > 1 && name.skip(d as int) == "dsl"@
}

fn has_dsl_extension(path: &[char]) -> (r: bool)
    ensures
        r == dsl_extension(path@),
{
    let n = path.len();
    let mut start = n;
    assert(path@.take(n as int) =~= path@);
    while start > 0 && path[start - 1] != '/'
        invariant
            start <= n == path@.len(),
            crate::documentation::name_start(path@) == crate::documentation::name_start(path@.take(start as int)),
        decreases start,
    {
        assert(path@.take(start as int).drop_last() =~= path@.take(start - 1));
        start = start - 1;
    }
    if start > 0 {
        assert(path@.take(start as int).last() == path@[start - 1]);
    }
    let ghost name = path@.skip(start as int);
    assert(name =~= crate::documentation::file_name_of(path@));
    let mut dot = n;
    assert(name.take(n - start) =~= name);
    while dot > start && path[dot - 1] != '.'
        invariant
            start <= dot <= n == path@.len(),
            name == path@.skip(start as int),
            crate::validate::last_dot_end(name) == crate::validate::last_dot_end(name.take(dot - start)),
        decreases dot,
    {
        assert(name.take(dot - start).drop_last() =~= name.take(dot - 1 - start));
        assert(name.take(dot - start).last() == path@[dot - 1]);
        dot = dot - 1;
    }
    if dot > start {
        assert(name.take(dot - start).last() == path@[dot - 1]);
    }
    proof {
        reveal_strlit("dsl");
        assert("dsl"@ =~= seq!['d', 's', 'l']);
        if dot == start {
            assert(name.take(0) =~= Seq::<char>::empty());
        }
        assert(crate::validate::last_dot_end(name) == dot - start);
        if n - dot == 3 {
            let e = name.skip(dot - start);
            assert(e[0] == path@[dot as int] && e[1] == path@[dot + 1] && e[2] == path@[dot + 2]);
            assert(e =~= seq![path@[dot as int], path@[dot + 1], path@[dot + 2]]);
        } else {
            assert(name.skip(dot - start).len() != 3);
        }
    }
    dot > start && dot - start > 1 && n - dot == 3 && path[dot] == 'd' && path[dot + 1] == 's' && path[dot + 2] == 'l'
}

/// Lexicographic order of characters by code point, which is the byte order of UTF-8 text.
pub open spec fn char_seq_le(a: Seq<char>, b: Seq<char>) -> bool
    decreases a.len(),
{
    if a.len() == 0 {
        true
    } else if b.len() == 0 {
        false
    } else if a[0] != b[0] {
        (a[0] as int) < (b[0] as int)
    } else {
        char_seq_le(a.drop_first(), b.drop_first())
    }
}

fn path_le(a: &[char], b: &[char]) -> (r: bool)
    ensures
        r == char_seq_le(a@, b@),
{
    let mut i: usize = 0;
    assert(a@.skip(0) =~= a@ && b@.skip(0) =~= b@);
    while i < a.len() && i < b.len() && a[i] == b[i]
        invariant
            i <= a@.len(),
            i <= b@.len(),
            char_seq_le(a@, b@) == char_seq_le(a@.skip(i as int), b@.skip(i as int)),
        decreases a.len() - i,
    {
        assert(a@.skip(i as int).drop_first() =~= a@.skip(i + 1));
        assert(b@.skip(i as int).drop_first() =~= b@.skip(i + 1));
        i = i + 1;
    }
    if i == a.len() {
        true
    } else if i == b.len() {
        false
    } else {
        a[i] < b[i]
    }
}

/// The path with its backslashes written as slashes: what directory entries are ordered by.
pub open spec fn slash_key(s: Seq<char>) -> Seq<char> {
    Seq::new(s.len(), |i: int| if s[i] == '\\' { '/' } else { s[i] })
}

proof fn lemma_le_total(a: Seq<char>, b: Seq<char>)
    ensures
        char_seq_le(a, b) || char_seq_le(b, a),
    decreases a.len(),
{
    if a.len() > 0 && b.len() > 0 && a[0] == b[0] {
        lemma_le_total(a.drop_first(), b.drop_first());
    }
}

proof fn lemma_le_trans(a: Seq<char>, b: Seq<char>, c: Seq<char>)
    requires
        char_seq_le(a, b),
        char_seq_le(b, c),
    ensures
        char_seq_le(a, c),
    decreases a.len(),
{
    if a.len() > 0 && b.len() > 0 && c.len() > 0 && a[0] == b[0] && b[0] == c[0] {
        lemma_le_trans(a.drop_first(), b.drop_first(), c.drop_first());
    }
}

fn slash_key_of(p: &[char]) -> (r: Vec<char>)
    ensures
        r@ == slash_key(p@),
{
    let mut key: Vec<char> = Vec::new();
    let mut k: usize = 0;
    while k < p.len()
        invariant
            k <= p@.len(),
            key@ == slash_key(p@.subrange(0, k as int)),
        decreases p.len() - k,
    {
        let c = if p[k] == '\\' { '/' } else { p[k] };
        key.push(c);
        k = k + 1;
        assert(key@ =~= slash_key(p@.subrange(0, k as int)));
    }
    assert(p@.subrange(0, p@.len() as int) =~= p@);
    key
}

/// The `.dsl` files among a directory's entries, ordered by `slash_key`; among equal keys
/// the earlier entry comes first.
/// Whether a directory entry is a DSL file.
pub open spec fn dsl_entry(e: DirectoryEntry) -> bool {
    e.is_file && dsl_extension(e.path@)
}

/// Whether `x` is the path of a DSL file among the entries.
pub open spec fn from_entries(entries: Seq<DirectoryEntry>, x: Seq<char>) -> bool {
    exists|j: int| 0 <= j < entries.len() && dsl_entry(#[trigger] entries[j]) && entries[j].path@ == x
}

/// How many entries are DSL files.
pub open spec fn dsl_count(entries: Seq<DirectoryEntry>) -> nat
    decreases entries.len(),
{
    if entries.len() == 0 {
        0
    } else {
        dsl_count(entries.drop_last()) + if dsl_entry(entries.last()) { 1nat } else { 0nat }
    }
}

fn dsl_files(entries: &Vec<DirectoryEntry>) -> (r: Vec<Vec<char>>)
    ensures
        forall|i: int, j: int| 0 <= i < j < r@.len() ==> char_seq_le(slash_key(#[trigger] r@[i]@), slash_key(#[trigger] r@[j]@)),
        r@.len() == dsl_count(entries@),
        forall|i: int| 0 <= i < r@.len() ==> from_entries(entries@, (#[trigger] r@[i])@),
{
    let mut files: Vec<Vec<char>> = Vec::new();
    let mut keys: Vec<Vec<char>> = Vec::new();
    let mut i: usize = 0;
    while i < entries.len()
        invariant
            i <= entries@.len(),
            keys@.len() == files@.len(),
            forall|k: int| 0 <= k < keys@.len() ==> (#[trigger] keys@[k])@ == slash_key(files@[k]@),
            forall|a: int, b: int| 0 <= a < b < keys@.len() ==> char_seq_le((#[trigger] keys@[a])@, (#[trigger] keys@[b])@),
            files@.len() == dsl_count(entries@.take(i as int)),
            forall|f: int| 0 <= f < files@.len() ==> from_entries(entries@, (#[trigger] files@[f])@),
        decreases entries.len() - i,
    {
        assert(entries@.take(i + 1).drop_last() =~= entries@.take(i as int));
        assert(entries@.take(i + 1).last() == entries@[i as int]);
        let path = chars_of(entries[i].path.as_str());
        if entries[i].is_file && has_dsl_extension(path.as_slice()) {
            let key = slash_key_of(path.as_slice());
            let mut p = keys.len();
            while p > 0 && !path_le(keys[p - 1].as_slice(), key.as_slice())
                invariant
                    p <= keys@.len(),
                    forall|k: int| p <= k < keys@.len() ==> !char_seq_le((#[trigger] keys@[k])@, key@),
                decreases p,
            {
                p = p - 1;
            }
            let ghost old_keys = keys@;
            proof {
                assert forall|k: int| p <= k < old_keys.len() implies char_seq_le(key@, (#[trigger] old_keys[k])@) by {
                    lemma_le_total(key@, old_keys[k]@);
                }
                assert forall|k: int| 0 <= k < p implies char_seq_le((#[trigger] old_keys[k])@, key@) by {
                    if k < p - 1 {
                        lemma_le_trans(old_keys[k]@, old_keys[p - 1]@, key@);
                    }
                }
            }
            let ghost old_files = files@;
            assert(dsl_entry(entries@[i as int]));
            keys.insert(p, key);
            files.insert(p, path);
            proof {
                assert forall|f: int| 0 <= f < files@.len() implies from_entries(entries@, (#[trigger] files@[f])@) by {
                    if f < p {
                        assert(files@[f] == old_files[f]);
                    } else if f > p {
                        assert(files@[f] == old_files[f - 1]);
                    } else {
                        assert(files@[f]@ == entries@[i as int].path@);
                        assert(dsl_entry(entries@[i as int]) && entries@[i as int].path@ == files@[f]@);
                    }
                }
                assert forall|k: int| 0 <= k < keys@.len() implies (#[trigger] keys@[k])@ == slash_key(files@[k]@) by {
                    if k < p {
                        assert(keys@[k] == old_keys[k] && files@[k] == old_files[k]);
                    } else if k > p {
                        assert(keys@[k] == old_keys[k - 1] && files@[k] == old_files[k - 1]);
                    }
                }
                assert forall|a: int, b: int| 0 <= a < b < keys@.len() implies char_seq_le((#[trigger] keys@[a])@, (#[trigger] keys@[b])@) by {
                    if b < p {
                    } else if b == p {
                    } else if a < p {
                        assert(keys@[b] == old_keys[b - 1]);
                    } else if a == p {
                        assert(keys@[b] == old_keys[b - 1]);
                    } else {
                        assert(keys@[a] == old_keys[a - 1]);
                        assert(keys@[b] == old_keys[b - 1]);
                    }
                }
            }
        }
        i = i + 1;
    }
    assert forall|a: int, b: int| 0 <= a < b < files@.len() implies char_seq_le(slash_key(#[trigger] files@[a]@), slash_key(#[trigger] files@[b]@)) by {
        assert(keys@[a]@ == slash_key(files@[a]@));
        assert(keys@[b]@ == slash_key(files@[b]@));
    }
    assert(entries@.take(entries@.len() as int) =~= entries@);
    files
}

fn lookup_include(loaded: &[LoadedInclude], path: &[char]) -> (r: Option<usize>)
    ensures
        match r {
            Some(k) => k < loaded@.len() && loaded@[k as int].path@ == path@,
            None => true,
        },
        loaded@.len() == 0 ==> r is None,
{
    let mut k: usize = 0;
    while k < loaded.len()
        invariant
            k <= loaded@.len(),
        decreases loaded.len() - k,
    {
        let p = chars_of(loaded[k].path.as_str());
        if chars_equal(p.as_slice(), path) {
            return Some(k);
        }
        k = k + 1;
    }
    None
}

/// An error diagnostic with help.
fn failure(span: Span, message: String, help: &str) -> (d: Diagnostic)
    ensures
        d.span == span,
{
    Diagnostic::error(span, message).with_help(String::from_str(help))
}

impl Context {
    spec fn wf(&self, sources: SourceMap, loaded: Seq<LoadedInclude>) -> bool {
        &&& sources.wf()
        &&& forall|i: int| 0 <= i < self.constants@.len() ==> sources.has(#[trigger] self.constants@[i].span)
        &&& forall|k: int| 0 <= k < self.mappings@.len() ==> (#[trigger] self.mappings@[k]).original.source_id.0 < sources.len()
        &&& forall|i: int| 0 <= i < self.warnings@.len() ==> sources.has(#[trigger] self.warnings@[i].span)
        &&& self.nested@.no_duplicates()
        &&& forall|i: int| 0 <= i < self.nested@.len() ==> (#[trigger] self.nested@[i]) < loaded.len()
        &&& self.stack@.len() == self.base + self.nested@.len()
        &&& forall|i: int| 0 <= i < self.nested@.len() ==>
            (#[trigger] self.stack@[self.base + i])@ == canonical_of(loaded[self.nested@[i] as int].target)
    }

    /// Neither dependencies nor warnings were added.
    spec fn quiet(&self, other: &Context) -> bool {
        &&& self.dependencies@ == other.dependencies@
        &&& self.warnings@ == other.warnings@
    }

    spec fn unchanged_stack(&self, other: &Context) -> bool {
        &&& self.nested@ == other.nested@
        &&& self.stack@ == other.stack@
        &&& self.base == other.base
    }

    fn find_constant(&self, name: &[char]) -> (r: Option<usize>)
        ensures
            match r {
                Some(k) => k < self.constants@.len() && self.constants@[k as int].name@ == name@,
                None => forall|k: int| 0 <= k < self.constants@.len() ==> (#[trigger] self.constants@[k]).name@ != name@,
            },
            match r {
                Some(k) => first_named(constant_pairs(self.constants@), name@, 0) == Some(k as int),
                None => first_named(constant_pairs(self.constants@), name@, 0) is None,
            },
    {
        let ghost cs = constant_pairs(self.constants@);
        let mut k: usize = 0;
        while k < self.constants.len()
            invariant
                k <= self.constants@.len(),
                forall|j: int| 0 <= j < k ==> (#[trigger] self.constants@[j]).name@ != name@,
                cs == constant_pairs(self.constants@),
                first_named(cs, name@, 0) == first_named(cs, name@, k as int),
            decreases self.constants.len() - k,
        {
            if chars_equal(self.constants[k].name.as_slice(), name) {
                return Some(k);
            }
            k = k + 1;
        }
        None
    }

    /// Appends generated text that comes from `original`.
    fn append(&mut self, sources: &SourceMap, loaded: &[LoadedInclude], value: &[char], original: Span)
        requires
            old(self).wf(*sources, loaded@),
            sources.has(original),
        ensures
            final(self).wf(*sources, loaded@),
            final(self).unchanged_stack(old(self)),
            final(self).constants@ == old(self).constants@,
            final(self).output@ == old(self).output@ + value@,
            final(self).quiet(old(self)),
    {
        if value.len() == 0 {
            assert(self.output@ + value@ =~= self.output@);
            return;
        }
        let start = self.output.len();
        let mut i: usize = 0;
        let ghost before = self.output@;
        while i < value.len()
            invariant
                i <= value@.len(),
                self.output@ == before + value@.subrange(0, i as int),
                self.wf(*sources, loaded@),
                self.unchanged_stack(old(self)),
                self.constants@ == old(self).constants@,
                self.quiet(old(self)),
                sources.has(original),
            decreases value.len() - i,
        {
            self.output.push(value[i]);
            i = i + 1;
            assert(self.output@ =~= before + value@.subrange(0, i as int));
        }
        assert(value@.subrange(0, value@.len() as int) =~= value@);
        self.mappings.push(SourceSegment { generated_start: start, generated_end: self.output.len(), original });
    }

    /// The names of the constants on `stack`, joined by ` -> `.
    /// The names of the constants on `stack`, joined by arrows.
    spec fn stack_text(&self, stack: Seq<usize>) -> Seq<char>
        decreases stack.len(),
    {
        if stack.len() == 0 {
            Seq::empty()
        } else if stack.len() == 1 {
            self.constants@[stack[0] as int].name@
        } else {
            self.stack_text(stack.drop_last()) + " -> "@ + self.constants@[stack.last() as int].name@
        }
    }

    fn stack_names(&self, stack: &Vec<usize>) -> (r: String)
        requires
            forall|i: int| 0 <= i < stack@.len() ==> (#[trigger] stack@[i]) < self.constants@.len(),
        ensures
            r@ == self.stack_text(stack@),
    {
        let mut r = String::new();
        let mut i: usize = 0;
        while i < stack.len()
            invariant
                i <= stack@.len(),
                forall|i: int| 0 <= i < stack@.len() ==> (#[trigger] stack@[i]) < self.constants@.len(),
                r@ == self.stack_text(stack@.take(i as int)),
            decreases stack.len() - i,
        {
            assert(stack@.take(i + 1).drop_last() =~= stack@.take(i as int));
            assert(stack@.take(i + 1).last() == stack@[i as int]);
            if i == 0 {
                assert(stack@.take(1) =~= seq![stack@[0]]);
            }
            if i > 0 {
                r.append(" -> ");
            }
            let name = string_of(self.constants[stack[i]].name.as_slice());
            r.append(name.as_str());
            i = i + 1;
        }
        assert(stack@.take(stack@.len() as int) =~= stack@);
        r
    }

    /// `value` with each `${NAME}` replaced by the value of constant `NAME`, itself substituted.
    fn substitute_with_stack(&self, sources: &SourceMap, value: &[char], span: Span, stack: &mut Vec<usize>) -> (r: Result<Vec<char>, Diagnostic>)
        requires
            old(stack)@.no_duplicates(),
            forall|i: int| 0 <= i < old(stack)@.len() ==> (#[trigger] old(stack)@[i]) < self.constants@.len(),
            forall|i: int| 0 <= i < self.constants@.len() ==> sources.has(#[trigger] self.constants@[i].span),
            sources.has(span),
        ensures
            final(stack)@ == old(stack)@,
            match r {
                Ok(v) => !value@.contains('$') ==> v@ == value@,
                Err(d) => sources.has(d.span) && value@.contains('$'),
            },
            match r {
                Ok(v) => substituted(constant_pairs(self.constants@), value@, old(stack)@) == Some(v@),
                Err(_) => substituted(constant_pairs(self.constants@), value@, old(stack)@) is None,
            },
        decreases self.constants@.len() - old(stack)@.len(), 1nat,
    {
        let ghost cs = constant_pairs(self.constants@);
        let ghost st = stack@;
        let mut out: Vec<char> = Vec::new();
        let mut i: usize = 0;
        assert(value@.skip(0) =~= value@);
        proof {
            match substituted(cs, value@, st) {
                Some(rest) => { assert(out@ + rest =~= rest); },
                None => {},
            }
        }
        while i < value.len()
            invariant
                i <= value@.len(),
                stack@ == old(stack)@,
                st == old(stack)@,
                cs == constant_pairs(self.constants@),
                old(stack)@.no_duplicates(),
                forall|i: int| 0 <= i < old(stack)@.len() ==> (#[trigger] old(stack)@[i]) < self.constants@.len(),
                forall|i: int| 0 <= i < self.constants@.len() ==> sources.has(#[trigger] self.constants@[i].span),
                sources.has(span),
                !value@.contains('$') ==> out@ == value@.subrange(0, i as int),
                substituted(cs, value@, st) == match substituted(cs, value@.skip(i as int), st) {
                    Some(rest) => Some(out@ + rest),
                    None => None,
                },
            decreases value.len() - i,
        {
            let ghost t = value@.skip(i as int);
            let ghost before = out@;
            let ghost i0 = i as int;
            if value[i] == '$' && i + 1 < value.len() && value[i + 1] == '{' {
                assert(value@.contains('$')) by {
                    assert(value@[i as int] == '$');
                }
                assert(t[0] == '$' && t.len() > 1 && t[1] == '{');
                let mut j = i + 2;
                while j < value.len() && value[j] != '}'
                    invariant
                        i + 2 <= j <= value@.len(),
                        forall|m: int| i + 2 <= m < j ==> value@[m] != '}',
                    decreases value.len() - j,
                {
                    j = j + 1;
                }
                if j == value.len() {
                    proof {
                        assert forall|m: int| 2 <= m < t.len() implies t[m] != '}' by {
                            assert(t[m] == value@[i + m]);
                        }
                        lemma_close_missing(t, 2);
                    }
                    return Err(failure(span, String::from_str("unterminated constant substitution"), "close the substitution with '}'"));
                }
                proof {
                    assert forall|m: int| 2 <= m < j - i implies t[m] != '}' by {
                        assert(t[m] == value@[i + m]);
                    }
                    assert(t[j - i] == value@[j as int]);
                    lemma_close_found(t, 2, j - i);
                }
                let name = slice_vec(value, i + 2, j);
                assert(name@ =~= t.subrange(2, j - i));
                let resolved = match self.resolve_constant(sources, name.as_slice(), span, stack) {
                    Ok(v) => v,
                    Err(d) => {
                        return Err(d);
                    },
                };
                let mut k: usize = 0;
                while k < resolved.len()
                    invariant
                        k <= resolved@.len(),
                        out@ == before + resolved@.take(k as int),
                    decreases resolved.len() - k,
                {
                    out.push(resolved[k]);
                    proof {
                        assert(resolved@.take(k + 1) =~= resolved@.take(k as int).push(resolved@[k as int]));
                    }
                    k = k + 1;
                }
                assert(resolved@.take(resolved@.len() as int) =~= resolved@);
                i = j + 1;
                proof {
                    assert(t.skip(j - i0 + 1) =~= value@.skip(i as int));
                    assert(constant_value(cs, t.subrange(2, j - i0), st) == Some(resolved@));
                    match substituted(cs, value@.skip(i as int), st) {
                        Some(rest) => {
                            assert(substituted(cs, t, st) == Some(resolved@ + rest));
                            assert(before + (resolved@ + rest) =~= out@ + rest);
                        },
                        None => {
                            assert(substituted(cs, t, st) is None);
                        },
                    }
                }
            } else {
                out.push(value[i]);
                i = i + 1;
                proof {
                    if !value@.contains('$') {
                        assert(out@ =~= value@.subrange(0, i as int));
                    }
                    assert(t.skip(1) =~= value@.skip(i as int));
                    assert(t[0] == value@[i0]);
                    match substituted(cs, value@.skip(i as int), st) {
                        Some(rest) => {
                            assert(substituted(cs, t, st) == Some(seq![t[0]] + rest));
                            assert(before + (seq![t[0]] + rest) =~= out@ + rest);
                        },
                        None => {
                            assert(substituted(cs, t, st) is None);
                        },
                    }
                }
            }
        }
        proof {
            if !value@.contains('$') {
                assert(value@.subrange(0, value@.len() as int) =~= value@);
            }
            assert(value@.skip(value@.len() as int) =~= Seq::<char>::empty());
            assert(out@ + Seq::<char>::empty() =~= out@);
        }
        Ok(out)
    }

    /// The substituted value of constant `name`, used at `use_span`.
    fn resolve_constant(&self, sources: &SourceMap, name: &[char], use_span: Span, stack: &mut Vec<usize>) -> (r: Result<Vec<char>, Diagnostic>)
        requires
            old(stack)@.no_duplicates(),
            forall|i: int| 0 <= i < old(stack)@.len() ==> (#[trigger] old(stack)@[i]) < self.constants@.len(),
            forall|i: int| 0 <= i < self.constants@.len() ==> sources.has(#[trigger] self.constants@[i].span),
            sources.has(use_span),
        ensures
            final(stack)@ == old(stack)@,
            match r {
                Ok(_) => true,
                Err(d) => sources.has(d.span),
            },
            match r {
                Ok(v) => constant_value(constant_pairs(self.constants@), name@, old(stack)@) == Some(v@),
                Err(_) => constant_value(constant_pairs(self.constants@), name@, old(stack)@) is None,
            },
        decreases self.constants@.len() - old(stack)@.len(), 0nat,
    {
        let k = match self.find_constant(name) {
            Some(k) => k,
            None => {
                let n = string_of(name);
                return Err(failure(use_span, cat3("undefined constant '", n.as_str(), "'"), "define the constant before it is used"));
            },
        };
        let mut seen = false;
        let mut i: usize = 0;
        while i < stack.len()
            invariant
                i <= stack@.len(),
                seen == (exists|j: int| 0 <= j < i && stack@[j] == k),
            decreases stack.len() - i,
        {
            if stack[i] == k {
                seen = true;
            }
            i = i + 1;
        }
        if seen {
            let names = self.stack_names(stack);
            let n = string_of(name);
            let message = cat5("recursive constant detected: ", names.as_str(), " -> ", n.as_str(), "");
            return Err(failure(self.constants[k].span, message, "remove the cyclic constant substitution"));
        }
        proof {
            let pushed = stack@.push(k);
            assert(pushed.no_duplicates()) by {
                assert forall|a: int, b: int| 0 <= a < pushed.len() && 0 <= b < pushed.len() && a != b implies pushed[a] != pushed[b] by {
                    if b == pushed.len() - 1 {
                        assert(pushed[a] == stack@[a]);
                    } else if a == pushed.len() - 1 {
                        assert(pushed[b] == stack@[b]);
                    }
                }
            }
            lemma_distinct_bound(pushed, self.constants@.len());
        }
        let ghost st = stack@;
        stack.push(k);
        let r = self.substitute_with_stack(sources, self.constants[k].value.as_slice(), self.constants[k].span, stack);
        stack.pop();
        proof {
            assert(!st.contains(k));
            assert(constant_pairs(self.constants@)[k as int].1 == self.constants@[k as int].value@);
        }
        r
    }

    /// Defines a constant from the rest of a `!constant` line, `s[from..to]`.
    fn constant(&mut self, sources: &SourceMap, loaded: &[LoadedInclude], s: &[char], from: usize, to: usize, span: Span) -> (r: Result<(), Diagnostic>)
        requires
            old(self).wf(*sources, loaded@),
            sources.has(span),
            from <= to <= s@.len(),
        ensures
            final(self).wf(*sources, loaded@),
            final(self).unchanged_stack(old(self)),
            final(self).output@ == old(self).output@,
            final(self).quiet(old(self)),
            match r {
                Ok(_) => true,
                Err(d) => sources.has(d.span),
            },
    {
        let rest = trimmed(slice_vec(s, from, to).as_slice());
        let mut split: usize = 0;
        while split < rest.len() && !is_whitespace(rest[split])
            invariant
                split <= rest@.len(),
            decreases rest.len() - split,
        {
            split = split + 1;
        }
        let name = slice_vec(rest.as_slice(), 0, split);
        let mut value = trimmed(slice_vec(rest.as_slice(), split, rest.len()).as_slice());
        while value.len() > 0 && (value[value.len() - 1] == '\r' || value[value.len() - 1] == '\n')
            invariant
                true,
            decreases value.len(),
        {
            value.pop();
        }
        if name.len() == 0 || value.len() == 0 {
            return Err(failure(span, String::from_str("!constant requires a name and value"), "use '!constant NAME value'"));
        }
        match self.find_constant(name.as_slice()) {
            Some(k) => {
                let first = self.constants[k].span;
                let source = sources.get(first.source_id);
                proof { sources.lemma_file(first.source_id.0 as int); }
                let first_index = if first.start <= source.len() { first.start } else { source.len() };
                let (line, column) = source.line_column(source.byte_offset(first_index));
                let n = string_of(name.as_slice());
                let message = cat3("duplicate constant '", n.as_str(), "'");
                let place = cat5(source.path.as_str(), ":", usize_to_string(line).as_str(), ":", usize_to_string(column).as_str());
                let help = cat("the constant was first defined at ", place.as_str());
                return Err(Diagnostic::error(span, message).with_help(help));
            },
            None => {},
        }
        let unquoted = unquote(value.as_slice());
        self.constants.push(Constant { name, value: unquoted, span });
        Ok(())
    }

    /// The include `path` has not been read: records it and fails.
    fn not_read(&mut self, sources: &SourceMap, loaded: &[LoadedInclude], path: &[char], span: Span) -> (r: Result<(), Diagnostic>)
        requires
            old(self).wf(*sources, loaded@),
            sources.has(span),
        ensures
            final(self).wf(*sources, loaded@),
            final(self).unchanged_stack(old(self)),
            final(self).output@ == old(self).output@,
            r matches Err(d) && d.span == span,
    {
        let p = string_of(path);
        let message = cat3("cannot include '", p.as_str(), "': it was not read");
        self.missing = Some(p);
        Err(failure(span, message, "check that the local include path exists"))
    }

    /// Runs `!include` with the rest of its line, `s[from..to]`, from the file at `including`.
    fn follow_include(&mut self, sources: &mut SourceMap, loaded: &[LoadedInclude], including: &str, s: &[char], from: usize, to: usize, span: Span) -> (r: Result<(), Diagnostic>)
        requires
            old(self).wf(*old(sources), loaded@),
            old(sources).has(span),
            from <= to <= s@.len(),
        ensures
            final(self).wf(*final(sources), loaded@),
            final(self).unchanged_stack(old(self)),
            final(sources).len() >= old(sources).len(),
            forall|i: int| 0 <= i < old(sources).len() ==> final(sources).file(i) == old(sources).file(i),
            match r {
                Ok(_) => true,
                Err(d) => final(sources).has(d.span),
            },
        loaded@.len() == 0 ==> r is Err,
        decreases loaded@.len() - old(self).nested@.len(), 2nat,
    {
        let rest = trimmed(slice_vec(s, from, to).as_slice());
        let mut names: Vec<usize> = Vec::new();
        let substituted = self.substitute_with_stack(sources, rest.as_slice(), span, &mut names)?;
        let target = unquote(trimmed(substituted.as_slice()).as_slice());
        if target.len() == 0 {
            return Err(failure(span, String::from_str("!include requires a path or URL"), "add a local file or directory after !include"));
        }
        if is_url(target.as_slice()) {
            let message = if self.allow_network {
                String::from_str("remote include fetching is not implemented; no network request was made")
            } else {
                String::from_str("remote include is disabled; no network request was made")
            };
            return Err(failure(span, message, "use a local include path; --allow-network does not fetch URLs in M6"));
        }
        let including_chars = chars_of(including);
        let dir = parent_of(including_chars.as_slice());
        let joined = join_path(dir.as_slice(), target.as_slice());
        let k = match lookup_include(loaded, joined.as_slice()) {
            Some(k) => k,
            None => {
                return self.not_read(sources, loaded, joined.as_slice(), span);
            },
        };
        match &loaded[k].target {
            IncludeTarget::Directory { entries } => {
                let files = dsl_files(entries);
                if files.len() == 0 {
                    self.warnings.push(
                        Diagnostic::warning(span, String::from_str("include directory contains no .dsl files"))
                            .with_help(String::from_str("add a .dsl file or remove the empty directory include")),
                    );
                }
                let mut i: usize = 0;
                while i < files.len()
                    invariant
                        i <= files@.len(),
                        self.wf(*sources, loaded@),
                        self.unchanged_stack(old(self)),
                        sources.len() >= old(sources).len(),
                        forall|j: int| 0 <= j < old(sources).len() ==> sources.file(j) == old(sources).file(j),
                        sources.has(span),
                    decreases files.len() - i,
                {
                    self.include_file(sources, loaded, including, files[i].as_slice(), span)?;
                    i = i + 1;
                }
                Ok(())
            },
            IncludeTarget::DirectoryUnreadable { error } => {
                let p = string_of(joined.as_slice());
                let message = cat5("cannot read include directory '", p.as_str(), "': ", error.as_str(), "");
                Err(failure(span, message, "check directory permissions and the include path"))
            },
            IncludeTarget::DirectoryEntryUnreadable { error } => {
                let p = string_of(joined.as_slice());
                let message = cat5("cannot read entry in include directory '", p.as_str(), "': ", error.as_str(), "");
                Err(Diagnostic::error(span, message))
            },
            _ => self.include_file(sources, loaded, including, joined.as_slice(), span),
        }
    }

    /// Includes the file at `target` from the file at `including`.
    fn include_file(&mut self, sources: &mut SourceMap, loaded: &[LoadedInclude], including: &str, target: &[char], span: Span) -> (r: Result<(), Diagnostic>)
        requires
            old(self).wf(*old(sources), loaded@),
            old(sources).has(span),
        ensures
            final(self).wf(*final(sources), loaded@),
            final(self).unchanged_stack(old(self)),
            final(sources).len() >= old(sources).len(),
            forall|i: int| 0 <= i < old(sources).len() ==> final(sources).file(i) == old(sources).file(i),
            match r {
                Ok(_) => true,
                Err(d) => final(sources).has(d.span),
            },
        decreases loaded@.len() - old(self).nested@.len(), 1nat,
    {
        let k = match lookup_include(loaded, target) {
            Some(k) => k,
            None => {
                return self.not_read(sources, loaded, target, span);
            },
        };
        let canonical = match &loaded[k].target {
            IncludeTarget::Missing { error } => {
                let p = string_of(target);
                let message = cat5("cannot include '", p.as_str(), "': ", error.as_str(), "");
                return Err(failure(span, message, "check that the local include path exists"));
            },
            IncludeTarget::File { canonical, .. } => canonical.clone(),
            IncludeTarget::NotUtf8 { canonical } => canonical.clone(),
            IncludeTarget::Unreadable { canonical, .. } => canonical.clone(),
            _ => {
                let p = string_of(target);
                let message = cat3("cannot include '", p.as_str(), "': it is not a file");
                return Err(failure(span, message, "check that the local include path exists"));
            },
        };
        self.dependencies.push(IncludeDependency { from: String::from_str(including), to: canonical });
        self.process_file(sources, loaded, k, span)?;
        if self.output.len() == 0 || self.output[self.output.len() - 1] != '\n' {
            let newline = vec!['\n'];
            self.append(sources, loaded, newline.as_slice(), span);
        }
        Ok(())
    }

    /// Preprocesses the included file `loaded[k]` unless it is already being preprocessed.
    fn process_file(&mut self, sources: &mut SourceMap, loaded: &[LoadedInclude], k: usize, span: Span) -> (r: Result<(), Diagnostic>)
        requires
            old(self).wf(*old(sources), loaded@),
            old(sources).has(span),
            k < loaded@.len(),
        ensures
            final(self).wf(*final(sources), loaded@),
            final(self).unchanged_stack(old(self)),
            final(sources).len() >= old(sources).len(),
            forall|i: int| 0 <= i < old(sources).len() ==> final(sources).file(i) == old(sources).file(i),
            match r {
                Ok(_) => true,
                Err(d) => final(sources).has(d.span),
            },
        decreases loaded@.len() - old(self).nested@.len(), 0nat,
    {
        let canonical = match &loaded[k].target {
            IncludeTarget::File { canonical, .. } => canonical.clone(),
            IncludeTarget::NotUtf8 { canonical } => canonical.clone(),
            IncludeTarget::Unreadable { canonical, .. } => canonical.clone(),
            _ => String::new(),
        };
        assert(canonical@ == canonical_of(loaded@[k as int].target) || canonical@.len() == 0);
        let mut cycle = false;
        let mut i: usize = 0;
        while i < self.stack.len()
            invariant
                i <= self.stack@.len(),
                cycle == (exists|j: int| 0 <= j < i && (#[trigger] self.stack@[j])@ == canonical@),
            decreases self.stack.len() - i,
        {
            if seq_eq(self.stack[i].as_str(), canonical.as_str()) {
                cycle = true;
            }
            i = i + 1;
        }
        if cycle {
            let message = cat("include cycle detected at ", canonical.as_str());
            return Err(failure(span, message, "remove one include from the cycle"));
        }
        match &loaded[k].target {
            IncludeTarget::Unreadable { canonical, error } => {
                let message = cat5("cannot read include '", canonical.as_str(), "': ", error.as_str(), "");
                Err(failure(span, message, "check file permissions and the include path"))
            },
            IncludeTarget::NotUtf8 { canonical } => {
                let message = cat3("include '", canonical.as_str(), "' is not valid UTF-8");
                Err(failure(span, message, "convert the included DSL file to UTF-8"))
            },
            IncludeTarget::File { canonical, text } => {
                let id = sources.add_text(canonical.clone(), text.clone());
                proof {
                    assert forall|j: int| 0 <= j < self.nested@.len() implies (#[trigger] self.nested@[j]) != k by {
                        let at = self.base + j;
                        assert(self.stack@[at]@ == canonical_of(loaded@[self.nested@[j] as int].target));
                    }
                    let pushed = self.nested@.push(k);
                    assert(pushed.no_duplicates()) by {
                        assert forall|a: int, b: int| 0 <= a < pushed.len() && 0 <= b < pushed.len() && a != b implies pushed[a] != pushed[b] by {
                            if b == pushed.len() - 1 {
                                assert(pushed[a] == self.nested@[a]);
                            } else if a == pushed.len() - 1 {
                                assert(pushed[b] == self.nested@[b]);
                            }
                        }
                    }
                    lemma_distinct_bound(pushed, loaded@.len());
                }
                self.stack.push(canonical.clone());
                self.nested.push(k);
                proof {
                    assert forall|j: int| 0 <= j < self.nested@.len() implies
                        (#[trigger] self.stack@[self.base + j])@ == canonical_of(loaded@[self.nested@[j] as int].target) by {
                        if j < self.nested@.len() - 1 {
                            assert(self.stack@[self.base + j] == old(self).stack@[self.base + j]);
                        }
                    }
                }
                let result = self.process_source(sources, loaded, canonical.as_str(), id);
                self.stack.pop();
                self.nested.pop();
                proof {
                    assert(self.stack@ =~= old(self).stack@);
                    assert(self.nested@ =~= old(self).nested@);
                }
                result
            },
            _ => {
                let message = cat("cannot read include ", canonical.as_str());
                Err(failure(span, message, "check file permissions and the include path"))
            },
        }
    }

    /// Preprocesses the text `source_id` of the file at `path`, line by line.
    fn process_source(&mut self, sources: &mut SourceMap, loaded: &[LoadedInclude], path: &str, source_id: SourceId) -> (r: Result<(), Diagnostic>)
        requires
            old(self).wf(*old(sources), loaded@),
            source_id.0 < old(sources).len(),
        ensures
            final(self).wf(*final(sources), loaded@),
            final(self).unchanged_stack(old(self)),
            final(sources).len() >= old(sources).len(),
            forall|i: int| 0 <= i < old(sources).len() ==> final(sources).file(i) == old(sources).file(i),
            match r {
                Ok(_) => true,
                Err(d) => final(sources).has(d.span),
            },
            plain(old(sources).file(source_id.0 as int)@) ==> r is Ok
                && final(self).output@ == old(self).output@ + old(sources).file(source_id.0 as int)@
                && final(self).constants@ == old(self).constants@,
        loaded@.len() == 0 && r is Ok ==> final(self).quiet(old(self)) && final(sources).len() == old(sources).len(),
        decreases loaded@.len() - old(self).nested@.len(), 3nat,
    {
        let chars = sources.get(source_id).chars.clone();
        let ghost text = old(sources).file(source_id.0 as int)@;
        proof {
            reveal_strlit("!constant");
            reveal_strlit("!include");
            reveal_strlit("!script");
            reveal_strlit("!plugin");
            assert(chars@ == text);
        }
        let n = chars.len();
        let mut offset: usize = 0;
        while offset < n
            invariant
                n == chars@.len(),
                chars@ == text,
                text == old(sources).file(source_id.0 as int)@,
                offset <= n,
                self.wf(*sources, loaded@),
                self.unchanged_stack(old(self)),
                sources.len() >= old(sources).len(),
                source_id.0 < old(sources).len(),
                forall|j: int| 0 <= j < old(sources).len() ==> sources.file(j) == old(sources).file(j),
                plain(text) ==> self.output@ == old(self).output@ + text.subrange(0, offset as int),
                plain(text) ==> self.constants@ == old(self).constants@,
                loaded@.len() == 0 ==> self.quiet(old(self)) && sources.len() == old(sources).len(),
            decreases n - offset,
        {
            let mut j = offset;
            while j < n && chars[j] != '\n'
                invariant
                    offset <= j <= n == chars@.len(),
                decreases n - j,
            {
                j = j + 1;
            }
            let end = if j < n { j + 1 } else { n };
            let mut k = offset;
            while k < end && is_whitespace(chars[k])
                invariant
                    offset <= k <= end <= n == chars@.len(),
                decreases end - k,
            {
                k = k + 1;
            }
            let statement = Span::new(source_id, k, end);
            proof {
                reveal_strlit("!constant");
                reveal_strlit("!include");
                reveal_strlit("!script");
                reveal_strlit("!plugin");
            }
            if let Some(rest) = directive(chars.as_slice(), k, end, "!constant") {
                assert(chars@.subrange(k as int, rest as int)[0] == chars@[k as int]);
                self.constant(sources, loaded, chars.as_slice(), rest, end, statement)?;
                if chars[end - 1] == '\n' {
                    let newline = vec!['\n'];
                    self.append(sources, loaded, newline.as_slice(), Span::new(source_id, end - 1, end));
                }
            } else if let Some(rest) = directive(chars.as_slice(), k, end, "!include") {
                assert(chars@.subrange(k as int, rest as int)[0] == chars@[k as int]);
                self.follow_include(sources, loaded, path, chars.as_slice(), rest, end, statement)?;
            } else {
                if self.strict_safe {
                    let script = directive(chars.as_slice(), k, end, "!script");
                    let plugin = directive(chars.as_slice(), k, end, "!plugin");
                    if script.is_some() || plugin.is_some() {
                        proof {
                            match script {
                                Some(q) => { assert(chars@.subrange(k as int, q as int)[0] == chars@[k as int]); },
                                None => {},
                            }
                            match plugin {
                                Some(q) => { assert(chars@.subrange(k as int, q as int)[0] == chars@[k as int]); },
                                None => {},
                            }
                        }
                        return Err(failure(statement, String::from_str("strict-safe mode rejects scripts and plugins"),
                            "remove the executable directive; it was not executed"));
                    }
                }
                let line = slice_vec(chars.as_slice(), offset, end);
                let mut names: Vec<usize> = Vec::new();
                proof {
                    if plain(text) {
                        assert(!line@.contains('$')) by {
                            if line@.contains('$') {
                                let q = choose|q: int| 0 <= q < line@.len() && line@[q] == '$';
                                assert(text[offset + q] == '$');
                            }
                        }
                    }
                }
                let expanded = self.substitute_with_stack(sources, line.as_slice(), statement, &mut names)?;
                self.append(sources, loaded, expanded.as_slice(), Span::new(source_id, offset, end));
                proof {
                    if plain(text) {
                        assert(text.subrange(0, end as int) =~= text.subrange(0, offset as int) + line@);
                    }
                }
            }
            offset = end;
        }
        proof {
            if plain(text) {
                assert(text.subrange(0, n as int) =~= text);
            }
        }
        Ok(())
    }
}

/// Preprocesses `value`, the text of the file at `path`; includes are looked up in `loaded`.
fn run(path: &str, value: String, sources: &mut SourceMap, allow_network: bool, strict_safe: bool,
    loaded: &[LoadedInclude], on_stack: bool) -> (r: Result<Preprocessed, PreprocessFailure>)
    requires
        old(sources).wf(),
    ensures
        loaded@.len() == 0 ==> (r matches Ok(p) ==> p.dependencies@.len() == 0 && p.warnings@.len() == 0
            && final(sources).len() == old(sources).len() + 2),
        final(sources).wf(),
        final(sources).len() >= old(sources).len() + 1,
        forall|i: int| 0 <= i < old(sources).len() ==> final(sources).file(i) == old(sources).file(i),
        final(sources).file(old(sources).len() as int)@ == value@,
        final(sources).file(old(sources).len() as int).path@ == path@,
        match r {
            Ok(p) => {
                &&& p.source_id.0 == final(sources).len() - 1
                &&& final(sources).file(p.source_id.0 as int).path@ == path@ + "#preprocessed"@
                &&& forall|i: int| 0 <= i < p.warnings@.len() ==> final(sources).has(#[trigger] p.warnings@[i].span)
            },
            Err(_) => true,
        },
        plain(value@) ==> (r matches Ok(p) && final(sources).file(p.source_id.0 as int)@ == value@),
{
    let ghost text = value@;
    let source_id = sources.add_text(String::from_str(path), value);
    let mut stack: Vec<String> = Vec::new();
    if on_stack {
        stack.push(String::from_str(path));
    }
    let base = stack.len();
    let mut context = Context {
        allow_network,
        strict_safe,
        constants: Vec::new(),
        stack,
        base,
        nested: Vec::new(),
        dependencies: Vec::new(),
        warnings: Vec::new(),
        output: Vec::new(),
        mappings: Vec::new(),
        missing: None,
    };
    let ghost added = *sources;
    match context.process_source(sources, loaded, path, source_id) {
        Ok(()) => {},
        Err(d) => {
            let message = crate::diagnostic::in_bytes(sources, d).render(sources);
            return Err(PreprocessFailure { message, needs: context.missing });
        },
    }
    assert(plain(text) ==> context.output@ == text);
    let mut i: usize = 0;
    while i < context.constants.len()
        invariant
            i <= context.constants@.len(),
            context.wf(*sources, loaded@),
            sources.file(old(sources).len() as int)@ == text,
            text == value@,
            plain(text) ==> context.constants@.len() == 0,
            sources.file(old(sources).len() as int).path@ == path@,
            sources.len() >= old(sources).len() + 1,
            forall|j: int| 0 <= j < old(sources).len() ==> sources.file(j) == old(sources).file(j),
            loaded@.len() == 0 ==> context.dependencies@.len() == 0 && context.warnings@.len() == 0
                && sources.len() == old(sources).len() + 1,
        decreases context.constants.len() - i,
    {
        let mut names: Vec<usize> = Vec::new();
        let name = slice_vec(context.constants[i].name.as_slice(), 0, context.constants[i].name.len());
        let span = context.constants[i].span;
        match context.resolve_constant(sources, name.as_slice(), span, &mut names) {
            Ok(_) => {},
            Err(d) => {
                let message = crate::diagnostic::in_bytes(sources, d).render(sources);
                return Err(PreprocessFailure { message, needs: None });
            },
        }
        i = i + 1;
    }
    let generated = string_of(context.output.as_slice());
    let segments = sources.byte_segments(generated.as_str(), &context.mappings);
    let id = sources.add_generated(cat(path, "#preprocessed"), generated, segments);
    proof {
        reveal_strlit("#preprocessed");
    }
    let mut warnings: Vec<Diagnostic> = Vec::new();
    let mut w: usize = 0;
    while w < context.warnings.len()
        invariant
            w <= context.warnings@.len(),
            sources.wf(),
            forall|j: int| 0 <= j < context.warnings@.len() ==> sources.has(#[trigger] context.warnings@[j].span),
            forall|j: int| 0 <= j < warnings@.len() ==> sources.has(#[trigger] warnings@[j].span),
            warnings@.len() == w,
        decreases context.warnings.len() - w,
    {
        warnings.push(crate::diagnostic::in_bytes(sources, context.warnings[w].duplicate()));
        w = w + 1;
    }
    Ok(Preprocessed { source_id: id, dependencies: context.dependencies, warnings })
}

/// Preprocesses the in-memory text `value` as the text at `path`. Nothing is read: a local
/// include fails as not read. The generated text is added to `sources` under `path` followed
/// by `#preprocessed`; an error comes back rendered.
pub fn text(path: &str, value: &str, sources: &mut SourceMap, strict_safe: bool) -> (r: Result<Preprocessed, String>)
    requires
        old(sources).wf(),
    ensures
        final(sources).wf(),
        forall|i: int| 0 <= i < old(sources).len() ==> final(sources).file(i) == old(sources).file(i),
        final(sources).file(old(sources).len() as int)@ == value@,
        match r {
            Ok(p) => {
                &&& p.source_id.0 == final(sources).len() - 1
                &&& final(sources).file(p.source_id.0 as int).path@ == path@ + "#preprocessed"@
                &&& forall|i: int| 0 <= i < p.warnings@.len() ==> final(sources).has(#[trigger] p.warnings@[i].span)
            },
            Err(_) => true,
        },
        plain(value@) ==> (r matches Ok(p) && final(sources).file(p.source_id.0 as int)@ == value@),
        r matches Ok(p) ==> p.dependencies@.len() == 0 && p.warnings@.len() == 0
            && final(sources).len() == old(sources).len() + 2,
{
    let loaded: Vec<LoadedInclude> = Vec::new();
    match run(path, String::from_str(value), sources, false, strict_safe, loaded.as_slice(), false) {
        Ok(p) => Ok(p),
        Err(f) => Err(f.message),
    }
}

/// Preprocesses the in-memory text `value` as the text at `path`, looking local includes up
/// in `loaded`. When an include path is missing from `loaded`, the failure names it.
pub fn text_with_includes(path: &str, value: &str, sources: &mut SourceMap, allow_network: bool,
    strict_safe: bool, loaded: &Vec<LoadedInclude>) -> (r: Result<Preprocessed, PreprocessFailure>)
    requires
        old(sources).wf(),
    ensures
        final(sources).wf(),
        forall|i: int| 0 <= i < old(sources).len() ==> final(sources).file(i) == old(sources).file(i),
        final(sources).file(old(sources).len() as int)@ == value@,
        match r {
            Ok(p) => {
                &&& p.source_id.0 == final(sources).len() - 1
                &&& final(sources).file(p.source_id.0 as int).path@ == path@ + "#preprocessed"@
                &&& forall|i: int| 0 <= i < p.warnings@.len() ==> final(sources).has(#[trigger] p.warnings@[i].span)
            },
            Err(_) => true,
        },
        plain(value@) ==> (r matches Ok(p) && final(sources).file(p.source_id.0 as int)@ == value@),
{
    run(path, String::from_str(value), sources, allow_network, strict_safe, loaded.as_slice(), false)
}

/// Preprocesses `value`, the text of the file whose canonical path is `canonical`, looking
/// local includes up in `loaded`; an include of the file itself is a cycle.
pub fn file_with_includes(canonical: &str, value: String, sources: &mut SourceMap, allow_network: bool,
    strict_safe: bool, loaded: &Vec<LoadedInclude>) -> (r: Result<Preprocessed, PreprocessFailure>)
    requires
        old(sources).wf(),
    ensures
        final(sources).wf(),
        forall|i: int| 0 <= i < old(sources).len() ==> final(sources).file(i) == old(sources).file(i),
        final(sources).file(old(sources).len() as int)@ == value@,
        match r {
            Ok(p) => {
                &&& p.source_id.0 == final(sources).len() - 1
                &&& final(sources).file(p.source_id.0 as int).path@ == canonical@ + "#preprocessed"@
                &&& forall|i: int| 0 <= i < p.warnings@.len() ==> final(sources).has(#[trigger] p.warnings@[i].span)
            },
            Err(_) => true,
        },
        plain(value@) ==> (r matches Ok(p) && final(sources).file(p.source_id.0 as int)@ == value@),
{
    run(canonical, value, sources, allow_network, strict_safe, loaded.as_slice(), true)
}

} // verus!
