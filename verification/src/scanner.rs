use crate::text::{
    ascii_lower, ascii_ws, chars_of, is_ascii_ws, lead_ws, lower, lower_char, lower_range, starts_with, string_of,
    string_of_range, trim, trim_bounds,
};
use std::ops::Range;
use vstd::prelude::*;

verus! {

/// `Range::clone` copies both ends, each by its own `clone`.
pub assume_specification<Idx: Clone>[ <Range<Idx> as Clone>::clone ](r: &Range<Idx>) -> (res: Range<
    Idx,
>)
    ensures
        cloned(r.start, res.start),
        cloned(r.end, res.end),
;

/// What kind of top-level item a `SourceNode` is.
#[derive(Debug, Clone)]
pub enum NodeKind {
    Style,
    AtBlock { name: String, params: String },
    AtStatement { name: String },
}

/// One top-level item of a stylesheet region. Positions count characters of the source.
#[derive(Debug, Clone)]
pub struct SourceNode {
    pub kind: NodeKind,
    pub start: usize,
    pub end: usize,
    pub prelude_range: Range<usize>,
    pub body_range: Option<Range<usize>>,
}

pub enum SpecKind {
    Style,
    AtBlock { name: Seq<char>, params: Seq<char> },
    AtStatement { name: Seq<char> },
}

/// The mathematical value of a `SourceNode`.
pub struct SpecNode {
    pub kind: SpecKind,
    pub start: int,
    pub end: int,
    pub prelude_start: int,
    pub prelude_end: int,
    pub body: Option<(int, int)>,
}

impl View for NodeKind {
    type V = SpecKind;

    open spec fn view(&self) -> SpecKind {
        match self {
            NodeKind::Style => SpecKind::Style,
            NodeKind::AtBlock { name, params } => SpecKind::AtBlock { name: name@, params: params@ },
            NodeKind::AtStatement { name } => SpecKind::AtStatement { name: name@ },
        }
    }
}

impl View for SourceNode {
    type V = SpecNode;

    open spec fn view(&self) -> SpecNode {
        SpecNode {
            kind: self.kind@,
            start: self.start as int,
            end: self.end as int,
            prelude_start: self.prelude_range.start as int,
            prelude_end: self.prelude_range.end as int,
            body: match self.body_range {
                Some(r) => Some((r.start as int, r.end as int)),
                None => None,
            },
        }
    }
}

pub open spec fn nodes_view(v: Seq<SourceNode>) -> Seq<SpecNode> {
    v.map_values(|n: SourceNode| n@)
}

pub open spec fn is_style(n: SpecNode) -> bool {
    n.kind is Style
}

/// The trimmed prelude of a node.
pub open spec fn prelude_of(s: Seq<char>, n: SpecNode) -> Seq<char> {
    trim(s.subrange(n.prelude_start, n.prelude_end))
}

/// The well-formedness of a node found in `s[a..b]`.
pub open spec fn node_wf(s: Seq<char>, n: SpecNode, a: int, b: int) -> bool {
    &&& a <= n.start <= n.prelude_start <= n.prelude_end < n.end <= b
    &&& b <= s.len()
    &&& match n.body {
        Some((x, y)) => n.prelude_end + 1 == x && x <= y && y + 1 == n.end && s[n.prelude_end] == '{'
            && s[y] == '}',
        None => n.prelude_end + 1 == n.end && s[n.prelude_end] == ';' && n.prelude_start == n.start,
    }
    &&& n.kind is Style ==> n.body is Some
    &&& n.kind is AtBlock ==> n.body is Some
    &&& n.kind is AtStatement ==> n.body is None
}

/// Nodes listed in source order, each after the previous one ends.
pub open spec fn nodes_ordered(ns: Seq<SpecNode>) -> bool {
    forall|i: int, j: int| 0 <= i < j < ns.len() ==> ns[i].end <= ns[j].start
}

pub open spec fn all_wf(s: Seq<char>, ns: Seq<SpecNode>, a: int, b: int) -> bool {
    forall|i: int| 0 <= i < ns.len() ==> node_wf(s, #[trigger] ns[i], a, b)
}

// ---------------------------------------------------------------------------
// Comments and trivia
// ---------------------------------------------------------------------------

/// Where a comment whose text continues at `p` ends: just after the first `*/` at or
/// after `p` that closes before `end`, else `end`.
pub open spec fn comment_end(s: Seq<char>, p: int, end: int) -> int
    decreases end - p,
{
    if p + 1 < end {
        if s[p] == '*' && s[p + 1] == '/' {
            p + 2
        } else {
            comment_end(s, p + 1, end)
        }
    } else {
        end
    }
}

pub proof fn lemma_comment_end(s: Seq<char>, p: int, end: int)
    requires
        p <= end,
    ensures
        p <= comment_end(s, p, end) <= end,
    decreases end - p,
{
    if p + 1 < end && !(s[p] == '*' && s[p + 1] == '/') {
        lemma_comment_end(s, p + 1, end);
    }
}

pub open spec fn opens_comment(s: Seq<char>, i: int, end: int) -> bool {
    i + 1 < end && s[i] == '/' && s[i + 1] == '*'
}

/// First position at or after `i` that is neither ASCII whitespace nor inside a comment.
pub open spec fn trivia_end(s: Seq<char>, i: int, end: int) -> int
    decreases end - i,
{
    if i < end && is_ascii_ws(s[i]) {
        trivia_end(s, i + 1, end)
    } else if opens_comment(s, i, end) {
        let n = comment_end(s, i + 2, end);
        proof {
            lemma_comment_end(s, i + 2, end);
        }
        trivia_end(s, n, end)
    } else {
        i
    }
}

pub proof fn lemma_trivia_end(s: Seq<char>, i: int, end: int)
    ensures
        i <= trivia_end(s, i, end),
        i <= end ==> trivia_end(s, i, end) <= end,
    decreases end - i,
{
    if i < end && is_ascii_ws(s[i]) {
        lemma_trivia_end(s, i + 1, end);
    } else if opens_comment(s, i, end) {
        lemma_comment_end(s, i + 2, end);
        lemma_trivia_end(s, comment_end(s, i + 2, end), end);
    }
}

pub fn comment_end_exec(s: &[char], p: usize, end: usize) -> (r: usize)
    requires
        p <= end <= s@.len(),
    ensures
        r == comment_end(s@, p as int, end as int),
        p <= r <= end,
{
    proof {
        lemma_comment_end(s@, p as int, end as int);
    }
    let _len = s.len();
    let mut q = p;
    while q < end && end - q > 1
        invariant
            p <= q <= end <= s@.len(),
            comment_end(s@, p as int, end as int) == comment_end(s@, q as int, end as int),
        decreases end - q,
    {
        if s[q] == '*' && s[q + 1] == '/' {
            return q + 2;
        }
        q = q + 1;
    }
    end
}

/// Skips ASCII whitespace and comments starting at `i`, stopping at `end`.
pub fn skip_trivia_chars(s: &[char], i: usize, end: usize) -> (r: usize)
    requires
        end <= s@.len(),
    ensures
        r == trivia_end(s@, i as int, end as int),
{
    let mut j = i;
    loop
        invariant
            end <= s@.len(),
            trivia_end(s@, i as int, end as int) == trivia_end(s@, j as int, end as int),
        decreases end - j,
    {
        if j < end && ascii_ws(s[j]) {
            j = j + 1;
        } else if j < end && j + 1 < end && s[j] == '/' && s[j + 1] == '*' {
            let n = comment_end_exec(s, j + 2, end);
            j = n;
        } else {
            return j;
        }
    }
}

/// Skips ASCII whitespace and comments in `source` from character position `i`, stopping at `end`.
pub fn skip_trivia(source: &str, i: usize, end: usize) -> (r: usize)
    requires
        end <= source@.len(),
    ensures
        r == trivia_end(source@, i as int, end as int),
{
    let s = chars_of(source);
    skip_trivia_chars(s.as_slice(), i, end)
}

/// Whether `s[a..b]` holds only ASCII whitespace.
pub open spec fn whitespace_only(s: Seq<char>, a: int, b: int) -> bool {
    forall|k: int| a <= k < b ==> is_ascii_ws(#[trigger] s[k])
}

pub fn whitespace_only_chars(s: &[char], a: usize, b: usize) -> (r: bool)
    requires
        a <= b <= s@.len(),
    ensures
        r == whitespace_only(s@, a as int, b as int),
{
    let mut k = a;
    while k < b
        invariant
            a <= k <= b <= s@.len(),
            whitespace_only(s@, a as int, k as int),
        decreases b - k,
    {
        if !ascii_ws(s[k]) {
            return false;
        }
        k = k + 1;
    }
    true
}

/// Whether the characters of `source` in `range` are all ASCII whitespace.
pub fn is_whitespace_only(source: &str, range: Range<usize>) -> (r: bool)
    requires
        range.start <= range.end <= source@.len(),
    ensures
        r == whitespace_only(source@, range.start as int, range.end as int),
{
    let s = chars_of(source);
    whitespace_only_chars(s.as_slice(), range.start, range.end)
}

// ---------------------------------------------------------------------------
// Braces
// ---------------------------------------------------------------------------

pub open spec fn is_quote(c: char) -> bool {
    c == '\'' || c == '"'
}

/// Position of the `}` that brings `depth` to zero, scanning from `i`, honouring quotes
/// (with backslash escapes) and comments.
pub open spec fn brace_close(
    s: Seq<char>,
    i: int,
    end: int,
    depth: nat,
    quote: Option<char>,
    escaped: bool,
) -> Option<int>
    decreases end - i,
{
    if i >= end || i < 0 {
        None
    } else {
        let b = s[i];
        match quote {
            Some(q) => {
                if escaped {
                    brace_close(s, i + 1, end, depth, quote, false)
                } else if b == '\\' {
                    brace_close(s, i + 1, end, depth, quote, true)
                } else if b == q {
                    brace_close(s, i + 1, end, depth, None, escaped)
                } else {
                    brace_close(s, i + 1, end, depth, quote, escaped)
                }
            },
            None => {
                if opens_comment(s, i, end) {
                    let n = comment_end(s, i + 2, end);
                    proof {
                        lemma_comment_end(s, i + 2, end);
                    }
                    brace_close(s, n, end, depth, quote, escaped)
                } else if is_quote(b) {
                    brace_close(s, i + 1, end, depth, Some(b), escaped)
                } else if b == '{' {
                    brace_close(s, i + 1, end, depth + 1, quote, escaped)
                } else if b == '}' {
                    if depth <= 1 {
                        Some(i)
                    } else {
                        brace_close(s, i + 1, end, (depth - 1) as nat, quote, escaped)
                    }
                } else {
                    brace_close(s, i + 1, end, depth, quote, escaped)
                }
            },
        }
    }
}

pub proof fn lemma_brace_close(
    s: Seq<char>,
    i: int,
    end: int,
    depth: nat,
    quote: Option<char>,
    escaped: bool,
)
    requires
        end <= s.len(),
    ensures
        brace_close(s, i, end, depth, quote, escaped) matches Some(k) ==> i <= k < end && s[k]
            == '}',
    decreases end - i,
{
    if i >= end || i < 0 {
    } else {
        let b = s[i];
        match quote {
            Some(q) => {
                if escaped {
                    lemma_brace_close(s, i + 1, end, depth, quote, false);
                } else if b == '\\' {
                    lemma_brace_close(s, i + 1, end, depth, quote, true);
                } else if b == q {
                    lemma_brace_close(s, i + 1, end, depth, None, escaped);
                } else {
                    lemma_brace_close(s, i + 1, end, depth, quote, escaped);
                }
            },
            None => {
                if opens_comment(s, i, end) {
                    lemma_comment_end(s, i + 2, end);
                    lemma_brace_close(s, comment_end(s, i + 2, end), end, depth, quote, escaped);
                } else if is_quote(b) {
                    lemma_brace_close(s, i + 1, end, depth, Some(b), escaped);
                } else if b == '{' {
                    lemma_brace_close(s, i + 1, end, depth + 1, quote, escaped);
                } else if b == '}' {
                    if depth > 1 {
                        lemma_brace_close(s, i + 1, end, (depth - 1) as nat, quote, escaped);
                    }
                } else {
                    lemma_brace_close(s, i + 1, end, depth, quote, escaped);
                }
            },
        }
    }
}

/// The `}` matching the `{` at `open`, searching before `end`.
pub open spec fn matching_brace(s: Seq<char>, open: int, end: int) -> Option<int> {
    brace_close(s, open + 1, end, 1, None, false)
}

pub fn find_matching_brace(s: &[char], open: usize, end: usize) -> (r: Option<usize>)
    requires
        open < end <= s@.len(),
    ensures
        match matching_brace(s@, open as int, end as int) {
            Some(k) => r == Some(k as usize),
            None => r is None,
        },
        r matches Some(k) ==> open < k < end && s@[k as int] == '}',
{
    proof {
        lemma_brace_close(s@, open + 1, end as int, 1, None, false);
    }
    let mut depth: usize = 1;
    let mut i = open + 1;
    let mut quote: Option<char> = None;
    let mut escaped = false;
    while i < end
        invariant
            open < i <= end <= s@.len(),
            1 <= depth <= i - open,
            matching_brace(s@, open as int, end as int) == brace_close(
                s@,
                i as int,
                end as int,
                depth as nat,
                quote,
                escaped,
            ),
        decreases end - i,
    {
        let b = s[i];
        if let Some(q) = quote {
            if escaped {
                escaped = false;
            } else if b == '\\' {
                escaped = true;
            } else if b == q {
                quote = None;
            }
            i = i + 1;
            continue;
        }
        if b == '/' && i + 1 < end && s[i + 1] == '*' {
            i = comment_end_exec(s, i + 2, end);
            continue;
        }
        if b == '\'' || b == '"' {
            quote = Some(b);
        } else if b == '{' {
            depth = depth + 1;
        } else if b == '}' {
            if depth <= 1 {
                return Some(i);
            }
            depth = depth - 1;
        }
        i = i + 1;
    }
    None
}

// ---------------------------------------------------------------------------
// At-rule names
// ---------------------------------------------------------------------------

pub open spec fn strip_ats(s: Seq<char>) -> Seq<char>
    decreases s.len(),
{
    if s.len() > 0 && s[0] == '@' {
        strip_ats(s.drop_first())
    } else {
        s
    }
}

pub open spec fn is_name_stop(c: char) -> bool {
    is_ascii_ws(c) || c == '(' || c == ';' || c == '{'
}

/// Length of the leading run of `s` before the first name separator.
pub open spec fn name_len(s: Seq<char>) -> nat
    decreases s.len(),
{
    if s.len() == 0 || is_name_stop(s[0]) {
        0
    } else {
        1 + name_len(s.drop_first())
    }
}

/// The lower-cased at-rule name of a prelude such as `@media (...)`.
pub open spec fn at_rule_name(raw: Seq<char>) -> Seq<char> {
    let t = strip_ats(raw);
    lower(t.take(name_len(t) as int))
}

pub proof fn lemma_name_len(s: Seq<char>)
    ensures
        name_len(s) <= s.len(),
        forall|k: int| 0 <= k < name_len(s) ==> !is_name_stop(#[trigger] s[k]),
        name_len(s) < s.len() ==> is_name_stop(s[name_len(s) as int]),
    decreases s.len(),
{
    if !(s.len() == 0 || is_name_stop(s[0])) {
        lemma_name_len(s.drop_first());
        assert forall|k: int| 0 <= k < name_len(s) implies !is_name_stop(#[trigger] s[k]) by {
            if k > 0 {
                assert(s[k] == s.drop_first()[k - 1]);
            }
        }
    }
}

pub proof fn lemma_strip_ats(s: Seq<char>) -> (k: int)
    ensures
        0 <= k <= s.len(),
        strip_ats(s) == s.skip(k),
        forall|j: int| 0 <= j < k ==> s[j] == '@',
        k < s.len() ==> s[k] != '@',
    decreases s.len(),
{
    if s.len() > 0 && s[0] == '@' {
        let k1 = lemma_strip_ats(s.drop_first());
        assert(s.drop_first().skip(k1) =~= s.skip(k1 + 1));
        assert forall|j: int| 0 <= j < k1 + 1 implies s[j] == '@' by {
            if j > 0 {
                assert(s[j] == s.drop_first()[j - 1]);
            }
        }
        k1 + 1
    } else {
        assert(s.skip(0) =~= s);
        0
    }
}

/// Computes `at_rule_name(s[a..b])` and its length.
pub fn at_rule_name_exec(s: &[char], a: usize, b: usize) -> (r: Vec<char>)
    requires
        a <= b <= s@.len(),
    ensures
        r@ == at_rule_name(s@.subrange(a as int, b as int)),
        r@.len() == name_len(strip_ats(s@.subrange(a as int, b as int))),
{
    let ghost sub = s@.subrange(a as int, b as int);
    let mut i = a;
    while i < b && s[i] == '@'
        invariant
            a <= i <= b <= s@.len(),
            forall|j: int| a <= j < i ==> s@[j] == '@',
        decreases b - i,
    {
        i = i + 1;
    }
    proof {
        let k = lemma_strip_ats(sub);
        if k < i - a {
            assert(sub[k] == s@[a + k]);
        }
        if i - a < k {
            assert(sub[i - a] == s@[i as int]);
        }
        assert(k == i - a);
    }
    let ghost t = s@.subrange(i as int, b as int);
    assert(strip_ats(sub) =~= t);
    let mut j = i;
    while j < b && !(ascii_ws(s[j]) || s[j] == '(' || s[j] == ';' || s[j] == '{')
        invariant
            i <= j <= b <= s@.len(),
            forall|k: int| i <= k < j ==> !is_name_stop(#[trigger] s@[k]),
        decreases b - j,
    {
        j = j + 1;
    }
    proof {
        lemma_name_len(t);
        let n = name_len(t) as int;
        if n < j - i {
            assert(t[n] == s@[i + n]);
        }
        if j - i < n {
            assert(t[j - i] == s@[j as int]);
        }
        assert(n == j - i);
        assert(t.take(n) =~= s@.subrange(i as int, j as int));
    }
    lower_range(s, i, j)
}

// ---------------------------------------------------------------------------
// Top-level node scanning
// ---------------------------------------------------------------------------

pub enum ScanStep {
    Open(int),
    Semi(int),
    Close,
    Exhausted,
}

/// Scans one node's prelude from `i`, tracking quotes, comments, parentheses and brackets,
/// until a top-level `{`, `;` or `}`.
pub open spec fn scan_step(
    s: Seq<char>,
    i: int,
    end: int,
    quote: Option<char>,
    escaped: bool,
    parens: nat,
    brackets: nat,
) -> ScanStep
    decreases end - i,
{
    if i >= end || i < 0 {
        ScanStep::Exhausted
    } else {
        let b = s[i];
        match quote {
            Some(q) => {
                if escaped {
                    scan_step(s, i + 1, end, quote, false, parens, brackets)
                } else if b == '\\' {
                    scan_step(s, i + 1, end, quote, true, parens, brackets)
                } else if b == q {
                    scan_step(s, i + 1, end, None, escaped, parens, brackets)
                } else {
                    scan_step(s, i + 1, end, quote, escaped, parens, brackets)
                }
            },
            None => {
                if opens_comment(s, i, end) {
                    let n = comment_end(s, i + 2, end);
                    proof {
                        lemma_comment_end(s, i + 2, end);
                    }
                    scan_step(s, n, end, quote, escaped, parens, brackets)
                } else if is_quote(b) {
                    scan_step(s, i + 1, end, Some(b), escaped, parens, brackets)
                } else if b == '(' {
                    scan_step(s, i + 1, end, quote, escaped, parens + 1, brackets)
                } else if b == ')' {
                    scan_step(
                        s,
                        i + 1,
                        end,
                        quote,
                        escaped,
                        if parens > 0 {
                            (parens - 1) as nat
                        } else {
                            0
                        },
                        brackets,
                    )
                } else if b == '[' {
                    scan_step(s, i + 1, end, quote, escaped, parens, brackets + 1)
                } else if b == ']' {
                    scan_step(
                        s,
                        i + 1,
                        end,
                        quote,
                        escaped,
                        parens,
                        if brackets > 0 {
                            (brackets - 1) as nat
                        } else {
                            0
                        },
                    )
                } else if b == '{' && parens == 0 && brackets == 0 {
                    ScanStep::Open(i)
                } else if b == ';' && parens == 0 && brackets == 0 {
                    ScanStep::Semi(i)
                } else if b == '}' && parens == 0 && brackets == 0 {
                    ScanStep::Close
                } else {
                    scan_step(s, i + 1, end, quote, escaped, parens, brackets)
                }
            },
        }
    }
}

pub proof fn lemma_scan_step(
    s: Seq<char>,
    i: int,
    end: int,
    quote: Option<char>,
    escaped: bool,
    parens: nat,
    brackets: nat,
)
    requires
        end <= s.len(),
    ensures
        scan_step(s, i, end, quote, escaped, parens, brackets) matches ScanStep::Open(k) ==> i <= k
            < end && s[k] == '{',
        scan_step(s, i, end, quote, escaped, parens, brackets) matches ScanStep::Semi(k) ==> i <= k
            < end && s[k] == ';',
    decreases end - i,
{
    if i >= end || i < 0 {
    } else {
        let b = s[i];
        match quote {
            Some(q) => {
                if escaped {
                    lemma_scan_step(s, i + 1, end, quote, false, parens, brackets);
                } else if b == '\\' {
                    lemma_scan_step(s, i + 1, end, quote, true, parens, brackets);
                } else if b == q {
                    lemma_scan_step(s, i + 1, end, None, escaped, parens, brackets);
                } else {
                    lemma_scan_step(s, i + 1, end, quote, escaped, parens, brackets);
                }
            },
            None => {
                if opens_comment(s, i, end) {
                    lemma_comment_end(s, i + 2, end);
                    lemma_scan_step(
                        s,
                        comment_end(s, i + 2, end),
                        end,
                        quote,
                        escaped,
                        parens,
                        brackets,
                    );
                } else if is_quote(b) {
                    lemma_scan_step(s, i + 1, end, Some(b), escaped, parens, brackets);
                } else if b == '(' {
                    lemma_scan_step(s, i + 1, end, quote, escaped, parens + 1, brackets);
                } else if b == ')' {
                    lemma_scan_step(
                        s,
                        i + 1,
                        end,
                        quote,
                        escaped,
                        if parens > 0 {
                            (parens - 1) as nat
                        } else {
                            0
                        },
                        brackets,
                    );
                } else if b == '[' {
                    lemma_scan_step(s, i + 1, end, quote, escaped, parens, brackets + 1);
                } else if b == ']' {
                    lemma_scan_step(
                        s,
                        i + 1,
                        end,
                        quote,
                        escaped,
                        parens,
                        if brackets > 0 {
                            (brackets - 1) as nat
                        } else {
                            0
                        },
                    );
                } else if b == '{' && parens == 0 && brackets == 0 {
                } else if b == ';' && parens == 0 && brackets == 0 {
                } else if b == '}' && parens == 0 && brackets == 0 {
                } else {
                    lemma_scan_step(s, i + 1, end, quote, escaped, parens, brackets);
                }
            },
        }
    }
}

/// The node for a block whose prelude starts at `start`, whose `{` is at `open` and whose
/// matching `}` is at `close`.
pub open spec fn block_node(s: Seq<char>, start: int, open: int, close: int) -> SpecNode {
    let prelude = s.subrange(start, open);
    let trimmed = trim(prelude);
    let kind = if starts_with(trimmed, seq!['@']) {
        let name = at_rule_name(trimmed);
        SpecKind::AtBlock { name, params: trim(trimmed.skip(1 + name.len() as int)) }
    } else {
        SpecKind::Style
    };
    SpecNode {
        kind,
        start,
        end: close + 1,
        prelude_start: start + lead_ws(prelude),
        prelude_end: open,
        body: Some((open + 1, close)),
    }
}

/// The node for an at-rule statement from `start` to the `;` at `semi`.
pub open spec fn statement_node(s: Seq<char>, start: int, semi: int) -> SpecNode {
    SpecNode {
        kind: SpecKind::AtStatement { name: at_rule_name(trim(s.subrange(start, semi))) },
        start,
        end: semi + 1,
        prelude_start: start,
        prelude_end: semi,
        body: None,
    }
}

/// The top-level nodes of `s[i..end]`, as `scan_nodes` finds them.
pub open spec fn scan(s: Seq<char>, i: int, end: int) -> Seq<SpecNode>
    decreases end - i,
{
    if i >= end || end > s.len() {
        seq![]
    } else {
        let j = trivia_end(s, i, end);
        proof {
            lemma_trivia_end(s, i, end);
        }
        if j >= end || s[j] == '}' {
            seq![]
        } else {
            proof {
                lemma_scan_step(s, j, end, None, false, 0, 0);
            }
            match scan_step(s, j, end, None, false, 0, 0) {
                ScanStep::Open(open) => {
                    proof {
                        lemma_brace_close(s, open + 1, end, 1, None, false);
                    }
                    match matching_brace(s, open, end) {
                        Some(close) => seq![block_node(s, j, open, close)] + scan(s, close + 1, end),
                        None => seq![],
                    }
                },
                ScanStep::Semi(k) => {
                    if starts_with(trim(s.subrange(j, k)), seq!['@']) {
                        seq![statement_node(s, j, k)] + scan(s, k + 1, end)
                    } else {
                        scan(s, k + 1, end)
                    }
                },
                ScanStep::Close => seq![],
                ScanStep::Exhausted => seq![],
            }
        }
    }
}

/// Every node `scan` finds lies inside `[i, end]`, is well formed, and comes after the
/// previous one.
pub proof fn lemma_scan_wf(s: Seq<char>, i: int, end: int)
    requires
        0 <= i,
    ensures
        all_wf(s, scan(s, i, end), i, end),
        nodes_ordered(scan(s, i, end)),
    decreases end - i,
{
    if i >= end || end > s.len() {
    } else {
        let j = trivia_end(s, i, end);
        lemma_trivia_end(s, i, end);
        if j >= end || s[j] == '}' {
        } else {
            lemma_scan_step(s, j, end, None, false, 0, 0);
            match scan_step(s, j, end, None, false, 0, 0) {
                ScanStep::Open(open) => {
                    lemma_brace_close(s, open + 1, end, 1, None, false);
                    match matching_brace(s, open, end) {
                        Some(close) => {
                            let n = block_node(s, j, open, close);
                            crate::text::lemma_lead_ws_bound(s.subrange(j, open));
                            assert(node_wf(s, n, i, end));
                            lemma_scan_wf(s, close + 1, end);
                            let rest = scan(s, close + 1, end);
                            let all = seq![n] + rest;
                            assert(scan(s, i, end) == all);
                            assert forall|k: int| 0 <= k < all.len() implies node_wf(s, #[trigger] all[k], i, end) by {
                                if k > 0 {
                                    assert(all[k] == rest[k - 1]);
                                    assert(node_wf(s, rest[k - 1], close + 1, end));
                                }
                            }
                            assert forall|a: int, b: int| 0 <= a < b < all.len() implies all[a].end <= all[b].start by {
                                assert(all[b] == rest[b - 1]);
                                assert(node_wf(s, rest[b - 1], close + 1, end));
                                if a > 0 {
                                    assert(all[a] == rest[a - 1]);
                                }
                            }
                        },
                        None => {},
                    }
                },
                ScanStep::Semi(k) => {
                    lemma_scan_wf(s, k + 1, end);
                    let rest = scan(s, k + 1, end);
                    if starts_with(trim(s.subrange(j, k)), seq!['@']) {
                        let n = statement_node(s, j, k);
                        assert(node_wf(s, n, i, end));
                        let all = seq![n] + rest;
                        assert(scan(s, i, end) == all);
                        assert forall|q: int| 0 <= q < all.len() implies node_wf(s, #[trigger] all[q], i, end) by {
                            if q > 0 {
                                assert(all[q] == rest[q - 1]);
                                assert(node_wf(s, rest[q - 1], k + 1, end));
                            }
                        }
                        assert forall|a: int, b: int| 0 <= a < b < all.len() implies all[a].end <= all[b].start by {
                            assert(all[b] == rest[b - 1]);
                            assert(node_wf(s, rest[b - 1], k + 1, end));
                            if a > 0 {
                                assert(all[a] == rest[a - 1]);
                            }
                        }
                    } else {
                        assert forall|q: int| 0 <= q < rest.len() implies node_wf(s, #[trigger] rest[q], i, end) by {
                            assert(node_wf(s, rest[q], k + 1, end));
                        }
                    }
                },
                ScanStep::Close => {},
                ScanStep::Exhausted => {},
            }
        }
    }
}

pub fn scan_step_exec(s: &[char], j: usize, end: usize) -> (r: (u8, usize))
    requires
        j < end <= s@.len(),
    ensures
        match scan_step(s@, j as int, end as int, None, false, 0, 0) {
            ScanStep::Open(k) => r.0 == 0 && r.1 == k,
            ScanStep::Semi(k) => r.0 == 1 && r.1 == k,
            ScanStep::Close => r.0 == 2,
            ScanStep::Exhausted => r.0 == 3,
        },
{
    let mut i = j;
    let mut quote: Option<char> = None;
    let mut escaped = false;
    let mut parens: usize = 0;
    let mut brackets: usize = 0;
    while i < end
        invariant
            j <= i <= end <= s@.len(),
            parens <= i - j,
            brackets <= i - j,
            scan_step(s@, j as int, end as int, None, false, 0, 0) == scan_step(
                s@,
                i as int,
                end as int,
                quote,
                escaped,
                parens as nat,
                brackets as nat,
            ),
        decreases end - i,
    {
        let b = s[i];
        if let Some(q) = quote {
            if escaped {
                escaped = false;
            } else if b == '\\' {
                escaped = true;
            } else if b == q {
                quote = None;
            }
            i = i + 1;
            continue;
        }
        if b == '/' && i + 1 < end && s[i + 1] == '*' {
            i = comment_end_exec(s, i + 2, end);
            continue;
        }
        if b == '\'' || b == '"' {
            quote = Some(b);
            i = i + 1;
        } else if b == '(' {
            parens = parens + 1;
            i = i + 1;
        } else if b == ')' {
            if parens > 0 {
                parens = parens - 1;
            }
            i = i + 1;
        } else if b == '[' {
            brackets = brackets + 1;
            i = i + 1;
        } else if b == ']' {
            if brackets > 0 {
                brackets = brackets - 1;
            }
            i = i + 1;
        } else if b == '{' && parens == 0 && brackets == 0 {
            return (0, i);
        } else if b == ';' && parens == 0 && brackets == 0 {
            return (1, i);
        } else if b == '}' && parens == 0 && brackets == 0 {
            return (2, i);
        } else {
            i = i + 1;
        }
    }
    (3, end)
}

fn make_block_node(s: &[char], start: usize, open: usize, close: usize) -> (n: SourceNode)
    requires
        start <= open < close < s@.len(),
    ensures
        n@ == block_node(s@, start as int, open as int, close as int),
{
    let _len = s.len();
    let (ts, te) = trim_bounds(s, start, open);
    let kind = if ts < te && s[ts] == '@' {
        let name = at_rule_name_exec(s, ts, te);
        let ghost trimmed = s@.subrange(ts as int, te as int);
        proof {
            assert(trimmed.take(1) =~= seq!['@']);
            let k = lemma_strip_ats(trimmed);
            lemma_name_len(strip_ats(trimmed));
            assert(k >= 1);
        }
        let (ps, pe) = trim_bounds(s, ts + 1 + name.len(), te);
        proof {
            assert(trimmed.skip(1 + name@.len() as int) =~= s@.subrange(
                ts + 1 + name@.len(),
                te as int,
            ));
        }
        NodeKind::AtBlock { name: string_of(name.as_slice()), params: string_of_range(s, ps, pe) }
    } else {
        proof {
            if ts < te {
                assert(s@.subrange(ts as int, te as int).take(1)[0] == s@[ts as int]);
            }
        }
        NodeKind::Style
    };
    SourceNode {
        kind,
        start,
        end: close + 1,
        prelude_range: Range { start: ts, end: open },
        body_range: Some(Range { start: open + 1, end: close }),
    }
}

fn make_statement_node(s: &[char], start: usize, semi: usize) -> (n: SourceNode)
    requires
        start <= semi < s@.len(),
    ensures
        n@ == statement_node(s@, start as int, semi as int),
{
    let _len = s.len();
    let (ts, te) = trim_bounds(s, start, semi);
    let name = at_rule_name_exec(s, ts, te);
    SourceNode {
        kind: NodeKind::AtStatement { name: string_of(name.as_slice()) },
        start,
        end: semi + 1,
        prelude_range: Range { start, end: semi },
        body_range: None,
    }
}

/// Top-level nodes of `s[a..b]`.
pub fn scan_nodes_chars(s: &[char], a: usize, b: usize) -> (nodes: Vec<SourceNode>)
    requires
        b <= s@.len(),
    ensures
        nodes_view(nodes@) == scan(s@, a as int, b as int),
{
    let mut nodes: Vec<SourceNode> = Vec::new();
    let mut i = a;
    while i < b
        invariant
            b <= s@.len(),
            scan(s@, a as int, b as int) == nodes_view(nodes@) + scan(s@, i as int, b as int),
        ensures
            scan(s@, a as int, b as int) == nodes_view(nodes@),
        decreases b - i,
    {
        proof {
            lemma_trivia_end(s@, i as int, b as int);
        }
        let j = skip_trivia_chars(s, i, b);
        if j >= b || s[j] == '}' {
            proof {
                assert(scan(s@, i as int, b as int) =~= seq![]);
                assert(nodes_view(nodes@) + seq![] =~= nodes_view(nodes@));
            }
            break;
        }
        proof {
            lemma_scan_step(s@, j as int, b as int, None, false, 0, 0);
        }
        let ghost before = nodes@;
        let (kind, k) = scan_step_exec(s, j, b);
        if kind == 0 {
            proof {
                lemma_brace_close(s@, k + 1, b as int, 1, None, false);
            }
            match find_matching_brace(s, k, b) {
                Some(close) => {
                    nodes.push(make_block_node(s, j, k, close));
                    proof {
                        assert(scan(s@, i as int, b as int) == seq![
                            block_node(s@, j as int, k as int, close as int),
                        ] + scan(s@, close + 1, b as int));
                        assert(nodes_view(nodes@) =~= nodes_view(before) + seq![
                            block_node(s@, j as int, k as int, close as int),
                        ]);
                    }
                    i = close + 1;
                },
                None => {
                    proof {
                        assert(scan(s@, i as int, b as int) =~= seq![]);
                        assert(nodes_view(nodes@) + seq![] =~= nodes_view(nodes@));
                    }
                    break;
                },
            }
        } else if kind == 1 {
            let (ts, te) = trim_bounds(s, j, k);
            if ts < te && s[ts] == '@' {
                nodes.push(make_statement_node(s, j, k));
                proof {
                    assert(s@.subrange(ts as int, te as int).take(1) =~= seq!['@']);
                    assert(scan(s@, i as int, b as int) == seq![
                        statement_node(s@, j as int, k as int),
                    ] + scan(s@, k + 1, b as int));
                    assert(nodes_view(nodes@) =~= nodes_view(before) + seq![
                        statement_node(s@, j as int, k as int),
                    ]);
                }
            } else {
                proof {
                    if ts < te {
                        assert(s@.subrange(ts as int, te as int).take(1)[0] == s@[ts as int]);
                    }
                    assert(scan(s@, i as int, b as int) == scan(s@, k + 1, b as int));
                }
            }
            i = k + 1;
        } else {
            proof {
                assert(scan(s@, i as int, b as int) =~= seq![]);
                assert(nodes_view(nodes@) + seq![] =~= nodes_view(nodes@));
            }
            break;
        }
    }
    nodes
}

/// The top-level nodes of `source` within `range` (character positions).
pub fn scan_nodes(source: &str, range: Range<usize>) -> (nodes: Vec<SourceNode>)
    requires
        range.end <= source@.len(),
    ensures
        nodes_view(nodes@) == scan(source@, range.start as int, range.end as int),
{
    let s = chars_of(source);
    scan_nodes_chars(s.as_slice(), range.start, range.end)
}

impl SourceNode {
    /// The trimmed prelude (selector or at-rule header) of this node.
    pub fn prelude(&self, source: &str) -> (r: String)
        requires
            self.prelude_range.start <= self.prelude_range.end <= source@.len(),
        ensures
            r@ == trim(source@.subrange(self.prelude_range.start as int, self.prelude_range.end as int)),
    {
        let s = chars_of(source);
        let (a, b) = trim_bounds(s.as_slice(), self.prelude_range.start, self.prelude_range.end);
        string_of_range(s.as_slice(), a, b)
    }

    /// The text between the braces of this node, if it has a block.
    pub fn body(&self, source: &str) -> (r: Option<String>)
        requires
            self.body_range matches Some(b) ==> b.start <= b.end <= source@.len(),
        ensures
            match self.body_range {
                Some(b) => r matches Some(t) && t@ == source@.subrange(b.start as int, b.end as int),
                None => r is None,
            },
    {
        match &self.body_range {
            Some(b) => {
                let s = chars_of(source);
                Some(string_of_range(s.as_slice(), b.start, b.end))
            },
            None => None,
        }
    }
}

} // verus!

verus! {

// ---------------------------------------------------------------------------
// Counting
// ---------------------------------------------------------------------------

/// Number of top-level declarations (`;`-separated segments holding a top-level `:`) of
/// `s` from position `i` on, given the scanner state.
pub open spec fn decl_count(
    s: Seq<char>,
    i: int,
    braces: nat,
    parens: nat,
    brackets: nat,
    quote: Option<char>,
    escaped: bool,
    seg: bool,
) -> nat
    decreases s.len() - i,
{
    if i >= s.len() || i < 0 {
        if seg {
            1
        } else {
            0
        }
    } else {
        let b = s[i];
        let top = braces == 0 && parens == 0 && brackets == 0;
        match quote {
            Some(q) => {
                if escaped {
                    decl_count(s, i + 1, braces, parens, brackets, quote, false, seg)
                } else if b == '\\' {
                    decl_count(s, i + 1, braces, parens, brackets, quote, true, seg)
                } else if b == q {
                    decl_count(s, i + 1, braces, parens, brackets, None, escaped, seg)
                } else {
                    decl_count(s, i + 1, braces, parens, brackets, quote, escaped, seg)
                }
            },
            None => {
                if opens_comment(s, i, s.len() as int) {
                    let n = comment_end(s, i + 2, s.len() as int);
                    proof {
                        lemma_comment_end(s, i + 2, s.len() as int);
                    }
                    decl_count(s, n, braces, parens, brackets, quote, escaped, seg)
                } else if is_quote(b) {
                    decl_count(s, i + 1, braces, parens, brackets, Some(b), escaped, seg)
                } else if b == '{' {
                    decl_count(s, i + 1, braces + 1, parens, brackets, quote, escaped, seg)
                } else if b == '}' {
                    decl_count(s, i + 1, sat_dec(braces), parens, brackets, quote, escaped, seg)
                } else if b == '(' {
                    decl_count(s, i + 1, braces, parens + 1, brackets, quote, escaped, seg)
                } else if b == ')' {
                    decl_count(s, i + 1, braces, sat_dec(parens), brackets, quote, escaped, seg)
                } else if b == '[' {
                    decl_count(s, i + 1, braces, parens, brackets + 1, quote, escaped, seg)
                } else if b == ']' {
                    decl_count(s, i + 1, braces, parens, sat_dec(brackets), quote, escaped, seg)
                } else if b == ':' && top {
                    decl_count(s, i + 1, braces, parens, brackets, quote, escaped, true)
                } else if b == ';' && top {
                    (if seg {
                        1nat
                    } else {
                        0nat
                    }) + decl_count(s, i + 1, braces, parens, brackets, quote, escaped, false)
                } else {
                    decl_count(s, i + 1, braces, parens, brackets, quote, escaped, seg)
                }
            },
        }
    }
}

pub open spec fn sat_dec(n: nat) -> nat {
    if n > 0 {
        (n - 1) as nat
    } else {
        0
    }
}

pub open spec fn top_level_declarations(s: Seq<char>) -> nat {
    decl_count(s, 0, 0, 0, 0, None, false, false)
}

/// A run of declaration text with nothing that opens or closes a nesting, a string or a
/// comment, and no `;`.
pub open spec fn plain_decl_text(c: Seq<char>) -> bool {
    forall|k: int|
        0 <= k < c.len() ==> {
            let b = #[trigger] c[k];
            b != ';' && !is_quote(b) && b != '{' && b != '}' && b != '(' && b != ')' && b != '[' && b != ']' && b
                != '/'
        }
}

proof fn lemma_plain_run(s: Seq<char>, i: int, c: Seq<char>, seg: bool)
    requires
        0 <= i,
        i + c.len() <= s.len(),
        s.subrange(i, i + c.len()) == c,
        plain_decl_text(c),
    ensures
        decl_count(s, i, 0, 0, 0, None, false, seg) == decl_count(s, i + c.len(), 0, 0, 0, None, false, seg || c.contains(':')),
    decreases c.len(),
{
    if c.len() > 0 {
        let d = c.drop_first();
        assert(s[i] == c[0]);
        assert(s.subrange(i + 1, i + 1 + d.len()) =~= d);
        assert forall|k: int| 0 <= k < d.len() implies {
            let b = #[trigger] d[k];
            b != ';' && !is_quote(b) && b != '{' && b != '}' && b != '(' && b != ')' && b != '[' && b != ']' && b != '/'
        } by {
            assert(d[k] == c[k + 1]);
        }
        let seg2 = seg || c[0] == ':';
        lemma_plain_run(s, i + 1, d, seg2);
        assert((seg2 || d.contains(':')) == (seg || c.contains(':'))) by {
            if d.contains(':') {
                let k = choose|k: int| 0 <= k < d.len() && d[k] == ':';
                assert(c[k + 1] == ':');
            }
            if c.contains(':') && !seg2 {
                let k = choose|k: int| 0 <= k < c.len() && c[k] == ':';
                assert(k > 0);
                assert(d[k - 1] == ':');
            }
        }
    } else {
        assert(!c.contains(':'));
    }
}

/// Law (declaration count): each `;`-separated segment holding a `:` is one declaration, the
/// last one too whether or not a `;` closes it, and a segment without `:` counts for
/// nothing.
pub proof fn law_declarations_counted(d1: Seq<char>, d2: Seq<char>, w: Seq<char>)
    requires
        plain_decl_text(d1),
        plain_decl_text(d2),
        plain_decl_text(w),
        d1.contains(':'),
        d2.contains(':'),
        !w.contains(':'),
    ensures
        top_level_declarations(d1) == 1,
        top_level_declarations(d1 + seq![';']) == 1,
        top_level_declarations(d1 + seq![';'] + d2) == 2,
        top_level_declarations(d1 + seq![';'] + d2 + seq![';']) == 2,
        top_level_declarations(d1 + seq![';'] + w) == 1,
        top_level_declarations(w) == 0,
{
    let n1 = d1.len() as int;
    let s1 = d1;
    assert(s1.subrange(0, n1) =~= d1);
    lemma_plain_run(s1, 0, d1, false);
    let s2 = d1 + seq![';'];
    assert(s2.subrange(0, n1) =~= d1);
    lemma_plain_run(s2, 0, d1, false);
    assert(s2[n1] == ';');
    assert(!opens_comment(s2, n1, s2.len() as int));
    assert(decl_count(s2, n1 + 1, 0, 0, 0, None, false, false) == 0);
    assert(decl_count(s2, n1, 0, 0, 0, None, false, true) == 1);
    let s3 = d1 + seq![';'] + d2;
    assert(s3.subrange(0, n1) =~= d1);
    assert(s3.subrange(n1 + 1, n1 + 1 + d2.len()) =~= d2);
    assert(s3[n1] == ';');
    lemma_plain_run(s3, 0, d1, false);
    lemma_plain_run(s3, n1 + 1, d2, false);
    let s4 = d1 + seq![';'] + d2 + seq![';'];
    assert(s4.subrange(0, n1) =~= d1);
    assert(s4.subrange(n1 + 1, n1 + 1 + d2.len()) =~= d2);
    assert(s4[n1] == ';');
    assert(s4[n1 + 1 + d2.len()] == ';');
    lemma_plain_run(s4, 0, d1, false);
    lemma_plain_run(s4, n1 + 1, d2, false);
    let e4 = n1 + 1 + d2.len();
    assert(!opens_comment(s4, e4, s4.len() as int));
    assert(decl_count(s4, e4 + 1, 0, 0, 0, None, false, false) == 0);
    assert(decl_count(s4, e4, 0, 0, 0, None, false, true) == 1);
    let s5 = d1 + seq![';'] + w;
    assert(s5.subrange(0, n1) =~= d1);
    assert(s5.subrange(n1 + 1, n1 + 1 + w.len()) =~= w);
    assert(s5[n1] == ';');
    lemma_plain_run(s5, 0, d1, false);
    lemma_plain_run(s5, n1 + 1, w, false);
    assert(w.subrange(0, w.len() as int) =~= w);
    lemma_plain_run(w, 0, w, false);
}

/// The declarations `ds` written one after another, separated by `;`.
pub open spec fn decl_list(ds: Seq<Seq<char>>) -> Seq<char>
    decreases ds.len(),
{
    if ds.len() == 0 {
        seq![]
    } else if ds.len() == 1 {
        ds[0]
    } else {
        ds[0] + seq![';'] + decl_list(ds.drop_first())
    }
}

proof fn lemma_decl_list_count(s: Seq<char>, i: int, ds: Seq<Seq<char>>)
    requires
        0 <= i,
        ds.len() > 0,
        forall|k: int| 0 <= k < ds.len() ==> plain_decl_text(#[trigger] ds[k]) && ds[k].contains(':'),
        i + decl_list(ds).len() <= s.len(),
        s.subrange(i, i + decl_list(ds).len()) == decl_list(ds),
        i + decl_list(ds).len() == s.len() || (s[i + decl_list(ds).len()] == ';' && i + decl_list(ds).len() + 1
            == s.len()),
    ensures
        decl_count(s, i, 0, 0, 0, None, false, false) == ds.len(),
    decreases ds.len(),
{
    let d0 = ds[0];
    let l = decl_list(ds);
    assert(plain_decl_text(d0) && d0.contains(':'));
    if ds.len() == 1 {
        assert(l == d0);
        lemma_plain_run(s, i, d0, false);
        let e = i + d0.len();
        if e < s.len() {
            assert(!opens_comment(s, e, s.len() as int));
            assert(decl_count(s, e + 1, 0, 0, 0, None, false, false) == 0);
        }
    } else {
        let rest = ds.drop_first();
        let rl = decl_list(rest);
        assert(l == d0 + seq![';'] + rl);
        assert(s.subrange(i, i + d0.len()) =~= d0) by {
            assert forall|k: int| 0 <= k < d0.len() implies s.subrange(i, i + d0.len())[k] == d0[k] by {
                assert(s[i + k] == l[k]);
            }
        }
        lemma_plain_run(s, i, d0, false);
        let e = i + d0.len();
        assert(s[e] == l[d0.len() as int]);
        assert(!opens_comment(s, e, s.len() as int));
        assert forall|k: int| 0 <= k < rest.len() implies plain_decl_text(#[trigger] rest[k]) && rest[k].contains(':') by {
            assert(rest[k] == ds[k + 1]);
        }
        assert(s.subrange(e + 1, e + 1 + rl.len()) =~= rl) by {
            assert forall|k: int| 0 <= k < rl.len() implies s.subrange(e + 1, e + 1 + rl.len())[k] == rl[k] by {
                assert(s[e + 1 + k] == l[d0.len() + 1 + k]);
            }
        }
        lemma_decl_list_count(s, e + 1, rest);
    }
}

/// Law (declaration lists): `n` declarations separated by `;` count as `n`, with or without
/// a `;` after the last one.
pub proof fn law_declaration_list_counted(ds: Seq<Seq<char>>)
    requires
        ds.len() > 0,
        forall|k: int| 0 <= k < ds.len() ==> plain_decl_text(#[trigger] ds[k]) && ds[k].contains(':'),
    ensures
        top_level_declarations(decl_list(ds)) == ds.len(),
        top_level_declarations(decl_list(ds) + seq![';']) == ds.len(),
{
    let l = decl_list(ds);
    assert(l.subrange(0, l.len() as int) =~= l);
    lemma_decl_list_count(l, 0, ds);
    let l2 = l + seq![';'];
    assert(l2.subrange(0, l.len() as int) =~= l);
    lemma_decl_list_count(l2, 0, ds);
}

pub proof fn lemma_decl_count_bound(
    s: Seq<char>,
    i: int,
    braces: nat,
    parens: nat,
    brackets: nat,
    quote: Option<char>,
    escaped: bool,
    seg: bool,
)
    requires
        0 <= i <= s.len(),
    ensures
        decl_count(s, i, braces, parens, brackets, quote, escaped, seg) <= s.len() - i + (if seg {
            1int
        } else {
            0int
        }),
    decreases s.len() - i,
{
    if i >= s.len() {
    } else {
        let b = s[i];
        let top = braces == 0 && parens == 0 && brackets == 0;
        match quote {
            Some(q) => {
                if escaped {
                    lemma_decl_count_bound(s, i + 1, braces, parens, brackets, quote, false, seg);
                } else if b == '\\' {
                    lemma_decl_count_bound(s, i + 1, braces, parens, brackets, quote, true, seg);
                } else if b == q {
                    lemma_decl_count_bound(s, i + 1, braces, parens, brackets, None, escaped, seg);
                } else {
                    lemma_decl_count_bound(s, i + 1, braces, parens, brackets, quote, escaped, seg);
                }
            },
            None => {
                if opens_comment(s, i, s.len() as int) {
                    lemma_comment_end(s, i + 2, s.len() as int);
                    lemma_decl_count_bound(
                        s,
                        comment_end(s, i + 2, s.len() as int),
                        braces,
                        parens,
                        brackets,
                        quote,
                        escaped,
                        seg,
                    );
                } else if is_quote(b) {
                    lemma_decl_count_bound(s, i + 1, braces, parens, brackets, Some(b), escaped, seg);
                } else if b == '{' {
                    lemma_decl_count_bound(s, i + 1, braces + 1, parens, brackets, quote, escaped, seg);
                } else if b == '}' {
                    lemma_decl_count_bound(s, i + 1, sat_dec(braces), parens, brackets, quote, escaped, seg);
                } else if b == '(' {
                    lemma_decl_count_bound(s, i + 1, braces, parens + 1, brackets, quote, escaped, seg);
                } else if b == ')' {
                    lemma_decl_count_bound(s, i + 1, braces, sat_dec(parens), brackets, quote, escaped, seg);
                } else if b == '[' {
                    lemma_decl_count_bound(s, i + 1, braces, parens, brackets + 1, quote, escaped, seg);
                } else if b == ']' {
                    lemma_decl_count_bound(s, i + 1, braces, parens, sat_dec(brackets), quote, escaped, seg);
                } else if b == ':' && top {
                    lemma_decl_count_bound(s, i + 1, braces, parens, brackets, quote, escaped, true);
                } else if b == ';' && top {
                    lemma_decl_count_bound(s, i + 1, braces, parens, brackets, quote, escaped, false);
                } else {
                    lemma_decl_count_bound(s, i + 1, braces, parens, brackets, quote, escaped, seg);
                }
            },
        }
    }
}

pub fn count_declarations_chars(s: &[char]) -> (r: usize)
    ensures
        r == top_level_declarations(s@),
{
    let len = s.len();
    let mut i: usize = 0;
    let mut braces: usize = 0;
    let mut parens: usize = 0;
    let mut brackets: usize = 0;
    let mut quote: Option<char> = None;
    let mut escaped = false;
    let mut count: usize = 0;
    let mut seg = false;
    proof {
        lemma_decl_count_bound(s@, 0, 0, 0, 0, None, false, false);
    }
    while i < len
        invariant
            len == s@.len(),
            i <= len,
            braces <= i,
            parens <= i,
            brackets <= i,
            top_level_declarations(s@) <= len,
            top_level_declarations(s@) == count + decl_count(
                s@,
                i as int,
                braces as nat,
                parens as nat,
                brackets as nat,
                quote,
                escaped,
                seg,
            ),
        decreases len - i,
    {
        proof {
            lemma_decl_count_bound(
                s@,
                i as int,
                braces as nat,
                parens as nat,
                brackets as nat,
                quote,
                escaped,
                seg,
            );
        }
        let b = s[i];
        if let Some(q) = quote {
            if escaped {
                escaped = false;
            } else if b == '\\' {
                escaped = true;
            } else if b == q {
                quote = None;
            }
            i = i + 1;
            continue;
        }
        if b == '/' && i + 1 < len && s[i + 1] == '*' {
            i = comment_end_exec(s, i + 2, len);
            continue;
        }
        let top = braces == 0 && parens == 0 && brackets == 0;
        if b == '\'' || b == '"' {
            quote = Some(b);
        } else if b == '{' {
            braces = braces + 1;
        } else if b == '}' {
            if braces > 0 {
                braces = braces - 1;
            }
        } else if b == '(' {
            parens = parens + 1;
        } else if b == ')' {
            if parens > 0 {
                parens = parens - 1;
            }
        } else if b == '[' {
            brackets = brackets + 1;
        } else if b == ']' {
            if brackets > 0 {
                brackets = brackets - 1;
            }
        } else if b == ':' && top {
            seg = true;
        } else if b == ';' && top {
            if seg {
                count = count + 1;
            }
            seg = false;
        }
        i = i + 1;
    }
    if seg {
        count = count + 1;
    }
    count
}

/// Number of top-level declarations in a rule body: `;`-separated segments, outside
/// nested blocks, parentheses, brackets, strings and comments, that hold a `:`.
pub fn count_top_level_declarations(body: &str) -> (r: usize)
    ensures
        r == top_level_declarations(body@),
{
    let s = chars_of(body);
    count_declarations_chars(s.as_slice())
}

/// Occurrences of `n` (already lower-cased) in `s` from `i` on, ASCII case-insensitively,
/// outside strings and comments, counted without overlap.
pub open spec fn ci_count(s: Seq<char>, n: Seq<char>, i: int, quote: Option<char>, escaped: bool) -> nat
    decreases s.len() - i,
{
    if i >= s.len() || i < 0 || n.len() == 0 {
        0
    } else {
        let b = s[i];
        match quote {
            Some(q) => {
                if escaped {
                    ci_count(s, n, i + 1, quote, false)
                } else if b == '\\' {
                    ci_count(s, n, i + 1, quote, true)
                } else if b == q {
                    ci_count(s, n, i + 1, None, escaped)
                } else {
                    ci_count(s, n, i + 1, quote, escaped)
                }
            },
            None => {
                if opens_comment(s, i, s.len() as int) {
                    let e = comment_end(s, i + 2, s.len() as int);
                    proof {
                        lemma_comment_end(s, i + 2, s.len() as int);
                    }
                    ci_count(s, n, e, quote, escaped)
                } else if is_quote(b) {
                    ci_count(s, n, i + 1, Some(b), escaped)
                } else if i + n.len() <= s.len() && lower(s.subrange(i, i + n.len())) == n {
                    1 + ci_count(s, n, i + n.len(), quote, escaped)
                } else {
                    ci_count(s, n, i + 1, quote, escaped)
                }
            },
        }
    }
}

pub open spec fn case_insensitive_count(s: Seq<char>, needle: Seq<char>) -> nat {
    ci_count(s, lower(needle), 0, None, false)
}

pub proof fn lemma_ci_count_bound(s: Seq<char>, n: Seq<char>, i: int, quote: Option<char>, escaped: bool)
    requires
        0 <= i <= s.len(),
    ensures
        ci_count(s, n, i, quote, escaped) <= s.len() - i,
    decreases s.len() - i,
{
    if i >= s.len() || n.len() == 0 {
    } else {
        let b = s[i];
        match quote {
            Some(q) => {
                if escaped {
                    lemma_ci_count_bound(s, n, i + 1, quote, false);
                } else if b == '\\' {
                    lemma_ci_count_bound(s, n, i + 1, quote, true);
                } else if b == q {
                    lemma_ci_count_bound(s, n, i + 1, None, escaped);
                } else {
                    lemma_ci_count_bound(s, n, i + 1, quote, escaped);
                }
            },
            None => {
                if opens_comment(s, i, s.len() as int) {
                    lemma_comment_end(s, i + 2, s.len() as int);
                    lemma_ci_count_bound(s, n, comment_end(s, i + 2, s.len() as int), quote, escaped);
                } else if is_quote(b) {
                    lemma_ci_count_bound(s, n, i + 1, Some(b), escaped);
                } else if i + n.len() <= s.len() && lower(s.subrange(i, i + n.len())) == n {
                    lemma_ci_count_bound(s, n, i + n.len(), quote, escaped);
                } else {
                    lemma_ci_count_bound(s, n, i + 1, quote, escaped);
                }
            },
        }
    }
}

fn lower_window_eq(s: &[char], i: usize, n: &[char]) -> (r: bool)
    requires
        i + n@.len() <= s@.len(),
    ensures
        r == (lower(s@.subrange(i as int, i + n@.len())) == n@),
{
    let l = s.len();
    let mut k: usize = 0;
    while k < n.len()
        invariant
            l == s@.len(),
            i + n@.len() <= s@.len(),
            k <= n@.len(),
            forall|j: int| 0 <= j < k ==> ascii_lower(s@[i + j]) == n@[j],
        decreases n.len() - k,
    {
        if lower_char(s[i + k]) != n[k] {
            assert(lower(s@.subrange(i as int, i + n@.len()))[k as int] != n@[k as int]);
            return false;
        }
        k = k + 1;
    }
    assert(lower(s@.subrange(i as int, i + n@.len())) =~= n@);
    true
}

/// Counts occurrences of `needle` in `source`, ignoring ASCII case, outside strings and comments.
pub fn count_ascii_case_insensitive_outside_comments(source: &str, needle: &str) -> (r: usize)
    requires
        needle@.len() > 0,
    ensures
        r == case_insensitive_count(source@, needle@),
{
    let s = chars_of(source);
    let nc = chars_of(needle);
    let n = lower_range(nc.as_slice(), 0, nc.len());
    proof {
        assert(nc@.subrange(0, nc@.len() as int) =~= needle@);
    }
    let len = s.len();
    let mut i: usize = 0;
    let mut quote: Option<char> = None;
    let mut escaped = false;
    let mut count: usize = 0;
    proof {
        lemma_ci_count_bound(s@, n@, 0, None, false);
    }
    while i < len
        invariant
            len == s@.len(),
            n@ == lower(needle@),
            n@.len() > 0,
            i <= len,
            count <= i,
            case_insensitive_count(source@, needle@) == count + ci_count(s@, n@, i as int, quote, escaped),
            s@ == source@,
        decreases len - i,
    {
        proof {
            lemma_ci_count_bound(s@, n@, i as int, quote, escaped);
        }
        let b = s[i];
        if let Some(q) = quote {
            if escaped {
                escaped = false;
            } else if b == '\\' {
                escaped = true;
            } else if b == q {
                quote = None;
            }
            i = i + 1;
            continue;
        }
        if b == '/' && i + 1 < len && s[i + 1] == '*' {
            i = comment_end_exec(s.as_slice(), i + 2, len);
            continue;
        }
        if b == '\'' || b == '"' {
            quote = Some(b);
            i = i + 1;
            continue;
        }
        if n.len() <= len - i && lower_window_eq(s.as_slice(), i, n.as_slice()) {
            count = count + 1;
            i = i + n.len();
            continue;
        }
        i = i + 1;
    }
    count
}

} // verus!
