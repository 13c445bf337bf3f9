use crate::scanner::is_quote;
use crate::text::{chars_of, is_ascii_ws, trim, trim_bounds};
use vstd::prelude::*;

verus! {

// ---------------------------------------------------------------------------
// Parentheses
// ---------------------------------------------------------------------------

/// Position of the `)` that brings `depth` to zero, scanning from `i`, honouring quotes.
pub open spec fn paren_close(s: Seq<char>, i: int, depth: nat, quote: Option<char>, escaped: bool) -> Option<
    int,
>
    decreases s.len() - i,
{
    if i >= s.len() || i < 0 {
        None
    } else {
        let b = s[i];
        match quote {
            Some(q) => {
                if escaped {
                    paren_close(s, i + 1, depth, quote, false)
                } else if b == '\\' {
                    paren_close(s, i + 1, depth, quote, true)
                } else if b == q {
                    paren_close(s, i + 1, depth, None, escaped)
                } else {
                    paren_close(s, i + 1, depth, quote, escaped)
                }
            },
            None => {
                if is_quote(b) {
                    paren_close(s, i + 1, depth, Some(b), escaped)
                } else if b == '(' {
                    paren_close(s, i + 1, depth + 1, quote, escaped)
                } else if b == ')' {
                    if depth <= 1 {
                        Some(i)
                    } else {
                        paren_close(s, i + 1, (depth - 1) as nat, quote, escaped)
                    }
                } else {
                    paren_close(s, i + 1, depth, quote, escaped)
                }
            },
        }
    }
}

/// The `)` matching the `(` at `open`.
pub open spec fn matching_paren(s: Seq<char>, open: int) -> Option<int> {
    paren_close(s, open + 1, 1, None, false)
}

pub proof fn lemma_paren_close(s: Seq<char>, i: int, depth: nat, quote: Option<char>, escaped: bool)
    ensures
        paren_close(s, i, depth, quote, escaped) matches Some(k) ==> i <= k < s.len() && s[k] == ')',
    decreases s.len() - i,
{
    if i >= s.len() || i < 0 {
    } else {
        let b = s[i];
        match quote {
            Some(q) => {
                if escaped {
                    lemma_paren_close(s, i + 1, depth, quote, false);
                } else if b == '\\' {
                    lemma_paren_close(s, i + 1, depth, quote, true);
                } else if b == q {
                    lemma_paren_close(s, i + 1, depth, None, escaped);
                } else {
                    lemma_paren_close(s, i + 1, depth, quote, escaped);
                }
            },
            None => {
                if is_quote(b) {
                    lemma_paren_close(s, i + 1, depth, Some(b), escaped);
                } else if b == '(' {
                    lemma_paren_close(s, i + 1, depth + 1, quote, escaped);
                } else if b == ')' {
                    if depth > 1 {
                        lemma_paren_close(s, i + 1, (depth - 1) as nat, quote, escaped);
                    }
                } else {
                    lemma_paren_close(s, i + 1, depth, quote, escaped);
                }
            },
        }
    }
}

pub fn find_matching_paren(s: &[char], open: usize) -> (r: Option<usize>)
    requires
        open < s@.len(),
    ensures
        match matching_paren(s@, open as int) {
            Some(k) => r == Some(k as usize),
            None => r is None,
        },
        r matches Some(k) ==> open < k < s@.len() && s@[k as int] == ')',
{
    proof {
        lemma_paren_close(s@, open + 1, 1, None, false);
    }
    let len = s.len();
    let mut depth: usize = 1;
    let mut i = open + 1;
    let mut quote: Option<char> = None;
    let mut escaped = false;
    while i < len
        invariant
            len == s@.len(),
            open < i <= len,
            1 <= depth <= i - open,
            matching_paren(s@, open as int) == paren_close(s@, i as int, depth as nat, quote, escaped),
        decreases len - i,
    {
        let b = s[i];
        if let Some(q) = quote {
            if escaped {
                escaped = false;
            } else if b == '\\' {
                escaped = true;
            } else if b == q {
                quote = None;
            }
            i = i + 1;
            continue;
        }
        if b == '\'' || b == '"' {
            quote = Some(b);
        } else if b == '(' {
            depth = depth + 1;
        } else if b == ')' {
            if depth <= 1 {
                return Some(i);
            }
            depth = depth - 1;
        }
        i = i + 1;
    }
    None
}

// ---------------------------------------------------------------------------
// Top-level commas
// ---------------------------------------------------------------------------

/// Positions of the commas of `s` from `i` on that stand outside parentheses, brackets
/// and strings.
pub open spec fn comma_scan(
    s: Seq<char>,
    i: int,
    parens: nat,
    brackets: nat,
    quote: Option<char>,
    escaped: bool,
) -> Seq<int>
    decreases s.len() - i,
{
    if i >= s.len() || i < 0 {
        seq![]
    } else {
        let b = s[i];
        match quote {
            Some(q) => {
                if escaped {
                    comma_scan(s, i + 1, parens, brackets, quote, false)
                } else if b == '\\' {
                    comma_scan(s, i + 1, parens, brackets, quote, true)
                } else if b == q {
                    comma_scan(s, i + 1, parens, brackets, None, escaped)
                } else {
                    comma_scan(s, i + 1, parens, brackets, quote, escaped)
                }
            },
            None => {
                if is_quote(b) {
                    comma_scan(s, i + 1, parens, brackets, Some(b), escaped)
                } else if b == '(' {
                    comma_scan(s, i + 1, parens + 1, brackets, quote, escaped)
                } else if b == ')' {
                    comma_scan(s, i + 1, dec(parens), brackets, quote, escaped)
                } else if b == '[' {
                    comma_scan(s, i + 1, parens, brackets + 1, quote, escaped)
                } else if b == ']' {
                    comma_scan(s, i + 1, parens, dec(brackets), quote, escaped)
                } else if b == ',' && parens == 0 && brackets == 0 {
                    seq![i] + comma_scan(s, i + 1, parens, brackets, quote, escaped)
                } else {
                    comma_scan(s, i + 1, parens, brackets, quote, escaped)
                }
            },
        }
    }
}

pub open spec fn dec(n: nat) -> nat {
    if n > 0 {
        (n - 1) as nat
    } else {
        0
    }
}

/// The top-level commas of `s`.
pub open spec fn top_commas(s: Seq<char>) -> Seq<int> {
    comma_scan(s, 0, 0, 0, None, false)
}

/// Whether `s` has a comma outside parentheses, brackets and strings.
pub open spec fn has_top_level_comma(s: Seq<char>) -> bool {
    top_commas(s).len() > 0
}

/// The pieces between the commas `cs`, the first starting at `start`; a last piece is kept
/// only if it is not empty.
pub open spec fn pieces(cs: Seq<int>, start: int, len: int) -> Seq<(int, int)>
    decreases cs.len(),
{
    if cs.len() == 0 {
        if start < len {
            seq![(start, len)]
        } else {
            seq![]
        }
    } else {
        seq![(start, cs[0])] + pieces(cs.drop_first(), cs[0] + 1, len)
    }
}

/// Positions of the parts of `s` between top-level commas, as `split_top_level_comma` cuts them.
pub open spec fn comma_parts(s: Seq<char>) -> Seq<(int, int)> {
    pieces(top_commas(s), 0, s.len() as int)
}

pub open spec fn parts_text(s: Seq<char>, ps: Seq<(int, int)>) -> Seq<Seq<char>> {
    Seq::new(ps.len(), |i: int| s.subrange(ps[i].0, ps[i].1))
}

/// The parts of `s` between top-level commas.
pub open spec fn split_commas(s: Seq<char>) -> Seq<Seq<char>> {
    parts_text(s, comma_parts(s))
}

pub open spec fn commas_ok(s: Seq<char>, cs: Seq<int>, lo: int) -> bool {
    &&& forall|k: int| 0 <= k < cs.len() ==> lo <= #[trigger] cs[k] < s.len() && s[cs[k]] == ','
    &&& forall|k: int, l: int| 0 <= k < l < cs.len() ==> cs[k] < cs[l]
}

pub proof fn lemma_comma_scan(s: Seq<char>, i: int, parens: nat, brackets: nat, quote: Option<char>, escaped: bool)
    requires
        0 <= i,
    ensures
        commas_ok(s, comma_scan(s, i, parens, brackets, quote, escaped), i),
    decreases s.len() - i,
{
    let all = comma_scan(s, i, parens, brackets, quote, escaped);
    if i >= s.len() {
    } else {
        let b = s[i];
        let (np, nb, nq, ne) = match quote {
            Some(q) => {
                if escaped {
                    (parens, brackets, quote, false)
                } else if b == '\\' {
                    (parens, brackets, quote, true)
                } else if b == q {
                    (parens, brackets, None, escaped)
                } else {
                    (parens, brackets, quote, escaped)
                }
            },
            None => {
                if is_quote(b) {
                    (parens, brackets, Some(b), escaped)
                } else if b == '(' {
                    (parens + 1, brackets, quote, escaped)
                } else if b == ')' {
                    (dec(parens), brackets, quote, escaped)
                } else if b == '[' {
                    (parens, brackets + 1, quote, escaped)
                } else if b == ']' {
                    (parens, dec(brackets), quote, escaped)
                } else {
                    (parens, brackets, quote, escaped)
                }
            },
        };
        lemma_comma_scan(s, i + 1, np, nb, nq, ne);
        let rest = comma_scan(s, i + 1, np, nb, nq, ne);
        if quote is None && !is_quote(b) && b == ',' && parens == 0 && brackets == 0 {
            assert(all == seq![i] + rest);
            assert forall|k: int| 0 <= k < all.len() implies i <= #[trigger] all[k] < s.len() && s[all[k]] == ',' by {
                if k > 0 {
                    assert(all[k] == rest[k - 1]);
                }
            }
            assert forall|k: int, l: int| 0 <= k < l < all.len() implies all[k] < all[l] by {
                assert(all[l] == rest[l - 1]);
                if k > 0 {
                    assert(all[k] == rest[k - 1]);
                }
            }
        } else {
            assert(all == rest);
        }
    }
}

/// Top-level comma positions of `s`.
pub fn top_commas_exec(s: &[char]) -> (r: Vec<usize>)
    ensures
        r@.len() == top_commas(s@).len(),
        forall|k: int| 0 <= k < r@.len() ==> r@[k] as int == #[trigger] top_commas(s@)[k],
{
    let len = s.len();
    let mut out: Vec<usize> = Vec::new();
    let mut i: usize = 0;
    let mut parens: usize = 0;
    let mut brackets: usize = 0;
    let mut quote: Option<char> = None;
    let mut escaped = false;
    while i < len
        invariant
            len == s@.len(),
            i <= len,
            parens <= i,
            brackets <= i,
            top_commas(s@) == out@.map_values(|x: usize| x as int) + comma_scan(
                s@,
                i as int,
                parens as nat,
                brackets as nat,
                quote,
                escaped,
            ),
        decreases len - i,
    {
        let b = s[i];
        if let Some(q) = quote {
            if escaped {
                escaped = false;
            } else if b == '\\' {
                escaped = true;
            } else if b == q {
                quote = None;
            }
            i = i + 1;
            continue;
        }
        if b == '\'' || b == '"' {
            quote = Some(b);
        } else if b == '(' {
            parens = parens + 1;
        } else if b == ')' {
            if parens > 0 {
                parens = parens - 1;
            }
        } else if b == '[' {
            brackets = brackets + 1;
        } else if b == ']' {
            if brackets > 0 {
                brackets = brackets - 1;
            }
        } else if b == ',' && parens == 0 && brackets == 0 {
            let ghost before = out@;
            out.push(i);
            proof {
                assert(out@.map_values(|x: usize| x as int) =~= before.map_values(|x: usize| x as int)
                    + seq![i as int]);
            }
        }
        i = i + 1;
    }
    proof {
        assert(top_commas(s@) =~= out@.map_values(|x: usize| x as int));
    }
    out
}

/// Whether `s` has a top-level comma.
pub fn contains_top_level_comma(s: &[char]) -> (r: bool)
    ensures
        r == has_top_level_comma(s@),
{
    let cs = top_commas_exec(s);
    cs.len() > 0
}

pub proof fn lemma_pieces(cs: Seq<int>, start: int, len: int)
    requires
        0 <= start,
        cs.len() > 0 ==> start <= cs[0],
        forall|k: int| 0 <= k < cs.len() ==> #[trigger] cs[k] < len,
        forall|k: int, l: int| 0 <= k < l < cs.len() ==> cs[k] < cs[l],
    ensures
        forall|k: int| 0 <= k < pieces(cs, start, len).len() ==> start <= #[trigger] pieces(cs, start, len)[k].0 <= pieces(cs, start, len)[k].1 <= len,
        pieces(cs, start, len).len() <= cs.len() + 1,
    decreases cs.len(),
{
    if cs.len() > 0 {
        let rest = cs.drop_first();
        assert forall|k: int| 0 <= k < rest.len() implies #[trigger] rest[k] < len by {
            assert(rest[k] == cs[k + 1]);
        }
        assert forall|k: int, l: int| 0 <= k < l < rest.len() implies rest[k] < rest[l] by {
            assert(rest[k] == cs[k + 1]);
            assert(rest[l] == cs[l + 1]);
        }
        if rest.len() > 0 {
            assert(rest[0] == cs[1]);
        }
        lemma_pieces(rest, cs[0] + 1, len);
        let ps = pieces(cs, start, len);
        let pr = pieces(rest, cs[0] + 1, len);
        assert forall|k: int| 0 <= k < ps.len() implies start <= #[trigger] ps[k].0 <= ps[k].1 <= len by {
            if k > 0 {
                assert(ps[k] == pr[k - 1]);
            }
        }
    }
}

pub proof fn lemma_comma_parts(s: Seq<char>)
    ensures
        forall|k: int| 0 <= k < comma_parts(s).len() ==> 0 <= #[trigger] comma_parts(s)[k].0 <= comma_parts(s)[k].1 <= s.len(),
{
    lemma_comma_scan(s, 0, 0, 0, None, false);
    lemma_pieces(top_commas(s), 0, s.len() as int);
}

/// Positions of the top-level comma-separated parts of `s`.
pub fn comma_parts_exec(s: &[char]) -> (r: Vec<(usize, usize)>)
    ensures
        r@.len() == comma_parts(s@).len(),
        forall|k: int| 0 <= k < r@.len() ==> (#[trigger] r@[k]).0 as int == comma_parts(s@)[k].0 && r@[k].1 as int == comma_parts(s@)[k].1,
        forall|k: int| 0 <= k < r@.len() ==> (#[trigger] r@[k]).0 <= r@[k].1 <= s@.len(),
{
    let cs = top_commas_exec(s);
    let ghost csv = top_commas(s@);
    proof {
        lemma_comma_scan(s@, 0, 0, 0, None, false);
        lemma_comma_parts(s@);
        assert(csv.skip(0) =~= csv);
    }
    let len = s.len();
    let mut out: Vec<(usize, usize)> = Vec::new();
    let mut start: usize = 0;
    let mut k: usize = 0;
    while k < cs.len()
        invariant
            len == s@.len(),
            k <= cs@.len() == csv.len(),
            csv == top_commas(s@),
            forall|j: int| 0 <= j < cs@.len() ==> cs@[j] as int == #[trigger] csv[j],
            forall|j: int| 0 <= j < csv.len() ==> 0 <= #[trigger] csv[j] < s@.len() && s@[csv[j]] == ',',
            forall|j: int, l: int| 0 <= j < l < csv.len() ==> csv[j] < csv[l],
            k < csv.len() ==> start <= csv[k as int],
            start <= s@.len(),
            k > 0 ==> start == csv[k - 1] + 1,
            k == 0 ==> start == 0,
            comma_parts(s@) == out@.map_values(|p: (usize, usize)| (p.0 as int, p.1 as int)) + pieces(
                csv.skip(k as int),
                start as int,
                s@.len() as int,
            ),
            forall|j: int| 0 <= j < out@.len() ==> (#[trigger] out@[j]).0 <= out@[j].1 <= s@.len(),
        decreases cs.len() - k,
    {
        let c = cs[k];
        let ghost before = out@;
        out.push((start, c));
        proof {
            assert(csv.skip(k as int)[0] == csv[k as int]);
            assert(csv.skip(k as int).drop_first() =~= csv.skip(k + 1));
            assert(out@.map_values(|p: (usize, usize)| (p.0 as int, p.1 as int)) =~= before.map_values(
                |p: (usize, usize)| (p.0 as int, p.1 as int),
            ) + seq![(start as int, c as int)]);
            if k + 1 < csv.len() {
                assert(csv[k as int] < csv[k + 1]);
            }
        }
        start = c + 1;
        k = k + 1;
    }
    let ghost before = out@;
    if start < s.len() {
        out.push((start, s.len()));
        proof {
            assert(csv.skip(k as int) =~= seq![]);
            assert(out@.map_values(|p: (usize, usize)| (p.0 as int, p.1 as int)) =~= before.map_values(
                |p: (usize, usize)| (p.0 as int, p.1 as int),
            ) + seq![(start as int, s@.len() as int)]);
        }
    } else {
        proof {
            assert(csv.skip(k as int) =~= seq![]);
        }
    }
    proof {
        assert(comma_parts(s@) =~= out@.map_values(|p: (usize, usize)| (p.0 as int, p.1 as int)));
        assert forall|j: int| 0 <= j < out@.len() implies (#[trigger] out@[j]).0 as int == comma_parts(s@)[j].0
            && out@[j].1 as int == comma_parts(s@)[j].1 by {
            assert(comma_parts(s@)[j] == out@.map_values(|p: (usize, usize)| (p.0 as int, p.1 as int))[j]);
        }
    }
    out
}

/// Splits a selector at its top-level commas. A trailing empty part is dropped.
pub fn split_top_level_comma(selector: &str) -> (parts: Vec<&str>)
    ensures
        parts@.len() == split_commas(selector@).len(),
        forall|k: int| 0 <= k < parts@.len() ==> (#[trigger] parts@[k])@ == split_commas(selector@)[k],
{
    let s = chars_of(selector);
    let ps = comma_parts_exec(s.as_slice());
    let mut out: Vec<&str> = Vec::new();
    let mut k: usize = 0;
    while k < ps.len()
        invariant
            s@ == selector@,
            k <= ps@.len(),
            ps@.len() == comma_parts(s@).len(),
            forall|j: int| 0 <= j < ps@.len() ==> (#[trigger] ps@[j]).0 as int == comma_parts(s@)[j].0 && ps@[j].1 as int == comma_parts(s@)[j].1,
            forall|j: int| 0 <= j < ps@.len() ==> (#[trigger] ps@[j]).0 <= ps@[j].1 <= s@.len(),
            out@.len() == k,
            forall|j: int| 0 <= j < k ==> (#[trigger] out@[j])@ == split_commas(selector@)[j],
        decreases ps.len() - k,
    {
        let (a, b) = ps[k];
        out.push(selector.substring_char(a, b));
        k = k + 1;
    }
    out
}

// ---------------------------------------------------------------------------
// Specificity
// ---------------------------------------------------------------------------

/// Selector specificity, compared as (ids, classes, elements).
#[derive(Debug, Clone, Copy, PartialEq, Eq, PartialOrd, Ord, Default)]
pub struct Specificity {
    pub ids: usize,
    pub classes: usize,
    pub elements: usize,
}

pub struct Spec3 {
    pub ids: nat,
    pub classes: nat,
    pub elements: nat,
}

pub open spec fn zero3() -> Spec3 {
    Spec3 { ids: 0, classes: 0, elements: 0 }
}

pub open spec fn add3(a: Spec3, b: Spec3) -> Spec3 {
    Spec3 { ids: a.ids + b.ids, classes: a.classes + b.classes, elements: a.elements + b.elements }
}

/// Lexicographic `a < b`.
pub open spec fn lt3(a: Spec3, b: Spec3) -> bool {
    a.ids < b.ids || (a.ids == b.ids && (a.classes < b.classes || (a.classes == b.classes
        && a.elements < b.elements)))
}

pub open spec fn max3(a: Spec3, b: Spec3) -> Spec3 {
    if lt3(b, a) {
        a
    } else {
        b
    }
}

pub open spec fn total3(a: Spec3) -> nat {
    a.ids + a.classes + a.elements
}

pub open spec fn spec_of(sp: Specificity) -> Spec3 {
    Spec3 { ids: sp.ids as nat, classes: sp.classes as nat, elements: sp.elements as nat }
}

pub open spec fn is_alnum(c: char) -> bool {
    ('a' <= c && c <= 'z') || ('A' <= c && c <= 'Z') || ('0' <= c && c <= '9')
}

pub open spec fn is_alpha(c: char) -> bool {
    ('a' <= c && c <= 'z') || ('A' <= c && c <= 'Z')
}

pub open spec fn is_ident_char(c: char) -> bool {
    is_alnum(c) || c == '-' || c == '_'
}

pub open spec fn is_pseudo_name_char(c: char) -> bool {
    is_alnum(c) || c == '-'
}

/// End of the run of identifier characters starting at `i`.
pub open spec fn ident_end(s: Seq<char>, i: int) -> int
    decreases s.len() - i,
{
    if 0 <= i < s.len() && is_ident_char(s[i]) {
        ident_end(s, i + 1)
    } else {
        i
    }
}

/// End of the run of pseudo-class name characters starting at `i`.
pub open spec fn pseudo_name_end(s: Seq<char>, i: int) -> int
    decreases s.len() - i,
{
    if 0 <= i < s.len() && is_pseudo_name_char(s[i]) {
        pseudo_name_end(s, i + 1)
    } else {
        i
    }
}

pub proof fn lemma_ident_end(s: Seq<char>, i: int)
    ensures
        i <= ident_end(s, i),
        0 <= i <= s.len() ==> ident_end(s, i) <= s.len(),
    decreases s.len() - i,
{
    if 0 <= i < s.len() && is_ident_char(s[i]) {
        lemma_ident_end(s, i + 1);
    }
}

pub proof fn lemma_pseudo_name_end(s: Seq<char>, i: int)
    ensures
        i <= pseudo_name_end(s, i),
        0 <= i <= s.len() ==> pseudo_name_end(s, i) <= s.len(),
    decreases s.len() - i,
{
    if 0 <= i < s.len() && is_pseudo_name_char(s[i]) {
        lemma_pseudo_name_end(s, i + 1);
    }
}

pub open spec fn is_type_start_boundary(c: char) -> bool {
    is_ascii_ws(c) || c == '>' || c == '+' || c == '~' || c == '|'
}

/// Specificity of a selector, as `calculate_specificity` computes it.
pub open spec fn specificity(s: Seq<char>) -> Spec3
    decreases s.len(), 2int, 0int,
{
    spec_walk(s, 0, false)
}

/// The largest specificity among the trimmed parts `ps` of `inner`, a piece of a selector
/// of length `outer`.
pub open spec fn max_over_parts(outer: nat, inner: Seq<char>, ps: Seq<(int, int)>) -> Spec3
    decreases outer, 0int, ps.len(),
{
    if ps.len() == 0 {
        zero3()
    } else {
        let last = trim(inner.subrange(ps.last().0, ps.last().1));
        let rest = max_over_parts(outer, inner, ps.drop_last());
        if last.len() < outer {
            max3(rest, specificity(last))
        } else {
            rest
        }
    }
}

/// Specificity contributed by `s[i..]`, given whether `i` stands inside an attribute selector.
pub open spec fn spec_walk(s: Seq<char>, i: int, in_attr: bool) -> Spec3
    decreases s.len(), 1int, s.len() - i,
{
    if i < 0 || i >= s.len() {
        zero3()
    } else {
        let b = s[i];
        if b == '[' {
            add3(Spec3 { ids: 0, classes: 1, elements: 0 }, spec_walk(s, i + 1, true))
        } else if b == ']' {
            spec_walk(s, i + 1, false)
        } else if in_attr {
            spec_walk(s, i + 1, in_attr)
        } else if b == '#' {
            proof {
                lemma_ident_end(s, i + 1);
            }
            add3(Spec3 { ids: 1, classes: 0, elements: 0 }, spec_walk(s, ident_end(s, i + 1), in_attr))
        } else if b == '.' {
            proof {
                lemma_ident_end(s, i + 1);
            }
            add3(Spec3 { ids: 0, classes: 1, elements: 0 }, spec_walk(s, ident_end(s, i + 1), in_attr))
        } else if b == ':' {
            if i + 1 < s.len() && s[i + 1] == ':' {
                proof {
                    lemma_ident_end(s, i + 2);
                }
                add3(Spec3 { ids: 0, classes: 0, elements: 1 }, spec_walk(s, ident_end(s, i + 2), in_attr))
            } else {
                let e = pseudo_name_end(s, i + 1);
                proof {
                    lemma_pseudo_name_end(s, i + 1);
                }
                let name = s.subrange(i + 1, e);
                let with_args = e < s.len() && s[e] == '(';
                let close = matching_paren(s, e);
                proof {
                    lemma_paren_close(s, e + 1, 1, None, false);
                }
                if name == seq!['w', 'h', 'e', 'r', 'e'] {
                    if with_args && close is Some {
                        spec_walk(s, close->0 + 1, in_attr)
                    } else {
                        spec_walk(s, e, in_attr)
                    }
                } else if name == seq!['i', 's'] || name == seq!['n', 'o', 't'] || name == seq![
                    'h',
                    'a',
                    's',
                ] {
                    if with_args && close is Some {
                        let inner = s.subrange(e + 1, close->0);
                        add3(
                            max_over_parts(s.len(), inner, comma_parts(inner)),
                            spec_walk(s, close->0 + 1, in_attr),
                        )
                    } else {
                        add3(Spec3 { ids: 0, classes: 1, elements: 0 }, spec_walk(s, e, in_attr))
                    }
                } else {
                    add3(Spec3 { ids: 0, classes: 1, elements: 0 }, spec_walk(s, e, in_attr))
                }
            }
        } else if (is_alpha(b) || b == '*') && (i == 0 || is_type_start_boundary(s[i - 1])) {
            proof {
                lemma_ident_end(s, i + 1);
            }
            add3(
                Spec3 { ids: 0, classes: 0, elements: if b != '*' { 1 } else { 0 } },
                spec_walk(s, ident_end(s, i + 1), in_attr),
            )
        } else {
            spec_walk(s, i + 1, in_attr)
        }
    }
}

} // verus!

verus! {

pub open spec fn parts_within(ps: Seq<(int, int)>, n: int) -> bool {
    forall|k: int| 0 <= k < ps.len() ==> 0 <= #[trigger] ps[k].0 <= ps[k].1 <= n
}

pub proof fn lemma_trim_len(s: Seq<char>)
    ensures
        trim(s).len() <= s.len(),
{
    crate::text::lemma_lead_ws_bound(s);
    crate::text::lemma_trail_ws_bound(crate::text::trim_start(s));
}

pub proof fn lemma_specificity_bound(s: Seq<char>)
    ensures
        total3(specificity(s)) <= s.len(),
    decreases s.len(), 2int, 0int,
{
    lemma_walk_bound(s, 0, false);
}

pub proof fn lemma_max_bound(outer: nat, inner: Seq<char>, ps: Seq<(int, int)>)
    requires
        parts_within(ps, inner.len() as int),
    ensures
        total3(max_over_parts(outer, inner, ps)) <= inner.len(),
    decreases outer, 0int, ps.len(),
{
    if ps.len() > 0 {
        let last = trim(inner.subrange(ps.last().0, ps.last().1));
        lemma_max_bound(outer, inner, ps.drop_last());
        lemma_trim_len(inner.subrange(ps.last().0, ps.last().1));
        if last.len() < outer {
            lemma_specificity_bound(last);
        }
    }
}

pub proof fn lemma_walk_bound(s: Seq<char>, i: int, in_attr: bool)
    requires
        0 <= i <= s.len(),
    ensures
        total3(spec_walk(s, i, in_attr)) <= s.len() - i,
    decreases s.len(), 1int, s.len() - i,
{
    if i < s.len() {
        let b = s[i];
        if b == '[' {
            lemma_walk_bound(s, i + 1, true);
        } else if b == ']' {
            lemma_walk_bound(s, i + 1, false);
        } else if in_attr {
            lemma_walk_bound(s, i + 1, in_attr);
        } else if b == '#' || b == '.' {
            lemma_ident_end(s, i + 1);
            lemma_walk_bound(s, ident_end(s, i + 1), in_attr);
        } else if b == ':' {
            if i + 1 < s.len() && s[i + 1] == ':' {
                lemma_ident_end(s, i + 2);
                lemma_walk_bound(s, ident_end(s, i + 2), in_attr);
            } else {
                let e = pseudo_name_end(s, i + 1);
                lemma_pseudo_name_end(s, i + 1);
                lemma_walk_bound(s, e, in_attr);
                lemma_paren_close(s, e + 1, 1, None, false);
                let close = matching_paren(s, e);
                if e < s.len() && s[e] == '(' && close is Some {
                    let c = close->0;
                    lemma_walk_bound(s, c + 1, in_attr);
                    let inner = s.subrange(e + 1, c);
                    lemma_comma_parts(inner);
                    lemma_max_bound(s.len(), inner, comma_parts(inner));
                }
            }
        } else if (is_alpha(b) || b == '*') && (i == 0 || is_type_start_boundary(s[i - 1])) {
            lemma_ident_end(s, i + 1);
            lemma_walk_bound(s, ident_end(s, i + 1), in_attr);
        } else {
            lemma_walk_bound(s, i + 1, in_attr);
        }
    }
}

fn ident_end_exec(s: &[char], i: usize, underscore: bool) -> (r: usize)
    requires
        i <= s@.len(),
    ensures
        underscore ==> r == ident_end(s@, i as int),
        !underscore ==> r == pseudo_name_end(s@, i as int),
        i <= r <= s@.len(),
{
    proof {
        lemma_ident_end(s@, i as int);
        lemma_pseudo_name_end(s@, i as int);
    }
    let mut j = i;
    while j < s.len() && (is_alnum_exec(s[j]) || s[j] == '-' || (underscore && s[j] == '_'))
        invariant
            i <= j <= s@.len(),
            underscore ==> ident_end(s@, i as int) == ident_end(s@, j as int),
            !underscore ==> pseudo_name_end(s@, i as int) == pseudo_name_end(s@, j as int),
        decreases s@.len() - j,
    {
        j = j + 1;
    }
    j
}

pub fn is_alnum_exec(c: char) -> (r: bool)
    ensures
        r == is_alnum(c),
{
    ('a' <= c && c <= 'z') || ('A' <= c && c <= 'Z') || ('0' <= c && c <= '9')
}

fn is_where(s: &[char], a: usize, b: usize) -> (r: bool)
    requires
        a <= b <= s@.len(),
    ensures
        r == (s@.subrange(a as int, b as int) == seq!['w', 'h', 'e', 'r', 'e']),
{
    if b - a != 5 {
        proof {
            assert(s@.subrange(a as int, b as int).len() != seq!['w', 'h', 'e', 'r', 'e'].len());
        }
        return false;
    }
    let r = s[a] == 'w' && s[a + 1] == 'h' && s[a + 2] == 'e' && s[a + 3] == 'r' && s[a + 4] == 'e';
    proof {
        let t = s@.subrange(a as int, b as int);
        if r {
            assert(t =~= seq!['w', 'h', 'e', 'r', 'e']);
        } else {
            if t == seq!['w', 'h', 'e', 'r', 'e'] {
                assert(t[0] == s@[a as int]);
                assert(t[1] == s@[a + 1]);
                assert(t[2] == s@[a + 2]);
                assert(t[3] == s@[a + 3]);
                assert(t[4] == s@[a + 4]);
            }
        }
    }
    r
}

fn is_is_not_has(s: &[char], a: usize, b: usize) -> (r: bool)
    requires
        a <= b <= s@.len(),
    ensures
        r == (s@.subrange(a as int, b as int) == seq!['i', 's'] || s@.subrange(a as int, b as int)
            == seq!['n', 'o', 't'] || s@.subrange(a as int, b as int) == seq!['h', 'a', 's']),
{
    let t = Ghost(s@.subrange(a as int, b as int));
    if b - a == 2 {
        let r = s[a] == 'i' && s[a + 1] == 's';
        proof {
            if r {
                assert(t@ =~= seq!['i', 's']);
            } else if t@ == seq!['i', 's'] {
                assert(t@[0] == s@[a as int]);
                assert(t@[1] == s@[a + 1]);
            }
            assert(t@.len() != seq!['n', 'o', 't'].len());
        }
        r
    } else if b - a == 3 {
        let r1 = s[a] == 'n' && s[a + 1] == 'o' && s[a + 2] == 't';
        let r2 = s[a] == 'h' && s[a + 1] == 'a' && s[a + 2] == 's';
        proof {
            if r1 {
                assert(t@ =~= seq!['n', 'o', 't']);
            }
            if r2 {
                assert(t@ =~= seq!['h', 'a', 's']);
            }
            if t@ == seq!['n', 'o', 't'] || t@ == seq!['h', 'a', 's'] {
                assert(t@[0] == s@[a as int]);
                assert(t@[1] == s@[a + 1]);
                assert(t@[2] == s@[a + 2]);
            }
            assert(t@.len() != seq!['i', 's'].len());
        }
        r1 || r2
    } else {
        proof {
            assert(t@.len() != seq!['i', 's'].len());
            assert(t@.len() != seq!['n', 'o', 't'].len());
        }
        false
    }
}

fn max_spec_exec(a: Specificity, b: Specificity) -> (r: Specificity)
    ensures
        spec_of(r) == max3(spec_of(a), spec_of(b)),
{
    let b_lt_a = b.ids < a.ids || (b.ids == a.ids && (b.classes < a.classes || (b.classes == a.classes
        && b.elements < a.elements)));
    if b_lt_a {
        a
    } else {
        b
    }
}

/// Specificity of the selector `s`.
pub fn specificity_chars(s: &[char]) -> (r: Specificity)
    ensures
        spec_of(r) == specificity(s@),
    decreases s@.len(),
{
    proof {
        lemma_specificity_bound(s@);
    }
    let len = s.len();
    let mut ids: usize = 0;
    let mut classes: usize = 0;
    let mut elements: usize = 0;
    let mut i: usize = 0;
    let mut in_attr = false;
    while i < len
        invariant
            len == s@.len(),
            i <= len,
            total3(specificity(s@)) <= len,
            specificity(s@) == add3(
                Spec3 { ids: ids as nat, classes: classes as nat, elements: elements as nat },
                spec_walk(s@, i as int, in_attr),
            ),
        decreases len - i,
    {
        proof {
            lemma_walk_bound(s@, i as int, in_attr);
        }
        let b = s[i];
        if b == '[' {
            in_attr = true;
            classes = classes + 1;
            i = i + 1;
            continue;
        }
        if b == ']' {
            in_attr = false;
            i = i + 1;
            continue;
        }
        if in_attr {
            i = i + 1;
            continue;
        }
        if b == '#' {
            ids = ids + 1;
            i = ident_end_exec(s, i + 1, true);
            continue;
        }
        if b == '.' {
            classes = classes + 1;
            i = ident_end_exec(s, i + 1, true);
            continue;
        }
        if b == ':' {
            if i + 1 < len && s[i + 1] == ':' {
                elements = elements + 1;
                i = ident_end_exec(s, i + 2, true);
            } else {
                let e = ident_end_exec(s, i + 1, false);
                let with_args = e < len && s[e] == '(';
                let close = if with_args {
                    find_matching_paren(s, e)
                } else {
                    None
                };
                proof {
                    lemma_paren_close(s@, e + 1, 1, None, false);
                }
                if is_where(s, i + 1, e) {
                    if let Some(c) = close {
                        i = c + 1;
                        continue;
                    }
                    i = e;
                    continue;
                } else if is_is_not_has(s, i + 1, e) {
                    if let Some(c) = close {
                        let m = max_part_specificity(s, e + 1, c);
                        proof {
                            lemma_walk_bound(s@, c + 1, in_attr);
                        }
                        ids = ids + m.ids;
                        classes = classes + m.classes;
                        elements = elements + m.elements;
                        i = c + 1;
                        continue;
                    }
                    classes = classes + 1;
                } else {
                    classes = classes + 1;
                }
                i = e;
            }
            continue;
        }
        if (('a' <= b && b <= 'z') || ('A' <= b && b <= 'Z') || b == '*') && (i == 0 || ascii_ws_or_combinator(s[i - 1])) {
            if b != '*' {
                elements = elements + 1;
            }
            i = ident_end_exec(s, i + 1, true);
            continue;
        }
        i = i + 1;
    }
    Specificity { ids, classes, elements }
}

fn ascii_ws_or_combinator(c: char) -> (r: bool)
    ensures
        r == is_type_start_boundary(c),
{
    crate::text::ascii_ws(c) || c == '>' || c == '+' || c == '~' || c == '|'
}

/// The largest specificity among the trimmed top-level comma parts of `s[a..b]`.
fn max_part_specificity(s: &[char], a: usize, b: usize) -> (r: Specificity)
    requires
        a <= b < s@.len(),
    ensures
        spec_of(r) == max_over_parts(s@.len(), s@.subrange(a as int, b as int), comma_parts(s@.subrange(a as int, b as int))),
        total3(spec_of(r)) <= b - a,
    decreases s@.len(), 0int,
{
    let inner = copy_range(s, a, b);
    let ps = comma_parts_exec(inner.as_slice());
    let ghost psv = comma_parts(inner@);
    proof {
        lemma_comma_parts(inner@);
        lemma_max_bound(s@.len(), inner@, psv);
        assert(psv.take(0) =~= seq![]);
    }
    let mut best = Specificity { ids: 0, classes: 0, elements: 0 };
    let mut k: usize = 0;
    while k < ps.len()
        invariant
            inner@ == s@.subrange(a as int, b as int),
            a <= b < s@.len(),
            psv == comma_parts(inner@),
            ps@.len() == psv.len(),
            forall|j: int| 0 <= j < ps@.len() ==> (#[trigger] ps@[j]).0 as int == psv[j].0 && ps@[j].1 as int == psv[j].1,
            forall|j: int| 0 <= j < ps@.len() ==> (#[trigger] ps@[j]).0 <= ps@[j].1 <= inner@.len(),
            k <= ps@.len(),
            spec_of(best) == max_over_parts(s@.len(), inner@, psv.take(k as int)),
        decreases ps.len() - k,
    {
        let (x, y) = ps[k];
        let (tx, ty) = trim_bounds(inner.as_slice(), x, y);
        let part = copy_range(inner.as_slice(), tx, ty);
        proof {
            assert(psv.take(k + 1).drop_last() =~= psv.take(k as int));
            assert(psv.take(k + 1).last() == psv[k as int]);
            lemma_trim_len(inner@.subrange(x as int, y as int));
        }
        let sp = specificity_chars(part.as_slice());
        best = max_spec_exec(best, sp);
        k = k + 1;
    }
    proof {
        assert(psv.take(ps@.len() as int) =~= psv);
    }
    best
}

/// A copy of `s[a..b]`.
pub fn copy_range(s: &[char], a: usize, b: usize) -> (r: Vec<char>)
    requires
        a <= b <= s@.len(),
    ensures
        r@ == s@.subrange(a as int, b as int),
{
    let mut r: Vec<char> = Vec::new();
    crate::text::push_range(&mut r, s, a, b);
    assert(r@ =~= s@.subrange(a as int, b as int));
    r
}

/// Specificity of a selector: ids, classes (with attributes and pseudo-classes), and
/// elements (with pseudo-elements). `:where()` counts nothing; `:is()`, `:not()` and
/// `:has()` count their most specific argument.
pub fn calculate_specificity(selector: &str) -> (r: Specificity)
    ensures
        spec_of(r) == specificity(selector@),
{
    let s = chars_of(selector);
    specificity_chars(s.as_slice())
}

} // verus!
