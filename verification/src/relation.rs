use crate::model::RuleId;
use crate::selector::{copy_range, has_top_level_comma, contains_top_level_comma};
use crate::text::{
    contains, contains_in, find, find_in, is_ascii_ws, is_ws, lead_ws, rfind_char, starts_with,
    starts_with_at, texts, trim, trim_bounds, trim_start, unicode_ws,
};
use crate::transform::{all_end_with, all_valid, cut_ends, trimmed_parts, valid_token};
use vstd::prelude::*;

verus! {

/// How a child selector relates to the parent it extends.
#[derive(Debug, Clone, Copy, PartialEq, Eq, Structural)]
pub enum RelationKind {
    PseudoClass,
    PseudoElement,
    Attribute,
    Compound,
    Descendant,
    Combinator,
}

pub open spec fn relation_rule(k: RelationKind) -> RuleId {
    match k {
        RelationKind::PseudoClass => RuleId::NestPseudoClass,
        RelationKind::PseudoElement => RuleId::NestPseudoElement,
        RelationKind::Attribute => RuleId::NestAttribute,
        RelationKind::Compound => RuleId::NestCompound,
        RelationKind::Descendant => RuleId::NestDescendant,
        RelationKind::Combinator => RuleId::NestCombinator,
    }
}

impl RelationKind {
    /// The nesting rule that covers this relation.
    pub fn rule(self) -> (r: RuleId)
        ensures
            r == relation_rule(self),
    {
        match self {
            RelationKind::PseudoClass => RuleId::NestPseudoClass,
            RelationKind::PseudoElement => RuleId::NestPseudoElement,
            RelationKind::Attribute => RuleId::NestAttribute,
            RelationKind::Compound => RuleId::NestCompound,
            RelationKind::Descendant => RuleId::NestDescendant,
            RelationKind::Combinator => RuleId::NestCombinator,
        }
    }
}

pub open spec fn is_combinator(c: char) -> bool {
    c == '>' || c == '+' || c == '~'
}

pub open spec fn attaches(c: char) -> bool {
    c == ':' || c == '[' || c == '.' || c == '#'
}

/// `c rest` for a combinator `c` followed by `rest`.
pub open spec fn comb_form(t: Seq<char>) -> Seq<char> {
    seq![t[0], ' '] + trim(t.drop_first())
}

/// How `child` nests under `parent` (both trimmed first), with the selector it takes inside
/// the parent's block.
pub open spec fn relation_spec(parent0: Seq<char>, child0: Seq<char>) -> Option<(RelationKind, Seq<char>)> {
    let p = trim(parent0);
    let c = trim(child0);
    if p.len() == 0 || c.len() == 0 || has_top_level_comma(p) || has_top_level_comma(c) || contains(
        p,
        seq![':', ':'],
    ) || c == p || !starts_with(c, p) {
        None
    } else {
        let rem = c.skip(p.len() as int);
        let t = trim_start(rem);
        if t.len() == 0 {
            None
        } else if starts_with(rem, seq![':', ':']) {
            Some((RelationKind::PseudoElement, seq!['&'] + rem))
        } else if rem[0] == ':' {
            Some((RelationKind::PseudoClass, seq!['&'] + rem))
        } else if rem[0] == '[' {
            Some((RelationKind::Attribute, seq!['&'] + rem))
        } else if rem[0] == '.' || rem[0] == '#' {
            Some((RelationKind::Compound, seq!['&'] + rem))
        } else if is_combinator(t[0]) {
            Some((RelationKind::Combinator, comb_form(t)))
        } else if is_ascii_ws(rem[0]) {
            Some((RelationKind::Descendant, trim(rem)))
        } else {
            None
        }
    }
}

/// A trimmed copy.
pub(crate) fn trimmed(v: &[char]) -> (r: Vec<char>)
    ensures
        r@ == trim(v@),
{
    let (x, y) = trim_bounds(v, 0, v.len());
    proof {
        assert(v@.subrange(0, v@.len() as int) =~= v@);
    }
    copy_range(v, x, y)
}

/// `c` followed by `v`.
fn prepend(c: char, v: &[char]) -> (r: Vec<char>)
    ensures
        r@ == seq![c] + v@,
{
    let mut r: Vec<char> = Vec::new();
    r.push(c);
    r.extend_from_slice(v);
    assert(r@ =~= seq![c] + v@);
    r
}

/// The combinator form `c rest` of `c[t..]`, where `c[t]` is a combinator.
fn comb_exec(c: &[char], t: usize) -> (r: Vec<char>)
    requires
        t < c@.len(),
    ensures
        r@ == comb_form(c@.skip(t as int)),
{
    let n = c.len();
    assert(t < n);
    let (x, y) = trim_bounds(c, t + 1, n);
    let mut r: Vec<char> = Vec::new();
    r.push(c[t]);
    r.push(' ');
    crate::text::push_range(&mut r, c, x, y);
    proof {
        assert(c@.skip(t as int).drop_first() =~= c@.subrange(t + 1, c@.len() as int));
        assert(r@ =~= comb_form(c@.skip(t as int)));
    }
    r
}

/// Whether `p` is a prefix of `c`, and the two differ.
fn proper_prefix(c: &[char], p: &[char]) -> (r: bool)
    ensures
        r == (c@ != p@ && starts_with(c@, p@)),
{
    let sw = starts_with_at(c, 0, c.len(), p);
    proof {
        assert(c@.subrange(0, c@.len() as int) =~= c@);
    }
    if !sw {
        return false;
    }
    if c.len() == p.len() {
        proof {
            assert(c@ =~= c@.take(p@.len() as int));
        }
        return false;
    }
    true
}

/// How `child` nests under `parent`: the relation and the selector it takes inside the
/// parent's block (`&:hover`, `> .body`, `.title`, ...).
pub(crate) fn selector_relation(parent0: &[char], child0: &[char]) -> (r: Option<(RelationKind, Vec<char>)>)
    ensures
        match relation_spec(parent0@, child0@) {
            Some((k, t)) => r matches Some((k2, v)) && k2 == k && v@ == t,
            None => r is None,
        },
{
    let p = trimmed(parent0);
    let c = trimmed(child0);
    let dc = [':', ':'];
    if p.len() == 0 || c.len() == 0 || contains_top_level_comma(p.as_slice())
        || contains_top_level_comma(c.as_slice()) {
        return None;
    }
    let pdc = contains_in(p.as_slice(), 0, p.len(), &dc);
    proof {
        assert(p@.subrange(0, p@.len() as int) =~= p@);
        assert(dc@ == seq![':', ':']);
    }
    if pdc || !proper_prefix(c.as_slice(), p.as_slice()) {
        return None;
    }
    let pl = p.len();
    let (t, _) = trim_bounds(c.as_slice(), pl, c.len());
    let ghost rem = c@.skip(pl as int);
    proof {
        assert(rem =~= c@.subrange(pl as int, c@.len() as int));
        assert(trim_start(rem) =~= c@.subrange(t as int, c@.len() as int));
    }
    if t == c.len() {
        return None;
    }
    let rem_v = copy_range(c.as_slice(), pl, c.len());
    assert(rem_v@ == rem);
    let first = c[pl];
    assert(rem[0] == first);
    let kind;
    if starts_with_at(c.as_slice(), pl, c.len(), &dc) {
        kind = RelationKind::PseudoElement;
    } else if first == ':' {
        kind = RelationKind::PseudoClass;
    } else if first == '[' {
        kind = RelationKind::Attribute;
    } else if first == '.' || first == '#' {
        kind = RelationKind::Compound;
    } else if c[t] == '>' || c[t] == '+' || c[t] == '~' {
        proof {
            assert(trim_start(rem)[0] == c@[t as int]);
            assert(c@.skip(t as int) =~= trim_start(rem));
        }
        return Some((RelationKind::Combinator, comb_exec(c.as_slice(), t)));
    } else if first == ' ' || first == '\t' || first == '\n' || first == '\x0C' || first == '\r' {
        proof {
            assert(trim_start(rem)[0] == c@[t as int]);
        }
        let (x, y) = trim_bounds(c.as_slice(), pl, c.len());
        return Some((RelationKind::Descendant, copy_range(c.as_slice(), x, y)));
    } else {
        proof {
            assert(trim_start(rem)[0] == c@[t as int]);
        }
        return None;
    }
    Some((kind, prepend('&', rem_v.as_slice())))
}

/// The selector `child` takes when nested under the rule whose relative selector is `parent`.
pub open spec fn relative_spec(parent0: Seq<char>, child0: Seq<char>) -> Option<Seq<char>> {
    let p = trim(parent0);
    let c = trim(child0);
    if c == p || !starts_with(c, p) {
        None
    } else {
        let rem = c.skip(p.len() as int);
        let t = trim_start(rem);
        if t.len() == 0 {
            None
        } else if attaches(rem[0]) {
            Some(seq!['&'] + rem)
        } else if is_combinator(t[0]) {
            Some(comb_form(t))
        } else if is_ascii_ws(rem[0]) {
            Some(t)
        } else {
            None
        }
    }
}

pub(crate) fn extract_relative_subselector(parent0: &[char], child0: &[char]) -> (r: Option<Vec<char>>)
    ensures
        match relative_spec(parent0@, child0@) {
            Some(t) => r matches Some(v) && v@ == t,
            None => r is None,
        },
{
    let p = trimmed(parent0);
    let c = trimmed(child0);
    if !proper_prefix(c.as_slice(), p.as_slice()) {
        return None;
    }
    let pl = p.len();
    let (t, _) = trim_bounds(c.as_slice(), pl, c.len());
    let ghost rem = c@.skip(pl as int);
    proof {
        assert(rem =~= c@.subrange(pl as int, c@.len() as int));
        assert(trim_start(rem) =~= c@.subrange(t as int, c@.len() as int));
    }
    if t == c.len() {
        return None;
    }
    let first = c[pl];
    assert(rem[0] == first);
    proof {
        assert(trim_start(rem)[0] == c@[t as int]);
    }
    if first == ':' || first == '[' || first == '.' || first == '#' {
        let rem_v = copy_range(c.as_slice(), pl, c.len());
        Some(prepend('&', rem_v.as_slice()))
    } else if c[t] == '>' || c[t] == '+' || c[t] == '~' {
        proof {
            assert(c@.skip(t as int) =~= trim_start(rem));
        }
        Some(comb_exec(c.as_slice(), t))
    } else if first == ' ' || first == '\t' || first == '\n' || first == '\x0C' || first == '\r' {
        Some(copy_range(c.as_slice(), t, c.len()))
    } else {
        None
    }
}

/// The selector a rule for `cand` takes when gathered under `base` (no trimming).
pub open spec fn related_spec(base: Seq<char>, cand: Seq<char>) -> Option<Seq<char>> {
    if cand == base || !starts_with(cand, base) {
        None
    } else {
        let raw = cand.skip(base.len() as int);
        let rem = trim_start(raw);
        if rem.len() == 0 {
            None
        } else if attaches(rem[0]) {
            if !is_ws(raw[0]) {
                Some(seq!['&'] + rem)
            } else {
                Some(rem)
            }
        } else if is_combinator(rem[0]) {
            Some(seq![rem[0], ' '] + trim_start(rem.drop_first()))
        } else if raw[0] == ' ' {
            Some(rem)
        } else {
            None
        }
    }
}

pub(crate) fn extract_related_nested_selector(base: &[char], cand: &[char]) -> (r: Option<Vec<char>>)
    ensures
        match related_spec(base@, cand@) {
            Some(t) => r matches Some(v) && v@ == t,
            None => r is None,
        },
{
    if !proper_prefix(cand, base) {
        return None;
    }
    let bl = base.len();
    let (t, _) = trim_bounds(cand, bl, cand.len());
    let ghost raw = cand@.skip(bl as int);
    proof {
        assert(raw =~= cand@.subrange(bl as int, cand@.len() as int));
        assert(trim_start(raw) =~= cand@.subrange(t as int, cand@.len() as int));
    }
    if t == cand.len() {
        return None;
    }
    let first_raw = cand[bl];
    let first = cand[t];
    assert(raw[0] == first_raw);
    assert(trim_start(raw)[0] == first);
    let rem_v = copy_range(cand, t, cand.len());
    if first == ':' || first == '[' || first == '.' || first == '#' {
        if !unicode_ws(first_raw) {
            Some(prepend('&', rem_v.as_slice()))
        } else {
            Some(rem_v)
        }
    } else if first == '+' || first == '>' || first == '~' {
        let (x, _) = trim_bounds(cand, t + 1, cand.len());
        let mut r: Vec<char> = Vec::new();
        r.push(first);
        r.push(' ');
        crate::text::push_range(&mut r, cand, x, cand.len());
        proof {
            let rem = trim_start(raw);
            assert(rem.drop_first() =~= cand@.subrange(t + 1, cand@.len() as int));
            assert(trim_start(rem.drop_first()) =~= cand@.subrange(x as int, cand@.len() as int));
            assert(r@ =~= seq![rem[0], ' '] + trim_start(rem.drop_first()));
        }
        Some(r)
    } else if first_raw == ' ' {
        Some(rem_v)
    } else {
        None
    }
}

/// The part of a selector before its first pseudo-class or attribute test.
pub open spec fn base_target_spec(sel: Seq<char>) -> Option<Seq<char>> {
    if has_top_level_comma(sel) {
        None
    } else {
        let by_colon = match find(sel, seq![':']) {
            Some(pos) => if pos > 0 && !starts_with(sel.skip(pos), seq![':', ':']) {
                Some(sel.take(pos))
            } else {
                None
            },
            None => None,
        };
        match by_colon {
            Some(b) => Some(b),
            None => match find(sel, seq!['[']) {
                Some(pos) => if pos > 0 {
                    Some(sel.take(pos))
                } else {
                    None
                },
                None => None,
            },
        }
    }
}

pub(crate) fn extract_base_target(sel: &[char]) -> (r: Option<Vec<char>>)
    ensures
        match base_target_spec(sel@) {
            Some(t) => r matches Some(v) && v@ == t,
            None => r is None,
        },
{
    if contains_top_level_comma(sel) {
        return None;
    }
    proof {
        assert(sel@.subrange(0, sel@.len() as int) =~= sel@);
        crate::text::lemma_find_sound(sel@, seq![':']);
        crate::text::lemma_find_sound(sel@, seq!['[']);
    }
    let colon = [':'];
    let dc = [':', ':'];
    let br = ['['];
    assert(colon@ == seq![':']);
    assert(br@ == seq!['[']);
    assert(dc@ == seq![':', ':']);
    if let Some(pos) = find_in(sel, 0, sel.len(), &colon) {
        if pos > 0 && !starts_with_at(sel, pos, sel.len(), &dc) {
            proof {
                assert(sel@.skip(pos as int) =~= sel@.subrange(pos as int, sel@.len() as int));
                assert(sel@.take(pos as int) =~= sel@.subrange(0, pos as int));
            }
            return Some(copy_range(sel, 0, pos));
        }
        proof {
            assert(sel@.skip(pos as int) =~= sel@.subrange(pos as int, sel@.len() as int));
        }
    }
    if let Some(pos) = find_in(sel, 0, sel.len(), &br) {
        if pos > 0 {
            proof {
                assert(sel@.take(pos as int) =~= sel@.subrange(0, pos as int));
            }
            return Some(copy_range(sel, 0, pos));
        }
    }
    None
}

/// What `extract_base_target` gives back is a prefix of the selector.
pub proof fn lemma_base_target_prefix(sel: Seq<char>)
    ensures
        base_target_spec(sel) matches Some(b) ==> starts_with(sel, b),
{
    crate::text::lemma_find_sound(sel, seq![':']);
    crate::text::lemma_find_sound(sel, seq!['[']);
}

/// The block a BEM-like selector (`.card__title`, `.card--big`) would hang from.
pub open spec fn bem_spec(sel: Seq<char>) -> Option<Seq<char>> {
    let t = trim(sel);
    let idx = match find(t, seq!['_', '_']) {
        Some(i) => Some(i),
        None => find(t, seq!['-', '-']),
    };
    match idx {
        Some(i) => if i == 0 {
            None
        } else {
            Some(t.take(i))
        },
        None => None,
    }
}

pub(crate) fn bem_base_candidate(sel: &[char]) -> (r: Option<Vec<char>>)
    ensures
        match bem_spec(sel@) {
            Some(t) => r matches Some(v) && v@ == t,
            None => r is None,
        },
{
    let t = trimmed(sel);
    let us = ['_', '_'];
    let hy = ['-', '-'];
    assert(us@ == seq!['_', '_']);
    assert(hy@ == seq!['-', '-']);
    proof {
        assert(t@.subrange(0, t@.len() as int) =~= t@);
        crate::text::lemma_find_sound(t@, seq!['_', '_']);
        crate::text::lemma_find_sound(t@, seq!['-', '-']);
    }
    let idx = match find_in(t.as_slice(), 0, t.len(), &us) {
        Some(i) => Some(i),
        None => find_in(t.as_slice(), 0, t.len(), &hy),
    };
    match idx {
        Some(i) => {
            if i == 0 {
                None
            } else {
                proof {
                    assert(t@.take(i as int) =~= t@.subrange(0, i as int));
                }
                Some(copy_range(t.as_slice(), 0, i))
            }
        },
        None => None,
    }
}

pub open spec fn all_simple_tokens(bs: Seq<Seq<char>>) -> bool {
    forall|k: int| 0 <= k < bs.len() ==> valid_token(#[trigger] bs[k]) && !contains(bs[k], seq![' '])
}

/// A selector list whose branches share a trailing descendant (`.a .t, #b .t`: the prefixes
/// and `.t`), or one made of simple tokens (`.a, #b`: the tokens, no suffix).
pub open spec fn multi_branch_spec(sel: Seq<char>) -> Option<(Seq<Seq<char>>, Option<Seq<char>>)> {
    let bs = trimmed_parts(sel);
    if bs.len() < 2 || crate::transform::any_double_colon(bs) {
        None
    } else {
        let by_suffix = match rfind_char(bs[0], ' ') {
            Some(sp) => {
                let suffix = bs[0].skip(sp);
                let pre = cut_ends(bs, suffix.len() as int);
                if all_end_with(bs, suffix) && all_valid(pre) {
                    Some((pre, Some(trim(suffix))))
                } else {
                    None
                }
            },
            None => None,
        };
        match by_suffix {
            Some(x) => Some(x),
            None => if all_simple_tokens(bs) {
                Some((bs, None))
            } else {
                None
            },
        }
    }
}

fn all_simple_tokens_exec(bs: &Vec<Vec<char>>) -> (r: bool)
    ensures
        r == all_simple_tokens(texts(bs@)),
{
    let sp = [' '];
    assert(sp@ == seq![' ']);
    let mut k: usize = 0;
    while k < bs.len()
        invariant
            k <= bs@.len(),
            sp@ == seq![' '],
            forall|j: int| 0 <= j < k ==> valid_token(#[trigger] texts(bs@)[j]) && !contains(texts(bs@)[j], seq![' ']),
        decreases bs.len() - k,
    {
        let b = &bs[k];
        proof {
            assert(b@.subrange(0, b@.len() as int) =~= b@);
        }
        if !crate::transform::valid_token_exec(b.as_slice()) || contains_in(b.as_slice(), 0, b.len(), &sp) {
            assert(texts(bs@)[k as int] == b@);
            return false;
        }
        k = k + 1;
    }
    true
}

pub(crate) fn extract_multi_branch_pattern(sel: &[char]) -> (r: Option<(Vec<Vec<char>>, Option<Vec<char>>)>)
    ensures
        match multi_branch_spec(sel@) {
            Some((ps, suf)) => r matches Some((v, s2)) && texts(v@) == ps && match suf {
                Some(x) => s2 matches Some(y) && y@ == x,
                None => s2 is None,
            },
            None => r is None,
        },
{
    let bs = crate::transform::trimmed_parts_exec(sel);
    if bs.len() < 2 || crate::transform::any_double_colon_exec(&bs) {
        return None;
    }
    let ghost bsv = texts(bs@);
    let first = &bs[0];
    assert(bsv[0] == first@);
    proof {
        assert(first@.subrange(0, first@.len() as int) =~= first@);
        crate::text::lemma_rfind_char_sound(first@, ' ');
    }
    if let Some(sp) = crate::text::rfind_char_in(first.as_slice(), 0, first.len(), ' ') {
        let suffix = copy_range(first.as_slice(), sp, first.len());
        proof {
            assert(suffix@ =~= bsv[0].skip(sp as int));
        }
        if crate::transform::all_end_with_exec(&bs, suffix.as_slice()) {
            proof {
                assert forall|k: int| 0 <= k < bs@.len() implies suffix@.len() <= (#[trigger] bs@[k])@.len() by {
                    assert(bsv[k] == bs@[k]@);
                    assert(crate::text::ends_with(bsv[k], suffix@));
                }
            }
            let pre = crate::transform::cut_ends_exec(&bs, suffix.len());
            if crate::transform::all_valid_exec(&pre) {
                return Some((pre, Some(trimmed(suffix.as_slice()))));
            }
        }
    }
    if all_simple_tokens_exec(&bs) {
        return Some((bs, None));
    }
    None
}

} // verus!
