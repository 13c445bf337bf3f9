use crate::selector::{
    comma_parts, comma_parts_exec, contains_top_level_comma, has_top_level_comma, is_alpha,
    lemma_comma_parts, specificity, specificity_chars, spec_of, split_commas, Specificity,
};
use crate::text::{
    chars_eq, chars_of, contains, contains_in, ends_with, ends_with_at, find, find_in, join,
    lemma_find_sound, push_joined, push_range, push_reindented, reindent, rfind_char,
    rfind_char_in, starts_with, starts_with_at, string_of, texts, trim, trim_bounds, trim_start,
};
use vstd::prelude::*;

verus! {

/// The comma-separated parts of a selector, each trimmed.
pub open spec fn trimmed_parts(s: Seq<char>) -> Seq<Seq<char>> {
    split_commas(s).map_values(|p: Seq<char>| trim(p))
}

/// The non-empty parts of `ps`, in order.
pub open spec fn nonempty(ps: Seq<Seq<char>>) -> Seq<Seq<char>>
    decreases ps.len(),
{
    if ps.len() == 0 {
        seq![]
    } else if ps.last().len() == 0 {
        nonempty(ps.drop_last())
    } else {
        nonempty(ps.drop_last()).push(ps.last())
    }
}

/// The trimmed comma-separated parts of `s`.
pub fn trimmed_parts_exec(s: &[char]) -> (r: Vec<Vec<char>>)
    ensures
        texts(r@) == trimmed_parts(s@),
{
    let ps = comma_parts_exec(s);
    let ghost want = trimmed_parts(s@);
    let mut out: Vec<Vec<char>> = Vec::new();
    let mut k: usize = 0;
    while k < ps.len()
        invariant
            k <= ps@.len(),
            ps@.len() == comma_parts(s@).len(),
            want == trimmed_parts(s@),
            forall|j: int| 0 <= j < ps@.len() ==> (#[trigger] ps@[j]).0 as int == comma_parts(s@)[j].0 && ps@[j].1 as int == comma_parts(s@)[j].1,
            forall|j: int| 0 <= j < ps@.len() ==> (#[trigger] ps@[j]).0 <= ps@[j].1 <= s@.len(),
            texts(out@) == want.take(k as int),
        decreases ps.len() - k,
    {
        let (a, b) = ps[k];
        let (x, y) = trim_bounds(s, a, b);
        let mut v: Vec<char> = Vec::new();
        push_range(&mut v, s, x, y);
        let ghost before = out@;
        out.push(v);
        proof {
            assert(v@ =~= s@.subrange(x as int, y as int));
            assert(texts(out@) =~= texts(before).push(v@));
            assert(want.take(k + 1) =~= want.take(k as int).push(want[k as int]));
        }
        k = k + 1;
    }
    proof {
        assert(want.take(ps@.len() as int) =~= want);
    }
    out
}

/// Keeps the non-empty texts of `v`.
pub fn keep_nonempty(v: Vec<Vec<char>>) -> (r: Vec<Vec<char>>)
    ensures
        texts(r@) == nonempty(texts(v@)),
{
    let ghost t = texts(v@);
    let mut out: Vec<Vec<char>> = Vec::new();
    let mut k: usize = 0;
    while k < v.len()
        invariant
            k <= v@.len(),
            t == texts(v@),
            texts(out@) == nonempty(t.take(k as int)),
        decreases v.len() - k,
    {
        let ghost before = out@;
        proof {
            assert(t.take(k + 1).drop_last() =~= t.take(k as int));
            assert(t.take(k + 1).last() == v@[k as int]@);
        }
        if v[k].len() > 0 {
            out.push(v[k].clone());
            proof {
                assert(texts(out@) =~= texts(before).push(v@[k as int]@));
            }
        }
        k = k + 1;
    }
    proof {
        assert(t.take(v@.len() as int) =~= t);
    }
    out
}

pub open spec fn any_double_colon(bs: Seq<Seq<char>>) -> bool {
    exists|k: int| 0 <= k < bs.len() && contains(#[trigger] bs[k], seq![':', ':'])
}

pub fn any_double_colon_exec(bs: &Vec<Vec<char>>) -> (r: bool)
    ensures
        r == any_double_colon(texts(bs@)),
{
    let dc = [':', ':'];
    let mut k: usize = 0;
    while k < bs.len()
        invariant
            k <= bs@.len(),
            dc@ == seq![':', ':'],
            forall|j: int| 0 <= j < k ==> !contains(#[trigger] texts(bs@)[j], seq![':', ':']),
        decreases bs.len() - k,
    {
        let r = contains_in(bs[k].as_slice(), 0, bs[k].len(), &dc);
        proof {
            assert(bs@[k as int]@.subrange(0, bs@[k as int]@.len() as int) =~= bs@[k as int]@);
        }
        if r {
            assert(contains(texts(bs@)[k as int], seq![':', ':']));
            return true;
        }
        k = k + 1;
    }
    false
}

/// The selector-list alternatives rewritten as `:where(...)`.
pub open spec fn where_factoring(s: Seq<char>) -> Option<Seq<char>> {
    let bs = trimmed_parts(s);
    if bs.len() < 2 || any_double_colon(bs) {
        None
    } else {
        Some(":where("@ + join(bs, ", "@) + ")"@)
    }
}

/// Rewrites a selector list as `:where(...)` (zero specificity); `None` for fewer than two
/// alternatives or when one has a pseudo-element.
pub fn factor_with_where(selector: &str) -> (r: Option<String>)
    ensures
        match where_factoring(selector@) {
            Some(t) => r matches Some(x) && x@ == t,
            None => r is None,
        },
{
    let s = chars_of(selector);
    let bs = trimmed_parts_exec(s.as_slice());
    if bs.len() < 2 || any_double_colon_exec(&bs) {
        return None;
    }
    let mut out = chars_of(":where(");
    let sep = chars_of(", ");
    push_joined(&mut out, &bs, sep.as_slice());
    let close = chars_of(")");
    out.extend_from_slice(close.as_slice());
    Some(string_of(out.as_slice()))
}

/// A part that may stand inside `:is(...)`: it starts with `.`, `#`, `[`, `:`, a letter,
/// `*` or a combinator.
pub open spec fn valid_token(p: Seq<char>) -> bool {
    p.len() > 0 && (p[0] == '.' || p[0] == '#' || p[0] == '[' || p[0] == ':' || is_alpha(p[0])
        || p[0] == '*' || p[0] == '>' || p[0] == '+' || p[0] == '~')
}

pub fn valid_token_exec(p: &[char]) -> (r: bool)
    ensures
        r == valid_token(p@),
{
    if p.len() == 0 {
        return false;
    }
    let c = p[0];
    c == '.' || c == '#' || c == '[' || c == ':' || ('a' <= c && c <= 'z') || ('A' <= c && c <= 'Z')
        || c == '*' || c == '>' || c == '+' || c == '~'
}

pub open spec fn all_valid(ps: Seq<Seq<char>>) -> bool {
    forall|k: int| 0 <= k < ps.len() ==> valid_token(#[trigger] ps[k])
}

pub fn all_valid_exec(ps: &Vec<Vec<char>>) -> (r: bool)
    ensures
        r == all_valid(texts(ps@)),
{
    let mut k: usize = 0;
    while k < ps.len()
        invariant
            k <= ps@.len(),
            forall|j: int| 0 <= j < k ==> valid_token(#[trigger] texts(ps@)[j]),
        decreases ps.len() - k,
    {
        if !valid_token_exec(ps[k].as_slice()) {
            assert(!valid_token(texts(ps@)[k as int]));
            return false;
        }
        k = k + 1;
    }
    true
}

/// Whether all neighbouring alternatives have equal specificity.
pub open spec fn uniform_specificity(bs: Seq<Seq<char>>) -> bool {
    forall|k: int| 0 <= k < bs.len() - 1 ==> specificity(#[trigger] bs[k]) == specificity(bs[k + 1])
}

pub fn uniform_exec(bs: &Vec<Vec<char>>) -> (r: bool)
    ensures
        r == uniform_specificity(texts(bs@)),
{
    if bs.len() < 2 {
        return true;
    }
    let mut prev = specificity_chars(bs[0].as_slice());
    let mut k: usize = 1;
    while k < bs.len()
        invariant
            1 <= k <= bs@.len(),
            spec_of(prev) == specificity(texts(bs@)[k - 1]),
            forall|j: int| 0 <= j < k - 1 ==> specificity(#[trigger] texts(bs@)[j]) == specificity(texts(bs@)[j + 1]),
        decreases bs.len() - k,
    {
        let cur = specificity_chars(bs[k].as_slice());
        if !(cur.ids == prev.ids && cur.classes == prev.classes && cur.elements == prev.elements) {
            assert(specificity(texts(bs@)[k - 1]) != specificity(texts(bs@)[k as int]));
            return false;
        }
        prev = cur;
        k = k + 1;
    }
    true
}

} // verus!

verus! {

pub open spec fn all_end_with(bs: Seq<Seq<char>>, suffix: Seq<char>) -> bool {
    forall|k: int| 0 <= k < bs.len() ==> ends_with(#[trigger] bs[k], suffix)
}

pub open spec fn all_start_with(bs: Seq<Seq<char>>, prefix: Seq<char>) -> bool {
    forall|k: int| 0 <= k < bs.len() ==> starts_with(#[trigger] bs[k], prefix)
}

/// Each part with its last `n` characters cut off, trimmed.
pub open spec fn cut_ends(bs: Seq<Seq<char>>, n: int) -> Seq<Seq<char>> {
    bs.map_values(|b: Seq<char>| trim(b.take(b.len() - n)))
}

/// Each part with its first `n` characters cut off, trimmed.
pub open spec fn cut_starts(bs: Seq<Seq<char>>, n: int) -> Seq<Seq<char>> {
    bs.map_values(|b: Seq<char>| trim(b.skip(n)))
}

/// `.a .t, #b .t` as `:is(.a, #b) .t`.
pub open spec fn suffix_form(bs: Seq<Seq<char>>) -> Option<Seq<char>> {
    match rfind_char(bs[0], ' ') {
        Some(sp) => {
            let suffix = bs[0].skip(sp);
            let pre = cut_ends(bs, suffix.len() as int);
            if all_end_with(bs, suffix) && all_valid(pre) {
                Some(":is("@ + join(pre, ", "@) + ")"@ + suffix)
            } else {
                None
            }
        },
        None => None,
    }
}

/// `.c .t, .c .s` as `.c :is(.t, .s)`.
pub open spec fn prefix_form(bs: Seq<Seq<char>>) -> Option<Seq<char>> {
    match rfind_char(bs[0], ' ') {
        Some(sp) => {
            let prefix = bs[0].take(sp + 1);
            let suf = cut_starts(bs, prefix.len() as int);
            if all_start_with(bs, prefix) && all_valid(suf) {
                Some(prefix + ":is("@ + join(suf, ", "@) + ")"@)
            } else {
                None
            }
        },
        None => None,
    }
}

pub open spec fn pseudo_alternative(b: Seq<char>, base: Seq<char>) -> bool {
    starts_with(b, base) && starts_with(b.skip(base.len() as int), seq![':']) && !starts_with(
        b.skip(base.len() as int),
        seq![':', ':'],
    )
}

pub open spec fn simple_pseudo(p: Seq<char>) -> bool {
    starts_with(p, seq![':']) && !starts_with(p, seq![':', ':']) && !contains(p, seq![' '])
}

/// `.b:hover, .b:focus` as `.b:is(:hover, :focus)`.
pub open spec fn pseudo_form(bs: Seq<Seq<char>>) -> Option<Seq<char>> {
    match find(bs[0], seq![':']) {
        Some(c) => {
            let base = bs[0].take(c);
            let ps = cut_starts(bs, base.len() as int);
            if base.len() > 0 && !contains(base, seq![' ']) && (forall|k: int|
                0 <= k < bs.len() ==> pseudo_alternative(#[trigger] bs[k], base)) && (forall|k: int|
                0 <= k < ps.len() ==> simple_pseudo(#[trigger] ps[k])) {
                Some(base + ":is("@ + join(ps, ", "@) + ")"@)
            } else {
                None
            }
        },
        None => None,
    }
}

pub open spec fn attr_alternative(b: Seq<char>, base: Seq<char>) -> bool {
    starts_with(b, base) && starts_with(b.skip(base.len() as int), seq!['['])
}

pub open spec fn bracketed(p: Seq<char>) -> bool {
    starts_with(p, seq!['[']) && ends_with(p, seq![']'])
}

/// `a[x], a[y]` as `a:is([x], [y])`.
pub open spec fn attr_form(bs: Seq<Seq<char>>) -> Option<Seq<char>> {
    match find(bs[0], seq!['[']) {
        Some(c) => {
            let base = bs[0].take(c);
            let ps = cut_starts(bs, base.len() as int);
            if base.len() > 0 && !contains(base, seq![' ']) && (forall|k: int|
                0 <= k < bs.len() ==> attr_alternative(#[trigger] bs[k], base)) && (forall|k: int|
                0 <= k < ps.len() ==> bracketed(#[trigger] ps[k])) {
                Some(base + ":is("@ + join(ps, ", "@) + ")"@)
            } else {
                None
            }
        },
        None => None,
    }
}

/// The `:is(...)` factoring of a selector list and whether all alternatives share one
/// specificity.
pub open spec fn is_factoring(s: Seq<char>) -> Option<(Seq<char>, bool)> {
    let bs = nonempty(trimmed_parts(s));
    if bs.len() < 2 || any_double_colon(bs) {
        None
    } else {
        let u = uniform_specificity(bs);
        match suffix_form(bs) {
            Some(t) => Some((t, u)),
            None => match prefix_form(bs) {
                Some(t) => Some((t, u)),
                None => match pseudo_form(bs) {
                    Some(t) => Some((t, u)),
                    None => match attr_form(bs) {
                        Some(t) => Some((t, u)),
                        None => None,
                    },
                },
            },
        }
    }
}

pub fn all_end_with_exec(bs: &Vec<Vec<char>>, suffix: &[char]) -> (r: bool)
    ensures
        r == all_end_with(texts(bs@), suffix@),
{
    let mut k: usize = 0;
    while k < bs.len()
        invariant
            k <= bs@.len(),
            forall|j: int| 0 <= j < k ==> ends_with(#[trigger] texts(bs@)[j], suffix@),
        decreases bs.len() - k,
    {
        let b = ends_with_at(bs[k].as_slice(), 0, bs[k].len(), suffix);
        proof {
            assert(bs@[k as int]@.subrange(0, bs@[k as int]@.len() as int) =~= bs@[k as int]@);
        }
        if !b {
            assert(!ends_with(texts(bs@)[k as int], suffix@));
            return false;
        }
        k = k + 1;
    }
    true
}

pub fn all_start_with_exec(bs: &Vec<Vec<char>>, prefix: &[char]) -> (r: bool)
    ensures
        r == all_start_with(texts(bs@), prefix@),
{
    let mut k: usize = 0;
    while k < bs.len()
        invariant
            k <= bs@.len(),
            forall|j: int| 0 <= j < k ==> starts_with(#[trigger] texts(bs@)[j], prefix@),
        decreases bs.len() - k,
    {
        let b = starts_with_at(bs[k].as_slice(), 0, bs[k].len(), prefix);
        proof {
            assert(bs@[k as int]@.subrange(0, bs@[k as int]@.len() as int) =~= bs@[k as int]@);
        }
        if !b {
            assert(!starts_with(texts(bs@)[k as int], prefix@));
            return false;
        }
        k = k + 1;
    }
    true
}

/// `cut_ends(bs, n)`, for parts at least `n` long.
pub fn cut_ends_exec(bs: &Vec<Vec<char>>, n: usize) -> (r: Vec<Vec<char>>)
    requires
        forall|k: int| 0 <= k < bs@.len() ==> n <= (#[trigger] bs@[k])@.len(),
    ensures
        texts(r@) == cut_ends(texts(bs@), n as int),
{
    let ghost want = cut_ends(texts(bs@), n as int);
    let mut out: Vec<Vec<char>> = Vec::new();
    let mut k: usize = 0;
    while k < bs.len()
        invariant
            k <= bs@.len(),
            want == cut_ends(texts(bs@), n as int),
            forall|j: int| 0 <= j < bs@.len() ==> n <= (#[trigger] bs@[j])@.len(),
            texts(out@) == want.take(k as int),
        decreases bs.len() - k,
    {
        let b = bs[k].as_slice();
        let (x, y) = trim_bounds(b, 0, b.len() - n);
        let mut v: Vec<char> = Vec::new();
        push_range(&mut v, b, x, y);
        let ghost before = out@;
        out.push(v);
        proof {
            let bv = bs@[k as int]@;
            assert(bv.take(bv.len() - n) =~= bv.subrange(0, bv.len() - n));
            assert(v@ =~= bv.subrange(x as int, y as int));
            assert(texts(out@) =~= texts(before).push(v@));
            assert(want.take(k + 1) =~= want.take(k as int).push(want[k as int]));
        }
        k = k + 1;
    }
    proof {
        assert(want.take(bs@.len() as int) =~= want);
    }
    out
}

/// `cut_starts(bs, n)`, for parts at least `n` long.
fn cut_starts_exec(bs: &Vec<Vec<char>>, n: usize) -> (r: Vec<Vec<char>>)
    requires
        forall|k: int| 0 <= k < bs@.len() ==> n <= (#[trigger] bs@[k])@.len(),
    ensures
        texts(r@) == cut_starts(texts(bs@), n as int),
{
    let ghost want = cut_starts(texts(bs@), n as int);
    let mut out: Vec<Vec<char>> = Vec::new();
    let mut k: usize = 0;
    while k < bs.len()
        invariant
            k <= bs@.len(),
            want == cut_starts(texts(bs@), n as int),
            forall|j: int| 0 <= j < bs@.len() ==> n <= (#[trigger] bs@[j])@.len(),
            texts(out@) == want.take(k as int),
        decreases bs.len() - k,
    {
        let b = bs[k].as_slice();
        let (x, y) = trim_bounds(b, n, b.len());
        let mut v: Vec<char> = Vec::new();
        push_range(&mut v, b, x, y);
        let ghost before = out@;
        out.push(v);
        proof {
            let bv = bs@[k as int]@;
            assert(bv.skip(n as int) =~= bv.subrange(n as int, bv.len() as int));
            assert(v@ =~= bv.subrange(x as int, y as int));
            assert(texts(out@) =~= texts(before).push(v@));
            assert(want.take(k + 1) =~= want.take(k as int).push(want[k as int]));
        }
        k = k + 1;
    }
    proof {
        assert(want.take(bs@.len() as int) =~= want);
    }
    out
}

fn is_wrap(before: &[char], parts: &Vec<Vec<char>>, after: &[char]) -> (r: Vec<char>)
    ensures
        r@ == before@ + ":is("@ + join(texts(parts@), ", "@) + ")"@ + after@,
{
    let mut out: Vec<char> = Vec::new();
    out.extend_from_slice(before);
    let open = chars_of(":is(");
    out.extend_from_slice(open.as_slice());
    let sep = chars_of(", ");
    push_joined(&mut out, parts, sep.as_slice());
    let close = chars_of(")");
    out.extend_from_slice(close.as_slice());
    out.extend_from_slice(after);
    proof {
        assert(out@ =~= before@ + ":is("@ + join(texts(parts@), ", "@) + ")"@ + after@);
    }
    out
}

fn suffix_form_exec(bs: &Vec<Vec<char>>) -> (r: Option<Vec<char>>)
    requires
        bs@.len() > 0,
    ensures
        match suffix_form(texts(bs@)) {
            Some(t) => r matches Some(x) && x@ == t,
            None => r is None,
        },
{
    let first = bs[0].as_slice();
    proof {
        assert(first@.subrange(0, first@.len() as int) =~= first@);
        crate::text::lemma_rfind_char_sound(first@, ' ');
        assert(texts(bs@)[0] == first@);
    }
    match rfind_char_in(first, 0, first.len(), ' ') {
        Some(sp) => {
            let mut suffix: Vec<char> = Vec::new();
            push_range(&mut suffix, first, sp, first.len());
            proof {
                assert(suffix@ =~= first@.skip(sp as int));
            }
            if !all_end_with_exec(bs, suffix.as_slice()) {
                return None;
            }
            proof {
                assert forall|k: int| 0 <= k < bs@.len() implies suffix@.len() <= (#[trigger] bs@[k])@.len() by {
                    assert(ends_with(texts(bs@)[k], suffix@));
                }
            }
            let pre = cut_ends_exec(bs, suffix.len());
            if !all_valid_exec(&pre) {
                return None;
            }
            let empty: Vec<char> = Vec::new();
            let r = is_wrap(empty.as_slice(), &pre, suffix.as_slice());
            proof {
                assert(r@ =~= ":is("@ + join(texts(pre@), ", "@) + ")"@ + suffix@);
            }
            Some(r)
        },
        None => None,
    }
}

fn prefix_form_exec(bs: &Vec<Vec<char>>) -> (r: Option<Vec<char>>)
    requires
        bs@.len() > 0,
    ensures
        match prefix_form(texts(bs@)) {
            Some(t) => r matches Some(x) && x@ == t,
            None => r is None,
        },
{
    let first = bs[0].as_slice();
    proof {
        assert(first@.subrange(0, first@.len() as int) =~= first@);
        crate::text::lemma_rfind_char_sound(first@, ' ');
        assert(texts(bs@)[0] == first@);
    }
    match rfind_char_in(first, 0, first.len(), ' ') {
        Some(sp) => {
            let mut prefix: Vec<char> = Vec::new();
            push_range(&mut prefix, first, 0, sp + 1);
            proof {
                assert(prefix@ =~= first@.take(sp + 1));
            }
            if !all_start_with_exec(bs, prefix.as_slice()) {
                return None;
            }
            proof {
                assert forall|k: int| 0 <= k < bs@.len() implies prefix@.len() <= (#[trigger] bs@[k])@.len() by {
                    assert(starts_with(texts(bs@)[k], prefix@));
                }
            }
            let suf = cut_starts_exec(bs, prefix.len());
            if !all_valid_exec(&suf) {
                return None;
            }
            let empty: Vec<char> = Vec::new();
            let r = is_wrap(prefix.as_slice(), &suf, empty.as_slice());
            proof {
                assert(r@ =~= prefix@ + ":is("@ + join(texts(suf@), ", "@) + ")"@);
            }
            Some(r)
        },
        None => None,
    }
}

fn alternatives_exec(bs: &Vec<Vec<char>>, base: &[char], pseudo: bool) -> (r: bool)
    ensures
        pseudo ==> r == (forall|k: int| 0 <= k < bs@.len() ==> pseudo_alternative(#[trigger] texts(bs@)[k], base@)),
        !pseudo ==> r == (forall|k: int| 0 <= k < bs@.len() ==> attr_alternative(#[trigger] texts(bs@)[k], base@)),
{
    let mut k: usize = 0;
    while k < bs.len()
        invariant
            k <= bs@.len(),
            pseudo ==> forall|j: int| 0 <= j < k ==> pseudo_alternative(#[trigger] texts(bs@)[j], base@),
            !pseudo ==> forall|j: int| 0 <= j < k ==> attr_alternative(#[trigger] texts(bs@)[j], base@),
        decreases bs.len() - k,
    {
        let b = bs[k].as_slice();
        let bl = b.len();
        proof {
            assert(texts(bs@)[k as int] == b@);
            assert([':']@ =~= seq![':']);
            assert([':', ':']@ =~= seq![':', ':']);
            assert(['[']@ =~= seq!['[']);
        }
        let ok = if starts_with_at(b, 0, bl, base) {
            if pseudo {
                starts_with_at(b, base.len(), bl, &[':']) && !starts_with_at(b, base.len(), bl, &[':', ':'])
            } else {
                starts_with_at(b, base.len(), bl, &['['])
            }
        } else {
            false
        };
        proof {
            let bv = b@;
            assert(bv.subrange(0, bl as int) =~= bv);
            if starts_with(bv, base@) {
                assert(bv.subrange(base@.len() as int, bl as int) =~= bv.skip(base@.len() as int));
            }
        }
        if !ok {
            return false;
        }
        k = k + 1;
    }
    true
}

#[verifier::loop_isolation(false)]
fn pseudo_form_exec(bs: &Vec<Vec<char>>) -> (r: Option<Vec<char>>)
    requires
        bs@.len() > 0,
    ensures
        match pseudo_form(texts(bs@)) {
            Some(t) => r matches Some(x) && x@ == t,
            None => r is None,
        },
{
    let first = bs[0].as_slice();
    proof {
        assert(first@.subrange(0, first@.len() as int) =~= first@);
        lemma_find_sound(first@, seq![':']);
        assert(texts(bs@)[0] == first@);
    }
    let colon = [':'];
    assert(colon@ =~= seq![':']);
    match find_in(first, 0, first.len(), &colon) {
        Some(c) => {
            let mut base: Vec<char> = Vec::new();
            push_range(&mut base, first, 0, c);
            proof {
                assert(base@ =~= first@.take(c as int));
                assert(base@.subrange(0, base@.len() as int) =~= base@);
            }
            if base.len() == 0 || contains_in(base.as_slice(), 0, base.len(), &[' ']) {
                proof {
                    assert(seq![' '] =~= [' ']@);
                }
                return None;
            }
            proof {
                assert(seq![' '] =~= [' ']@);
            }
            if !alternatives_exec(bs, base.as_slice(), true) {
                return None;
            }
            proof {
                assert forall|k: int| 0 <= k < bs@.len() implies base@.len() <= (#[trigger] bs@[k])@.len() by {
                    assert(pseudo_alternative(texts(bs@)[k], base@));
                }
            }
            let ps = cut_starts_exec(bs, base.len());
            let mut k: usize = 0;
            while k < ps.len()
                invariant
                    k <= ps@.len(),
                    forall|j: int| 0 <= j < k ==> simple_pseudo(#[trigger] texts(ps@)[j]),
                decreases ps.len() - k,
            {
                let p = ps[k].as_slice();
                let pl = p.len();
                let ok = starts_with_at(p, 0, pl, &[':']) && !starts_with_at(p, 0, pl, &[':', ':'])
                    && !contains_in(p, 0, pl, &[' ']);
                proof {
                    assert(p@.subrange(0, pl as int) =~= p@);
                    assert(seq![' '] =~= [' ']@);
                    assert(seq![':'] =~= [':']@);
                    assert(seq![':', ':'] =~= [':', ':']@);
                }
                if !ok {
                    assert(!simple_pseudo(texts(ps@)[k as int]));
                    return None;
                }
                k = k + 1;
            }
            let empty: Vec<char> = Vec::new();
            let r = is_wrap(base.as_slice(), &ps, empty.as_slice());
            proof {
                assert(r@ =~= base@ + ":is("@ + join(texts(ps@), ", "@) + ")"@);
            }
            Some(r)
        },
        None => None,
    }
}

#[verifier::loop_isolation(false)]
fn attr_form_exec(bs: &Vec<Vec<char>>) -> (r: Option<Vec<char>>)
    requires
        bs@.len() > 0,
    ensures
        match attr_form(texts(bs@)) {
            Some(t) => r matches Some(x) && x@ == t,
            None => r is None,
        },
{
    let first = bs[0].as_slice();
    proof {
        assert(first@.subrange(0, first@.len() as int) =~= first@);
        lemma_find_sound(first@, seq!['[']);
        assert(texts(bs@)[0] == first@);
    }
    let bracket = ['['];
    assert(bracket@ =~= seq!['[']);
    match find_in(first, 0, first.len(), &bracket) {
        Some(c) => {
            let mut base: Vec<char> = Vec::new();
            push_range(&mut base, first, 0, c);
            proof {
                assert(base@ =~= first@.take(c as int));
                assert(base@.subrange(0, base@.len() as int) =~= base@);
                assert(seq![' '] =~= [' ']@);
            }
            if base.len() == 0 || contains_in(base.as_slice(), 0, base.len(), &[' ']) {
                return None;
            }
            if !alternatives_exec(bs, base.as_slice(), false) {
                return None;
            }
            proof {
                assert forall|k: int| 0 <= k < bs@.len() implies base@.len() <= (#[trigger] bs@[k])@.len() by {
                    assert(attr_alternative(texts(bs@)[k], base@));
                }
            }
            let ps = cut_starts_exec(bs, base.len());
            let mut k: usize = 0;
            while k < ps.len()
                invariant
                    k <= ps@.len(),
                    forall|j: int| 0 <= j < k ==> bracketed(#[trigger] texts(ps@)[j]),
                decreases ps.len() - k,
            {
                let p = ps[k].as_slice();
                let pl = p.len();
                let ok = starts_with_at(p, 0, pl, &['[']) && ends_with_at(p, 0, pl, &[']']);
                proof {
                    assert(p@.subrange(0, pl as int) =~= p@);
                    assert(seq!['['] =~= ['[']@);
                    assert(seq![']'] =~= [']']@);
                }
                if !ok {
                    assert(!bracketed(texts(ps@)[k as int]));
                    return None;
                }
                k = k + 1;
            }
            let empty: Vec<char> = Vec::new();
            let r = is_wrap(base.as_slice(), &ps, empty.as_slice());
            proof {
                assert(r@ =~= base@ + ":is("@ + join(texts(ps@), ", "@) + ")"@);
            }
            Some(r)
        },
        None => None,
    }
}

/// Factors a selector list into `:is(...)`: a shared suffix, a shared descendant prefix, a
/// shared base with pseudo-classes, or a shared base with attributes. The flag tells whether
/// all alternatives have the same specificity.
pub fn factor_with_is(selector: &str) -> (r: Option<(String, bool)>)
    ensures
        match is_factoring(selector@) {
            Some((t, u)) => r matches Some((x, v)) && x@ == t && v == u,
            None => r is None,
        },
{
    let s = chars_of(selector);
    let bs = keep_nonempty(trimmed_parts_exec(s.as_slice()));
    if bs.len() < 2 || any_double_colon_exec(&bs) {
        return None;
    }
    let u = uniform_exec(&bs);
    if let Some(t) = suffix_form_exec(&bs) {
        return Some((string_of(t.as_slice()), u));
    }
    if let Some(t) = prefix_form_exec(&bs) {
        return Some((string_of(t.as_slice()), u));
    }
    if let Some(t) = pseudo_form_exec(&bs) {
        return Some((string_of(t.as_slice()), u));
    }
    if let Some(t) = attr_form_exec(&bs) {
        return Some((string_of(t.as_slice()), u));
    }
    None
}

} // verus!

verus! {

/// How one alternative of a selector list reads nested under the list's first alternative.
pub open spec fn nested_branch(b: Seq<char>, base: Seq<char>) -> Option<Seq<char>> {
    if b == base {
        Some(seq!['&'])
    } else if !starts_with(b, base) {
        None
    } else {
        let rel = b.skip(base.len() as int);
        if starts_with(rel, seq![':']) || starts_with(rel, seq!['[']) || starts_with(rel, seq!['.'])
            || starts_with(rel, seq!['#']) {
            Some(seq!['&'] + rel)
        } else if starts_with(rel, seq![' ']) {
            Some(trim_start(rel.skip(1)))
        } else {
            None
        }
    }
}

pub open spec fn all_nest(bs: Seq<Seq<char>>, base: Seq<char>) -> bool {
    forall|k: int| 0 <= k < bs.len() ==> (#[trigger] nested_branch(bs[k], base)) is Some
}

pub open spec fn nested_branches(bs: Seq<Seq<char>>, base: Seq<char>) -> Seq<Seq<char>> {
    bs.map_values(|b: Seq<char>| nested_branch(b, base)->0)
}

/// The rule `selector { body }` with a selector list sharing the base of its first
/// alternative, rewritten as `base { &, &::x { body } }`.
pub open spec fn selector_list_factoring(
    sel: Seq<char>,
    body: Seq<char>,
    indent: Seq<char>,
    unit: Seq<char>,
) -> Option<Seq<char>> {
    let bs = trimmed_parts(sel);
    if bs.len() < 2 {
        None
    } else {
        let base = bs[0];
        let ni = indent + unit;
        if has_top_level_comma(base) || contains(base, seq![':', ':']) || base.len() == 0 || !all_nest(
            bs,
            base,
        ) {
            None
        } else {
            Some(base + " {\n"@ + ni + join(nested_branches(bs, base), ",\n"@ + ni) + " {\n"@ + reindent(
                body,
                ni + unit,
            ) + ni + "}\n"@ + indent + "}"@)
        }
    }
}

fn nested_branch_exec(b: &[char], base: &[char]) -> (r: Option<Vec<char>>)
    ensures
        match nested_branch(b@, base@) {
            Some(t) => r matches Some(x) && x@ == t,
            None => r is None,
        },
{
    if chars_eq(b, base) {
        let r = vec!['&'];
        assert(r@ =~= seq!['&']);
        return Some(r);
    }
    let bl = b.len();
    proof {
        assert(b@.subrange(0, bl as int) =~= b@);
    }
    if !starts_with_at(b, 0, bl, base) {
        return None;
    }
    let n = base.len();
    proof {
        assert(b@.subrange(n as int, bl as int) =~= b@.skip(n as int));
        assert([':']@ =~= seq![':']);
        assert(['[']@ =~= seq!['[']);
        assert(['.']@ =~= seq!['.']);
        assert(['#']@ =~= seq!['#']);
        assert([' ']@ =~= seq![' ']);
    }
    if starts_with_at(b, n, bl, &[':']) || starts_with_at(b, n, bl, &['[']) || starts_with_at(b, n, bl, &['.'])
        || starts_with_at(b, n, bl, &['#']) {
        let mut r = vec!['&'];
        push_range(&mut r, b, n, bl);
        proof {
            assert(r@ =~= seq!['&'] + b@.skip(n as int));
        }
        return Some(r);
    }
    if starts_with_at(b, n, bl, &[' ']) {
        let (x, _y) = trim_bounds(b, n + 1, bl);
        let mut r: Vec<char> = Vec::new();
        push_range(&mut r, b, x, bl);
        proof {
            let rel1 = b@.skip(n as int).skip(1);
            assert(rel1 =~= b@.subrange(n + 1, bl as int));
            assert(trim_start(rel1) =~= b@.subrange(x as int, bl as int));
        }
        return Some(r);
    }
    None
}

/// Factors a selector list whose alternatives all extend the first one into a single
/// nested rule; `None` when it cannot.
#[verifier::loop_isolation(false)]
pub fn factor_selector_list(selector: &str, body: &str, indent: &str, unit: &str) -> (r: Option<String>)
    ensures
        match selector_list_factoring(selector@, body@, indent@, unit@) {
            Some(t) => r matches Some(x) && x@ == t,
            None => r is None,
        },
{
    let s = chars_of(selector);
    let bs = trimmed_parts_exec(s.as_slice());
    if bs.len() < 2 {
        return None;
    }
    let base = bs[0].as_slice();
    let dc = [':', ':'];
    proof {
        assert(dc@ =~= seq![':', ':']);
        assert(base@.subrange(0, base@.len() as int) =~= base@);
        assert(texts(bs@)[0] == base@);
    }
    if contains_top_level_comma(base) || contains_in(base, 0, base.len(), &dc) || base.len() == 0 {
        return None;
    }
    let mut inner: Vec<Vec<char>> = Vec::new();
    let mut k: usize = 0;
    while k < bs.len()
        invariant
            k <= bs@.len(),
            base@ == texts(bs@)[0],
            inner@.len() == k,
            forall|j: int| 0 <= j < k ==> (#[trigger] nested_branch(texts(bs@)[j], base@)) is Some,
            forall|j: int| 0 <= j < k ==> (#[trigger] texts(inner@)[j]) == nested_branch(texts(bs@)[j], base@)->0,
        decreases bs.len() - k,
    {
        match nested_branch_exec(bs[k].as_slice(), base) {
            Some(t) => {
                let ghost before = inner@;
                inner.push(t);
                proof {
                    assert(texts(inner@) =~= texts(before).push(t@));
                }
            },
            None => {
                assert(nested_branch(texts(bs@)[k as int], base@) is None);
                return None;
            },
        }
        k = k + 1;
    }
    proof {
        assert(texts(inner@) =~= nested_branches(texts(bs@), base@));
    }
    let ind = chars_of(indent);
    let un = chars_of(unit);
    let mut ni: Vec<char> = Vec::new();
    ni.extend_from_slice(ind.as_slice());
    ni.extend_from_slice(un.as_slice());
    let mut ni2: Vec<char> = Vec::new();
    ni2.extend_from_slice(ni.as_slice());
    ni2.extend_from_slice(un.as_slice());
    let mut sep = chars_of(",\n");
    sep.extend_from_slice(ni.as_slice());
    let mut out: Vec<char> = Vec::new();
    out.extend_from_slice(base);
    out.extend_from_slice(chars_of(" {\n").as_slice());
    out.extend_from_slice(ni.as_slice());
    push_joined(&mut out, &inner, sep.as_slice());
    out.extend_from_slice(chars_of(" {\n").as_slice());
    let b = chars_of(body);
    push_reindented(&mut out, b.as_slice(), 0, b.len(), ni2.as_slice());
    out.extend_from_slice(ni.as_slice());
    out.extend_from_slice(chars_of("}\n").as_slice());
    out.extend_from_slice(ind.as_slice());
    out.extend_from_slice(chars_of("}").as_slice());
    proof {
        assert(b@.subrange(0, b@.len() as int) =~= body@);
        assert(ni@ =~= indent@ + unit@);
        assert(ni2@ =~= ni@ + unit@);
        assert(sep@ =~= ",\n"@ + ni@);
        assert(out@ =~= base@ + " {\n"@ + ni@ + join(texts(inner@), ",\n"@ + ni@) + " {\n"@ + reindent(body@, ni@ + unit@) + ni@ + "}\n"@ + indent@ + "}"@);
    }
    Some(string_of(out.as_slice()))
}

} // verus!

verus! {

pub open spec fn not_open() -> Seq<char> {
    seq![':', 'n', 'o', 't', '(']
}

/// The argument positions of the run of `:not(...)` pseudo-classes starting at `j`.
pub open spec fn not_chain(s: Seq<char>, j: int) -> Seq<(int, int)>
    decreases s.len() - j,
{
    if 0 <= j && matches_at_spec(s, j, not_open()) {
        proof {
            crate::selector::lemma_paren_close(s, j + 5, 1, None, false);
        }
        match crate::selector::matching_paren(s, j + 4) {
            Some(c) => seq![(j + 5, c)] + not_chain(s, c + 1),
            None => seq![],
        }
    } else {
        seq![]
    }
}

pub open spec fn matches_at_spec(s: Seq<char>, i: int, p: Seq<char>) -> bool {
    crate::text::matches_at(s, i, p)
}

/// Where the run of `:not(...)` starting at `j` ends.
pub open spec fn not_chain_end(s: Seq<char>, j: int) -> int
    decreases s.len() - j,
{
    if 0 <= j && matches_at_spec(s, j, not_open()) {
        proof {
            crate::selector::lemma_paren_close(s, j + 5, 1, None, false);
        }
        match crate::selector::matching_paren(s, j + 4) {
            Some(c) => not_chain_end(s, c + 1),
            None => j,
        }
    } else {
        j
    }
}

pub proof fn lemma_not_chain(s: Seq<char>, j: int)
    requires
        0 <= j <= s.len(),
    ensures
        j <= not_chain_end(s, j) <= s.len(),
        not_chain(s, j).len() > 0 ==> j < not_chain_end(s, j),
        forall|k: int| 0 <= k < not_chain(s, j).len() ==> j <= #[trigger] not_chain(s, j)[k].0 <= not_chain(s, j)[k].1 < s.len(),
    decreases s.len() - j,
{
    if matches_at_spec(s, j, not_open()) {
        crate::selector::lemma_paren_close(s, j + 5, 1, None, false);
        if let Some(c) = crate::selector::matching_paren(s, j + 4) {
            lemma_not_chain(s, c + 1);
            let ch = not_chain(s, j);
            let rest = not_chain(s, c + 1);
            assert forall|k: int| 0 <= k < ch.len() implies j <= #[trigger] ch[k].0 <= ch[k].1 < s.len() by {
                if k > 0 {
                    assert(ch[k] == rest[k - 1]);
                }
            }
        }
    }
}

pub open spec fn chain_args(s: Seq<char>, ch: Seq<(int, int)>) -> Seq<Seq<char>> {
    ch.map_values(|r: (int, int)| trim(s.subrange(r.0, r.1)))
}

/// Output text, whether anything changed, and whether all merged arguments kept one
/// specificity, for the walk over `s` from `i`.
pub open spec fn not_walk(s: Seq<char>, i: int) -> (Seq<char>, bool, bool)
    decreases s.len() - i,
{
    if i < 0 || i >= s.len() {
        (seq![], false, true)
    } else {
        let ch = not_chain(s, i);
        proof {
            lemma_not_chain(s, i);
        }
        if ch.len() > 1 {
            let args = chain_args(s, ch);
            let rest = not_walk(s, not_chain_end(s, i));
            (":not("@ + join(args, ", "@) + ")"@ + rest.0, true, uniform_specificity(args) && rest.2)
        } else {
            let rest = not_walk(s, i + 1);
            (seq![s[i]] + rest.0, rest.1, rest.2)
        }
    }
}

/// `:not(a):not(b)` runs merged into `:not(a, b)`, with whether the merged arguments kept
/// one specificity; `None` when nothing merges.
pub open spec fn not_consolidation(s: Seq<char>) -> Option<(Seq<char>, bool)> {
    if !contains(s, not_open()) {
        None
    } else {
        let w = not_walk(s, 0);
        if w.1 {
            Some((w.0, w.2))
        } else {
            None
        }
    }
}

/// Merges chains of `:not()` pseudo-classes: `:not(a):not(b)` becomes `:not(a, b)`. The flag
/// tells whether all merged arguments had one specificity.
pub fn consolidate_not_in_selector(selector: &str) -> (r: Option<(String, bool)>)
    ensures
        match not_consolidation(selector@) {
            Some((t, u)) => r matches Some((x, v)) && x@ == t && v == u,
            None => r is None,
        },
{
    let s = chars_of(selector);
    let len = s.len();
    let no = [':', 'n', 'o', 't', '('];
    proof {
        assert(no@ =~= not_open());
        assert(s@.subrange(0, len as int) =~= s@);
    }
    if !contains_in(s.as_slice(), 0, len, &no) {
        return None;
    }
    let mut out: Vec<char> = Vec::new();
    let mut changed = false;
    let mut uniform = true;
    let mut i: usize = 0;
    let ghost full = not_walk(s@, 0);
    while i < len
        invariant
            len == s@.len(),
            s@ == selector@,
            no@ == not_open(),
            i <= len,
            full == not_walk(s@, 0),
            full.0 == out@ + not_walk(s@, i as int).0,
            full.1 == (changed || not_walk(s@, i as int).1),
            full.2 == (uniform && not_walk(s@, i as int).2),
        decreases len - i,
    {
        proof {
            lemma_not_chain(s@, i as int);
        }
        let mut args: Vec<Vec<char>> = Vec::new();
        let ghost mut rs: Seq<(int, int)> = seq![];
        let mut cur = i;
        while cur < len && crate::text::matches_at_exec(s.as_slice(), cur, &no)
            invariant
                len == s@.len(),
                no@ == not_open(),
                i <= cur <= len,
                not_chain(s@, i as int) == rs + not_chain(s@, cur as int),
                not_chain_end(s@, i as int) == not_chain_end(s@, cur as int),
                texts(args@) == chain_args(s@, rs),
            ensures
                not_chain(s@, i as int) == rs + not_chain(s@, cur as int),
                not_chain_end(s@, i as int) == not_chain_end(s@, cur as int),
                texts(args@) == chain_args(s@, rs),
                i <= cur <= len,
                not_chain(s@, cur as int) == Seq::<(int, int)>::empty(),
                not_chain_end(s@, cur as int) == cur,
            decreases len - cur,
        {
            proof {
                crate::selector::lemma_paren_close(s@, cur + 5, 1, None, false);
            }
            match crate::selector::find_matching_paren(s.as_slice(), cur + 4) {
                Some(c) => {
                    let (x, y) = trim_bounds(s.as_slice(), cur + 5, c);
                    let mut a: Vec<char> = Vec::new();
                    push_range(&mut a, s.as_slice(), x, y);
                    let ghost before = args@;
                    let ghost rs0 = rs;
                    args.push(a);
                    proof {
                        rs = rs.push((cur + 5, c as int));
                        assert(texts(args@) =~= texts(before).push(a@));
                        assert(chain_args(s@, rs) =~= chain_args(s@, rs0).push(
                            trim(s@.subrange(cur + 5, c as int)),
                        ));
                        assert(not_chain(s@, cur as int) == seq![(cur + 5, c as int)] + not_chain(s@, c + 1));
                        assert(rs0 + not_chain(s@, cur as int) =~= rs + not_chain(s@, c + 1));
                    }
                    cur = c + 1;
                },
                None => {
                    break;
                },
            }
        }
        proof {
            assert(not_chain(s@, i as int) =~= rs);
            assert(not_chain_end(s@, cur as int) == cur);
        }
        if args.len() > 1 {
            changed = true;
            let u = uniform_exec(&args);
            if !u {
                uniform = false;
            }
            out.extend_from_slice(chars_of(":not(").as_slice());
            push_joined(&mut out, &args, chars_of(", ").as_slice());
            out.extend_from_slice(chars_of(")").as_slice());
            i = cur;
        } else {
            out.push(s[i]);
            i = i + 1;
        }
    }
    proof {
        assert(not_walk(s@, len as int).0 =~= seq![]);
        assert(out@ =~= full.0);
    }
    if changed {
        Some((string_of(out.as_slice()), uniform))
    } else {
        None
    }
}


} // verus!

verus! {

/// The value of the first `feat` feature of `s`: the trimmed text between `feat` and the
/// next `)`.
pub open spec fn media_val(s: Seq<char>, feat: Seq<char>) -> Option<Seq<char>> {
    match find(s, feat) {
        Some(p) => {
            let st = p + feat.len();
            match find(s.skip(st), seq![')']) {
                Some(e) => Some(trim(s.subrange(st, st + e))),
                None => None,
            }
        },
        None => None,
    }
}

fn media_val_exec(s: &[char], feat: &[char]) -> (r: Option<Vec<char>>)
    ensures
        match media_val(s@, feat@) {
            Some(v) => r matches Some(x) && x@ == v,
            None => r is None,
        },
{
    let len = s.len();
    proof {
        assert(s@.subrange(0, len as int) =~= s@);
        lemma_find_sound(s@, feat@);
    }
    match find_in(s, 0, len, feat) {
        Some(p) => {
            let st = p + feat.len();
            proof {
                assert(s@.subrange(st as int, len as int) =~= s@.skip(st as int));
                lemma_find_sound(s@.skip(st as int), seq![')']);
            }
            let close = [')'];
            assert(close@ =~= seq![')']);
            match find_in(s, st, len, &close) {
                Some(e) => {
                    let (x, y) = trim_bounds(s, st, e);
                    let mut v: Vec<char> = Vec::new();
                    push_range(&mut v, s, x, y);
                    Some(v)
                },
                None => None,
            }
        },
        None => None,
    }
}

/// `(min-width: a) and (max-width: b)` as `(a <= width <= b)`, with whether it changed.
pub open spec fn range_step(s: Seq<char>) -> (Seq<char>, bool) {
    match (find(s, "min-width:"@), find(s, "max-width:"@)) {
        (Some(mi), Some(ma)) => {
            if mi < ma {
                match (media_val(s, "min-width:"@), media_val(s, "max-width:"@)) {
                    (Some(a), Some(b)) => {
                        let pat = "(min-width: "@ + a + ") and (max-width: "@ + b + ")"@;
                        if contains(s, pat) {
                            (crate::text::replace(s, pat, "("@ + a + " <= width <= "@ + b + ")"@), true)
                        } else {
                            (s, false)
                        }
                    },
                    _ => (s, false),
                }
            } else {
                (s, false)
            }
        },
        _ => (s, false),
    }
}

/// Rewrites every `(feat v)` written as `lhs v)` into `rhs v)`, one value at a time, until no
/// `feat` is left or the first one does not stand in that written form.
pub open spec fn feature_loop(s: Seq<char>, feat: Seq<char>, lhs: Seq<char>, rhs: Seq<char>) -> (Seq<char>, bool)
    decreases s.len(),
{
    if rhs.len() >= lhs.len() {
        (s, false)
    } else {
        match media_val(s, feat) {
            None => (s, false),
            Some(v) => {
                let pat = lhs + v + ")"@;
                if !contains(s, pat) || pat.len() == 0 {
                    (s, true)
                } else {
                    proof {
                        crate::text::lemma_replace_shorter(s, pat, rhs + v + ")"@);
                    }
                    let next = crate::text::replace(s, pat, rhs + v + ")"@);
                    (feature_loop(next, feat, lhs, rhs).0, true)
                }
            },
        }
    }
}

/// The CSS range-syntax form of a media or container prelude, or `None` when nothing changes.
pub open spec fn media_modernization(p: Seq<char>) -> Option<Seq<char>> {
    let (s1, c1) = range_step(p);
    let (s2, c2) = feature_loop(s1, "min-width:"@, "(min-width: "@, "(width >= "@);
    let (s3, c3) = feature_loop(s2, "max-width:"@, "(max-width: "@, "(width <= "@);
    let (s4, c4) = feature_loop(s3, "min-height:"@, "(min-height: "@, "(height >= "@);
    let (s5, c5) = feature_loop(s4, "max-height:"@, "(max-height: "@, "(height <= "@);
    if c1 || c2 || c3 || c4 || c5 {
        Some(s5)
    } else {
        None
    }
}

fn cat3(a: &[char], b: &[char], c: &[char]) -> (r: Vec<char>)
    ensures
        r@ == a@ + b@ + c@,
{
    let mut r: Vec<char> = Vec::new();
    r.extend_from_slice(a);
    r.extend_from_slice(b);
    r.extend_from_slice(c);
    proof {
        assert(r@ =~= a@ + b@ + c@);
    }
    r
}

fn range_step_exec(s: Vec<char>) -> (r: (Vec<char>, bool))
    ensures
        r.0@ == range_step(s@).0,
        r.1 == range_step(s@).1,
{
    let minw = chars_of("min-width:");
    let maxw = chars_of("max-width:");
    let len = s.len();
    proof {
        assert(s@.subrange(0, len as int) =~= s@);
        lemma_find_sound(s@, "min-width:"@);
        lemma_find_sound(s@, "max-width:"@);
    }
    let mi = find_in(s.as_slice(), 0, len, minw.as_slice());
    let ma = find_in(s.as_slice(), 0, len, maxw.as_slice());
    if let (Some(a0), Some(b0)) = (mi, ma) {
        if a0 < b0 {
            let va = media_val_exec(s.as_slice(), minw.as_slice());
            let vb = media_val_exec(s.as_slice(), maxw.as_slice());
            if let (Some(a), Some(b)) = (va, vb) {
                let p1 = cat3(chars_of("(min-width: ").as_slice(), a.as_slice(), chars_of(") and (max-width: ").as_slice());
                let pat = cat3(p1.as_slice(), b.as_slice(), chars_of(")").as_slice());
                let r1 = cat3(chars_of("(").as_slice(), a.as_slice(), chars_of(" <= width <= ").as_slice());
                let rep = cat3(r1.as_slice(), b.as_slice(), chars_of(")").as_slice());
                proof {
                    assert(pat@ == "(min-width: "@ + a@ + ") and (max-width: "@ + b@ + ")"@);
                }
                if contains_in(s.as_slice(), 0, len, pat.as_slice()) {
                    proof {
                        reveal_strlit("(min-width: ");
                        assert(pat@.len() > 0);
                    }
                    let out = crate::text::replace_exec(s.as_slice(), pat.as_slice(), rep.as_slice());
                    proof {
                        lemma_find_sound(s@, "min-width:"@);
                        lemma_find_sound(s@, "max-width:"@);
                        assert(find(s@, "min-width:"@) == Some(a0 as int));
                        assert(find(s@, "max-width:"@) == Some(b0 as int));
                        assert(media_val(s@, "min-width:"@) == Some(a@));
                        assert(media_val(s@, "max-width:"@) == Some(b@));
                        assert(pat@ == "(min-width: "@ + a@ + ") and (max-width: "@ + b@ + ")"@);
                        assert(contains(s@, pat@));
                    }
                    return (out, true);
                }
            }
        }
    }
    (s, false)
}

#[verifier::loop_isolation(false)]
fn feature_loop_exec(s: Vec<char>, feat: &[char], lhs: &[char], rhs: &[char]) -> (r: (Vec<char>, bool))
    requires
        rhs@.len() < lhs@.len(),
    ensures
        r.0@ == feature_loop(s@, feat@, lhs@, rhs@).0,
        r.1 == feature_loop(s@, feat@, lhs@, rhs@).1,
{
    let ghost s0 = s@;
    let mut cur = s;
    let mut changed = false;
    loop
        invariant
            rhs@.len() < lhs@.len(),
            feature_loop(s0, feat@, lhs@, rhs@).0 == feature_loop(cur@, feat@, lhs@, rhs@).0,
            feature_loop(s0, feat@, lhs@, rhs@).1 == (changed || feature_loop(cur@, feat@, lhs@, rhs@).1),
            changed ==> feature_loop(s0, feat@, lhs@, rhs@).1,
        decreases cur@.len(),
    {
        match media_val_exec(cur.as_slice(), feat) {
            None => {
                proof {
                    assert(media_val(cur@, feat@) is None);
                    assert(feature_loop(cur@, feat@, lhs@, rhs@) == (cur@, false));
                }
                return (cur, changed);
            },
            Some(v) => {
                let pat = cat3(lhs, v.as_slice(), chars_of(")").as_slice());
                let rep = cat3(rhs, v.as_slice(), chars_of(")").as_slice());
                let cl = cur.len();
                proof {
                    assert(cur@.subrange(0, cl as int) =~= cur@);
                }
                if pat.len() == 0 || !contains_in(cur.as_slice(), 0, cl, pat.as_slice()) {
                    return (cur, true);
                }
                proof {
                    crate::text::lemma_replace_shorter(cur@, pat@, rep@);
                }
                let next = crate::text::replace_exec(cur.as_slice(), pat.as_slice(), rep.as_slice());
                cur = next;
                changed = true;
            },
        }
    }
}

/// Rewrites `min-width`/`max-width`/`min-height`/`max-height` media features into CSS range
/// syntax: `(min-width: 800px)` becomes `(width >= 800px)`, and a `min-width ... and max-width`
/// pair becomes `(a <= width <= b)`. `None` when nothing changes.
pub fn modernize_media_query_str(prelude: &str) -> (r: Option<String>)
    ensures
        match media_modernization(prelude@) {
            Some(t) => r matches Some(x) && x@ == t,
            None => r is None,
        },
{
    let s = chars_of(prelude);
    let (s1, c1) = range_step_exec(s);
    proof {
        reveal_strlit("(min-width: ");
        reveal_strlit("(width >= ");
        reveal_strlit("(max-width: ");
        reveal_strlit("(width <= ");
        reveal_strlit("(min-height: ");
        reveal_strlit("(height >= ");
        reveal_strlit("(max-height: ");
        reveal_strlit("(height <= ");
    }
    let (s2, c2) = feature_loop_exec(s1, chars_of("min-width:").as_slice(), chars_of("(min-width: ").as_slice(), chars_of("(width >= ").as_slice());
    let (s3, c3) = feature_loop_exec(s2, chars_of("max-width:").as_slice(), chars_of("(max-width: ").as_slice(), chars_of("(width <= ").as_slice());
    let (s4, c4) = feature_loop_exec(s3, chars_of("min-height:").as_slice(), chars_of("(min-height: ").as_slice(), chars_of("(height >= ").as_slice());
    let (s5, c5) = feature_loop_exec(s4, chars_of("max-height:").as_slice(), chars_of("(max-height: ").as_slice(), chars_of("(height <= ").as_slice());
    if c1 || c2 || c3 || c4 || c5 {
        Some(string_of(s5.as_slice()))
    } else {
        None
    }
}

} // verus!

verus! {

/// A media feature value as written after `: `: no `:` or `)` inside it, and no whitespace
/// at either end.
pub open spec fn plain_media_value(v: Seq<char>) -> bool {
    &&& !v.contains(':')
    &&& !v.contains(')')
    &&& v.len() > 0 ==> !crate::text::is_ws(v[0]) && !crate::text::is_ws(v[v.len() - 1])
}

/// A media feature name: letters and `-`, no `:`, not starting with `(`.
pub open spec fn feature_name(f: Seq<char>) -> bool {
    &&& f.len() > 0
    &&& !f.contains(':')
    &&& f[0] != '('
}

/// The prelude `(f: v)`.
pub open spec fn lone_feature(f: Seq<char>, v: Seq<char>) -> Seq<char> {
    seq!['('] + f + seq![':', ' '] + v + seq![')']
}

proof fn lemma_find_colon_only_at(s: Seq<char>, ci: int, p: Seq<char>)
    requires
        p.len() > 0,
        p[p.len() - 1] == ':',
        forall|k: int| 0 <= k < s.len() && k != ci ==> s[k] != ':',
        !crate::text::matches_at(s, ci - p.len() + 1, p),
    ensures
        find(s, p) is None,
{
    assert forall|j: int| 0 <= j implies !crate::text::matches_at(s, j, p) by {
        if crate::text::matches_at(s, j, p) {
            assert(s.subrange(j, j + p.len())[p.len() - 1] == s[j + p.len() - 1]);
            assert(j + p.len() - 1 == ci);
        }
    }
    crate::text::lemma_find_none(s, p);
}

proof fn lemma_trim_after_space(v: Seq<char>)
    requires
        plain_media_value(v),
    ensures
        trim(seq![' '] + v) == v,
{
    let x = seq![' '] + v;
    assert(crate::text::is_ws(x[0]));
    crate::text::lemma_lead_ws_at(x, 1);
    assert(crate::text::trim_start(x) =~= v);
    crate::text::lemma_trail_ws_at(v, 0);
    assert(crate::text::trim_end(v) =~= v);
}

/// In `(f: v)` the feature `f:` is found right after the `(`, with the value `v`.
proof fn lemma_lone_feature_value(f: Seq<char>, v: Seq<char>)
    requires
        feature_name(f),
        plain_media_value(v),
    ensures
        find(lone_feature(f, v), f + seq![':']) == Some(1int),
        media_val(lone_feature(f, v), f + seq![':']) == Some(v),
{
    let s = lone_feature(f, v);
    let p = f + seq![':'];
    assert(s.subrange(1, 1 + p.len() as int) =~= p);
    assert(!crate::text::matches_at(s, 0, p)) by {
        if crate::text::matches_at(s, 0, p) {
            assert(s.subrange(0, p.len() as int)[0] == p[0]);
        }
    }
    crate::text::lemma_find_at(s, p, 1);
    let st: int = 1 + p.len() as int;
    let t = s.skip(st);
    assert(t =~= seq![' '] + v + seq![')']);
    let e: int = v.len() as int + 1;
    assert(t.subrange(e, e + 1) =~= seq![')']);
    assert forall|j: int| 0 <= j < e implies !crate::text::matches_at(t, j, seq![')']) by {
        if crate::text::matches_at(t, j, seq![')']) {
            assert(t.subrange(j, j + 1)[0] == t[j]);
            if j > 0 {
                assert(t[j] == v[j - 1]);
                assert(v.contains(')'));
            }
        }
    }
    crate::text::lemma_find_at(t, seq![')'], e);
    assert(s.subrange(st, st + e) =~= seq![' '] + v);
    lemma_trim_after_space(v);
}

/// In `(f: v)` no other feature `g:` is found.
proof fn lemma_other_feature_absent(f: Seq<char>, v: Seq<char>, g: Seq<char>)
    requires
        feature_name(f),
        feature_name(g),
        plain_media_value(v),
        g.len() == f.len() ==> f != g,
        g.len() < f.len() ==> f[f.len() - g.len()] != g[0],
    ensures
        find(lone_feature(f, v), g + seq![':']) is None,
{
    let s = lone_feature(f, v);
    let p = g + seq![':'];
    let ci: int = f.len() as int + 1;
    assert forall|k: int| 0 <= k < s.len() && k != ci implies s[k] != ':' by {
        if 1 <= k < ci {
            assert(s[k] == f[k - 1]);
            if f[k - 1] == ':' {
                assert(f.contains(':'));
            }
        } else if ci + 2 <= k < s.len() - 1 {
            assert(s[k] == v[k - ci - 2]);
            if v[k - ci - 2] == ':' {
                assert(v.contains(':'));
            }
        }
    }
    let j: int = ci - p.len() + 1;
    assert(!crate::text::matches_at(s, j, p)) by {
        if crate::text::matches_at(s, j, p) {
            let w = s.subrange(j, j + p.len());
            if g.len() == f.len() {
                assert(w =~= f + seq![':']);
                assert(w.take(g.len() as int) =~= f);
                assert(p.take(g.len() as int) =~= g);
            } else if g.len() == f.len() + 1 {
                assert(w[0] == s[0]);
                assert(p[0] == g[0]);
            } else if g.len() < f.len() {
                assert(w[0] == s[j]);
                assert(s[j] == f[j - 1]);
                assert(p[0] == g[0]);
            }
        }
    }
    lemma_find_colon_only_at(s, ci, p);
}

proof fn lemma_colon_free_find(s: Seq<char>, p: Seq<char>)
    requires
        p.len() > 0,
        p[p.len() - 1] == ':',
        !s.contains(':'),
    ensures
        find(s, p) is None,
{
    assert forall|k: int| 0 <= k < s.len() && k != -1 implies s[k] != ':' by {
        if s[k] == ':' {
            assert(s.contains(':'));
        }
    }
    lemma_find_colon_only_at(s, -1, p);
}

proof fn lemma_absent_feature_loop(s: Seq<char>, feat: Seq<char>, lhs: Seq<char>, rhs: Seq<char>)
    requires
        find(s, feat) is None,
    ensures
        feature_loop(s, feat, lhs, rhs) == (s, false),
{
}

/// `(f: v)` written as `lhs v)` becomes `rhs v)` and nothing more.
proof fn lemma_lone_feature_loop(f: Seq<char>, v: Seq<char>, lhs: Seq<char>, rhs: Seq<char>)
    requires
        feature_name(f),
        plain_media_value(v),
        lhs == seq!['('] + f + seq![':', ' '],
        rhs.len() < lhs.len(),
        !rhs.contains(':'),
    ensures
        feature_loop(lone_feature(f, v), f + seq![':'], lhs, rhs) == (rhs + v + seq![')'], true),
{
    let s = lone_feature(f, v);
    let feat = f + seq![':'];
    lemma_lone_feature_value(f, v);
    reveal_strlit(")");
    assert(")"@ =~= seq![')']);
    let pat = lhs + v + seq![')'];
    let rep = rhs + v + seq![')'];
    assert(pat =~= s);
    assert(s.subrange(0, s.len() as int) =~= s);
    crate::text::lemma_find_at(s, s, 0);
    assert(contains(s, pat));
    assert(s.take(0) + rep + s.skip(s.len() as int) =~= rep);
    assert(crate::text::replace(s.skip(s.len() as int), s, rep) == Seq::<char>::empty());
    assert(crate::text::replace(s, pat, rep) =~= rep);
    assert(!rep.contains(':')) by {
        if rep.contains(':') {
            let k = choose|k: int| 0 <= k < rep.len() && rep[k] == ':';
            if k < rhs.len() {
                assert(rhs[k] == ':');
                assert(rhs.contains(':'));
            } else if k < rhs.len() + v.len() {
                assert(v[k - rhs.len()] == ':');
                assert(v.contains(':'));
            }
        }
    }
    lemma_colon_free_find(rep, feat);
    crate::text::lemma_replace_shorter(s, pat, rep);
    assert(media_val(rep, feat) is None);
    assert(feature_loop(rep, feat, lhs, rhs) == (rep, false));
    assert(media_val(s, feat) == Some(v));
    assert(pat.len() > 0);
    let next = crate::text::replace(s, pat, rep);
    assert(next == rep);
}

proof fn lemma_media_literals()
    ensures
        "min-width:"@ =~= seq!['m', 'i', 'n', '-', 'w', 'i', 'd', 't', 'h'] + seq![':'],
        "max-width:"@ =~= seq!['m', 'a', 'x', '-', 'w', 'i', 'd', 't', 'h'] + seq![':'],
        "min-height:"@ =~= seq!['m', 'i', 'n', '-', 'h', 'e', 'i', 'g', 'h', 't'] + seq![':'],
        "max-height:"@ =~= seq!['m', 'a', 'x', '-', 'h', 'e', 'i', 'g', 'h', 't'] + seq![':'],
        "(min-width: "@ =~= seq!['('] + seq!['m', 'i', 'n', '-', 'w', 'i', 'd', 't', 'h'] + seq![':', ' '],
        "(max-width: "@ =~= seq!['('] + seq!['m', 'a', 'x', '-', 'w', 'i', 'd', 't', 'h'] + seq![':', ' '],
        "(min-height: "@ =~= seq!['('] + seq!['m', 'i', 'n', '-', 'h', 'e', 'i', 'g', 'h', 't'] + seq![':', ' '],
        "(max-height: "@ =~= seq!['('] + seq!['m', 'a', 'x', '-', 'h', 'e', 'i', 'g', 'h', 't'] + seq![':', ' '],
        ")"@ =~= seq![')'],
        "(width >= "@ =~= seq!['(', 'w', 'i', 'd', 't', 'h', ' ', '>', '=', ' '],
        "(width <= "@ =~= seq!['(', 'w', 'i', 'd', 't', 'h', ' ', '<', '=', ' '],
        "(height >= "@ =~= seq!['(', 'h', 'e', 'i', 'g', 'h', 't', ' ', '>', '=', ' '],
        "(height <= "@ =~= seq!['(', 'h', 'e', 'i', 'g', 'h', 't', ' ', '<', '=', ' '],
{
    reveal_strlit("min-width:");
    reveal_strlit("max-width:");
    reveal_strlit("min-height:");
    reveal_strlit("max-height:");
    reveal_strlit("(min-width: ");
    reveal_strlit("(max-width: ");
    reveal_strlit("(min-height: ");
    reveal_strlit("(max-height: ");
    reveal_strlit("(width >= ");
    reveal_strlit("(width <= ");
    reveal_strlit("(height >= ");
    reveal_strlit("(height <= ");
    reveal_strlit(")");
}

proof fn lemma_no_colon_prefix(r: Seq<char>, v: Seq<char>)
    requires
        !r.contains(':'),
        plain_media_value(v),
    ensures
        !(r + v + seq![')']).contains(':'),
{
    let x = r + v + seq![')'];
    if x.contains(':') {
        let k = choose|k: int| 0 <= k < x.len() && x[k] == ':';
        if k < r.len() {
            assert(r[k] == ':');
            assert(r.contains(':'));
        } else if k < r.len() + v.len() {
            assert(v[k - r.len()] == ':');
            assert(v.contains(':'));
        }
    }
}

#[verifier::spinoff_prover]
#[verifier::rlimit(50)]
proof fn lemma_media_min_width(v: Seq<char>)
    requires
        plain_media_value(v),
    ensures
        media_modernization("(min-width: "@ + v + ")"@) == Some("(width >= "@ + v + ")"@),
{
    lemma_media_literals();
    let mw = seq!['m', 'i', 'n', '-', 'w', 'i', 'd', 't', 'h'];
    let xw = seq!['m', 'a', 'x', '-', 'w', 'i', 'd', 't', 'h'];
    let mh = seq!['m', 'i', 'n', '-', 'h', 'e', 'i', 'g', 'h', 't'];
    let xh = seq!['m', 'a', 'x', '-', 'h', 'e', 'i', 'g', 'h', 't'];
    assert(mw != xw) by {
        assert(mw[1] != xw[1]);
    }
    let s = lone_feature(mw, v);
    assert("(min-width: "@ + v + ")"@ =~= s);
    lemma_other_feature_absent(mw, v, xw);
    lemma_other_feature_absent(mw, v, mh);
    lemma_other_feature_absent(mw, v, xh);
    assert(!"(width >= "@.contains(':'));
    lemma_lone_feature_loop(mw, v, "(min-width: "@, "(width >= "@);
    let r = "(width >= "@ + v + ")"@;
    lemma_no_colon_prefix("(width >= "@, v);
    assert(r =~= "(width >= "@ + v + seq![')']);
    lemma_colon_free_find(r, "max-width:"@);
    lemma_colon_free_find(r, "min-height:"@);
    lemma_colon_free_find(r, "max-height:"@);
    assert(range_step(s) == (s, false));
}

#[verifier::spinoff_prover]
#[verifier::rlimit(50)]
proof fn lemma_media_max_width(v: Seq<char>)
    requires
        plain_media_value(v),
    ensures
        media_modernization("(max-width: "@ + v + ")"@) == Some("(width <= "@ + v + ")"@),
{
    lemma_media_literals();
    let mw = seq!['m', 'i', 'n', '-', 'w', 'i', 'd', 't', 'h'];
    let xw = seq!['m', 'a', 'x', '-', 'w', 'i', 'd', 't', 'h'];
    let mh = seq!['m', 'i', 'n', '-', 'h', 'e', 'i', 'g', 'h', 't'];
    let xh = seq!['m', 'a', 'x', '-', 'h', 'e', 'i', 'g', 'h', 't'];
    assert(mw != xw) by {
        assert(mw[1] != xw[1]);
    }
    let s = lone_feature(xw, v);
    assert("(max-width: "@ + v + ")"@ =~= s);
    lemma_other_feature_absent(xw, v, mw);
    lemma_other_feature_absent(xw, v, mh);
    lemma_other_feature_absent(xw, v, xh);
    assert(!"(width <= "@.contains(':'));
    lemma_lone_feature_loop(xw, v, "(max-width: "@, "(width <= "@);
    let r = "(width <= "@ + v + ")"@;
    lemma_no_colon_prefix("(width <= "@, v);
    assert(r =~= "(width <= "@ + v + seq![')']);
    lemma_colon_free_find(r, "min-height:"@);
    lemma_colon_free_find(r, "max-height:"@);
    assert(range_step(s) == (s, false));
}

#[verifier::spinoff_prover]
#[verifier::rlimit(50)]
proof fn lemma_media_min_height(v: Seq<char>)
    requires
        plain_media_value(v),
    ensures
        media_modernization("(min-height: "@ + v + ")"@) == Some("(height >= "@ + v + ")"@),
{
    lemma_media_literals();
    let mw = seq!['m', 'i', 'n', '-', 'w', 'i', 'd', 't', 'h'];
    let xw = seq!['m', 'a', 'x', '-', 'w', 'i', 'd', 't', 'h'];
    let mh = seq!['m', 'i', 'n', '-', 'h', 'e', 'i', 'g', 'h', 't'];
    let xh = seq!['m', 'a', 'x', '-', 'h', 'e', 'i', 'g', 'h', 't'];
    assert(mh != xh) by {
        assert(mh[1] != xh[1]);
    }
    let s = lone_feature(mh, v);
    assert("(min-height: "@ + v + ")"@ =~= s);
    lemma_other_feature_absent(mh, v, mw);
    lemma_other_feature_absent(mh, v, xw);
    lemma_other_feature_absent(mh, v, xh);
    assert(!"(height >= "@.contains(':'));
    lemma_lone_feature_loop(mh, v, "(min-height: "@, "(height >= "@);
    let r = "(height >= "@ + v + ")"@;
    lemma_no_colon_prefix("(height >= "@, v);
    assert(r =~= "(height >= "@ + v + seq![')']);
    lemma_colon_free_find(r, "max-height:"@);
    assert(range_step(s) == (s, false));
}

#[verifier::spinoff_prover]
#[verifier::rlimit(50)]
proof fn lemma_media_max_height(v: Seq<char>)
    requires
        plain_media_value(v),
    ensures
        media_modernization("(max-height: "@ + v + ")"@) == Some("(height <= "@ + v + ")"@),
{
    lemma_media_literals();
    let mw = seq!['m', 'i', 'n', '-', 'w', 'i', 'd', 't', 'h'];
    let xw = seq!['m', 'a', 'x', '-', 'w', 'i', 'd', 't', 'h'];
    let mh = seq!['m', 'i', 'n', '-', 'h', 'e', 'i', 'g', 'h', 't'];
    let xh = seq!['m', 'a', 'x', '-', 'h', 'e', 'i', 'g', 'h', 't'];
    assert(mh != xh) by {
        assert(mh[1] != xh[1]);
    }
    let s = lone_feature(xh, v);
    assert("(max-height: "@ + v + ")"@ =~= s);
    lemma_other_feature_absent(xh, v, mw);
    lemma_other_feature_absent(xh, v, xw);
    lemma_other_feature_absent(xh, v, mh);
    assert(!"(height <= "@.contains(':'));
    lemma_lone_feature_loop(xh, v, "(max-height: "@, "(height <= "@);
    assert(range_step(s) == (s, false));
}

/// Law (media range syntax): each legacy bound becomes the comparison it stands for, for every
/// value `v`: `(min-width: v)` is `(width >= v)`, `(max-width: v)` is `(width <= v)`,
/// `(min-height: v)` is `(height >= v)` and `(max-height: v)` is `(height <= v)`; a `max-`
/// feature is an upper bound and a `min-` feature a lower one.
pub proof fn law_media_bounds_become_comparisons(v: Seq<char>)
    requires
        plain_media_value(v),
    ensures
        media_modernization("(min-width: "@ + v + ")"@) == Some("(width >= "@ + v + ")"@),
        media_modernization("(max-width: "@ + v + ")"@) == Some("(width <= "@ + v + ")"@),
        media_modernization("(min-height: "@ + v + ")"@) == Some("(height >= "@ + v + ")"@),
        media_modernization("(max-height: "@ + v + ")"@) == Some("(height <= "@ + v + ")"@),
{
    lemma_media_min_width(v);
    lemma_media_max_width(v);
    lemma_media_min_height(v);
    lemma_media_max_height(v);
}

} // verus!

verus! {

/// An argument that can stand in `:not(...)` as written: non-empty, no parentheses or quotes,
/// no whitespace at either end.
pub open spec fn plain_not_arg(a: Seq<char>) -> bool {
    &&& a.len() > 0
    &&& forall|k: int|
        0 <= k < a.len() ==> #[trigger] a[k] != '(' && a[k] != ')' && !crate::scanner::is_quote(a[k])
    &&& !crate::text::is_ws(a[0])
    &&& !crate::text::is_ws(a[a.len() - 1])
}

/// The chain `:not(a1):not(a2)...` of the arguments `args`.
pub open spec fn not_chain_text(args: Seq<Seq<char>>) -> Seq<char>
    decreases args.len(),
{
    if args.len() == 0 {
        seq![]
    } else {
        not_open() + args[0] + seq![')'] + not_chain_text(args.drop_first())
    }
}

proof fn lemma_paren_close_plain(s: Seq<char>, i: int, c: int)
    requires
        0 <= i <= c < s.len(),
        s[c] == ')',
        forall|k: int| i <= k < c ==> #[trigger] s[k] != '(' && s[k] != ')' && !crate::scanner::is_quote(s[k]),
    ensures
        crate::selector::paren_close(s, i, 1, None, false) == Some(c),
    decreases c - i,
{
    if i < c {
        lemma_paren_close_plain(s, i + 1, c);
    }
}

proof fn lemma_plain_arg_trim(a: Seq<char>)
    requires
        plain_not_arg(a),
    ensures
        trim(a) == a,
{
    crate::text::lemma_lead_ws_at(a, 0);
    assert(crate::text::trim_start(a) =~= a);
    crate::text::lemma_trail_ws_at(a, 0);
    assert(crate::text::trim_end(a) =~= a);
}

/// The chain of `:not(...)` written at `j` is read back as its arguments, and ends where its
/// text ends.
#[verifier::spinoff_prover]
#[verifier::rlimit(50)]
proof fn lemma_chain_read(s: Seq<char>, j: int, args: Seq<Seq<char>>)
    requires
        0 <= j,
        j + not_chain_text(args).len() <= s.len(),
        s.subrange(j, j + not_chain_text(args).len()) == not_chain_text(args),
        forall|k: int| 0 <= k < args.len() ==> plain_not_arg(#[trigger] args[k]),
        !crate::text::matches_at(s, j + not_chain_text(args).len(), not_open()),
    ensures
        chain_args(s, not_chain(s, j)) == args,
        not_chain_end(s, j) == j + not_chain_text(args).len(),
    decreases args.len(),
{
    let ct = not_chain_text(args);
    if args.len() == 0 {
        assert(chain_args(s, not_chain(s, j)) =~= args);
    } else {
        let a = args[0];
        let rest = args.drop_first();
        let rt = not_chain_text(rest);
        assert(ct =~= not_open() + a + seq![')'] + rt);
        assert(s.subrange(j, j + 5) =~= ct.subrange(0, 5));
        assert(ct.subrange(0, 5) =~= not_open());
        assert(matches_at_spec(s, j, not_open()));
        let c = j + 5 + a.len();
        assert(s[c] == ct[5 + a.len() as int]);
        assert(plain_not_arg(a));
        assert forall|k: int| j + 5 <= k < c implies #[trigger] s[k] != '(' && s[k] != ')' && !crate::scanner::is_quote(s[k]) by {
            assert(s[k] == ct[k - j]);
            assert(ct[k - j] == a[k - j - 5]);
        }
        lemma_paren_close_plain(s, j + 5, c);
        assert(crate::selector::matching_paren(s, j + 4) == Some(c));
        assert forall|k: int| 0 <= k < rest.len() implies plain_not_arg(#[trigger] rest[k]) by {
            assert(rest[k] == args[k + 1]);
        }
        assert(s.subrange(c + 1, c + 1 + rt.len()) =~= rt) by {
            assert forall|k: int| 0 <= k < rt.len() implies s.subrange(c + 1, c + 1 + rt.len())[k] == rt[k] by {
                assert(s[c + 1 + k] == ct[c + 1 + k - j]);
            }
        }
        lemma_chain_read(s, c + 1, rest);
        assert(s.subrange(j + 5, c) =~= a) by {
            assert forall|k: int| 0 <= k < a.len() implies s.subrange(j + 5, c)[k] == a[k] by {
                assert(s[j + 5 + k] == ct[5 + k]);
            }
        }
        lemma_plain_arg_trim(a);
        let ch = not_chain(s, j);
        assert(ch == seq![(j + 5, c)] + not_chain(s, c + 1));
        assert(chain_args(s, ch) =~= seq![trim(s.subrange(j + 5, c))] + chain_args(s, not_chain(s, c + 1)));
        assert(chain_args(s, ch) =~= args);
    }
}

/// The walk copies text holding no `:` as it stands.
proof fn lemma_walk_copies(s: Seq<char>, i: int, e: int)
    requires
        0 <= i <= e <= s.len(),
        forall|k: int| i <= k < e ==> #[trigger] s[k] != ':',
    ensures
        not_walk(s, i).0 == s.subrange(i, e) + not_walk(s, e).0,
        not_walk(s, i).1 == not_walk(s, e).1,
        not_walk(s, i).2 == not_walk(s, e).2,
    decreases e - i,
{
    if i < e {
        assert(!matches_at_spec(s, i, not_open())) by {
            if matches_at_spec(s, i, not_open()) {
                assert(s.subrange(i, i + 5)[0] == s[i]);
            }
        }
        assert(not_chain(s, i) == Seq::<(int, int)>::empty());
        lemma_walk_copies(s, i + 1, e);
        assert(s.subrange(i, e) =~= seq![s[i]] + s.subrange(i + 1, e));
    } else {
        assert(s.subrange(i, e) =~= Seq::<char>::empty());
    }
}

/// At a chain of two or more `:not(...)` the walk writes them merged and goes on after it.
proof fn lemma_walk_at_chain(s: Seq<char>, j: int, args: Seq<Seq<char>>, e: int)
    requires
        0 <= j < s.len(),
        args.len() >= 2,
        chain_args(s, not_chain(s, j)) == args,
        not_chain_end(s, j) == e,
    ensures
        not_walk(s, j) == (
            ":not("@ + join(args, ", "@) + ")"@ + not_walk(s, e).0,
            true,
            uniform_specificity(args) && not_walk(s, e).2,
        ),
{
    let ch = not_chain(s, j);
    assert(ch.len() == args.len()) by {
        assert(chain_args(s, ch).len() == ch.len());
    }
    lemma_not_chain(s, j);
}

/// The walk over `p`, a chain and `q`, where `p` and `q` hold no `:`.
#[verifier::spinoff_prover]
#[verifier::rlimit(50)]
proof fn lemma_walk_over_chain(p: Seq<char>, args: Seq<Seq<char>>, q: Seq<char>)
    requires
        args.len() >= 2,
        forall|k: int| 0 <= k < args.len() ==> plain_not_arg(#[trigger] args[k]),
        !p.contains(':'),
        !q.contains(':'),
    ensures
        not_walk(p + not_chain_text(args) + q, 0) == (
            p + (":not("@ + join(args, ", "@) + ")"@ + q),
            true,
            uniform_specificity(args),
        ),
        crate::text::matches_at(p + not_chain_text(args) + q, p.len() as int, not_open()),
{
    let ct = not_chain_text(args);
    let s = p + ct + q;
    let j = p.len() as int;
    let e = j + ct.len();
    assert(s.subrange(j, e) =~= ct);
    assert(!crate::text::matches_at(s, e, not_open())) by {
        if crate::text::matches_at(s, e, not_open()) {
            assert(s.subrange(e, e + 5)[0] == s[e]);
            assert(s[e] == q[0]);
            assert(q.contains(':'));
        }
    }
    lemma_chain_read(s, j, args);
    assert forall|k: int| 0 <= k < j implies #[trigger] s[k] != ':' by {
        assert(s[k] == p[k]);
        if p[k] == ':' {
            assert(p.contains(':'));
        }
    }
    lemma_walk_copies(s, 0, j);
    assert forall|k: int| e <= k < s.len() implies #[trigger] s[k] != ':' by {
        assert(s[k] == q[k - e]);
        if q[k - e] == ':' {
            assert(q.contains(':'));
        }
    }
    lemma_walk_copies(s, e, s.len() as int);
    assert(not_walk(s, s.len() as int) == (Seq::<char>::empty(), false, true));
    assert(ct.len() > 0);
    lemma_walk_at_chain(s, j, args, e);
    assert(s.subrange(0, j) =~= p);
    assert(s.subrange(e, s.len() as int) =~= q);
    assert(q + Seq::<char>::empty() =~= q);
    assert(s.subrange(j, j + 5) =~= ct.subrange(0, 5));
    assert(ct =~= not_open() + args[0] + seq![')'] + not_chain_text(args.drop_first()));
    assert(ct.subrange(0, 5) =~= not_open());
}

/// Law (`:not()` chains): a chain of two or more `:not(...)` between text holding no `:` is
/// merged into one `:not(...)` that lists every argument of the chain, in order, with the
/// text around it unchanged; the flag tells whether the arguments share one specificity.
#[verifier::spinoff_prover]
#[verifier::rlimit(50)]
pub proof fn law_not_chain_keeps_every_argument(p: Seq<char>, args: Seq<Seq<char>>, q: Seq<char>)
    requires
        args.len() >= 2,
        forall|k: int| 0 <= k < args.len() ==> plain_not_arg(#[trigger] args[k]),
        !p.contains(':'),
        !q.contains(':'),
    ensures
        not_consolidation(p + not_chain_text(args) + q) == Some(
            (p + ":not("@ + join(args, ", "@) + ")"@ + q, uniform_specificity(args)),
        ),
{
    let s = p + not_chain_text(args) + q;
    lemma_walk_over_chain(p, args, q);
    lemma_find_sound(s, not_open());
    assert(contains(s, not_open()));
    let w = not_walk(s, 0);
    assert(w.1);
    assert(p + ":not("@ + join(args, ", "@) + ")"@ + q =~= p + (":not("@ + join(args, ", "@) + ")"@ + q));
}

} // verus!

verus! {

proof fn lemma_ident_end_prefix(p: Seq<char>, r: Seq<char>, k: int)
    requires
        0 <= k <= p.len(),
        r.len() > 0 ==> !crate::selector::is_ident_char(r[0]),
    ensures
        crate::selector::ident_end(p + r, k) == crate::selector::ident_end(p, k),
    decreases p.len() - k,
{
    let s = p + r;
    if k < p.len() {
        assert(s[k] == p[k]);
        if crate::selector::is_ident_char(p[k]) {
            lemma_ident_end_prefix(p, r, k + 1);
        }
    } else if r.len() > 0 {
        assert(s[k] == r[0]);
    }
}

/// Over a part `p` with no `[`, `]` or `:`, the specificity walk of `p + r`, for `r` starting
/// with a character that cannot continue a name, counts what `p` counts and then goes on at
/// `r`.
proof fn lemma_walk_prefix(p: Seq<char>, r: Seq<char>, i: int)
    requires
        0 <= i <= p.len(),
        forall|k: int| 0 <= k < p.len() ==> #[trigger] p[k] != '[' && p[k] != ']' && p[k] != ':',
        r.len() > 0,
        !crate::selector::is_ident_char(r[0]),
    ensures
        crate::selector::spec_walk(p + r, i, false) == crate::selector::add3(
            crate::selector::spec_walk(p, i, false),
            crate::selector::spec_walk(p + r, p.len() as int, false),
        ),
    decreases p.len() - i,
{
    let s = p + r;
    if i < p.len() {
        let b = p[i];
        assert(s[i] == b);
        if i > 0 {
            assert(s[i - 1] == p[i - 1]);
        }
        crate::selector::lemma_ident_end(p, i + 1);
        lemma_ident_end_prefix(p, r, i + 1);
        if b == '#' || b == '.' || ((crate::selector::is_alpha(b) || b == '*') && (i == 0
            || crate::selector::is_type_start_boundary(p[i - 1]))) {
            lemma_walk_prefix(p, r, crate::selector::ident_end(p, i + 1));
        } else {
            lemma_walk_prefix(p, r, i + 1);
        }
    } else {
        assert(crate::selector::spec_walk(p, i, false) == crate::selector::zero3());
    }
}

proof fn lemma_pseudo_name_run(s: Seq<char>, k: int, end: int)
    requires
        0 <= k <= end < s.len(),
        forall|j: int| k <= j < end ==> crate::selector::is_pseudo_name_char(#[trigger] s[j]),
        !crate::selector::is_pseudo_name_char(s[end]),
    ensures
        crate::selector::pseudo_name_end(s, k) == end,
    decreases end - k,
{
    if k < end {
        lemma_pseudo_name_run(s, k + 1, end);
    }
}

proof fn lemma_single_part(x: Seq<char>)
    requires
        x.len() > 0,
        !x.contains(','),
    ensures
        crate::selector::comma_parts(x) == seq![(0int, x.len() as int)],
{
    crate::selector::lemma_comma_scan(x, 0, 0, 0, None, false);
    let cs = crate::selector::top_commas(x);
    if cs.len() > 0 {
        assert(x[cs[0]] == ',');
        assert(x.contains(','));
    }
    assert(cs =~= Seq::<int>::empty());
}

/// The specificity that `:n(x)` adds at position `pre.len()`: that of `x` for `:is`, `:not`
/// and `:has`, nothing for `:where`.
proof fn lemma_walk_functional(pre: Seq<char>, n: Seq<char>, x: Seq<char>)
    requires
        n.len() > 0,
        forall|j: int| 0 <= j < n.len() ==> crate::selector::is_pseudo_name_char(#[trigger] n[j]),
        n[0] != ':',
        plain_not_arg(x),
        !x.contains(','),
    ensures
        n == seq!['w', 'h', 'e', 'r', 'e'] ==> crate::selector::spec_walk(
            pre + seq![':'] + n + seq!['('] + x + seq![')'],
            pre.len() as int,
            false,
        ) == crate::selector::zero3(),
        (n == seq!['i', 's'] || n == seq!['n', 'o', 't'] || n == seq!['h', 'a', 's']) ==> crate::selector::spec_walk(
            pre + seq![':'] + n + seq!['('] + x + seq![')'],
            pre.len() as int,
            false,
        ) == crate::selector::specificity(x),
{
    let s = pre + seq![':'] + n + seq!['('] + x + seq![')'];
    let i0 = pre.len() as int;
    let e = i0 + 1 + n.len();
    let c = s.len() - 1;
    assert(s[i0] == ':');
    assert(s[i0 + 1] == n[0]);
    assert(s[e] == '(');
    assert forall|j: int| i0 + 1 <= j < e implies crate::selector::is_pseudo_name_char(#[trigger] s[j]) by {
        assert(s[j] == n[j - i0 - 1]);
    }
    lemma_pseudo_name_run(s, i0 + 1, e);
    assert(s.subrange(i0 + 1, e) =~= n);
    assert(s[c] == ')');
    assert forall|k: int| e + 1 <= k < c implies #[trigger] s[k] != '(' && s[k] != ')' && !crate::scanner::is_quote(s[k]) by {
        assert(s[k] == x[k - e - 1]);
    }
    lemma_paren_close_plain(s, e + 1, c);
    assert(crate::selector::matching_paren(s, e) == Some(c));
    assert(s.subrange(e + 1, c) =~= x);
    lemma_single_part(x);
    lemma_plain_arg_trim(x);
    assert(x.subrange(0, x.len() as int) =~= x);
    let ps = seq![(0int, x.len() as int)];
    assert(ps.drop_last() =~= Seq::<(int, int)>::empty());
    assert(crate::selector::max_over_parts(s.len(), x, ps.drop_last()) == crate::selector::zero3());
    assert(crate::selector::max_over_parts(s.len(), x, ps) == crate::selector::specificity(x));
    assert(crate::selector::spec_walk(s, c + 1, false) == crate::selector::zero3());
}

/// The specificity of `p` followed by `:n(x)`: that of `p`, plus what `:n(x)` adds.
proof fn lemma_compound_functional(p: Seq<char>, n: Seq<char>, x: Seq<char>)
    requires
        forall|k: int| 0 <= k < p.len() ==> #[trigger] p[k] != '[' && p[k] != ']' && p[k] != ':',
        n.len() > 0,
        forall|j: int| 0 <= j < n.len() ==> crate::selector::is_pseudo_name_char(#[trigger] n[j]),
        n[0] != ':',
        plain_not_arg(x),
        !x.contains(','),
    ensures
        n == seq!['w', 'h', 'e', 'r', 'e'] ==> specificity(p + seq![':'] + n + seq!['('] + x + seq![')'])
            == crate::selector::add3(specificity(p), crate::selector::zero3()),
        (n == seq!['i', 's'] || n == seq!['n', 'o', 't'] || n == seq!['h', 'a', 's']) ==> specificity(
            p + seq![':'] + n + seq!['('] + x + seq![')'],
        ) == crate::selector::add3(specificity(p), specificity(x)),
{
    let s = p + seq![':'] + n + seq!['('] + x + seq![')'];
    let r = seq![':'] + n + seq!['('] + x + seq![')'];
    assert(s =~= p + r);
    lemma_walk_prefix(p, r, 0);
    lemma_walk_functional(p, n, x);
}

/// Law (specificity of functional pseudo-classes): after a compound `p` (no `[`, `]` or `:`),
/// `:not(x)`, `:is(x)` and `:has(x)` add the specificity of their argument `x`, and
/// `:where(x)` adds nothing: specificity(p + ":not(" + x + ")") == specificity(p) +
/// specificity(x), so `a:not(.b)` counts one element and one class.
pub proof fn law_functional_pseudo_specificity(p: Seq<char>, x: Seq<char>)
    requires
        forall|k: int| 0 <= k < p.len() ==> #[trigger] p[k] != '[' && p[k] != ']' && p[k] != ':',
        plain_not_arg(x),
        !x.contains(','),
    ensures
        specificity(p + ":not("@ + x + ")"@) == crate::selector::add3(specificity(p), specificity(x)),
        specificity(p + ":is("@ + x + ")"@) == crate::selector::add3(specificity(p), specificity(x)),
        specificity(p + ":has("@ + x + ")"@) == crate::selector::add3(specificity(p), specificity(x)),
        specificity(p + ":where("@ + x + ")"@) == specificity(p),
{
    reveal_strlit(":not(");
    reveal_strlit(":is(");
    reveal_strlit(":has(");
    reveal_strlit(":where(");
    reveal_strlit(")");
    let nn = seq!['n', 'o', 't'];
    let ni = seq!['i', 's'];
    let nh = seq!['h', 'a', 's'];
    let nw = seq!['w', 'h', 'e', 'r', 'e'];
    lemma_compound_functional(p, nn, x);
    lemma_compound_functional(p, ni, x);
    lemma_compound_functional(p, nh, x);
    lemma_compound_functional(p, nw, x);
    assert(p + ":not("@ + x + ")"@ =~= p + seq![':'] + nn + seq!['('] + x + seq![')']);
    assert(p + ":is("@ + x + ")"@ =~= p + seq![':'] + ni + seq!['('] + x + seq![')']);
    assert(p + ":has("@ + x + ")"@ =~= p + seq![':'] + nh + seq!['('] + x + seq![')']);
    assert(p + ":where("@ + x + ")"@ =~= p + seq![':'] + nw + seq!['('] + x + seq![')']);
    assert(crate::selector::add3(specificity(p), crate::selector::zero3()) == specificity(p));
}

} // verus!

verus! {

/// Only whitespace.
pub open spec fn all_ws(w: Seq<char>) -> bool {
    forall|k: int| 0 <= k < w.len() ==> crate::text::is_ws(#[trigger] w[k])
}

/// `t` reads `pre:is(alts...)post`.
pub open spec fn factored_as(t: Seq<char>, pre: Seq<char>, alts: Seq<Seq<char>>, post: Seq<char>) -> bool {
    t == pre + ":is("@ + join(alts, ", "@) + ")"@ + post
}

/// Putting the alternative `a` back between `pre` and `post` gives `b`, but for whitespace
/// where the alternative meets the shared part.
pub open spec fn expands_to(b: Seq<char>, pre: Seq<char>, a: Seq<char>, post: Seq<char>) -> bool {
    exists|w: Seq<char>| #[trigger] all_ws(w) && (b == pre + a + w + post || b == pre + w + a + post)
}

/// Non-empty, with no whitespace at either end.
pub open spec fn clean_text(b: Seq<char>) -> bool {
    b.len() > 0 && !crate::text::is_ws(b[0]) && !crate::text::is_ws(b[b.len() - 1])
}

proof fn lemma_trim_clean(x: Seq<char>)
    requires
        trim(x).len() > 0,
    ensures
        clean_text(trim(x)),
{
    crate::text::lemma_lead_ws_bound(x);
    let y = crate::text::trim_start(x);
    crate::text::lemma_trail_ws_bound(y);
    assert(trim(x)[0] == y[0]);
    assert(y[0] == x[crate::text::lead_ws(x) as int]);
    assert(trim(x)[trim(x).len() - 1] == y[y.len() - crate::text::trail_ws(y) - 1]);
}

proof fn lemma_nonempty_members(ps: Seq<Seq<char>>)
    ensures
        forall|k: int| 0 <= k < nonempty(ps).len() ==> #[trigger] nonempty(ps)[k].len() > 0 && ps.contains(nonempty(ps)[k]),
    decreases ps.len(),
{
    if ps.len() > 0 {
        let d = ps.drop_last();
        lemma_nonempty_members(d);
        let n = nonempty(ps);
        assert forall|k: int| 0 <= k < n.len() implies #[trigger] n[k].len() > 0 && ps.contains(n[k]) by {
            if k < nonempty(d).len() {
                assert(n[k] == nonempty(d)[k]);
                let j = choose|j: int| 0 <= j < d.len() && d[j] == nonempty(d)[k];
                assert(ps[j] == d[j]);
            } else {
                assert(n[k] == ps.last());
                assert(ps[ps.len() - 1] == ps.last());
            }
        }
    }
}

/// The alternatives of a selector list are clean.
proof fn lemma_alternatives_clean(s: Seq<char>)
    ensures
        forall|k: int| 0 <= k < nonempty(trimmed_parts(s)).len() ==> clean_text(#[trigger] nonempty(trimmed_parts(s))[k]),
{
    let ps = trimmed_parts(s);
    lemma_nonempty_members(ps);
    let bs = nonempty(ps);
    assert forall|k: int| 0 <= k < bs.len() implies clean_text(#[trigger] bs[k]) by {
        assert(bs[k].len() > 0);
        let j = choose|j: int| 0 <= j < ps.len() && ps[j] == bs[k];
        assert(ps[j] == trim(split_commas(s)[j]));
        lemma_trim_clean(split_commas(s)[j]);
    }
}

proof fn lemma_clean_trim(y: Seq<char>)
    requires
        clean_text(y),
    ensures
        trim(y) == y,
{
    crate::text::lemma_lead_ws_at(y, 0);
    assert(crate::text::trim_start(y) =~= y);
    crate::text::lemma_trail_ws_at(y, 0);
    assert(crate::text::trim_end(y) =~= y);
}

/// A part that starts clean: trimming only cuts whitespace off its end.
proof fn lemma_trim_clean_start(y: Seq<char>)
    requires
        trim(y).len() > 0,
        !crate::text::is_ws(y[0]),
    ensures
        y == trim(y) + y.skip(trim(y).len() as int),
        all_ws(y.skip(trim(y).len() as int)),
{
    crate::text::lemma_lead_ws_at(y, 0);
    assert(crate::text::trim_start(y) =~= y);
    crate::text::lemma_trail_ws_bound(y);
    assert(y =~= trim(y) + y.skip(trim(y).len() as int));
    assert forall|k: int| 0 <= k < y.skip(trim(y).len() as int).len() implies crate::text::is_ws(
        #[trigger] y.skip(trim(y).len() as int)[k],
    ) by {
        assert(y.skip(trim(y).len() as int)[k] == y[trim(y).len() + k]);
    }
}

/// A part that ends clean: trimming only cuts whitespace off its start.
proof fn lemma_trim_clean_end(y: Seq<char>)
    requires
        trim(y).len() > 0,
        !crate::text::is_ws(y[y.len() - 1]),
    ensures
        y == y.take(y.len() - trim(y).len()) + trim(y),
        all_ws(y.take(y.len() - trim(y).len())),
{
    crate::text::lemma_lead_ws_bound(y);
    let z = crate::text::trim_start(y);
    assert(z[z.len() - 1] == y[y.len() - 1]);
    crate::text::lemma_trail_ws_at(z, 0);
    assert(crate::text::trim_end(z) =~= z);
    assert(y =~= y.take(crate::text::lead_ws(y) as int) + z);
    assert forall|k: int| 0 <= k < y.take(y.len() - trim(y).len()).len() implies crate::text::is_ws(
        #[trigger] y.take(y.len() - trim(y).len())[k],
    ) by {
        assert(y.take(y.len() - trim(y).len())[k] == y[k]);
    }
}

proof fn lemma_suffix_form_expands(bs: Seq<Seq<char>>)
    requires
        bs.len() > 0,
        forall|k: int| 0 <= k < bs.len() ==> clean_text(#[trigger] bs[k]),
    ensures
        suffix_form(bs) matches Some(t) ==> exists|pre: Seq<char>, alts: Seq<Seq<char>>, post: Seq<char>|
            #[trigger] factored_as(t, pre, alts, post) && alts.len() == bs.len() && forall|k: int|
                0 <= k < bs.len() ==> expands_to(bs[k], pre, #[trigger] alts[k], post),
{
    if let Some(t) = suffix_form(bs) {
        let sp = rfind_char(bs[0], ' ').unwrap();
        let suffix = bs[0].skip(sp);
        let n = suffix.len() as int;
        let alts = cut_ends(bs, n);
        let pre = Seq::<char>::empty();
        assert(factored_as(t, pre, alts, suffix)) by {
            assert(t =~= pre + ":is("@ + join(alts, ", "@) + ")"@ + suffix);
        }
        assert forall|k: int| 0 <= k < bs.len() implies expands_to(bs[k], pre, #[trigger] alts[k], suffix) by {
            let b = bs[k];
            assert(ends_with(b, suffix));
            assert(valid_token(alts[k]));
            let y = b.take(b.len() - n);
            assert(alts[k] == trim(y));
            assert(b =~= y + suffix);
            assert(y[0] == b[0]);
            lemma_trim_clean_start(y);
            let w = y.skip(trim(y).len() as int);
            assert(all_ws(w));
            assert(b =~= pre + alts[k] + w + suffix);
        }
    }
}

proof fn lemma_prefix_form_expands(bs: Seq<Seq<char>>)
    requires
        bs.len() > 0,
        forall|k: int| 0 <= k < bs.len() ==> clean_text(#[trigger] bs[k]),
    ensures
        prefix_form(bs) matches Some(t) ==> exists|pre: Seq<char>, alts: Seq<Seq<char>>, post: Seq<char>|
            #[trigger] factored_as(t, pre, alts, post) && alts.len() == bs.len() && forall|k: int|
                0 <= k < bs.len() ==> expands_to(bs[k], pre, #[trigger] alts[k], post),
{
    if let Some(t) = prefix_form(bs) {
        let sp = rfind_char(bs[0], ' ').unwrap();
        let prefix = bs[0].take(sp + 1);
        let m = prefix.len() as int;
        let alts = cut_starts(bs, m);
        let post = Seq::<char>::empty();
        assert(factored_as(t, prefix, alts, post)) by {
            assert(t =~= prefix + ":is("@ + join(alts, ", "@) + ")"@ + post);
        }
        assert forall|k: int| 0 <= k < bs.len() implies expands_to(bs[k], prefix, #[trigger] alts[k], post) by {
            let b = bs[k];
            assert(starts_with(b, prefix));
            assert(valid_token(alts[k]));
            let y = b.skip(m);
            assert(alts[k] == trim(y));
            assert(b =~= prefix + y);
            assert(y[y.len() - 1] == b[b.len() - 1]);
            lemma_trim_clean_end(y);
            let w = y.take(y.len() - trim(y).len());
            assert(all_ws(w));
            assert(b =~= prefix + w + alts[k] + post);
        }
    }
}

/// Alternatives that begin right where the shared base ends, with `:` or `[`.
proof fn lemma_based_alternatives(bs: Seq<Seq<char>>, base: Seq<char>, t: Seq<char>)
    requires
        forall|k: int| 0 <= k < bs.len() ==> clean_text(#[trigger] bs[k]),
        forall|k: int| 0 <= k < bs.len() ==> starts_with(#[trigger] bs[k], base) && bs[k].len() > base.len()
            && !crate::text::is_ws(bs[k][base.len() as int]),
        t == base + ":is("@ + join(cut_starts(bs, base.len() as int), ", "@) + ")"@,
    ensures
        exists|pre: Seq<char>, alts: Seq<Seq<char>>, post: Seq<char>|
            #[trigger] factored_as(t, pre, alts, post) && alts.len() == bs.len() && forall|k: int|
                0 <= k < bs.len() ==> expands_to(bs[k], pre, #[trigger] alts[k], post),
{
    let m = base.len() as int;
    let alts = cut_starts(bs, m);
    let post = Seq::<char>::empty();
    assert(factored_as(t, base, alts, post)) by {
        assert(t =~= base + ":is("@ + join(alts, ", "@) + ")"@ + post);
    }
    assert forall|k: int| 0 <= k < bs.len() implies expands_to(bs[k], base, #[trigger] alts[k], post) by {
        let b = bs[k];
        let y = b.skip(m);
        assert(alts[k] == trim(y));
        assert(b =~= base + y);
        assert(y[0] == b[m]);
        assert(y[y.len() - 1] == b[b.len() - 1]);
        lemma_clean_trim(y);
        let w = Seq::<char>::empty();
        assert(all_ws(w));
        assert(b =~= base + alts[k] + w + post);
    }
}

proof fn lemma_pseudo_form_expands(bs: Seq<Seq<char>>)
    requires
        bs.len() > 0,
        forall|k: int| 0 <= k < bs.len() ==> clean_text(#[trigger] bs[k]),
    ensures
        pseudo_form(bs) matches Some(t) ==> exists|pre: Seq<char>, alts: Seq<Seq<char>>, post: Seq<char>|
            #[trigger] factored_as(t, pre, alts, post) && alts.len() == bs.len() && forall|k: int|
                0 <= k < bs.len() ==> expands_to(bs[k], pre, #[trigger] alts[k], post),
{
    if let Some(t) = pseudo_form(bs) {
        let c = find(bs[0], seq![':']).unwrap();
        let base = bs[0].take(c);
        assert forall|k: int| 0 <= k < bs.len() implies starts_with(#[trigger] bs[k], base) && bs[k].len() > base.len()
            && !crate::text::is_ws(bs[k][base.len() as int]) by {
            assert(pseudo_alternative(bs[k], base));
            let y = bs[k].skip(base.len() as int);
            assert(starts_with(y, seq![':']));
            assert(y.take(1)[0] == y[0]);
            assert(y[0] == bs[k][base.len() as int]);
        }
        lemma_based_alternatives(bs, base, t);
    }
}

proof fn lemma_attr_form_expands(bs: Seq<Seq<char>>)
    requires
        bs.len() > 0,
        forall|k: int| 0 <= k < bs.len() ==> clean_text(#[trigger] bs[k]),
    ensures
        attr_form(bs) matches Some(t) ==> exists|pre: Seq<char>, alts: Seq<Seq<char>>, post: Seq<char>|
            #[trigger] factored_as(t, pre, alts, post) && alts.len() == bs.len() && forall|k: int|
                0 <= k < bs.len() ==> expands_to(bs[k], pre, #[trigger] alts[k], post),
{
    if let Some(t) = attr_form(bs) {
        let c = find(bs[0], seq!['[']).unwrap();
        let base = bs[0].take(c);
        assert forall|k: int| 0 <= k < bs.len() implies starts_with(#[trigger] bs[k], base) && bs[k].len() > base.len()
            && !crate::text::is_ws(bs[k][base.len() as int]) by {
            assert(attr_alternative(bs[k], base));
            let y = bs[k].skip(base.len() as int);
            assert(starts_with(y, seq!['[']));
            assert(y.take(1)[0] == y[0]);
            assert(y[0] == bs[k][base.len() as int]);
        }
        lemma_based_alternatives(bs, base, t);
    }
}

/// Law (`:is()` factoring): the factored selector is `pre:is(a1, ..., an)post` with one
/// alternative for each alternative of the list, and putting each `ak` back between the shared
/// `pre` and `post` gives that alternative again (up to whitespace where they meet): nothing of
/// the shared base, prefix or suffix is lost. The flag tells whether the alternatives share
/// one specificity.
#[verifier::spinoff_prover]
#[verifier::rlimit(50)]
pub proof fn law_is_factoring_expands_back(s: Seq<char>)
    ensures
        is_factoring(s) matches Some((t, u)) ==> {
            let bs = nonempty(trimmed_parts(s));
            &&& bs.len() >= 2
            &&& u == uniform_specificity(bs)
            &&& exists|pre: Seq<char>, alts: Seq<Seq<char>>, post: Seq<char>|
                #[trigger] factored_as(t, pre, alts, post) && alts.len() == bs.len() && forall|k: int|
                    0 <= k < bs.len() ==> expands_to(bs[k], pre, #[trigger] alts[k], post)
        },
{
    let bs = nonempty(trimmed_parts(s));
    lemma_alternatives_clean(s);
    if let Some((t, u)) = is_factoring(s) {
        assert(bs.len() >= 2);
        if let Some(t1) = suffix_form(bs) {
            lemma_suffix_form_expands(bs);
            assert(t == t1);
        } else if let Some(t2) = prefix_form(bs) {
            lemma_prefix_form_expands(bs);
            assert(t == t2);
        } else if let Some(t3) = pseudo_form(bs) {
            lemma_pseudo_form_expands(bs);
            assert(t == t3);
        } else {
            lemma_attr_form_expands(bs);
            assert(attr_form(bs) == Some(t));
        }
    }
}

} // verus!

verus! {

proof fn lemma_ident_run(s: Seq<char>, k: int)
    requires
        0 <= k <= s.len(),
        forall|j: int| k <= j < s.len() ==> crate::selector::is_ident_char(#[trigger] s[j]),
    ensures
        crate::selector::ident_end(s, k) == s.len(),
    decreases s.len() - k,
{
    if k < s.len() {
        lemma_ident_run(s, k + 1);
    }
}

proof fn lemma_walk_to_end(s: Seq<char>, k: int, in_attr: bool)
    requires
        k >= s.len(),
    ensures
        crate::selector::spec_walk(s, k, in_attr) == crate::selector::zero3(),
{
}

/// A name: identifier characters only, at least one.
pub open spec fn ident_name(n: Seq<char>) -> bool {
    n.len() > 0 && forall|j: int| 0 <= j < n.len() ==> crate::selector::is_ident_char(#[trigger] n[j])
}

/// Inside an attribute selector from `k` on: no `[` or `]` before the closing `]` at the end.
proof fn lemma_attr_run(s: Seq<char>, k: int)
    requires
        0 <= k < s.len(),
        s[s.len() - 1] == ']',
        forall|j: int| k <= j < s.len() - 1 ==> #[trigger] s[j] != '[' && s[j] != ']',
    ensures
        crate::selector::spec_walk(s, k, true) == crate::selector::zero3(),
    decreases s.len() - k,
{
    if k < s.len() - 1 {
        lemma_attr_run(s, k + 1);
    } else {
        lemma_walk_to_end(s, k + 1, false);
    }
}

pub open spec fn one_id() -> crate::selector::Spec3 {
    crate::selector::Spec3 { ids: 1, classes: 0, elements: 0 }
}

pub open spec fn one_class() -> crate::selector::Spec3 {
    crate::selector::Spec3 { ids: 0, classes: 1, elements: 0 }
}

pub open spec fn one_element() -> crate::selector::Spec3 {
    crate::selector::Spec3 { ids: 0, classes: 0, elements: 1 }
}

/// A pseudo-class name written without arguments, other than `where`.
pub open spec fn pseudo_class_name(n: Seq<char>) -> bool {
    &&& forall|j: int| 0 <= j < n.len() ==> crate::selector::is_pseudo_name_char(#[trigger] n[j])
    &&& n != seq!['w', 'h', 'e', 'r', 'e']
}

/// Law (specificity of simple selectors): after a compound `p` with no `[`, `]` or `:`, an id
/// `#n` adds one id, a class `.n`, an attribute selector `[a]` or a pseudo-class `:n` adds
/// one class, and a pseudo-element `::n` adds one element; a type selector `n` alone counts
/// one element.
pub proof fn law_simple_selector_specificity(p: Seq<char>, n: Seq<char>, a: Seq<char>)
    requires
        forall|k: int| 0 <= k < p.len() ==> #[trigger] p[k] != '[' && p[k] != ']' && p[k] != ':',
        ident_name(n),
        forall|j: int| 0 <= j < a.len() ==> #[trigger] a[j] != '[' && a[j] != ']',
    ensures
        specificity(p + seq!['#'] + n) == crate::selector::add3(specificity(p), one_id()),
        specificity(p + seq!['.'] + n) == crate::selector::add3(specificity(p), one_class()),
        specificity(p + seq!['['] + a + seq![']']) == crate::selector::add3(specificity(p), one_class()),
        specificity(p + seq![':', ':'] + n) == crate::selector::add3(specificity(p), one_element()),
        pseudo_class_name(n) ==> specificity(p + seq![':'] + n) == crate::selector::add3(specificity(p), one_class()),
        crate::selector::is_alpha(n[0]) ==> specificity(n) == one_element(),
{
    let m = p.len() as int;
    // #n
    {
        let s = p + seq!['#'] + n;
        assert(s =~= p + (seq!['#'] + n));
        lemma_walk_prefix(p, seq!['#'] + n, 0);
        assert(s[m] == '#');
        assert forall|j: int| m + 1 <= j < s.len() implies crate::selector::is_ident_char(#[trigger] s[j]) by {
            assert(s[j] == n[j - m - 1]);
        }
        lemma_ident_run(s, m + 1);
        lemma_walk_to_end(s, s.len() as int, false);
    }
    // .n
    {
        let s = p + seq!['.'] + n;
        assert(s =~= p + (seq!['.'] + n));
        lemma_walk_prefix(p, seq!['.'] + n, 0);
        assert(s[m] == '.');
        assert forall|j: int| m + 1 <= j < s.len() implies crate::selector::is_ident_char(#[trigger] s[j]) by {
            assert(s[j] == n[j - m - 1]);
        }
        lemma_ident_run(s, m + 1);
        lemma_walk_to_end(s, s.len() as int, false);
    }
    // [a]
    {
        let s = p + seq!['['] + a + seq![']'];
        assert(s =~= p + (seq!['['] + a + seq![']']));
        lemma_walk_prefix(p, seq!['['] + a + seq![']'], 0);
        assert(s[m] == '[');
        assert forall|j: int| m + 1 <= j < s.len() - 1 implies #[trigger] s[j] != '[' && s[j] != ']' by {
            assert(s[j] == a[j - m - 1]);
        }
        lemma_attr_run(s, m + 1);
    }
    // ::n
    {
        let s = p + seq![':', ':'] + n;
        assert(s =~= p + (seq![':', ':'] + n));
        lemma_walk_prefix(p, seq![':', ':'] + n, 0);
        assert(s[m] == ':' && s[m + 1] == ':');
        assert forall|j: int| m + 2 <= j < s.len() implies crate::selector::is_ident_char(#[trigger] s[j]) by {
            assert(s[j] == n[j - m - 2]);
        }
        lemma_ident_run(s, m + 2);
        lemma_walk_to_end(s, s.len() as int, false);
    }
    // :n
    if pseudo_class_name(n) {
        let s = p + seq![':'] + n;
        assert(s =~= p + (seq![':'] + n));
        lemma_walk_prefix(p, seq![':'] + n, 0);
        assert(s[m] == ':');
        assert(s[m + 1] == n[0]);
        assert(n[0] != ':');
        assert forall|j: int| m + 1 <= j < s.len() implies crate::selector::is_pseudo_name_char(#[trigger] s[j]) by {
            assert(s[j] == n[j - m - 1]);
        }
        lemma_pseudo_name_to_end(s, m + 1);
        assert(s.subrange(m + 1, s.len() as int) =~= n);
        crate::selector::lemma_paren_close(s, s.len() as int + 1, 1, None, false);
        lemma_walk_to_end(s, s.len() as int, false);
    }
    // n
    if crate::selector::is_alpha(n[0]) {
        lemma_ident_run(n, 1);
        lemma_walk_to_end(n, n.len() as int, false);
    }
}

proof fn lemma_pseudo_name_to_end(s: Seq<char>, k: int)
    requires
        0 <= k <= s.len(),
        forall|j: int| k <= j < s.len() ==> crate::selector::is_pseudo_name_char(#[trigger] s[j]),
    ensures
        crate::selector::pseudo_name_end(s, k) == s.len(),
    decreases s.len() - k,
{
    if k < s.len() {
        lemma_pseudo_name_to_end(s, k + 1);
    }
}

} // verus!

verus! {

proof fn lemma_ident_end_shift(p: Seq<char>, r: Seq<char>, k: int)
    requires
        0 <= k <= r.len(),
    ensures
        crate::selector::ident_end(p + r, p.len() + k) == p.len() + crate::selector::ident_end(r, k),
    decreases r.len() - k,
{
    let s = p + r;
    if k < r.len() {
        assert(s[p.len() + k] == r[k]);
        if crate::selector::is_ident_char(r[k]) {
            lemma_ident_end_shift(p, r, k + 1);
        }
    }
}

/// The specificity walk over `r` placed after `p` is the walk over `r` alone, where `r` starts
/// with a combinator or whitespace and holds no `[`, `]` or `:`.
proof fn lemma_walk_shift(p: Seq<char>, r: Seq<char>, j: int)
    requires
        0 <= j <= r.len(),
        r.len() > 0,
        crate::selector::is_type_start_boundary(r[0]),
        forall|k: int| 0 <= k < r.len() ==> #[trigger] r[k] != '[' && r[k] != ']' && r[k] != ':',
    ensures
        crate::selector::spec_walk(p + r, p.len() + j, false) == crate::selector::spec_walk(r, j, false),
    decreases r.len() - j,
{
    let s = p + r;
    if j < r.len() {
        let b = r[j];
        assert(s[p.len() + j] == b);
        if j > 0 {
            assert(s[p.len() + j - 1] == r[j - 1]);
        }
        crate::selector::lemma_ident_end(r, j + 1);
        lemma_ident_end_shift(p, r, j + 1);
        if b == '#' || b == '.' || ((crate::selector::is_alpha(b) || b == '*') && (j == 0
            || crate::selector::is_type_start_boundary(r[j - 1]))) {
            lemma_walk_shift(p, r, crate::selector::ident_end(r, j + 1));
        } else {
            lemma_walk_shift(p, r, j + 1);
        }
    }
}

/// Law (specificity across combinators): the specificity of two compounds joined by a
/// combinator or whitespace is the sum of theirs, e.g. `a b` counts two elements and
/// `.a > #b` one class and one id.
pub proof fn law_combined_specificity_adds(p: Seq<char>, r: Seq<char>)
    requires
        forall|k: int| 0 <= k < p.len() ==> #[trigger] p[k] != '[' && p[k] != ']' && p[k] != ':',
        forall|k: int| 0 <= k < r.len() ==> #[trigger] r[k] != '[' && r[k] != ']' && r[k] != ':',
        r.len() > 0,
        crate::selector::is_type_start_boundary(r[0]),
    ensures
        specificity(p + r) == crate::selector::add3(specificity(p), specificity(r)),
{
    assert(!crate::selector::is_ident_char(r[0]));
    lemma_walk_prefix(p, r, 0);
    lemma_walk_shift(p, r, 0);
}

/// The walk copies text in which no `:not(` starts as it stands.
proof fn lemma_walk_copies_plain(s: Seq<char>, i: int, e: int)
    requires
        0 <= i <= e <= s.len(),
        forall|k: int| i <= k < e ==> !#[trigger] matches_at_spec(s, k, not_open()),
    ensures
        not_walk(s, i).0 == s.subrange(i, e) + not_walk(s, e).0,
        not_walk(s, i).1 == not_walk(s, e).1,
    decreases e - i,
{
    if i < e {
        assert(not_chain(s, i) == Seq::<(int, int)>::empty());
        lemma_walk_copies_plain(s, i + 1, e);
        assert(s.subrange(i, e) =~= seq![s[i]] + s.subrange(i + 1, e));
    } else {
        assert(s.subrange(i, e) =~= Seq::<char>::empty());
    }
}

/// Law (`:not()` chains): a lone `:not(a)` is no chain, and nothing is merged.
#[verifier::spinoff_prover]
#[verifier::rlimit(50)]
pub proof fn law_single_not_unchanged(p: Seq<char>, a: Seq<char>, q: Seq<char>)
    requires
        plain_not_arg(a),
        !p.contains(':'),
        !q.contains(':'),
    ensures
        not_consolidation(p + ":not("@ + a + ")"@ + q) is None,
{
    reveal_strlit(":not(");
    reveal_strlit(")");
    let s = p + ":not("@ + a + ")"@ + q;
    let m = p.len() as int;
    assert(s =~= p + not_open() + a + seq![')'] + q);
    let op = m + 4;
    let c = op + 1 + a.len();
    assert(s[op] == '(');
    assert(s[c] == ')');
    assert forall|k: int| 0 <= k < s.len() && k != m implies !#[trigger] matches_at_spec(s, k, not_open()) by {
        if matches_at_spec(s, k, not_open()) {
            let w = s.subrange(k, k + 5);
            assert(w == not_open());
            assert(w[0] == s[k]);
            assert(s[k] == ':');
            if k < m {
                assert(s[k] == p[k]);
                assert(p.contains(':'));
            } else if m < k <= op {
            } else if op < k < c {
                assert(s[k] == a[k - op - 1]);
                if k + 4 < c {
                    assert(w[4] == s[k + 4]);
                    assert(s[k + 4] == a[k + 4 - op - 1]);
                } else {
                    assert(w[c - k] == s[c]);
                }
            } else if k == c {
            } else {
                assert(s[k] == q[k - c - 1]);
                assert(q.contains(':'));
            }
        }
    }
    lemma_walk_copies_plain(s, 0, m);
    let ch = not_chain(s, m);
    assert forall|k: int| op + 1 <= k < c implies #[trigger] s[k] != '(' && s[k] != ')' && !crate::scanner::is_quote(s[k]) by {
        assert(s[k] == a[k - op - 1]);
    }
    lemma_paren_close_plain(s, op + 1, c);
    assert(s.subrange(m, m + 5) =~= not_open());
    assert(matches_at_spec(s, m, not_open()));
    assert(!matches_at_spec(s, c + 1, not_open()));
    assert(not_chain(s, c + 1) == Seq::<(int, int)>::empty());
    assert(ch.len() == 1);
    lemma_walk_copies_plain(s, m + 1, s.len() as int);
    assert(not_walk(s, s.len() as int).1 == false);
}

} // verus!

verus! {

proof fn lemma_media_val_at(s: Seq<char>, feat: Seq<char>, p: int, v: Seq<char>)
    requires
        find(s, feat) == Some(p),
        0 <= p,
        p + feat.len() + v.len() + 2 <= s.len(),
        s.subrange(p + feat.len(), p + feat.len() + v.len() + 2) == seq![' '] + v + seq![')'],
        plain_media_value(v),
    ensures
        media_val(s, feat) == Some(v),
{
    let st = p + feat.len();
    let t = s.skip(st);
    let e: int = v.len() as int + 1;
    assert(t[e] == ')') by {
        assert(t[e] == s[st + e]);
        assert(s.subrange(st, st + v.len() + 2)[e] == s[st + e]);
    }
    assert(t.subrange(e, e + 1) =~= seq![')']);
    assert forall|j: int| 0 <= j < e implies !crate::text::matches_at(t, j, seq![')']) by {
        if crate::text::matches_at(t, j, seq![')']) {
            assert(t.subrange(j, j + 1)[0] == t[j]);
            assert(t[j] == s[st + j]);
            assert(s.subrange(st, st + v.len() + 2)[j] == s[st + j]);
            if j > 0 {
                assert(s[st + j] == v[j - 1]);
                assert(v.contains(')'));
            }
        }
    }
    crate::text::lemma_find_at(t, seq![')'], e);
    assert(s.subrange(st, st + e) =~= seq![' '] + v) by {
        assert forall|k: int| 0 <= k < e implies s.subrange(st, st + e)[k] == (seq![' '] + v)[k] by {
            assert(s.subrange(st, st + v.len() + 2)[k] == s[st + k]);
        }
    }
    lemma_trim_after_space(v);
}

/// Law (media range syntax): a lower and an upper width bound written one after the other
/// become one range, `(min-width: a) and (max-width: b)` is `(a <= width <= b)`.
#[verifier::spinoff_prover]
#[verifier::rlimit(50)]
pub proof fn law_media_width_range(a: Seq<char>, b: Seq<char>)
    requires
        plain_media_value(a),
        plain_media_value(b),
    ensures
        media_modernization("(min-width: "@ + a + ") and (max-width: "@ + b + ")"@) == Some(
            "("@ + a + " <= width <= "@ + b + ")"@,
        ),
{
    lemma_media_literals();
    reveal_strlit(") and (max-width: ");
    reveal_strlit("(");
    reveal_strlit(" <= width <= ");
    let mw = seq!['m', 'i', 'n', '-', 'w', 'i', 'd', 't', 'h'];
    let xw = seq!['m', 'a', 'x', '-', 'w', 'i', 'd', 't', 'h'];
    let s = "(min-width: "@ + a + ") and (max-width: "@ + b + ")"@;
    let la = a.len() as int;
    let mx = 19 + la;
    let c2 = mx + 9;
    assert(s =~= seq!['('] + mw + seq![':', ' '] + a + seq![')', ' ', 'a', 'n', 'd', ' ', '('] + xw + seq![':', ' '] + b
        + seq![')']);
    // where the colons stand
    assert forall|k: int| 0 <= k < s.len() && k != 10 && k != c2 implies s[k] != ':' by {
        if 12 <= k < 12 + la {
            assert(s[k] == a[k - 12]);
            if a[k - 12] == ':' {
                assert(a.contains(':'));
            }
        } else if c2 + 2 <= k < c2 + 2 + b.len() {
            assert(s[k] == b[k - c2 - 2]);
            if b[k - c2 - 2] == ':' {
                assert(b.contains(':'));
            }
        }
    }
    let pm = "min-width:"@;
    let px = "max-width:"@;
    assert(s.subrange(1, 11) =~= pm);
    assert(!crate::text::matches_at(s, 0, pm)) by {
        if crate::text::matches_at(s, 0, pm) {
            assert(s.subrange(0, 10)[0] == s[0]);
        }
    }
    crate::text::lemma_find_at(s, pm, 1);
    assert(s.subrange(mx, mx + 10) =~= px);
    assert forall|j: int| 0 <= j < mx implies !crate::text::matches_at(s, j, px) by {
        if crate::text::matches_at(s, j, px) {
            let w = s.subrange(j, j + 10);
            assert(w[9] == s[j + 9]);
            assert(j + 9 == 10 || j + 9 == c2);
            assert(w[1] == s[j + 1]);
        }
    }
    crate::text::lemma_find_at(s, px, mx);
    assert(s.subrange(11, 11 + la + 2) =~= seq![' '] + a + seq![')']);
    lemma_media_val_at(s, pm, 1, a);
    assert(s.subrange(mx + 10, mx + 10 + b.len() + 2) =~= seq![' '] + b + seq![')']);
    lemma_media_val_at(s, px, mx, b);
    let pat = "(min-width: "@ + a + ") and (max-width: "@ + b + ")"@;
    let rep = "("@ + a + " <= width <= "@ + b + ")"@;
    assert(s.subrange(0, s.len() as int) =~= s);
    crate::text::lemma_find_at(s, s, 0);
    assert(contains(s, pat));
    assert(crate::text::replace(s.skip(s.len() as int), s, rep) == Seq::<char>::empty());
    assert(s.take(0) + rep + s.skip(s.len() as int) =~= rep);
    assert(crate::text::replace(s, pat, rep) =~= rep);
    assert(range_step(s) == (rep, true));
    assert(!rep.contains(':')) by {
        if rep.contains(':') {
            let k = choose|k: int| 0 <= k < rep.len() && rep[k] == ':';
            assert(rep =~= seq!['('] + a + seq![' ', '<', '=', ' ', 'w', 'i', 'd', 't', 'h', ' ', '<', '=', ' '] + b
                + seq![')']);
            if 1 <= k < 1 + la {
                assert(a[k - 1] == ':');
                assert(a.contains(':'));
            } else if 14 + la <= k < 14 + la + b.len() {
                assert(b[k - 14 - la] == ':');
                assert(b.contains(':'));
            }
        }
    }
    lemma_colon_free_find(rep, "min-width:"@);
    lemma_colon_free_find(rep, "max-width:"@);
    lemma_colon_free_find(rep, "min-height:"@);
    lemma_colon_free_find(rep, "max-height:"@);
}

} // verus!

verus! {

proof fn lemma_scan_no_comma(s: Seq<char>, i: int, parens: nat, brackets: nat, quote: Option<char>, escaped: bool)
    requires
        forall|k: int| i <= k < s.len() ==> #[trigger] s[k] != ',',
    ensures
        crate::selector::comma_scan(s, i, parens, brackets, quote, escaped) == Seq::<int>::empty(),
    decreases s.len() - i,
{
    if 0 <= i < s.len() {
        let b = s[i];
        match quote {
            Some(q) => {
                if escaped {
                    lemma_scan_no_comma(s, i + 1, parens, brackets, quote, false);
                } else if b == '\\' {
                    lemma_scan_no_comma(s, i + 1, parens, brackets, quote, true);
                } else if b == q {
                    lemma_scan_no_comma(s, i + 1, parens, brackets, None, escaped);
                } else {
                    lemma_scan_no_comma(s, i + 1, parens, brackets, quote, escaped);
                }
            },
            None => {
                if crate::scanner::is_quote(b) {
                    lemma_scan_no_comma(s, i + 1, parens, brackets, Some(b), escaped);
                } else if b == '(' {
                    lemma_scan_no_comma(s, i + 1, parens + 1, brackets, quote, escaped);
                } else if b == ')' {
                    lemma_scan_no_comma(s, i + 1, crate::selector::dec(parens), brackets, quote, escaped);
                } else if b == '[' {
                    lemma_scan_no_comma(s, i + 1, parens, brackets + 1, quote, escaped);
                } else if b == ']' {
                    lemma_scan_no_comma(s, i + 1, parens, crate::selector::dec(brackets), quote, escaped);
                } else {
                    lemma_scan_no_comma(s, i + 1, parens, brackets, quote, escaped);
                }
            },
        }
    }
}

/// Text that changes nothing in the comma scan: no comma, bracket, parenthesis or quote.
pub open spec fn scan_neutral(c: char) -> bool {
    c != ',' && c != '(' && c != ')' && c != '[' && c != ']' && !crate::scanner::is_quote(c)
}

proof fn lemma_scan_skip(s: Seq<char>, i: int, e: int, brackets: nat)
    requires
        0 <= i <= e <= s.len(),
        forall|k: int| i <= k < e ==> scan_neutral(#[trigger] s[k]),
    ensures
        crate::selector::comma_scan(s, i, 0, brackets, None, false) == crate::selector::comma_scan(s, e, 0, brackets, None, false),
    decreases e - i,
{
    if i < e {
        lemma_scan_skip(s, i + 1, e, brackets);
    }
}

/// A base selector: a name of identifier characters.
pub open spec fn base_name(b: Seq<char>) -> bool {
    b.len() > 0 && forall|k: int| 0 <= k < b.len() ==> crate::selector::is_ident_char(#[trigger] b[k])
}

/// The inside of an attribute selector that `:is()` factoring can move: no brackets, commas,
/// parentheses, quotes, spaces or colons.
pub open spec fn attr_inside(a: Seq<char>) -> bool {
    forall|k: int| 0 <= k < a.len() ==> scan_neutral(#[trigger] a[k]) && a[k] != ' ' && a[k] != ':'
}

proof fn lemma_no_char_find(s: Seq<char>, c: char)
    requires
        forall|k: int| 0 <= k < s.len() ==> #[trigger] s[k] != c,
    ensures
        find(s, seq![c]) is None,
        !contains(s, seq![c]),
{
    assert forall|j: int| 0 <= j implies !crate::text::matches_at(s, j, seq![c]) by {
        if crate::text::matches_at(s, j, seq![c]) {
            assert(s.subrange(j, j + 1)[0] == s[j]);
        }
    }
    crate::text::lemma_find_none(s, seq![c]);
}

/// The one top-level comma of `b[x], b[y]`.
#[verifier::spinoff_prover]
#[verifier::rlimit(50)]
proof fn lemma_attr_pair_commas(b: Seq<char>, a1: Seq<char>, a2: Seq<char>)
    requires
        base_name(b),
        attr_inside(a1),
        attr_inside(a2),
    ensures
        ({
            let p1 = b + (seq!['['] + a1 + seq![']']);
            let p2 = b + (seq!['['] + a2 + seq![']']);
            let s = p1 + seq![',', ' '] + p2;
            crate::selector::comma_parts(s) == seq![(0int, p1.len() as int), (p1.len() as int + 1, s.len() as int)]
        }),
{
    let x1 = seq!['['] + a1 + seq![']'];
    let x2 = seq!['['] + a2 + seq![']'];
    let p1 = b + x1;
    let p2 = b + x2;
    let s = p1 + seq![',', ' '] + p2;
    assert(s =~= b + seq!['['] + a1 + seq![']'] + seq![',', ' '] + b + seq!['['] + a2 + seq![']']);
    let lb = b.len() as int;
    let pos = p1.len() as int;
    // the one top-level comma
    assert forall|k: int| 0 <= k < lb implies scan_neutral(#[trigger] s[k]) by {
        assert(s[k] == b[k]);
        assert(crate::selector::is_ident_char(b[k]));
    }
    lemma_scan_skip(s, 0, lb, 0);
    assert(s[lb] == '[');
    assert forall|k: int| lb + 1 <= k < pos - 1 implies scan_neutral(#[trigger] s[k]) by {
        assert(s[k] == a1[k - lb - 1]);
    }
    lemma_scan_skip(s, lb + 1, pos - 1, 1);
    assert(s[pos - 1] == ']');
    assert(s[pos] == ',');
    assert forall|k: int| pos + 1 <= k < s.len() implies #[trigger] s[k] != ',' by {
        if pos + 2 <= k < pos + 2 + lb {
            assert(s[k] == b[k - pos - 2]);
            assert(crate::selector::is_ident_char(b[k - pos - 2]));
        } else if pos + 2 + lb < k < s.len() - 1 {
            assert(s[k] == a2[k - pos - 3 - lb]);
            assert(scan_neutral(a2[k - pos - 3 - lb]));
        }
    }
    lemma_scan_no_comma(s, pos + 1, 0, 0, None, false);
    assert(!crate::scanner::is_quote(s[pos]));
    assert(crate::selector::comma_scan(s, pos, 0, 0, None, false) == seq![pos] + crate::selector::comma_scan(s, pos + 1, 0, 0, None, false));
    assert(!crate::scanner::is_quote(s[pos - 1]));
    assert(crate::selector::dec(1) == 0);
    assert(crate::selector::comma_scan(s, pos - 1, 0, 1, None, false) == crate::selector::comma_scan(s, pos, 0, 0, None, false));
    assert(!crate::scanner::is_quote(s[lb]));
    assert(crate::selector::comma_scan(s, lb, 0, 0, None, false) == crate::selector::comma_scan(s, lb + 1, 0, 1, None, false));
    assert(crate::selector::top_commas(s) =~= seq![pos]);
    assert(crate::selector::comma_parts(s) =~= seq![(0int, pos), (pos + 1, s.len() as int)]) by {
        let cs = seq![pos];
        let len = s.len() as int;
        assert(cs.drop_first() =~= Seq::<int>::empty());
        assert(crate::selector::pieces(Seq::<int>::empty(), pos + 1, len) == seq![(pos + 1, len)]);
        assert(crate::selector::pieces(cs, 0, len) == seq![(0int, cs[0])] + crate::selector::pieces(cs.drop_first(), cs[0] + 1, len));
        assert(crate::selector::top_commas(s) == cs);
    }
}

/// The alternatives of `b[x], b[y]`.
#[verifier::spinoff_prover]
#[verifier::rlimit(50)]
proof fn lemma_attr_pair_parts(b: Seq<char>, a1: Seq<char>, a2: Seq<char>)
    requires
        base_name(b),
        attr_inside(a1),
        attr_inside(a2),
    ensures
        nonempty(trimmed_parts(b + seq!['['] + a1 + seq![']'] + seq![',', ' '] + b + seq!['['] + a2 + seq![']'])) == seq![
            b + seq!['['] + a1 + seq![']'],
            b + seq!['['] + a2 + seq![']'],
        ],
{
    let x1 = seq!['['] + a1 + seq![']'];
    let x2 = seq!['['] + a2 + seq![']'];
    let p1 = b + x1;
    let p2 = b + x2;
    let s = p1 + seq![',', ' '] + p2;
    assert(s =~= b + seq!['['] + a1 + seq![']'] + seq![',', ' '] + b + seq!['['] + a2 + seq![']']);
    let lb = b.len() as int;
    let pos = p1.len() as int;
    lemma_attr_pair_commas(b, a1, a2);
    assert(s.subrange(0, pos) =~= p1);
    assert(s.subrange(pos + 1, s.len() as int) =~= seq![' '] + p2);
    assert(split_commas(s) =~= seq![p1, seq![' '] + p2]);
    // trimming
    assert(clean_text(p1)) by {
        assert(p1[0] == b[0]);
        assert(crate::selector::is_ident_char(b[0]));
    }
    lemma_clean_trim(p1);
    assert(clean_text(p2)) by {
        assert(p2[0] == b[0]);
        assert(crate::selector::is_ident_char(b[0]));
    }
    lemma_clean_trim(p2);
    crate::text::lemma_lead_ws_at(seq![' '] + p2, 1);
    assert(crate::text::trim_start(seq![' '] + p2) =~= p2);
    crate::text::lemma_trail_ws_at(p2, 0);
    assert(trim(seq![' '] + p2) =~= p2);
    assert(trimmed_parts(s) =~= seq![p1, p2]);
    let bs = seq![p1, p2];
    assert(nonempty(bs) =~= bs) by {
        assert(bs.drop_last() =~= seq![p1]);
        assert(seq![p1].drop_last() =~= Seq::<Seq<char>>::empty());
        assert(nonempty(Seq::<Seq<char>>::empty()) == Seq::<Seq<char>>::empty());
        assert(seq![p1].last() == p1 && p1.len() > 0);
        assert(nonempty(seq![p1]) == nonempty(Seq::<Seq<char>>::empty()).push(p1));
        assert(nonempty(seq![p1]) =~= seq![p1]);
        assert(bs.last() == p2 && p2.len() > 0);
        assert(nonempty(bs) == nonempty(seq![p1]).push(p2));
    }
    assert(p1 =~= b + seq!['['] + a1 + seq![']']);
    assert(p2 =~= b + seq!['['] + a2 + seq![']']);
}

/// The `:is()` factoring of the alternatives `b[x]` and `b[y]`.
proof fn lemma_attr_pair_form(b: Seq<char>, a1: Seq<char>, a2: Seq<char>)
    requires
        base_name(b),
        attr_inside(a1),
        attr_inside(a2),
    ensures
        ({
            let x1 = seq!['['] + a1 + seq![']'];
            let x2 = seq!['['] + a2 + seq![']'];
            let bs = seq![b + x1, b + x2];
            &&& !any_double_colon(bs)
            &&& suffix_form(bs) is None
            &&& prefix_form(bs) is None
            &&& pseudo_form(bs) is None
            &&& attr_form(bs) == Some(b + ":is("@ + x1 + ", "@ + x2 + ")"@)
        }),
{
    let x1 = seq!['['] + a1 + seq![']'];
    let x2 = seq!['['] + a2 + seq![']'];
    let p1 = b + x1;
    let p2 = b + x2;
    let bs = seq![p1, p2];
    let lb = b.len() as int;
    let pos = p1.len() as int;
    // no other form applies
    assert forall|k: int| 0 <= k < p1.len() implies #[trigger] p1[k] != ':' && p1[k] != ' ' by {
        if k < lb {
            assert(p1[k] == b[k]);
            assert(crate::selector::is_ident_char(b[k]));
        } else if lb < k < pos - 1 {
            assert(p1[k] == a1[k - lb - 1]);
        }
    }
    assert forall|k: int| 0 <= k < p2.len() implies #[trigger] p2[k] != ':' && p2[k] != ' ' by {
        if k < lb {
            assert(p2[k] == b[k]);
            assert(crate::selector::is_ident_char(b[k]));
        } else if lb < k < p2.len() - 1 {
            assert(p2[k] == a2[k - lb - 1]);
        }
    }
    assert(!p1.contains(':')) by {
        if p1.contains(':') {
            let k = choose|k: int| 0 <= k < p1.len() && p1[k] == ':';
        }
    }
    assert(!p2.contains(':')) by {
        if p2.contains(':') {
            let k = choose|k: int| 0 <= k < p2.len() && p2[k] == ':';
        }
    }
    lemma_colon_free_find(p1, seq![':', ':']);
    lemma_colon_free_find(p2, seq![':', ':']);
    assert(!any_double_colon(bs)) by {
        if any_double_colon(bs) {
            let k = choose|k: int| 0 <= k < bs.len() && contains(#[trigger] bs[k], seq![':', ':']);
            assert(k == 0 || k == 1);
        }
    }
    crate::text::lemma_rfind_char_at(p1, ' ', -1);
    assert(suffix_form(bs) is None);
    assert(prefix_form(bs) is None);
    lemma_no_char_find(p1, ':');
    assert(pseudo_form(bs) is None);
    // the attribute form
    assert(p1.subrange(lb, lb + 1) =~= seq!['[']);
    assert forall|j: int| 0 <= j < lb implies !crate::text::matches_at(p1, j, seq!['[']) by {
        if crate::text::matches_at(p1, j, seq!['[']) {
            assert(p1.subrange(j, j + 1)[0] == p1[j]);
            assert(p1[j] == b[j]);
            assert(crate::selector::is_ident_char(b[j]));
        }
    }
    crate::text::lemma_find_at(p1, seq!['['], lb);
    assert(p1.take(lb) =~= b);
    assert forall|k: int| 0 <= k < b.len() implies #[trigger] b[k] != ' ' by {
        assert(crate::selector::is_ident_char(b[k]));
    }
    lemma_no_char_find(b, ' ');
    assert(p1.skip(lb) =~= x1);
    assert(p2.skip(lb) =~= x2);
    assert(p1.take(lb) =~= b && p2.take(lb) =~= b);
    assert(clean_text(x1) && clean_text(x2));
    lemma_clean_trim(x1);
    lemma_clean_trim(x2);
    let ps = cut_starts(bs, lb);
    assert(ps =~= seq![x1, x2]);
    assert(x1.take(1) =~= seq!['['] && x2.take(1) =~= seq!['[']);
    assert(x1.skip(x1.len() - 1) =~= seq![']'] && x2.skip(x2.len() - 1) =~= seq![']']);
    assert(attr_alternative(bs[0], b) && attr_alternative(bs[1], b));
    assert(bracketed(ps[0]) && bracketed(ps[1]));
    assert(join(ps, ", "@) =~= x1 + ", "@ + x2) by {
        assert(ps.drop_last() =~= seq![x1]);
        assert(join(seq![x1], ", "@) == x1);
        assert(ps.last() == x2);
        assert(join(ps, ", "@) == join(ps.drop_last(), ", "@) + ", "@ + ps.last());
    }
    assert(attr_form(bs) == Some(b + ":is("@ + join(ps, ", "@) + ")"@));
    assert(b + ":is("@ + join(ps, ", "@) + ")"@ =~= b + ":is("@ + x1 + ", "@ + x2 + ")"@);
}

/// Law (`:is()` factoring of attribute alternatives): two alternatives that put different
/// attribute selectors on one base are factored, the base kept in front:
/// `b[x], b[y]` becomes `b:is([x], [y])`.
pub proof fn law_attribute_alternatives_factored(b: Seq<char>, a1: Seq<char>, a2: Seq<char>)
    requires
        base_name(b),
        attr_inside(a1),
        attr_inside(a2),
    ensures
        is_factoring(b + seq!['['] + a1 + seq![']'] + seq![',', ' '] + b + seq!['['] + a2 + seq![']']) == Some(
            (
                b + ":is("@ + (seq!['['] + a1 + seq![']']) + ", "@ + (seq!['['] + a2 + seq![']']) + ")"@,
                uniform_specificity(seq![b + seq!['['] + a1 + seq![']'], b + seq!['['] + a2 + seq![']']]),
            ),
        ),
{
    lemma_attr_pair_parts(b, a1, a2);
    lemma_attr_pair_form(b, a1, a2);
    let x1 = seq!['['] + a1 + seq![']'];
    let x2 = seq!['['] + a2 + seq![']'];
    assert(b + x1 =~= b + seq!['['] + a1 + seq![']']);
    assert(b + x2 =~= b + seq!['['] + a2 + seq![']']);
    let bs = seq![b + x1, b + x2];
    assert(bs.len() >= 2);
}

} // verus!

verus! {

/// A pseudo-class name written without arguments.
pub open spec fn pseudo_tail(n: Seq<char>) -> bool {
    n.len() > 0 && forall|k: int| 0 <= k < n.len() ==> crate::selector::is_pseudo_name_char(#[trigger] n[k])
}

/// The one top-level comma of `b:x, b:y`.
#[verifier::spinoff_prover]
#[verifier::rlimit(50)]
proof fn lemma_pseudo_pair_commas(b: Seq<char>, n1: Seq<char>, n2: Seq<char>)
    requires
        base_name(b),
        pseudo_tail(n1),
        pseudo_tail(n2),
    ensures
        ({
            let p1 = b + (seq![':'] + n1);
            let p2 = b + (seq![':'] + n2);
            let s = p1 + seq![',', ' '] + p2;
            crate::selector::comma_parts(s) == seq![(0int, p1.len() as int), (p1.len() as int + 1, s.len() as int)]
        }),
{
    let p1 = b + (seq![':'] + n1);
    let p2 = b + (seq![':'] + n2);
    let s = p1 + seq![',', ' '] + p2;
    let lb = b.len() as int;
    let pos = p1.len() as int;
    assert forall|k: int| 0 <= k < pos implies scan_neutral(#[trigger] s[k]) by {
        if k < lb {
            assert(s[k] == b[k]);
            assert(crate::selector::is_ident_char(b[k]));
        } else if k > lb {
            assert(s[k] == n1[k - lb - 1]);
            assert(crate::selector::is_pseudo_name_char(n1[k - lb - 1]));
        }
    }
    lemma_scan_skip(s, 0, pos, 0);
    assert(s[pos] == ',');
    assert forall|k: int| pos + 1 <= k < s.len() implies #[trigger] s[k] != ',' by {
        if pos + 2 <= k < pos + 2 + lb {
            assert(s[k] == b[k - pos - 2]);
            assert(crate::selector::is_ident_char(b[k - pos - 2]));
        } else if pos + 2 + lb < k {
            assert(s[k] == n2[k - pos - 3 - lb]);
            assert(crate::selector::is_pseudo_name_char(n2[k - pos - 3 - lb]));
        }
    }
    lemma_scan_no_comma(s, pos + 1, 0, 0, None, false);
    assert(!crate::scanner::is_quote(s[pos]));
    assert(crate::selector::comma_scan(s, pos, 0, 0, None, false) == seq![pos] + crate::selector::comma_scan(s, pos + 1, 0, 0, None, false));
    assert(crate::selector::top_commas(s) =~= seq![pos]);
    let cs = seq![pos];
    let len = s.len() as int;
    assert(cs.drop_first() =~= Seq::<int>::empty());
    assert(crate::selector::pieces(Seq::<int>::empty(), pos + 1, len) == seq![(pos + 1, len)]);
    assert(crate::selector::pieces(cs, 0, len) == seq![(0int, cs[0])] + crate::selector::pieces(cs.drop_first(), cs[0] + 1, len));
    assert(crate::selector::comma_parts(s) =~= seq![(0int, pos), (pos + 1, len)]);
}

/// The alternatives of `b:x, b:y`.
#[verifier::spinoff_prover]
#[verifier::rlimit(50)]
proof fn lemma_pseudo_pair_parts(b: Seq<char>, n1: Seq<char>, n2: Seq<char>)
    requires
        base_name(b),
        pseudo_tail(n1),
        pseudo_tail(n2),
    ensures
        nonempty(trimmed_parts(b + (seq![':'] + n1) + seq![',', ' '] + b + (seq![':'] + n2))) == seq![
            b + (seq![':'] + n1),
            b + (seq![':'] + n2),
        ],
{
    let p1 = b + (seq![':'] + n1);
    let p2 = b + (seq![':'] + n2);
    let s = p1 + seq![',', ' '] + p2;
    assert(s =~= b + (seq![':'] + n1) + seq![',', ' '] + b + (seq![':'] + n2));
    let pos = p1.len() as int;
    lemma_pseudo_pair_commas(b, n1, n2);
    assert(s.subrange(0, pos) =~= p1);
    assert(s.subrange(pos + 1, s.len() as int) =~= seq![' '] + p2);
    assert(split_commas(s) =~= seq![p1, seq![' '] + p2]);
    assert(clean_text(p1)) by {
        assert(p1[0] == b[0]);
        assert(crate::selector::is_ident_char(b[0]));
        assert(p1[p1.len() - 1] == n1[n1.len() - 1]);
        assert(crate::selector::is_pseudo_name_char(n1[n1.len() - 1]));
    }
    lemma_clean_trim(p1);
    assert(clean_text(p2)) by {
        assert(p2[0] == b[0]);
        assert(crate::selector::is_ident_char(b[0]));
        assert(p2[p2.len() - 1] == n2[n2.len() - 1]);
        assert(crate::selector::is_pseudo_name_char(n2[n2.len() - 1]));
    }
    lemma_clean_trim(p2);
    crate::text::lemma_lead_ws_at(seq![' '] + p2, 1);
    assert(crate::text::trim_start(seq![' '] + p2) =~= p2);
    crate::text::lemma_trail_ws_at(p2, 0);
    assert(trim(seq![' '] + p2) =~= p2);
    assert(trimmed_parts(s) =~= seq![p1, p2]);
    let bs = seq![p1, p2];
    assert(nonempty(bs) =~= bs) by {
        assert(bs.drop_last() =~= seq![p1]);
        assert(seq![p1].drop_last() =~= Seq::<Seq<char>>::empty());
        assert(nonempty(Seq::<Seq<char>>::empty()) == Seq::<Seq<char>>::empty());
        assert(seq![p1].last() == p1 && p1.len() > 0);
        assert(nonempty(seq![p1]) == nonempty(Seq::<Seq<char>>::empty()).push(p1));
        assert(nonempty(seq![p1]) =~= seq![p1]);
        assert(bs.last() == p2 && p2.len() > 0);
        assert(nonempty(bs) == nonempty(seq![p1]).push(p2));
    }
}

proof fn lemma_pseudo_alt(b: Seq<char>, n: Seq<char>)
    requires
        base_name(b),
        pseudo_tail(n),
    ensures
        ({
            let x = seq![':'] + n;
            let p = b + x;
            &&& find(p, seq![':']) == Some(b.len() as int)
            &&& p.take(b.len() as int) == b
            &&& p.skip(b.len() as int) == x
            &&& trim(x) == x
            &&& pseudo_alternative(p, b)
            &&& simple_pseudo(x)
            &&& !contains(p, seq![':', ':'])
            &&& rfind_char(p, ' ') is None
        }),
{
    let x = seq![':'] + n;
    let p = b + x;
    let lb = b.len() as int;
    assert forall|k: int| 0 <= k < p.len() && k != lb implies p[k] != ':' && p[k] != ' ' by {
        if k < lb {
            assert(p[k] == b[k]);
            assert(crate::selector::is_ident_char(b[k]));
        } else {
            assert(p[k] == n[k - lb - 1]);
            assert(crate::selector::is_pseudo_name_char(n[k - lb - 1]));
        }
    }
    assert(p[lb] == ':');
    assert(p.subrange(lb, lb + 1) =~= seq![':']);
    assert forall|j: int| 0 <= j < lb implies !crate::text::matches_at(p, j, seq![':']) by {
        if crate::text::matches_at(p, j, seq![':']) {
            assert(p.subrange(j, j + 1)[0] == p[j]);
        }
    }
    crate::text::lemma_find_at(p, seq![':'], lb);
    assert(p.take(lb) =~= b);
    assert(p.skip(lb) =~= x);
    assert(clean_text(x)) by {
        assert(x[x.len() - 1] == n[n.len() - 1]);
        assert(crate::selector::is_pseudo_name_char(n[n.len() - 1]));
    }
    lemma_clean_trim(x);
    assert(x.take(1) =~= seq![':']);
    assert(x[1] == n[0]);
    assert(crate::selector::is_pseudo_name_char(n[0]));
    assert(x.take(2) != seq![':', ':']) by {
        assert(x.take(2)[1] == x[1]);
    }
    assert forall|k: int| 0 <= k < x.len() implies #[trigger] x[k] != ' ' by {
        if k > 0 {
            assert(x[k] == n[k - 1]);
            assert(crate::selector::is_pseudo_name_char(n[k - 1]));
        }
    }
    lemma_no_char_find(x, ' ');
    assert(pseudo_alternative(p, b));
    assert(simple_pseudo(x));
    assert(!crate::text::matches_at(p, lb - 1, seq![':', ':'])) by {
        if crate::text::matches_at(p, lb - 1, seq![':', ':']) {
            assert(p.subrange(lb - 1, lb + 1)[0] == p[lb - 1]);
        }
    }
    lemma_find_colon_only_at(p, lb, seq![':', ':']);
    crate::text::lemma_rfind_char_at(p, ' ', -1);
}

/// The `:is()` factoring of the alternatives `b:x` and `b:y`.
#[verifier::spinoff_prover]
#[verifier::rlimit(50)]
proof fn lemma_pseudo_pair_form(b: Seq<char>, n1: Seq<char>, n2: Seq<char>)
    requires
        base_name(b),
        pseudo_tail(n1),
        pseudo_tail(n2),
    ensures
        ({
            let x1 = seq![':'] + n1;
            let x2 = seq![':'] + n2;
            let bs = seq![b + x1, b + x2];
            &&& !any_double_colon(bs)
            &&& suffix_form(bs) is None
            &&& prefix_form(bs) is None
            &&& pseudo_form(bs) == Some(b + ":is("@ + x1 + ", "@ + x2 + ")"@)
        }),
{
    let x1 = seq![':'] + n1;
    let x2 = seq![':'] + n2;
    let p1 = b + x1;
    let p2 = b + x2;
    let bs = seq![p1, p2];
    let lb = b.len() as int;
    lemma_pseudo_alt(b, n1);
    lemma_pseudo_alt(b, n2);
    assert(!any_double_colon(bs)) by {
        if any_double_colon(bs) {
            let k = choose|k: int| 0 <= k < bs.len() && contains(#[trigger] bs[k], seq![':', ':']);
            assert(k == 0 || k == 1);
        }
    }
    assert(suffix_form(bs) is None);
    assert(prefix_form(bs) is None);
    assert forall|k: int| 0 <= k < b.len() implies #[trigger] b[k] != ' ' by {
        assert(crate::selector::is_ident_char(b[k]));
    }
    lemma_no_char_find(b, ' ');
    let ps = cut_starts(bs, lb);
    assert(ps =~= seq![x1, x2]);
    assert(join(ps, ", "@) =~= x1 + ", "@ + x2) by {
        assert(ps.drop_last() =~= seq![x1]);
        assert(join(seq![x1], ", "@) == x1);
        assert(ps.last() == x2);
        assert(join(ps, ", "@) == join(ps.drop_last(), ", "@) + ", "@ + ps.last());
    }
    assert(forall|k: int| 0 <= k < bs.len() ==> pseudo_alternative(#[trigger] bs[k], b)) by {
        assert forall|k: int| 0 <= k < bs.len() implies pseudo_alternative(#[trigger] bs[k], b) by {
            assert(k == 0 || k == 1);
        }
    }
    assert(forall|k: int| 0 <= k < ps.len() ==> simple_pseudo(#[trigger] ps[k])) by {
        assert forall|k: int| 0 <= k < ps.len() implies simple_pseudo(#[trigger] ps[k]) by {
            assert(k == 0 || k == 1);
        }
    }
    assert(pseudo_form(bs) == Some(b + ":is("@ + join(ps, ", "@) + ")"@));
    assert(b + ":is("@ + join(ps, ", "@) + ")"@ =~= b + ":is("@ + x1 + ", "@ + x2 + ")"@);
}

/// Law (`:is()` factoring of pseudo-class alternatives): two alternatives that put different
/// pseudo-classes on one base are factored, the base kept in front: `b:x, b:y` becomes
/// `b:is(:x, :y)`.
pub proof fn law_pseudo_alternatives_factored(b: Seq<char>, n1: Seq<char>, n2: Seq<char>)
    requires
        base_name(b),
        pseudo_tail(n1),
        pseudo_tail(n2),
    ensures
        is_factoring(b + (seq![':'] + n1) + seq![',', ' '] + b + (seq![':'] + n2)) == Some(
            (
                b + ":is("@ + (seq![':'] + n1) + ", "@ + (seq![':'] + n2) + ")"@,
                uniform_specificity(seq![b + (seq![':'] + n1), b + (seq![':'] + n2)]),
            ),
        ),
{
    lemma_pseudo_pair_parts(b, n1, n2);
    lemma_pseudo_pair_form(b, n1, n2);
}

} // verus!
