use vstd::prelude::*;
use vstd::std_specs::iter::IteratorSpec;

verus! {

/// `String::push` appends one character to the end of a string.
pub assume_specification[ String::push ](s: &mut String, ch: char)
    ensures
        final(s)@ == old(s)@.push(ch),
;

/// The characters of a string slice, in order.
pub fn chars_of(s: &str) -> (v: Vec<char>)
    ensures
        v@ == s@,
{
    let mut v: Vec<char> = Vec::new();
    for c in it: s.chars()
        invariant
            v@ == it.seq().take(it.index() as int),
            it.seq() == s@,
    {
        v.push(c);
    }
    v
}

/// Builds a string holding exactly the given characters.
pub fn string_of(v: &[char]) -> (s: String)
    ensures
        s@ == v@,
{
    let mut s = String::new();
    let mut i: usize = 0;
    while i < v.len()
        invariant
            i <= v.len(),
            s@ == v@.take(i as int),
        decreases v.len() - i,
    {
        s.push(v[i]);
        i = i + 1;
        assert(s@ == v@.take(i as int));
    }
    assert(v@.take(v.len() as int) == v@);
    s
}

} // verus!

verus! {

/// ASCII whitespace as `u8::is_ascii_whitespace` sees it (space, tab, LF, FF, CR).
pub open spec fn is_ascii_ws(c: char) -> bool {
    c == ' ' || c == '\t' || c == '\n' || c == '\x0C' || c == '\r'
}

/// Unicode `White_Space`, as `char::is_whitespace` (and hence `str::trim`) sees it.
pub open spec fn is_ws(c: char) -> bool {
    ||| ('\t' <= c && c <= '\r')
    ||| c == ' '
    ||| c == '\u{85}'
    ||| c == '\u{A0}'
    ||| c == '\u{1680}'
    ||| ('\u{2000}' <= c && c <= '\u{200A}')
    ||| c == '\u{2028}'
    ||| c == '\u{2029}'
    ||| c == '\u{202F}'
    ||| c == '\u{205F}'
    ||| c == '\u{3000}'
}

pub fn ascii_ws(c: char) -> (r: bool)
    ensures
        r == is_ascii_ws(c),
{
    c == ' ' || c == '\t' || c == '\n' || c == '\x0C' || c == '\r'
}

pub fn unicode_ws(c: char) -> (r: bool)
    ensures
        r == is_ws(c),
{
    ('\t' <= c && c <= '\r') || c == ' ' || c == '\u{85}' || c == '\u{A0}' || c == '\u{1680}'
        || ('\u{2000}' <= c && c <= '\u{200A}') || c == '\u{2028}' || c == '\u{2029}'
        || c == '\u{202F}' || c == '\u{205F}' || c == '\u{3000}'
}

/// Number of leading whitespace characters.
pub open spec fn lead_ws(s: Seq<char>) -> nat
    decreases s.len(),
{
    if s.len() > 0 && is_ws(s[0]) {
        1 + lead_ws(s.drop_first())
    } else {
        0
    }
}

/// Number of trailing whitespace characters.
pub open spec fn trail_ws(s: Seq<char>) -> nat
    decreases s.len(),
{
    if s.len() > 0 && is_ws(s.last()) {
        1 + trail_ws(s.drop_last())
    } else {
        0
    }
}

pub open spec fn trim_start(s: Seq<char>) -> Seq<char> {
    s.skip(lead_ws(s) as int)
}

pub open spec fn trim_end(s: Seq<char>) -> Seq<char> {
    s.take(s.len() - trail_ws(s))
}

/// What `str::trim` gives back.
pub open spec fn trim(s: Seq<char>) -> Seq<char> {
    trim_end(trim_start(s))
}

pub proof fn lemma_lead_ws_bound(s: Seq<char>)
    ensures
        lead_ws(s) <= s.len(),
        forall|k: int| 0 <= k < lead_ws(s) ==> is_ws(#[trigger] s[k]),
        lead_ws(s) < s.len() ==> !is_ws(s[lead_ws(s) as int]),
    decreases s.len(),
{
    if s.len() > 0 && is_ws(s[0]) {
        lemma_lead_ws_bound(s.drop_first());
        assert forall|k: int| 0 <= k < lead_ws(s) implies is_ws(#[trigger] s[k]) by {
            if k > 0 {
                assert(s[k] == s.drop_first()[k - 1]);
            }
        }
    }
}

pub proof fn lemma_trail_ws_bound(s: Seq<char>)
    ensures
        trail_ws(s) <= s.len(),
        forall|k: int| s.len() - trail_ws(s) <= k < s.len() ==> is_ws(#[trigger] s[k]),
        trail_ws(s) < s.len() ==> !is_ws(s[s.len() - trail_ws(s) - 1]),
    decreases s.len(),
{
    if s.len() > 0 && is_ws(s.last()) {
        lemma_trail_ws_bound(s.drop_last());
        assert forall|k: int| s.len() - trail_ws(s) <= k < s.len() implies is_ws(#[trigger] s[k]) by {
            if k < s.len() - 1 {
                assert(s[k] == s.drop_last()[k]);
            }
        }
    }
}

/// `lead_ws` is determined by where the first non-whitespace character stands.
pub proof fn lemma_lead_ws_at(s: Seq<char>, k: int)
    requires
        0 <= k <= s.len(),
        forall|j: int| 0 <= j < k ==> is_ws(#[trigger] s[j]),
        k < s.len() ==> !is_ws(s[k]),
    ensures
        lead_ws(s) == k,
    decreases s.len(),
{
    if k > 0 {
        assert(is_ws(s[0]));
        assert forall|j: int| 0 <= j < k - 1 implies is_ws(#[trigger] s.drop_first()[j]) by {
            assert(s.drop_first()[j] == s[j + 1]);
        }
        lemma_lead_ws_at(s.drop_first(), k - 1);
    }
}

pub proof fn lemma_trail_ws_at(s: Seq<char>, k: int)
    requires
        0 <= k <= s.len(),
        forall|j: int| s.len() - k <= j < s.len() ==> is_ws(#[trigger] s[j]),
        k < s.len() ==> !is_ws(s[s.len() - k - 1]),
    ensures
        trail_ws(s) == k,
    decreases s.len(),
{
    if k > 0 {
        assert(is_ws(s.last()));
        assert forall|j: int| s.drop_last().len() - (k - 1) <= j < s.drop_last().len() implies is_ws(
            #[trigger] s.drop_last()[j],
        ) by {
            assert(s.drop_last()[j] == s[j]);
        }
        lemma_trail_ws_at(s.drop_last(), k - 1);
    }
}

/// Bounds of `trim(s[a..b])` inside `s`.
pub fn trim_bounds(s: &[char], a: usize, b: usize) -> (r: (usize, usize))
    requires
        a <= b <= s@.len(),
    ensures
        a <= r.0 <= r.1 <= b,
        s@.subrange(r.0 as int, r.1 as int) == trim(s@.subrange(a as int, b as int)),
        r.0 - a == lead_ws(s@.subrange(a as int, b as int)),
{
    let ghost sub = s@.subrange(a as int, b as int);
    let mut i = a;
    while i < b && unicode_ws(s[i])
        invariant
            a <= i <= b <= s@.len(),
            forall|j: int| a <= j < i ==> is_ws(#[trigger] s@[j]),
        decreases b - i,
    {
        i = i + 1;
    }
    proof {
        assert forall|j: int| 0 <= j < i - a implies is_ws(#[trigger] sub[j]) by {
            assert(sub[j] == s@[a + j]);
        }
        lemma_lead_ws_at(sub, i - a);
    }
    let mut j = b;
    while j > i && unicode_ws(s[j - 1])
        invariant
            a <= i <= j <= b <= s@.len(),
            forall|k: int| j <= k < b ==> is_ws(#[trigger] s@[k]),
        decreases j - i,
    {
        j = j - 1;
    }
    proof {
        let ts = trim_start(sub);
        assert(ts == s@.subrange(i as int, b as int));
        assert forall|k: int| ts.len() - (b - j) <= k < ts.len() implies is_ws(#[trigger] ts[k]) by {
            assert(ts[k] == s@[i + k]);
        }
        lemma_trail_ws_at(ts, b - j);
        assert(trim_end(ts) == s@.subrange(i as int, j as int));
    }
    (i, j)
}

} // verus!

verus! {

/// Index of the first occurrence of `p` in `s`, as `str::find` reports it.
pub open spec fn find(s: Seq<char>, p: Seq<char>) -> Option<int>
    decreases s.len(),
{
    if p.len() > s.len() {
        None
    } else if p.len() == 0 {
        Some(0)
    } else if s.take(p.len() as int) == p {
        Some(0)
    } else {
        match find(s.drop_first(), p) {
            Some(k) => Some(k + 1),
            None => None,
        }
    }
}

/// Index of the last occurrence of `c` in `s`, as `str::rfind` reports it.
pub open spec fn rfind_char(s: Seq<char>, c: char) -> Option<int>
    decreases s.len(),
{
    if s.len() == 0 {
        None
    } else if s.last() == c {
        Some(s.len() - 1)
    } else {
        rfind_char(s.drop_last(), c)
    }
}

pub open spec fn starts_with(s: Seq<char>, p: Seq<char>) -> bool {
    p.len() <= s.len() && s.take(p.len() as int) == p
}

pub open spec fn ends_with(s: Seq<char>, p: Seq<char>) -> bool {
    p.len() <= s.len() && s.skip(s.len() - p.len()) == p
}

pub open spec fn contains(s: Seq<char>, p: Seq<char>) -> bool {
    find(s, p) is Some
}

pub open spec fn matches_at(s: Seq<char>, i: int, p: Seq<char>) -> bool {
    0 <= i && i + p.len() <= s.len() && s.subrange(i, i + p.len()) == p
}

pub proof fn lemma_find_at(s: Seq<char>, p: Seq<char>, k: int)
    requires
        matches_at(s, k, p),
        forall|j: int| 0 <= j < k ==> !matches_at(s, j, p),
    ensures
        find(s, p) == Some(k),
    decreases s.len(),
{
    if k == 0 {
        assert(s.take(p.len() as int) == s.subrange(0, p.len() as int));
    } else if p.len() == 0 {
        assert(s.subrange(0, 0) =~= p);
        assert(matches_at(s, 0, p));
    } else {
        assert(!matches_at(s, 0, p));
        assert(s.take(p.len() as int) != p) by {
            assert(s.take(p.len() as int) == s.subrange(0, p.len() as int));
        }
        let t = s.drop_first();
        assert(t.subrange(k - 1, k - 1 + p.len()) =~= s.subrange(k, k + p.len()));
        assert forall|j: int| 0 <= j < k - 1 implies !matches_at(t, j, p) by {
            assert(t.subrange(j, j + p.len()) =~= s.subrange(j + 1, j + 1 + p.len()));
            assert(!matches_at(s, j + 1, p));
        }
        lemma_find_at(t, p, k - 1);
    }
}

pub proof fn lemma_find_none(s: Seq<char>, p: Seq<char>)
    requires
        forall|j: int| 0 <= j ==> !matches_at(s, j, p),
    ensures
        find(s, p) is None,
    decreases s.len(),
{
    if p.len() == 0 {
        assert(s.subrange(0, 0) =~= p);
        assert(matches_at(s, 0, p));
    } else if p.len() <= s.len() {
        assert(!matches_at(s, 0, p));
        assert(s.take(p.len() as int) == s.subrange(0, p.len() as int));
        let t = s.drop_first();
        assert forall|j: int| 0 <= j implies !matches_at(t, j, p) by {
            if j + p.len() <= t.len() {
                assert(!matches_at(s, j + 1, p));
                assert(s.subrange(j + 1, j + 1 + p.len()) =~= t.subrange(j, j + p.len()));
            }
        }
        lemma_find_none(t, p);
    }
}

pub proof fn lemma_find_sound(s: Seq<char>, p: Seq<char>)
    ensures
        find(s, p) matches Some(k) ==> matches_at(s, k, p) && forall|j: int|
            0 <= j < k ==> !matches_at(s, j, p),
        find(s, p) is None ==> forall|j: int| 0 <= j ==> !matches_at(s, j, p),
    decreases s.len(),
{
    if p.len() > s.len() {
    } else if p.len() == 0 {
        assert(s.subrange(0, 0) =~= p);
    } else if s.take(p.len() as int) == p {
        assert(s.subrange(0, p.len() as int) == s.take(p.len() as int));
    } else {
        let t = s.drop_first();
        lemma_find_sound(t, p);
        assert(!matches_at(s, 0, p)) by {
            assert(s.subrange(0, p.len() as int) == s.take(p.len() as int));
        }
        assert forall|j: int| 0 <= j && matches_at(s, j, p) implies j > 0 && matches_at(t, j - 1, p) by {
            if j > 0 {
                assert(t.subrange(j - 1, j - 1 + p.len()) =~= s.subrange(j, j + p.len()));
            }
        }
        if let Some(k) = find(t, p) {
            assert(s.subrange(k + 1, k + 1 + p.len()) =~= t.subrange(k, k + p.len()));
        }
    }
}

/// Whether `p` occurs in `s` at position `i` (`s[i..i + p.len()] == p`).
pub fn matches_at_exec(s: &[char], i: usize, p: &[char]) -> (r: bool)
    ensures
        r == matches_at(s@, i as int, p@),
{
    if i > s.len() || p.len() > s.len() - i {
        return false;
    }
    let mut k: usize = 0;
    while k < p.len()
        invariant
            i + p.len() <= s.len(),
            k <= p.len(),
            forall|j: int| 0 <= j < k ==> s@[i + j] == p@[j],
        decreases p.len() - k,
    {
        if s[i + k] != p[k] {
            assert(s@.subrange(i as int, i + p.len())[k as int] != p@[k as int]);
            return false;
        }
        k = k + 1;
    }
    assert(s@.subrange(i as int, i + p.len()) =~= p@);
    true
}

/// First occurrence of `p` in `s[a..b]`, as a position of `s`.
pub fn find_in(s: &[char], a: usize, b: usize, p: &[char]) -> (r: Option<usize>)
    requires
        a <= b <= s@.len(),
    ensures
        match find(s@.subrange(a as int, b as int), p@) {
            Some(k) => r == Some((a + k) as usize),
            None => r is None,
        },
{
    let ghost sub = s@.subrange(a as int, b as int);
    let mut i = a;
    while i < b
        invariant
            a <= i <= b <= s@.len(),
            sub == s@.subrange(a as int, b as int),
            forall|j: int| 0 <= j < i - a ==> !matches_at(sub, j, p@),
        decreases b - i,
    {
        if p.len() <= b - i && matches_at_exec(s, i, p) {
            proof {
                assert(sub.subrange(i - a, i - a + p.len()) =~= s@.subrange(i as int, i + p.len()));
                lemma_find_at(sub, p@, i - a);
            }
            return Some(i);
        }
        proof {
            if matches_at(sub, i - a, p@) {
                assert(sub.subrange(i - a, i - a + p.len()) =~= s@.subrange(i as int, i + p.len()));
            }
        }
        i = i + 1;
    }
    if p.len() == 0 {
        proof {
            assert(sub.subrange(b - a, b - a) =~= p@);
            lemma_find_at(sub, p@, b - a);
        }
        return Some(b);
    }
    proof {
        assert forall|j: int| 0 <= j implies !matches_at(sub, j, p@) by {}
        lemma_find_none(sub, p@);
    }
    None
}

pub proof fn lemma_rfind_char_sound(s: Seq<char>, c: char)
    ensures
        rfind_char(s, c) matches Some(k) ==> 0 <= k < s.len() && s[k] == c && forall|j: int|
            k < j < s.len() ==> s[j] != c,
        rfind_char(s, c) is None ==> forall|j: int| 0 <= j < s.len() ==> s[j] != c,
    decreases s.len(),
{
    if s.len() > 0 && s.last() != c {
        lemma_rfind_char_sound(s.drop_last(), c);
        assert forall|j: int| 0 <= j < s.len() - 1 implies s.drop_last()[j] == s[j] by {}
    }
}

pub proof fn lemma_rfind_char_at(s: Seq<char>, c: char, k: int)
    requires
        -1 <= k < s.len(),
        k >= 0 ==> s[k] == c,
        forall|j: int| k < j < s.len() ==> s[j] != c,
    ensures
        rfind_char(s, c) == (if k >= 0 { Some(k) } else { None::<int> }),
    decreases s.len(),
{
    if s.len() > 0 && s.last() != c {
        assert forall|j: int| k < j < s.len() - 1 implies s.drop_last()[j] != c by {
            assert(s.drop_last()[j] == s[j]);
        }
        lemma_rfind_char_at(s.drop_last(), c, k);
    }
}

/// Last occurrence of `c` in `s[a..b]`, as a position of `s`.
pub fn rfind_char_in(s: &[char], a: usize, b: usize, c: char) -> (r: Option<usize>)
    requires
        a <= b <= s@.len(),
    ensures
        match rfind_char(s@.subrange(a as int, b as int), c) {
            Some(k) => r == Some((a + k) as usize),
            None => r is None,
        },
{
    let ghost sub = s@.subrange(a as int, b as int);
    let mut j = b;
    while j > a
        invariant
            a <= j <= b <= s@.len(),
            sub == s@.subrange(a as int, b as int),
            forall|k: int| j <= k < b ==> s@[k] != c,
        decreases j - a,
    {
        if s[j - 1] == c {
            proof {
                assert forall|k: int| j - 1 - a < k < sub.len() implies sub[k] != c by {
                    assert(sub[k] == s@[a + k]);
                }
                lemma_rfind_char_at(sub, c, j - 1 - a);
            }
            return Some(j - 1);
        }
        j = j - 1;
    }
    proof {
        assert forall|k: int| -1 < k < sub.len() implies sub[k] != c by {
            assert(sub[k] == s@[a + k]);
        }
        lemma_rfind_char_at(sub, c, -1);
    }
    None
}

} // verus!

verus! {

pub open spec fn strip_cr(s: Seq<char>) -> Seq<char> {
    if s.len() > 0 && s.last() == '\r' {
        s.drop_last()
    } else {
        s
    }
}

/// The lines of `s`, as `str::lines` yields them.
pub open spec fn lines(s: Seq<char>) -> Seq<Seq<char>>
    decreases s.len(),
{
    if s.len() == 0 {
        seq![]
    } else {
        match find(s, seq!['\n']) {
            Some(k) => {
                proof {
                    lemma_find_sound(s, seq!['\n']);
                }
                seq![strip_cr(s.take(k))] + lines(s.skip(k + 1))
            },
            None => seq![s],
        }
    }
}

/// One trimmed line followed by a line break, under `ind`; nothing for a blank line.
pub open spec fn indented_line(l: Seq<char>, ind: Seq<char>) -> Seq<char> {
    if trim(l).len() == 0 {
        seq![]
    } else {
        ind + trim(l) + seq!['\n']
    }
}

pub open spec fn indent_lines(ls: Seq<Seq<char>>, ind: Seq<char>) -> Seq<char>
    decreases ls.len(),
{
    if ls.len() == 0 {
        seq![]
    } else {
        indent_lines(ls.drop_last(), ind) + indented_line(ls.last(), ind)
    }
}

/// Every non-blank line of `s`, trimmed and re-indented with `ind`, each ending in a line break.
pub open spec fn reindent(s: Seq<char>, ind: Seq<char>) -> Seq<char> {
    indent_lines(lines(s), ind)
}

/// The non-blank lines of `s`, trimmed.
pub open spec fn trimmed_lines_of(ls: Seq<Seq<char>>) -> Seq<Seq<char>>
    decreases ls.len(),
{
    if ls.len() == 0 {
        seq![]
    } else if trim(ls.last()).len() == 0 {
        trimmed_lines_of(ls.drop_last())
    } else {
        trimmed_lines_of(ls.drop_last()).push(trim(ls.last()))
    }
}

pub open spec fn trimmed_lines(s: Seq<char>) -> Seq<Seq<char>> {
    trimmed_lines_of(lines(s))
}

pub open spec fn ranges_view(s: Seq<char>, rs: Seq<(usize, usize)>) -> Seq<Seq<char>> {
    Seq::new(rs.len(), |i: int| s.subrange(rs[i].0 as int, rs[i].1 as int))
}

pub proof fn lemma_lines_step(s: Seq<char>, k: int)
    requires
        0 <= k < s.len(),
        s[k] == '\n',
        forall|j: int| 0 <= j < k ==> s[j] != '\n',
    ensures
        lines(s) == seq![strip_cr(s.take(k))] + lines(s.skip(k + 1)),
{
    assert(s.subrange(k, k + 1) =~= seq!['\n']);
    assert forall|j: int| 0 <= j < k implies !matches_at(s, j, seq!['\n']) by {
        if matches_at(s, j, seq!['\n']) {
            assert(s.subrange(j, j + 1)[0] == s[j]);
        }
    }
    lemma_find_at(s, seq!['\n'], k);
}

pub proof fn lemma_lines_last(s: Seq<char>)
    requires
        s.len() > 0,
        forall|j: int| 0 <= j < s.len() ==> s[j] != '\n',
    ensures
        lines(s) == seq![s],
{
    assert forall|j: int| 0 <= j implies !matches_at(s, j, seq!['\n']) by {
        if matches_at(s, j, seq!['\n']) {
            assert(s.subrange(j, j + 1)[0] == s[j]);
        }
    }
    lemma_find_none(s, seq!['\n']);
}

/// Positions of the lines of `s[a..b]`.
pub fn line_ranges(s: &[char], a: usize, b: usize) -> (rs: Vec<(usize, usize)>)
    requires
        a <= b <= s@.len(),
    ensures
        ranges_view(s@, rs@) == lines(s@.subrange(a as int, b as int)),
        forall|i: int| 0 <= i < rs@.len() ==> a <= #[trigger] rs@[i].0 <= rs@[i].1 <= b,
{
    let mut rs: Vec<(usize, usize)> = Vec::new();
    let mut pos = a;
    while pos < b
        invariant
            a <= pos <= b <= s@.len(),
            lines(s@.subrange(a as int, b as int)) == ranges_view(s@, rs@) + lines(
                s@.subrange(pos as int, b as int),
            ),
            forall|i: int| 0 <= i < rs@.len() ==> a <= #[trigger] rs@[i].0 <= rs@[i].1 <= b,
        decreases b - pos,
    {
        let ghost sub = s@.subrange(pos as int, b as int);
        let mut k = pos;
        while k < b && s[k] != '\n'
            invariant
                pos <= k <= b <= s@.len(),
                forall|j: int| pos <= j < k ==> s@[j] != '\n',
            decreases b - k,
        {
            k = k + 1;
        }
        let ghost old_rs = rs@;
        if k < b {
            let e = if k > pos && s[k - 1] == '\r' { k - 1 } else { k };
            rs.push((pos, e));
            proof {
                assert(rs@[rs@.len() - 1] == (pos, e));
                assert forall|i: int| 0 <= i < rs@.len() implies a <= #[trigger] rs@[i].0 <= rs@[i].1 <= b by {
                    if i < rs@.len() - 1 {
                        assert(rs@[i] == old_rs[i]);
                    }
                }
                lemma_lines_step(sub, k - pos);
                assert(sub.take(k - pos) =~= s@.subrange(pos as int, k as int));
                assert(strip_cr(sub.take(k - pos)) =~= s@.subrange(pos as int, e as int));
                assert(sub.skip(k - pos + 1) =~= s@.subrange(k + 1, b as int));
                assert(ranges_view(s@, rs@) =~= ranges_view(s@, old_rs) + seq![
                    s@.subrange(pos as int, e as int),
                ]);
            }
            pos = k + 1;
        } else {
            rs.push((pos, b));
            proof {
                assert forall|i: int| 0 <= i < rs@.len() implies a <= #[trigger] rs@[i].0 <= rs@[i].1 <= b by {
                    if i < rs@.len() - 1 {
                        assert(rs@[i] == old_rs[i]);
                    }
                }
                lemma_lines_last(sub);
                assert(s@.subrange(b as int, b as int).len() == 0);
                assert(ranges_view(s@, rs@) =~= ranges_view(s@, old_rs) + seq![sub]);
            }
            pos = b;
        }
    }
    proof {
        assert(lines(s@.subrange(b as int, b as int)) =~= seq![]);
    }
    rs
}

/// Appends `s[a..b]` to `out`.
pub fn push_range(out: &mut Vec<char>, s: &[char], a: usize, b: usize)
    requires
        a <= b <= s@.len(),
    ensures
        final(out)@ == old(out)@ + s@.subrange(a as int, b as int),
{
    let mut i = a;
    while i < b
        invariant
            a <= i <= b <= s@.len(),
            out@ == old(out)@ + s@.subrange(a as int, i as int),
        decreases b - i,
    {
        out.push(s[i]);
        i = i + 1;
        assert(out@ =~= old(out)@ + s@.subrange(a as int, i as int));
    }
}

/// Appends `reindent(s[a..b], ind)` to `out`.
pub fn push_reindented(out: &mut Vec<char>, s: &[char], a: usize, b: usize, ind: &[char])
    requires
        a <= b <= s@.len(),
    ensures
        final(out)@ == old(out)@ + reindent(s@.subrange(a as int, b as int), ind@),
{
    let rs = line_ranges(s, a, b);
    let ghost ls = ranges_view(s@, rs@);
    let mut i: usize = 0;
    while i < rs.len()
        invariant
            i <= rs@.len(),
            a <= b <= s@.len(),
            ls == ranges_view(s@, rs@),
            ls == lines(s@.subrange(a as int, b as int)),
            forall|k: int| 0 <= k < rs@.len() ==> a <= #[trigger] rs@[k].0 <= rs@[k].1 <= b,
            out@ == old(out)@ + indent_lines(ls.take(i as int), ind@),
        decreases rs.len() - i,
    {
        let (x, y) = rs[i];
        let (tx, ty) = trim_bounds(s, x, y);
        let ghost before = out@;
        if tx < ty {
            out.extend_from_slice(ind);
            push_range(out, s, tx, ty);
            out.push('\n');
        }
        proof {
            assert(ls.take(i + 1).drop_last() =~= ls.take(i as int));
            assert(ls.take(i + 1).last() == ls[i as int]);
            assert(ls[i as int] == s@.subrange(x as int, y as int));
        }
        i = i + 1;
    }
    proof {
        assert(ls.take(rs@.len() as int) =~= ls);
    }
}

} // verus!

verus! {

pub open spec fn ascii_lower(c: char) -> char {
    if 'A' <= c && c <= 'Z' {
        ((c as u32) + 32) as char
    } else {
        c
    }
}

pub open spec fn lower(s: Seq<char>) -> Seq<char> {
    s.map_values(|c: char| ascii_lower(c))
}

pub fn lower_char(c: char) -> (r: char)
    ensures
        r == ascii_lower(c),
{
    if 'A' <= c && c <= 'Z' {
        ((c as u8) + 32) as char
    } else {
        c
    }
}

/// `to_ascii_lowercase` of `s[a..b]`.
pub fn lower_range(s: &[char], a: usize, b: usize) -> (r: Vec<char>)
    requires
        a <= b <= s@.len(),
    ensures
        r@ == lower(s@.subrange(a as int, b as int)),
{
    let mut r: Vec<char> = Vec::new();
    let mut i = a;
    while i < b
        invariant
            a <= i <= b <= s@.len(),
            r@ == lower(s@.subrange(a as int, i as int)),
        decreases b - i,
    {
        r.push(lower_char(s[i]));
        i = i + 1;
        assert(r@ =~= lower(s@.subrange(a as int, i as int)));
    }
    r
}

} // verus!

verus! {

/// The string made of `s[a..b]`.
pub fn string_of_range(s: &[char], a: usize, b: usize) -> (r: String)
    requires
        a <= b <= s@.len(),
    ensures
        r@ == s@.subrange(a as int, b as int),
{
    let mut r = String::new();
    let mut i = a;
    while i < b
        invariant
            a <= i <= b <= s@.len(),
            r@ == s@.subrange(a as int, i as int),
        decreases b - i,
    {
        r.push(s[i]);
        i = i + 1;
        assert(r@ =~= s@.subrange(a as int, i as int));
    }
    r
}

} // verus!

verus! {

/// The texts held by a list of character vectors.
pub open spec fn texts_of_strings(v: Seq<String>) -> Seq<Seq<char>> {
    v.map_values(|x: String| x@)
}

pub open spec fn texts(v: Seq<Vec<char>>) -> Seq<Seq<char>> {
    v.map_values(|x: Vec<char>| x@)
}

/// `ps` joined with `sep` between neighbours, as `[T]::join` does.
pub open spec fn join(ps: Seq<Seq<char>>, sep: Seq<char>) -> Seq<char>
    decreases ps.len(),
{
    if ps.len() == 0 {
        seq![]
    } else if ps.len() == 1 {
        ps[0]
    } else {
        join(ps.drop_last(), sep) + sep + ps.last()
    }
}

/// Appends `join(ps, sep)` to `out`.
pub fn push_joined(out: &mut Vec<char>, ps: &Vec<Vec<char>>, sep: &[char])
    ensures
        final(out)@ == old(out)@ + join(texts(ps@), sep@),
{
    let ghost t = texts(ps@);
    let mut k: usize = 0;
    while k < ps.len()
        invariant
            k <= ps@.len(),
            t == texts(ps@),
            out@ == old(out)@ + join(t.take(k as int), sep@),
        decreases ps.len() - k,
    {
        if k > 0 {
            out.extend_from_slice(sep);
        }
        out.extend_from_slice(ps[k].as_slice());
        proof {
            let tk = t.take(k + 1);
            assert(tk.drop_last() =~= t.take(k as int));
            assert(tk.last() == ps@[k as int]@);
            if k == 0 {
                assert(join(tk, sep@) == tk[0]);
            }
        }
        k = k + 1;
    }
    proof {
        assert(t.take(ps@.len() as int) =~= t);
    }
}

/// `str::replace`: every non-overlapping occurrence of `p`, left to right, replaced by `r`.
pub open spec fn replace(s: Seq<char>, p: Seq<char>, r: Seq<char>) -> Seq<char>
    decreases s.len(),
{
    if p.len() == 0 {
        s
    } else {
        match find(s, p) {
            Some(k) => {
                proof {
                    lemma_find_sound(s, p);
                }
                s.take(k) + r + replace(s.skip(k + p.len()), p, r)
            },
            None => s,
        }
    }
}

pub proof fn lemma_replace_shorter(s: Seq<char>, p: Seq<char>, r: Seq<char>)
    requires
        r.len() < p.len(),
    ensures
        replace(s, p, r).len() <= s.len(),
        find(s, p) is Some ==> replace(s, p, r).len() < s.len(),
    decreases s.len(),
{
    lemma_find_sound(s, p);
    if let Some(k) = find(s, p) {
        lemma_replace_shorter(s.skip(k + p.len()), p, r);
    }
}

/// Computes `replace(s, p, r)`, for a non-empty `p`.
pub fn replace_exec(s: &[char], p: &[char], r: &[char]) -> (out: Vec<char>)
    requires
        p@.len() > 0,
    ensures
        out@ == replace(s@, p@, r@),
{
    let mut out: Vec<char> = Vec::new();
    let len = s.len();
    let mut pos: usize = 0;
    let mut done = false;
    proof {
        assert(s@.subrange(0, len as int) =~= s@);
    }
    while !done
        invariant
            len == s@.len(),
            p@.len() > 0,
            pos <= len,
            !done ==> replace(s@, p@, r@) == out@ + replace(s@.subrange(pos as int, len as int), p@, r@),
            done ==> replace(s@, p@, r@) == out@,
        decreases len - pos + (if done { 0int } else { 1int }),
    {
        let ghost rest = s@.subrange(pos as int, len as int);
        match find_in(s, pos, len, p) {
            Some(k) => {
                proof {
                    lemma_find_sound(rest, p@);
                    let kk = k - pos;
                    assert(rest.take(kk) =~= s@.subrange(pos as int, k as int));
                    assert(rest.skip(kk + p@.len()) =~= s@.subrange(k + p@.len(), len as int));
                }
                push_range(&mut out, s, pos, k);
                out.extend_from_slice(r);
                pos = k + p.len();
            },
            None => {
                push_range(&mut out, s, pos, len);
                pos = len;
                done = true;
            },
        }
    }
    out
}

/// Whether `s[a..b]` starts with `p`.
pub fn starts_with_at(s: &[char], a: usize, b: usize, p: &[char]) -> (r: bool)
    requires
        a <= b <= s@.len(),
    ensures
        r == starts_with(s@.subrange(a as int, b as int), p@),
{
    if p.len() > b - a {
        return false;
    }
    let r = matches_at_exec(s, a, p);
    proof {
        assert(s@.subrange(a as int, b as int).take(p@.len() as int) =~= s@.subrange(a as int, a + p@.len()));
    }
    r
}

/// Whether `s[a..b]` ends with `p`.
pub fn ends_with_at(s: &[char], a: usize, b: usize, p: &[char]) -> (r: bool)
    requires
        a <= b <= s@.len(),
    ensures
        r == ends_with(s@.subrange(a as int, b as int), p@),
{
    if p.len() > b - a {
        return false;
    }
    let r = matches_at_exec(s, b - p.len(), p);
    proof {
        let t = s@.subrange(a as int, b as int);
        assert(t.skip(t.len() - p@.len()) =~= s@.subrange(b - p@.len(), b as int));
    }
    r
}

/// Whether `p` occurs in `s[a..b]`.
pub fn contains_in(s: &[char], a: usize, b: usize, p: &[char]) -> (r: bool)
    requires
        a <= b <= s@.len(),
    ensures
        r == contains(s@.subrange(a as int, b as int), p@),
{
    find_in(s, a, b, p).is_some()
}

/// Whether two character ranges hold the same text.
pub fn range_eq(s: &[char], a: usize, b: usize, t: &[char], c: usize, d: usize) -> (r: bool)
    requires
        a <= b <= s@.len(),
        c <= d <= t@.len(),
    ensures
        r == (s@.subrange(a as int, b as int) == t@.subrange(c as int, d as int)),
{
    if b - a != d - c {
        proof {
            assert(s@.subrange(a as int, b as int).len() != t@.subrange(c as int, d as int).len());
        }
        return false;
    }
    let mut k: usize = 0;
    while k < b - a
        invariant
            a <= b <= s@.len(),
            c <= d <= t@.len(),
            b - a == d - c,
            k <= b - a,
            forall|j: int| 0 <= j < k ==> s@.subrange(a as int, b as int)[j] == #[trigger] t@.subrange(c as int, d as int)[j],
        decreases b - a - k,
    {
        if s[a + k] != t[c + k] {
            proof {
                assert(s@.subrange(a as int, b as int)[k as int] != t@.subrange(c as int, d as int)[k as int]);
            }
            return false;
        }
        k = k + 1;
    }
    proof {
        assert(s@.subrange(a as int, b as int) =~= t@.subrange(c as int, d as int));
    }
    true
}

/// Whether two vectors hold the same characters.
pub fn chars_eq(s: &[char], t: &[char]) -> (r: bool)
    ensures
        r == (s@ == t@),
{
    let r = range_eq(s, 0, s.len(), t, 0, t.len());
    proof {
        assert(s@.subrange(0, s@.len() as int) =~= s@);
        assert(t@.subrange(0, t@.len() as int) =~= t@);
    }
    r
}

/// How many bytes UTF-8 takes for `c`.
pub open spec fn utf8_len(c: char) -> nat {
    if (c as u32) < 0x80 {
        1
    } else if (c as u32) < 0x800 {
        2
    } else if (c as u32) < 0x10000 {
        3
    } else {
        4
    }
}

/// The byte offset, in UTF-8, of the character at position `i` of `s`.
pub open spec fn utf8_offset(s: Seq<char>, i: int) -> nat
    decreases i,
{
    if i <= 0 || i > s.len() {
        0
    } else {
        utf8_offset(s, i - 1) + utf8_len(s[i - 1])
    }
}

proof fn lemma_utf8_offset_bound(s: Seq<char>, i: int)
    requires
        0 <= i <= s.len(),
    ensures
        utf8_offset(s, i) <= 4 * i,
    decreases i,
{
    if i > 0 {
        lemma_utf8_offset_bound(s, i - 1);
    }
}

/// The UTF-8 byte offset of the character at position `i` of `s`: where a character position
/// of the library falls in the text's bytes.
pub fn byte_offset(s: &[char], i: usize) -> (r: usize)
    requires
        i <= s@.len(),
        4 * s@.len() <= usize::MAX,
    ensures
        r == utf8_offset(s@, i as int),
{
    let mut r: usize = 0;
    let mut k: usize = 0;
    while k < i
        invariant
            k <= i <= s@.len(),
            4 * s@.len() <= usize::MAX,
            r == utf8_offset(s@, k as int),
        decreases i - k,
    {
        proof {
            lemma_utf8_offset_bound(s@, k as int);
        }
        let c = s[k] as u32;
        let w: usize = if c < 0x80 {
            1
        } else if c < 0x800 {
            2
        } else if c < 0x10000 {
            3
        } else {
            4
        };
        r = r + w;
        k = k + 1;
    }
    r
}

/// The span `r`, given in character positions of `s`, in UTF-8 byte offsets.
pub fn byte_range(s: &[char], r: crate::model::SourceRange) -> (b: crate::model::SourceRange)
    requires
        r.start <= s@.len(),
        r.end <= s@.len(),
        4 * s@.len() <= usize::MAX,
    ensures
        b.start == utf8_offset(s@, r.start as int),
        b.end == utf8_offset(s@, r.end as int),
{
    crate::model::SourceRange { start: byte_offset(s, r.start), end: byte_offset(s, r.end) }
}

} // verus!
