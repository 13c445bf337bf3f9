use crate::model::{PlanEntry, Proof, RuleId, Safety};
use crate::text::{chars_of, string_of};
use vstd::prelude::*;

verus! {

/// The mathematical value of a `PlanEntry`.
pub struct PlanView {
    pub id: Seq<char>,
    pub file: Seq<char>,
    pub rules: Seq<RuleId>,
    pub safety: Safety,
    pub start: int,
    pub end: int,
    pub original: Seq<char>,
    pub proposed: Seq<char>,
    pub proof: Proof,
    pub warnings: Seq<Seq<char>>,
    pub reason: Seq<char>,
    pub selected: bool,
}

impl View for PlanEntry {
    type V = PlanView;

    open spec fn view(&self) -> PlanView {
        PlanView {
            id: self.id@,
            file: self.file@,
            rules: self.rules@,
            safety: self.safety,
            start: self.source_range.start as int,
            end: self.source_range.end as int,
            original: self.original@,
            proposed: self.proposed@,
            proof: self.proof,
            warnings: self.warnings@.map_values(|w: String| w@),
            reason: self.reason@,
            selected: self.selected,
        }
    }
}

fn clone_strings(v: &Vec<String>) -> (r: Vec<String>)
    ensures
        r@.map_values(|w: String| w@) == v@.map_values(|w: String| w@),
{
    let mut r: Vec<String> = Vec::new();
    let mut k: usize = 0;
    while k < v.len()
        invariant
            k <= v@.len(),
            r@.map_values(|w: String| w@) == v@.take(k as int).map_values(|w: String| w@),
        decreases v.len() - k,
    {
        let w = v[k].clone();
        let ghost before = r@;
        r.push(w);
        proof {
            assert(r@.map_values(|w: String| w@) =~= before.map_values(|w: String| w@).push(w@));
            assert(v@.take(k + 1).map_values(|w: String| w@) =~= v@.take(k as int).map_values(
                |w: String| w@,
            ).push(v@[k as int]@));
        }
        k = k + 1;
    }
    proof {
        assert(v@.take(v@.len() as int) =~= v@);
    }
    r
}

impl Clone for PlanEntry {
    fn clone(&self) -> (r: Self)
        ensures
            r@ == self@,
    {
        let rules = self.rules.clone();
        proof {
            assert(rules@ =~= self.rules@);
        }
        PlanEntry {
            id: self.id.clone(),
            file: self.file.clone(),
            rules,
            safety: self.safety,
            source_range: self.source_range,
            original: self.original.clone(),
            proposed: self.proposed.clone(),
            proof: self.proof,
            warnings: clone_strings(&self.warnings),
            reason: self.reason.clone(),
            selected: self.selected,
        }
    }
}

pub open spec fn plans_view(ps: Seq<PlanEntry>) -> Seq<PlanView> {
    ps.map_values(|p: PlanEntry| p@)
}

/// A plan applies to `src`: its span lies inside `src` and `original` is the text it spans.
pub open spec fn plan_fits(src: Seq<char>, p: PlanView) -> bool {
    0 <= p.start <= p.end <= src.len() && p.original == src.subrange(p.start, p.end)
}

/// Whether `apply_selected_plans` considers a plan.
pub open spec fn eligible(p: PlanView, include_review: bool) -> bool {
    p.selected && (p.safety == Safety::Safe || (include_review && p.safety == Safety::Review))
}

pub open spec fn eligible_plans(ps: Seq<PlanView>, include_review: bool) -> Seq<PlanView>
    decreases ps.len(),
{
    if ps.len() == 0 {
        seq![]
    } else if eligible(ps.last(), include_review) {
        eligible_plans(ps.drop_last(), include_review).push(ps.last())
    } else {
        eligible_plans(ps.drop_last(), include_review)
    }
}

/// Plans are ordered by start, then by end from last to first.
pub open spec fn goes_before(a: PlanView, b: PlanView) -> bool {
    a.start < b.start || (a.start == b.start && a.end > b.end)
}

/// Stable insertion of `p` into the ordered `sorted`.
pub open spec fn insert_plan(sorted: Seq<PlanView>, p: PlanView) -> Seq<PlanView>
    decreases sorted.len(),
{
    if sorted.len() == 0 {
        seq![p]
    } else if goes_before(p, sorted.last()) {
        insert_plan(sorted.drop_last(), p).push(sorted.last())
    } else {
        sorted.push(p)
    }
}

/// The plans in stable order of (start ascending, end descending).
pub open spec fn sort_plans(ps: Seq<PlanView>) -> Seq<PlanView>
    decreases ps.len(),
{
    if ps.len() == 0 {
        seq![]
    } else {
        insert_plan(sort_plans(ps.drop_last()), ps.last())
    }
}

/// Keeps, in order, each plan that starts at or after the end of the last one kept.
pub open spec fn greedy(ps: Seq<PlanView>, last_end: int) -> Seq<PlanView>
    decreases ps.len(),
{
    if ps.len() == 0 {
        seq![]
    } else if ps[0].start >= last_end {
        seq![ps[0]] + greedy(ps.drop_first(), ps[0].end)
    } else {
        greedy(ps.drop_first(), last_end)
    }
}

/// The plans `apply_selected_plans` applies.
pub open spec fn chosen_plans(ps: Seq<PlanView>, include_review: bool) -> Seq<PlanView> {
    greedy(sort_plans(eligible_plans(ps, include_review)), 0)
}

pub open spec fn splice_one(out: Seq<char>, p: PlanView) -> Seq<char> {
    if p.start <= out.len() && p.end <= out.len() && p.start <= p.end && 0 <= p.start {
        out.take(p.start) + p.proposed + out.skip(p.end)
    } else {
        out
    }
}

/// Splices the plans into `out`, the last one first.
pub open spec fn splice_back(out: Seq<char>, ps: Seq<PlanView>) -> Seq<char>
    decreases ps.len(),
{
    if ps.len() == 0 {
        out
    } else {
        splice_back(splice_one(out, ps.last()), ps.drop_last())
    }
}

/// What `apply_selected_plans` returns.
pub open spec fn applied(src: Seq<char>, ps: Seq<PlanView>, include_review: bool) -> Seq<char> {
    splice_back(src, chosen_plans(ps, include_review))
}

fn goes_before_exec(a: &PlanEntry, b: &PlanEntry) -> (r: bool)
    ensures
        r == goes_before(a@, b@),
{
    a.source_range.start < b.source_range.start || (a.source_range.start == b.source_range.start
        && a.source_range.end > b.source_range.end)
}

pub open spec fn idx_view(plans: Seq<PlanEntry>, idx: Seq<usize>) -> Seq<PlanView> {
    idx.map_values(|i: usize| plans[i as int]@)
}

pub open spec fn idx_ok(plans: Seq<PlanEntry>, idx: Seq<usize>) -> bool {
    forall|k: int| 0 <= k < idx.len() ==> (#[trigger] idx[k]) < plans.len()
}

/// Inserts index `i` into `idx`, ordered as `insert_plan` orders.
fn insert_index(plans: &[PlanEntry], idx: &mut Vec<usize>, i: usize)
    requires
        i < plans@.len(),
        idx_ok(plans@, old(idx)@),
    ensures
        idx_ok(plans@, final(idx)@),
        idx_view(plans@, final(idx)@) == insert_plan(idx_view(plans@, old(idx)@), plans@[i as int]@),
{
    let ghost orig = idx@;
    let p = &plans[i];
    let mut pos = idx.len();
    proof {
        assert(orig.take(pos as int) =~= orig);
        assert(idx_view(plans@, orig.skip(pos as int)) =~= seq![]);
        assert(insert_plan(idx_view(plans@, orig), p@) + seq![] =~= insert_plan(idx_view(plans@, orig), p@));
    }
    while pos > 0 && goes_before_exec(p, &plans[idx[pos - 1]])
        invariant
            pos <= idx@.len(),
            idx@ == orig,
            idx_ok(plans@, idx@),
            i < plans@.len(),
            *p == plans@[i as int],
            insert_plan(idx_view(plans@, orig), p@) == insert_plan(
                idx_view(plans@, orig.take(pos as int)),
                p@,
            ) + idx_view(plans@, orig.skip(pos as int)),
        decreases pos,
    {
        proof {
            let t = orig.take(pos as int);
            assert(idx_view(plans@, t).drop_last() =~= idx_view(plans@, orig.take(pos - 1)));
            assert(idx_view(plans@, t).last() == plans@[orig[pos - 1] as int]@);
            assert(idx_view(plans@, orig.skip(pos - 1)) =~= seq![plans@[orig[pos - 1] as int]@]
                + idx_view(plans@, orig.skip(pos as int)));
            assert(insert_plan(idx_view(plans@, t), p@) == insert_plan(
                idx_view(plans@, orig.take(pos - 1)),
                p@,
            ).push(plans@[orig[pos - 1] as int]@));
        }
        pos = pos - 1;
    }
    proof {
        let t = orig.take(pos as int);
        if pos > 0 {
            assert(idx_view(plans@, t).last() == plans@[orig[pos - 1] as int]@);
            assert(insert_plan(idx_view(plans@, t), p@) == idx_view(plans@, t).push(p@));
        } else {
            assert(idx_view(plans@, t) =~= seq![]);
        }
    }
    idx.insert(pos, i);
    proof {
        assert(idx_view(plans@, idx@) =~= idx_view(plans@, orig.take(pos as int)).push(p@)
            + idx_view(plans@, orig.skip(pos as int)));
        assert forall|k: int| 0 <= k < idx@.len() implies (#[trigger] idx@[k]) < plans@.len() by {
            if k < pos {
                assert(idx@[k] == orig[k]);
            } else if k > pos {
                assert(idx@[k] == orig[k - 1]);
            }
        }
    }
}

/// The plans in order of start (longest first at equal starts), keeping each one that starts
/// at or after the end of the last one kept.
pub fn order_disjoint(plans: &Vec<PlanEntry>) -> (r: Vec<PlanEntry>)
    ensures
        plans_view(r@) == greedy(sort_plans(plans_view(plans@)), 0),
{
    let mut sorted: Vec<usize> = Vec::new();
    let mut j: usize = 0;
    let ghost all = plans_view(plans@);
    while j < plans.len()
        invariant
            j <= plans@.len(),
            all == plans_view(plans@),
            idx_ok(plans@, sorted@),
            idx_view(plans@, sorted@) == sort_plans(all.take(j as int)),
        decreases plans.len() - j,
    {
        insert_index(plans.as_slice(), &mut sorted, j);
        proof {
            let t = all.take(j + 1);
            assert(t.drop_last() =~= all.take(j as int));
            assert(t.last() == plans@[j as int]@);
        }
        j = j + 1;
    }
    proof {
        assert(all.take(plans@.len() as int) =~= all);
    }
    let ghost srt = idx_view(plans@, sorted@);
    let mut out: Vec<PlanEntry> = Vec::new();
    let mut last_end: usize = 0;
    let mut m: usize = 0;
    proof {
        assert(srt.skip(0) =~= srt);
        assert(plans_view(out@) =~= seq![]);
        assert(seq![] + greedy(srt, 0) =~= greedy(srt, 0));
    }
    while m < sorted.len()
        invariant
            m <= sorted@.len(),
            srt == idx_view(plans@, sorted@),
            idx_ok(plans@, sorted@),
            greedy(srt, 0) == plans_view(out@) + greedy(srt.skip(m as int), last_end as int),
        decreases sorted.len() - m,
    {
        let p = &plans[sorted[m]];
        proof {
            assert(srt.skip(m as int)[0] == p@);
            assert(srt.skip(m as int).drop_first() =~= srt.skip(m + 1));
        }
        if p.source_range.start >= last_end {
            let ghost before = out@;
            let c = p.clone();
            out.push(c);
            last_end = p.source_range.end;
            proof {
                assert(plans_view(out@) =~= plans_view(before).push(p@));
                assert(plans_view(before) + (seq![p@] + greedy(srt.skip(m + 1), last_end as int))
                    =~= plans_view(out@) + greedy(srt.skip(m + 1), last_end as int));
            }
        }
        m = m + 1;
    }
    proof {
        assert(srt.skip(sorted@.len() as int) =~= seq![]);
        assert(plans_view(out@) + seq![] =~= plans_view(out@));
    }
    out
}

/// Whether a plan is to be applied by a headless run: `SAFE` plans, and `REVIEW` plans when
/// review is allowed.
pub open spec fn chosen_for_apply(p: PlanView, allow_review: bool) -> bool {
    p.safety == Safety::Safe || (allow_review && p.safety == Safety::Review)
}

/// The plans, each selected exactly when it is to be applied by a headless run.
pub fn select_for_apply(plans: &[PlanEntry], allow_review: bool) -> (r: Vec<PlanEntry>)
    ensures
        r@.len() == plans@.len(),
        forall|k: int| 0 <= k < plans@.len() ==> (#[trigger] r@[k])@ == (PlanView {
            selected: chosen_for_apply(plans@[k]@, allow_review),
            ..plans@[k]@
        }),
{
    let mut out: Vec<PlanEntry> = Vec::new();
    let mut k: usize = 0;
    while k < plans.len()
        invariant
            k <= plans@.len(),
            out@.len() == k,
            forall|j: int| 0 <= j < k ==> (#[trigger] out@[j])@ == (PlanView {
                selected: chosen_for_apply(plans@[j]@, allow_review),
                ..plans@[j]@
            }),
        decreases plans.len() - k,
    {
        let mut p = plans[k].clone();
        p.selected = p.safety == Safety::Safe || (allow_review && p.safety == Safety::Review);
        out.push(p);
        k = k + 1;
    }
    out
}

/// Applies the selected plans to `source`: plans that are selected and `SAFE` (or `REVIEW`
/// when `include_review`) are ordered by start, overlapping ones are skipped, and each
/// remaining plan's span is replaced by its proposed text. The rest of the source is kept.
pub fn apply_selected_plans(source: &str, plans: &[PlanEntry], include_review: bool) -> (r: Result<
    String,
    String,
>)
    ensures
        r matches Ok(t) && t@ == applied(source@, plans_view(plans@), include_review),
{
    // eligible plans, as indices
    let mut sel: Vec<usize> = Vec::new();
    let mut k: usize = 0;
    while k < plans.len()
        invariant
            k <= plans@.len(),
            idx_ok(plans@, sel@),
            idx_view(plans@, sel@) == eligible_plans(plans_view(plans@).take(k as int), include_review),
        decreases plans.len() - k,
    {
        let p = &plans[k];
        proof {
            let t = plans_view(plans@).take(k + 1);
            assert(t.drop_last() =~= plans_view(plans@).take(k as int));
            assert(t.last() == p@);
        }
        if p.selected && (p.safety == Safety::Safe || (include_review && p.safety == Safety::Review)) {
            let ghost before = sel@;
            sel.push(k);
            proof {
                assert(idx_view(plans@, sel@) =~= idx_view(plans@, before).push(p@));
            }
        }
        k = k + 1;
    }
    proof {
        assert(plans_view(plans@).take(plans@.len() as int) =~= plans_view(plans@));
    }
    // stable ordering
    let mut sorted: Vec<usize> = Vec::new();
    let mut j: usize = 0;
    while j < sel.len()
        invariant
            j <= sel@.len(),
            idx_ok(plans@, sel@),
            idx_ok(plans@, sorted@),
            idx_view(plans@, sorted@) == sort_plans(idx_view(plans@, sel@).take(j as int)),
        decreases sel.len() - j,
    {
        insert_index(plans, &mut sorted, sel[j]);
        proof {
            let t = idx_view(plans@, sel@).take(j + 1);
            assert(t.drop_last() =~= idx_view(plans@, sel@).take(j as int));
            assert(t.last() == plans@[sel@[j as int] as int]@);
        }
        j = j + 1;
    }
    proof {
        assert(idx_view(plans@, sel@).take(sel@.len() as int) =~= idx_view(plans@, sel@));
    }
    // greedy non-overlapping choice
    let ghost srt = idx_view(plans@, sorted@);
    let mut chosen: Vec<usize> = Vec::new();
    let mut last_end: usize = 0;
    let mut m: usize = 0;
    proof {
        assert(srt.skip(0) =~= srt);
        assert(idx_view(plans@, chosen@) =~= seq![]);
        assert(seq![] + greedy(srt, 0) =~= greedy(srt, 0));
    }
    while m < sorted.len()
        invariant
            m <= sorted@.len(),
            srt == idx_view(plans@, sorted@),
            idx_ok(plans@, sorted@),
            idx_ok(plans@, chosen@),
            greedy(srt, 0) == idx_view(plans@, chosen@) + greedy(srt.skip(m as int), last_end as int),
        decreases sorted.len() - m,
    {
        let p = &plans[sorted[m]];
        proof {
            assert(srt.skip(m as int)[0] == p@);
            assert(srt.skip(m as int).drop_first() =~= srt.skip(m + 1));
        }
        if p.source_range.start >= last_end {
            let ghost before = chosen@;
            chosen.push(sorted[m]);
            last_end = p.source_range.end;
            proof {
                assert(idx_view(plans@, chosen@) =~= idx_view(plans@, before).push(p@));
                assert(idx_view(plans@, before) + (seq![p@] + greedy(srt.skip(m + 1), last_end as int))
                    =~= idx_view(plans@, chosen@) + greedy(srt.skip(m + 1), last_end as int));
            }
        }
        m = m + 1;
    }
    proof {
        assert(srt.skip(sorted@.len() as int) =~= seq![]);
        assert(idx_view(plans@, chosen@) + seq![] =~= idx_view(plans@, chosen@));
    }
    // splice, last first
    let ghost ch = idx_view(plans@, chosen@);
    let mut out = chars_of(source);
    let mut q = chosen.len();
    proof {
        assert(ch.take(q as int) =~= ch);
    }
    while q > 0
        invariant
            q <= chosen@.len(),
            ch == idx_view(plans@, chosen@),
            idx_ok(plans@, chosen@),
            splice_back(source@, ch) == splice_back(out@, ch.take(q as int)),
        decreases q,
    {
        let p = &plans[chosen[q - 1]];
        proof {
            let t = ch.take(q as int);
            assert(t.last() == p@);
            assert(t.drop_last() =~= ch.take(q - 1));
        }
        let s = p.source_range.start;
        let e = p.source_range.end;
        if s <= out.len() && e <= out.len() && s <= e {
            let prop = chars_of(p.proposed.as_str());
            let mut next: Vec<char> = Vec::new();
            crate::text::push_range(&mut next, out.as_slice(), 0, s);
            next.extend_from_slice(prop.as_slice());
            crate::text::push_range(&mut next, out.as_slice(), e, out.len());
            proof {
                assert(next@ =~= out@.take(s as int) + p@.proposed + out@.skip(e as int));
            }
            out = next;
        }
        q = q - 1;
    }
    proof {
        assert(ch.take(0) =~= seq![]);
    }
    Ok(string_of(out.as_slice()))
}

} // verus!

verus! {

/// The source with each plan's span replaced by its proposed text: the text between the
/// spans is copied unchanged.
pub open spec fn weave(src: Seq<char>, ps: Seq<PlanView>, pos: int) -> Seq<char>
    decreases ps.len(),
{
    if ps.len() == 0 {
        src.skip(pos)
    } else {
        src.subrange(pos, ps[0].start) + ps[0].proposed + weave(src, ps.drop_first(), ps[0].end)
    }
}

/// Spans inside `[lo, hi]`, in order, none overlapping the next.
pub open spec fn ordered(ps: Seq<PlanView>, lo: int, hi: int) -> bool {
    &&& forall|k: int| 0 <= k < ps.len() ==> lo <= (#[trigger] ps[k]).start <= ps[k].end <= hi
    &&& forall|k: int, l: int| 0 <= k < l < ps.len() ==> (#[trigger] ps[k]).end <= (#[trigger] ps[l]).start
}

proof fn lemma_ordered_drop_last(ps: Seq<PlanView>, lo: int, hi: int)
    requires
        ps.len() > 0,
        ordered(ps, lo, hi),
    ensures
        ordered(ps.drop_last(), lo, ps.last().start),
{
    let q = ps.drop_last();
    assert forall|k: int| 0 <= k < q.len() implies lo <= (#[trigger] q[k]).start <= q[k].end <= ps.last().start by {
        assert(q[k] == ps[k]);
        assert(ps[k].end <= ps[ps.len() - 1].start);
    }
    assert forall|k: int, l: int| 0 <= k < l < q.len() implies (#[trigger] q[k]).end <= (#[trigger] q[l]).start by {
        assert(q[k] == ps[k]);
        assert(q[l] == ps[l]);
    }
}

proof fn lemma_weave_last(src: Seq<char>, ps: Seq<PlanView>, pos: int)
    requires
        ps.len() > 0,
        ordered(ps, pos, src.len() as int),
        0 <= pos,
    ensures
        weave(src, ps, pos) == weave(src.take(ps.last().start), ps.drop_last(), pos) + ps.last().proposed
            + src.skip(ps.last().end),
    decreases ps.len(),
{
    let l = ps.last();
    if ps.len() == 1 {
        assert(ps[0] == l);
        assert(ps.drop_first() =~= seq![]);
        assert(ps.drop_last() =~= seq![]);
        assert(pos <= l.start <= l.end <= src.len());
        assert(src.take(l.start).skip(pos) =~= src.subrange(pos, l.start));
        assert(weave(src, ps.drop_first(), l.end) == src.skip(l.end));
        assert(weave(src.take(l.start), ps.drop_last(), pos) == src.take(l.start).skip(pos));
        assert(weave(src, ps, pos) == src.subrange(pos, l.start) + l.proposed + src.skip(l.end));
    } else {
        let t = ps.drop_first();
        assert forall|k: int| 0 <= k < t.len() implies ps[0].end <= (#[trigger] t[k]).start <= t[k].end <= src.len() by {
            assert(t[k] == ps[k + 1]);
        }
        assert forall|k: int, m: int| 0 <= k < m < t.len() implies (#[trigger] t[k]).end <= (#[trigger] t[m]).start by {
            assert(t[k] == ps[k + 1]);
            assert(t[m] == ps[m + 1]);
        }
        lemma_weave_last(src, t, ps[0].end);
        assert(t.last() == l);
        let d = ps.drop_last();
        assert(d[0] == ps[0]);
        assert(d.drop_first() =~= t.drop_last());
        assert(ps[0].end <= l.start);
        assert(src.take(l.start).subrange(pos, ps[0].start) =~= src.subrange(pos, ps[0].start));
        assert(weave(src.take(l.start), d, pos) == src.take(l.start).subrange(pos, d[0].start) + d[0].proposed
            + weave(src.take(l.start), d.drop_first(), d[0].end));
        assert(weave(src, ps, pos) =~= weave(src.take(l.start), d, pos) + l.proposed + src.skip(l.end));
    }
}

proof fn lemma_splice_suffix(p: Seq<char>, t: Seq<char>, ps: Seq<PlanView>)
    requires
        ordered(ps, 0, p.len() as int),
    ensures
        splice_back(p + t, ps) == splice_back(p, ps) + t,
    decreases ps.len(),
{
    if ps.len() > 0 {
        let l = ps.last();
        assert(0 <= l.start <= l.end <= p.len()) by {
            assert(ps[ps.len() - 1] == l);
        }
        let p1 = splice_one(p, l);
        assert(splice_one(p + t, l) =~= p1 + t);
        lemma_ordered_drop_last(ps, 0, p.len() as int);
        assert(p1.len() >= l.start);
        let q = ps.drop_last();
        assert forall|k: int| 0 <= k < q.len() implies 0 <= (#[trigger] q[k]).start <= q[k].end <= p1.len() by {}
        lemma_splice_suffix(p1, t, q);
    }
}

/// Splicing ordered, non-overlapping spans, last first, gives the woven text.
pub proof fn lemma_splice_is_weave(src: Seq<char>, ps: Seq<PlanView>)
    requires
        ordered(ps, 0, src.len() as int),
    ensures
        splice_back(src, ps) == weave(src, ps, 0),
    decreases ps.len(),
{
    if ps.len() == 0 {
        assert(src.skip(0) =~= src);
    } else {
        let l = ps.last();
        assert(0 <= l.start <= l.end <= src.len()) by {
            assert(ps[ps.len() - 1] == l);
        }
        let pre = src.take(l.start);
        let t = l.proposed + src.skip(l.end);
        assert(splice_one(src, l) =~= pre + t);
        lemma_ordered_drop_last(ps, 0, src.len() as int);
        lemma_splice_suffix(pre, t, ps.drop_last());
        lemma_splice_is_weave(pre, ps.drop_last());
        lemma_weave_last(src, ps, 0);
        assert(splice_back(src, ps) =~= weave(src, ps, 0));
    }
}

pub open spec fn all_fit(src: Seq<char>, ps: Seq<PlanView>) -> bool {
    forall|k: int| 0 <= k < ps.len() ==> 0 <= (#[trigger] ps[k]).start <= ps[k].end <= src.len()
}

pub open spec fn all_eligible(ps: Seq<PlanView>, include_review: bool) -> bool {
    forall|k: int| 0 <= k < ps.len() ==> eligible(#[trigger] ps[k], include_review)
}

proof fn lemma_eligible_plans(src: Seq<char>, ps: Seq<PlanView>, ir: bool)
    requires
        all_fit(src, ps),
    ensures
        all_fit(src, eligible_plans(ps, ir)),
        all_eligible(eligible_plans(ps, ir), ir),
    decreases ps.len(),
{
    if ps.len() > 0 {
        let d = ps.drop_last();
        assert forall|k: int| 0 <= k < d.len() implies 0 <= (#[trigger] d[k]).start <= d[k].end <= src.len() by {
            assert(d[k] == ps[k]);
        }
        lemma_eligible_plans(src, d, ir);
        assert(ps[ps.len() - 1] == ps.last());
    }
}

proof fn lemma_insert_plan(src: Seq<char>, sorted: Seq<PlanView>, p: PlanView, ir: bool)
    requires
        all_fit(src, sorted),
        all_eligible(sorted, ir),
        0 <= p.start <= p.end <= src.len(),
        eligible(p, ir),
    ensures
        all_fit(src, insert_plan(sorted, p)),
        all_eligible(insert_plan(sorted, p), ir),
    decreases sorted.len(),
{
    if sorted.len() > 0 && goes_before(p, sorted.last()) {
        let d = sorted.drop_last();
        assert forall|k: int| 0 <= k < d.len() implies 0 <= (#[trigger] d[k]).start <= d[k].end <= src.len() && eligible(d[k], ir) by {
            assert(d[k] == sorted[k]);
        }
        lemma_insert_plan(src, d, p, ir);
        assert(sorted[sorted.len() - 1] == sorted.last());
    }
}

proof fn lemma_sort_plans(src: Seq<char>, ps: Seq<PlanView>, ir: bool)
    requires
        all_fit(src, ps),
        all_eligible(ps, ir),
    ensures
        all_fit(src, sort_plans(ps)),
        all_eligible(sort_plans(ps), ir),
    decreases ps.len(),
{
    if ps.len() > 0 {
        let d = ps.drop_last();
        assert forall|k: int| 0 <= k < d.len() implies 0 <= (#[trigger] d[k]).start <= d[k].end <= src.len() && eligible(d[k], ir) by {
            assert(d[k] == ps[k]);
        }
        lemma_sort_plans(src, d, ir);
        assert(ps[ps.len() - 1] == ps.last());
        lemma_insert_plan(src, sort_plans(d), ps.last(), ir);
    }
}

proof fn lemma_greedy(src: Seq<char>, ps: Seq<PlanView>, last_end: int, ir: bool)
    requires
        all_fit(src, ps),
        all_eligible(ps, ir),
        0 <= last_end,
    ensures
        ordered(greedy(ps, last_end), last_end, src.len() as int),
        all_eligible(greedy(ps, last_end), ir),
    decreases ps.len(),
{
    if ps.len() > 0 {
        let t = ps.drop_first();
        assert forall|k: int| 0 <= k < t.len() implies 0 <= (#[trigger] t[k]).start <= t[k].end <= src.len() && eligible(t[k], ir) by {
            assert(t[k] == ps[k + 1]);
        }
        if ps[0].start >= last_end {
            lemma_greedy(src, t, ps[0].end, ir);
            let g = greedy(ps, last_end);
            let r = greedy(t, ps[0].end);
            assert(g == seq![ps[0]] + r);
            assert forall|k: int| 0 <= k < g.len() implies last_end <= (#[trigger] g[k]).start <= g[k].end <= src.len() && eligible(g[k], ir) by {
                if k > 0 {
                    assert(g[k] == r[k - 1]);
                }
            }
            assert forall|k: int, l: int| 0 <= k < l < g.len() implies (#[trigger] g[k]).end <= (#[trigger] g[l]).start by {
                assert(g[l] == r[l - 1]);
                if k > 0 {
                    assert(g[k] == r[k - 1]);
                }
            }
        } else {
            lemma_greedy(src, t, last_end, ir);
        }
    }
}

/// Law (surgical splicing): for plans whose spans lie inside the source, the plans applied are
/// eligible, in order and non-overlapping, and the output is the source with exactly those
/// spans replaced; every character outside them is kept, in place and in order.
pub proof fn law_untouched_text_preserved(src: Seq<char>, ps: Seq<PlanView>, include_review: bool)
    requires
        all_fit(src, ps),
    ensures
        ordered(chosen_plans(ps, include_review), 0, src.len() as int),
        all_eligible(chosen_plans(ps, include_review), include_review),
        applied(src, ps, include_review) == weave(src, chosen_plans(ps, include_review), 0),
{
    lemma_eligible_plans(src, ps, include_review);
    lemma_sort_plans(src, eligible_plans(ps, include_review), include_review);
    lemma_greedy(src, sort_plans(eligible_plans(ps, include_review)), 0, include_review);
    lemma_splice_is_weave(src, chosen_plans(ps, include_review));
}

/// Law: with no eligible plan, applying changes nothing.
pub proof fn law_no_plans_no_change(src: Seq<char>, ps: Seq<PlanView>, include_review: bool)
    requires
        forall|k: int| 0 <= k < ps.len() ==> !eligible(#[trigger] ps[k], include_review),
    ensures
        applied(src, ps, include_review) == src,
    decreases ps.len(),
{
    if ps.len() > 0 {
        let d = ps.drop_last();
        assert forall|k: int| 0 <= k < d.len() implies !eligible(#[trigger] d[k], include_review) by {
            assert(d[k] == ps[k]);
        }
        law_no_plans_no_change(src, d, include_review);
        assert(ps[ps.len() - 1] == ps.last());
        assert(eligible_plans(ps, include_review) == eligible_plans(d, include_review));
    } else {
        assert(eligible_plans(ps, include_review) =~= seq![]);
    }
}

/// Every plan that `insert_plan` leaves is `p` or one of `sorted`.
proof fn lemma_insert_members(sorted: Seq<PlanView>, p: PlanView)
    ensures
        forall|k: int| 0 <= k < insert_plan(sorted, p).len() ==> #[trigger] insert_plan(sorted, p)[k] == p
            || sorted.contains(insert_plan(sorted, p)[k]),
        insert_plan(sorted, p).len() == sorted.len() + 1,
    decreases sorted.len(),
{
    if sorted.len() > 0 && goes_before(p, sorted.last()) {
        let d = sorted.drop_last();
        lemma_insert_members(d, p);
        let r = insert_plan(sorted, p);
        let q = insert_plan(d, p);
        assert(r == q.push(sorted.last()));
        assert forall|k: int| 0 <= k < r.len() implies #[trigger] r[k] == p || sorted.contains(r[k]) by {
            if k < q.len() {
                assert(r[k] == q[k]);
                if q[k] != p {
                    let w = choose|w: int| 0 <= w < d.len() && d[w] == q[k];
                    assert(sorted[w] == d[w]);
                }
            } else {
                assert(sorted[sorted.len() - 1] == r[k]);
            }
        }
    } else if sorted.len() > 0 {
        let r = sorted.push(p);
        assert forall|k: int| 0 <= k < r.len() implies #[trigger] r[k] == p || sorted.contains(r[k]) by {
            if k < sorted.len() {
                assert(sorted[k] == r[k]);
            }
        }
    }
}

/// Every plan that `sort_plans` gives back is one of its input.
pub proof fn lemma_sort_members(ps: Seq<PlanView>)
    ensures
        forall|k: int| 0 <= k < sort_plans(ps).len() ==> ps.contains(#[trigger] sort_plans(ps)[k]),
        sort_plans(ps).len() == ps.len(),
    decreases ps.len(),
{
    if ps.len() > 0 {
        let d = ps.drop_last();
        lemma_sort_members(d);
        lemma_insert_members(sort_plans(d), ps.last());
        let r = sort_plans(ps);
        assert forall|k: int| 0 <= k < r.len() implies ps.contains(#[trigger] r[k]) by {
            if r[k] == ps.last() {
                assert(ps[ps.len() - 1] == r[k]);
            } else {
                let w = choose|w: int| 0 <= w < sort_plans(d).len() && sort_plans(d)[w] == r[k];
                let v = choose|v: int| 0 <= v < d.len() && d[v] == sort_plans(d)[w];
                assert(ps[v] == d[v]);
            }
        }
    }
}

/// Every plan that `greedy` keeps is one of its input.
pub proof fn lemma_greedy_members(ps: Seq<PlanView>, last_end: int)
    ensures
        forall|k: int| 0 <= k < greedy(ps, last_end).len() ==> ps.contains(#[trigger] greedy(ps, last_end)[k]),
    decreases ps.len(),
{
    if ps.len() > 0 {
        let t = ps.drop_first();
        let r = greedy(ps, last_end);
        if ps[0].start >= last_end {
            lemma_greedy_members(t, ps[0].end);
            let g = greedy(t, ps[0].end);
            assert(r == seq![ps[0]] + g);
            assert forall|k: int| 0 <= k < r.len() implies ps.contains(#[trigger] r[k]) by {
                if k == 0 {
                    assert(ps[0] == r[0]);
                } else {
                    assert(r[k] == g[k - 1]);
                    let w = choose|w: int| 0 <= w < t.len() && t[w] == g[k - 1];
                    assert(ps[w + 1] == t[w]);
                }
            }
        } else {
            lemma_greedy_members(t, last_end);
            assert(r == greedy(t, last_end));
            assert forall|k: int| 0 <= k < r.len() implies ps.contains(#[trigger] r[k]) by {
                assert(t.contains(greedy(t, last_end)[k]));
                let w = choose|w: int| 0 <= w < t.len() && t[w] == r[k];
                assert(ps[w + 1] == t[w]);
            }
        }
    }
}

/// `greedy` over ordered-by-start plans keeps an ordered, non-overlapping list.
pub proof fn lemma_greedy_ordered(src: Seq<char>, ps: Seq<PlanView>, last_end: int)
    requires
        all_fit(src, ps),
        0 <= last_end,
    ensures
        ordered(greedy(ps, last_end), last_end, src.len() as int),
    decreases ps.len(),
{
    if ps.len() > 0 {
        let t = ps.drop_first();
        assert forall|k: int| 0 <= k < t.len() implies 0 <= (#[trigger] t[k]).start <= t[k].end <= src.len() by {
            assert(t[k] == ps[k + 1]);
        }
        if ps[0].start >= last_end {
            lemma_greedy_ordered(src, t, ps[0].end);
            let g = greedy(ps, last_end);
            let r = greedy(t, ps[0].end);
            assert(g == seq![ps[0]] + r);
            assert forall|k: int| 0 <= k < g.len() implies last_end <= (#[trigger] g[k]).start <= g[k].end <= src.len() by {
                if k > 0 {
                    assert(g[k] == r[k - 1]);
                }
            }
            assert forall|k: int, l: int| 0 <= k < l < g.len() implies (#[trigger] g[k]).end <= (#[trigger] g[l]).start by {
                assert(g[l] == r[l - 1]);
                if k > 0 {
                    assert(g[k] == r[k - 1]);
                }
            }
        } else {
            lemma_greedy_ordered(src, t, last_end);
        }
    }
}

/// Law: ordering by start and dropping overlaps leaves spans in order and pairwise disjoint,
/// each of them one of the plans given.
pub proof fn law_order_disjoint(src: Seq<char>, ps: Seq<PlanView>)
    requires
        all_fit(src, ps),
    ensures
        ordered(greedy(sort_plans(ps), 0), 0, src.len() as int),
        forall|k: int| 0 <= k < greedy(sort_plans(ps), 0).len() ==> ps.contains(
            #[trigger] greedy(sort_plans(ps), 0)[k],
        ),
{
    lemma_sort_members(ps);
    let sp = sort_plans(ps);
    assert forall|k: int| 0 <= k < sp.len() implies 0 <= (#[trigger] sp[k]).start <= sp[k].end <= src.len() by {
        let w = choose|w: int| 0 <= w < ps.len() && ps[w] == sp[k];
        assert(0 <= ps[w].start <= ps[w].end <= src.len());
    }
    lemma_greedy_ordered(src, sp, 0);
    lemma_greedy_members(sp, 0);
    let g = greedy(sp, 0);
    assert forall|k: int| 0 <= k < g.len() implies ps.contains(#[trigger] g[k]) by {
        let w = choose|w: int| 0 <= w < sp.len() && sp[w] == g[k];
        assert(ps.contains(sp[w]));
    }
}

/// No plan of `ps` goes before an earlier one.
pub open spec fn in_order(ps: Seq<PlanView>) -> bool {
    forall|i: int, j: int| 0 <= i < j < ps.len() ==> !goes_before(#[trigger] ps[j], #[trigger] ps[i])
}

proof fn lemma_insert_keeps(sorted: Seq<PlanView>, p: PlanView)
    ensures
        insert_plan(sorted, p).contains(p),
        forall|k: int| 0 <= k < sorted.len() ==> insert_plan(sorted, p).contains(#[trigger] sorted[k]),
        in_order(sorted) ==> in_order(insert_plan(sorted, p)),
    decreases sorted.len(),
{
    lemma_insert_members(sorted, p);
    if sorted.len() > 0 && goes_before(p, sorted.last()) {
        let d = sorted.drop_last();
        lemma_insert_keeps(d, p);
        lemma_insert_members(d, p);
        let q = insert_plan(d, p);
        let r = insert_plan(sorted, p);
        assert(r == q.push(sorted.last()));
        let wq = choose|w: int| 0 <= w < q.len() && q[w] == p;
        assert(r[wq] == p);
        assert forall|k: int| 0 <= k < sorted.len() implies r.contains(#[trigger] sorted[k]) by {
            if k < d.len() {
                assert(sorted[k] == d[k]);
                let w = choose|w: int| 0 <= w < q.len() && q[w] == d[k];
                assert(r[w] == q[w]);
            } else {
                assert(r[r.len() - 1] == sorted[k]);
            }
        }
        if in_order(sorted) {
            assert(in_order(d)) by {
                assert forall|i: int, j: int| 0 <= i < j < d.len() implies !goes_before(#[trigger] d[j], #[trigger] d[i]) by {
                    assert(d[i] == sorted[i] && d[j] == sorted[j]);
                }
            }
            assert forall|i: int, j: int| 0 <= i < j < r.len() implies !goes_before(#[trigger] r[j], #[trigger] r[i]) by {
                if j < q.len() {
                    assert(r[i] == q[i] && r[j] == q[j]);
                } else {
                    assert(r[i] == q[i]);
                    if q[i] != p {
                        let w = choose|w: int| 0 <= w < d.len() && d[w] == q[i];
                        assert(sorted[w] == d[w]);
                        assert(!goes_before(sorted[sorted.len() - 1], sorted[w]));
                    }
                }
            }
        }
    } else if sorted.len() > 0 {
        let r = sorted.push(p);
        assert(r[r.len() - 1] == p);
        assert forall|k: int| 0 <= k < sorted.len() implies r.contains(#[trigger] sorted[k]) by {
            assert(r[k] == sorted[k]);
        }
        if in_order(sorted) {
            assert forall|i: int, j: int| 0 <= i < j < r.len() implies !goes_before(#[trigger] r[j], #[trigger] r[i]) by {
                assert(r[i] == sorted[i]);
                if j < sorted.len() {
                    assert(r[j] == sorted[j]);
                } else if i < sorted.len() - 1 {
                    assert(!goes_before(sorted[sorted.len() - 1], sorted[i]));
                }
            }
        }
    } else {
        assert(insert_plan(sorted, p) == seq![p]);
        assert(insert_plan(sorted, p)[0] == p);
    }
}

proof fn lemma_sort_keeps(ps: Seq<PlanView>)
    ensures
        forall|k: int| 0 <= k < ps.len() ==> sort_plans(ps).contains(#[trigger] ps[k]),
        in_order(sort_plans(ps)),
    decreases ps.len(),
{
    if ps.len() > 0 {
        let d = ps.drop_last();
        lemma_sort_keeps(d);
        lemma_insert_keeps(sort_plans(d), ps.last());
        let sd = sort_plans(d);
        assert forall|k: int| 0 <= k < ps.len() implies sort_plans(ps).contains(#[trigger] ps[k]) by {
            if k < d.len() {
                assert(ps[k] == d[k]);
                let w = choose|w: int| 0 <= w < sd.len() && sd[w] == d[k];
                assert(insert_plan(sd, ps.last()).contains(sd[w]));
            }
        }
    }
}

/// Each plan of `ps` dropped by `greedy` starts before `last_end` or inside a kept plan that
/// comes no later in order.
proof fn lemma_greedy_blames(ps: Seq<PlanView>, last_end: int)
    requires
        in_order(ps),
    ensures
        forall|k: int|
            0 <= k < ps.len() ==> greedy(ps, last_end).contains(#[trigger] ps[k]) || ps[k].start < last_end || exists|q: PlanView|
                greedy(ps, last_end).contains(q) && q.start <= ps[k].start < q.end && (q.start < ps[k].start || q.end
                    >= ps[k].end),
    decreases ps.len(),
{
    if ps.len() > 0 {
        let t = ps.drop_first();
        assert(in_order(t)) by {
            assert forall|i: int, j: int| 0 <= i < j < t.len() implies !goes_before(#[trigger] t[j], #[trigger] t[i]) by {
                assert(t[i] == ps[i + 1] && t[j] == ps[j + 1]);
            }
        }
        let r = greedy(ps, last_end);
        if ps[0].start >= last_end {
            lemma_greedy_blames(t, ps[0].end);
            let g = greedy(t, ps[0].end);
            assert(r == seq![ps[0]] + g);
            assert(r[0] == ps[0]);
            assert forall|k: int| 0 <= k < ps.len() implies r.contains(#[trigger] ps[k]) || ps[k].start < last_end || exists|
                q: PlanView,
            | r.contains(q) && q.start <= ps[k].start < q.end && (q.start < ps[k].start || q.end >= ps[k].end) by {
                if k > 0 {
                    assert(ps[k] == t[k - 1]);
                    if g.contains(ps[k]) {
                        let w = choose|w: int| 0 <= w < g.len() && g[w] == ps[k];
                        assert(r[w + 1] == g[w]);
                    } else if ps[k].start < ps[0].end {
                        assert(!goes_before(ps[k], ps[0]));
                        assert(r.contains(ps[0]));
                    } else {
                        let q = choose|q: PlanView|
                            g.contains(q) && q.start <= t[k - 1].start < q.end && (q.start < t[k - 1].start || q.end >= t[k
                                - 1].end);
                        let w = choose|w: int| 0 <= w < g.len() && g[w] == q;
                        assert(r[w + 1] == g[w]);
                        assert(r.contains(q));
                    }
                }
            }
        } else {
            lemma_greedy_blames(t, last_end);
            assert(r == greedy(t, last_end));
            assert forall|k: int| 0 <= k < ps.len() implies r.contains(#[trigger] ps[k]) || ps[k].start < last_end || exists|
                q: PlanView,
            | r.contains(q) && q.start <= ps[k].start < q.end && (q.start < ps[k].start || q.end >= ps[k].end) by {
                if k > 0 {
                    assert(ps[k] == t[k - 1]);
                }
            }
        }
    }
}

/// Law (overlap resolution): of plans that start at or after 0, ordering them without overlaps
/// keeps each plan, or drops it only for a kept plan that overlaps it and comes first: one
/// that starts earlier, or at the same place and ends no earlier.
pub proof fn law_dropped_plans_overlap_a_kept_one(ps: Seq<PlanView>)
    requires
        forall|k: int| 0 <= k < ps.len() ==> 0 <= (#[trigger] ps[k]).start,
    ensures
        forall|k: int|
            0 <= k < ps.len() ==> greedy(sort_plans(ps), 0).contains(#[trigger] ps[k]) || exists|q: PlanView|
                greedy(sort_plans(ps), 0).contains(q) && q.start <= ps[k].start < q.end && (q.start < ps[k].start || q.end
                    >= ps[k].end),
{
    lemma_sort_keeps(ps);
    let sp = sort_plans(ps);
    lemma_greedy_blames(sp, 0);
    assert forall|k: int| 0 <= k < ps.len() implies greedy(sp, 0).contains(#[trigger] ps[k]) || exists|q: PlanView|
        greedy(sp, 0).contains(q) && q.start <= ps[k].start < q.end && (q.start < ps[k].start || q.end >= ps[k].end) by {
        assert(sp.contains(ps[k]));
        let w = choose|w: int| 0 <= w < sp.len() && sp[w] == ps[k];
        assert(greedy(sp, 0).contains(sp[w]) || sp[w].start < 0 || exists|q: PlanView|
            greedy(sp, 0).contains(q) && q.start <= sp[w].start < q.end && (q.start < sp[w].start || q.end >= sp[w].end));
    }
}

} // verus!
