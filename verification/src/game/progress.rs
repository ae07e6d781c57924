//! Rules over the log of cleared stages: newest-first listing, the bounded list of recent
//! saves, and the leaderboard of the highest stage per nickname.
use vstd::prelude::*;

use std::collections::VecDeque;

use super::text::{
    chars_of, lemma_lex_asym, lemma_lex_irreflexive, lemma_lex_total, lemma_lex_trans, lex_less,
    lex_lt, lowercase, same_text, to_lowercase, trim, trimmed,
};

verus! {

/// What the rules read of one saved run: the nickname, the stage and whether it was a
/// replay of an earlier save.
#[derive(Clone, Debug)]
pub struct RunSummary {
    pub player_name: String,
    pub stage: u32,
    pub is_replay: bool,
}

/// The newest `max` entries of a log kept oldest first, newest first.
pub open spec fn newest_first_spec<T>(log: Seq<T>, max: nat) -> Seq<T> {
    let n = if log.len() < max {
        log.len()
    } else {
        max
    };
    Seq::new(n, |i: int| log[log.len() - 1 - i])
}

/// Newest saves first: the log (oldest first) reversed, cut to at most `max` entries.
pub fn newest_first<T>(log: Vec<T>, max: usize) -> (r: Vec<T>)
    ensures
        r@ == newest_first_spec(log@, max as nat),
{
    let ghost orig = log@;
    let mut rest = log;
    let mut out: Vec<T> = Vec::new();
    while out.len() < max && rest.len() > 0
        invariant
            rest@ == orig.subrange(0, orig.len() - out@.len()),
            out@.len() <= max,
            out@.len() <= orig.len(),
            forall|i: int| 0 <= i < out@.len() ==> out@[i] == orig[orig.len() - 1 - i],
        decreases rest@.len(),
    {
        let x = rest.pop().unwrap();
        out.push(x);
        assert(rest@ =~= orig.subrange(0, orig.len() - out@.len()));
    }
    assert(out@ =~= newest_first_spec(orig, max as nat));
    out
}

/// The save at position `index` of the newest-first list, if the log has that many.
pub fn record_by_newest_index<T>(log: Vec<T>, index: usize) -> (r: Option<T>)
    requires
        index < usize::MAX,
    ensures
        index < log@.len() ==> r == Some(log@[log@.len() - 1 - index]),
        index >= log@.len() ==> r.is_none(),
{
    let ghost orig = log@;
    let mut v = newest_first(log, index + 1);
    if index < v.len() {
        assert(v@.len() == index + 1);
        v.pop()
    } else {
        None
    }
}

/// Keeps the most recent saves in memory: with a positive capacity the new one is appended,
/// the oldest first dropped when the list is full; with capacity zero nothing is kept.
pub fn push_recent<T>(recent: &mut VecDeque<T>, cap: usize, item: T)
    ensures
        cap == 0 ==> final(recent)@ == old(recent)@,
        cap > 0 && old(recent)@.len() >= cap ==> final(recent)@ == old(recent)@.drop_first().push(
            item,
        ),
        cap > 0 && old(recent)@.len() < cap ==> final(recent)@ == old(recent)@.push(item),
{
    if cap > 0 {
        if recent.len() >= cap {
            let ghost r0 = recent@;
            recent.pop_front();
            assert(recent@ =~= r0.drop_first());
        }
        recent.push_back(item);
    }
}

/// The nickname a run is saved under: the trimmed nickname, or `player` when it is blank.
pub fn save_name(player_name: &str) -> (r: String)
    ensures
        trimmed(player_name@).len() > 0 ==> r@ == trimmed(player_name@),
        trimmed(player_name@).len() == 0 ==> r@ == "player"@,
{
    let t = trim(player_name);
    if t.is_empty() {
        "player".to_owned()
    } else {
        t.to_owned()
    }
}

/// The nickname a save counts under: its trimmed text.
pub open spec fn name_key(r: RunSummary) -> Seq<char> {
    trimmed(r.player_name@)
}

/// Saves with an empty trimmed nickname do not count.
pub open spec fn counts(r: RunSummary) -> bool {
    name_key(r).len() > 0
}

/// `e` names a counted nickname with the highest stage any counted save of it reached.
pub open spec fn best_entry(rows: Seq<RunSummary>, e: (Seq<char>, u32)) -> bool {
    &&& exists|i: int| 0 <= i < rows.len() && counts(rows[i]) && name_key(#[trigger] rows[i]) == e.0 && rows[i].stage == e.1
    &&& forall|i: int| 0 <= i < rows.len() && counts(#[trigger] rows[i]) && name_key(rows[i]) == e.0 ==> rows[i].stage <= e.1
}

/// Leaderboard order: higher stage first, then case-folded name ascending.
pub open spec fn ranks_before(a: (Seq<char>, u32), b: (Seq<char>, u32)) -> bool {
    a.1 > b.1 || (a.1 == b.1 && lex_lt(lowercase(a.0), lowercase(b.0)))
}

pub open spec fn entry_view(e: (String, u32)) -> (Seq<char>, u32) {
    (e.0@, e.1)
}

/// One entry per counted nickname, each with its best stage.
pub open spec fn is_aggregate(rows: Seq<RunSummary>, v: Seq<(String, u32)>) -> bool {
    &&& forall|i: int| 0 <= i < v.len() ==> best_entry(rows, entry_view(#[trigger] v[i]))
    &&& forall|i: int, j: int| 0 <= i < j < v.len() ==> (#[trigger] v[i]).0@ != (#[trigger] v[j]).0@
    &&& forall|k: int| 0 <= k < rows.len() && counts(#[trigger] rows[k]) ==> exists|i: int|
        0 <= i < v.len() && (#[trigger] v[i]).0@ == name_key(rows[k])
}

/// The leaderboard: one entry per counted nickname with its best stage, in leaderboard order.
pub open spec fn is_leaderboard(rows: Seq<RunSummary>, v: Seq<(String, u32)>) -> bool {
    &&& is_aggregate(rows, v)
    &&& forall|i: int, j: int|
        0 <= i < j < v.len() ==> !ranks_before(entry_view(#[trigger] v[j]), entry_view(#[trigger] v[i]))
}

/// Collects the best stage per trimmed nickname, in order of first appearance.
fn best_stage_per_player(rows: &Vec<RunSummary>) -> (v: Vec<(String, u32)>)
    ensures
        is_aggregate(rows@, v@),
{
    let mut out: Vec<(String, u32)> = Vec::new();
    let mut k: usize = 0;
    while k < rows.len()
        invariant
            k <= rows@.len(),
            is_aggregate(rows@.subrange(0, k as int), out@),
        decreases rows@.len() - k,
    {
        let ghost pre = rows@.subrange(0, k as int);
        let ghost post = rows@.subrange(0, k as int + 1);
        assert(post =~= pre.push(rows@[k as int]));
        let r = &rows[k];
        let t = trim(r.player_name.as_str());
        if t.is_empty() {
            proof {
                lemma_aggregate_skip(pre, out@, rows@[k as int]);
            }
        } else {
            let mut j: usize = 0;
            let mut found = false;
            while j < out.len() && !found
                invariant
                    j <= out@.len(),
                    !found ==> forall|i: int| 0 <= i < j ==> (#[trigger] out@[i]).0@ != t@,
                    found ==> j > 0 && out@[j - 1].0@ == t@,
                decreases out@.len() - j,
            {
                if same_text(out[j].0.as_str(), t) {
                    found = true;
                }
                j += 1;
            }
            if found {
                let i = j - 1;
                if r.stage > out[i].1 {
                    let name = out[i].0.clone();
                    let ghost o0 = out@;
                    out.set(i, (name, r.stage));
                    proof {
                        lemma_aggregate_raise(pre, o0, rows@[k as int], i as int);
                    }
                } else {
                    proof {
                        lemma_aggregate_keep(pre, out@, rows@[k as int], i as int);
                    }
                }
            } else {
                let ghost o0 = out@;
                let name = t.to_owned();
                proof {
                    lemma_aggregate_new(pre, o0, rows@[k as int], name);
                }
                out.push((name, r.stage));
            }
        }
        k += 1;
    }
    assert(rows@.subrange(0, rows@.len() as int) =~= rows@);
    out
}

#[verifier::rlimit(30)]
proof fn lemma_aggregate_skip(pre: Seq<RunSummary>, v: Seq<(String, u32)>, r: RunSummary)
    requires
        is_aggregate(pre, v),
        !counts(r),
    ensures
        is_aggregate(pre.push(r), v),
{
    let post = pre.push(r);
    assert forall|i: int| 0 <= i < v.len() implies best_entry(post, entry_view(#[trigger] v[i])) by {
        assert(best_entry(pre, entry_view(v[i])));
        let k = choose|k: int| 0 <= k < pre.len() && counts(pre[k]) && name_key(#[trigger] pre[k]) == v[i].0@ && pre[k].stage == v[i].1;
        assert(post[k] == pre[k]);
        assert forall|m: int| 0 <= m < post.len() && counts(#[trigger] post[m]) && name_key(post[m]) == v[i].0@ implies post[m].stage <= v[i].1 by {
            if m < pre.len() {
                assert(post[m] == pre[m]);
            }
        }
    }
    assert forall|m: int| 0 <= m < post.len() && counts(#[trigger] post[m]) implies exists|i: int|
        0 <= i < v.len() && (#[trigger] v[i]).0@ == name_key(post[m]) by {
        assert(post[m] == pre[m]);
    }
}

/// A best entry stays best when a save that does not beat it is appended.
proof fn lemma_best_entry_extend(pre: Seq<RunSummary>, e: (Seq<char>, u32), r: RunSummary)
    requires
        best_entry(pre, e),
        counts(r) && name_key(r) == e.0 ==> r.stage <= e.1,
    ensures
        best_entry(pre.push(r), e),
{
    let post = pre.push(r);
    let k = choose|k: int| 0 <= k < pre.len() && counts(pre[k]) && name_key(#[trigger] pre[k]) == e.0 && pre[k].stage == e.1;
    assert(post[k] == pre[k]);
    assert forall|m: int| 0 <= m < post.len() && counts(#[trigger] post[m]) && name_key(post[m]) == e.0 implies post[m].stage <= e.1 by {
        if m < pre.len() {
            assert(post[m] == pre[m]);
        }
    }
}

/// Distinct positions of an aggregate hold distinct names.
proof fn lemma_aggregate_distinct(pre: Seq<RunSummary>, v: Seq<(String, u32)>, i: int, j: int)
    requires
        is_aggregate(pre, v),
        0 <= i < v.len(),
        0 <= j < v.len(),
        i != j,
    ensures
        v[i].0@ != v[j].0@,
{
    if i < j {
        assert((v[i]).0@ != (v[j]).0@);
    } else {
        assert((v[j]).0@ != (v[i]).0@);
    }
}

#[verifier::rlimit(30)]
proof fn lemma_aggregate_keep(pre: Seq<RunSummary>, v: Seq<(String, u32)>, r: RunSummary, i0: int)
    requires
        is_aggregate(pre, v),
        counts(r),
        0 <= i0 < v.len(),
        v[i0].0@ == name_key(r),
        r.stage <= v[i0].1,
    ensures
        is_aggregate(pre.push(r), v),
{
    let post = pre.push(r);
    assert forall|i: int| 0 <= i < v.len() implies best_entry(post, entry_view(#[trigger] v[i])) by {
        if i != i0 {
            lemma_aggregate_distinct(pre, v, i, i0);
        }
        lemma_best_entry_extend(pre, entry_view(v[i]), r);
    }
    assert forall|m: int| 0 <= m < post.len() && counts(#[trigger] post[m]) implies exists|i: int|
        0 <= i < v.len() && (#[trigger] v[i]).0@ == name_key(post[m]) by {
        if m < pre.len() {
            assert(post[m] == pre[m]);
        } else {
            assert(v[i0].0@ == name_key(post[m]));
        }
    }
}

#[verifier::rlimit(30)]
proof fn lemma_aggregate_raise(pre: Seq<RunSummary>, v: Seq<(String, u32)>, r: RunSummary, i0: int)
    requires
        is_aggregate(pre, v),
        counts(r),
        0 <= i0 < v.len(),
        v[i0].0@ == name_key(r),
        r.stage > v[i0].1,
    ensures
        is_aggregate(pre.push(r), v.update(i0, (v[i0].0, r.stage))),
{
    let post = pre.push(r);
    let v2 = v.update(i0, (v[i0].0, r.stage));
    assert forall|i: int| 0 <= i < v2.len() implies best_entry(post, entry_view(#[trigger] v2[i])) by {
        if i == i0 {
            assert(post[pre.len() as int] == r);
            assert forall|m: int| 0 <= m < post.len() && counts(#[trigger] post[m]) && name_key(post[m]) == v2[i].0@ implies post[m].stage <= v2[i].1 by {
                if m < pre.len() {
                    assert(post[m] == pre[m]);
                    assert(best_entry(pre, entry_view(v[i0])));
                }
            }
        } else {
            assert(v2[i] == v[i]);
            assert(best_entry(pre, entry_view(v[i])));
            let k = choose|k: int| 0 <= k < pre.len() && counts(pre[k]) && name_key(#[trigger] pre[k]) == v[i].0@ && pre[k].stage == v[i].1;
            assert(post[k] == pre[k]);
            assert forall|m: int| 0 <= m < post.len() && counts(#[trigger] post[m]) && name_key(post[m]) == v[i].0@ implies post[m].stage <= v[i].1 by {
                if m < pre.len() {
                    assert(post[m] == pre[m]);
                } else {
                    assert(v[i].0@ != v[i0].0@) by {
                        if i < i0 {
                            assert(v[i].0@ != v[i0].0@);
                        } else {
                            assert(v[i0].0@ != v[i].0@);
                        }
                    }
                }
            }
        }
    }
    assert forall|i: int, j: int| 0 <= i < j < v2.len() implies (#[trigger] v2[i]).0@ != (#[trigger] v2[j]).0@ by {
        assert(v2[i].0 == v[i].0 && v2[j].0 == v[j].0);
    }
    assert forall|m: int| 0 <= m < post.len() && counts(#[trigger] post[m]) implies exists|i: int|
        0 <= i < v2.len() && (#[trigger] v2[i]).0@ == name_key(post[m]) by {
        if m < pre.len() {
            assert(post[m] == pre[m]);
            let i = choose|i: int| 0 <= i < v.len() && (#[trigger] v[i]).0@ == name_key(pre[m]);
            assert(v2[i].0 == v[i].0);
        } else {
            assert(v2[i0].0@ == name_key(post[m]));
        }
    }
}

#[verifier::rlimit(30)]
proof fn lemma_aggregate_new(pre: Seq<RunSummary>, v: Seq<(String, u32)>, r: RunSummary, s: String)
    requires
        is_aggregate(pre, v),
        counts(r),
        forall|i: int| 0 <= i < v.len() ==> (#[trigger] v[i]).0@ != name_key(r),
        s@ == name_key(r),
    ensures
        is_aggregate(pre.push(r), v.push((s, r.stage))),
{
    let post = pre.push(r);
    {
        let v2 = v.push((s, r.stage));
        assert forall|i: int| 0 <= i < v2.len() implies best_entry(post, entry_view(#[trigger] v2[i])) by {
            if i == v.len() {
                assert(post[pre.len() as int] == r);
                assert forall|m: int| 0 <= m < post.len() && counts(#[trigger] post[m]) && name_key(post[m]) == v2[i].0@ implies post[m].stage <= v2[i].1 by {
                    if m < pre.len() {
                        assert(post[m] == pre[m]);
                        let ii = choose|ii: int| 0 <= ii < v.len() && (#[trigger] v[ii]).0@ == name_key(pre[m]);
                    }
                }
            } else {
                assert(v2[i] == v[i]);
                assert(best_entry(pre, entry_view(v[i])));
                let k = choose|k: int| 0 <= k < pre.len() && counts(pre[k]) && name_key(#[trigger] pre[k]) == v[i].0@ && pre[k].stage == v[i].1;
                assert(post[k] == pre[k]);
                assert forall|m: int| 0 <= m < post.len() && counts(#[trigger] post[m]) && name_key(post[m]) == v[i].0@ implies post[m].stage <= v[i].1 by {
                    if m < pre.len() {
                        assert(post[m] == pre[m]);
                    }
                }
            }
        }
        assert forall|i: int, j: int| 0 <= i < j < v2.len() implies (#[trigger] v2[i]).0@ != (#[trigger] v2[j]).0@ by {
            if j == v.len() {
                assert(v2[i] == v[i]);
            } else {
                assert(v2[i] == v[i] && v2[j] == v[j]);
            }
        }
        assert forall|m: int| 0 <= m < post.len() && counts(#[trigger] post[m]) implies exists|i: int|
            0 <= i < v2.len() && (#[trigger] v2[i]).0@ == name_key(post[m]) by {
            if m < pre.len() {
                assert(post[m] == pre[m]);
                let i = choose|i: int| 0 <= i < v.len() && (#[trigger] v[i]).0@ == name_key(pre[m]);
                assert(v2[i] == v[i]);
            } else {
                assert(v2[v.len() as int].0@ == name_key(post[m]));
            }
        }
    }
}

proof fn lemma_ranks_asym(a: (Seq<char>, u32), b: (Seq<char>, u32))
    requires
        ranks_before(a, b),
    ensures
        !ranks_before(b, a),
{
    if a.1 == b.1 {
        lemma_lex_asym(lowercase(a.0), lowercase(b.0));
    }
}

proof fn lemma_ranks_trans(a: (Seq<char>, u32), b: (Seq<char>, u32), c: (Seq<char>, u32))
    requires
        ranks_before(a, b),
        ranks_before(b, c),
    ensures
        ranks_before(a, c),
{
    if a.1 == b.1 && b.1 == c.1 {
        lemma_lex_trans(lowercase(a.0), lowercase(b.0), lowercase(c.0));
    }
}

/// No later entry ranks before an earlier one.
pub open spec fn in_rank_order(v: Seq<(String, u32)>) -> bool {
    forall|i: int, j: int|
        0 <= i < j < v.len() ==> !ranks_before(entry_view(#[trigger] v[j]), entry_view(#[trigger] v[i]))
}

/// Inserting before the first entry that `e` ranks before keeps the order.
proof fn lemma_insert_in_order(v: Seq<(String, u32)>, p: int, e: (String, u32))
    requires
        in_rank_order(v),
        0 <= p <= v.len(),
        forall|i: int| 0 <= i < p ==> !ranks_before(entry_view(e), entry_view(#[trigger] v[i])),
        p < v.len() ==> ranks_before(entry_view(e), entry_view(v[p])),
    ensures
        in_rank_order(v.insert(p, e)),
{
    let v2 = v.insert(p, e);
    assert forall|i: int, j: int| 0 <= i < j < v2.len() implies !ranks_before(
        entry_view(#[trigger] v2[j]),
        entry_view(#[trigger] v2[i]),
    ) by {
        if j < p {
            assert(v2[i] == v[i] && v2[j] == v[j]);
        } else if j == p {
            assert(v2[j] == e && v2[i] == v[i]);
        } else if i < p {
            assert(v2[i] == v[i] && v2[j] == v[j - 1]);
        } else if i == p {
            assert(v2[i] == e && v2[j] == v[j - 1]);
            if ranks_before(entry_view(v[j - 1]), entry_view(e)) {
                lemma_ranks_trans(entry_view(v[j - 1]), entry_view(e), entry_view(v[p]));
                if j - 1 == p {
                    lemma_ranks_asym(entry_view(v[p]), entry_view(v[p]));
                }
            }
        } else {
            assert(v2[i] == v[i - 1] && v2[j] == v[j - 1]);
        }
    }
}

/// Rank comparison of two entries, given their case-folded names.
fn ranks_before_exec(e: &(String, u32), ke: &Vec<char>, f: &(String, u32), kf: &Vec<char>) -> (r: bool)
    requires
        ke@ == lowercase(e.0@),
        kf@ == lowercase(f.0@),
    ensures
        r == ranks_before(entry_view(*e), entry_view(*f)),
{
    e.1 > f.1 || (e.1 == f.1 && lex_less(ke, kf))
}

/// For each nickname, the highest stage number seen in any saved run (including replays).
/// Sorted by stage descending, then case-folded name ascending. Names are trimmed; empty
/// names are skipped.
pub fn leaderboard_max_stage_per_player(rows: &Vec<RunSummary>) -> (v: Vec<(String, u32)>)
    ensures
        is_leaderboard(rows@, v@),
{
    let agg = best_stage_per_player(rows);
    let mut sorted: Vec<(String, u32)> = Vec::new();
    let mut keys: Vec<Vec<char>> = Vec::new();
    // `src[j]`: which aggregate entry sits at `sorted[j]`; `pos[i]`: where entry `i` sits
    let ghost mut src: Seq<int> = Seq::empty();
    let ghost mut pos: Seq<int> = Seq::empty();
    let mut k: usize = 0;
    while k < agg.len()
        invariant
            k <= agg@.len(),
            is_aggregate(rows@, agg@),
            sorted@.len() == k,
            keys@.len() == k,
            forall|i: int| 0 <= i < k ==> (#[trigger] keys@[i])@ == lowercase(sorted@[i].0@),
            sort_maps(agg@, sorted@, src, pos, k as int),
            in_rank_order(sorted@),
        decreases agg@.len() - k,
    {
        let e = (agg[k].0.clone(), agg[k].1);
        assert(e == agg@[k as int]);
        let lower = to_lowercase(e.0.as_str());
        let ke = chars_of(lower.as_str());
        let mut p: usize = 0;
        while p < sorted.len() && !ranks_before_exec(&e, &ke, &sorted[p], &keys[p])
            invariant
                p <= sorted@.len(),
                sorted@.len() == k,
                keys@.len() == k,
                ke@ == lowercase(e.0@),
                forall|i: int| 0 <= i < k ==> (#[trigger] keys@[i])@ == lowercase(sorted@[i].0@),
                forall|i: int| 0 <= i < p ==> !ranks_before(entry_view(e), entry_view(#[trigger] sorted@[i])),
            decreases sorted@.len() - p,
        {
            p += 1;
        }
        let ghost s0 = sorted@;
        let ghost k0 = keys@;
        proof {
            lemma_insert_in_order(s0, p as int, e);
            lemma_sort_maps_insert(agg@, s0, src, pos, k as int, p as int, e);
        }
        sorted.insert(p, e);
        keys.insert(p, ke);
        proof {
            assert forall|i: int| 0 <= i < k + 1 implies (#[trigger] keys@[i])@ == lowercase(sorted@[i].0@) by {
                if i < p {
                    assert(keys@[i] == k0[i] && sorted@[i] == s0[i]);
                } else if i > p {
                    assert(keys@[i] == k0[i - 1] && sorted@[i] == s0[i - 1]);
                }
            }
            src = src.insert(p as int, k as int);
            pos = shift_from(pos, p as int).push(p as int);
        }
        k += 1;
    }
    proof {
        lemma_permuted_aggregate(rows@, agg@, sorted@, src, pos);
    }
    sorted
}

/// Positions at or after `p` move one up.
spec fn shift_from(pos: Seq<int>, p: int) -> Seq<int> {
    Seq::new(pos.len(), |i: int| if pos[i] >= p { pos[i] + 1 } else { pos[i] })
}

/// `src` and `pos` are inverse index maps between the first `k` aggregate entries and the
/// sorted list.
spec fn sort_maps(agg: Seq<(String, u32)>, sorted: Seq<(String, u32)>, src: Seq<int>, pos: Seq<int>, k: int) -> bool {
    &&& src.len() == k
    &&& pos.len() == k
    &&& k <= agg.len()
    &&& sorted.len() == k
    &&& forall|j: int| 0 <= j < k ==> 0 <= #[trigger] src[j] < k && sorted[j] == agg[src[j]] && pos[src[j]] == j
    &&& forall|i: int| 0 <= i < k ==> 0 <= #[trigger] pos[i] < k && src[pos[i]] == i
}

proof fn lemma_sort_maps_insert(
    agg: Seq<(String, u32)>,
    s0: Seq<(String, u32)>,
    src: Seq<int>,
    pos: Seq<int>,
    k: int,
    p: int,
    e: (String, u32),
)
    requires
        sort_maps(agg, s0, src, pos, k),
        k < agg.len(),
        e == agg[k],
        0 <= p <= k,
    ensures
        sort_maps(agg, s0.insert(p, e), src.insert(p, k), shift_from(pos, p).push(p), k + 1),
{
    let s1 = s0.insert(p, e);
    let src1 = src.insert(p, k);
    let pos1 = shift_from(pos, p).push(p);
    assert forall|j: int| 0 <= j < k + 1 implies 0 <= #[trigger] src1[j] < k + 1 && s1[j] == agg[src1[j]] && pos1[src1[j]] == j by {
        if j < p {
            assert(src1[j] == src[j] && s1[j] == s0[j]);
        } else if j == p {
        } else {
            assert(src1[j] == src[j - 1] && s1[j] == s0[j - 1]);
        }
    }
    assert forall|i: int| 0 <= i < k + 1 implies 0 <= #[trigger] pos1[i] < k + 1 && src1[pos1[i]] == i by {
        if i < k {
            if pos[i] < p {
                assert(src1[pos[i]] == src[pos[i]]);
            } else {
                assert(src1[pos[i] + 1] == src[pos[i]]);
            }
        }
    }
}

/// A reordering of an aggregate is an aggregate.
proof fn lemma_permuted_aggregate(rows: Seq<RunSummary>, a: Seq<(String, u32)>, v: Seq<(String, u32)>, src: Seq<int>, pos: Seq<int>)
    requires
        is_aggregate(rows, a),
        sort_maps(a, v, src, pos, a.len() as int),
    ensures
        is_aggregate(rows, v),
{
    assert forall|j: int| 0 <= j < v.len() implies best_entry(rows, entry_view(#[trigger] v[j])) by {
        assert(v[j] == a[src[j]]);
    }
    assert forall|i: int, j: int| 0 <= i < j < v.len() implies (#[trigger] v[i]).0@ != (#[trigger] v[j]).0@ by {
        let ii = src[i];
        let jj = src[j];
        assert(v[i] == a[ii] && v[j] == a[jj]);
        assert(pos[ii] == i && pos[jj] == j);
        if ii < jj {
            assert(a[ii].0@ != a[jj].0@);
        } else {
            assert(a[jj].0@ != a[ii].0@);
        }
    }
    assert forall|m: int| 0 <= m < rows.len() && counts(#[trigger] rows[m]) implies exists|j: int|
        0 <= j < v.len() && (#[trigger] v[j]).0@ == name_key(rows[m]) by {
        let i = choose|i: int| 0 <= i < a.len() && (#[trigger] a[i]).0@ == name_key(rows[m]);
        let j = pos[i];
        assert(v[j] == a[src[j]]);
    }
}

} // verus!
