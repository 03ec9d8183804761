use vstd::prelude::*;

use crate::model::{external_contribution, pr_views, PullRequest, PullRequestView};
use crate::text::{
    chars_of, lemma_text_before_irreflexive, lemma_text_before_total,
    lemma_text_before_transitive, text_before, text_less,
};

verus! {

/// The pull requests of `prs` that count as external contributions, in order.
pub open spec fn contributions(prs: Seq<PullRequestView>, include_private: bool) -> Seq<
    PullRequestView,
> {
    prs.filter(|p: PullRequestView| external_contribution(p, include_private))
}

/// Every pull request was merged no earlier than those after it: no merge time
/// sorts before a later one's.
pub open spec fn newest_first(s: Seq<PullRequestView>) -> bool {
    forall|i: int, j: int|
        0 <= i < j < s.len() ==> !text_before(#[trigger] s[i].merged_at, #[trigger] s[j].merged_at)
}

/// Position `t` is among the values of `perm`.
pub open spec fn listed(perm: Seq<int>, t: int) -> bool {
    exists|k: int| 0 <= k < perm.len() && #[trigger] perm[k] == t
}

/// `r` holds the pull requests of `s`, each once, `r[k]` being `s[perm[k]]`, and
/// pull requests with the same merge time keep their order.
pub open spec fn stable_rearrangement(
    r: Seq<PullRequestView>,
    s: Seq<PullRequestView>,
    perm: Seq<int>,
) -> bool {
    &&& r.len() == s.len()
    &&& perm.len() == s.len()
    &&& forall|k: int| 0 <= k < perm.len() ==> 0 <= #[trigger] perm[k] < s.len() && r[k] == s[perm[k]]
    &&& forall|a: int, b: int| 0 <= a < b < perm.len() ==> #[trigger] perm[a] != #[trigger] perm[b]
    &&& forall|t: int| 0 <= t < s.len() ==> #[trigger] listed(perm, t)
    &&& forall|a: int, b: int|
        0 <= a < b < r.len() && (#[trigger] r[a]).merged_at == (#[trigger] r[b]).merged_at
            ==> perm[a] < perm[b]
}

/// `r` is `s` sorted newest first by merge time, by a stable sort.
pub open spec fn sorted_newest_first(r: Seq<PullRequestView>, s: Seq<PullRequestView>) -> bool {
    &&& newest_first(r)
    &&& exists|perm: Seq<int>| stable_rearrangement(r, s, perm)
}

/// Pull request `t` of `s` comes before pull request `u` in a stable sort,
/// newest first: it was merged later, or at the same time and stands earlier.
pub open spec fn goes_before(s: Seq<PullRequestView>, t: int, u: int) -> bool {
    text_before(s[u].merged_at, s[t].merged_at) || (s[t].merged_at == s[u].merged_at && t < u)
}

/// A stable newest-first arrangement puts the pull requests in the order
/// `goes_before`.
proof fn lemma_arrangement_order(r: Seq<PullRequestView>, s: Seq<PullRequestView>, perm: Seq<int>, a: int, b: int)
    requires
        newest_first(r),
        stable_rearrangement(r, s, perm),
        0 <= a < b < r.len(),
    ensures
        goes_before(s, perm[a], perm[b]),
{
    assert(r[a] == s[perm[a]]);
    assert(r[b] == s[perm[b]]);
    assert(!text_before(r[a].merged_at, r[b].merged_at));
    lemma_text_before_total(r[a].merged_at, r[b].merged_at);
}

/// No pull request goes before another that goes before it.
proof fn lemma_goes_before_asymmetric(s: Seq<PullRequestView>, t: int, u: int)
    requires
        0 <= t < s.len(),
        0 <= u < s.len(),
    ensures
        !(goes_before(s, t, u) && goes_before(s, u, t)),
{
    lemma_text_before_total(s[t].merged_at, s[u].merged_at);
    lemma_text_before_irreflexive(s[t].merged_at);
}

/// Two stable newest-first arrangements of the same pull requests agree on their
/// first `k` positions.
proof fn lemma_arrangements_agree(
    r1: Seq<PullRequestView>,
    r2: Seq<PullRequestView>,
    s: Seq<PullRequestView>,
    p1: Seq<int>,
    p2: Seq<int>,
    k: int,
)
    requires
        newest_first(r1),
        newest_first(r2),
        stable_rearrangement(r1, s, p1),
        stable_rearrangement(r2, s, p2),
        0 <= k <= s.len(),
    ensures
        forall|j: int| 0 <= j < k ==> p1[j] == p2[j],
    decreases k,
{
    if k > 0 {
        lemma_arrangements_agree(r1, r2, s, p1, p2, k - 1);
        let m = k - 1;
        if p1[m] != p2[m] {
            assert(listed(p2, p1[m]));
            assert(listed(p1, p2[m]));
            let j = choose|j: int| 0 <= j < p2.len() && #[trigger] p2[j] == p1[m];
            let j2 = choose|j2: int| 0 <= j2 < p1.len() && #[trigger] p1[j2] == p2[m];
            if j < m {
                assert(p1[j] == p2[j]);
                assert(p1[j] != p1[m]);
            } else if j2 < m {
                assert(p1[j2] == p2[j2]);
                assert(p2[j2] != p2[m]);
            } else {
                assert(j != m);
                assert(j2 != m);
                lemma_arrangement_order(r2, s, p2, m, j);
                lemma_arrangement_order(r1, s, p1, m, j2);
                lemma_goes_before_asymmetric(s, p1[m], p2[m]);
            }
        }
    }
}

/// A stable sort newest first has a single outcome: two sequences sorted so
/// from the same pull requests are equal.
pub proof fn lemma_sorted_newest_first_unique(
    r1: Seq<PullRequestView>,
    r2: Seq<PullRequestView>,
    s: Seq<PullRequestView>,
)
    requires
        sorted_newest_first(r1, s),
        sorted_newest_first(r2, s),
    ensures
        r1 == r2,
{
    let p1 = choose|p: Seq<int>| stable_rearrangement(r1, s, p);
    let p2 = choose|p: Seq<int>| stable_rearrangement(r2, s, p);
    lemma_arrangements_agree(r1, r2, s, p1, p2, s.len() as int);
    assert forall|k: int| 0 <= k < r1.len() implies r1[k] == r2[k] by {
        assert(p1[k] == p2[k]);
    }
    assert(r1 =~= r2);
}

/// The kept pull requests are exactly the external contributions: each kept one
/// is one, and each pull request that is one is kept.
pub proof fn lemma_contributions_members(prs: Seq<PullRequestView>, include_private: bool)
    ensures
        forall|i: int|
            0 <= i < contributions(prs, include_private).len() ==> external_contribution(
                #[trigger] contributions(prs, include_private)[i],
                include_private,
            ),
        forall|i: int|
            0 <= i < prs.len() && external_contribution(prs[i], include_private)
                ==> #[trigger] contributions(prs, include_private).contains(prs[i]),
        contributions(prs, include_private).len() <= prs.len(),
{
    let pred = |p: PullRequestView| external_contribution(p, include_private);
    broadcast use vstd::seq_lib::group_filter_ensures;
    prs.lemma_filter_len(pred);
    assert forall|i: int| 0 <= i < prs.len() && external_contribution(prs[i], include_private)
        implies #[trigger] contributions(prs, include_private).contains(prs[i]) by {
        prs.lemma_filter_contains(pred, i);
    }
    assert forall|i: int| 0 <= i < contributions(prs, include_private).len()
        implies external_contribution(#[trigger] contributions(prs, include_private)[i], include_private) by {
        prs.lemma_filter_pred(pred, i);
    }
}

/// Of two pull requests, a stable newest-first sort puts the one merged later
/// first, and keeps two merged at the same time in their order.
pub proof fn lemma_two_sorted(x: PullRequestView, y: PullRequestView, r: Seq<PullRequestView>)
    requires
        sorted_newest_first(r, seq![x, y]),
    ensures
        text_before(x.merged_at, y.merged_at) ==> r == seq![y, x],
        x.merged_at == y.merged_at ==> r == seq![x, y],
        text_before(y.merged_at, x.merged_at) ==> r == seq![x, y],
{
    let s = seq![x, y];
    let perm = choose|p: Seq<int>| stable_rearrangement(r, s, p);
    assert(perm[0] != perm[1]);
    assert(listed(perm, 0));
    assert(listed(perm, 1));
    assert(r[0] == s[perm[0]]);
    assert(r[1] == s[perm[1]]);
    lemma_text_before_irreflexive(x.merged_at);
    lemma_text_before_total(x.merged_at, y.merged_at);
    if perm[0] == 0 {
        assert(r =~= seq![x, y]);
    } else {
        assert(r =~= seq![y, x]);
        if x.merged_at == y.merged_at {
            assert(r[0].merged_at == r[1].merged_at);
        }
    }
}

/// The external contributions among `prs`, in their order.
pub fn keep_contributions(prs: &[PullRequest], include_private: bool) -> (r: Vec<PullRequest>)
    ensures
        pr_views(r@) == contributions(pr_views(prs@), include_private),
{
    let ghost pred = |p: PullRequestView| external_contribution(p, include_private);
    let mut r: Vec<PullRequest> = Vec::new();
    let mut i: usize = 0;
    while i < prs.len()
        invariant
            i <= prs.len(),
            pred == (|p: PullRequestView| external_contribution(p, include_private)),
            pr_views(r@) == pr_views(prs@).take(i as int).filter(pred),
        decreases prs.len() - i,
    {
        let ghost before = r@;
        proof {
            let s = pr_views(prs@).take(i + 1);
            assert(s.drop_last() == pr_views(prs@).take(i as int));
            assert(s.last() == prs@[i as int]@);
            reveal_with_fuel(Seq::filter, 1);
        }
        if prs[i].is_external_contribution(include_private) {
            r.push(prs[i].duplicate());
            assert(pr_views(r@) =~= pr_views(before).push(prs@[i as int]@));
        }
        i = i + 1;
    }
    assert(pr_views(prs@).take(prs.len() as int) == pr_views(prs@));
    r
}

/// The pull requests sorted newest first by merge time; those merged at the same
/// time keep their order.
pub fn sort_newest_first(prs: &Vec<PullRequest>) -> (r: Vec<PullRequest>)
    ensures
        sorted_newest_first(pr_views(r@), pr_views(prs@)),
{
    let ghost s = pr_views(prs@);
    let mut out: Vec<PullRequest> = Vec::new();
    let mut keys: Vec<Vec<char>> = Vec::new();
    let ghost mut perm: Seq<int> = Seq::empty();
    let mut i: usize = 0;
    while i < prs.len()
        invariant
            s == pr_views(prs@),
            i <= prs.len(),
            out.len() == i,
            keys.len() == i,
            forall|k: int| 0 <= k < i ==> (#[trigger] keys@[k])@ == out@[k].merged_at@,
            newest_first(pr_views(out@)),
            stable_rearrangement(pr_views(out@), s.take(i as int), perm),
        decreases prs.len() - i,
    {
        let pr = &prs[i];
        let key = chars_of(pr.merged_at.as_str());
        let ghost r = pr_views(out@);
        let mut p: usize = 0;
        while p < out.len() && !text_less(&keys[p], &key)
            invariant
                p <= out.len(),
                out.len() == keys.len(),
                r == pr_views(out@),
                forall|k: int| 0 <= k < out.len() ==> (#[trigger] keys@[k])@ == out@[k].merged_at@,
                forall|q: int| 0 <= q < p ==> !text_before(#[trigger] r[q].merged_at, key@),
            decreases out.len() - p,
        {
            p = p + 1;
        }
        let ghost x = pr@;
        assert(key@ == x.merged_at);
        proof {
            // Everything from position p on sorts strictly before the new pull request.
            assert forall|q: int| p <= q < r.len() implies text_before(
                #[trigger] r[q].merged_at,
                x.merged_at,
            ) by {
                assert(text_before(r[p as int].merged_at, x.merged_at));
                if q > p {
                    assert(!text_before(r[p as int].merged_at, r[q].merged_at));
                    lemma_text_before_total(r[p as int].merged_at, r[q].merged_at);
                    if r[p as int].merged_at != r[q].merged_at {
                        lemma_text_before_transitive(
                            r[q].merged_at,
                            r[p as int].merged_at,
                            x.merged_at,
                        );
                    }
                }
            }
        }
        out.insert(p, pr.duplicate());
        keys.insert(p, key);
        proof {
            let r2 = pr_views(out@);
            let perm2 = perm.insert(p as int, i as int);
            let s2 = s.take(i + 1);
            assert(r2 =~= r.insert(p as int, x));
            assert(s2 =~= s.take(i as int).push(x));
            assert forall|a: int, b: int| 0 <= a < b < r2.len() implies !text_before(
                #[trigger] r2[a].merged_at,
                #[trigger] r2[b].merged_at,
            ) by {
                if a < p && b == p {
                } else if a < p && b > p {
                    assert(r2[b] == r[b - 1]);
                } else if a == p {
                    assert(r2[b] == r[b - 1]);
                    lemma_text_before_total(r[b - 1].merged_at, x.merged_at);
                } else if a > p {
                    assert(r2[a] == r[a - 1]);
                    assert(r2[b] == r[b - 1]);
                } else {
                    assert(r2[a] == r[a]);
                    assert(r2[b] == r[b]);
                }
            }
            assert forall|k: int| 0 <= k < perm2.len() implies 0 <= #[trigger] perm2[k] < s2.len()
                && r2[k] == s2[perm2[k]] by {
                if k < p {
                    assert(perm2[k] == perm[k]);
                } else if k > p {
                    assert(perm2[k] == perm[k - 1]);
                }
            }
            assert forall|a: int, b: int| 0 <= a < b < perm2.len() implies #[trigger] perm2[a]
                != #[trigger] perm2[b] by {
                if a < p && b < p {
                } else if a < p && b > p {
                    assert(perm2[b] == perm[b - 1]);
                } else if a > p {
                    assert(perm2[a] == perm[a - 1]);
                    assert(perm2[b] == perm[b - 1]);
                } else if a == p {
                    assert(perm2[b] == perm[b - 1]);
                } else {
                    assert(perm2[a] == perm[a]);
                }
            }
            assert forall|a: int, b: int|
                0 <= a < b < r2.len() && (#[trigger] r2[a]).merged_at == (#[trigger] r2[b]).merged_at
                implies perm2[a] < perm2[b] by {
                if a < p && b < p {
                } else if a < p && b == p {
                    assert(perm2[a] == perm[a]);
                } else if a < p && b > p {
                    assert(perm2[b] == perm[b - 1]);
                    assert(r2[b] == r[b - 1]);
                } else if a == p {
                    assert(r2[b] == r[b - 1]);
                    lemma_text_before_irreflexive(x.merged_at);
                } else {
                    assert(perm2[a] == perm[a - 1]);
                    assert(perm2[b] == perm[b - 1]);
                    assert(r2[a] == r[a - 1]);
                    assert(r2[b] == r[b - 1]);
                }
            }
            assert forall|t: int| 0 <= t < s2.len() implies #[trigger] listed(perm2, t) by {
                if t == i {
                    assert(perm2[p as int] == t);
                } else {
                    assert(listed(perm, t));
                    let k = choose|k: int| 0 <= k < perm.len() && #[trigger] perm[k] == t;
                    if k < p {
                        assert(perm2[k] == t);
                    } else {
                        assert(perm2[k + 1] == t);
                    }
                }
            }
            perm = perm2;
        }
        i = i + 1;
    }
    assert(s.take(prs.len() as int) == s);
    out
}

/// The external contributions among `prs`, newest first by merge time; those
/// merged at the same time keep their order. (There is one such sequence: see
/// `lemma_sorted_newest_first_unique`.)
pub open spec fn newest_first_contributions(prs: Seq<PullRequestView>, include_private: bool) -> Seq<
    PullRequestView,
> {
    choose|r: Seq<PullRequestView>| sorted_newest_first(r, contributions(prs, include_private))
}

/// The external contributions among `prs`, newest first by merge time; those
/// merged at the same time keep their order.
pub fn recent_contributions(prs: &[PullRequest], include_private: bool) -> (r: Vec<PullRequest>)
    ensures
        sorted_newest_first(pr_views(r@), contributions(pr_views(prs@), include_private)),
        pr_views(r@) == newest_first_contributions(pr_views(prs@), include_private),
{
    let kept = keep_contributions(prs, include_private);
    let r = sort_newest_first(&kept);
    proof {
        let s = contributions(pr_views(prs@), include_private);
        let c = newest_first_contributions(pr_views(prs@), include_private);
        assert(sorted_newest_first(c, s));
        lemma_sorted_newest_first_unique(pr_views(r@), c, s);
    }
    r
}

} // verus!
