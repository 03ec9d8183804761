use vstd::prelude::*;

use crate::model::{group_views, pr_views, GroupView, PullRequest, PullRequestView, RepositoryGroup};

verus! {

/// The name of the repository of a pull request.
pub open spec fn repo_of(pr: PullRequestView) -> Seq<char> {
    pr.repository.name_with_owner
}

/// The names of the repositories of `prs`, each once, in the order in which
/// they first appear.
pub open spec fn repository_order(prs: Seq<PullRequestView>) -> Seq<Seq<char>>
    decreases prs.len(),
{
    if prs.len() == 0 {
        Seq::empty()
    } else {
        let front = repository_order(prs.drop_last());
        if front.contains(repo_of(prs.last())) {
            front
        } else {
            front.push(repo_of(prs.last()))
        }
    }
}

/// The pull requests of `prs` that belong to the repository `name`, in order.
pub open spec fn prs_in(prs: Seq<PullRequestView>, name: Seq<char>) -> Seq<PullRequestView>
    decreases prs.len(),
{
    if prs.len() == 0 {
        Seq::empty()
    } else {
        let front = prs_in(prs.drop_last(), name);
        if repo_of(prs.last()) == name {
            front.push(prs.last())
        } else {
            front
        }
    }
}

/// How many pull requests a group shows at most: the first pull request of a
/// repository is always shown, so a cap of 0 shows one.
pub open spec fn shown_cap(max_prs_per_repo: nat) -> nat {
    if max_prs_per_repo == 0 {
        1
    } else {
        max_prs_per_repo
    }
}

/// The smaller of two numbers.
pub open spec fn min_nat(a: nat, b: nat) -> nat {
    if a < b {
        a
    } else {
        b
    }
}

/// The group of repository `name`: the repository as its first pull request
/// reports it, its first pull requests up to the cap, and whether any is left
/// out.
pub open spec fn expected_group(
    prs: Seq<PullRequestView>,
    name: Seq<char>,
    max_prs_per_repo: nat,
) -> GroupView {
    let all = prs_in(prs, name);
    let cap = shown_cap(max_prs_per_repo);
    GroupView {
        repository: all[0].repository,
        visible_prs: all.take(min_nat(cap, all.len()) as int),
        has_more: all.len() > cap,
    }
}

/// The groups of the first `repo_limit` repositories, in the order in which the
/// repositories first appear in `prs`.
pub open spec fn expected_groups(
    prs: Seq<PullRequestView>,
    repo_limit: nat,
    max_prs_per_repo: nat,
) -> Seq<GroupView> {
    let order = repository_order(prs);
    Seq::new(
        min_nat(repo_limit, order.len()),
        |k: int| expected_group(prs, order[k], max_prs_per_repo),
    )
}

/// Facts about the order of repositories and the pull requests of each.
pub proof fn lemma_order_facts(prs: Seq<PullRequestView>)
    ensures
        repository_order(prs).no_duplicates(),
        forall|name: Seq<char>|
            #![trigger prs_in(prs, name)]
            repository_order(prs).contains(name) <==> prs_in(prs, name).len() > 0,
        forall|name: Seq<char>, i: int|
            0 <= i < prs_in(prs, name).len() ==> repo_of(#[trigger] prs_in(prs, name)[i])
                == name,
        forall|name: Seq<char>| #[trigger] prs_in(prs, name).len() <= prs.len(),
    decreases prs.len(),
{
    if prs.len() > 0 {
        let front = prs.drop_last();
        let last = prs.last();
        lemma_order_facts(front);
        let o = repository_order(front);
        let o2 = repository_order(prs);
        if o.contains(repo_of(last)) {
            assert(o2 == o);
        } else {
            assert(o2 == o.push(repo_of(last)));
            assert(o2[o.len() as int] == repo_of(last));
            assert forall|a: int, b: int| 0 <= a < b < o2.len() implies o2[a] != o2[b] by {
                if b == o.len() {
                    assert(o[a] == o2[a]);
                }
            }
        }
        assert(o2.contains(repo_of(last)));
        assert forall|x: Seq<char>| o.contains(x) implies o2.contains(x) by {
            let j = choose|j: int| 0 <= j < o.len() && o[j] == x;
            assert(o2[j] == x);
        }
        assert forall|x: Seq<char>| o2.contains(x) implies o.contains(x) || x == repo_of(last) by {
            let j = choose|j: int| 0 <= j < o2.len() && o2[j] == x;
            if j < o.len() {
                assert(o[j] == x);
            }
        }
        assert forall|name: Seq<char>|
            #![trigger prs_in(prs, name)]
            o2.contains(name) <==> prs_in(prs, name).len() > 0 by {
            assert(o.contains(name) <==> prs_in(front, name).len() > 0);
        }
        assert forall|name: Seq<char>, i: int|
            0 <= i < prs_in(prs, name).len() implies repo_of(#[trigger] prs_in(prs, name)[i])
            == name by {
            if repo_of(last) == name && i == prs_in(prs, name).len() - 1 {
            } else {
                assert(prs_in(prs, name)[i] == prs_in(front, name)[i]);
            }
        }
        assert forall|name: Seq<char>| #[trigger] prs_in(prs, name).len() <= prs.len() by {
            assert(prs_in(front, name).len() <= front.len());
        }
    }
}

/// How the order of repositories grows by one pull request.
pub proof fn lemma_order_push(prs: Seq<PullRequestView>, pr: PullRequestView)
    ensures
        repository_order(prs.push(pr)) == (if repository_order(prs).contains(repo_of(pr)) {
            repository_order(prs)
        } else {
            repository_order(prs).push(repo_of(pr))
        }),
        forall|name: Seq<char>|
            #[trigger] prs_in(prs.push(pr), name) == (if repo_of(pr) == name {
                prs_in(prs, name).push(pr)
            } else {
                prs_in(prs, name)
            }),
{
    assert(prs.push(pr).drop_last() == prs);
    assert(prs.push(pr).last() == pr);
}

/// The shape of the grouping: at most `repo_limit` groups, one per repository,
/// each showing between one and the cap of its own pull requests, in their order,
/// and marked as having more exactly when some are left out; and unless the
/// limit is reached, every repository of `prs` has its group.
pub proof fn lemma_grouping_shape(prs: Seq<PullRequestView>, repo_limit: nat, max_prs_per_repo: nat)
    ensures
        ({
            let g = expected_groups(prs, repo_limit, max_prs_per_repo);
            &&& g.len() <= repo_limit
            &&& forall|k: int|
                0 <= k < g.len() ==> 0 < (#[trigger] g[k]).visible_prs.len() <= shown_cap(
                    max_prs_per_repo,
                )
            &&& forall|k: int, i: int|
                0 <= k < g.len() && 0 <= i < g[k].visible_prs.len() ==> repo_of(
                    #[trigger] g[k].visible_prs[i],
                ) == g[k].repository.name_with_owner
            &&& forall|k: int|
                0 <= k < g.len() ==> (#[trigger] g[k]).visible_prs == prs_in(
                    prs,
                    g[k].repository.name_with_owner,
                ).take(g[k].visible_prs.len() as int)
            &&& forall|k: int|
                0 <= k < g.len() ==> ((#[trigger] g[k]).has_more <==> g[k].visible_prs.len()
                    < prs_in(prs, g[k].repository.name_with_owner).len())
            &&& forall|a: int, b: int|
                0 <= a < b < g.len() ==> (#[trigger] g[a]).repository.name_with_owner != (
                #[trigger] g[b]).repository.name_with_owner
            &&& g.len() < repo_limit ==> forall|i: int|
                0 <= i < prs.len() ==> exists|k: int|
                    0 <= k < g.len() && (#[trigger] g[k]).repository.name_with_owner == repo_of(
                        #[trigger] prs[i],
                    )
        }),
{
    let g = expected_groups(prs, repo_limit, max_prs_per_repo);
    let order = repository_order(prs);
    lemma_order_facts(prs);
    assert forall|k: int| 0 <= k < g.len() implies (#[trigger] g[k]).repository.name_with_owner
        == order[k] by {
        assert(order.contains(order[k]));
        assert(prs_in(prs, order[k]).len() > 0);
        assert(repo_of(prs_in(prs, order[k])[0]) == order[k]);
    }
    assert forall|k: int|
        0 <= k < g.len() implies 0 < (#[trigger] g[k]).visible_prs.len() <= shown_cap(
        max_prs_per_repo,
    ) by {
        assert(order.contains(order[k]));
        assert(prs_in(prs, order[k]).len() > 0);
    }
    assert forall|k: int, i: int|
        0 <= k < g.len() && 0 <= i < g[k].visible_prs.len() implies repo_of(
        #[trigger] g[k].visible_prs[i],
    ) == g[k].repository.name_with_owner by {
        assert(g[k].visible_prs[i] == prs_in(prs, order[k])[i]);
    }
    assert forall|a: int, b: int|
        0 <= a < b < g.len() implies (#[trigger] g[a]).repository.name_with_owner != (
        #[trigger] g[b]).repository.name_with_owner by {
        assert(g[a].repository.name_with_owner == order[a]);
        assert(g[b].repository.name_with_owner == order[b]);
    }
    if g.len() < repo_limit {
        assert forall|i: int| 0 <= i < prs.len() implies exists|k: int|
            0 <= k < g.len() && (#[trigger] g[k]).repository.name_with_owner == repo_of(
                #[trigger] prs[i],
            ) by {
            lemma_order_contains_every_repository(prs, i);
            let k = choose|k: int| 0 <= k < order.len() && order[k] == repo_of(prs[i]);
            assert(g[k].repository.name_with_owner == order[k]);
        }
    }
}

/// The position of the first pull request of repository `name` in `prs`.
pub open spec fn first_of(prs: Seq<PullRequestView>, name: Seq<char>) -> int {
    choose|i: int| 0 <= i < prs.len() && repo_of(prs[i]) == name && forall|j: int| 0 <= j < i ==> repo_of(#[trigger] prs[j]) != name
}

/// The first pull request of `name` is the first of `prs` with that repository.
proof fn lemma_prs_in_first(prs: Seq<PullRequestView>, name: Seq<char>)
    requires
        prs_in(prs, name).len() > 0,
    ensures
        0 <= first_of(prs, name) < prs.len(),
        repo_of(prs[first_of(prs, name)]) == name,
        forall|j: int| 0 <= j < first_of(prs, name) ==> repo_of(#[trigger] prs[j]) != name,
        prs_in(prs, name)[0] == prs[first_of(prs, name)],
    decreases prs.len(),
{
    let front = prs.drop_last();
    if prs_in(front, name).len() > 0 {
        lemma_prs_in_first(front, name);
        let i = first_of(front, name);
        assert(front[i] == prs[i]);
        assert forall|j: int| 0 <= j < i implies repo_of(#[trigger] prs[j]) != name by {
            assert(front[j] == prs[j]);
        }
        lemma_first_unique(prs, name, i);
    } else {
        let i = prs.len() - 1;
        lemma_order_facts(front);
        assert forall|j: int| 0 <= j < i implies repo_of(#[trigger] prs[j]) != name by {
            assert(front[j] == prs[j]);
            if repo_of(prs[j]) == name {
                lemma_order_contains_every_repository(front, j);
            }
        }
        assert(prs_in(prs, name) =~= seq![prs.last()]);
        lemma_first_unique(prs, name, i);
    }
}

/// The first position of a repository is the one with none before it.
proof fn lemma_first_unique(prs: Seq<PullRequestView>, name: Seq<char>, i: int)
    requires
        0 <= i < prs.len(),
        repo_of(prs[i]) == name,
        forall|j: int| 0 <= j < i ==> repo_of(#[trigger] prs[j]) != name,
    ensures
        first_of(prs, name) == i,
{
    let c = first_of(prs, name);
    assert(0 <= c < prs.len() && repo_of(prs[c]) == name);
    if c < i {
        assert(repo_of(prs[c]) != name);
    } else if c > i {
        assert(repo_of(prs[i]) != name);
    }
}

/// How many pull requests a group shows: with a positive `max_prs_per_repo`,
/// the smaller of that number and the repository's pull requests, and it has
/// more exactly when the repository has more than that number; with 0, one, and
/// more exactly when the repository has more than one.
pub proof fn lemma_group_sizes(prs: Seq<PullRequestView>, repo_limit: nat, max_prs_per_repo: nat)
    ensures
        forall|k: int|
            #![trigger expected_groups(prs, repo_limit, max_prs_per_repo)[k]]
            0 <= k < expected_groups(prs, repo_limit, max_prs_per_repo).len() ==> {
                let g = expected_groups(prs, repo_limit, max_prs_per_repo)[k];
                let n = prs_in(prs, g.repository.name_with_owner).len();
                &&& max_prs_per_repo >= 1 ==> g.visible_prs.len() == (if max_prs_per_repo < n {
                    max_prs_per_repo
                } else {
                    n
                }) && (g.has_more <==> n > max_prs_per_repo)
                &&& max_prs_per_repo == 0 ==> g.visible_prs.len() == 1 && (g.has_more <==> n > 1)
                &&& g.repository == g.visible_prs[0].repository
                &&& g.visible_prs[0] == prs[first_of(prs, g.repository.name_with_owner)]
            },
{
    let gs = expected_groups(prs, repo_limit, max_prs_per_repo);
    let order = repository_order(prs);
    lemma_order_facts(prs);
    assert forall|k: int| 0 <= k < gs.len() implies gs[k].repository.name_with_owner == order[k]
        && prs_in(prs, order[k]).len() > 0 && gs[k].visible_prs[0] == prs[first_of(prs, order[k])] by {
        assert(order.contains(order[k]));
        assert(prs_in(prs, order[k]).len() > 0);
        assert(repo_of(prs_in(prs, order[k])[0]) == order[k]);
        lemma_prs_in_first(prs, order[k]);
    }
}

/// The pull requests of a repository are those of `prs` whose repository it is,
/// in their order.
pub proof fn lemma_prs_in_is_filter(prs: Seq<PullRequestView>, name: Seq<char>)
    ensures
        prs_in(prs, name) == prs.filter(|p: PullRequestView| repo_of(p) == name),
    decreases prs.len(),
{
    reveal_with_fuel(Seq::filter, 1);
    if prs.len() > 0 {
        lemma_prs_in_is_filter(prs.drop_last(), name);
    }
}

/// `name` is the repository of one of the first `n` pull requests of `prs`.
pub open spec fn seen_within(prs: Seq<PullRequestView>, name: Seq<char>, n: int) -> bool {
    exists|i: int| 0 <= i < n && i < prs.len() && repo_of(#[trigger] prs[i]) == name
}

/// Repository `n1` appears in `prs` before any pull request of `n2`.
pub open spec fn appears_before(prs: Seq<PullRequestView>, n1: Seq<char>, n2: Seq<char>) -> bool {
    exists|i: int| 0 <= i < prs.len() && repo_of(#[trigger] prs[i]) == n1 && !seen_within(prs, n2, i + 1)
}

/// The repositories stand in the order in which they first appear: each is
/// the repository of some pull request, and the first pull request of an earlier
/// one comes before any pull request of a later one.
pub proof fn lemma_order_is_first_appearance(prs: Seq<PullRequestView>)
    ensures
        forall|k: int|
            0 <= k < repository_order(prs).len() ==> seen_within(
                prs,
                #[trigger] repository_order(prs)[k],
                prs.len() as int,
            ),
        forall|a: int, b: int|
            0 <= a < b < repository_order(prs).len() ==> #[trigger] appears_before(
                prs,
                repository_order(prs)[a],
                repository_order(prs)[b],
            ),
    decreases prs.len(),
{
    if prs.len() > 0 {
        let front = prs.drop_last();
        lemma_order_is_first_appearance(front);
        let o = repository_order(front);
        let o2 = repository_order(prs);
        let last = prs.last();
        assert forall|n: Seq<char>, m: int| seen_within(front, n, m) implies seen_within(prs, n, m) by {
            let i = choose|i: int| 0 <= i < m && i < front.len() && repo_of(#[trigger] front[i]) == n;
            assert(prs[i] == front[i]);
        }
        assert forall|n: Seq<char>, m: int| m <= front.len() && seen_within(prs, n, m) implies seen_within(front, n, m) by {
            let i = choose|i: int| 0 <= i < m && i < prs.len() && repo_of(#[trigger] prs[i]) == n;
            assert(prs[i] == front[i]);
        }
        if !o.contains(repo_of(last)) {
            assert(o2 == o.push(repo_of(last)));
            assert(seen_within(prs, repo_of(last), prs.len() as int)) by {
                assert(repo_of(prs[prs.len() - 1]) == repo_of(last));
            }
            assert forall|a: int, b: int|
                0 <= a < b < o2.len() implies #[trigger] appears_before(prs, o2[a], o2[b]) by {
                assert(o2[a] == o[a]);
                assert(seen_within(front, o[a], front.len() as int));
                if b < o.len() {
                    assert(o2[b] == o[b]);
                    assert(appears_before(front, o[a], o[b]));
                    let i = choose|i: int|
                        0 <= i < front.len() && repo_of(#[trigger] front[i]) == o[a] && !seen_within(
                            front,
                            o[b],
                            i + 1,
                        );
                    assert(prs[i] == front[i]);
                } else {
                    let i = choose|i: int| 0 <= i < front.len() && i < front.len() && repo_of(#[trigger] front[i]) == o[a];
                    assert(prs[i] == front[i]);
                    assert(!seen_within(front, repo_of(last), front.len() as int)) by {
                        if seen_within(front, repo_of(last), front.len() as int) {
                            let j = choose|j: int| 0 <= j < front.len() && j < front.len() && repo_of(#[trigger] front[j]) == repo_of(last);
                            lemma_order_contains_every_repository(front, j);
                        }
                    }
                    assert(!seen_within(front, repo_of(last), i + 1)) by {
                        if seen_within(front, repo_of(last), i + 1) {
                            let j = choose|j: int| 0 <= j < i + 1 && j < front.len() && repo_of(#[trigger] front[j]) == repo_of(last);
                            assert(seen_within(front, repo_of(last), front.len() as int));
                        }
                    }
                }
            }
        } else {
            assert(o2 == o);
            assert forall|a: int, b: int|
                0 <= a < b < o2.len() implies #[trigger] appears_before(prs, o2[a], o2[b]) by {
                assert(appears_before(front, o[a], o[b]));
                let i = choose|i: int|
                    0 <= i < front.len() && repo_of(#[trigger] front[i]) == o[a] && !seen_within(
                        front,
                        o[b],
                        i + 1,
                    );
                assert(prs[i] == front[i]);
            }
        }
    }
}

/// Every repository of `prs` stands in their order.
pub proof fn lemma_order_contains_every_repository(prs: Seq<PullRequestView>, i: int)
    requires
        0 <= i < prs.len(),
    ensures
        repository_order(prs).contains(repo_of(prs[i])),
    decreases prs.len(),
{
    let front = prs.drop_last();
    let o = repository_order(front);
    if i < prs.len() - 1 {
        lemma_order_contains_every_repository(front, i);
        assert(front[i] == prs[i]);
        let j = choose|j: int| 0 <= j < o.len() && o[j] == repo_of(prs[i]);
        assert(repository_order(prs)[j] == o[j]);
    } else if !o.contains(repo_of(prs.last())) {
        assert(repository_order(prs)[o.len() as int] == repo_of(prs.last()));
    }
}

/// Groups the pull requests by repository: at most `repo_limit` repositories, in
/// the order in which they first appear, each showing at most
/// `max_prs_per_repo` of its pull requests (at least one) and whether more are
/// left out. The pull requests of repositories beyond the limit are dropped.
pub fn group_prs_by_repository(
    prs: &[PullRequest],
    repo_limit: usize,
    max_prs_per_repo: usize,
) -> (groups: Vec<RepositoryGroup>)
    ensures
        group_views(groups@) == expected_groups(
            pr_views(prs@),
            repo_limit as nat,
            max_prs_per_repo as nat,
        ),
{
    let ghost all = pr_views(prs@);
    let ghost cap = shown_cap(max_prs_per_repo as nat);
    let mut groups: Vec<RepositoryGroup> = Vec::new();
    let mut i: usize = 0;
    while i < prs.len()
        invariant
            i <= prs.len(),
            all == pr_views(prs@),
            cap == shown_cap(max_prs_per_repo as nat),
            group_views(groups@) == expected_groups(
                all.take(i as int),
                repo_limit as nat,
                max_prs_per_repo as nat,
            ),
        decreases prs.len() - i,
    {
        let pr = &prs[i];
        let ghost front = all.take(i as int);
        let ghost order = repository_order(front);
        let ghost before = group_views(groups@);
        proof {
            assert(group_views(groups@).len() == groups@.len());
            assert(all.take(i + 1) == front.push(pr@));
            lemma_order_facts(front);
            lemma_order_push(front, pr@);
        }
        let mut k: usize = 0;
        let mut found = false;
        while k < groups.len()
            invariant_except_break
                !found,
            invariant
                k <= groups.len(),
                group_views(groups@) == before,
                groups.len() == min_nat(repo_limit as nat, order.len()),
                before == expected_groups(front, repo_limit as nat, max_prs_per_repo as nat),
                order == repository_order(front),
                forall|j: int| 0 <= j < k ==> order[j] != repo_of(pr@),
            ensures
                found ==> k < groups.len() && order[k as int] == repo_of(pr@),
                !found ==> k == groups.len(),
                forall|j: int| 0 <= j < k ==> order[j] != repo_of(pr@),
            decreases groups.len() - k,
        {
            assert(groups@[k as int]@.repository.name_with_owner == order[k as int]) by {
                lemma_order_facts(front);
                assert(k < order.len());
                assert(order.contains(order[k as int]));
                assert(prs_in(front, order[k as int]).len() > 0);
                assert(before[k as int] == group_views(groups@)[k as int]);
            }
            if groups[k].repository.name_with_owner == pr.repository.name_with_owner {
                found = true;
                break;
            }
            k = k + 1;
        }
        let ghost after = all.take(i + 1);
        let ghost name = repo_of(pr@);
        if found {
            proof {
                lemma_order_facts(front);
                assert(order[k as int] == name);
                assert(order.contains(name));
                assert(repository_order(after) == order);
            }
            let ghost old_groups = groups@;
            if groups[k].visible_prs.len() < max_prs_per_repo {
                groups[k].visible_prs.push(pr.duplicate());
            } else {
                groups[k].has_more = true;
            }
            proof {
                let target = expected_groups(after, repo_limit as nat, max_prs_per_repo as nat);
                assert forall|j: int| 0 <= j < target.len() implies group_views(groups@)[j]
                    == target[j] by {
                    if j != k {
                        assert(order[j] != name);
                        assert(groups@[j] == old_groups[j]);
                        assert(group_views(groups@)[j] == before[j]);
                    } else {
                        assert(prs_in(after, name) == prs_in(front, name).push(pr@));
                        assert(prs_in(front, name).len() > 0);
                        let old_all = prs_in(front, name);
                        let new_all = prs_in(after, name);
                        assert(new_all[0] == old_all[0]);
                        assert(before[j] == old_groups[j]@);
                        assert(old_groups[j]@ == expected_group(front, name, max_prs_per_repo as nat));
                        if old_all.len() < cap {
                            assert(new_all.take(min_nat(cap, new_all.len()) as int)
                                =~= old_all.take(min_nat(cap, old_all.len()) as int).push(pr@));
                            assert(pr_views(groups@[j].visible_prs@) =~= pr_views(old_groups[j].visible_prs@).push(pr@));
                        } else {
                            assert(new_all.take(min_nat(cap, new_all.len()) as int)
                                =~= old_all.take(min_nat(cap, old_all.len()) as int));
                        }
                    }
                }
                assert(group_views(groups@) =~= target);
            }
        } else if groups.len() >= repo_limit {
            proof {
                lemma_order_facts(front);
                let target = expected_groups(after, repo_limit as nat, max_prs_per_repo as nat);
                assert forall|j: int| 0 <= j < target.len() implies group_views(groups@)[j]
                    == target[j] by {
                    assert(order[j] != name);
                    assert(repository_order(after)[j] == order[j]);
                }
                assert(group_views(groups@) =~= target);
            }
        } else {
            proof {
                lemma_order_facts(front);
                assert(!order.contains(name));
                assert(repository_order(after) == order.push(name));
                assert(prs_in(front, name).len() == 0);
                assert(prs_in(after, name) =~= seq![pr@]);
            }
            let mut visible: Vec<PullRequest> = Vec::new();
            visible.push(pr.duplicate());
            groups.push(
                RepositoryGroup {
                    repository: pr.repository.duplicate(),
                    visible_prs: visible,
                    has_more: false,
                },
            );
            proof {
                let target = expected_groups(after, repo_limit as nat, max_prs_per_repo as nat);
                assert forall|j: int| 0 <= j < target.len() implies group_views(groups@)[j]
                    == target[j] by {
                    if j < order.len() {
                        assert(order[j] != name);
                        assert(group_views(groups@)[j] == before[j]);
                    } else {
                        assert(pr_views(visible@) =~= seq![pr@]);
                        assert(seq![pr@].take(1) =~= seq![pr@]);
                    }
                }
                assert(group_views(groups@) =~= target);
            }
        }
        i = i + 1;
    }
    proof {
        assert(all.take(prs.len() as int) == all);
    }
    groups
}

} // verus!
