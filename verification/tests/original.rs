use recent_merged_pr::block::format_block;
use recent_merged_pr::config::{DEFAULT_END, DEFAULT_START};
use recent_merged_pr::grouping::group_prs_by_repository;
use recent_merged_pr::model::{PullRequest, Repository, RepositoryPermission};

fn pr(repo: &str, number: u64, title: &str, merged_at: &str) -> PullRequest {
    PullRequest {
        title: title.to_string(),
        url: format!("https://github.com/{repo}/pull/{number}"),
        number,
        merged_at: merged_at.to_string(),
        repository: Repository {
            name_with_owner: repo.to_string(),
            is_private: false,
            viewer_permission: Some(RepositoryPermission::Read),
        },
    }
}

/// 2026-06-04T05:00:00Z in seconds since the Unix epoch.
fn generated_at() -> i64 {
    1780549200
}

#[test]
fn single_pr_repository_stays_on_one_line() {
    let prs = vec![pr(
        "amruthpillai/reactive-resume",
        3095,
        "fix(auth): reconcile migrated social login accounts",
        "2026-05-25T01:00:00Z",
    )];

    let groups = group_prs_by_repository(&prs, 6, 3);
    let block = format_block(&groups, "bioinformatist", generated_at(), DEFAULT_START, DEFAULT_END);

    assert!(block.contains(
        "- [amruthpillai/reactive-resume#3095](https://github.com/amruthpillai/reactive-resume/pull/3095) · fix(auth): reconcile migrated social login accounts · merged 2026-05-25"
    ));
    assert!(!block.contains("|--"));
}

#[test]
fn multiple_prs_for_one_repository_use_tree_output() {
    let prs = vec![
        pr("luccahuguet/yazelix", 605, "chore: add prek", "2026-06-04T01:00:00Z"),
        pr("luccahuguet/yazelix", 603, "Improve tutor", "2026-06-02T01:00:00Z"),
        pr("SYSU-SCC/sysu-thesis", 118, "docs", "2026-01-14T01:00:00Z"),
    ];

    let groups = group_prs_by_repository(&prs, 6, 3);
    let block = format_block(&groups, "bioinformatist", generated_at(), DEFAULT_START, DEFAULT_END);

    assert!(block.contains("- [luccahuguet/yazelix](https://github.com/luccahuguet/yazelix)"));
    assert!(block.contains("  |-- [#605](https://github.com/luccahuguet/yazelix/pull/605) · chore: add prek · merged 2026-06-04\\"));
    assert!(block.contains("  '-- [#603](https://github.com/luccahuguet/yazelix/pull/603) · Improve tutor · merged 2026-06-02"));
    assert!(block.contains("- [SYSU-SCC/sysu-thesis#118](https://github.com/SYSU-SCC/sysu-thesis/pull/118) · docs · merged 2026-01-14"));
}

#[test]
fn repo_limit_counts_repositories_not_pull_requests() {
    let prs = vec![
        pr("first/repo", 3, "first latest", "2026-06-04T01:00:00Z"),
        pr("first/repo", 2, "first older", "2026-06-03T01:00:00Z"),
        pr("second/repo", 1, "second", "2026-06-02T01:00:00Z"),
        pr("third/repo", 1, "third", "2026-06-01T01:00:00Z"),
    ];

    let groups = group_prs_by_repository(&prs, 2, 3);

    assert_eq!(groups.len(), 2);
    assert_eq!(groups[0].repository.name_with_owner, "first/repo");
    assert_eq!(groups[0].visible_prs.len(), 2);
    assert_eq!(groups[1].repository.name_with_owner, "second/repo");
}

#[test]
fn hidden_repository_prs_get_more_link_without_count() {
    let prs = vec![
        pr("luccahuguet/yazelix", 605, "one", "2026-06-04T01:00:00Z"),
        pr("other/project", 10, "other", "2026-06-03T01:00:00Z"),
        pr("luccahuguet/yazelix", 603, "two", "2026-06-02T01:00:00Z"),
        pr("luccahuguet/yazelix", 600, "three", "2026-05-31T01:00:00Z"),
    ];

    let groups = group_prs_by_repository(&prs, 2, 2);
    let block = format_block(&groups, "bioinformatist", generated_at(), DEFAULT_START, DEFAULT_END);

    assert!(block.contains("  |-- [#605](https://github.com/luccahuguet/yazelix/pull/605) · one · merged 2026-06-04\\"));
    assert!(block.contains("  |-- [#603](https://github.com/luccahuguet/yazelix/pull/603) · two · merged 2026-06-02\\"));
    assert!(block.contains("  '-- [more...](https://github.com/luccahuguet/yazelix/pulls?q=is%3Apr+author%3Abioinformatist+is%3Amerged)"));
    assert!(!block.contains("#600"));
}
