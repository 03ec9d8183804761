use recent_merged_pr::block::{assemble_block, format_block, replace_block};
use recent_merged_pr::clock::{
    search_query, utc_date_stamp, utc_minute_stamp, EARLIEST_TIMESTAMP, LATEST_TIMESTAMP,
    MAX_LOOKBACK_DAYS,
};
use recent_merged_pr::config::{
    env_bool, env_i64, env_usize, next_value, parse_args, Command, Environment, DEFAULT_END,
    DEFAULT_START,
};
use recent_merged_pr::github::{
    login_from_environment, viewer_login, PageFetch, SearchPage, SearchResponse, ViewerResponse,
};
use recent_merged_pr::grouping::group_prs_by_repository;
use recent_merged_pr::model::{PullRequest, Repository, RepositoryGroup, RepositoryPermission};
use recent_merged_pr::numbers::{parse_i64, parse_usize, NumberError};
use recent_merged_pr::output::action_output_text;
use recent_merged_pr::render::{
    clean_title, format_pull_request_child, format_pull_request_line, format_repository_group,
    merged_date, repository_more_url, repository_url, tree_prefix,
};
use recent_merged_pr::selection::{keep_contributions, recent_contributions, sort_newest_first};
use recent_merged_pr::update::build_block;

fn pr(repo: &str, number: u64, title: &str, merged_at: &str) -> PullRequest {
    PullRequest {
        title: title.to_string(),
        url: format!("https://github.com/{repo}/pull/{number}"),
        number,
        merged_at: merged_at.to_string(),
        repository: Repository {
            name_with_owner: repo.to_string(),
            is_private: false,
            viewer_permission: Some(RepositoryPermission::Read),
        },
    }
}

fn with_repo(mut p: PullRequest, is_private: bool, permission: Option<RepositoryPermission>) -> PullRequest {
    p.repository.is_private = is_private;
    p.repository.viewer_permission = permission;
    p
}

fn strings(items: &[&str]) -> Vec<String> {
    items.iter().map(|s| s.to_string()).collect()
}

fn no_environment() -> Environment {
    Environment {
        readme_path: None,
        marker_start: None,
        marker_end: None,
        include_private: None,
        repo_limit: None,
        max_prs_per_repo: None,
        lookback_days: None,
        max_pages: None,
        output_only: None,
    }
}

#[test]
fn external_contribution_rules() {
    let public_read = pr("a/b", 1, "t", "2026-01-01T00:00:00Z");
    assert!(public_read.is_external_contribution(false));
    let private = with_repo(pr("a/b", 1, "t", "x"), true, None);
    assert!(!private.is_external_contribution(false));
    assert!(private.is_external_contribution(true));
    let admin = with_repo(pr("a/b", 1, "t", "x"), false, Some(RepositoryPermission::Admin));
    assert!(!admin.is_external_contribution(true));
    let maintain = with_repo(pr("a/b", 1, "t", "x"), false, Some(RepositoryPermission::Maintain));
    assert!(!maintain.is_external_contribution(false));
    let write = with_repo(pr("a/b", 1, "t", "x"), false, Some(RepositoryPermission::Write));
    assert!(write.is_external_contribution(false));
    let triage = with_repo(pr("a/b", 1, "t", "x"), false, Some(RepositoryPermission::Triage));
    assert!(triage.is_external_contribution(false));
}

#[test]
fn selection_filters_and_sorts_newest_first_stably() {
    let prs = vec![
        pr("a/a", 1, "old", "2026-01-01T00:00:00Z"),
        with_repo(pr("m/m", 2, "mine", "2026-09-01T00:00:00Z"), false, Some(RepositoryPermission::Admin)),
        pr("b/b", 3, "new", "2026-05-01T00:00:00Z"),
        pr("c/c", 4, "same first", "2026-03-01T00:00:00Z"),
        with_repo(pr("p/p", 5, "private", "2026-08-01T00:00:00Z"), true, None),
        pr("d/d", 6, "same second", "2026-03-01T00:00:00Z"),
    ];
    let r = recent_contributions(&prs, false);
    let numbers: Vec<u64> = r.iter().map(|p| p.number).collect();
    assert_eq!(numbers, vec![3, 4, 6, 1]);
    let with_private = recent_contributions(&prs, true);
    let numbers: Vec<u64> = with_private.iter().map(|p| p.number).collect();
    assert_eq!(numbers, vec![5, 3, 4, 6, 1]);
}

#[test]
fn keep_and_sort_separately() {
    let prs = vec![pr("a/a", 1, "x", "2026-01-02"), pr("a/a", 2, "x", "2026-01-10")];
    let kept = keep_contributions(&prs, false);
    assert_eq!(kept.len(), 2);
    let sorted = sort_newest_first(&kept);
    assert_eq!(sorted[0].number, 2);
    assert_eq!(sorted[1].number, 1);
    assert!(sort_newest_first(&Vec::new()).is_empty());
}

#[test]
fn sort_orders_by_code_points_and_prefixes() {
    let prs = vec![pr("a/a", 1, "x", "2026"), pr("a/a", 2, "x", "2026-01"), pr("a/a", 3, "x", "Z")];
    let sorted = sort_newest_first(&prs);
    let numbers: Vec<u64> = sorted.iter().map(|p| p.number).collect();
    assert_eq!(numbers, vec![3, 2, 1]);
}

#[test]
fn grouping_caps_and_flags_hidden_prs() {
    let prs = vec![
        pr("x/one", 1, "a", "d"),
        pr("x/two", 2, "b", "d"),
        pr("x/one", 3, "c", "d"),
        pr("x/one", 4, "d", "d"),
        pr("x/three", 5, "e", "d"),
    ];
    let groups = group_prs_by_repository(&prs, 6, 2);
    assert_eq!(groups.len(), 3);
    assert_eq!(groups[0].visible_prs.iter().map(|p| p.number).collect::<Vec<_>>(), vec![1, 3]);
    assert!(groups[0].has_more);
    assert!(!groups[1].has_more);
    assert_eq!(groups[2].repository.name_with_owner, "x/three");
}

#[test]
fn grouping_with_zero_limits() {
    let prs = vec![pr("x/one", 1, "a", "d"), pr("x/one", 2, "b", "d")];
    assert!(group_prs_by_repository(&prs, 0, 3).is_empty());
    let groups = group_prs_by_repository(&prs, 1, 0);
    assert_eq!(groups.len(), 1);
    assert_eq!(groups[0].visible_prs.len(), 1);
    assert!(groups[0].has_more);
    assert!(group_prs_by_repository(&[], 3, 3).is_empty());
}

#[test]
fn grouping_drops_prs_of_repositories_beyond_the_limit() {
    let prs = vec![pr("x/one", 1, "a", "d"), pr("x/two", 2, "b", "d"), pr("x/two", 3, "c", "d")];
    let groups = group_prs_by_repository(&prs, 1, 3);
    assert_eq!(groups.len(), 1);
    assert_eq!(groups[0].visible_prs.len(), 1);
    assert!(!groups[0].has_more);
}

#[test]
fn small_renderers() {
    assert_eq!(tree_prefix(true), "'--");
    assert_eq!(tree_prefix(false), "|--");
    assert_eq!(clean_title("a\nb\n"), "a b ");
    assert_eq!(repository_url("o/r"), "https://github.com/o/r");
    assert_eq!(
        repository_more_url("o/r", "me"),
        "https://github.com/o/r/pulls?q=is%3Apr+author%3Ame+is%3Amerged"
    );
}

#[test]
fn merged_date_takes_ten_bytes_at_a_boundary() {
    assert_eq!(merged_date(&pr("a/b", 1, "t", "2026-05-25T01:00:00Z")), "2026-05-25");
    assert_eq!(merged_date(&pr("a/b", 1, "t", "2026-05")), "2026-05");
    assert_eq!(merged_date(&pr("a/b", 1, "t", "0123456789")), "0123456789");
    // 'é' takes two bytes: the first ten bytes end inside it, so the whole text stays.
    assert_eq!(merged_date(&pr("a/b", 1, "t", "012345678é9")), "012345678é9");
    // Here the first ten bytes end after 'é'.
    assert_eq!(merged_date(&pr("a/b", 1, "t", "01234567é89")), "01234567é");
}

#[test]
fn pull_request_lines() {
    let p = pr("o/r", 42, "fix\nthing", "2026-01-02T03:04:05Z");
    assert_eq!(
        format_pull_request_line(&p),
        "- [o/r#42](https://github.com/o/r/pull/42) · fix thing · merged 2026-01-02"
    );
    assert_eq!(
        format_pull_request_child(&p),
        "[#42](https://github.com/o/r/pull/42) · fix thing · merged 2026-01-02"
    );
    let zero = pr("o/r", 0, "t", "d");
    assert!(format_pull_request_line(&zero).starts_with("- [o/r#0]("));
    let big = pr("o/r", u64::MAX, "t", "d");
    assert!(format_pull_request_child(&big).starts_with("[#18446744073709551615]("));
}

#[test]
fn repository_group_shapes() {
    let single = RepositoryGroup {
        repository: pr("o/r", 1, "t", "d").repository,
        visible_prs: vec![pr("o/r", 1, "t", "2026-01-01")],
        has_more: false,
    };
    assert_eq!(
        format_repository_group(&single, "me"),
        "- [o/r#1](https://github.com/o/r/pull/1) · t · merged 2026-01-01"
    );
    let more = RepositoryGroup {
        repository: pr("o/r", 1, "t", "d").repository,
        visible_prs: vec![pr("o/r", 1, "t", "2026-01-01")],
        has_more: true,
    };
    assert_eq!(
        format_repository_group(&more, "me"),
        "- [o/r](https://github.com/o/r)\\\n  |-- [#1](https://github.com/o/r/pull/1) · t · merged 2026-01-01\\\n  '-- [more...](https://github.com/o/r/pulls?q=is%3Apr+author%3Ame+is%3Amerged)"
    );
    let empty = RepositoryGroup { repository: pr("o/r", 1, "t", "d").repository, visible_prs: vec![], has_more: false };
    assert_eq!(format_repository_group(&empty, "me"), "- [o/r](https://github.com/o/r)\\");
}

#[test]
fn block_without_groups_says_so() {
    let block = assemble_block(&[], "me", "STAMP", "<s>", "<e>");
    assert_eq!(block, "<s>\n_No merged pull requests found._\n\n_Last updated: STAMP_\n<e>");
}

#[test]
fn block_joins_groups_and_shows_the_time() {
    let groups = group_prs_by_repository(
        &[pr("a/a", 1, "one", "2026-01-01"), pr("b/b", 2, "two", "2026-01-02")],
        6,
        3,
    );
    let block = format_block(&groups, "me", 1780549200, DEFAULT_START, DEFAULT_END);
    assert_eq!(
        block,
        "<!-- RECENT_PRS_START -->\n- [a/a#1](https://github.com/a/a/pull/1) · one · merged 2026-01-01\n- [b/b#2](https://github.com/b/b/pull/2) · two · merged 2026-01-02\n\n_Last updated: 2026-06-04 05:00 UTC_\n<!-- RECENT_PRS_END -->"
    );
}

#[test]
fn time_stamps() {
    assert_eq!(utc_minute_stamp(1780549200), "2026-06-04 05:00 UTC");
    assert_eq!(utc_minute_stamp(0), "1970-01-01 00:00 UTC");
    assert_eq!(utc_date_stamp(1780617599), "2026-06-04");
    assert_eq!(utc_date_stamp(-1), "1969-12-31");
}

#[test]
fn search_query_goes_back_the_lookback() {
    assert_eq!(
        search_query("me", 1780549200, 365),
        "author:me is:pr is:merged merged:>=2025-06-04 -user:me sort:updated-desc"
    );
    assert_eq!(
        search_query("me", 1780549200, 0),
        "author:me is:pr is:merged merged:>=2026-06-04 -user:me sort:updated-desc"
    );
}

#[test]
fn replace_block_replaces_between_markers() {
    let readme = "intro\n<s>old\nstuff<e>\noutro <e>";
    assert_eq!(replace_block(readme, "<s>NEW<e>", "<s>", "<e>").unwrap(), "intro\n<s>NEW<e>\noutro <e>");
    assert_eq!(replace_block("x<s><e>y", "B", "<s>", "<e>").unwrap(), "xBy");
    assert_eq!(replace_block("abc", "B", "", "").unwrap(), "Babc");
}

#[test]
fn replace_block_names_the_missing_marker() {
    assert_eq!(replace_block("none", "B", "<s>", "<e>").unwrap_err(), "README must contain <s>");
    assert_eq!(replace_block("<e><s>", "B", "<s>", "<e>").unwrap_err(), "README must contain <e>");
}

#[test]
fn updating_twice_equals_updating_once() {
    let readme = "a\n<!-- RECENT_PRS_START -->\nold\n<!-- RECENT_PRS_END -->\nb";
    let first = replace_block(readme, "<!-- RECENT_PRS_START -->\nX\n<!-- RECENT_PRS_END -->", DEFAULT_START, DEFAULT_END).unwrap();
    let next = "<!-- RECENT_PRS_START -->\nY\n<!-- RECENT_PRS_END -->";
    assert_eq!(
        replace_block(&first, next, DEFAULT_START, DEFAULT_END).unwrap(),
        replace_block(readme, next, DEFAULT_START, DEFAULT_END).unwrap()
    );
}

#[test]
fn numbers_parse_as_std_does() {
    assert_eq!(parse_usize("42"), Ok(42));
    assert_eq!(parse_usize("+7"), Ok(7));
    assert_eq!(parse_usize(""), Err(NumberError::Empty));
    assert_eq!(parse_usize("+"), Err(NumberError::InvalidDigit));
    assert_eq!(parse_usize("-1"), Err(NumberError::InvalidDigit));
    assert_eq!(parse_usize(" 1"), Err(NumberError::InvalidDigit));
    assert_eq!(parse_usize("18446744073709551616"), Err(NumberError::PosOverflow));
    assert_eq!(parse_usize("18446744073709551615"), Ok(usize::MAX));
    assert_eq!(parse_i64("-9223372036854775808"), Ok(i64::MIN));
    assert_eq!(parse_i64("-9223372036854775809"), Err(NumberError::NegOverflow));
    assert_eq!(parse_i64("9223372036854775808"), Err(NumberError::PosOverflow));
    assert_eq!(parse_i64("-"), Err(NumberError::InvalidDigit));
    assert_eq!(parse_i64("12a"), Err(NumberError::InvalidDigit));
    for text in ["", "+", "-", "x", "99999999999999999999", "-99999999999999999999", "-5", "17"] {
        assert_eq!(parse_i64(text).ok(), text.parse::<i64>().ok());
        assert_eq!(parse_usize(text).ok(), text.parse::<usize>().ok());
        if let Err(e) = text.parse::<i64>() {
            assert_eq!(parse_i64(text).unwrap_err().message(), e.to_string());
        }
        if let Err(e) = text.parse::<usize>() {
            assert_eq!(parse_usize(text).unwrap_err().message(), e.to_string());
        }
    }
}

#[test]
fn settings_from_the_environment() {
    assert_eq!(env_usize(&None, 6), Ok(6));
    assert_eq!(env_usize(&Some("  ".to_string()), 6), Ok(6));
    assert_eq!(env_usize(&Some("9".to_string()), 6), Ok(9));
    assert_eq!(env_usize(&Some("x".to_string()), 6), Err("invalid digit found in string".to_string()));
    assert_eq!(env_i64(&None, 365), Ok(365));
    assert_eq!(env_i64(&Some("".to_string()), 365), Err("cannot parse integer from empty string".to_string()));
    assert_eq!(env_i64(&Some("-3".to_string()), 365), Ok(-3));
    assert_eq!(env_bool("N", &None, true), Ok(true));
    assert_eq!(env_bool("N", &Some("YES".to_string()), false), Ok(true));
    assert_eq!(env_bool("N", &Some("Off".to_string()), true), Ok(false));
    assert_eq!(env_bool("N", &Some("maybe".to_string()), true), Err("N must be true or false".to_string()));
}

#[test]
fn command_line_defaults_and_flags() {
    let run = match parse_args(&no_environment(), &Vec::new()).unwrap() {
        Command::Run(c) => c,
        Command::Help => panic!("no help asked"),
    };
    assert_eq!(run.readme, "README.md");
    assert_eq!(run.marker_start, DEFAULT_START);
    assert_eq!(run.marker_end, DEFAULT_END);
    assert_eq!((run.repo_limit, run.max_prs_per_repo, run.lookback_days, run.max_pages), (6, 3, 365, 10));
    assert!(!run.include_private && !run.output_only && !run.check);

    let args = strings(&[
        "--readme", "R.md", "--repo-limit", "2", "--max-prs-per-repo", "4", "--lookback-days", "-7",
        "--max-pages", "1", "--include-private", "--output-only", "--check", "--marker-start", "S",
        "--marker-end", "E",
    ]);
    let c = match parse_args(&no_environment(), &args).unwrap() {
        Command::Run(c) => c,
        Command::Help => panic!("no help asked"),
    };
    assert_eq!((c.readme.as_str(), c.marker_start.as_str(), c.marker_end.as_str()), ("R.md", "S", "E"));
    assert_eq!((c.repo_limit, c.max_prs_per_repo, c.lookback_days, c.max_pages), (2, 4, -7, 1));
    assert!(c.include_private && c.output_only && c.check);
}

#[test]
fn command_line_errors_and_help() {
    let env = no_environment();
    assert_eq!(parse_args(&env, &strings(&["--bogus"])).err(), Some("Unknown argument: --bogus".to_string()));
    assert_eq!(parse_args(&env, &strings(&["--readme"])).err(), Some("Missing value for --readme".to_string()));
    assert_eq!(parse_args(&env, &strings(&["--repo-limit", "0"])).err(), Some("repo-limit must be greater than 0".to_string()));
    assert_eq!(parse_args(&env, &strings(&["--max-prs-per-repo", "0"])).err(), Some("max-prs-per-repo must be greater than 0".to_string()));
    assert_eq!(parse_args(&env, &strings(&["--max-pages", "x"])).err(), Some("invalid digit found in string".to_string()));
    assert!(matches!(parse_args(&env, &strings(&["--repo-limit", "0", "-h"])), Ok(Command::Help)));
    assert!(matches!(parse_args(&env, &strings(&["--help", "--bogus"])), Ok(Command::Help)));
    assert_eq!(parse_args(&env, &strings(&["--bogus", "--help"])).err(), Some("Unknown argument: --bogus".to_string()));
    let mut bad = no_environment();
    bad.include_private = Some("perhaps".to_string());
    assert_eq!(parse_args(&bad, &Vec::new()).err(), Some("INPUT_INCLUDE_PRIVATE must be true or false".to_string()));
    let mut limited = no_environment();
    limited.repo_limit = Some("8".to_string());
    limited.output_only = Some("TRUE".to_string());
    match parse_args(&limited, &Vec::new()).unwrap() {
        Command::Run(c) => assert!(c.repo_limit == 8 && c.output_only),
        Command::Help => panic!("no help asked"),
    }
    assert_eq!(next_value(&strings(&["a"]), 0, "--f"), Ok("a".to_string()));
    assert_eq!(next_value(&strings(&["a"]), 1, "--f"), Err("Missing value for --f".to_string()));
}

fn page(nodes: Vec<Option<PullRequest>>, has_next_page: bool, end_cursor: Option<&str>) -> SearchResponse {
    SearchResponse {
        errors: None,
        data: Some(SearchPage { nodes, has_next_page, end_cursor: end_cursor.map(|c| c.to_string()) }),
    }
}

#[test]
fn paging_follows_cursors_and_stops() {
    let mut fetch = PageFetch::new(3);
    assert_eq!(fetch.next_request(), Some(None));
    fetch.receive(page(vec![Some(pr("a/a", 1, "t", "d")), None], true, Some("c1"))).unwrap();
    assert_eq!(fetch.next_request(), Some(Some("c1".to_string())));
    fetch.receive(page(vec![Some(pr("a/a", 2, "t", "d"))], false, None)).unwrap();
    assert_eq!(fetch.next_request(), None);
    let prs = fetch.into_prs();
    assert_eq!(prs.iter().map(|p| p.number).collect::<Vec<_>>(), vec![1, 2]);
}

#[test]
fn paging_respects_the_page_limit() {
    let mut fetch = PageFetch::new(1);
    fetch.receive(page(vec![], true, Some("c"))).unwrap();
    assert_eq!(fetch.next_request(), None);
    assert_eq!(PageFetch::new(0).next_request(), None);
}

#[test]
fn paging_reports_api_errors() {
    let mut fetch = PageFetch::new(2);
    let failed = SearchResponse { errors: Some("[\"bad\"]".to_string()), data: None };
    assert_eq!(fetch.receive(failed), Err("GitHub API errors: [\"bad\"]".to_string()));
    let mut fetch = PageFetch::new(2);
    let empty = SearchResponse { errors: None, data: None };
    assert_eq!(fetch.receive(empty), Err("GitHub API response did not include data".to_string()));
}

#[test]
fn viewer_login_outcomes() {
    assert_eq!(viewer_login(ViewerResponse { errors: None, login: Some("me".to_string()) }), Ok("me".to_string()));
    assert_eq!(
        viewer_login(ViewerResponse { errors: Some("x".to_string()), login: Some("me".to_string()) }),
        Err("GitHub API errors: x".to_string())
    );
    assert_eq!(
        viewer_login(ViewerResponse { errors: None, login: None }),
        Err("GitHub API response did not include viewer data".to_string())
    );
}

#[test]
fn login_from_the_workflow_environment() {
    let s = |t: &str| Some(t.to_string());
    assert_eq!(login_from_environment(&s("owner"), &s("x/y")), s("owner"));
    assert_eq!(login_from_environment(&s("  "), &s("org/repo")), s("org"));
    assert_eq!(login_from_environment(&None, &s("a/b/c")), s("a"));
    assert_eq!(login_from_environment(&None, &s(" /repo")), None);
    assert_eq!(login_from_environment(&None, &s("noslash")), None);
    assert_eq!(login_from_environment(&None, &None), None);
}

#[test]
fn action_output_format() {
    assert_eq!(action_output_text("markdown", 17, "v"), "markdown<<recent_merged_pr_17\nv\nrecent_merged_pr_17\n");
    assert_eq!(action_output_text("m", -5, ""), "m<<recent_merged_pr_-5\n\nrecent_merged_pr_-5\n");
    assert_eq!(action_output_text("m", i64::MIN, "x"), "m<<recent_merged_pr_-9223372036854775808\nx\nrecent_merged_pr_-9223372036854775808\n");
}

#[test]
fn chrono_range_matches_the_stated_bounds() {
    assert!(chrono::DateTime::from_timestamp(EARLIEST_TIMESTAMP, 0).is_some());
    assert!(chrono::DateTime::from_timestamp(EARLIEST_TIMESTAMP - 1, 0).is_none());
    assert!(chrono::DateTime::from_timestamp(LATEST_TIMESTAMP, 0).is_some());
    assert!(chrono::DateTime::from_timestamp(LATEST_TIMESTAMP + 1, 0).is_none());
    assert!(chrono::TimeDelta::try_days(MAX_LOOKBACK_DAYS).is_some());
    assert!(chrono::TimeDelta::try_days(MAX_LOOKBACK_DAYS + 1).is_none());
    assert!(chrono::TimeDelta::try_days(-MAX_LOOKBACK_DAYS).is_some());
    assert!(chrono::TimeDelta::try_days(-MAX_LOOKBACK_DAYS - 1).is_none());
    assert_eq!(utc_date_stamp(EARLIEST_TIMESTAMP), "-262143-01-01");
    assert_eq!(utc_date_stamp(LATEST_TIMESTAMP), "+262142-12-31");
}

#[test]
fn a_run_filters_sorts_groups_and_renders() {
    let prs = vec![
        pr("a/a", 1, "older", "2026-01-01T00:00:00Z"),
        with_repo(pr("m/m", 9, "mine", "2026-09-01T00:00:00Z"), false, Some(RepositoryPermission::Maintain)),
        pr("b/b", 2, "newer", "2026-02-01T00:00:00Z"),
        pr("a/a", 3, "newest", "2026-03-01T00:00:00Z"),
    ];
    let config = match parse_args(&no_environment(), &strings(&["--repo-limit", "1"])).unwrap() {
        Command::Run(c) => c,
        Command::Help => panic!("no help asked"),
    };
    assert_eq!(
        build_block(&prs, &config, "me", 1780549200),
        "<!-- RECENT_PRS_START -->\n- [a/a](https://github.com/a/a)\\\n  |-- [#3](https://github.com/a/a/pull/3) · newest · merged 2026-03-01\\\n  '-- [#1](https://github.com/a/a/pull/1) · older · merged 2026-01-01\n\n_Last updated: 2026-06-04 05:00 UTC_\n<!-- RECENT_PRS_END -->"
    );
}
