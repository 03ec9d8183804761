use vstd::prelude::*;

use crate::block::{block_text, format_block};
use crate::clock::{representable_timestamp, utc_format_text};
use crate::config::{Config, ConfigView};
use crate::grouping::{expected_groups, group_prs_by_repository};
use crate::model::{pr_views, PullRequest, PullRequestView};
use crate::selection::{newest_first_contributions, recent_contributions};

verus! {

/// The block that a run writes for the fetched pull requests: the external
/// contributions, newest first, grouped by repository within the configured
/// limits, updated at `generated_at`.
pub open spec fn update_block_text(
    prs: Seq<PullRequestView>,
    config: ConfigView,
    login: Seq<char>,
    generated_at: int,
) -> Seq<char> {
    block_text(
        expected_groups(
            newest_first_contributions(prs, config.include_private),
            config.repo_limit as nat,
            config.max_prs_per_repo as nat,
        ),
        login,
        utc_format_text(generated_at, "%Y-%m-%d %H:%M UTC"@),
        config.marker_start,
        config.marker_end,
    )
}

/// The block for the fetched pull requests, updated at `generated_at` seconds
/// after the Unix epoch.
pub fn build_block(prs: &[PullRequest], config: &Config, login: &str, generated_at: i64) -> (r: String)
    requires
        representable_timestamp(generated_at as int),
    ensures
        r@ == update_block_text(pr_views(prs@), config@, login@, generated_at as int),
{
    let selected = recent_contributions(prs, config.include_private);
    let groups = group_prs_by_repository(
        selected.as_slice(),
        config.repo_limit,
        config.max_prs_per_repo,
    );
    format_block(
        groups.as_slice(),
        login,
        generated_at,
        config.marker_start.as_str(),
        config.marker_end.as_str(),
    )
}

} // verus!
