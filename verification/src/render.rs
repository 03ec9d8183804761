use vstd::prelude::*;

use crate::model::{GroupView, PullRequest, PullRequestView, RepositoryGroup};
use crate::text::{
    byte_prefix, decimal, one_line, prefix_by_bytes, push_decimal, push_one_line, push_str,
};

verus! {

/// The date part of a merge time: its first ten bytes where they end at a
/// character boundary, else the whole text.
pub open spec fn date_text(merged_at: Seq<char>) -> Seq<char> {
    match byte_prefix(merged_at, 10) {
        Some(p) => p,
        None => merged_at,
    }
}

/// The web page of a repository.
pub open spec fn repository_url_text(name_with_owner: Seq<char>) -> Seq<char> {
    "https://github.com/"@ + name_with_owner
}

/// The search page of the author's merged pull requests in a repository.
pub open spec fn repository_more_url_text(name_with_owner: Seq<char>, author: Seq<char>) -> Seq<
    char,
> {
    "https://github.com/"@ + name_with_owner + "/pulls?q=is%3Apr+author%3A"@ + author
        + "+is%3Amerged"@
}

/// The line of a repository with a single pull request shown.
pub open spec fn pull_request_line(pr: PullRequestView) -> Seq<char> {
    "- ["@ + pr.repository.name_with_owner + "#"@ + decimal(pr.number as nat) + "]("@ + pr.url
        + ") · "@ + one_line(pr.title) + " · merged "@ + date_text(pr.merged_at)
}

/// A pull request as an entry under its repository.
pub open spec fn pull_request_child(pr: PullRequestView) -> Seq<char> {
    "[#"@ + decimal(pr.number as nat) + "]("@ + pr.url + ") · "@ + one_line(pr.title)
        + " · merged "@ + date_text(pr.merged_at)
}

/// The branch drawn before an entry of a tree.
pub open spec fn tree_prefix_text(is_last: bool) -> Seq<char> {
    if is_last {
        "'--"@
    } else {
        "|--"@
    }
}

/// The lines joined by line feeds.
pub open spec fn join_lines(lines: Seq<Seq<char>>) -> Seq<char>
    decreases lines.len(),
{
    if lines.len() == 0 {
        Seq::empty()
    } else if lines.len() == 1 {
        lines[0]
    } else {
        join_lines(lines.drop_last()) + "\n"@ + lines.last()
    }
}

/// The line of the `index`-th pull request under a repository of `count` entries.
pub open spec fn child_line(pr: PullRequestView, is_last: bool) -> Seq<char> {
    "  "@ + tree_prefix_text(is_last) + " "@ + pull_request_child(pr) + (if is_last {
        Seq::empty()
    } else {
        "\\"@
    })
}

/// The head line of a repository drawn as a tree.
pub open spec fn group_head(g: GroupView) -> Seq<char> {
    "- ["@ + g.repository.name_with_owner + "]("@ + repository_url_text(
        g.repository.name_with_owner,
    ) + ")\\"@
}

/// The last line of a tree whose repository has pull requests left out.
pub open spec fn more_line(g: GroupView, author: Seq<char>) -> Seq<char> {
    "  "@ + tree_prefix_text(true) + " [more...]("@ + repository_more_url_text(
        g.repository.name_with_owner,
        author,
    ) + ")"@
}

/// The lines of a repository drawn as a tree: its head, an entry per shown pull
/// request, and a link to the rest where some are left out.
pub open spec fn group_lines(g: GroupView, author: Seq<char>) -> Seq<Seq<char>> {
    let n = g.visible_prs.len();
    let count = n + if g.has_more {
        1int
    } else {
        0int
    };
    seq![group_head(g)] + Seq::new(
        n,
        |i: int| child_line(g.visible_prs[i], i + 1 == count),
    ) + if g.has_more {
        seq![more_line(g, author)]
    } else {
        Seq::empty()
    }
}

/// A repository with one pull request and none left out takes one line; any
/// other is drawn as a tree.
pub open spec fn group_text(g: GroupView, author: Seq<char>) -> Seq<char> {
    if g.visible_prs.len() == 1 && !g.has_more {
        pull_request_line(g.visible_prs[0])
    } else {
        join_lines(group_lines(g, author))
    }
}

/// The branch drawn before an entry of a tree.
pub fn tree_prefix(is_last: bool) -> (r: &'static str)
    ensures
        r@ == tree_prefix_text(is_last),
{
    if is_last {
        "'--"
    } else {
        "|--"
    }
}

/// The title on one line: line feeds become spaces.
pub fn clean_title(title: &str) -> (r: String)
    ensures
        r@ == one_line(title@),
{
    let mut r = String::new();
    push_one_line(&mut r, title);
    assert(r@ =~= one_line(title@));
    r
}

/// The date on which the pull request was merged.
pub fn merged_date(pr: &PullRequest) -> (r: String)
    ensures
        r@ == date_text(pr.merged_at@),
{
    match prefix_by_bytes(pr.merged_at.as_str(), 10) {
        Some(p) => p,
        None => pr.merged_at.clone(),
    }
}

/// The web page of a repository.
pub fn repository_url(name_with_owner: &str) -> (r: String)
    ensures
        r@ == repository_url_text(name_with_owner@),
{
    let mut r = String::new();
    push_str(&mut r, "https://github.com/");
    push_str(&mut r, name_with_owner);
    r
}

/// The search page of the author's merged pull requests in a repository.
pub fn repository_more_url(name_with_owner: &str, author: &str) -> (r: String)
    ensures
        r@ == repository_more_url_text(name_with_owner@, author@),
{
    let mut r = String::new();
    push_str(&mut r, "https://github.com/");
    push_str(&mut r, name_with_owner);
    push_str(&mut r, "/pulls?q=is%3Apr+author%3A");
    push_str(&mut r, author);
    push_str(&mut r, "+is%3Amerged");
    r
}

/// Appends the part shared by both forms of a pull request entry: its link,
/// title and merge date.
fn push_pr_details(s: &mut String, pr: &PullRequest)
    ensures
        final(s)@ == old(s)@ + decimal(pr.number as nat) + "]("@ + pr.url@ + ") · "@ + one_line(
            pr.title@,
        ) + " · merged "@ + date_text(pr.merged_at@),
{
    push_decimal(s, pr.number);
    push_str(s, "](");
    push_str(s, pr.url.as_str());
    push_str(s, ") · ");
    push_one_line(s, pr.title.as_str());
    push_str(s, " · merged ");
    let date = merged_date(pr);
    push_str(s, date.as_str());
}

/// The line of a repository with a single pull request shown.
pub fn format_pull_request_line(pr: &PullRequest) -> (r: String)
    ensures
        r@ == pull_request_line(pr@),
{
    let mut r = String::new();
    push_str(&mut r, "- [");
    push_str(&mut r, pr.repository.name_with_owner.as_str());
    push_str(&mut r, "#");
    push_pr_details(&mut r, pr);
    assert(r@ =~= pull_request_line(pr@));
    r
}

/// A pull request as an entry under its repository.
pub fn format_pull_request_child(pr: &PullRequest) -> (r: String)
    ensures
        r@ == pull_request_child(pr@),
{
    let mut r = String::new();
    push_str(&mut r, "[#");
    push_pr_details(&mut r, pr);
    assert(r@ =~= pull_request_child(pr@));
    r
}

/// Joining one more line adds a line feed and the line.
pub proof fn lemma_join_push(lines: Seq<Seq<char>>, line: Seq<char>)
    requires
        lines.len() >= 1,
    ensures
        join_lines(lines.push(line)) == join_lines(lines) + "\n"@ + line,
{
    assert(lines.push(line).drop_last() == lines);
}

/// A repository with one pull request and none left out takes one line; any
/// other is drawn as a tree: the repository, an entry per shown pull request,
/// and a link to the rest where some are left out.
pub fn format_repository_group(group: &RepositoryGroup, author: &str) -> (r: String)
    ensures
        r@ == group_text(group@, author@),
{
    let ghost g = group@;
    if group.visible_prs.len() == 1 && !group.has_more {
        return format_pull_request_line(&group.visible_prs[0]);
    }
    let ghost lines = group_lines(g, author@);
    let mut r = String::new();
    push_str(&mut r, "- [");
    push_str(&mut r, group.repository.name_with_owner.as_str());
    push_str(&mut r, "](");
    let url = repository_url(group.repository.name_with_owner.as_str());
    push_str(&mut r, url.as_str());
    push_str(&mut r, ")\\");
    proof {
        assert(lines[0] == group_head(g));
        assert(lines.take(1) =~= seq![lines[0]]);
        assert(r@ =~= group_head(g));
    }
    let n = group.visible_prs.len();
    let mut index: usize = 0;
    while index < n
        invariant
            index <= n,
            n == group.visible_prs.len(),
            g == group@,
            lines == group_lines(g, author@),
            r@ == join_lines(lines.take(1 + index)),
        decreases n - index,
    {
        let is_last = !group.has_more && index + 1 == n;
        let pr = &group.visible_prs[index];
        let ghost before = r@;
        push_str(&mut r, "\n");
        push_str(&mut r, "  ");
        push_str(&mut r, tree_prefix(is_last));
        push_str(&mut r, " ");
        let child = format_pull_request_child(pr);
        push_str(&mut r, child.as_str());
        if !is_last {
            push_str(&mut r, "\\");
        }
        proof {
            let count = n + if g.has_more {
                1int
            } else {
                0int
            };
            assert(is_last == (index + 1 == count));
            assert(g.visible_prs[index as int] == pr@);
            assert(lines[1 + index] == child_line(pr@, is_last));
            assert(lines.take(1 + index + 1) =~= lines.take(1 + index).push(lines[1 + index]));
            lemma_join_push(lines.take(1 + index), lines[1 + index]);
            assert(r@ =~= before + "\n"@ + child_line(pr@, is_last));
        }
        index = index + 1;
    }
    if group.has_more {
        let ghost before = r@;
        push_str(&mut r, "\n");
        push_str(&mut r, "  ");
        push_str(&mut r, tree_prefix(true));
        push_str(&mut r, " [more...](");
        let more = repository_more_url(group.repository.name_with_owner.as_str(), author);
        push_str(&mut r, more.as_str());
        push_str(&mut r, ")");
        proof {
            assert(lines[1 + n] == more_line(g, author@));
            assert(lines.take(1 + n + 1) =~= lines.take(1 + n).push(lines[1 + n]));
            lemma_join_push(lines.take(1 + n), lines[1 + n]);
            assert(r@ =~= before + "\n"@ + more_line(g, author@));
            assert(lines.take(1 + n + 1) =~= lines);
        }
    } else {
        assert(lines.take(1 + n) =~= lines);
    }
    r
}

} // verus!
