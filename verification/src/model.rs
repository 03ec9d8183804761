use vstd::prelude::*;

verus! {

/// The permission that the token's user has on a repository.
#[derive(Clone, Copy, Debug, PartialEq, Eq, Structural)]
pub enum RepositoryPermission {
    Admin,
    Maintain,
    Read,
    Triage,
    Write,
}

/// A repository as the search reports it.
#[derive(Clone, Debug)]
pub struct Repository {
    pub name_with_owner: String,
    pub is_private: bool,
    pub viewer_permission: Option<RepositoryPermission>,
}

/// A merged pull request as the search reports it.
#[derive(Clone, Debug)]
pub struct PullRequest {
    pub title: String,
    pub url: String,
    pub number: u64,
    pub merged_at: String,
    pub repository: Repository,
}

/// The pull requests shown for one repository.
#[derive(Clone, Debug)]
pub struct RepositoryGroup {
    pub repository: Repository,
    pub visible_prs: Vec<PullRequest>,
    pub has_more: bool,
}

/// A repository, with its strings taken as character sequences.
pub struct RepositoryView {
    pub name_with_owner: Seq<char>,
    pub is_private: bool,
    pub viewer_permission: Option<RepositoryPermission>,
}

/// A pull request, with its strings taken as character sequences.
pub struct PullRequestView {
    pub title: Seq<char>,
    pub url: Seq<char>,
    pub number: u64,
    pub merged_at: Seq<char>,
    pub repository: RepositoryView,
}

/// A repository group, with its pull requests taken by their views.
pub struct GroupView {
    pub repository: RepositoryView,
    pub visible_prs: Seq<PullRequestView>,
    pub has_more: bool,
}

impl View for Repository {
    type V = RepositoryView;

    open spec fn view(&self) -> RepositoryView {
        RepositoryView {
            name_with_owner: self.name_with_owner@,
            is_private: self.is_private,
            viewer_permission: self.viewer_permission,
        }
    }
}

impl View for PullRequest {
    type V = PullRequestView;

    open spec fn view(&self) -> PullRequestView {
        PullRequestView {
            title: self.title@,
            url: self.url@,
            number: self.number,
            merged_at: self.merged_at@,
            repository: self.repository@,
        }
    }
}

/// The views of a sequence of pull requests.
pub open spec fn pr_views(prs: Seq<PullRequest>) -> Seq<PullRequestView> {
    prs.map_values(|p: PullRequest| p@)
}

impl View for RepositoryGroup {
    type V = GroupView;

    open spec fn view(&self) -> GroupView {
        GroupView {
            repository: self.repository@,
            visible_prs: pr_views(self.visible_prs@),
            has_more: self.has_more,
        }
    }
}

/// The views of a sequence of groups.
pub open spec fn group_views(groups: Seq<RepositoryGroup>) -> Seq<GroupView> {
    groups.map_values(|g: RepositoryGroup| g@)
}

/// Whether the token's user maintains or owns the repository.
pub open spec fn maintained(permission: Option<RepositoryPermission>) -> bool {
    permission == Some(RepositoryPermission::Admin) || permission == Some(
        RepositoryPermission::Maintain,
    )
}

/// A pull request counts as an external contribution when its repository is
/// public (or private ones are wanted) and the user neither administers nor
/// maintains it.
pub open spec fn external_contribution(pr: PullRequestView, include_private: bool) -> bool {
    (include_private || !pr.repository.is_private) && !maintained(pr.repository.viewer_permission)
}

/// Which pull requests count: with private repositories wanted, exactly those
/// whose repository the user neither administers nor maintains, whatever its
/// privacy; otherwise, those of them whose repository is public.
pub proof fn lemma_external_contribution_rules(pr: PullRequestView)
    ensures
        external_contribution(pr, true) <==> !(pr.repository.viewer_permission == Some(
            RepositoryPermission::Admin) || pr.repository.viewer_permission == Some(
            RepositoryPermission::Maintain)),
        external_contribution(pr, false) <==> !pr.repository.is_private && !(
        pr.repository.viewer_permission == Some(RepositoryPermission::Admin)
            || pr.repository.viewer_permission == Some(RepositoryPermission::Maintain)),
{
}

impl Repository {
    /// A copy of the repository.
    pub fn duplicate(&self) -> (r: Repository)
        ensures
            r@ == self@,
    {
        Repository {
            name_with_owner: self.name_with_owner.clone(),
            is_private: self.is_private,
            viewer_permission: self.viewer_permission,
        }
    }
}

impl PullRequest {
    /// A copy of the pull request.
    pub fn duplicate(&self) -> (r: PullRequest)
        ensures
            r@ == self@,
    {
        PullRequest {
            title: self.title.clone(),
            url: self.url.clone(),
            number: self.number,
            merged_at: self.merged_at.clone(),
            repository: self.repository.duplicate(),
        }
    }

    /// Whether the pull request is work on someone else's repository.
    pub fn is_external_contribution(&self, include_private: bool) -> (r: bool)
        ensures
            r == external_contribution(self@, include_private),
    {
        (include_private || !self.repository.is_private) && match self.repository.viewer_permission {
            Some(RepositoryPermission::Admin) => false,
            Some(RepositoryPermission::Maintain) => false,
            _ => true,
        }
    }
}

} // verus!
