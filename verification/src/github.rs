use vstd::prelude::*;

use crate::block::{lemma_first_occurrence_is, lemma_no_occurrence, occurs_at, split_once};
use crate::model::{pr_views, PullRequest, PullRequestView};
use crate::text::{blank, chars_of, is_blank, push_char, push_str};

verus! {

/// One page of the search for merged pull requests, as the API answers it.
#[derive(Clone, Debug)]
pub struct SearchPage {
    pub nodes: Vec<Option<PullRequest>>,
    pub has_next_page: bool,
    pub end_cursor: Option<String>,
}

/// The answer to one search request: the errors that the API reports, as JSON
/// text, and the page.
#[derive(Clone, Debug)]
pub struct SearchResponse {
    pub errors: Option<String>,
    pub data: Option<SearchPage>,
}

/// The answer to the request for the token's user: the errors, as JSON text,
/// and the login.
#[derive(Clone, Debug)]
pub struct ViewerResponse {
    pub errors: Option<String>,
    pub login: Option<String>,
}

/// The pull requests among the nodes of a page; other nodes are skipped.
pub open spec fn present_prs(nodes: Seq<Option<PullRequest>>) -> Seq<PullRequestView>
    decreases nodes.len(),
{
    if nodes.len() == 0 {
        Seq::empty()
    } else {
        let front = present_prs(nodes.drop_last());
        match nodes.last() {
            Some(pr) => front.push(pr@),
            None => front,
        }
    }
}

/// Where the fetching of pages stands.
pub struct PageFetch {
    max_pages: usize,
    pages: usize,
    after: Option<String>,
    prs: Vec<PullRequest>,
    finished: bool,
}

/// The state of the fetching of pages.
pub struct PageFetchView {
    pub max_pages: nat,
    pub pages: nat,
    pub after: Option<Seq<char>>,
    pub prs: Seq<PullRequestView>,
    pub finished: bool,
}

/// An optional text taken as a character sequence.
pub open spec fn opt_text(t: Option<String>) -> Option<Seq<char>> {
    match t {
        Some(s) => Some(s@),
        None => None,
    }
}

impl View for PageFetch {
    type V = PageFetchView;

    closed spec fn view(&self) -> PageFetchView {
        PageFetchView {
            max_pages: self.max_pages as nat,
            pages: self.pages as nat,
            after: opt_text(self.after),
            prs: pr_views(self.prs@),
            finished: self.finished,
        }
    }
}

/// Whether another page is to be requested: the last page said that more
/// follow, and fewer than `max_pages` pages have been fetched.
pub open spec fn wants_page(state: PageFetchView) -> bool {
    !state.finished && state.pages < state.max_pages
}

/// What a page that answered without errors makes of the state.
pub open spec fn after_page(state: PageFetchView, page: SearchPage) -> PageFetchView {
    PageFetchView {
        max_pages: state.max_pages,
        pages: state.pages + 1,
        after: if page.has_next_page {
            opt_text(page.end_cursor)
        } else {
            state.after
        },
        prs: state.prs + present_prs(page.nodes@),
        finished: !page.has_next_page,
    }
}

/// The message of a response that reports errors.
pub open spec fn api_errors_text(errors: Seq<char>) -> Seq<char> {
    "GitHub API errors: "@ + errors
}

/// What the answer to a search request gives: the message of the errors it
/// reports, the message of a missing page, or the state after the page.
pub open spec fn search_step(state: PageFetchView, response: SearchResponse) -> Result<
    PageFetchView,
    Seq<char>,
> {
    match response.errors {
        Some(e) => Err(api_errors_text(e@)),
        None => match response.data {
            None => Err("GitHub API response did not include data"@),
            Some(page) => Ok(after_page(state, page)),
        },
    }
}

impl PageFetch {
    /// The wellformedness of the state: no more pages fetched than allowed.
    pub open spec fn wf(&self) -> bool {
        self@.pages <= self@.max_pages
    }

    /// Starts fetching at most `max_pages` pages, from the first.
    pub fn new(max_pages: usize) -> (r: PageFetch)
        ensures
            r.wf(),
            r@ == (PageFetchView {
                max_pages: max_pages as nat,
                pages: 0,
                after: None,
                prs: Seq::empty(),
                finished: false,
            }),
    {
        let r = PageFetch { max_pages, pages: 0, after: None, prs: Vec::new(), finished: false };
        assert(pr_views(r.prs@) =~= Seq::<PullRequestView>::empty());
        r
    }

    /// The cursor after which the next page starts (none for the first), or
    /// `None` when no page is to be requested.
    pub fn next_request(&self) -> (r: Option<Option<String>>)
        ensures
            r is Some <==> wants_page(self@),
            r matches Some(after) ==> opt_text(after) == self@.after,
    {
        if !self.finished && self.pages < self.max_pages {
            match &self.after {
                Some(a) => Some(Some(a.clone())),
                None => Some(None),
            }
        } else {
            None
        }
    }

    /// Takes the answer to the request for the next page.
    pub fn receive(&mut self, response: SearchResponse) -> (r: Result<(), String>)
        requires
            old(self).wf(),
            wants_page(old(self)@),
        ensures
            final(self).wf(),
            r is Ok ==> search_step(old(self)@, response) == Ok::<PageFetchView, Seq<char>>(
                final(self)@,
            ),
            r matches Err(m) ==> search_step(old(self)@, response) == Err::<
                PageFetchView,
                Seq<char>,
            >(m@),
    {
        match response.errors {
            Some(e) => {
                let mut m = String::new();
                push_str(&mut m, "GitHub API errors: ");
                push_str(&mut m, e.as_str());
                Err(m)
            },
            None => match response.data {
                None => {
                    let mut m = String::new();
                    push_str(&mut m, "GitHub API response did not include data");
                    Err(m)
                },
                Some(page) => {
                    let ghost nodes = page.nodes@;
                    let ghost start = pr_views(self.prs@);
                    let mut k: usize = 0;
                    while k < page.nodes.len()
                        invariant
                            k <= page.nodes.len(),
                            nodes == page.nodes@,
                            pr_views(self.prs@) == start + present_prs(nodes.take(k as int)),
                            self.pages == old(self).pages,
                            self.max_pages == old(self).max_pages,
                            self.after == old(self).after,
                            self.finished == old(self).finished,
                            start == pr_views(old(self).prs@),
                        decreases page.nodes.len() - k,
                    {
                        let ghost before = self.prs@;
                        assert(nodes.take(k + 1).drop_last() == nodes.take(k as int));
                        match &page.nodes[k] {
                            Some(pr) => {
                                self.prs.push(pr.duplicate());
                                assert(pr_views(self.prs@) =~= pr_views(before).push(pr@));
                            },
                            None => {},
                        }
                        k = k + 1;
                    }
                    assert(nodes.take(nodes.len() as int) == nodes);
                    self.pages = self.pages + 1;
                    self.finished = !page.has_next_page;
                    if page.has_next_page {
                        self.after = page.end_cursor;
                    }
                    Ok(())
                },
            },
        }
    }

    /// The pull requests fetched so far.
    pub fn into_prs(self) -> (r: Vec<PullRequest>)
        ensures
            pr_views(r@) == self@.prs,
    {
        self.prs
    }
}

/// The login that the answer for the token's user gives.
pub open spec fn viewer_step(response: ViewerResponse) -> Result<Seq<char>, Seq<char>> {
    match response.errors {
        Some(e) => Err(api_errors_text(e@)),
        None => match response.login {
            None => Err("GitHub API response did not include viewer data"@),
            Some(login) => Ok(login@),
        },
    }
}

/// The login of the token's user from the API's answer.
pub fn viewer_login(response: ViewerResponse) -> (r: Result<String, String>)
    ensures
        r matches Ok(l) ==> viewer_step(response) == Ok::<Seq<char>, Seq<char>>(l@),
        r matches Err(m) ==> viewer_step(response) == Err::<Seq<char>, Seq<char>>(m@),
{
    match response.errors {
        Some(e) => {
            let mut m = String::new();
            push_str(&mut m, "GitHub API errors: ");
            push_str(&mut m, e.as_str());
            Err(m)
        },
        None => match response.login {
            None => {
                let mut m = String::new();
                push_str(&mut m, "GitHub API response did not include viewer data");
                Err(m)
            },
            Some(login) => Ok(login),
        },
    }
}

/// The profile owner as the workflow's environment names it: the repository
/// owner where it is not blank, else the part of `owner/name` before the first
/// slash where that is not blank; `None` where the API must be asked.
pub open spec fn login_from_environment_spec(
    owner: Option<Seq<char>>,
    repository: Option<Seq<char>>,
) -> Option<Seq<char>> {
    if owner is Some && !blank(owner->0) {
        owner
    } else {
        match repository {
            Some(r) => match split_once(r, seq!['/']) {
                Some((o, _)) => if !blank(o) {
                    Some(o)
                } else {
                    None
                },
                None => None,
            },
            None => None,
        }
    }
}

/// The profile owner from `GITHUB_REPOSITORY_OWNER` and `GITHUB_REPOSITORY`.
pub fn login_from_environment(owner: &Option<String>, repository: &Option<String>) -> (r: Option<
    String,
>)
    ensures
        opt_text(r) == login_from_environment_spec(opt_text(*owner), opt_text(*repository)),
{
    if let Some(o) = owner {
        if !is_blank(o.as_str()) {
            return Some(o.clone());
        }
    }
    match repository {
        None => None,
        Some(r) => {
            let chars = chars_of(r.as_str());
            let mut i: usize = 0;
            while i < chars.len() && chars[i] != '/'
                invariant
                    i <= chars.len(),
                    chars@ == r@,
                    forall|j: int| 0 <= j < i ==> chars@[j] != '/',
                decreases chars.len() - i,
            {
                i = i + 1;
            }
            proof {
                let slash = seq!['/'];
                assert forall|j: int| 0 <= j < i implies !occurs_at(r@, slash, j) by {
                    if j + 1 <= r@.len() {
                        assert(r@.subrange(j, j + 1)[0] == r@[j]);
                    }
                }
                if i < chars.len() {
                    assert(r@.subrange(i as int, i + 1) =~= slash);
                    lemma_first_occurrence_is(r@, slash, 0, i as int);
                } else {
                    lemma_no_occurrence(r@, slash, 0);
                }
            }
            if i == chars.len() {
                return None;
            }
            let mut o = String::new();
            let mut k: usize = 0;
            while k < i
                invariant
                    k <= i,
                    i < chars.len(),
                    chars@ == r@,
                    o@ == r@.take(k as int),
                decreases i - k,
            {
                push_char(&mut o, chars[k]);
                assert(r@.take(k + 1) =~= r@.take(k as int).push(chars@[k as int]));
                k = k + 1;
            }
            if is_blank(o.as_str()) {
                None
            } else {
                Some(o)
            }
        },
    }
}

} // verus!
