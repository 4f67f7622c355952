//! What the autoscaler knows of Gitea: jobs and runners, and how to ask for them.

use vstd::prelude::*;

use crate::seqs::{lemma_filter_take, lemma_take_one_more, views};
use crate::text::{contains_text, decimal, decimal_text};

verus! {

#[derive(Debug, Clone, Copy, PartialEq, Eq, Structural)]
pub enum JobStatus {
    Waiting,
    Queued,
    InProgress,
}

impl JobStatus {
    pub open spec fn text(self) -> Seq<char> {
        match self {
            JobStatus::Waiting => "waiting"@,
            JobStatus::Queued => "queued"@,
            JobStatus::InProgress => "in_progress"@,
        }
    }

    /// The status as the API writes it.
    pub fn as_str(&self) -> (r: &'static str)
        ensures
            r@ == self.text(),
    {
        match self {
            JobStatus::Waiting => "waiting",
            JobStatus::Queued => "queued",
            JobStatus::InProgress => "in_progress",
        }
    }
}

/// A job of Gitea Actions.
#[derive(Debug, Clone)]
pub struct Job {
    pub id: u64,
    pub name: String,
    pub labels: Vec<String>,
    pub status: String,
    pub runner_id: Option<u64>,
    pub runner_name: Option<String>,
}

#[derive(Debug, Clone)]
pub struct RunnerLabel {
    pub name: String,
}

/// A runner that is registered with Gitea.
#[derive(Debug, Clone)]
pub struct Runner {
    pub id: u64,
    pub name: String,
    pub status: String,
    pub busy: bool,
    pub labels: Vec<RunnerLabel>,
}

pub struct JobView {
    pub id: u64,
    pub name: Seq<char>,
    pub labels: Seq<Seq<char>>,
    pub status: Seq<char>,
    pub runner_id: Option<u64>,
    pub runner_name: Option<Seq<char>>,
}

pub struct RunnerView {
    pub id: u64,
    pub name: Seq<char>,
    pub status: Seq<char>,
    pub busy: bool,
    pub labels: Seq<Seq<char>>,
}

impl View for Job {
    type V = JobView;

    open spec fn view(&self) -> JobView {
        JobView {
            id: self.id,
            name: self.name@,
            labels: views(self.labels@),
            status: self.status@,
            runner_id: self.runner_id,
            runner_name: self.runner_name.deep_view(),
        }
    }
}

impl View for RunnerLabel {
    type V = Seq<char>;

    open spec fn view(&self) -> Seq<char> {
        self.name@
    }
}

impl View for Runner {
    type V = RunnerView;

    open spec fn view(&self) -> RunnerView {
        RunnerView {
            id: self.id,
            name: self.name@,
            status: self.status@,
            busy: self.busy,
            labels: views(self.labels@),
        }
    }
}

impl JobView {
    /// A job for Linux carries the label `linux`.
    pub open spec fn is_linux(self) -> bool {
        self.labels.contains("linux"@)
    }
}

impl RunnerView {
    /// A runner for Linux carries the label `linux`.
    pub open spec fn is_linux(self) -> bool {
        self.labels.contains("linux"@)
    }
}

impl Job {
    /// True if the job carries the label `linux`.
    pub fn is_linux(&self) -> (r: bool)
        ensures
            r == self@.is_linux(),
    {
        contains_text(self.labels.as_slice(), "linux")
    }
}

pub open spec fn is_linux_job() -> spec_fn(Job) -> bool {
    |j: Job| j@.is_linux()
}

pub open spec fn for_linux() -> spec_fn(JobView) -> bool {
    |j: JobView| j.is_linux()
}

/// How many of the jobs are for Linux.
pub open spec fn linux_count(jobs: Seq<JobView>) -> nat {
    jobs.filter(for_linux()).len()
}

/// The jobs for Linux, in order.
pub fn filter_linux_jobs(jobs: &[Job]) -> (r: Vec<&Job>)
    ensures
        r@.map_values(|j: &Job| *j) == jobs@.filter(is_linux_job()),
        r@.len() == linux_count(views(jobs@)),
{
    let mut r: Vec<&Job> = Vec::new();
    let mut i: usize = 0;
    proof {
        reveal(Seq::filter);
        assert(r@.map_values(|j: &Job| *j) =~= jobs@.take(0).filter(is_linux_job()));
    }
    while i < jobs.len()
        invariant
            0 <= i <= jobs@.len(),
            r@.map_values(|j: &Job| *j) == jobs@.take(i as int).filter(is_linux_job()),
        decreases jobs@.len() - i,
    {
        let job = &jobs[i];
        let ghost before = r@;
        proof {
            lemma_filter_take(jobs@, is_linux_job(), i as int);
        }
        if job.is_linux() {
            r.push(job);
            assert(r@.map_values(|j: &Job| *j) =~= before.map_values(|j: &Job| *j).push(*job));
        }
        i = i + 1;
    }
    proof {
        assert(jobs@.take(i as int) =~= jobs@);
        lemma_filter_views(jobs@);
        assert(r@.len() == r@.map_values(|j: &Job| *j).len());
    }
    r
}

/// Keep the jobs for Linux, in order.
pub fn retain_linux_jobs(jobs: Vec<Job>) -> (r: Vec<Job>)
    ensures
        r@ == jobs@.filter(is_linux_job()),
        views(r@) == views(jobs@).filter(for_linux()),
{
    let ghost all = jobs@;
    let mut r: Vec<Job> = Vec::new();
    proof {
        reveal(Seq::filter);
        assert(r@ =~= all.take(0).filter(is_linux_job()));
    }
    for job in it: jobs
        invariant
            it.seq() == all,
            r@ == all.take(it.index() as int).filter(is_linux_job()),
    {
        proof {
            lemma_filter_take(all, is_linux_job(), it.index() as int);
        }
        if job.is_linux() {
            r.push(job);
        }
    }
    proof {
        assert(all.take(all.len() as int) =~= all);
        lemma_filter_views(all);
    }
    r
}

proof fn lemma_filter_views(jobs: Seq<Job>)
    ensures
        views(jobs.filter(is_linux_job())) == views(jobs).filter(for_linux()),
    decreases jobs.len(),
{
    reveal(Seq::filter);
    if jobs.len() > 0 {
        let init = jobs.drop_last();
        lemma_filter_views(init);
        assert(views(jobs).drop_last() =~= views(init));
        assert(views(jobs).last() == jobs.last()@);
        if jobs.last()@.is_linux() {
            assert(views(jobs.filter(is_linux_job())) =~= views(init.filter(is_linux_job())).push(
                jobs.last()@,
            ));
        }
        assert(views(jobs.filter(is_linux_job())) =~= views(jobs).filter(for_linux()));
    } else {
        assert(views(jobs.filter(is_linux_job())) =~= views(jobs).filter(for_linux()));
    }
}

/// The address of the list of jobs.
pub fn jobs_url(base_url: &str) -> (r: String)
    ensures
        r@ == base_url@ + "/api/v1/admin/actions/jobs"@,
{
    let mut r = base_url.to_owned();
    r.append("/api/v1/admin/actions/jobs");
    r
}

/// The address of the list of runners.
pub fn runners_url(base_url: &str) -> (r: String)
    ensures
        r@ == base_url@ + "/api/v1/admin/actions/runners"@,
{
    let mut r = base_url.to_owned();
    r.append("/api/v1/admin/actions/runners");
    r
}

/// The address of one runner.
pub fn runner_url(base_url: &str, runner_id: u64) -> (r: String)
    ensures
        r@ == base_url@ + "/api/v1/admin/actions/runners/"@ + decimal(runner_id as nat),
{
    let mut r = base_url.to_owned();
    r.append("/api/v1/admin/actions/runners/");
    let id = decimal_text(runner_id);
    r.append(id.as_str());
    r
}

/// The value of the header that authorizes a request.
pub fn authorization(token: &str) -> (r: String)
    ensures
        r@ == "token "@ + token@,
{
    let mut r = "token ".to_owned();
    r.append(token);
    r
}

/// How many jobs to ask for in one request. A page with fewer is the last one.
pub const PAGE_SIZE: usize = 50;

/// The pages of a list of jobs that were fetched so far.
#[derive(Debug)]
pub struct JobPager {
    pub status: JobStatus,
    pub page: u32,
    pub jobs: Vec<Job>,
    pub complete: bool,
}

pub struct JobPagerView {
    pub status: JobStatus,
    /// The page to fetch next; the last one if the list is complete.
    pub page: int,
    pub jobs: Seq<Job>,
    pub complete: bool,
}

impl View for JobPager {
    type V = JobPagerView;

    open spec fn view(&self) -> JobPagerView {
        JobPagerView {
            status: self.status,
            page: self.page as int,
            jobs: self.jobs@,
            complete: self.complete,
        }
    }
}

impl JobPagerView {
    pub open spec fn first(status: JobStatus) -> JobPagerView {
        JobPagerView { status, page: 1, jobs: Seq::empty(), complete: false }
    }

    pub open spec fn after_page(self, page: Seq<Job>) -> JobPagerView {
        let complete = page.len() < PAGE_SIZE;
        JobPagerView {
            page: if complete {
                self.page
            } else {
                self.page + 1
            },
            jobs: self.jobs + page,
            complete,
            ..self
        }
    }

    pub open spec fn after_pages(self, pages: Seq<Seq<Job>>) -> JobPagerView
        decreases pages.len(),
    {
        if pages.len() == 0 {
            self
        } else {
            self.after_pages(pages.drop_last()).after_page(pages.last())
        }
    }
}

impl JobPager {
    /// Nothing fetched yet; the first page is next.
    pub fn new(status: JobStatus) -> (r: JobPager)
        ensures
            r@ == JobPagerView::first(status),
    {
        JobPager { status, page: 1, jobs: Vec::new(), complete: false }
    }

    /// The parameters of the query for the next page.
    pub fn query(&self) -> (r: Vec<(String, String)>)
        ensures
            r@.len() == 3,
            r@[0].0@ == "status"@,
            r@[0].1@ == self.status.text(),
            r@[1].0@ == "limit"@,
            r@[1].1@ == decimal(PAGE_SIZE as nat),
            r@[2].0@ == "page"@,
            r@[2].1@ == decimal(self.page as nat),
    {
        let mut r: Vec<(String, String)> = Vec::new();
        r.push(("status".to_owned(), self.status.as_str().to_owned()));
        r.push(("limit".to_owned(), decimal_text(PAGE_SIZE as u64)));
        r.push(("page".to_owned(), decimal_text(self.page as u64)));
        r
    }

    /// Take in a page.
    pub fn add_page(&mut self, page: Vec<Job>)
        requires
            page@.len() >= PAGE_SIZE ==> old(self).page < u32::MAX,
        ensures
            final(self)@ == old(self)@.after_page(page@),
    {
        let mut page = page;
        let count: usize = page.len();
        self.jobs.append(&mut page);
        if count < PAGE_SIZE {
            self.complete = true;
        } else {
            self.complete = false;
            self.page = self.page + 1;
        }
    }
}

/// Fetching page after page, from the first one until a page is not full, collects the jobs of
/// all the pages in order, asks for each page once, and stops at the page that is not full.
pub proof fn pages_add_up(status: JobStatus, pages: Seq<Seq<Job>>)
    requires
        pages.len() > 0,
        forall|i: int| 0 <= i < pages.len() - 1 ==> (#[trigger] pages[i]).len() >= PAGE_SIZE,
    ensures
        JobPagerView::first(status).after_pages(pages).jobs == pages.flatten(),
        JobPagerView::first(status).after_pages(pages).complete <==> pages.last().len()
            < PAGE_SIZE,
        forall|n: int|
            0 <= n < pages.len() ==> (#[trigger] JobPagerView::first(status).after_pages(
                pages.take(n),
            )).page == n + 1 && !JobPagerView::first(status).after_pages(pages.take(n)).complete,
{
    let start = JobPagerView::first(status);
    lemma_collected(start, pages);
    assert(Seq::<Job>::empty() + pages.flatten() =~= pages.flatten());
    assert forall|n: int| 0 <= n < pages.len() implies (#[trigger] start.after_pages(
        pages.take(n),
    )).page == n + 1 && !start.after_pages(pages.take(n)).complete by {
        lemma_page_numbers(status, pages, n);
    }
}

proof fn lemma_collected(start: JobPagerView, pages: Seq<Seq<Job>>)
    ensures
        start.after_pages(pages).jobs == start.jobs + pages.flatten(),
    decreases pages.len(),
{
    if pages.len() == 0 {
        assert(pages.flatten() =~= Seq::<Job>::empty());
        assert(start.jobs + pages.flatten() =~= start.jobs);
    } else {
        let init = pages.drop_last();
        lemma_collected(start, init);
        assert(pages =~= init.push(pages.last()));
        init.lemma_flatten_push(pages.last());
        assert(start.jobs + init.flatten() + pages.last() =~= start.jobs + pages.flatten());
    }
}

proof fn lemma_page_numbers(status: JobStatus, pages: Seq<Seq<Job>>, n: int)
    requires
        0 <= n < pages.len(),
        forall|i: int| 0 <= i < pages.len() - 1 ==> (#[trigger] pages[i]).len() >= PAGE_SIZE,
    ensures
        JobPagerView::first(status).after_pages(pages.take(n)).page == n + 1,
        !JobPagerView::first(status).after_pages(pages.take(n)).complete,
    decreases n,
{
    if n > 0 {
        lemma_page_numbers(status, pages, n - 1);
        lemma_take_one_more(pages, n - 1);
        assert(pages[n - 1].len() >= PAGE_SIZE);
    }
}

} // verus!
