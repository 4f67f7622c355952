use gitea_ci_autoscaler::gitea::{
    authorization, filter_linux_jobs, jobs_url, retain_linux_jobs, runner_url, runners_url, Job,
    JobPager, JobStatus,
};

fn make_job(labels: Vec<&str>, status: &str) -> Job {
    Job {
        id: 1,
        name: "test".to_string(),
        labels: labels.into_iter().map(String::from).collect(),
        status: status.to_string(),
        runner_id: None,
        runner_name: None,
    }
}

fn page_of(first_id: u64, count: u64) -> Vec<Job> {
    (first_id..first_id + count)
        .map(|id| Job {
            id,
            ..make_job(vec!["linux"], "waiting")
        })
        .collect()
}

#[test]
fn filter_linux_jobs_includes_linux() {
    let jobs = vec![
        make_job(vec!["self-hosted", "linux"], "waiting"),
        make_job(vec!["self-hosted", "macos"], "waiting"),
        make_job(vec!["self-hosted", "linux", "x64"], "waiting"),
    ];
    let filtered = filter_linux_jobs(&jobs);
    assert_eq!(filtered.len(), 2);
}

#[test]
fn filter_linux_jobs_excludes_macos_only() {
    let jobs = vec![make_job(vec!["self-hosted", "macos"], "waiting")];
    let filtered = filter_linux_jobs(&jobs);
    assert!(filtered.is_empty());
}

#[test]
fn filter_linux_jobs_empty() {
    let jobs: Vec<Job> = vec![];
    let filtered = filter_linux_jobs(&jobs);
    assert!(filtered.is_empty());
}

#[test]
fn the_label_is_the_whole_word() {
    assert!(make_job(vec!["linux"], "queued").is_linux());
    assert!(!make_job(vec!["linux-arm", "Linux", "linux "], "queued").is_linux());
    assert!(!make_job(vec![], "queued").is_linux());
}

#[test]
fn linux_jobs_keep_their_order() {
    let mut jobs = page_of(1, 3);
    jobs.insert(1, make_job(vec!["macos"], "waiting"));
    let ids: Vec<u64> = filter_linux_jobs(&jobs).iter().map(|j| j.id).collect();
    assert_eq!(ids, vec![1, 2, 3]);
    let kept: Vec<u64> = retain_linux_jobs(jobs).iter().map(|j| j.id).collect();
    assert_eq!(kept, vec![1, 2, 3]);
}

#[test]
fn status_as_the_api_writes_it() {
    assert_eq!(JobStatus::Waiting.as_str(), "waiting");
    assert_eq!(JobStatus::Queued.as_str(), "queued");
    assert_eq!(JobStatus::InProgress.as_str(), "in_progress");
}

#[test]
fn addresses() {
    let base = "http://gitea.example.com";
    assert_eq!(
        jobs_url(base),
        "http://gitea.example.com/api/v1/admin/actions/jobs"
    );
    assert_eq!(
        runners_url(base),
        "http://gitea.example.com/api/v1/admin/actions/runners"
    );
    assert_eq!(
        runner_url(base, 120),
        "http://gitea.example.com/api/v1/admin/actions/runners/120"
    );
    assert_eq!(
        runner_url(base, u64::MAX),
        format!("{}/{}", runners_url(base), u64::MAX)
    );
    assert_eq!(authorization("secret"), "token secret");
}

#[test]
fn pages_are_fetched_until_one_is_not_full() {
    let mut pager = JobPager::new(JobStatus::InProgress);
    assert_eq!(
        pager.query(),
        vec![
            ("status".to_string(), "in_progress".to_string()),
            ("limit".to_string(), "50".to_string()),
            ("page".to_string(), "1".to_string()),
        ]
    );
    pager.add_page(page_of(0, 50));
    assert!(!pager.complete);
    assert_eq!(pager.query()[2].1, "2");
    pager.add_page(page_of(50, 50));
    assert!(!pager.complete);
    assert_eq!(pager.query()[2].1, "3");
    pager.add_page(page_of(100, 49));
    assert!(pager.complete);
    let ids: Vec<u64> = pager.jobs.iter().map(|j| j.id).collect();
    assert_eq!(ids, (0..149).collect::<Vec<u64>>());
}

#[test]
fn an_empty_page_completes_the_list() {
    let mut pager = JobPager::new(JobStatus::Waiting);
    pager.add_page(page_of(0, 50));
    pager.add_page(vec![]);
    assert!(pager.complete);
    assert_eq!(pager.jobs.len(), 50);
}
