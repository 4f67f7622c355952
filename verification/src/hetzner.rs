//! What the autoscaler knows of Hetzner Cloud: servers, and how to ask for them.

use vstd::prelude::*;

use crate::seqs::{lemma_take_one_more, views};
use crate::time::{parse_instant, parsed_instant, Timestamp, TimestampError};

verus! {

/// The label by which the autoscaler finds its own servers.
pub const MANAGED_BY_LABEL: &'static str = "managed-by";

pub const MANAGED_BY_VALUE: &'static str = "gitea-ci-autoscaler";

/// A server of the Hetzner project.
#[derive(Debug, Clone)]
pub struct HetznerServer {
    pub id: i64,
    pub name: String,
    pub created: Timestamp,
    pub labels: std::collections::HashMap<String, String>,
}

pub struct ServerView {
    pub id: i64,
    pub name: Seq<char>,
    pub created: Timestamp,
    pub labels: Map<String, String>,
}

impl View for HetznerServer {
    type V = ServerView;

    open spec fn view(&self) -> ServerView {
        ServerView {
            id: self.id,
            name: self.name@,
            created: self.created,
            labels: self.labels@,
        }
    }
}

/// A server as the API reports it: the time of its creation is still text.
#[derive(Debug, Clone)]
pub struct ApiServer {
    pub id: i64,
    pub name: String,
    pub created: String,
    pub labels: std::collections::HashMap<String, String>,
}

pub struct ApiServerView {
    pub id: i64,
    pub name: Seq<char>,
    pub created: Seq<char>,
    pub labels: Map<String, String>,
}

impl View for ApiServer {
    type V = ApiServerView;

    open spec fn view(&self) -> ApiServerView {
        ApiServerView {
            id: self.id,
            name: self.name@,
            created: self.created@,
            labels: self.labels@,
        }
    }
}

/// What can be wrong with what the API reports.
#[derive(Debug)]
pub enum HetznerError {
    /// The time of creation of a server is not a timestamp.
    InvalidTimestamp { text: String, error: TimestampError },
}

pub enum HetznerErrorView {
    InvalidTimestamp { text: Seq<char>, error: TimestampError },
}

impl View for HetznerError {
    type V = HetznerErrorView;

    open spec fn view(&self) -> HetznerErrorView {
        match *self {
            HetznerError::InvalidTimestamp { text, error } => HetznerErrorView::InvalidTimestamp {
                text: text@,
                error,
            },
        }
    }
}

impl HetznerErrorView {
    pub open spec fn text(self) -> Seq<char> {
        match self {
            HetznerErrorView::InvalidTimestamp { error, .. } => error.text(),
        }
    }
}

impl HetznerError {
    /// The error in words.
    pub fn to_string(&self) -> (r: String)
        ensures
            r@ == self@.text(),
    {
        match self {
            HetznerError::InvalidTimestamp { error, .. } => error.to_string(),
        }
    }
}

/// The server that a report stands for, given what reading its text as an instant gave.
pub open spec fn read_server(
    api: ApiServerView,
    instant: Result<(i64, u32), TimestampError>,
) -> Result<ServerView, HetznerErrorView> {
    match instant {
        Ok((secs, nanos)) => Ok(
            ServerView {
                id: api.id,
                name: api.name,
                created: Timestamp { secs, nanos },
                labels: api.labels,
            },
        ),
        Err(error) => Err(HetznerErrorView::InvalidTimestamp { text: api.created, error }),
    }
}

/// The result of reading, with the views in place of the values.
pub open spec fn outcome(r: Result<HetznerServer, HetznerError>) -> Result<
    ServerView,
    HetznerErrorView,
> {
    match r {
        Ok(server) => Ok(server@),
        Err(e) => Err(e@),
    }
}

/// The server that a report stands for, if `created` is what reading its text as an instant gave.
pub fn server_created_at(api: ApiServer, created: Result<Timestamp, TimestampError>) -> (r: Result<
    HetznerServer,
    HetznerError,
>)
    ensures
        outcome(r) == read_server(
            api@,
            match created {
                Ok(t) => Ok((t.secs, t.nanos)),
                Err(e) => Err(e),
            },
        ),
        r matches Ok(server) ==> created == Ok::<_, TimestampError>(server.created),
{
    match created {
        Ok(created) => Ok(
            HetznerServer { id: api.id, name: api.name, created, labels: api.labels },
        ),
        Err(error) => Err(HetznerError::InvalidTimestamp { text: api.created, error }),
    }
}

/// The server that a report stands for.
pub fn server_from_api(api: ApiServer) -> (r: Result<HetznerServer, HetznerError>)
    ensures
        outcome(r) == read_server(api@, parsed_instant(api@.created)),
        r matches Ok(server) ==> server.created.wf(),
{
    let created = parse_instant(api.created.as_str());
    server_created_at(api, created)
}

/// All the values, or the first error.
pub open spec fn all_or_first_error<T, E>(results: Seq<Result<T, E>>) -> Result<Seq<T>, E>
    decreases results.len(),
{
    if results.len() == 0 {
        Ok(Seq::empty())
    } else {
        match all_or_first_error(results.drop_last()) {
            Ok(values) => match results.last() {
                Ok(value) => Ok(values.push(value)),
                Err(e) => Err(e),
            },
            Err(e) => Err(e),
        }
    }
}

/// The servers, if every one of them could be read; otherwise what was wrong with the first that
/// could not.
pub fn collect_servers(results: Vec<Result<HetznerServer, HetznerError>>) -> (r: Result<
    Vec<HetznerServer>,
    HetznerError,
>)
    ensures
        match r {
            Ok(servers) => all_or_first_error(results@) == Ok::<_, HetznerError>(servers@),
            Err(e) => all_or_first_error(results@) == Err::<Seq<HetznerServer>, _>(e),
        },
{
    let ghost all = results@;
    let mut servers: Vec<HetznerServer> = Vec::new();
    assert(all.take(0) =~= Seq::<Result<HetznerServer, HetznerError>>::empty());
    for result in it: results
        invariant
            it.seq() == all,
            all_or_first_error(all.take(it.index() as int)) == Ok::<_, HetznerError>(servers@),
    {
        let ghost i = it.index() as int;
        proof {
            lemma_take_one_more(all, i);
        }
        match result {
            Ok(server) => servers.push(server),
            Err(e) => {
                proof {
                    lemma_first_error_stays(all, i + 1);
                }
                return Err(e);
            },
        }
    }
    assert(all.take(all.len() as int) =~= all);
    Ok(servers)
}

proof fn lemma_first_error_stays<T, E>(results: Seq<Result<T, E>>, n: int)
    requires
        0 <= n <= results.len(),
        all_or_first_error(results.take(n)) is Err,
    ensures
        all_or_first_error(results) == all_or_first_error(results.take(n)),
    decreases results.len() - n,
{
    if n < results.len() {
        lemma_take_one_more(results, n);
        lemma_first_error_stays(results, n + 1);
    } else {
        assert(results.take(n) =~= results);
    }
}

/// How each report reads.
pub open spec fn read_each(apis: Seq<ApiServerView>) -> Seq<
    Result<ServerView, HetznerErrorView>,
> {
    apis.map_values(|api: ApiServerView| read_server(api, parsed_instant(api.created)))
}

/// The servers that the reports stand for, if every one of them can be read.
pub fn servers_from_api(apis: Vec<ApiServer>) -> (r: Result<Vec<HetznerServer>, HetznerError>)
    ensures
        match r {
            Ok(servers) => all_or_first_error(read_each(views(apis@))) == Ok::<_, HetznerErrorView>(
                views(servers@),
            ),
            Err(e) => all_or_first_error(read_each(views(apis@))) == Err::<Seq<ServerView>, _>(
                e@,
            ),
        },
        r matches Ok(servers) ==> forall|i: int|
            0 <= i < servers@.len() ==> (#[trigger] views(servers@)[i]).created.wf(),
{
    let ghost all = apis@;
    let mut results: Vec<Result<HetznerServer, HetznerError>> = Vec::new();
    for api in it: apis
        invariant
            it.seq() == all,
            results@.len() == it.index(),
            forall|k: int|
                0 <= k < results@.len() ==> outcome(#[trigger] results@[k]) == read_server(
                    all[k]@,
                    parsed_instant(all[k]@.created),
                ),
            forall|k: int|
                0 <= k < results@.len() ==> ((#[trigger] results@[k]) matches Ok(server)
                    ==> server.created.wf()),
    {
        results.push(server_from_api(api));
    }
    proof {
        let outcomes = results@.map_values(|x: Result<HetznerServer, HetznerError>| outcome(x));
        assert(outcomes =~= read_each(views(all)));
        lemma_outcomes(results@);
    }
    collect_servers(results)
}

/// Reading the views gives the views of what was read.
proof fn lemma_outcomes(results: Seq<Result<HetznerServer, HetznerError>>)
    ensures
        all_or_first_error(
            results.map_values(|x: Result<HetznerServer, HetznerError>| outcome(x)),
        ) == match all_or_first_error(results) {
            Ok(servers) => Ok(views(servers)),
            Err(e) => Err(e@),
        },
        all_or_first_error(results) matches Ok(servers) ==> servers.len() == results.len()
            && forall|i: int| 0 <= i < servers.len() ==> results[i] == Ok::<_, HetznerError>(
            #[trigger] servers[i],
        ),
    decreases results.len(),
{
    let outcomes = results.map_values(|x: Result<HetznerServer, HetznerError>| outcome(x));
    if results.len() == 0 {
        assert(views(Seq::<HetznerServer>::empty()) =~= Seq::<ServerView>::empty());
    } else {
        let init = results.drop_last();
        lemma_outcomes(init);
        assert(outcomes.drop_last() =~= init.map_values(
            |x: Result<HetznerServer, HetznerError>| outcome(x),
        ));
        if all_or_first_error(init) is Ok && results.last() is Ok {
            let servers = all_or_first_error(init)->Ok_0;
            let last = results.last()->Ok_0;
            assert(views(servers.push(last)) =~= views(servers).push(last@));
            assert forall|i: int| 0 <= i < servers.push(last).len() implies results[i] == Ok::<
                _,
                HetznerError,
            >(#[trigger] servers.push(last)[i]) by {
                if i < servers.len() {
                    assert(init[i] == results[i]);
                    assert(servers.push(last)[i] == servers[i]);
                }
            }
        }
    }
}

/// The order for a new server.
#[derive(Debug, Clone)]
pub struct ServerOrder {
    pub name: String,
    pub server_type: String,
    pub image: String,
    pub location: String,
    pub labels: Vec<(String, String)>,
    pub user_data: String,
    pub ssh_keys: Vec<String>,
    pub automount: bool,
    pub start_after_create: bool,
}

/// The kind of server to order.
#[derive(Debug, Clone)]
pub struct ServerTemplate {
    pub server_type: String,
    pub location: String,
    pub image: String,
    pub ssh_keys: Vec<String>,
}

impl ServerTemplate {
    /// The order for a server of this kind: it carries the label of the autoscaler, and boots at
    /// once into what `cloud_init` says.
    pub fn order(&self, name: &str, cloud_init: &str) -> (r: ServerOrder)
        ensures
            r.name@ == name@,
            r.server_type@ == self.server_type@,
            r.image@ == self.image@,
            r.location@ == self.location@,
            r.labels@.len() == 1,
            r.labels@[0].0@ == MANAGED_BY_LABEL@,
            r.labels@[0].1@ == MANAGED_BY_VALUE@,
            r.user_data@ == cloud_init@,
            r.ssh_keys@ == self.ssh_keys@,
            !r.automount,
            r.start_after_create,
    {
        let mut labels: Vec<(String, String)> = Vec::new();
        labels.push((MANAGED_BY_LABEL.to_owned(), MANAGED_BY_VALUE.to_owned()));
        let ssh_keys = self.ssh_keys.clone();
        assert(ssh_keys@ =~= self.ssh_keys@);
        ServerOrder {
            name: name.to_owned(),
            server_type: self.server_type.clone(),
            image: self.image.clone(),
            location: self.location.clone(),
            labels,
            user_data: cloud_init.to_owned(),
            ssh_keys,
            automount: false,
            start_after_create: true,
        }
    }
}

/// The selector of the resources that carry a label.
pub open spec fn selector(label: Seq<char>, value: Seq<char>) -> Seq<char> {
    label + "="@ + value
}

/// The selector of the autoscaler's own servers: the label that every server it orders carries.
pub fn managed_selector() -> (r: String)
    ensures
        r@ == selector(MANAGED_BY_LABEL@, MANAGED_BY_VALUE@),
{
    let mut r = MANAGED_BY_LABEL.to_owned();
    r.append("=");
    r.append(MANAGED_BY_VALUE);
    r
}

} // verus!
