//! The client of one host: it holds the policy that was last read from the
//! host's robots.txt, asks it before every fetch, and has it read again once
//! it is older than the period that the caller chose.
//!
//! The client reads no clock. Every operation that depends on the time takes
//! it from the caller, as a count of ticks of a clock that never runs
//! backwards; the refetch period is counted in the same ticks.

use vstd::prelude::*;
use vstd::string::StringExecFns;
use crate::robots::policy::{verdict_of, Policy, PolicyView, Verdict};
use crate::robots::{groups_of, GroupView};

verus! {

/// What fetches the text at a URL for the client.
pub trait HTTPClient {
    /// What the transport reports when it cannot deliver.
    type Failure;

    /// Whether `response` is an answer that this transport may give when it
    /// is asked for `url` under the name `user_agent`. A transport that says
    /// nothing of itself admits every answer.
    open spec fn answers(
        &self,
        url: Seq<char>,
        user_agent: Seq<char>,
        response: Result<String, Self::Failure>,
    ) -> bool {
        true
    }

    /// Fetches the text at `url`, giving `user_agent` as the name of the
    /// requester.
    fn get(&self, url: &str, user_agent: &str) -> (response: Result<String, Self::Failure>)
        ensures
            self.answers(url@, user_agent@, response),
    ;
}

/// A transport that reaches no host: it answers every request with the URL
/// followed by the name of the requester.
#[derive(Debug)]
pub struct Empty;

impl HTTPClient for Empty {
    type Failure = core::convert::Infallible;

    open spec fn answers(
        &self,
        url: Seq<char>,
        user_agent: Seq<char>,
        response: Result<String, Self::Failure>,
    ) -> bool {
        response matches Ok(body) && body@ == url + user_agent
    }

    fn get(&self, url: &str, user_agent: &str) -> (response: Result<String, Self::Failure>) {
        let mut body = url.to_owned();
        body.append(user_agent);
        Ok(body)
    }
}

/// The state of a client that has read the robots.txt of its host.
#[derive(Debug)]
pub struct RobotFetched;

/// The state of a client that has not yet read the robots.txt of its host.
#[derive(Debug)]
pub struct RobotUnfetched;

/// The client of one host, for one agent. `T` is its state: only a client in
/// the state `RobotFetched` answers requests.
#[derive(Debug)]
pub struct Client<T, U> {
    state: T,
    client: U,
    crawler_name: String,
    robot: Policy,
    last_fetch: u64,
    refetch_period: u64,
}

/// What a `Client` holds.
pub struct ClientView<U> {
    /// The transport.
    pub transport: U,
    /// The base URL of the host.
    pub host: Seq<char>,
    /// The name under which the client fetches.
    pub crawler_name: Seq<char>,
    /// The groups of the robots.txt that was last read.
    pub groups: Seq<GroupView>,
    /// When the robots.txt was last read.
    pub last_fetch: u64,
    /// The age beyond which the policy is read again.
    pub refetch_period: u64,
}

/// What the client does with a request.
#[derive(Clone, Copy, Debug, PartialEq, Eq, Structural)]
pub enum Decision {
    /// The policy forbids the path: nothing is fetched.
    Deny,
    /// The policy permits the path but is stale: it is read again first.
    Refetch,
    /// The policy permits the path and is fresh.
    Grant,
}

/// Why a request was not granted.
#[derive(Debug)]
pub enum GetError<F> {
    /// The policy forbids the path.
    Denied,
    /// The policy was stale, and the transport failed to read it again.
    Transport(F),
}

/// The ticks that have passed at `now` since `last_fetch`.
pub open spec fn elapsed(last_fetch: u64, now: u64) -> nat {
    if now >= last_fetch {
        (now - last_fetch) as nat
    } else {
        0
    }
}

/// Whether the policy of `client` is stale at `now`: older than the refetch
/// period.
pub open spec fn is_stale<U>(client: ClientView<U>, now: u64) -> bool {
    elapsed(client.last_fetch, now) > client.refetch_period
}

/// Whether the policy of `client` forbids its agent to fetch `path`.
pub open spec fn is_denied<U>(client: ClientView<U>, path: Seq<char>) -> bool {
    verdict_of(client.groups, client.crawler_name, path) == Verdict::Denied
}

/// What `client` does with a request for `path` at `now`. A path that the
/// policy forbids is denied whatever its age.
pub open spec fn decision_of<U>(client: ClientView<U>, path: Seq<char>, now: u64) -> Decision {
    if is_denied(client, path) {
        Decision::Deny
    } else if is_stale(client, now) {
        Decision::Refetch
    } else {
        Decision::Grant
    }
}

/// The URL of the robots.txt of `host`.
pub open spec fn robots_url_of(host: Seq<char>) -> Seq<char> {
    host + "/robots.txt"@
}

/// `client` after it has read `body` as the robots.txt of its host at `now`:
/// the groups of `body` take the place of all earlier ones.
pub open spec fn refreshed<U>(client: ClientView<U>, body: Seq<char>, now: u64) -> ClientView<U> {
    ClientView { groups: groups_of(body), last_fetch: now, ..client }
}

/// A denial comes before everything else: a path that the policy forbids is
/// denied at every time, whether the policy is stale or not.
pub proof fn law_denial_ignores_age<U>(client: ClientView<U>, path: Seq<char>, now: u64)
    requires
        is_denied(client, path),
    ensures
        decision_of(client, path, now) == Decision::Deny,
{
}

/// A permitted path has the policy read again exactly if more ticks than the
/// refetch period have passed since it was last read. Until then it is
/// granted as the policy stands.
pub proof fn law_refetch_exactly_when_stale<U>(client: ClientView<U>, path: Seq<char>, now: u64)
    requires
        !is_denied(client, path),
    ensures
        decision_of(client, path, now) == Decision::Refetch <==> now - client.last_fetch
            > client.refetch_period,
        decision_of(client, path, now) == Decision::Grant <==> now - client.last_fetch
            <= client.refetch_period,
{
}

/// One refetch is enough: the policy that was read at `now` carries that time,
/// and no request up to the end of the refetch period has it read again.
pub proof fn law_refreshed_policy_is_fresh<U>(
    client: ClientView<U>,
    body: Seq<char>,
    now: u64,
    path: Seq<char>,
    later: u64,
)
    requires
        later - now <= client.refetch_period,
    ensures
        refreshed(client, body, now).last_fetch == now,
        refreshed(client, body, now).groups == groups_of(body),
        decision_of(refreshed(client, body, now), path, later) != Decision::Refetch,
{
}

/// Whether `outcome` is what becomes of `client` when the transport has
/// answered the first request for the robots.txt with `response` at `now`:
/// a client primed with the text that came, or the failure as it came.
pub open spec fn primes<U, F>(
    client: ClientView<U>,
    response: Result<String, F>,
    now: u64,
    outcome: Result<Client<RobotFetched, U>, F>,
) -> bool {
    match response {
        Ok(body) => outcome matches Ok(primed) && primed@ == refreshed(client, body@, now),
        Err(failure) => outcome matches Err(f) && f == failure,
    }
}

/// Whether `outcome` and `after` are what becomes of a request and of the
/// client `before` when the transport has answered the request for the
/// robots.txt with `response` at `now`: with the text that came the policy is
/// replaced and the request granted with an empty payload, with a failure
/// nothing changes and the failure is handed on.
pub open spec fn settles<U, F>(
    before: ClientView<U>,
    response: Result<String, F>,
    now: u64,
    outcome: Result<String, GetError<F>>,
    after: ClientView<U>,
) -> bool {
    match response {
        Ok(body) => outcome matches Ok(payload) && payload@.len() == 0 && after == refreshed(
            before,
            body@,
            now,
        ),
        Err(failure) => outcome matches Err(GetError::Transport(f)) && f == failure && after
            == before,
    }
}

impl<T, U> View for Client<T, U> {
    type V = ClientView<U>;

    closed spec fn view(&self) -> ClientView<U> {
        ClientView {
            transport: self.client,
            host: self.robot.host@,
            crawler_name: self.crawler_name@,
            groups: self.robot.groups.deep_view(),
            last_fetch: self.last_fetch,
            refetch_period: self.refetch_period,
        }
    }
}

impl<F> GetError<F> {
    /// What went wrong, in words.
    pub fn message(&self) -> (text: String)
        ensures
            text@ == (match self {
                GetError::Denied => "can't fetch"@,
                GetError::Transport(_) => "can't read robots.txt"@,
            }),
    {
        match self {
            GetError::Denied => "can't fetch".to_owned(),
            GetError::Transport(_) => "can't read robots.txt".to_owned(),
        }
    }
}

impl<T, U> Client<T, U> {
    /// The base URL of the host.
    pub fn host(&self) -> (host: &str)
        ensures
            host@ == self@.host,
    {
        self.robot.host.as_str()
    }

    /// The name under which the client fetches.
    pub fn crawler_name(&self) -> (name: &str)
        ensures
            name@ == self@.crawler_name,
    {
        self.crawler_name.as_str()
    }

    /// The age beyond which the policy is read again.
    pub fn refetch_period(&self) -> (period: u64)
        ensures
            period == self@.refetch_period,
    {
        self.refetch_period
    }

    /// When the robots.txt was last read.
    pub fn last_fetch(&self) -> (at: u64)
        ensures
            at == self@.last_fetch,
    {
        self.last_fetch
    }

    /// The policy that was last read.
    pub fn policy(&self) -> (policy: &Policy)
        ensures
            policy@ == (PolicyView { host: self@.host, groups: self@.groups }),
    {
        &self.robot
    }

    /// The transport.
    pub fn transport(&self) -> (transport: &U)
        ensures
            *transport == self@.transport,
    {
        &self.client
    }

    /// The URL of the robots.txt of the client's host.
    pub fn robots_url(&self) -> (url: String)
        ensures
            url@ == robots_url_of(self@.host),
    {
        let mut url = self.robot.host.clone();
        url.append("/robots.txt");
        url
    }
}

impl<U> Client<RobotUnfetched, U> {
    /// A client for `host` that fetches under the name `crawler_name`, through
    /// `client`, and reads the policy again once it is older than
    /// `refetch_period`. Nothing is fetched yet.
    pub fn new(host: String, crawler_name: String, refetch_period: u64, client: U) -> (made: Self)
        ensures
            made@ == (ClientView {
                transport: client,
                host: host@,
                crawler_name: crawler_name@,
                groups: Seq::<GroupView>::empty(),
                last_fetch: 0,
                refetch_period,
            }),
    {
        let made = Client {
            state: RobotUnfetched,
            client,
            crawler_name,
            robot: Policy { host, groups: Vec::new() },
            last_fetch: 0,
            refetch_period,
        };
        proof {
            assert(made.robot.groups.deep_view() =~= Seq::<GroupView>::empty());
        }
        made
    }

    /// The client once `body` has been read as the robots.txt of its host at
    /// `now`.
    pub fn primed_with(self, body: &str, now: u64) -> (primed: Client<RobotFetched, U>)
        ensures
            primed@ == refreshed(self@, body@, now),
    {
        Client {
            state: RobotFetched,
            client: self.client,
            crawler_name: self.crawler_name,
            robot: Policy::from_text(self.robot.host, body),
            last_fetch: now,
            refetch_period: self.refetch_period,
        }
    }

    /// The client once the transport has answered the request for the
    /// robots.txt of its host at `now`: primed with the text that came, or
    /// the failure as it came.
    pub fn primed<F>(self, response: Result<String, F>, now: u64) -> (outcome: Result<
        Client<RobotFetched, U>,
        F,
    >)
        ensures
            primes(self@, response, now, outcome),
    {
        match response {
            Ok(body) => Ok(self.primed_with(body.as_str(), now)),
            Err(failure) => Err(failure),
        }
    }
}

impl<U: HTTPClient> Client<RobotUnfetched, U> {
    /// Fetches the robots.txt of the host and reads it. `now` is the time of
    /// the fetch. The transport is asked once, for the robots.txt of the host
    /// under the client's name, and a failure is handed on as it came.
    pub fn fetch_robots(self, now: u64) -> (outcome: Result<Client<RobotFetched, U>, U::Failure>)
        ensures
            exists|response: Result<String, U::Failure>|
                self@.transport.answers(robots_url_of(self@.host), self@.crawler_name, response)
                    && primes(self@, response, now, outcome),
    {
        let url = self.robots_url();
        let response = self.client.get(url.as_str(), self.crawler_name.as_str());
        self.primed(response, now)
    }
}

impl<U> Client<RobotFetched, U> {
    /// Whether the policy permits the client's agent to fetch `path`.
    pub fn verdict(&self, path: &str) -> (verdict: Verdict)
        ensures
            verdict == verdict_of(self@.groups, self@.crawler_name, path@),
    {
        self.robot.evaluate(self.crawler_name.as_str(), path)
    }

    /// Whether the policy is stale at `now`.
    pub fn stale(&self, now: u64) -> (stale: bool)
        ensures
            stale == is_stale(self@, now),
    {
        now >= self.last_fetch && now - self.last_fetch > self.refetch_period
    }

    /// What to do with a request for `path` at `now`.
    pub fn decide(&self, path: &str, now: u64) -> (decision: Decision)
        ensures
            decision == decision_of(self@, path@, now),
    {
        match self.verdict(path) {
            Verdict::Denied => Decision::Deny,
            Verdict::Allowed => if self.stale(now) {
                Decision::Refetch
            } else {
                Decision::Grant
            },
        }
    }

    /// Reads `body` as the robots.txt of the host, fetched at `now`.
    pub fn refresh(&mut self, body: &str, now: u64)
        ensures
            final(self)@ == refreshed(old(self)@, body@, now),
    {
        self.robot.groups = crate::robots::parse(body);
        self.last_fetch = now;
    }

    /// Ends a request that had the policy read again: with the text that the
    /// transport gave the policy is replaced and the request granted, with a
    /// failure nothing changes and the failure is handed on.
    pub fn settle<F>(&mut self, response: Result<String, F>, now: u64) -> (outcome: Result<
        String,
        GetError<F>,
    >)
        ensures
            settles(old(self)@, response, now, outcome, final(self)@),
    {
        match response {
            Ok(body) => {
                self.refresh(body.as_str(), now);
                Ok(String::new())
            },
            Err(failure) => Err(GetError::Transport(failure)),
        }
    }
}

impl<U: HTTPClient> Client<RobotFetched, U> {
    /// Asks for leave to fetch `path` at `now`. A path that the policy forbids
    /// is denied at once. For any other path the policy is first read again
    /// if it is stale: the transport is asked once, for the robots.txt of the
    /// host under the client's name. Then the request is granted with an empty
    /// payload, unless the transport failed.
    pub fn get(&mut self, path: &str, now: u64) -> (outcome: Result<String, GetError<U::Failure>>)
        ensures
            match decision_of(old(self)@, path@, now) {
                Decision::Deny => outcome matches Err(GetError::Denied)
                    && final(self)@ == old(self)@,
                Decision::Grant => outcome matches Ok(payload) && payload@.len() == 0
                    && final(self)@ == old(self)@,
                Decision::Refetch => exists|response: Result<String, U::Failure>|
                    old(self)@.transport.answers(
                        robots_url_of(old(self)@.host),
                        old(self)@.crawler_name,
                        response,
                    ) && settles(old(self)@, response, now, outcome, final(self)@),
            },
    {
        match self.decide(path, now) {
            Decision::Deny => Err(GetError::Denied),
            Decision::Grant => Ok(String::new()),
            Decision::Refetch => {
                let url = self.robots_url();
                let response = self.client.get(url.as_str(), self.crawler_name.as_str());
                self.settle(response, now)
            },
        }
    }
}

} // verus!
