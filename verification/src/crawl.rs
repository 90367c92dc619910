//! The crawl politeness engine: per-fetch planning and the per-host clock.
//!
//! A fetch is a short dialogue between this planner and the I/O shell: the
//! shell resolves robots rules, sleeps, and performs HTTP, but every
//! decision — whether the fetch may proceed, how long to wait, whether to
//! retry — is taken here. The shell holds the host's lock for the whole
//! dialogue, so requests to one host never overlap.

use vstd::prelude::*;
use crate::robots::RobotsRules;
use crate::text::str_to_chars;

verus! {

/// How a fetch can fail.
#[derive(Debug, PartialEq, Eq)]
pub enum FetchError {
    /// The URL has no readable scheme and host.
    InvalidUrl,
    /// robots.txt forbids the path: a policy decision, never retried.
    RobotsDisallowed,
    /// A response with a terminal non-success status.
    HttpStatus(u16),
    /// A transport-level failure after the retry ceiling.
    Network(String),
}

/// The scheme and host of an absolute URL, when it has both.
pub uninterp spec fn url_parts(s: Seq<char>) -> Option<(Seq<char>, Seq<char>)>;

/// Relies on url's `Url::parse`, `Url::scheme` and `Url::host_str`: the
/// scheme and host of an absolute URL, a function of the string alone.
#[verifier::external_body]
fn url_scheme_host(url: &str) -> (r: Option<(String, String)>)
    ensures
        match r {
            Some(p) => url_parts(url@) == Some((p.0@, p.1@)),
            None => url_parts(url@) is None,
        },
{
    match url::Url::parse(url) {
        Ok(u) => match u.host_str() {
            Some(h) => Some((u.scheme().to_string(), h.to_string())),
            None => None,
        },
        Err(_) => None,
    }
}

/// Engine-wide fetch settings.
pub struct FetchConfig {
    pub user_agent: String,
    pub default_delay_ms: u64,
    pub max_retries: u32,
    pub base_backoff_ms: u64,
}

impl FetchConfig {
    pub open spec fn wf(&self) -> bool {
        self.base_backoff_ms * self.max_retries <= u64::MAX
    }

    /// The engine defaults: three attempts, half-second backoff steps.
    pub fn new(user_agent: String, default_delay_ms: u64) -> (r: FetchConfig)
        ensures
            r.wf(),
            r.user_agent == user_agent,
            r.default_delay_ms == default_delay_ms,
            r.max_retries == 3,
            r.base_backoff_ms == 500,
    {
        FetchConfig { user_agent, default_delay_ms, max_retries: 3, base_backoff_ms: 500 }
    }
}

enum Phase {
    /// Robots rules for the host are not resolved yet.
    RobotsPending,
    /// The fetch may issue its next request.
    Ready,
    /// A request is out; an outcome is owed.
    InFlight,
    /// The fetch ended, successfully or not.
    Settled,
}

/// What the shell reports back for one issued request.
pub enum HttpOutcome {
    /// The server answered with this status and body.
    Completed { status: u16, body: String },
    /// The request failed below HTTP.
    Transport { message: String },
}

/// What the planner decides after an outcome.
pub enum FetchDecision {
    /// The fetch is done; here is the body.
    Finished(String),
    /// Wait this long, then ask for the next request.
    Retry { backoff_ms: u64 },
    /// Give up with this error.
    Failed(FetchError),
}

/// One fetch in progress. The planner counts every request it authorizes,
/// so the no-request claim under a robots denial is a statement about the
/// whole dialogue, not one step.
pub struct FetchSession {
    url: String,
    scheme: String,
    host: String,
    cfg: FetchConfig,
    phase: Phase,
    delay_ms: u64,
    attempt: u32,
    gets: u32,
}

impl FetchSession {
    pub closed spec fn url_spec(&self) -> Seq<char> {
        self.url@
    }

    pub closed spec fn host_spec(&self) -> Seq<char> {
        self.host@
    }

    pub closed spec fn scheme_spec(&self) -> Seq<char> {
        self.scheme@
    }

    pub closed spec fn user_agent_spec(&self) -> Seq<char> {
        self.cfg.user_agent@
    }

    /// Requests authorized so far in this fetch.
    pub closed spec fn gets_spec(&self) -> int {
        self.gets as int
    }

    pub closed spec fn attempt_spec(&self) -> int {
        self.attempt as int
    }

    pub closed spec fn delay_spec(&self) -> int {
        self.delay_ms as int
    }

    pub closed spec fn awaiting_robots(&self) -> bool {
        self.phase is RobotsPending
    }

    pub closed spec fn ready(&self) -> bool {
        self.phase is Ready
    }

    pub closed spec fn in_flight(&self) -> bool {
        self.phase is InFlight
    }

    pub closed spec fn settled(&self) -> bool {
        self.phase is Settled
    }

    pub closed spec fn inv(&self) -> bool {
        &&& self.cfg.wf()
        &&& self.cfg.max_retries >= 1
        &&& (self.phase is RobotsPending ==> self.gets == 0 && self.attempt == 0)
        &&& (self.phase is Ready ==> self.attempt < self.cfg.max_retries)
        &&& (self.phase is InFlight ==> 1 <= self.attempt <= self.cfg.max_retries)
        &&& self.gets <= self.attempt
    }

    /// Opens a fetch for a URL. Fails only when the URL has no usable
    /// scheme and host; no request has been authorized yet either way.
    pub fn start(url: &str, cfg: FetchConfig) -> (r: Result<FetchSession, FetchError>)
        requires
            cfg.wf(),
            cfg.max_retries >= 1,
        ensures
            match r {
                Ok(s) => {
                    &&& url_parts(url@) matches Some(p) && p.0 == s.scheme_spec() && p.1
                        == s.host_spec()
                    &&& s.url_spec() == url@
                    &&& s.user_agent_spec() == cfg.user_agent@
                    &&& s.inv()
                    &&& s.awaiting_robots()
                    &&& s.gets_spec() == 0
                },
                Err(e) => e == FetchError::InvalidUrl && url_parts(url@) is None,
            },
    {
        match url_scheme_host(url) {
            Some((scheme, host)) => Ok(
                FetchSession {
                    url: crate::text::chars_to_string(&str_to_chars(url)),
                    scheme,
                    host,
                    cfg,
                    phase: Phase::RobotsPending,
                    delay_ms: 0,
                    attempt: 0,
                    gets: 0,
                },
            ),
            None => Err(FetchError::InvalidUrl),
        }
    }

    /// Whether robots rules are still owed.
    pub fn is_awaiting_robots(&self) -> (r: bool)
        ensures
            r == self.awaiting_robots(),
    {
        matches!(self.phase, Phase::RobotsPending)
    }

    /// Whether the next request may be asked for.
    pub fn is_ready(&self) -> (r: bool)
        ensures
            r == self.ready(),
    {
        matches!(self.phase, Phase::Ready)
    }

    /// Whether an outcome is owed for an issued request.
    pub fn is_in_flight(&self) -> (r: bool)
        ensures
            r == self.in_flight(),
    {
        matches!(self.phase, Phase::InFlight)
    }

    /// The host this fetch is serialized on.
    pub fn host(&self) -> (r: &String)
        ensures
            r@ == self.host_spec(),
    {
        &self.host
    }

    /// The URL to fetch.
    pub fn url(&self) -> (r: &String)
        ensures
            r@ == self.url_spec(),
    {
        &self.url
    }

    /// Where this host's robots.txt lives: `{scheme}://{host}/robots.txt`.
    pub fn robots_url(&self) -> (r: String)
        ensures
            r@ == self.scheme_spec() + "://"@ + self.host_spec() + "/robots.txt"@,
    {
        let mut out = str_to_chars(self.scheme.as_str());
        let mut sep = str_to_chars("://");
        out.append(&mut sep);
        let mut host = str_to_chars(self.host.as_str());
        out.append(&mut host);
        let mut tail = str_to_chars("/robots.txt");
        out.append(&mut tail);
        assert(out@ =~= self.scheme_spec() + "://"@ + self.host_spec() + "/robots.txt"@);
        crate::text::chars_to_string(&out)
    }

    /// Applies the host's robots rules. A disallowed path settles the
    /// fetch at once with `RobotsDisallowed`, after zero authorized
    /// requests; an allowed one fixes the effective delay: the host's
    /// crawl delay if it declared one, else the engine default.
    pub fn apply_robots(&mut self, rules: &RobotsRules) -> (r: Result<(), FetchError>)
        requires
            old(self).inv(),
            old(self).awaiting_robots(),
        ensures
            final(self).inv(),
            final(self).url_spec() == old(self).url_spec(),
            final(self).host_spec() == old(self).host_spec(),
            !rules.allowed ==> r == Result::<(), FetchError>::Err(FetchError::RobotsDisallowed)
                && final(self).settled() && final(self).gets_spec() == 0,
            rules.allowed ==> r is Ok && final(self).ready() && final(self).delay_spec() == (
            match rules.crawl_delay_ms {
                Some(d) => d as int,
                None => old(self).delay_default(),
            }),
    {
        if !rules.allowed {
            self.phase = Phase::Settled;
            Err(FetchError::RobotsDisallowed)
        } else {
            self.delay_ms = match rules.crawl_delay_ms {
                Some(d) => d,
                None => self.cfg.default_delay_ms,
            };
            self.phase = Phase::Ready;
            Ok(())
        }
    }

    pub closed spec fn delay_default(&self) -> int {
        self.cfg.default_delay_ms as int
    }

    /// The spacing this fetch must keep on its host.
    pub fn effective_delay(&self) -> (r: u64)
        ensures
            r as int == self.delay_spec(),
    {
        self.delay_ms
    }

    /// Authorizes the next request. Every authorization is counted, and
    /// none can happen before robots rules allowed the fetch.
    pub fn next_request(&mut self) -> (r: u32)
        requires
            old(self).inv(),
            old(self).ready(),
        ensures
            final(self).inv(),
            final(self).in_flight(),
            final(self).url_spec() == old(self).url_spec(),
            final(self).host_spec() == old(self).host_spec(),
            final(self).delay_spec() == old(self).delay_spec(),
            final(self).attempt_spec() == old(self).attempt_spec() + 1,
            final(self).gets_spec() == old(self).gets_spec() + 1,
            r as int == final(self).attempt_spec(),
    {
        self.attempt = self.attempt + 1;
        self.gets = self.gets + 1;
        self.phase = Phase::InFlight;
        self.attempt
    }

    /// Decides what the reported outcome means: success returns the body;
    /// a non-success status or transport failure retries with linearly
    /// growing backoff until the attempt ceiling, then fails for good.
    pub fn on_response(&mut self, outcome: HttpOutcome) -> (r: FetchDecision)
        requires
            old(self).inv(),
            old(self).in_flight(),
        ensures
            final(self).inv(),
            final(self).url_spec() == old(self).url_spec(),
            final(self).host_spec() == old(self).host_spec(),
            final(self).delay_spec() == old(self).delay_spec(),
            final(self).gets_spec() == old(self).gets_spec(),
            match outcome {
                HttpOutcome::Completed { status, body } => {
                    if 200 <= status < 300 {
                        r == FetchDecision::Finished(body) && final(self).settled()
                    } else if old(self).attempt_spec() < old(self).max_retries_spec() {
                        r == (FetchDecision::Retry {
                            backoff_ms: (old(self).attempt_spec()
                                * old(self).base_backoff_spec()) as u64,
                        }) && final(self).ready()
                    } else {
                        r == FetchDecision::Failed(FetchError::HttpStatus(status))
                            && final(self).settled()
                    }
                },
                HttpOutcome::Transport { message } => {
                    if old(self).attempt_spec() < old(self).max_retries_spec() {
                        r == (FetchDecision::Retry {
                            backoff_ms: (old(self).attempt_spec()
                                * old(self).base_backoff_spec()) as u64,
                        }) && final(self).ready()
                    } else {
                        r == FetchDecision::Failed(FetchError::Network(message))
                            && final(self).settled()
                    }
                },
            },
    {
        match outcome {
            HttpOutcome::Completed { status, body } => {
                if 200 <= status && status < 300 {
                    self.phase = Phase::Settled;
                    FetchDecision::Finished(body)
                } else if self.attempt < self.cfg.max_retries {
                    self.phase = Phase::Ready;
                    proof {
                        assert((self.attempt as int) * (self.cfg.base_backoff_ms as int)
                            <= (self.cfg.base_backoff_ms as int) * (self.cfg.max_retries as int))
                            by (nonlinear_arith)
                            requires
                                self.attempt <= self.cfg.max_retries,
                                self.cfg.base_backoff_ms >= 0,
                        ;
                    }
                    FetchDecision::Retry { backoff_ms: (self.attempt as u64) * self.cfg.base_backoff_ms }
                } else {
                    self.phase = Phase::Settled;
                    FetchDecision::Failed(FetchError::HttpStatus(status))
                }
            },
            HttpOutcome::Transport { message } => {
                if self.attempt < self.cfg.max_retries {
                    self.phase = Phase::Ready;
                    proof {
                        assert((self.attempt as int) * (self.cfg.base_backoff_ms as int)
                            <= (self.cfg.base_backoff_ms as int) * (self.cfg.max_retries as int))
                            by (nonlinear_arith)
                            requires
                                self.attempt <= self.cfg.max_retries,
                                self.cfg.base_backoff_ms >= 0,
                        ;
                    }
                    FetchDecision::Retry { backoff_ms: (self.attempt as u64) * self.cfg.base_backoff_ms }
                } else {
                    self.phase = Phase::Settled;
                    FetchDecision::Failed(FetchError::Network(message))
                }
            },
        }
    }

    pub closed spec fn max_retries_spec(&self) -> int {
        self.cfg.max_retries as int
    }

    pub closed spec fn base_backoff_spec(&self) -> int {
        self.cfg.base_backoff_ms as int
    }
}

/// Request times kept at least `delay` apart.
pub open spec fn spaced(times: Seq<u64>, delay: u64) -> bool {
    forall|i: int| 0 <= i < times.len() - 1 ==> #[trigger] times[i + 1] >= times[i] + delay
}

/// One host's politeness clock: the effective delay and the time of the
/// last authorized request. The ghost history carries every recorded
/// request time, so spacing is a claim about the whole run.
pub struct HostClock {
    delay_ms: u64,
    last: Option<u64>,
    history: Ghost<Seq<u64>>,
}

impl HostClock {
    pub closed spec fn delay_spec(&self) -> u64 {
        self.delay_ms
    }

    pub closed spec fn history(&self) -> Seq<u64> {
        self.history@
    }

    pub closed spec fn inv(&self) -> bool {
        &&& spaced(self.history@, self.delay_ms)
        &&& match self.last {
            Some(t) => self.history@.len() > 0 && self.history@.last() == t && t <= u64::MAX
                - self.delay_ms,
            None => self.history@.len() == 0,
        }
    }

    /// A fresh clock for a host, with its effective delay.
    pub fn new(delay_ms: u64) -> (r: HostClock)
        ensures
            r.inv(),
            r.delay_spec() == delay_ms,
            r.history() == Seq::<u64>::empty(),
    {
        HostClock { delay_ms, last: None, history: Ghost(Seq::empty()) }
    }

    /// How much longer the caller must wait before the next request: zero
    /// once the effective delay has passed since the last one.
    pub fn wait_needed(&self, now: u64) -> (r: u64)
        requires
            self.inv(),
        ensures
            match self.last_spec() {
                None => r == 0,
                Some(t) => r as int == if now >= t + self.delay_spec() {
                    0int
                } else {
                    t + self.delay_spec() - now
                },
            },
    {
        match self.last {
            None => 0,
            Some(t) => {
                let ready = t + self.delay_ms;
                if now >= ready {
                    0
                } else {
                    ready - now
                }
            },
        }
    }

    pub closed spec fn last_spec(&self) -> Option<u64> {
        self.last
    }

    /// Records the time of a request being issued now. The caller may only
    /// do this once the wait is over, which is exactly what keeps every
    /// pair of consecutive requests to the host spaced by the delay.
    pub fn record(&mut self, now: u64)
        requires
            old(self).inv(),
            now <= u64::MAX - old(self).delay_spec(),
            match old(self).last_spec() {
                None => true,
                Some(t) => now >= t + old(self).delay_spec(),
            },
        ensures
            final(self).inv(),
            final(self).delay_spec() == old(self).delay_spec(),
            final(self).history() == old(self).history().push(now),
            final(self).last_spec() == Some(now),
    {
        proof {
            let h = self.history@.push(now);
            assert(spaced(h, self.delay_ms)) by {
                assert(forall|i: int| 0 <= i < h.len() - 1 ==> h[i] == self.history@[i]);
            }
            self.history@ = h;
        }
        self.last = Some(now);
    }
}

impl HostClock {
    /// The whole spacing decision in one step: if `now` is far enough
    /// past the last request (and small enough to keep the next deadline
    /// representable), it is stamped as the new last-request time and the
    /// caller may issue its request; otherwise nothing changes and the
    /// caller must wait `wait_needed` longer first.
    pub fn note_request(&mut self, now: u64) -> (r: bool)
        requires
            old(self).inv(),
        ensures
            final(self).inv(),
            final(self).delay_spec() == old(self).delay_spec(),
            r == (now <= u64::MAX - old(self).delay_spec() && match old(self).last_spec() {
                None => true,
                Some(t) => now >= t + old(self).delay_spec(),
            }),
            r ==> final(self).history() == old(self).history().push(now) && final(self).last_spec()
                == Some(now),
            !r ==> *final(self) == *old(self),
    {
        if now > u64::MAX - self.delay_ms {
            return false;
        }
        let ok = match self.last {
            None => true,
            Some(t) => now >= t + self.delay_ms,
        };
        if ok {
            self.record(now);
        }
        ok
    }
}

/// Consecutive request timestamps to one host differ by at least the
/// host's effective delay — for every pair in the run, not just the last.
pub proof fn lemma_host_spacing(c: &HostClock, i: int)
    requires
        c.inv(),
        0 <= i < c.history().len() - 1,
    ensures
        c.history()[i + 1] - c.history()[i] >= c.delay_spec(),
{
}

} // verus!
