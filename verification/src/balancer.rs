//! The decisions of a load balancer: which upstream server to try, which
//! servers count as alive, how many requests a client may make, and how a
//! connection goes on after each thing that can happen on it.
//!
//! Connecting, reading and writing are done elsewhere. What was seen comes
//! in as plain values, and what to do goes out as plain values.

use crate::chance::choose_below;
use std::collections::HashMap;
use std::collections::HashSet;
use vstd::prelude::*;

verus! {

broadcast use vstd::std_specs::hash::group_hash_axioms;

/// An error answer of the balancer to its client.
#[derive(Clone, Copy, Debug, PartialEq, Eq, Structural)]
pub enum ErrorStatus {
    BadRequest,
    PayloadTooLarge,
    TooManyRequests,
    BadGateway,
}

/// Why no request could be read from the client.
#[derive(Clone, Copy, Debug, PartialEq, Eq, Structural)]
pub enum RequestError {
    /// The client stopped sending after this many bytes of a request.
    IncompleteRequest(usize),
    /// What the client sent is no request.
    MalformedRequest,
    /// The length announced for the body is no number.
    InvalidContentLength,
    /// The body is not as long as announced.
    ContentLengthMismatch,
    /// The body is longer than the balancer accepts.
    RequestBodyTooLarge,
    /// The connection to the client failed.
    ConnectionError,
}

/// What happened on a connection.
#[derive(Clone, Copy, Debug, PartialEq, Eq, Structural)]
pub enum ConnectionEvent {
    /// No upstream server could be connected to.
    NoUpstream,
    /// No request could be read from the client.
    RequestFailed(RequestError),
    /// The client has used up its requests for this minute.
    RateLimited,
    /// The request could not be sent on to the upstream server.
    ForwardFailed,
    /// No response could be read from the upstream server.
    ResponseFailed,
    /// The upstream server has answered; its response goes to the client.
    Responded,
}

/// How a connection goes on.
#[derive(Clone, Copy, Debug, PartialEq, Eq, Structural)]
pub struct ConnectionStep {
    /// The error answer to send to the client, if any.
    pub reply: Option<ErrorStatus>,
    /// Whether the balancer goes on reading requests from the client.
    pub keep_open: bool,
}

/// What a health check found out about an upstream server.
#[derive(Clone, Copy, Debug, PartialEq, Eq, Structural)]
pub enum HealthProbe {
    /// The server could not be connected to.
    ConnectFailed,
    /// The request could not be sent.
    RequestFailed,
    /// The server did not answer.
    NoResponse,
    /// The server answered with this status code.
    Responded(u16),
}

/// The status code of an answer that all is well.
pub const STATUS_OK: u16 = 200;

impl ErrorStatus {
    /// The status code of the answer.
    pub open spec fn spec_code(self) -> u16 {
        match self {
            ErrorStatus::BadRequest => 400,
            ErrorStatus::PayloadTooLarge => 413,
            ErrorStatus::TooManyRequests => 429,
            ErrorStatus::BadGateway => 502,
        }
    }

    /// The status code of the answer.
    pub fn code(&self) -> (code: u16)
        ensures
            code == self.spec_code(),
    {
        match self {
            ErrorStatus::BadRequest => 400,
            ErrorStatus::PayloadTooLarge => 413,
            ErrorStatus::TooManyRequests => 429,
            ErrorStatus::BadGateway => 502,
        }
    }
}

/// How a connection goes on after `event`.
///
/// A client that has closed the connection between requests, or whose
/// connection failed, is let go without an answer. Any other request that
/// cannot be read is answered with an error and the connection stays open.
/// So it does after a request over the limit. Without an upstream server,
/// or when the upstream server fails, the client gets an error and the
/// connection is closed.
pub open spec fn next_step(event: ConnectionEvent) -> ConnectionStep {
    match event {
        ConnectionEvent::NoUpstream => ConnectionStep {
            reply: Some(ErrorStatus::BadGateway),
            keep_open: false,
        },
        ConnectionEvent::RequestFailed(error) => match error {
            RequestError::IncompleteRequest(received) => if received == 0 {
                ConnectionStep { reply: None, keep_open: false }
            } else {
                ConnectionStep { reply: Some(ErrorStatus::BadRequest), keep_open: true }
            },
            RequestError::ConnectionError => ConnectionStep { reply: None, keep_open: false },
            RequestError::RequestBodyTooLarge => ConnectionStep {
                reply: Some(ErrorStatus::PayloadTooLarge),
                keep_open: true,
            },
            _ => ConnectionStep { reply: Some(ErrorStatus::BadRequest), keep_open: true },
        },
        ConnectionEvent::RateLimited => ConnectionStep {
            reply: Some(ErrorStatus::TooManyRequests),
            keep_open: true,
        },
        ConnectionEvent::ForwardFailed => ConnectionStep {
            reply: Some(ErrorStatus::BadGateway),
            keep_open: false,
        },
        ConnectionEvent::ResponseFailed => ConnectionStep {
            reply: Some(ErrorStatus::BadGateway),
            keep_open: false,
        },
        ConnectionEvent::Responded => ConnectionStep { reply: None, keep_open: true },
    }
}

/// Decides how a connection goes on after `event`.
pub fn handle_connection(event: ConnectionEvent) -> (step: ConnectionStep)
    ensures
        step == next_step(event),
{
    match event {
        ConnectionEvent::NoUpstream => ConnectionStep {
            reply: Some(ErrorStatus::BadGateway),
            keep_open: false,
        },
        ConnectionEvent::RequestFailed(RequestError::IncompleteRequest(0)) => ConnectionStep {
            reply: None,
            keep_open: false,
        },
        ConnectionEvent::RequestFailed(RequestError::ConnectionError) => ConnectionStep {
            reply: None,
            keep_open: false,
        },
        ConnectionEvent::RequestFailed(error) => {
            let status = match error {
                RequestError::RequestBodyTooLarge => ErrorStatus::PayloadTooLarge,
                _ => ErrorStatus::BadRequest,
            };
            ConnectionStep { reply: Some(status), keep_open: true }
        },
        ConnectionEvent::RateLimited => ConnectionStep {
            reply: Some(ErrorStatus::TooManyRequests),
            keep_open: true,
        },
        ConnectionEvent::ForwardFailed => ConnectionStep {
            reply: Some(ErrorStatus::BadGateway),
            keep_open: false,
        },
        ConnectionEvent::ResponseFailed => ConnectionStep {
            reply: Some(ErrorStatus::BadGateway),
            keep_open: false,
        },
        ConnectionEvent::Responded => ConnectionStep { reply: None, keep_open: true },
    }
}

/// Counts the requests of each client in the current minute and holds them
/// against a limit. A client is known by the number of its address: the
/// counts are kept in a hash map, and of a hash map the count of a client
/// can be stated and proved where its keys are numbers.
pub struct RateLimiter {
    max_requests_per_minute: usize,
    counts: HashMap<u128, usize>,
}

impl RateLimiter {
    /// The most requests that a client may make in a minute; zero for no
    /// limit.
    pub closed spec fn limit(&self) -> usize {
        self.max_requests_per_minute
    }

    /// The requests counted in the current minute, by client.
    pub closed spec fn counts(&self) -> Map<u128, usize> {
        self.counts@
    }

    /// The requests counted for the client `ip` in the current minute.
    pub open spec fn count(&self, ip: u128) -> nat {
        if self.counts().contains_key(ip) {
            self.counts()[ip] as nat
        } else {
            0
        }
    }

    /// A limiter with the given limit and nothing counted.
    pub fn new(max_requests_per_minute: usize) -> (limiter: RateLimiter)
        ensures
            limiter.limit() == max_requests_per_minute,
            limiter.counts() == Map::<u128, usize>::empty(),
    {
        RateLimiter { max_requests_per_minute, counts: HashMap::new() }
    }

    /// Whether there is a limit at all.
    pub fn limits(&self) -> (limited: bool)
        ensures
            limited == (self.limit() > 0),
    {
        self.max_requests_per_minute > 0
    }

    /// Begins a new minute: nothing is counted any more.
    pub fn clear(&mut self)
        ensures
            final(self).limit() == old(self).limit(),
            final(self).counts() == Map::<u128, usize>::empty(),
    {
        self.counts.clear();
    }

    /// The requests counted for the client `client_ip`.
    pub fn requests(&self, client_ip: u128) -> (count: usize)
        ensures
            count == self.count(client_ip),
    {
        match self.counts.get(&client_ip) {
            Some(count) => *count,
            None => 0,
        }
    }
}

/// The count after one more request, which stops at the largest number.
pub open spec fn one_more(count: nat) -> nat {
    if count < usize::MAX {
        count + 1
    } else {
        count
    }
}

/// Counts one more request of the client `client_ip` and holds the count
/// against the limit, whatever the limit is: the request is over the
/// limit, and answered as such, exactly when the client has then made more
/// requests this minute than the limit allows. Every other count stays.
/// That a limit of zero stands for no limit is for the caller to see to,
/// before the call: see [`admit_request`].
pub fn rate_limit_check(limiter: &mut RateLimiter, client_ip: u128) -> (admitted: Result<
    (),
    ErrorStatus,
>)
    ensures
        final(limiter).limit() == old(limiter).limit(),
        final(limiter).counts() == old(limiter).counts().insert(
            client_ip,
            one_more(old(limiter).count(client_ip)) as usize,
        ),
        final(limiter).count(client_ip) == one_more(old(limiter).count(client_ip)),
        forall|other: u128|
            other != client_ip ==> final(limiter).count(other) == old(limiter).count(other),
        admitted == if one_more(old(limiter).count(client_ip)) > old(limiter).limit() {
            Err::<(), ErrorStatus>(ErrorStatus::TooManyRequests)
        } else {
            Ok::<(), ErrorStatus>(())
        },
{
    let seen = limiter.requests(client_ip);
    let count = if seen < usize::MAX {
        seen + 1
    } else {
        seen
    };
    limiter.counts.insert(client_ip, count);
    if count > limiter.max_requests_per_minute {
        Err(ErrorStatus::TooManyRequests)
    } else {
        Ok(())
    }
}

/// Takes a request of the client `client_ip` that has been read in full.
/// A limit of zero is no limit: the request may be passed on and nothing
/// is counted. Else the request is counted and held against the limit, and
/// the step that answers a request over the limit is returned, or `None`
/// for a request that may be passed on. A request over the limit is not
/// passed on; the client gets one answer that says so and the connection
/// stays open.
pub fn admit_request(limiter: &mut RateLimiter, client_ip: u128) -> (refused: Option<ConnectionStep>)
    ensures
        final(limiter).limit() == old(limiter).limit(),
        final(limiter).counts() == if old(limiter).limit() == 0 {
            old(limiter).counts()
        } else {
            old(limiter).counts().insert(
                client_ip,
                one_more(old(limiter).count(client_ip)) as usize,
            )
        },
        refused == if old(limiter).limit() == 0 || one_more(old(limiter).count(client_ip)) <= old(
            limiter,
        ).limit() {
            None::<ConnectionStep>
        } else {
            Some(
                ConnectionStep { reply: Some(ErrorStatus::TooManyRequests), keep_open: true },
            )
        },
{
    if !limiter.limits() {
        return None;
    }
    match rate_limit_check(limiter, client_ip) {
        Ok(()) => None,
        Err(_) => Some(handle_connection(ConnectionEvent::RateLimited)),
    }
}

/// Within a minute, a client under a limit is refused from the request
/// after the limit on: with `made` requests counted, the next is admitted
/// exactly when `made` is less than the limit.
pub proof fn law_limit(limit: usize, made: nat)
    requires
        limit > 0,
        made < usize::MAX,
    ensures
        one_more(made) <= limit <==> made < limit,
{
}

/// The upstream servers of the balancer and which of them count as alive.
/// The servers alive are kept as a hash set of their positions among the
/// addresses.
pub struct Upstreams {
    addresses: Vec<String>,
    living: HashSet<usize>,
}

/// The number of servers among `living` that are alive.
pub open spec fn living_count(living: Seq<bool>) -> nat
    decreases living.len(),
{
    if living.len() == 0 {
        0
    } else {
        living_count(living.drop_last()) + if living.last() {
            1nat
        } else {
            0nat
        }
    }
}

/// Whether `index` is the server that `rank` servers alive come before and
/// that is alive itself.
pub open spec fn living_at(living: Seq<bool>, rank: nat, index: int) -> bool {
    &&& 0 <= index < living.len()
    &&& living[index]
    &&& living_count(living.take(index)) == rank
}

proof fn lemma_living_count_bounds(living: Seq<bool>)
    ensures
        living_count(living) <= living.len(),
        living_count(living) > 0 <==> exists|i: int| 0 <= i < living.len() && living[i],
    decreases living.len(),
{
    if living.len() > 0 {
        let init = living.drop_last();
        lemma_living_count_bounds(init);
        if living_count(init) > 0 {
            let i = choose|i: int| 0 <= i < init.len() && init[i];
            assert(living[i]);
        }
        if living.last() {
            assert(living[living.len() - 1]);
        }
        if exists|i: int| 0 <= i < living.len() && living[i] {
            let i = choose|i: int| 0 <= i < living.len() && living[i];
            if i < init.len() {
                assert(init[i]);
            }
        }
    }
}

impl Upstreams {
    /// The addresses of the servers.
    pub closed spec fn addresses(&self) -> Seq<String> {
        self.addresses@
    }

    /// Which servers count as alive, in the order of the addresses.
    pub closed spec fn living(&self) -> Seq<bool> {
        Seq::new(self.addresses@.len(), |i: int| self.living@.contains(i as usize))
    }

    /// Whether each server is either alive or not.
    pub open spec fn well_formed(&self) -> bool {
        self.living().len() == self.addresses().len()
    }

    /// The servers at `addresses`, all alive.
    pub fn new(addresses: Vec<String>) -> (upstreams: Upstreams)
        ensures
            upstreams.well_formed(),
            upstreams.addresses() == addresses@,
            forall|i: int| 0 <= i < addresses@.len() ==> #[trigger] upstreams.living()[i],
    {
        let mut living: HashSet<usize> = HashSet::new();
        let mut i: usize = 0;
        while i < addresses.len()
            invariant
                i <= addresses@.len(),
                forall|k: usize| k < i ==> living@.contains(k),
            decreases addresses@.len() - i,
        {
            living.insert(i);
            i += 1;
        }
        Upstreams { addresses, living }
    }

    /// The number of servers.
    pub fn len(&self) -> (count: usize)
        requires
            self.well_formed(),
        ensures
            count == self.addresses().len(),
    {
        self.addresses.len()
    }

    /// The address of the server at `index`.
    pub fn address(&self, index: usize) -> (address: &String)
        requires
            index < self.addresses().len(),
        ensures
            *address == self.addresses()[index as int],
    {
        &self.addresses[index]
    }

    /// Whether the server at `index` counts as alive.
    pub fn is_living(&self, index: usize) -> (alive: bool)
        requires
            index < self.living().len(),
        ensures
            alive == self.living()[index as int],
    {
        self.living.contains(&index)
    }

    /// The number of servers that count as alive.
    pub fn count_living(&self) -> (count: usize)
        ensures
            count == living_count(self.living()),
    {
        let n = self.addresses.len();
        let mut count: usize = 0;
        let mut i: usize = 0;
        assert(self.living().take(0) =~= Seq::<bool>::empty());
        while i < n
            invariant
                n == self.living().len(),
                i <= n,
                count <= i,
                count == living_count(self.living().take(i as int)),
            decreases n - i,
        {
            assert(self.living().take(i + 1).drop_last() =~= self.living().take(i as int));
            if self.is_living(i) {
                count += 1;
            }
            i += 1;
        }
        assert(self.living().take(i as int) =~= self.living());
        count
    }

    /// The server alive that `rank` servers alive come before.
    pub fn nth_living(&self, rank: usize) -> (index: usize)
        requires
            rank < living_count(self.living()),
        ensures
            living_at(self.living(), rank as nat, index as int),
    {
        let count = self.addresses.len();
        let mut seen: usize = 0;
        let mut i: usize = 0;
        proof {
            assert(self.living().take(0) =~= Seq::<bool>::empty());
            if self.living().len() == 0 {
                assert(self.living() =~= Seq::<bool>::empty());
            }
        }
        while !(self.is_living(i) && seen == rank)
            invariant
                count == self.living().len(),
                i < count,
                seen <= rank,
                seen == living_count(self.living().take(i as int)),
                rank < living_count(self.living()),
            decreases count - i,
        {
            proof {
                assert(self.living().take(i + 1).drop_last() =~= self.living().take(i as int));
                if i + 1 == self.living().len() {
                    assert(self.living().take(i + 1) =~= self.living());
                }
            }
            if self.is_living(i) {
                seen += 1;
            }
            i += 1;
        }
        i
    }

    /// Notes whether the server at `index` counts as alive.
    fn set_living(&mut self, index: usize, alive: bool)
        requires
            index < old(self).living().len(),
        ensures
            final(self).addresses() == old(self).addresses(),
            final(self).living() == old(self).living().update(index as int, alive),
    {
        let n = self.addresses.len();
        if alive {
            self.living.insert(index);
        } else {
            self.living.remove(&index);
        }
        proof {
            let before = old(self).living();
            assert(self.living@ == if alive {
                old(self).living@.insert(index)
            } else {
                old(self).living@.remove(index)
            });
            assert forall|i: int| 0 <= i < n implies #[trigger] self.living()[i] == before.update(
                index as int,
                alive,
            )[i] by {
                assert(before[i] == old(self).living@.contains(i as usize));
                assert(self.living()[i] == self.living@.contains(i as usize));
            }
            assert(self.living() =~= before.update(index as int, alive));
        }
    }
}

/// What a health check does to a server: an answer that all is well makes
/// it alive, any other answer and no answer make it dead, and a check that
/// never reached the server leaves it as it was.
pub open spec fn after_probe(alive: bool, probe: HealthProbe) -> bool {
    match probe {
        HealthProbe::ConnectFailed => alive,
        HealthProbe::RequestFailed => alive,
        HealthProbe::NoResponse => false,
        HealthProbe::Responded(status) => status == STATUS_OK,
    }
}

/// Notes what a health check found out about the server at `index`.
pub fn active_health_check(upstreams: &mut Upstreams, index: usize, probe: HealthProbe)
    requires
        old(upstreams).well_formed(),
        index < old(upstreams).living().len(),
    ensures
        final(upstreams).well_formed(),
        final(upstreams).addresses() == old(upstreams).addresses(),
        final(upstreams).living() == old(upstreams).living().update(
            index as int,
            after_probe(old(upstreams).living()[index as int], probe),
        ),
{
    let alive = match probe {
        HealthProbe::ConnectFailed => upstreams.is_living(index),
        HealthProbe::RequestFailed => upstreams.is_living(index),
        HealthProbe::NoResponse => false,
        HealthProbe::Responded(status) => status == STATUS_OK,
    };
    upstreams.set_living(index, alive);
}

/// The servers alive once the one at `failed`, if any, is taken for dead.
pub open spec fn without(living: Seq<bool>, failed: Option<usize>) -> Seq<bool> {
    match failed {
        Some(index) => if index < living.len() {
            living.update(index as int, false)
        } else {
            living
        },
        None => living,
    }
}

/// Picks the upstream server to connect to next. A server that has just
/// refused the connection is passed as `failed` and counts as dead from now
/// on. The pick is made at random among the servers alive; there is none
/// exactly when no server is alive.
pub fn connect_to_upstream(upstreams: &mut Upstreams, failed: Option<usize>) -> (picked: Option<usize>)
    requires
        old(upstreams).well_formed(),
    ensures
        final(upstreams).well_formed(),
        final(upstreams).addresses() == old(upstreams).addresses(),
        final(upstreams).living() == without(old(upstreams).living(), failed),
        picked is None <==> living_count(final(upstreams).living()) == 0,
        picked matches Some(index) ==> index < final(upstreams).living().len()
            && final(upstreams).living()[index as int],
{
    match failed {
        Some(index) => {
            if index < upstreams.len() {
                upstreams.set_living(index, false);
            }
        },
        None => {},
    }
    let alive = upstreams.count_living();
    match choose_below(alive) {
        None => None,
        Some(rank) => Some(upstreams.nth_living(rank)),
    }
}

/// No server is picked exactly when none is alive.
pub proof fn law_some_server_alive(living: Seq<bool>)
    ensures
        living_count(living) > 0 <==> exists|i: int| 0 <= i < living.len() && living[i],
        living_count(living) <= living.len(),
{
    lemma_living_count_bounds(living);
}

} // verus!
