//! The client for a venue's request interface: weighted rate limiting, retries with back-off, and a
//! cache for spans that can no longer change.
//!
//! A fetch is a conversation. [`VenueRestClient::begin`] answers from the cache or opens a [`Fetch`].
//! Then, until one of them ends it, [`VenueRestClient::clear_to_send`] says whether to wait or to send, and
//! [`VenueRestClient::settle`] takes the reply and says when to try again.

use vstd::arithmetic::power2::pow2;
use vstd::prelude::*;

use crate::bytes::{from_twos_complement, signed_of};
use crate::text::{decimal_text, joined, push_number};
use crate::venue::cache::RestCache;
use crate::venue::clock::{clamped, later};
use crate::venue::ratelimit::{
    acquired, floored, fresh, Acquire, Budget, RateLimiter, DEFAULT_WEIGHT_BUDGET,
    DEFAULT_WINDOW_MS,
};
use crate::venue::request::VenueRequest;

verus! {

/// How often a request is sent before its last error is handed on, where nothing else is said.
pub const DEFAULT_MAX_ATTEMPTS: u32 = 8;

/// The first back-off after a passing failure, in milliseconds; it doubles with each attempt.
pub const DEFAULT_TRANSIENT_BACKOFF_MS: i64 = 500;

/// How often the back-off doubles at most.
pub const MAX_BACKOFF_DOUBLINGS: u32 = 16;

/// The wait after a rate-limit reply that names none, in milliseconds.
pub const DEFAULT_RETRY_AFTER_MS: u64 = 1_000;

/// The body of a response.
#[derive(Debug, PartialEq, Eq)]
pub struct RestResponse {
    /// The bytes.
    pub bytes: Vec<u8>,
}

impl Clone for RestResponse {
    fn clone(&self) -> (r: RestResponse)
        ensures
            r.bytes@ == self.bytes@,
    {
        let bytes = self.bytes.clone();
        assert(bytes@ =~= self.bytes@);
        RestResponse { bytes }
    }
}

/// Why a request failed.
#[derive(Debug)]
pub enum RestError {
    /// The venue limits the rate; try again after a wait.
    RateLimited {
        /// The wait in milliseconds.
        retry_after_ms: u64,
    },
    /// A passing failure; try again after a back-off.
    Transient(String),
    /// A failure that no retry mends.
    Fatal(String),
    /// Every attempt was spent.
    Exhausted {
        /// How many there were.
        attempts: u32,
        /// What the last of them said.
        last: String,
    },
}

/// A [`RestError`] with its texts as sequences.
pub enum Failure {
    /// See [`RestError::RateLimited`].
    RateLimited(u64),
    /// See [`RestError::Transient`].
    Transient(Seq<char>),
    /// See [`RestError::Fatal`].
    Fatal(Seq<char>),
    /// See [`RestError::Exhausted`].
    Exhausted(u32, Seq<char>),
}

impl View for RestError {
    type V = Failure;

    open spec fn view(&self) -> Failure {
        match self {
            RestError::RateLimited { retry_after_ms } => Failure::RateLimited(*retry_after_ms),
            RestError::Transient(text) => Failure::Transient(text@),
            RestError::Fatal(text) => Failure::Fatal(text@),
            RestError::Exhausted { attempts, last } => Failure::Exhausted(*attempts, last@),
        }
    }
}

/// What a fetch comes to: the bytes of the response, or why there are none.
pub open spec fn reply_of(r: Result<RestResponse, RestError>) -> Result<Seq<u8>, Failure> {
    match r {
        Ok(response) => Ok(response.bytes@),
        Err(e) => Err(e@),
    }
}

/// Sends requests. The only way to the network.
pub trait RestTransport {
    /// Sends `req` and returns the body of the response, or why there is none.
    fn send(&self, req: &VenueRequest) -> Result<RestResponse, RestError>;
}

/// What a status other than success says, with the wait the venue asked for in seconds where it
/// asked for one.
pub open spec fn status_failure(code: u16, retry_after_secs: Option<u64>) -> Failure {
    if code == 429 || code == 418 {
        match retry_after_secs {
            Some(secs) => Failure::RateLimited((secs * 1000) as u64),
            None => Failure::RateLimited(DEFAULT_RETRY_AFTER_MS),
        }
    } else if code >= 500 {
        Failure::Transient("http "@ + decimal_text(code as nat))
    } else {
        Failure::Fatal("http "@ + decimal_text(code as nat))
    }
}

/// Computes [`status_failure`].
pub fn status_error(code: u16, retry_after_secs: Option<u64>) -> (r: RestError)
    requires
        (code == 429 || code == 418) && retry_after_secs is Some ==> retry_after_secs->0 * 1000
            <= u64::MAX,
    ensures
        r@ == status_failure(code, retry_after_secs),
{
    if code == 429 || code == 418 {
        return RestError::RateLimited {
            retry_after_ms: match retry_after_secs {
                Some(secs) => secs * 1000,
                None => DEFAULT_RETRY_AFTER_MS,
            },
        };
    }
    let mut text: String = "http ".to_owned();
    push_number(&mut text, code as u64);
    if code >= 500 {
        RestError::Transient(text)
    } else {
        RestError::Fatal(text)
    }
}

/// The back-off after `attempt` attempts, the last of which failed in passing.
pub open spec fn backoff_ms(attempt: int) -> int {
    DEFAULT_TRANSIENT_BACKOFF_MS * pow2(
        if attempt - 1 < MAX_BACKOFF_DOUBLINGS {
            (attempt - 1) as nat
        } else {
            MAX_BACKOFF_DOUBLINGS as nat
        },
    )
}

/// Computes [`backoff_ms`].
fn backoff(attempt: u32) -> (r: i64)
    requires
        attempt >= 1,
    ensures
        r == backoff_ms(attempt as int),
{
    let doublings: u32 = if attempt - 1 < MAX_BACKOFF_DOUBLINGS {
        attempt - 1
    } else {
        MAX_BACKOFF_DOUBLINGS
    };
    let mut wait: i64 = DEFAULT_TRANSIENT_BACKOFF_MS;
    let mut i: u32 = 0;
    proof {
        vstd::arithmetic::power2::lemma2_to64();
    }
    while i < doublings
        invariant
            i <= doublings <= MAX_BACKOFF_DOUBLINGS,
            wait == DEFAULT_TRANSIENT_BACKOFF_MS * pow2(i as nat),
            pow2(16) == 65536,
        decreases doublings - i,
    {
        proof {
            vstd::arithmetic::power2::lemma_pow2_unfold((i + 1) as nat);
            if i < 15 {
                vstd::arithmetic::power2::lemma_pow2_strictly_increases((i + 1) as nat, 16);
            }
        }
        wait = wait * 2;
        i = i + 1;
    }
    wait
}

/// The rate limiter, the cache and the attempt budget that requests share.
pub struct VenueRestClient {
    limiter: RateLimiter,
    cache: RestCache,
    max_attempts: u32,
}

/// The state of a client.
pub struct ClientModel {
    /// The rate limiter.
    pub limiter: Budget,
    /// The cached responses.
    pub cache: Map<Seq<char>, Seq<u8>>,
    /// How often a request is sent at most.
    pub max_attempts: u32,
}

impl View for VenueRestClient {
    type V = ClientModel;

    closed spec fn view(&self) -> ClientModel {
        ClientModel {
            limiter: self.limiter@,
            cache: self.cache@,
            max_attempts: self.max_attempts,
        }
    }
}

/// A request under way.
pub struct Fetch {
    cacheable: bool,
    attempt: u32,
    last: String,
}

/// The state of a request under way.
pub struct FetchModel {
    /// Whether the span was closed when the fetch began, so that the response may be cached.
    pub cacheable: bool,
    /// How often the request has been sent.
    pub attempt: u32,
    /// What the last failure said; empty before the first.
    pub last: Seq<char>,
}

impl View for Fetch {
    type V = FetchModel;

    closed spec fn view(&self) -> FetchModel {
        FetchModel { cacheable: self.cacheable, attempt: self.attempt, last: self.last@ }
    }
}

/// How a fetch begins.
pub enum Start {
    /// The response was in the cache.
    Served(RestResponse),
    /// The request has to be sent.
    Pending(Fetch),
}

/// Whether a request may be sent now.
pub enum Admission {
    /// The weight is charged and the attempt counted: send.
    Send,
    /// Ask again at this instant.
    WaitUntil(i64),
    /// The fetch has failed.
    Failed(RestError),
}

/// Where a fetch stands after a reply.
pub enum Settlement {
    /// The fetch has ended.
    Done(Result<RestResponse, RestError>),
    /// Wait until this instant, then ask to be admitted again.
    RetryAt(i64),
}

/// What [`VenueRestClient::begin`] comes to: the cached bytes, or the request under way.
pub open spec fn begun(c: ClientModel, key: Seq<char>, closed: bool) -> Result<Seq<u8>, FetchModel> {
    if closed && c.cache.contains_key(key) {
        Ok(c.cache[key])
    } else {
        Err(FetchModel { cacheable: closed, attempt: 0, last: Seq::empty() })
    }
}

/// What an [`Admission`] says, with the texts of a failure as sequences.
pub enum AdmissionModel {
    /// See [`Admission::Send`].
    Send,
    /// See [`Admission::WaitUntil`].
    WaitUntil(i64),
    /// See [`Admission::Failed`].
    Failed(Failure),
}

impl View for Admission {
    type V = AdmissionModel;

    open spec fn view(&self) -> AdmissionModel {
        match self {
            Admission::Send => AdmissionModel::Send,
            Admission::WaitUntil(at) => AdmissionModel::WaitUntil(*at),
            Admission::Failed(e) => AdmissionModel::Failed(e@),
        }
    }
}

/// What the refusal of a request that weighs more than any window grants says.
pub open spec fn overweight_text(weight: u32, budget: int) -> Seq<char> {
    "request weight "@ + decimal_text(weight as nat) + " exceeds the window budget "@
        + decimal_text(budget as nat)
}

/// What [`VenueRestClient::clear_to_send`] comes to.
pub open spec fn admitted(c: ClientModel, f: FetchModel, weight: u32, now: int) -> (
    ClientModel,
    FetchModel,
    AdmissionModel,
) {
    if f.attempt >= c.max_attempts {
        (c, f, AdmissionModel::Failed(Failure::Exhausted(c.max_attempts, f.last)))
    } else if weight > c.limiter.budget {
        (
            c,
            f,
            AdmissionModel::Failed(Failure::Fatal(overweight_text(weight, c.limiter.budget))),
        )
    } else {
        let (limiter, verdict) = acquired(c.limiter, weight as int, now);
        let next = ClientModel { limiter, ..c };
        match verdict {
            Acquire::Ready => (
                next,
                FetchModel { attempt: (f.attempt + 1) as u32, ..f },
                AdmissionModel::Send,
            ),
            Acquire::WaitUntil(at) => (next, f, AdmissionModel::WaitUntil(at)),
        }
    }
}

/// What a [`Settlement`] says, with bytes and texts as sequences.
pub enum SettlementModel {
    /// See [`Settlement::Done`].
    Done(Result<Seq<u8>, Failure>),
    /// See [`Settlement::RetryAt`].
    RetryAt(int),
}

impl View for Settlement {
    type V = SettlementModel;

    open spec fn view(&self) -> SettlementModel {
        match self {
            Settlement::Done(r) => SettlementModel::Done(reply_of(*r)),
            Settlement::RetryAt(at) => SettlementModel::RetryAt(*at as int),
        }
    }
}

/// When to try again after a rate-limit reply at `now`.
pub open spec fn retry_instant(now: int, retry_after_ms: u64) -> int {
    clamped(now + signed_of(retry_after_ms as int))
}

/// What [`VenueRestClient::settle`] comes to.
pub open spec fn settled(
    c: ClientModel,
    f: FetchModel,
    key: Seq<char>,
    now: int,
    reply: Result<Seq<u8>, Failure>,
) -> (ClientModel, FetchModel, SettlementModel) {
    match reply {
        Ok(bytes) => (
            if f.cacheable {
                ClientModel { cache: c.cache.insert(key, bytes), ..c }
            } else {
                c
            },
            f,
            SettlementModel::Done(reply),
        ),
        Err(Failure::RateLimited(ms)) => (
            ClientModel { limiter: floored(c.limiter, retry_instant(now, ms)), ..c },
            FetchModel {
                last: "rate limited ("@ + decimal_text(ms as nat) + "ms)"@,
                ..f
            },
            SettlementModel::RetryAt(retry_instant(now, ms)),
        ),
        Err(Failure::Transient(text)) => (
            c,
            FetchModel { last: "transient: "@ + text, ..f },
            SettlementModel::RetryAt(clamped(now + backoff_ms(f.attempt as int))),
        ),
        Err(_) => (c, f, SettlementModel::Done(reply)),
    }
}

impl VenueRestClient {
    /// A client with the default rate limiter and attempt budget, and an empty cache.
    pub fn new() -> (r: VenueRestClient)
        ensures
            r@.limiter == fresh(DEFAULT_WEIGHT_BUDGET as int, DEFAULT_WINDOW_MS as int),
            r@.cache == Map::<Seq<char>, Seq<u8>>::empty(),
            r@.max_attempts == DEFAULT_MAX_ATTEMPTS,
    {
        VenueRestClient {
            limiter: RateLimiter::with_defaults(),
            cache: RestCache::new(),
            max_attempts: DEFAULT_MAX_ATTEMPTS,
        }
    }

    /// This client with another rate limiter.
    pub fn with_limiter(self, limiter: RateLimiter) -> (r: VenueRestClient)
        ensures
            r@ == (ClientModel { limiter: limiter@, ..self@ }),
    {
        VenueRestClient { limiter, cache: self.cache, max_attempts: self.max_attempts }
    }

    /// This client with another attempt budget.
    pub fn with_max_attempts(self, max_attempts: u32) -> (r: VenueRestClient)
        ensures
            r@ == (ClientModel { max_attempts, ..self@ }),
    {
        VenueRestClient { limiter: self.limiter, cache: self.cache, max_attempts }
    }

    /// The cache.
    pub fn cache(&self) -> (r: &RestCache)
        ensures
            r@ == self@.cache,
    {
        &self.cache
    }

    /// Begins a fetch at `now_ms`: answers from the cache where the span is closed and the response
    /// is there, and opens a request where not.
    pub fn begin(&self, req: &VenueRequest, now_ms: i64) -> (r: Start)
        ensures
            match begun(self@, req.key(), req.window.end_ms() <= now_ms) {
                Ok(bytes) => r matches Start::Served(response) && response.bytes@ == bytes,
                Err(fetch) => r matches Start::Pending(f) && f@ == fetch,
            },
    {
        let cacheable: bool = req.is_closed_window(now_ms);
        if cacheable {
            if let Some(bytes) = self.cache.get(req.cache_key().as_str()) {
                return Start::Served(RestResponse { bytes });
            }
        }
        Start::Pending(Fetch { cacheable, attempt: 0, last: String::new() })
    }

    /// Asks at `now_ms` to send a request of `weight`: charges the weight and counts the attempt
    /// where it fits, says when to ask again where not, and ends the fetch where its attempts are
    /// spent or where the weight fits in no window.
    pub fn clear_to_send(&mut self, fetch: &mut Fetch, weight: u32, now_ms: i64) -> (r: Admission)
        ensures
            (final(self)@, final(fetch)@, r@) == admitted(
                old(self)@,
                old(fetch)@,
                weight,
                now_ms as int,
            ),
    {
        if fetch.attempt >= self.max_attempts {
            let last: String = fetch.last.clone();
            return Admission::Failed(
                RestError::Exhausted { attempts: self.max_attempts, last },
            );
        }
        if weight > self.limiter.budget() {
            let mut text: String = "request weight ".to_owned();
            push_number(&mut text, weight as u64);
            text.append(" exceeds the window budget ");
            push_number(&mut text, self.limiter.budget() as u64);
            return Admission::Failed(RestError::Fatal(text));
        }
        match self.limiter.acquire(weight, now_ms) {
            Acquire::Ready => {
                fetch.attempt = fetch.attempt + 1;
                Admission::Send
            },
            Acquire::WaitUntil(at) => Admission::WaitUntil(at),
        }
    }

    /// Takes the reply to an admitted request at `now_ms`: caches a response to a closed span, and
    /// says whether the fetch has ended or when to try again.
    pub fn settle(
        &mut self,
        fetch: &mut Fetch,
        req: &VenueRequest,
        now_ms: i64,
        reply: Result<RestResponse, RestError>,
    ) -> (r: Settlement)
        requires
            old(fetch)@.attempt >= 1,
        ensures
            (final(self)@, final(fetch)@, r@) == settled(
                old(self)@,
                old(fetch)@,
                req.key(),
                now_ms as int,
                reply_of(reply),
            ),
    {
        match reply {
            Ok(response) => {
                if fetch.cacheable {
                    let copy: RestResponse = response.clone();
                    self.cache.put(req.cache_key(), copy.bytes);
                }
                Settlement::Done(Ok(response))
            },
            Err(RestError::RateLimited { retry_after_ms }) => {
                let deadline: i64 = later(now_ms, from_twos_complement(retry_after_ms));
                self.limiter.note_retry_after(deadline);
                let mut text: String = "rate limited (".to_owned();
                push_number(&mut text, retry_after_ms);
                text.append("ms)");
                fetch.last = text;
                Settlement::RetryAt(deadline)
            },
            Err(RestError::Transient(text)) => {
                let deadline: i64 = later(now_ms, backoff(fetch.attempt));
                fetch.last = joined("transient: ", text.as_str());
                Settlement::RetryAt(deadline)
            },
            Err(RestError::Fatal(text)) => Settlement::Done(Err(RestError::Fatal(text))),
            Err(RestError::Exhausted { attempts, last }) => Settlement::Done(
                Err(RestError::Exhausted { attempts, last }),
            ),
        }
    }
}

impl Default for VenueRestClient {
    fn default() -> (r: VenueRestClient)
        ensures
            r@.limiter == fresh(DEFAULT_WEIGHT_BUDGET as int, DEFAULT_WINDOW_MS as int),
            r@.cache == Map::<Seq<char>, Seq<u8>>::empty(),
            r@.max_attempts == DEFAULT_MAX_ATTEMPTS,
    {
        VenueRestClient::new()
    }
}

/// A response to a closed span is served from the cache from then on, without being sent again.
pub proof fn law_closed_span_is_served_from_the_cache(
    c: ClientModel,
    f: FetchModel,
    key: Seq<char>,
    now: int,
    bytes: Seq<u8>,
)
    requires
        f.cacheable,
    ensures
        begun(settled(c, f, key, now, Ok(bytes)).0, key, true) == Ok::<Seq<u8>, FetchModel>(bytes),
{
}

/// A span that is still open is neither cached nor served from the cache.
pub proof fn law_open_span_is_never_cached(
    c: ClientModel,
    f: FetchModel,
    key: Seq<char>,
    now: int,
    reply: Result<Seq<u8>, Failure>,
)
    requires
        !f.cacheable,
    ensures
        settled(c, f, key, now, reply).0.cache == c.cache,
        begun(c, key, false) is Err,
        begun(c, key, false)->Err_0.cacheable == false,
{
}

/// A fetch ends only in the reply it is to hand on, in a failure that no retry mends, or when its
/// attempts are spent: no request is dropped.
pub proof fn law_no_request_is_dropped(
    c: ClientModel,
    f: FetchModel,
    key: Seq<char>,
    weight: u32,
    now: int,
    reply: Result<Seq<u8>, Failure>,
)
    ensures
        admitted(c, f, weight, now).2 is Failed ==> f.attempt >= c.max_attempts || weight
            > c.limiter.budget,
        settled(c, f, key, now, reply).2 is Done ==> settled(c, f, key, now, reply).2->Done_0 == reply
            && !(reply matches Err(Failure::RateLimited(_))) && !(reply matches Err(
            Failure::Transient(_),
        )),
{
}

/// A request is sent at most as often as the client allows: each admission counts one attempt, and
/// nothing else counts any.
pub proof fn law_attempts_are_bounded(
    c: ClientModel,
    f: FetchModel,
    key: Seq<char>,
    weight: u32,
    now: int,
    reply: Result<Seq<u8>, Failure>,
)
    ensures
        admitted(c, f, weight, now).2 == AdmissionModel::Send ==> f.attempt < c.max_attempts
            && admitted(c, f, weight, now).1.attempt == f.attempt + 1,
        admitted(c, f, weight, now).2 != AdmissionModel::Send ==> admitted(c, f, weight, now).1 == f,
        settled(c, f, key, now, reply).1.attempt == f.attempt,
        admitted(c, f, weight, now).0.max_attempts == c.max_attempts,
        settled(c, f, key, now, reply).0.max_attempts == c.max_attempts,
{
}

/// One turn of a fetch: when the client was asked, and the reply that came where it said to send.
pub struct Turn {
    /// When the client was asked to admit the request.
    pub asked_at: int,
    /// When the reply came.
    pub replied_at: int,
    /// What the transport replied.
    pub reply: Result<Seq<u8>, Failure>,
}

/// The client and the fetch after some turns, and how often the request was sent in them.
pub open spec fn after_turns(
    c: ClientModel,
    f: FetchModel,
    key: Seq<char>,
    weight: u32,
    turns: Seq<Turn>,
) -> (ClientModel, FetchModel, int)
    decreases turns.len(),
{
    if turns.len() == 0 {
        (c, f, 0)
    } else {
        let (c1, f1, sent) = after_turns(c, f, key, weight, turns.drop_last());
        let (c2, f2, verdict) = admitted(c1, f1, weight, turns.last().asked_at);
        if verdict == AdmissionModel::Send {
            let (c3, f3, _) = settled(c2, f2, key, turns.last().replied_at, turns.last().reply);
            (c3, f3, sent + 1)
        } else {
            (c2, f2, sent)
        }
    }
}

/// However the venue replies and whenever the client is asked, a request is sent at most as often as
/// the client allows; once it was, the fetch ends, and says what the last failure said.
pub proof fn law_a_fetch_ends_when_its_attempts_are_spent(
    c: ClientModel,
    f: FetchModel,
    key: Seq<char>,
    weight: u32,
    turns: Seq<Turn>,
    now: int,
)
    requires
        f.attempt == 0,
    ensures
        ({
            let (after, fetch, sent) = after_turns(c, f, key, weight, turns);
            &&& sent == fetch.attempt <= c.max_attempts
            &&& after.max_attempts == c.max_attempts
            &&& sent == c.max_attempts ==> admitted(after, fetch, weight, now).2
                == AdmissionModel::Failed(Failure::Exhausted(c.max_attempts, fetch.last))
        }),
    decreases turns.len(),
{
    if turns.len() > 0 {
        law_a_fetch_ends_when_its_attempts_are_spent(c, f, key, weight, turns.drop_last(), now);
    }
}

/// After a rate-limit reply nothing is admitted before the instant the fetch is told to wait for.
pub proof fn law_rate_limit_reply_holds_back_every_request(
    c: ClientModel,
    f: FetchModel,
    g: FetchModel,
    key: Seq<char>,
    weight: u32,
    now: int,
    retry_after_ms: u64,
    at: int,
)
    requires
        crate::venue::ratelimit::is_budget(c.limiter),
        g.attempt < c.max_attempts,
        weight <= c.limiter.budget,
        at < retry_instant(now, retry_after_ms),
    ensures
        ({
            let after = settled(c, f, key, now, Err(Failure::RateLimited(retry_after_ms)));
            &&& after.2 == SettlementModel::RetryAt(retry_instant(now, retry_after_ms))
            &&& admitted(after.0, g, weight, at).2 is WaitUntil
        }),
{
}

/// What a status says: 429 and 418 that the venue limits, for the seconds it asked for or one second; 500
/// and above that the failure passes; any other that it does not.
pub proof fn law_status_tells_the_failure(code: u16, retry_after_secs: Option<u64>)
    requires
        retry_after_secs matches Some(secs) ==> secs * 1000 <= u64::MAX,
    ensures
        status_failure(code, retry_after_secs) is RateLimited <==> code == 429 || code == 418,
        status_failure(code, retry_after_secs) is Transient <==> code >= 500,
        status_failure(code, retry_after_secs) is Fatal <==> code < 500 && code != 429 && code != 418,
        status_failure(code, retry_after_secs) matches Failure::RateLimited(ms) ==> ms == (
        match retry_after_secs {
            Some(secs) => secs * 1000,
            None => 1_000,
        }),
{
}

/// The back-off starts at half a second and doubles with every attempt, sixteen times at most.
pub proof fn law_backoff_doubles(attempt: int)
    requires
        attempt >= 1,
    ensures
        backoff_ms(1) == 500,
        attempt <= 16 ==> backoff_ms(attempt + 1) == 2 * backoff_ms(attempt),
        attempt > 16 ==> backoff_ms(attempt + 1) == backoff_ms(attempt),
        500 <= backoff_ms(attempt) <= 32_768_000,
    decreases attempt,
{
    vstd::arithmetic::power2::lemma2_to64();
    if 1 <= attempt <= 16 {
        vstd::arithmetic::power2::lemma_pow2_unfold(attempt as nat);
    }
    if attempt > 1 {
        law_backoff_doubles(attempt - 1);
    }
    if attempt <= 16 {
        let k = (attempt - 1) as nat;
        vstd::arithmetic::power2::lemma_pow2_pos(k);
        vstd::arithmetic::power2::lemma_pow2_strictly_increases(k, 16);
    }
}

/// A reply ends a fetch, or says when to go on: a limit after the wait that the venue asked for, and the
/// limiter is told; a passing failure after the back-off, and the limiter is not. Only a success that may
/// be kept is kept, under its own key.
pub proof fn law_replies_are_settled(
    c: ClientModel,
    f: FetchModel,
    key: Seq<char>,
    other: Seq<char>,
    now: int,
    reply: Result<Seq<u8>, Failure>,
)
    requires
        i64::MIN <= now <= 0x1000_0000_0000_0000,
    ensures
        ({
            let (after, fetch, verdict) = settled(c, f, key, now, reply);
            &&& reply matches Err(Failure::RateLimited(ms)) ==> (ms <= 0x1000_0000_0000_0000
                ==> verdict == SettlementModel::RetryAt(now + ms)
                && after.limiter.next_allowed_ms >= now + ms)
            &&& reply matches Err(Failure::Transient(_)) ==> (f.attempt >= 1 ==> verdict
                == SettlementModel::RetryAt(now + backoff_ms(f.attempt as int)))
            &&& !(reply matches Err(Failure::RateLimited(_))) ==> after.limiter == c.limiter
            &&& reply matches Ok(bytes) ==> (f.cacheable ==> after.cache == c.cache.insert(
                key,
                bytes,
            ))
            &&& reply is Err ==> after.cache == c.cache
            &&& fetch.cacheable == f.cacheable
        }),
{
    if f.attempt >= 1 {
        law_backoff_doubles(f.attempt as int);
    }
}

/// A request goes out exactly if attempts are left, any window could grant its weight, and the limiter
/// grants it now.
pub proof fn law_admission_needs_attempts_and_weight(
    c: ClientModel,
    f: FetchModel,
    weight: u32,
    now: int,
)
    ensures
        ({
            let (after, _, verdict) = admitted(c, f, weight, now);
            &&& verdict is Send <==> f.attempt < c.max_attempts && weight <= c.limiter.budget
                && acquired(c.limiter, weight as int, now).1 == Acquire::Ready
            &&& verdict matches AdmissionModel::WaitUntil(at) ==> acquired(
                c.limiter,
                weight as int,
                now,
            ).1 == Acquire::WaitUntil(at)
            &&& f.attempt >= c.max_attempts ==> verdict == AdmissionModel::Failed(
                Failure::Exhausted(c.max_attempts, f.last),
            )
            &&& f.attempt < c.max_attempts && weight > c.limiter.budget ==> (verdict matches
                AdmissionModel::Failed(e) && e is Fatal)
            &&& after.cache == c.cache
        }),
{
}

/// A span is served from the cache exactly if it is closed and its key was put there; a fetch starts without
/// an attempt made.
pub proof fn law_a_fetch_begins_without_an_answer(c: ClientModel, key: Seq<char>, closed: bool)
    ensures
        begun(c, key, closed) is Ok <==> closed && c.cache.contains_key(key),
        begun(c, key, closed) matches Ok(bytes) ==> bytes == c.cache[key],
        begun(c, key, closed) matches Err(f) ==> f.cacheable == closed && f.attempt == 0
            && f.last.len() == 0,
{
}

} // verus!
