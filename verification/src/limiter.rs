//! The RPC rate limit: a token bucket per client. Each client may send a
//! burst of `rate` requests and earns `rate` more each second; a bucket left
//! untouched for ten minutes is forgotten, and at most
//! `MAX_CLIENT_BUCKETS` buckets are kept, the least recently used giving
//! way to a new client.
use std::time::Instant;
use vstd::prelude::*;

verus! {

#[verifier::external_type_specification]
#[verifier::external_body]
pub struct ExInstant(Instant);

/// Trusted: `Instant::now` reads the monotonic clock; nothing is promised
/// of the instant it returns.
#[verifier::external_body]
fn instant_now() -> Instant {
    Instant::now()
}

/// Trusted: `Instant::elapsed`, in whole milliseconds (`Duration::as_millis`);
/// it depends on the clock, so nothing is promised of the number.
#[verifier::external_body]
fn elapsed_millis(since: &Instant) -> u128 {
    since.elapsed().as_millis()
}

/// Milliseconds after which an untouched bucket is forgotten.
pub const IDLE_MS: u64 = 600_000;

/// The most client buckets kept at once.
pub const MAX_CLIENT_BUCKETS: usize = 10_000;

/// One token, in the thousandths of a token that buckets count in.
pub const TOKEN: u128 = 1000;

/// One client's bucket: the client, its tokens in thousandths, and the
/// millisecond at which it was last used.
#[derive(Clone, Copy, Debug)]
pub struct Bucket {
    pub client: u128,
    pub tokens: u128,
    pub last_ms: u64,
}

/// A limiter: the refill rate and burst, in requests per second, and the
/// buckets, least recently used first.
pub struct RateLimiter {
    rate: u64,
    started: Instant,
    buckets: Vec<Bucket>,
}

/// The mathematical form of a rate limiter; the clock it reads is left out.
pub struct RateLimiterV {
    pub rate: u64,
    pub buckets: Seq<Bucket>,
}

impl View for RateLimiter {
    type V = RateLimiterV;

    closed spec fn view(&self) -> RateLimiterV {
        RateLimiterV { rate: self.rate, buckets: self.buckets@ }
    }
}

/// A full bucket, in thousandths of a token.
pub open spec fn capacity(rate: u64) -> int {
    rate * 1000
}

/// A limiter with a positive rate, no more buckets than the bound, and no
/// bucket above its capacity.
pub open spec fn limiter_wf(l: RateLimiterV) -> bool {
    &&& l.rate > 0
    &&& l.buckets.len() <= MAX_CLIENT_BUCKETS
    &&& forall|i: int| 0 <= i < l.buckets.len() ==> (#[trigger] l.buckets[i]).tokens <= capacity(l.rate)
}

/// Whether a bucket has been left untouched for ten minutes at `now`.
pub open spec fn idle(b: Bucket, now: u64) -> bool {
    now >= b.last_ms + IDLE_MS
}

/// The buckets still in use at `now`, in their order.
pub open spec fn live(bs: Seq<Bucket>, now: u64) -> Seq<Bucket>
    decreases bs.len(),
{
    if bs.len() == 0 {
        seq![]
    } else if idle(bs.last(), now) {
        live(bs.drop_last(), now)
    } else {
        live(bs.drop_last(), now).push(bs.last())
    }
}

/// Whether `i` is the first bucket of the client.
pub open spec fn first_of(bs: Seq<Bucket>, client: u128, i: int) -> bool {
    &&& 0 <= i < bs.len()
    &&& bs[i].client == client
    &&& forall|k: int| 0 <= k < i ==> (#[trigger] bs[k]).client != client
}

/// Whether the client has a bucket.
pub open spec fn has_bucket(bs: Seq<Bucket>, client: u128) -> bool {
    exists|i: int| first_of(bs, client, i)
}

/// A bucket's tokens at `now`: what it held, plus `rate` tokens a second
/// since it was last used, up to a full bucket.
pub open spec fn refilled(b: Bucket, rate: u64, now: u64) -> int {
    let gained = if now <= b.last_ms {
        0
    } else {
        rate * (now - b.last_ms)
    };
    if b.tokens + gained > capacity(rate) {
        capacity(rate)
    } else {
        b.tokens + gained
    }
}

/// Milliseconds until a bucket holding `tokens` thousandths has a whole token.
pub open spec fn retry_ms(tokens: int, rate: u64) -> int {
    (TOKEN - tokens + rate - 1) / (rate as int)
}

/// A request from `client` at millisecond `now`. Idle buckets are dropped.
/// The client's bucket, or a full new one, is refilled and moved to the
/// end; a new client takes the place of the least recently used bucket
/// when the bound is reached. A bucket with a whole token pays it and the
/// request passes; otherwise the request is refused with the milliseconds
/// until the next token.
pub open spec fn limit_step(l: RateLimiterV, client: u128, now: u64) -> (RateLimiterV, Result<(), u64>) {
    let bs = live(l.buckets, now);
    let found = has_bucket(bs, client);
    let i = choose|i: int| first_of(bs, client, i);
    let base = if found {
        bs.remove(i)
    } else if bs.len() >= MAX_CLIENT_BUCKETS {
        bs.remove(0)
    } else {
        bs
    };
    let b = if found {
        bs[i]
    } else {
        Bucket { client, tokens: capacity(l.rate) as u128, last_ms: now }
    };
    let t = refilled(b, l.rate, now);
    if t >= TOKEN {
        (
            RateLimiterV {
                buckets: base.push(Bucket { client, tokens: (t - TOKEN) as u128, last_ms: now }),
                ..l
            },
            Ok(()),
        )
    } else {
        (
            RateLimiterV { buckets: base.push(Bucket { client, tokens: t as u128, last_ms: now }), ..l },
            Err(retry_ms(t, l.rate) as u64),
        )
    }
}

proof fn lemma_live_keeps(bs: Seq<Bucket>, now: u64)
    ensures
        live(bs, now).len() <= bs.len(),
        forall|j: int| 0 <= j < live(bs, now).len() ==> exists|k: int| 0 <= k < bs.len() && #[trigger] live(bs, now)[j] == bs[k],
    decreases bs.len(),
{
    if bs.len() > 0 {
        lemma_live_keeps(bs.drop_last(), now);
        let r = live(bs.drop_last(), now);
        assert forall|j: int| 0 <= j < live(bs, now).len() implies exists|k: int|
            0 <= k < bs.len() && #[trigger] live(bs, now)[j] == bs[k] by {
            if j < r.len() {
                let k = choose|k: int| 0 <= k < bs.drop_last().len() && r[j] == bs.drop_last()[k];
                assert(live(bs, now)[j] == bs[k]);
            } else {
                assert(live(bs, now)[j] == bs[bs.len() - 1]);
            }
        }
    }
}

/// The limiter's invariant is kept by every request.
proof fn lemma_step_wf(l: RateLimiterV, client: u128, now: u64)
    requires
        limiter_wf(l),
    ensures
        limiter_wf(limit_step(l, client, now).0),
{
    let bs = live(l.buckets, now);
    lemma_live_keeps(l.buckets, now);
    assert forall|j: int| 0 <= j < bs.len() implies (#[trigger] bs[j]).tokens <= capacity(l.rate) by {
        let k = choose|k: int| 0 <= k < l.buckets.len() && bs[j] == l.buckets[k];
        assert(l.buckets[k].tokens <= capacity(l.rate));
    }
    if has_bucket(bs, client) {
        let i = choose|i: int| first_of(bs, client, i);
        assert(bs[i].tokens <= capacity(l.rate));
    }
    assert(capacity(l.rate) >= 1000) by (nonlinear_arith)
        requires
            l.rate > 0,
    ;
}

/// A request from a client with no bucket in use passes, whatever the other
/// clients have sent: the client gets a full bucket and pays one token.
pub proof fn lemma_fresh_client_admitted(l: RateLimiterV, client: u128, now: u64)
    requires
        limiter_wf(l),
        !has_bucket(live(l.buckets, now), client),
    ensures
        limit_step(l, client, now).1 is Ok,
        limit_step(l, client, now).0.buckets.last() == (Bucket {
            client,
            tokens: (capacity(l.rate) - TOKEN) as u128,
            last_ms: now,
        }),
{
    assert(capacity(l.rate) >= 1000) by (nonlinear_arith)
        requires
            l.rate > 0,
    ;
}

/// The thousandths of a token a bucket holds at `now`.
fn refill(b: &Bucket, rate: u64, now: u64) -> (t: u128)
    requires
        rate > 0,
        b.tokens <= capacity(rate),
    ensures
        t == refilled(*b, rate, now),
{
    let cap: u128 = rate as u128 * 1000;
    if now <= b.last_ms {
        return if b.tokens > cap {
            cap
        } else {
            b.tokens
        };
    }
    let elapsed: u64 = now - b.last_ms;
    if elapsed >= 1000 {
        assert(rate * elapsed >= rate * 1000) by (nonlinear_arith)
            requires
                elapsed >= 1000,
                rate > 0,
        ;
        cap
    } else {
        assert(rate * elapsed < rate * 1000 && rate * 1000 <= 1000 * 0xffff_ffff_ffff_ffffu128) by (nonlinear_arith)
            requires
                elapsed < 1000,
                rate > 0,
                rate <= 0xffff_ffff_ffff_ffffu64,
        ;
        let gained: u128 = rate as u128 * elapsed as u128;
        if b.tokens + gained > cap {
            cap
        } else {
            b.tokens + gained
        }
    }
}

/// Milliseconds until a bucket holding `t` thousandths has a whole token.
fn retry_after(t: u128, rate: u64) -> (r: u64)
    requires
        rate > 0,
        t < TOKEN,
    ensures
        r == retry_ms(t as int, rate),
{
    let x: u128 = TOKEN - t + rate as u128 - 1;
    assert(x / (rate as u128) <= 1000) by (nonlinear_arith)
        requires
            x <= rate + 999,
            rate > 0,
    ;
    (x / (rate as u128)) as u64
}

/// The client behind a request. The peer is the client unless it is a
/// trusted proxy; then the forwarding hops are walked from the right, each
/// hop standing for the client while the one before it was trusted. A hop
/// that is not an address ends the walk at the proxy that sent it.
pub open spec fn client_of(peer: u128, hops: Seq<Option<u128>>, trusted: Seq<u128>) -> u128
    decreases hops.len(),
{
    if !trusted.contains(peer) || hops.len() == 0 {
        peer
    } else {
        match hops.last() {
            Some(h) => client_of(h, hops.drop_last(), trusted),
            None => peer,
        }
    }
}

/// Whether an address is one of the trusted proxies.
fn is_trusted(trusted: &Vec<u128>, x: u128) -> (r: bool)
    ensures
        r == trusted@.contains(x),
{
    let mut i: usize = 0;
    while i < trusted.len()
        invariant
            i <= trusted.len(),
            forall|k: int| 0 <= k < i ==> trusted@[k] != x,
        decreases trusted.len() - i,
    {
        if trusted[i] == x {
            assert(trusted@[i as int] == x);
            return true;
        }
        i = i + 1;
    }
    false
}

/// The client behind a request from `peer` that carried the forwarding
/// hops `hops`, leftmost first, given the trusted proxies.
pub fn client_identity(peer: u128, hops: &Vec<Option<u128>>, trusted: &Vec<u128>) -> (r: u128)
    ensures
        r == client_of(peer, hops@, trusted@),
{
    let mut client = peer;
    let mut k = hops.len();
    proof {
        assert(hops@.take(k as int) =~= hops@);
    }
    while k > 0
        invariant
            k <= hops@.len(),
            client_of(peer, hops@, trusted@) == client_of(client, hops@.take(k as int), trusted@),
        decreases k,
    {
        if !is_trusted(trusted, client) {
            return client;
        }
        proof {
            assert(hops@.take(k as int).drop_last() =~= hops@.take(k as int - 1));
            assert(hops@.take(k as int).last() == hops@[k as int - 1]);
        }
        match hops[k - 1] {
            Some(h) => {
                client = h;
            },
            None => {
                return client;
            },
        }
        k = k - 1;
    }
    proof {
        assert(hops@.take(0) =~= Seq::<Option<u128>>::empty());
    }
    client
}

impl RateLimiter {
    #[verifier::type_invariant]
    spec fn inv(self) -> bool {
        limiter_wf(self@)
    }

    /// A limiter allowing `rate` requests a second to each client, with a
    /// burst of `rate`, and no buckets yet.
    pub fn new(rate: u64) -> (r: RateLimiter)
        requires
            rate > 0,
        ensures
            r@ == (RateLimiterV { rate, buckets: Seq::empty() }),
    {
        let r = RateLimiter { rate, started: instant_now(), buckets: Vec::new() };
        assert(r@.buckets =~= Seq::<Bucket>::empty());
        r
    }

    /// The refill rate and burst.
    pub fn rate(&self) -> (r: u64)
        ensures
            r == self@.rate,
    {
        self.rate
    }

    /// How many client buckets are kept.
    pub fn tracked_clients(&self) -> (r: usize)
        ensures
            r == self@.buckets.len(),
    {
        self.buckets.len()
    }

    /// Counts a request from `client` at millisecond `now` of the limiter's clock.
    pub fn count_request(&mut self, client: u128, now: u64) -> (r: Result<(), u64>)
        ensures
            (final(self)@, r) == limit_step(old(self)@, client, now),
    {
        proof {
            use_type_invariant(&*self);
            lemma_step_wf(self@, client, now);
        }
        let ghost l = self@;
        let n = self.buckets.len();
        let mut kept: Vec<Bucket> = Vec::new();
        let mut i: usize = 0;
        while i < n
            invariant
                n == self.buckets@.len(),
                i <= n,
                kept@ == live(self.buckets@.take(i as int), now),
            decreases n - i,
        {
            let b = self.buckets[i];
            proof {
                assert(self.buckets@.take(i as int + 1).drop_last() =~= self.buckets@.take(i as int));
                assert(self.buckets@.take(i as int + 1).last() == b);
            }
            if !(now as u128 >= b.last_ms as u128 + IDLE_MS as u128) {
                kept.push(b);
            }
            i = i + 1;
        }
        proof {
            assert(self.buckets@.take(n as int) =~= self.buckets@);
            lemma_live_keeps(l.buckets, now);
        }
        let ghost bs = kept@;
        let mut j: usize = 0;
        let mut found: Option<usize> = None;
        while j < kept.len()
            invariant_except_break
                found is None,
            invariant
                kept@ == bs,
                j <= bs.len(),
                forall|k: int| 0 <= k < j ==> (#[trigger] bs[k]).client != client,
            ensures
                kept@ == bs,
                found is None ==> forall|k: int| 0 <= k < bs.len() ==> (#[trigger] bs[k]).client != client,
                found matches Some(x) ==> first_of(bs, client, x as int),
            decreases bs.len() - j,
        {
            if kept[j].client == client {
                found = Some(j);
                break;
            }
            j = j + 1;
        }
        let b = match found {
            Some(x) => {
                assert(first_of(bs, client, x as int));
                kept.remove(x)
            },
            None => {
                assert(!has_bucket(bs, client)) by {
                    if has_bucket(bs, client) {
                        let w = choose|w: int| first_of(bs, client, w);
                        assert(bs[w].client == client);
                    }
                }
                if kept.len() >= MAX_CLIENT_BUCKETS {
                    kept.remove(0);
                }
                assert(self.rate * 1000 <= 1000 * 0xffff_ffff_ffff_ffffu128) by (nonlinear_arith)
                    requires
                        self.rate <= 0xffff_ffff_ffff_ffffu64,
                ;
                Bucket { client, tokens: self.rate as u128 * 1000, last_ms: now }
            },
        };
        proof {
            if found is Some {
                let x = found->0 as int;
                let k = choose|k: int| 0 <= k < l.buckets.len() && bs[x] == l.buckets[k];
                assert(l.buckets[k].tokens <= capacity(l.rate));
            }
        }
        let t = refill(&b, self.rate, now);
        let r = if t >= TOKEN {
            kept.push(Bucket { client, tokens: t - TOKEN, last_ms: now });
            Ok(())
        } else {
            let wait = retry_after(t, self.rate);
            kept.push(Bucket { client, tokens: t, last_ms: now });
            Err(wait)
        };
        self.buckets = kept;
        r
    }

    /// Counts a request from `client` now, by the limiter's clock.
    pub fn check(&mut self, client: u128) -> (r: Result<(), u64>)
        ensures
            exists|now: u64| (final(self)@, r) == limit_step(old(self)@, client, now),
    {
        let elapsed = elapsed_millis(&self.started);
        let now: u64 = if elapsed > u64::MAX as u128 {
            u64::MAX
        } else {
            elapsed as u64
        };
        self.count_request(client, now)
    }
}

} // verus!
