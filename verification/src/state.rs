//! The state that the server's routes share: the setup token, the limit on setup claims, and
//! the choice of a database.

use crate::text::{
    chars_of, find_char, hex, hex_of, lemma_hex_injective, lemma_position, pieces, pieces_of, position, string_of_range, text_eq, trim, trimmed, views,
};
use sha2::Digest;
use vstd::prelude::*;

verus! {

/// How many claims a client may make within the window.
pub const SETUP_CLAIM_LIMIT: usize = 10;

/// The length of the window, in nanoseconds.
pub const SETUP_CLAIM_WINDOW: u64 = 60_000_000_000;

/// The SHA-256 digest of a message.
pub uninterp spec fn sha256(message: Seq<u8>) -> Seq<u8>;

/// The digest of the bytes: what `sha2::Sha256` gives when it is fed them, which is a function of
/// them and has thirty-two bytes.
#[verifier::external_body]
fn digest(bytes: &[u8]) -> (r: Vec<u8>)
    ensures
        r@ == sha256(bytes@),
        r@.len() == 32,
{
    let mut hasher = sha2::Sha256::new();
    hasher.update(bytes);
    hasher.finalize().to_vec()
}

/// The digest of a text, in lower-case hexadecimal.
pub open spec fn setup_hash(s: Seq<char>) -> Seq<char> {
    hex(sha256(vstd::utf8::encode_utf8(s)))
}

fn hash_setup_token(raw: &str) -> (r: String)
    ensures
        r@ == setup_hash(raw@),
{
    hex_of(digest(raw.as_bytes()).as_slice())
}

/// The token that a first-run claim must show; only its digest is kept.
pub struct SetupToken {
    hash: String,
}

impl SetupToken {
    /// The digest that is kept.
    pub closed spec fn kept_hash(self) -> Seq<char> {
        self.hash@
    }

    /// The token that the text gives: white space around it does not belong to it, and nothing
    /// but white space gives none.
    pub fn from_raw(raw: String) -> (r: Option<Self>)
        ensures
            match r {
                Some(t) => trimmed(raw@).len() > 0 && t.kept_hash() == setup_hash(trimmed(raw@)),
                None => trimmed(raw@).len() == 0,
            },
    {
        let token = trim(raw.as_str());
        if token.as_str().is_empty() {
            return None;
        }
        Some(SetupToken { hash: hash_setup_token(token.as_str()) })
    }

    /// Whether a candidate, white space around it aside, has the digest that is kept.
    pub fn verify(&self, candidate: &str) -> (r: bool)
        ensures
            r == (setup_hash(trimmed(candidate@)) == self.kept_hash()),
    {
        let token = trim(candidate);
        text_eq(hash_setup_token(token.as_str()).as_str(), self.hash.as_str())
    }
}

/// A token is verified by the text that it was made from, and by whatever is the same up to
/// white space around it; any other text that verifies has the same SHA-256 digest.
pub proof fn law_token_verifies_its_text(raw: Seq<char>, token: SetupToken, candidate: Seq<char>)
    requires
        token.kept_hash() == setup_hash(trimmed(raw)),
    ensures
        trimmed(candidate) == trimmed(raw) ==> setup_hash(trimmed(candidate))
            == token.kept_hash(),
        setup_hash(trimmed(candidate)) == token.kept_hash() <==> sha256(
            vstd::utf8::encode_utf8(trimmed(candidate)),
        ) == sha256(vstd::utf8::encode_utf8(trimmed(raw))),
{
    let a = sha256(vstd::utf8::encode_utf8(trimmed(candidate)));
    let b = sha256(vstd::utf8::encode_utf8(trimmed(raw)));
    if hex(a) == hex(b) {
        lemma_hex_injective(a, b);
    }
}

/// The address of a client.
#[derive(Debug, Clone, Copy, PartialEq, Eq, Structural)]
pub enum ClientIp {
    V4(u32),
    V6(u128),
}

/// The attempts of one client that were let through, oldest first, in nanoseconds.
pub struct ClientAttempts {
    ip: ClientIp,
    at: Vec<u64>,
}

/// A limiter of setup claims: so many by one client within a window.
pub struct SetupClaimLimiter {
    attempts: Vec<ClientAttempts>,
}

/// The recorded attempts of a client.
pub closed spec fn recorded(list: Seq<ClientAttempts>, ip: ClientIp) -> Seq<u64>
    decreases list.len(),
{
    if list.len() == 0 {
        Seq::empty()
    } else if list[0].ip == ip {
        list[0].at@
    } else {
        recorded(list.drop_first(), ip)
    }
}

/// Whether an attempt has left the window.
pub open spec fn is_past(at: u64, now: u64) -> bool {
    now - at > SETUP_CLAIM_WINDOW
}

/// The attempts from the first one on that is still in the window.
pub open spec fn still_counted(attempts: Seq<u64>, now: u64) -> Seq<u64>
    decreases attempts.len(),
{
    if attempts.len() > 0 && is_past(attempts[0], now) {
        still_counted(attempts.drop_first(), now)
    } else {
        attempts
    }
}

/// Whether an attempt is let through.
pub open spec fn is_allowed(attempts: Seq<u64>, now: u64) -> bool {
    still_counted(attempts, now).len() < SETUP_CLAIM_LIMIT
}

/// The recorded attempts after one more.
pub open spec fn after_attempt(attempts: Seq<u64>, now: u64) -> Seq<u64> {
    if is_allowed(attempts, now) {
        still_counted(attempts, now).push(now)
    } else {
        still_counted(attempts, now)
    }
}

proof fn lemma_recorded(list: Seq<ClientAttempts>, ip: ClientIp, i: int)
    requires
        0 <= i < list.len(),
        list[i].ip == ip,
        forall|j: int| 0 <= j < i ==> (#[trigger] list[j]).ip != ip,
    ensures
        recorded(list, ip) == list[i].at@,
    decreases i,
{
    if i > 0 {
        assert(list[0].ip != ip);
        let rest = list.drop_first();
        assert(forall|j: int| 0 <= j < i - 1 ==> rest[j] == list[j + 1]);
        lemma_recorded(rest, ip, i - 1);
    }
}

proof fn lemma_not_recorded(list: Seq<ClientAttempts>, ip: ClientIp)
    requires
        forall|j: int| 0 <= j < list.len() ==> (#[trigger] list[j]).ip != ip,
    ensures
        recorded(list, ip) == Seq::<u64>::empty(),
    decreases list.len(),
{
    if list.len() > 0 {
        assert(list[0].ip != ip);
        lemma_not_recorded(list.drop_first(), ip);
    }
}

/// An entry that is changed or put behind the others leaves the other clients alone.
proof fn lemma_others_stay(
    before: Seq<ClientAttempts>,
    after: Seq<ClientAttempts>,
    i: int,
    other: ClientIp,
)
    requires
        0 <= i <= before.len(),
        after.len() == if i < before.len() {
            before.len()
        } else {
            before.len() + 1
        },
        forall|j: int| 0 <= j < before.len() && j != i ==> #[trigger] after[j] == before[j],
        i < before.len() ==> before[i].ip == after[i].ip,
        after[i].ip != other,
    ensures
        recorded(after, other) == recorded(before, other),
    decreases before.len(),
{
    if before.len() == 0 {
        assert(after.drop_first() =~= Seq::empty());
        reveal_with_fuel(recorded, 2);
    } else if i == 0 {
        assert(after.drop_first() =~= before.drop_first());
    } else {
        assert(after[0] == before[0]);
        let a = after.drop_first();
        let b = before.drop_first();
        assert(forall|j: int| 0 <= j < b.len() && j != i - 1 ==> a[j] == after[j + 1]);
        lemma_others_stay(b, a, i - 1, other);
    }
}

/// The attempts from the first one on that is still in the window.
fn drop_past(attempts: &Vec<u64>, now: u64) -> (r: Vec<u64>)
    ensures
        r@ == still_counted(attempts@, now),
{
    let mut from: usize = 0;
    assert(attempts@.skip(0) =~= attempts@);
    while from < attempts.len() && now > attempts[from] && now - attempts[from]
        > SETUP_CLAIM_WINDOW
        invariant
            from <= attempts@.len(),
            still_counted(attempts@, now) == still_counted(attempts@.skip(from as int), now),
        decreases attempts@.len() - from,
    {
        assert(attempts@.skip(from as int).drop_first() =~= attempts@.skip(from + 1));
        from = from + 1;
    }
    let mut r: Vec<u64> = Vec::new();
    let mut i: usize = from;
    while i < attempts.len()
        invariant
            from <= i <= attempts@.len(),
            r@ == attempts@.subrange(from as int, i as int),
        decreases attempts@.len() - i,
    {
        r.push(attempts[i]);
        assert(attempts@.subrange(from as int, i + 1) =~= attempts@.subrange(
            from as int,
            i as int,
        ).push(attempts@[i as int]));
        i = i + 1;
    }
    assert(r@ =~= attempts@.skip(from as int));
    r
}

impl SetupClaimLimiter {
    /// The recorded attempts of a client.
    pub closed spec fn attempts_of(self, ip: ClientIp) -> Seq<u64> {
        recorded(self.attempts@, ip)
    }

    /// A limiter that has seen no attempt.
    pub fn new() -> (r: Self)
        ensures
            forall|ip: ClientIp| #[trigger] r.attempts_of(ip) == Seq::<u64>::empty(),
    {
        SetupClaimLimiter { attempts: Vec::new() }
    }

    /// Records an attempt at the time `now` and says whether it is let through.
    pub fn check(&mut self, ip: ClientIp, now: u64) -> (r: bool)
        ensures
            r == is_allowed(old(self).attempts_of(ip), now),
            final(self).attempts_of(ip) == after_attempt(old(self).attempts_of(ip), now),
            forall|other: ClientIp|
                other != ip ==> #[trigger] final(self).attempts_of(other) == old(
                    self,
                ).attempts_of(other),
    {
        let ghost before = self.attempts@;
        let mut i: usize = 0;
        while i < self.attempts.len() && self.attempts[i].ip != ip
            invariant
                i <= self.attempts@.len(),
                self.attempts@ == before,
                forall|j: int| 0 <= j < i ==> (#[trigger] before[j]).ip != ip,
            decreases self.attempts@.len() - i,
        {
            i = i + 1;
        }
        if i == self.attempts.len() {
            self.attempts.push(ClientAttempts { ip, at: Vec::new() });
            proof {
                lemma_not_recorded(before, ip);
            }
        } else {
            proof {
                lemma_recorded(before, ip, i as int);
            }
        }
        let mut at = drop_past(&self.attempts[i].at, now);
        let allowed = at.len() < SETUP_CLAIM_LIMIT;
        if allowed {
            at.push(now);
        }
        self.attempts.set(i, ClientAttempts { ip, at });
        proof {
            lemma_recorded(self.attempts@, ip, i as int);
            assert forall|other: ClientIp| other != ip implies #[trigger] self.attempts_of(other)
                == recorded(before, other) by {
                lemma_others_stay(before, self.attempts@, i as int, other);
            }
        }
        allowed
    }
}

/// What a client's attempts at the given times lead to: the attempts that are recorded, and
/// those that were let through.
pub open spec fn replay(times: Seq<u64>) -> (Seq<u64>, Seq<u64>)
    decreases times.len(),
{
    if times.len() == 0 {
        (Seq::empty(), Seq::empty())
    } else {
        let before = replay(times.drop_last());
        let now = times.last();
        (
            after_attempt(before.0, now),
            if is_allowed(before.0, now) {
                before.1.push(now)
            } else {
                before.1
            },
        )
    }
}

/// The times do not go back.
pub open spec fn in_order(times: Seq<u64>) -> bool {
    forall|i: int, j: int| 0 <= i <= j < times.len() ==> times[i] <= times[j]
}

proof fn lemma_still_counted(attempts: Seq<u64>, now: u64)
    ensures
        still_counted(attempts, now).len() <= attempts.len(),
        ({
            let gone = attempts.len() - still_counted(attempts, now).len();
            &&& still_counted(attempts, now) == attempts.skip(gone)
            &&& forall|i: int| 0 <= i < gone ==> is_past(#[trigger] attempts[i], now)
        }),
    decreases attempts.len(),
{
    if attempts.len() > 0 && is_past(attempts[0], now) {
        let rest = attempts.drop_first();
        lemma_still_counted(rest, now);
        let gone = attempts.len() - still_counted(attempts, now).len();
        assert(rest.skip(gone - 1) =~= attempts.skip(gone));
        assert forall|i: int| 0 <= i < gone implies is_past(#[trigger] attempts[i], now) by {
            if i > 0 {
                assert(is_past(rest[i - 1], now));
            }
        }
    } else {
        assert(attempts.skip(0) =~= attempts);
    }
}

/// What is recorded is the end of what was let through, never more than the limit; what is no
/// longer recorded had left the window by the last attempt.
proof fn lemma_replay(times: Seq<u64>)
    requires
        in_order(times),
    ensures
        ({
            let (kept, passed) = replay(times);
            &&& kept.len() <= passed.len()
            &&& kept.len() <= SETUP_CLAIM_LIMIT
            &&& kept == passed.skip(passed.len() - kept.len())
            &&& forall|i: int| 0 <= i < passed.len() ==> times.contains(#[trigger] passed[i])
            &&& forall|i: int|
                0 <= i < passed.len() - kept.len() ==> times.len() > 0 && is_past(
                    #[trigger] passed[i],
                    times.last(),
                )
            &&& forall|k: int|
                SETUP_CLAIM_LIMIT <= k < passed.len() ==> #[trigger] passed[k]
                    - passed[k - SETUP_CLAIM_LIMIT] > SETUP_CLAIM_WINDOW
        }),
    decreases times.len(),
{
    if times.len() > 0 {
        let d = times.drop_last();
        let now = times.last();
        assert(forall|i: int| 0 <= i < d.len() ==> d[i] == times[i]);
        lemma_replay(d);
        let (kept0, passed0) = replay(d);
        lemma_still_counted(kept0, now);
        let counted = still_counted(kept0, now);
        let (kept, passed) = replay(times);
        let gone = kept0.len() - counted.len();
        let out = passed0.len() - counted.len();
        assert(counted =~= passed0.skip(out));
        assert forall|i: int| 0 <= i < out implies is_past(#[trigger] passed0[i], now) by {
            let first = passed0.len() - kept0.len();
            if i < first {
                assert(is_past(passed0[i], d.last()));
                assert(d.last() == times[d.len() - 1]);
                assert(d.last() <= now);
            } else {
                assert(kept0[i - first] == passed0[i]);
                assert(is_past(kept0[i - first], now));
            }
        }
        assert forall|i: int| 0 <= i < passed.len() implies times.contains(
            #[trigger] passed[i],
        ) by {
            if i < passed0.len() {
                assert(passed[i] == passed0[i]);
                let j = choose|j: int| 0 <= j < d.len() && d[j] == passed0[i];
                assert(times[j] == passed[i]);
            } else {
                assert(times[times.len() - 1] == passed[i]);
            }
        }
        assert(kept =~= passed.skip(passed.len() - kept.len()));
        assert forall|i: int| 0 <= i < passed.len() - kept.len() implies is_past(
            #[trigger] passed[i],
            now,
        ) by {
            assert(passed[i] == passed0[i]);
        }
        assert forall|k: int| SETUP_CLAIM_LIMIT <= k < passed.len() implies #[trigger] passed[k]
            - passed[k - SETUP_CLAIM_LIMIT] > SETUP_CLAIM_WINDOW by {
            assert(passed[k - SETUP_CLAIM_LIMIT] == passed0[k - SETUP_CLAIM_LIMIT]);
            if k < passed0.len() {
                assert(passed[k] == passed0[k]);
            } else {
                assert(k - SETUP_CLAIM_LIMIT < out);
                assert(is_past(passed0[k - SETUP_CLAIM_LIMIT], now));
            }
        }
    }
}

/// A limiter's record of a client is what its attempts lead to, if it is so before an attempt.
pub proof fn law_record_follows_attempts(times: Seq<u64>, now: u64)
    ensures
        replay(times.push(now)).0 == after_attempt(replay(times).0, now),
        replay(times.push(now)).1 == if is_allowed(replay(times).0, now) {
            replay(times).1.push(now)
        } else {
            replay(times).1
        },
{
    assert(times.push(now).drop_last() =~= times);
}

/// As long as time does not go back, no client gets more claims through within a window than the
/// limit: the claim that comes the limit's number of claims after another comes more than a
/// window after it. And a client with fewer claims in the record than the limit gets through.
pub proof fn law_no_more_claims_than_the_limit(times: Seq<u64>)
    requires
        in_order(times),
    ensures
        forall|k: int|
            SETUP_CLAIM_LIMIT <= k < replay(times).1.len() ==> #[trigger] replay(times).1[k]
                - replay(times).1[k - SETUP_CLAIM_LIMIT] > SETUP_CLAIM_WINDOW,
        replay(times).0.len() <= SETUP_CLAIM_LIMIT,
        forall|now: u64|
            replay(times).0.len() < SETUP_CLAIM_LIMIT ==> #[trigger] is_allowed(
                replay(times).0,
                now,
            ),
{
    lemma_replay(times);
    assert forall|now: u64| replay(times).0.len() < SETUP_CLAIM_LIMIT implies #[trigger] is_allowed(
        replay(times).0,
        now,
    ) by {
        lemma_still_counted(replay(times).0, now);
    }
}

/// What is let through comes in the order of the attempts.
proof fn lemma_passed_in_order(times: Seq<u64>)
    requires
        in_order(times),
    ensures
        in_order(replay(times).1),
        forall|i: int|
            0 <= i < replay(times).1.len() ==> times.len() > 0 && #[trigger] replay(times).1[i]
                <= times.last(),
    decreases times.len(),
{
    if times.len() > 0 {
        let d = times.drop_last();
        assert(forall|i: int| 0 <= i < d.len() ==> d[i] == times[i]);
        lemma_passed_in_order(d);
        let before = replay(d).1;
        let passed = replay(times).1;
        assert forall|i: int| 0 <= i < before.len() implies #[trigger] before[i]
            <= times.last() by {
            assert(d.last() == times[d.len() - 1]);
            assert(times[d.len() - 1] <= times[times.len() - 1]);
        }
    }
}

/// The claims that are still in the window.
pub open spec fn in_window(claims: Seq<u64>, now: u64) -> Seq<u64> {
    claims.filter(|at: u64| !is_past(at, now))
}

/// What a filter that passes over the first items and takes the others leaves.
proof fn lemma_filter_tail(s: Seq<u64>, p: spec_fn(u64) -> bool, out: int)
    requires
        0 <= out <= s.len(),
        forall|i: int| 0 <= i < out ==> !p(#[trigger] s[i]),
        forall|i: int| out <= i < s.len() ==> p(#[trigger] s[i]),
    ensures
        s.filter(p) == s.skip(out),
    decreases s.len(),
{
    reveal(Seq::filter);
    if s.len() > 0 {
        let d = s.drop_last();
        assert(forall|i: int| 0 <= i < d.len() ==> d[i] == s[i]);
        if out < s.len() {
            lemma_filter_tail(d, p, out);
            assert(s[s.len() - 1] == s.last());
            assert(s.skip(out) =~= d.skip(out).push(s.last()));
        } else {
            lemma_filter_tail(d, p, out - 1);
            assert(s[s.len() - 1] == s.last());
            assert(s.skip(out) =~= d.skip(out - 1));
        }
    } else {
        assert(s.skip(out) =~= s.filter(p));
    }
}

/// As long as time does not go back, a claim is let through if and only if fewer of the client's
/// earlier claims that were let through are still in the window than the limit says.
pub proof fn law_claims_within_the_limit_are_let_through(times: Seq<u64>, now: u64)
    requires
        in_order(times.push(now)),
    ensures
        is_allowed(replay(times).0, now) <==> in_window(replay(times).1, now).len()
            < SETUP_CLAIM_LIMIT,
{
    assert forall|i: int, j: int| 0 <= i <= j < times.len() implies times[i] <= times[j] by {
        assert(times.push(now)[i] <= times.push(now)[j]);
    }
    lemma_replay(times);
    lemma_passed_in_order(times);
    let (kept, passed) = replay(times);
    let counted = still_counted(kept, now);
    lemma_still_counted(kept, now);
    lemma_first_counted(kept, now);
    let out = passed.len() - counted.len();
    let first = passed.len() - kept.len();
    assert forall|i: int| 0 <= i < out implies is_past(#[trigger] passed[i], now) by {
        if i < first {
            assert(is_past(passed[i], times.last()));
            assert(times.push(now)[times.len() - 1] <= times.push(now)[times.len() as int]);
        } else {
            assert(kept[i - first] == passed[i]);
            assert(is_past(kept[i - first], now));
        }
    }
    assert(counted =~= passed.skip(out));
    assert forall|i: int| out <= i < passed.len() implies !is_past(#[trigger] passed[i], now) by {
        assert(counted[0] == passed[out]);
        assert(passed[out] <= passed[i]);
    }
    lemma_filter_tail(passed, |at: u64| !is_past(at, now), out);
}

proof fn lemma_first_counted(attempts: Seq<u64>, now: u64)
    ensures
        still_counted(attempts, now).len() > 0 ==> !is_past(still_counted(attempts, now)[0], now),
    decreases attempts.len(),
{
    if attempts.len() > 0 && is_past(attempts[0], now) {
        lemma_first_counted(attempts.drop_first(), now);
    }
}

/// Which database a request is for.
#[derive(Debug)]
pub enum DatabaseChoice {
    Named(String),
    Active,
}

/// The value that a pair of a query gives the key, if it is a pair for the key.
pub open spec fn value_of(pair: Seq<char>, key: Seq<char>) -> Option<Seq<char>> {
    let p = position(pair, '=') as int;
    if p < pair.len() && pair.take(p) == key {
        Some(pair.skip(p + 1))
    } else {
        None
    }
}

/// The first value that the pairs give the key.
pub open spec fn first_value(pairs: Seq<Seq<char>>, key: Seq<char>) -> Option<Seq<char>>
    decreases pairs.len(),
{
    if pairs.len() == 0 {
        None
    } else {
        match value_of(pairs[0], key) {
            Some(v) => Some(v),
            None => first_value(pairs.drop_first(), key),
        }
    }
}

/// The database that a request names: in its header, else in its query; if nowhere, it is for the
/// active one.
pub open spec fn database_named(header: Option<Seq<char>>, query: Seq<char>) -> Option<Seq<char>> {
    match header {
        Some(h) => Some(h),
        None => first_value(pieces_of(query, '&'), "db"@),
    }
}

fn pair_value(pair: &str, key: &str) -> (r: Option<String>)
    ensures
        (match r {
            Some(v) => Some(v@),
            None => None,
        }) == value_of(pair@, key@),
{
    let cs = chars_of(pair);
    let p = find_char(cs.as_slice(), 0, '=');
    assert(cs@.skip(0) =~= cs@);
    if p < cs.len() {
        let name = string_of_range(cs.as_slice(), 0, p);
        assert(pair@.take(p as int) =~= pair@.subrange(0, p as int));
        if text_eq(name.as_str(), key) {
            let v = string_of_range(cs.as_slice(), p + 1, cs.len());
            assert(pair@.skip(p + 1) =~= pair@.subrange(p + 1, pair@.len() as int));
            return Some(v);
        }
    }
    None
}

/// Which database a request is for, given its `X-Atomic-Database` header, if it has one that is
/// text, and its query.
pub fn select_database(header: Option<&str>, query_string: &str) -> (r: DatabaseChoice)
    ensures
        (match r {
            DatabaseChoice::Named(n) => Some(n@),
            DatabaseChoice::Active => None,
        }) == database_named(
            match header {
                Some(h) => Some(h@),
                None => None,
            },
            query_string@,
        ),
{
    match header {
        Some(h) => {
            return DatabaseChoice::Named(h.to_owned());
        },
        None => {},
    }
    let pairs = pieces(query_string, '&');
    let ghost all = views(pairs@);
    let mut i: usize = 0;
    assert(all.skip(0) =~= all);
    while i < pairs.len()
        invariant
            i <= pairs@.len(),
            header is None,
            all == views(pairs@),
            all == pieces_of(query_string@, '&'),
            first_value(all, "db"@) == first_value(all.skip(i as int), "db"@),
        decreases pairs@.len() - i,
    {
        assert(all.skip(i as int)[0] == pairs@[i as int]@);
        assert(all.skip(i as int).drop_first() =~= all.skip(i + 1));
        match pair_value(pairs[i].as_str(), "db") {
            Some(v) => {
                return DatabaseChoice::Named(v);
            },
            None => {},
        }
        i = i + 1;
    }
    DatabaseChoice::Active
}

/// A request's header goes before its query.
pub proof fn law_header_goes_first(header: Seq<char>, query: Seq<char>)
    ensures
        database_named(Some(header), query) == Some(header),
{
}

/// No client gets more than ten claims through within a minute, and none is turned away that has
/// fewer than ten in the minute before: an attempt counts for a whole minute and no longer.
pub proof fn law_ten_claims_a_minute(times: Seq<u64>, now: u64, k: int)
    requires
        in_order(times.push(now)),
    ensures
        10 <= k < replay(times).1.len() ==> replay(times).1[k] - replay(times).1[k - 10]
            > 60_000_000_000,
        is_allowed(replay(times).0, now) <==> replay(times).1.filter(
            |at: u64| now - at <= 60_000_000_000,
        ).len() < 10,
{
    assert forall|i: int, j: int| 0 <= i <= j < times.len() implies times[i] <= times[j] by {
        assert(times.push(now)[i] <= times.push(now)[j]);
    }
    law_no_more_claims_than_the_limit(times);
    law_claims_within_the_limit_are_let_through(times, now);
    let p = |at: u64| !is_past(at, now);
    let q = |at: u64| now - at <= 60_000_000_000;
    assert(p =~= q);
}

/// A claim that is let through is recorded as the latest one, and one that is not is not recorded;
/// the order of the others stays.
pub proof fn law_only_claims_let_through_are_recorded(attempts: Seq<u64>, now: u64)
    ensures
        is_allowed(attempts, now) ==> after_attempt(attempts, now).len() > 0 && after_attempt(
            attempts,
            now,
        ).last() == now && after_attempt(attempts, now).drop_last().is_suffix_of(attempts),
        !is_allowed(attempts, now) ==> after_attempt(attempts, now).is_suffix_of(attempts),
{
    lemma_still_counted(attempts, now);
    let kept = still_counted(attempts, now);
    let gone = attempts.len() - kept.len();
    assert(kept =~= attempts.subrange(gone, attempts.len() as int));
    assert(kept.push(now).drop_last() =~= kept);
}

/// A text gives a token unless it is blank, and the token is verified by every candidate that is
/// the same text, white space around either aside; a candidate with another digest is refused.
pub proof fn law_tokens_verify_what_they_were_made_from(
    raw: String,
    token: SetupToken,
    made: Option<SetupToken>,
    candidate: &str,
    r: bool,
)
    requires
        call_ensures(SetupToken::from_raw, (raw,), made),
        made == Some(token),
        call_ensures(SetupToken::verify, (&token, candidate), r),
    ensures
        trimmed(raw@).len() > 0,
        trimmed(candidate@) == trimmed(raw@) ==> r,
        sha256(vstd::utf8::encode_utf8(trimmed(candidate@))) != sha256(
            vstd::utf8::encode_utf8(trimmed(raw@)),
        ) ==> !r,
{
    law_token_verifies_its_text(raw@, token, candidate@);
}

/// Nothing but white space gives no token, and nothing else gives none.
pub proof fn law_blank_texts_are_no_tokens(raw: String, made: Option<SetupToken>)
    requires
        call_ensures(SetupToken::from_raw, (raw,), made),
    ensures
        made is None <==> trimmed(raw@).len() == 0,
{
}

/// Whether a pair gives a value to `db`.
pub open spec fn names_database(pair: Seq<char>) -> bool {
    seq!['d', 'b', '='].is_prefix_of(pair)
}

proof fn lemma_value_of(pair: Seq<char>)
    ensures
        value_of(pair, "db"@) is Some <==> names_database(pair),
        value_of(pair, "db"@) matches Some(v) ==> v == pair.skip(3),
{
    reveal_strlit("db");
    let key = "db"@;
    let start = seq!['d', 'b', '='];
    lemma_position(pair, '=');
    let p = position(pair, '=') as int;
    if names_database(pair) {
        assert(pair.subrange(0, 3) =~= start);
        assert(pair[0] == start[0] && pair[1] == start[1] && pair[2] == start[2]);
        crate::text::lemma_position_unique(pair, '=', 2);
        assert(pair.take(2) =~= key);
    }
    if p < pair.len() && pair.take(p) == key {
        assert(pair.take(p).len() == p);
        assert(key.len() == 2);
        assert(pair[0] == key[0] && pair[1] == key[1]) by {
            assert(pair.take(p)[0] == pair[0] && pair.take(p)[1] == pair[1]);
        }
        assert(pair.subrange(0, 3) =~= start);
    }
}

/// Without a header a request is for the database of the first pair of its query that names one,
/// and for the active one if no pair does.
pub proof fn law_first_pair_names_the_database(query: &str, r: DatabaseChoice, i: int)
    requires
        call_ensures(select_database, (None, query), r),
        0 <= i < pieces_of(query@, '&').len(),
    ensures
        ({
            let pairs = pieces_of(query@, '&');
            &&& names_database(pairs[i]) && (forall|j: int|
                0 <= j < i ==> !names_database(#[trigger] pairs[j])) ==> (
            r matches DatabaseChoice::Named(n) && pairs[i] == seq!['d', 'b', '='] + n@)
            &&& (forall|j: int| 0 <= j < pairs.len() ==> !names_database(#[trigger] pairs[j]))
                ==> r is Active
        }),
{
    let pairs = pieces_of(query@, '&');
    lemma_first_value(pairs);
    if names_database(pairs[i]) && (forall|j: int| 0 <= j < i ==> !names_database(pairs[j])) {
        let start = seq!['d', 'b', '='];
        assert(pairs[i] =~= start + pairs[i].skip(3)) by {
            assert(pairs[i].subrange(0, 3) =~= start);
        }
    }
}

proof fn lemma_first_value(pairs: Seq<Seq<char>>)
    ensures
        forall|i: int|
            0 <= i < pairs.len() && names_database(#[trigger] pairs[i]) && (forall|j: int|
                0 <= j < i ==> !names_database(#[trigger] pairs[j])) ==> first_value(pairs, "db"@)
                == Some(pairs[i].skip(3)),
        (forall|j: int| 0 <= j < pairs.len() ==> !names_database(#[trigger] pairs[j]))
            ==> first_value(pairs, "db"@) is None,
    decreases pairs.len(),
{
    if pairs.len() > 0 {
        let rest = pairs.drop_first();
        lemma_value_of(pairs[0]);
        lemma_first_value(rest);
        assert forall|i: int|
            0 <= i < pairs.len() && names_database(#[trigger] pairs[i]) && (forall|j: int|
                0 <= j < i ==> !names_database(#[trigger] pairs[j])) implies first_value(
            pairs,
            "db"@,
        ) == Some(pairs[i].skip(3)) by {
            if i > 0 {
                assert(!names_database(pairs[0]));
                assert(rest[i - 1] == pairs[i]);
                assert forall|j: int| 0 <= j < i - 1 implies !names_database(
                    #[trigger] rest[j],
                ) by {
                    assert(!names_database(pairs[j + 1]));
                }
            }
        }
        if forall|j: int| 0 <= j < pairs.len() ==> !names_database(#[trigger] pairs[j]) {
            assert(!names_database(pairs[0]));
            assert forall|j: int| 0 <= j < rest.len() implies !names_database(
                #[trigger] rest[j],
            ) by {
                assert(!names_database(pairs[j + 1]));
            }
        }
    }
}

} // verus!
