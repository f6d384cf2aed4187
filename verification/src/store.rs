//! The in-memory key/value store, whose entries may expire.
//!
//! Times are nanoseconds from the Unix epoch, negative before it. An
//! entry's expiry is the time it was written and its time to live in
//! milliseconds. It is alive while the whole milliseconds elapsed since it
//! was written are fewer than its time to live; a clock that reads earlier
//! than the write counts as expired.

use vstd::prelude::*;
use vstd::hash_map::StringHashMap;
use crate::resp::{Resp, RespValue};

verus! {

/// When an entry was written (nanoseconds from the Unix epoch) and how
/// long it lives (milliseconds).
pub type Expiry = Option<(i128, u128)>;

/// What the store holds: for each key, a value and its expiry.
pub type StoreMap = Map<Seq<char>, (RespValue, Expiry)>;

/// An entry with this expiry is alive at time `now` (nanoseconds).
pub open spec fn alive(expiry: Expiry, now: i128) -> bool {
    match expiry {
        None => true,
        Some((set_at, ttl)) => set_at <= now && (now - set_at) / 1_000_000 < ttl,
    }
}

/// What a read of `key` at time `now` gives.
pub open spec fn lookup(m: StoreMap, key: Seq<char>, now: i128) -> Option<RespValue> {
    if m.contains_key(key) && alive(m[key].1, now) {
        Some(m[key].0)
    } else {
        None
    }
}

/// The expiry a write at time `now` gives an entry, for an optional time to
/// live in milliseconds.
pub open spec fn expiry_from(ttl: Option<u128>, now: i128) -> Expiry {
    match ttl {
        Some(t) => Some((now, t)),
        None => None,
    }
}

/// The store after a write of `value` under `key` at time `now`.
pub open spec fn stored(m: StoreMap, key: Seq<char>, value: RespValue, ttl: Option<u128>, now: i128) -> StoreMap {
    m.insert(key, (value, expiry_from(ttl, now)))
}

/// The model of an optional value.
pub open spec fn value_of(r: Option<Resp>) -> Option<RespValue> {
    match r {
        Some(x) => Some(x@),
        None => None,
    }
}

/// The largest number of nanoseconds a `std::time::Duration` holds: its
/// whole seconds are a `u64` and its nanoseconds fewer than a billion.
pub open spec fn max_duration_nanos() -> nat {
    18446744073709551615nat * 1_000_000_000 + 999_999_999
}

/// Reads the system clock with `std::time::UNIX_EPOCH.elapsed()`: whether
/// the clock is before the epoch, and its distance from the epoch in
/// nanoseconds (the `Duration` of the result or of its error). Nothing is
/// stated of the reading itself, which is whatever the machine's clock says,
/// beyond the range of a `Duration`.
#[verifier::external_body]
fn clock_reading() -> (r: (bool, u128))
    ensures
        r.1 <= max_duration_nanos(),
{
    match std::time::UNIX_EPOCH.elapsed() {
        Ok(d) => (false, d.as_nanos()),
        Err(e) => (true, e.duration().as_nanos()),
    }
}

/// The system clock, in nanoseconds from the Unix epoch (negative before
/// it).
pub(crate) fn clock_nanos() -> (r: i128)
    ensures
        -max_duration_nanos() <= r <= max_duration_nanos(),
{
    let (before_epoch, nanos) = clock_reading();
    if before_epoch {
        -(nanos as i128)
    } else {
        nanos as i128
    }
}

/// The whole milliseconds from `from` to `to`, where `from <= to`.
fn elapsed_millis(from: i128, to: i128) -> (r: u128)
    requires
        from <= to,
    ensures
        r == (to - from) / 1_000_000,
{
    let diff: u128 = if from >= 0 || to < 0 {
        (to - from) as u128
    } else {
        (to as u128) + ((-(from + 1)) as u128) + 1
    };
    diff / 1_000_000
}

/// Whether an entry with this expiry is alive at time `now`.
pub fn does_time_hold(time_param: Option<&(i128, u128)>, now: i128) -> (r: bool)
    ensures
        r == alive(
            match time_param {
                Some(p) => Some(*p),
                None => None,
            },
            now,
        ),
{
    match time_param {
        Some((created, ttl)) => {
            if now < *created {
                false
            } else {
                elapsed_millis(*created, now) < *ttl
            }
        },
        None => true,
    }
}

/// The store: string keys, each with a value and an expiry.
pub struct InMem {
    dat: StringHashMap<(Resp, Expiry)>,
}

impl InMem {
    /// The entries, taken by the models of their values.
    pub closed spec fn entries(&self) -> StoreMap {
        Map::new(
            |k: Seq<char>| self.dat@.contains_key(k),
            |k: Seq<char>| (self.dat@[k].0@, self.dat@[k].1),
        )
    }
}

impl View for InMem {
    type V = StoreMap;

    open spec fn view(&self) -> StoreMap {
        self.entries()
    }
}

impl InMem {
    /// An empty store.
    pub fn new() -> (r: InMem)
        ensures
            r@ == Map::<Seq<char>, (RespValue, Expiry)>::empty(),
    {
        let r = InMem { dat: StringHashMap::new() };
        assert(r.entries() =~= Map::<Seq<char>, (RespValue, Expiry)>::empty());
        r
    }

    /// Reads `key` at time `now`: a copy of its value if it is there and
    /// alive.
    pub fn get_at(&self, key: &str, now: i128) -> (r: Option<Resp>)
        ensures
            value_of(r) == lookup(self@, key@, now),
    {
        match self.dat.get(key) {
            Some(entry) => {
                if does_time_hold(entry.1.as_ref(), now) {
                    Some(entry.0.duplicate())
                } else {
                    None
                }
            },
            None => None,
        }
    }

    /// Reads `key` now, by the system clock.
    pub fn get(&self, key: &str) -> (r: Option<Resp>)
        ensures
            exists|now: i128| value_of(r) == lookup(self@, key@, now),
    {
        let now = clock_nanos();
        self.get_at(key, now)
    }

    /// Writes `value` under `key` at time `now`, with an optional time to
    /// live in milliseconds. It always succeeds.
    pub fn set_at(&mut self, key: String, value: Resp, ttl: Option<u128>, now: i128) -> (r: Result<(), String>)
        ensures
            r is Ok,
            final(self)@ == stored(old(self)@, key@, value@, ttl, now),
    {
        let ghost k = key@;
        let ghost v = value@;
        let time_param = match ttl {
            Some(t) => Some((now, t)),
            None => None,
        };
        self.dat.insert(key, (value, time_param));
        assert(self.entries() =~= stored(old(self)@, k, v, ttl, now));
        Ok(())
    }

    /// Writes `value` under `key`, with an optional time to live in
    /// milliseconds counted from now, by the system clock. It always succeeds.
    pub fn set(&mut self, key: String, value: Resp, ttl: Option<u128>) -> (r: Result<(), String>)
        ensures
            r is Ok,
            exists|now: i128| final(self)@ == stored(old(self)@, key@, value@, ttl, now),
            ttl is None ==> final(self)@ == old(self)@.insert(key@, (value@, None)),
    {
        let now = match ttl {
            Some(_) => clock_nanos(),
            None => 0,
        };
        self.set_at(key, value, ttl, now)
    }
}

/// A read gives back what the last write of that key wrote, while the entry
/// is alive, and nothing once it has expired.
pub proof fn lemma_read_own_write(
    m: StoreMap,
    key: Seq<char>,
    value: RespValue,
    ttl: Option<u128>,
    set_at: i128,
    now: i128,
)
    ensures
        lookup(stored(m, key, value, ttl, set_at), key, now) == if alive(expiry_from(ttl, set_at), now) {
            Some(value)
        } else {
            None
        },
        ttl is None ==> lookup(stored(m, key, value, ttl, set_at), key, now) == Some(value),
{
}

/// A write of one key leaves every other key as it was.
pub proof fn lemma_write_other_key(
    m: StoreMap,
    key: Seq<char>,
    other: Seq<char>,
    value: RespValue,
    ttl: Option<u128>,
    set_at: i128,
    now: i128,
)
    requires
        key != other,
    ensures
        lookup(stored(m, key, value, ttl, set_at), other, now) == lookup(m, other, now),
{
}

/// A time to live counts milliseconds of a clock that counts nanoseconds:
/// an entry written at `set_at` with a time to live of `ttl` reads back from
/// `set_at` on, for as long as fewer than `ttl * 1_000_000` nanoseconds have
/// passed, and reads as nothing before the write and from then on.
pub proof fn lemma_ttl_in_milliseconds(
    m: StoreMap,
    key: Seq<char>,
    value: RespValue,
    ttl: u128,
    set_at: i128,
    now: i128,
)
    ensures
        lookup(stored(m, key, value, Some(ttl), set_at), key, now) == if set_at <= now && now
            < set_at + ttl * 1_000_000 {
            Some(value)
        } else {
            None
        },
{
    if set_at <= now {
        let d: int = now - set_at;
        let t: int = ttl as int;
        assert((d / 1_000_000 < t) <==> (d < t * 1_000_000)) by (nonlinear_arith)
            requires
                d >= 0,
                t >= 0,
        {
            if d < t * 1_000_000 {
                assert(d / 1_000_000 <= (t * 1_000_000 - 1) / 1_000_000);
            }
        }
    }
}

/// While the clock moves forward from the write, an entry that has expired
/// stays expired.
pub proof fn lemma_expired_stays_expired(expiry: Expiry, t1: i128, t2: i128)
    requires
        expiry matches Some((set_at, _)) && set_at <= t1,
        t1 <= t2,
        !alive(expiry, t1),
    ensures
        !alive(expiry, t2),
{
    let (set_at, ttl) = expiry.unwrap();
    vstd::arithmetic::div_mod::lemma_div_is_ordered((t1 - set_at) as int, (t2 - set_at) as int, 1_000_000);
}

} // verus!
