//! The key-value store: each key holds a value and, optionally, the time at
//! which it expires. An expired entry stays until it is next read.

use crate::clock::{nanos_since, read_instant};
use vstd::hash_map::StringHashMap;
use vstd::prelude::*;
use vstd::string::*;

verus! {

/// The nanoseconds in one millisecond.
pub const NANOS_PER_MILLI: u128 = 1_000_000;

/// One stored value with the time, in nanoseconds of the store's clock, at
/// which it expires.
pub struct Entry {
    value: String,
    expiry: Option<u128>,
}

/// What an entry holds.
pub struct EntryView {
    pub value: Seq<char>,
    pub expiry: Option<u128>,
}

impl View for Entry {
    type V = EntryView;

    closed spec fn view(&self) -> EntryView {
        EntryView { value: self.value@, expiry: self.expiry }
    }
}

/// The time at which an entry written at `now` with a time to live of
/// `ttl_millis` milliseconds expires. A time past the end of the clock's
/// range is held at the end of the range, which is never passed.
pub open spec fn deadline(now: u128, ttl_millis: u64) -> u128 {
    if now + ttl_millis * NANOS_PER_MILLI <= u128::MAX {
        (now + ttl_millis * NANOS_PER_MILLI) as u128
    } else {
        u128::MAX
    }
}

/// Whether an entry can still be read at `now`: it has no expiry, or `now`
/// is not past it.
pub open spec fn live(entry: EntryView, now: u128) -> bool {
    match entry.expiry {
        Some(expiry) => now <= expiry,
        None => true,
    }
}

/// What a store holds after `key` is set to `value` without expiry.
pub open spec fn set_spec(
    store: Map<Seq<char>, EntryView>,
    key: Seq<char>,
    value: Seq<char>,
) -> Map<Seq<char>, EntryView> {
    store.insert(key, EntryView { value, expiry: None })
}

/// What a store holds after `key` is set to `value` at `now` with a time to
/// live of `ttl_millis` milliseconds.
pub open spec fn set_px_spec(
    store: Map<Seq<char>, EntryView>,
    key: Seq<char>,
    value: Seq<char>,
    ttl_millis: u64,
    now: u128,
) -> Map<Seq<char>, EntryView> {
    store.insert(key, EntryView { value, expiry: Some(deadline(now, ttl_millis)) })
}

/// What reading `key` at `now` gives, and what the store holds afterwards.
/// A live entry gives its value and stays. An expired entry gives nothing and
/// is removed. A missing key gives nothing.
pub open spec fn get_spec(store: Map<Seq<char>, EntryView>, key: Seq<char>, now: u128) -> (
    Option<Seq<char>>,
    Map<Seq<char>, EntryView>,
) {
    if !store.contains_key(key) {
        (None, store)
    } else if live(store[key], now) {
        (Some(store[key].value), store)
    } else {
        (None, store.remove(key))
    }
}

/// The text of an optional string.
pub open spec fn text_view(text: Option<String>) -> Option<Seq<char>> {
    match text {
        Some(s) => Some(s@),
        None => None,
    }
}

/// A map from keys to entries, with the clock that its expiry times are
/// measured by.
pub struct Store {
    data: StringHashMap<Entry>,
    origin: tokio::time::Instant,
}

impl View for Store {
    type V = Map<Seq<char>, EntryView>;

    closed spec fn view(&self) -> Map<Seq<char>, EntryView> {
        self.data@.map_values(|entry: Entry| entry@)
    }
}

impl Store {
    /// Makes an empty store and starts its clock.
    pub fn new() -> (store: Store)
        ensures
            store@ == Map::<Seq<char>, EntryView>::empty(),
    {
        let store = Store { data: StringHashMap::new(), origin: read_instant() };
        assert(store@ =~= Map::<Seq<char>, EntryView>::empty());
        store
    }

    /// The time now, in nanoseconds of this store's clock. Nothing is known
    /// of the number ahead of the call.
    pub fn now(&self) -> u128 {
        nanos_since(&self.origin)
    }

    /// Sets `key` to `value` with no expiry, over whatever it held.
    pub fn set(&mut self, key: String, value: String)
        ensures
            final(self)@ == set_spec(old(self)@, key@, value@),
    {
        let entry = Entry { value, expiry: None };
        let ghost held = entry@;
        self.data.insert(key, entry);
        assert(self@ =~= old(self)@.insert(key@, held));
    }

    /// Sets `key` to `value`, to expire `px` milliseconds after `now`, over
    /// whatever it held.
    pub fn set_px_at(&mut self, key: String, value: String, px: u64, now: u128)
        ensures
            final(self)@ == set_px_spec(old(self)@, key@, value@, px, now),
    {
        let ttl: u128 = px as u128 * NANOS_PER_MILLI;
        let expiry: u128 = if now > u128::MAX - ttl {
            u128::MAX
        } else {
            now + ttl
        };
        let entry = Entry { value, expiry: Some(expiry) };
        let ghost held = entry@;
        self.data.insert(key, entry);
        assert(self@ =~= old(self)@.insert(key@, held));
    }

    /// Sets `key` to `value`, to expire `px` milliseconds from now by the
    /// store's clock.
    pub fn set_px(&mut self, key: String, value: String, px: u64)
        ensures
            exists|now: u128|
                final(self)@ == #[trigger] set_px_spec(old(self)@, key@, value@, px, now),
    {
        let now = self.now();
        self.set_px_at(key, value, px, now);
    }

    /// Reads `key` at the time `now`. An entry whose expiry `now` has passed
    /// is removed and reads as missing.
    pub fn get_at(&mut self, key: String, now: u128) -> (value: Option<String>)
        ensures
            (text_view(value), final(self)@) == get_spec(old(self)@, key@, now),
    {
        let found: Option<(String, Option<u128>)> = match self.data.get(key.as_str()) {
            Some(entry) => Some((entry.value.clone(), entry.expiry)),
            None => None,
        };
        match found {
            Some((value, expiry)) => {
                if let Some(expiry) = expiry {
                    if now > expiry {
                        self.data.remove(key.as_str());
                        assert(self@ =~= old(self)@.remove(key@));
                        return None;
                    }
                }
                Some(value)
            },
            None => None,
        }
    }

    /// Reads `key` at the time the store's clock shows.
    pub fn get(&mut self, key: String) -> (value: Option<String>)
        ensures
            exists|now: u128|
                (text_view(value), final(self)@) == #[trigger] get_spec(old(self)@, key@, now),
    {
        let now = self.now();
        self.get_at(key, now)
    }

    /// Removes `key` and what it holds, expired or not.
    pub fn remove(&mut self, key: &String)
        ensures
            final(self)@ == old(self)@.remove(key@),
    {
        self.data.remove(key.as_str());
        assert(self@ =~= old(self)@.remove(key@));
    }

    /// Whether the store holds an entry for `key`, expired or not.
    pub fn contains_key(&self, key: &String) -> (held: bool)
        ensures
            held == self@.contains_key(key@),
    {
        self.data.contains_key(key.as_str())
    }

    /// The number of entries the store holds, expired ones included.
    pub fn len(&self) -> (n: usize)
        ensures
            n == self@.len(),
    {
        proof {
            lemma_view_len(self.data@);
        }
        broadcast use vstd::hash_map::group_hash_map_axioms;
        self.data.len()
    }
}

/// Taking each entry by what it holds keeps the number of entries.
proof fn lemma_view_len(data: Map<Seq<char>, Entry>)
    ensures
        data.map_values(|entry: Entry| entry@).len() == data.len(),
{
    assert(data.map_values(|entry: Entry| entry@).dom() =~= data.dom());
}

/// Expiry: an entry written with a time to live reads as missing once more
/// than that time has passed, and the read removes it, whatever the key, the
/// value and the rest of the store are.
pub proof fn law_expired_entry_is_removed(
    store: Map<Seq<char>, EntryView>,
    key: Seq<char>,
    value: Seq<char>,
    ttl_millis: u64,
    written: u128,
    read: u128,
)
    requires
        read > written + ttl_millis * NANOS_PER_MILLI,
    ensures
        get_spec(set_px_spec(store, key, value, ttl_millis, written), key, read).0
            == None::<Seq<char>>,
        get_spec(set_px_spec(store, key, value, ttl_millis, written), key, read).1 == store.remove(
            key,
        ),
        !get_spec(set_px_spec(store, key, value, ttl_millis, written), key, read).1.contains_key(
            key,
        ),
{
    let held = set_px_spec(store, key, value, ttl_millis, written);
    assert(held.remove(key) =~= store.remove(key));
}

/// An entry written with a time to live reads as its value until that time
/// has passed, and the read leaves the store as it is.
pub proof fn law_live_entry_is_read(
    store: Map<Seq<char>, EntryView>,
    key: Seq<char>,
    value: Seq<char>,
    ttl_millis: u64,
    written: u128,
    read: u128,
)
    requires
        read <= written + ttl_millis * NANOS_PER_MILLI,
    ensures
        get_spec(set_px_spec(store, key, value, ttl_millis, written), key, read) == (
            Some(value),
            set_px_spec(store, key, value, ttl_millis, written),
        ),
{
}

/// An entry written without expiry reads as its value at any time.
pub proof fn law_set_then_get(
    store: Map<Seq<char>, EntryView>,
    key: Seq<char>,
    value: Seq<char>,
    read: u128,
)
    ensures
        get_spec(set_spec(store, key, value), key, read) == (
            Some(value),
            set_spec(store, key, value),
        ),
{
}

/// A read never changes what another key holds, and never adds a key.
pub proof fn law_get_leaves_other_keys(
    store: Map<Seq<char>, EntryView>,
    key: Seq<char>,
    other: Seq<char>,
    read: u128,
)
    requires
        other != key,
    ensures
        get_spec(store, key, read).1.contains_key(other) == store.contains_key(other),
        store.contains_key(other) ==> get_spec(store, key, read).1[other] == store[other],
{
}

} // verus!
