//! Server-side state that is plain data: the cache of resolved client
//! names, and the message view sent to clients.
use vstd::prelude::*;
use crate::text;
use std::collections::HashMap;
use crate::avatar;
use crate::avatar::avatar_url;
use crate::identity;
use crate::identity::display_name;
use crate::models::{Message, MessageDto};
use crate::text::{push_str, string_from};

verus! {

broadcast use vstd::std_specs::hash::group_hash_axioms;

/// How long a resolved client name stays valid, in milliseconds (10 minutes).
pub const IDENTITY_CACHE_TTL_MS: u64 = 600_000;

/// A client address as a cache key.
#[derive(Clone, Copy, Debug, PartialEq, Eq, Structural)]
pub enum IpKey {
    V4(u32),
    V6(u128),
}

/// Whether an entry stored at `at` is still valid at `now` (a clock that is
/// earlier than the entry counts as no time elapsed).
pub open spec fn is_fresh(at: u64, now: u64) -> bool {
    if now >= at {
        now - at < IDENTITY_CACHE_TTL_MS
    } else {
        true
    }
}

/// The name a lookup gives for an entry at `now`.
pub open spec fn cached_name(entry: Option<(Seq<char>, u64)>, now: u64) -> Option<Seq<char>> {
    match entry {
        Some((name, at)) => if is_fresh(at, now) {
            Some(name)
        } else {
            None
        },
        None => None,
    }
}

/// Resolved client names, with the time each was resolved. Reverse lookups
/// can take about a second for devices that do not answer, so results —
/// positive or negative — are kept for ten minutes.
pub struct IdentityCache {
    v4: HashMap<u32, (String, u64)>,
    v6: HashMap<u128, (String, u64)>,
}

pub open spec fn entry_view(e: (String, u64)) -> (Seq<char>, u64) {
    (e.0@, e.1)
}

impl IdentityCache {
    /// The entry stored for `key`.
    pub closed spec fn entry(&self, key: IpKey) -> Option<(Seq<char>, u64)> {
        match key {
            IpKey::V4(a) => if self.v4@.contains_key(a) {
                Some(entry_view(self.v4@[a]))
            } else {
                None
            },
            IpKey::V6(b) => if self.v6@.contains_key(b) {
                Some(entry_view(self.v6@[b]))
            } else {
                None
            },
        }
    }

    /// An empty cache.
    pub fn new() -> (c: Self)
        ensures
            forall|k: IpKey| c.entry(k) is None,
    {
        IdentityCache { v4: HashMap::new(), v6: HashMap::new() }
    }

    /// The name stored for `key` if it was resolved less than ten minutes
    /// before `now`.
    pub fn lookup(&self, key: IpKey, now: u64) -> (r: Option<String>)
        ensures
            text::opt_view(r) == cached_name(self.entry(key), now),
    {
        let found = match key {
            IpKey::V4(a) => self.v4.get(&a),
            IpKey::V6(b) => self.v6.get(&b),
        };
        match found {
            Some(e) => {
                let fresh = if now >= e.1 {
                    now - e.1 < IDENTITY_CACHE_TTL_MS
                } else {
                    true
                };
                if fresh {
                    Some(e.0.clone())
                } else {
                    None
                }
            },
            None => None,
        }
    }

    /// Records `name` as resolved for `key` at `now`; other entries stay.
    pub fn store(&mut self, key: IpKey, name: &str, now: u64)
        ensures
            final(self).entry(key) == Some((name@, now)),
            forall|k: IpKey| k != key ==> final(self).entry(k) == old(self).entry(k),
    {
        match key {
            IpKey::V4(a) => {
                self.v4.insert(a, (string_from(name), now));
            },
            IpKey::V6(b) => {
                self.v6.insert(b, (string_from(name), now));
            },
        }
    }
}

/// A name stored at `at` is given back by every lookup made less than ten
/// minutes (600000 ms) later.
pub proof fn lemma_lookup_after_store(name: Seq<char>, at: u64, now: u64)
    requires
        at <= now,
        now - at < 600_000,
    ensures
        cached_name(Some((name, at)), now) == Some(name),
{
}

/// A name stored at `at` is no longer given back ten minutes (600000 ms)
/// or more later.
pub proof fn lemma_lookup_expires(name: Seq<char>, at: u64, now: u64)
    requires
        at <= now,
        now - at >= 600_000,
    ensures
        cached_name(Some((name, at)), now) is None,
{
}

/// Where a stored file is served: `/files/<name>`.
pub open spec fn file_url_of(filename: Option<String>) -> Option<Seq<char>> {
    match filename {
        Some(f) => Some("/files/"@ + f@),
        None => None,
    }
}

fn clone_opt(o: &Option<String>) -> (r: Option<String>)
    ensures
        r == *o,
{
    match o {
        Some(s) => Some(s.clone()),
        None => None,
    }
}

/// The view of a message sent to clients; `size` is the size of its stored
/// file, when it has one that could be read.
pub fn message_dto(m: &Message, size: Option<u64>) -> (d: MessageDto)
    ensures
        d.id == m.id,
        d.sender@ == identity::display_text(m.hostname@, m.ip@),
        d.hostname == m.hostname,
        d.ip == m.ip,
        d.avatar_url@ == avatar::avatar_url_text(m.hostname@, m.ip@),
        d.kind == m.kind,
        d.content == m.content,
        text::opt_view(d.file_url) == file_url_of(m.filename),
        d.orig_name == m.orig_name,
        d.size == size,
        d.created_at == m.created_at,
        d.recalled == m.recalled,
{
    let file_url = match &m.filename {
        Some(f) => {
            let mut u = string_from("/files/");
            push_str(&mut u, f.as_str());
            Some(u)
        },
        None => None,
    };
    MessageDto {
        id: m.id,
        sender: display_name(m.hostname.as_str(), m.ip.as_str()),
        hostname: m.hostname.clone(),
        ip: m.ip.clone(),
        avatar_url: avatar_url(m.hostname.as_str(), m.ip.as_str()),
        kind: m.kind,
        content: clone_opt(&m.content),
        file_url,
        orig_name: clone_opt(&m.orig_name),
        size,
        created_at: m.created_at,
        recalled: m.recalled,
    }
}

} // verus!
