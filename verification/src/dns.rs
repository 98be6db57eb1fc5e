//! The DNS resolver cache.
//!
//! Some origins intermittently answer from stale records; the proxy
//! pins its upstream connections to a resolved address and, on retry,
//! forces a fresh resolution. The cache itself is verified; the OS
//! lookup happens in the shell, which stores every fresh answer here.

use vstd::pervasive::VecAdditionalExecFns;
use vstd::prelude::*;

verus! {

/// A cached resolution stays usable this many seconds.
pub const DNS_TTL_SECS: u64 = 300;

/// One cached resolution: an IPv4 address as its four bytes packed
/// big-endian into a `u32`, and the moment it was acquired.
pub struct DnsEntry {
    pub host: String,
    pub ip: u32,
    pub acquired_at: u64,
}

/// The cache, newest entry first; the first entry for a host is the
/// one that counts.
pub struct DnsCache {
    pub entries: Vec<DnsEntry>,
}

/// The first entry for a host, if any.
pub open spec fn entry_for(entries: Seq<DnsEntry>, host: Seq<char>) -> Option<(u32, u64)>
    decreases entries.len(),
{
    if entries.len() == 0 {
        None
    } else if entries[0].host@ == host {
        Some((entries[0].ip, entries[0].acquired_at))
    } else {
        entry_for(entries.drop_first(), host)
    }
}

/// Whether a resolution acquired at `acquired_at` is still usable at
/// `now`.
pub open spec fn fresh(acquired_at: u64, now: u64) -> bool {
    acquired_at <= now <= acquired_at + DNS_TTL_SECS
}

/// What the cache answers for a host at time `now`: the stored address
/// while it is fresh, nothing otherwise, and nothing at all when a
/// forced refresh is asked for.
pub open spec fn cached_spec(
    entries: Seq<DnsEntry>,
    host: Seq<char>,
    now: u64,
    force_refresh: bool,
) -> Option<u32> {
    if force_refresh {
        None
    } else {
        match entry_for(entries, host) {
            Some((ip, acquired_at)) => if fresh(acquired_at, now) {
                Some(ip)
            } else {
                None
            },
            None => None,
        }
    }
}

impl DnsCache {
    /// An empty cache.
    pub fn new() -> (r: DnsCache)
        ensures
            r.entries@.len() == 0,
    {
        DnsCache { entries: Vec::new() }
    }

    /// The cached address for a host, unless it is missing, expired,
    /// or a fresh resolution was demanded.
    pub fn cached(&self, host: &String, now: u64, force_refresh: bool) -> (r: Option<u32>)
        ensures
            r == cached_spec(self.entries@, host@, now, force_refresh),
    {
        if force_refresh {
            return None;
        }
        proof {
            assert(self.entries@.subrange(0, self.entries@.len() as int) =~= self.entries@);
        }
        let mut i: usize = 0;
        while i < self.entries.len()
            invariant
                !force_refresh,
                0 <= i <= self.entries@.len(),
                entry_for(self.entries@, host@) == entry_for(
                    self.entries@.subrange(i as int, self.entries@.len() as int),
                    host@,
                ),
            decreases self.entries.len() - i,
        {
            proof {
                let tail = self.entries@.subrange(i as int, self.entries@.len() as int);
                assert(tail[0] == self.entries@[i as int]);
                assert(tail.drop_first() =~= self.entries@.subrange(
                    i + 1 as int,
                    self.entries@.len() as int,
                ));
            }
            if self.entries[i].host == *host {
                let acquired = self.entries[i].acquired_at;
                if acquired <= now && now - acquired <= DNS_TTL_SECS {
                    return Some(self.entries[i].ip);
                }
                return None;
            }
            i = i + 1;
        }
        proof {
            assert(self.entries@.subrange(
                self.entries@.len() as int,
                self.entries@.len() as int,
            ) =~= Seq::<DnsEntry>::empty());
        }
        None
    }

    /// Stores a fresh resolution: afterwards the host maps to exactly
    /// this address and moment, and every other host is untouched. A
    /// host already present has its entry replaced in place, so the
    /// cache never grows beyond the set of hosts ever resolved.
    pub fn store(&mut self, host: String, ip: u32, now: u64)
        ensures
            entry_for(final(self).entries@, host@) == Some((ip, now)),
            forall|h: Seq<char>|
                h != host@ ==> #[trigger] entry_for(final(self).entries@, h) == entry_for(
                    old(self).entries@,
                    h,
                ),
            final(self).entries@.len() <= old(self).entries@.len() + 1,
    {
        let ghost old_entries = self.entries@;
        let mut i: usize = 0;
        while i < self.entries.len()
            invariant
                old_entries == old(self).entries@,
                self.entries@ == old_entries,
                0 <= i <= old_entries.len(),
                forall|k: int| 0 <= k < i ==> (#[trigger] old_entries[k]).host@ != host@,
            decreases self.entries.len() - i,
        {
            if self.entries[i].host == host {
                let entry = DnsEntry { host, ip, acquired_at: now };
                self.entries.set(i, entry);
                proof {
                    lemma_entry_for_first(self.entries@, host@, i as int);
                    assert forall|h: Seq<char>| h != host@ implies #[trigger] entry_for(
                        self.entries@,
                        h,
                    ) == entry_for(old_entries, h) by {
                        lemma_entry_for_update_other(
                            old_entries,
                            i as int,
                            self.entries@[i as int],
                            h,
                        );
                    }
                }
                return;
            }
            i = i + 1;
        }
        let entry = DnsEntry { host, ip, acquired_at: now };
        self.entries.push(entry);
        proof {
            lemma_entry_for_absent(old_entries, host@);
            assert forall|h: Seq<char>| true implies #[trigger] entry_for(self.entries@, h)
                == (match entry_for(old_entries, h) {
                Some(v) => Some(v),
                None => if host@ == h {
                    Some((ip, now))
                } else {
                    None
                },
            }) by {
                lemma_entry_for_push(old_entries, self.entries@.last(), h);
                assert(self.entries@ =~= old_entries.push(self.entries@.last()));
            }
        }
    }
}

/// The first entry for a host is the one at `idx` when nothing before
/// it names that host.
proof fn lemma_entry_for_first(entries: Seq<DnsEntry>, host: Seq<char>, idx: int)
    requires
        0 <= idx < entries.len(),
        entries[idx].host@ == host,
        forall|k: int| 0 <= k < idx ==> (#[trigger] entries[k]).host@ != host,
    ensures
        entry_for(entries, host) == Some((entries[idx].ip, entries[idx].acquired_at)),
    decreases idx,
{
    if idx > 0 {
        assert(entries.drop_first()[idx - 1] == entries[idx]);
        assert forall|k: int| 0 <= k < idx - 1 implies (#[trigger] entries.drop_first()[k]).host@
            != host by {
            assert(entries.drop_first()[k] == entries[k + 1]);
        }
        lemma_entry_for_first(entries.drop_first(), host, idx - 1);
    }
}

/// Replacing an entry in place, by another of the same host, leaves
/// every other host's answer alone.
proof fn lemma_entry_for_update_other(entries: Seq<DnsEntry>, idx: int, e: DnsEntry, h: Seq<char>)
    requires
        0 <= idx < entries.len(),
        entries[idx].host@ == e.host@,
        h != e.host@,
    ensures
        entry_for(entries.update(idx, e), h) == entry_for(entries, h),
    decreases entries.len(),
{
    let updated = entries.update(idx, e);
    if idx == 0 {
        assert(updated.drop_first() =~= entries.drop_first());
    } else {
        assert(updated[0] == entries[0]);
        if entries[0].host@ == h {
        } else {
            assert(updated.drop_first() =~= entries.drop_first().update(idx - 1, e));
            lemma_entry_for_update_other(entries.drop_first(), idx - 1, e, h);
        }
    }
}

/// A host named by no entry has no answer.
proof fn lemma_entry_for_absent(entries: Seq<DnsEntry>, h: Seq<char>)
    requires
        forall|k: int| 0 <= k < entries.len() ==> (#[trigger] entries[k]).host@ != h,
    ensures
        entry_for(entries, h) is None,
    decreases entries.len(),
{
    if entries.len() > 0 {
        assert forall|k: int| 0 <= k < entries.drop_first().len() implies (
        #[trigger] entries.drop_first()[k]).host@ != h by {
            assert(entries.drop_first()[k] == entries[k + 1]);
        }
        lemma_entry_for_absent(entries.drop_first(), h);
    }
}

/// Appending an entry answers only the hosts that had no answer yet.
proof fn lemma_entry_for_push(entries: Seq<DnsEntry>, e: DnsEntry, h: Seq<char>)
    ensures
        entry_for(entries.push(e), h) == (match entry_for(entries, h) {
            Some(v) => Some(v),
            None => if e.host@ == h {
                Some((e.ip, e.acquired_at))
            } else {
                None
            },
        }),
    decreases entries.len(),
{
    let pushed = entries.push(e);
    if entries.len() == 0 {
        assert(pushed[0] == e);
        assert(pushed.drop_first() =~= Seq::<DnsEntry>::empty());
    } else {
        assert(pushed[0] == entries[0]);
        if entries[0].host@ == h {
        } else {
            assert(pushed.drop_first() =~= entries.drop_first().push(e));
            lemma_entry_for_push(entries.drop_first(), e, h);
        }
    }
}

} // verus!
