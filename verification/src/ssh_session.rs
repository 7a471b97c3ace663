//! SSH sessions opened by the gateway: connection generations per host,
//! tunnel bookkeeping, remote command safety and the diagnosis of OpenSSH failures.
use vstd::prelude::*;
use crate::redaction::AppError;
use crate::text::{
    append_chars, chars_eq, chars_eq_str, chars_of, contains, decimal, is_ascii_alnum_char, lines,
    parse_u16, parse_u16_exec, split_lines, split_on, split_on_exec, starts_with, str_contains,
    string_from_chars, trim, trim_bounds, trim_chars, u64_to_decimal, char_is_ascii_alnum, owned,
    sub_chars, starts_with_exec,
};

verus! {

// ── Connection generations ────────────────────────────────────────────

/// Latest generation recorded for `host` in a list of (host, generation) entries.
pub open spec fn lookup(entries: Seq<(String, u64)>, host: Seq<char>) -> Option<u64>
    decreases entries.len(),
{
    if entries.len() == 0 {
        None
    } else if entries[0].0@ == host {
        Some(entries[0].1)
    } else {
        lookup(entries.drop_first(), host)
    }
}

/// Per-host counter of SSH connection attempts; only the newest attempt for
/// a host may register its session.
pub struct TunnelRegistry {
    latest_generation: Vec<(String, u64)>,
    entries: Vec<(String, TunnelInfo)>,
}

impl View for TunnelRegistry {
    type V = Map<Seq<char>, u64>;

    closed spec fn view(&self) -> Map<Seq<char>, u64> {
        Map::new(
            |h: Seq<char>| lookup(self.latest_generation@, h) is Some,
            |h: Seq<char>| lookup(self.latest_generation@, h).unwrap(),
        )
    }
}

/// The generation the next attempt for `host` receives, if the counter is not exhausted.
pub open spec fn next_generation(m: Map<Seq<char>, u64>, host: Seq<char>) -> Option<u64> {
    let cur: int = if m.contains_key(host) { m[host] as int } else { 0 };
    if cur < u64::MAX {
        Some((cur + 1) as u64)
    } else {
        None
    }
}

/// `generation` is the newest attempt for `host`.
pub open spec fn is_current_in(m: Map<Seq<char>, u64>, host: Seq<char>, generation: u64) -> bool {
    m.contains_key(host) && m[host] == generation
}

pub(crate) proof fn lemma_lookup_update(entries: Seq<(String, u64)>, i: int, host: Seq<char>, g: u64, h: Seq<char>)
    requires
        0 <= i < entries.len(),
        entries[i].0@ == host,
        forall|j: int| 0 <= j < i ==> entries[j].0@ != host,
    ensures
        lookup(entries, host) == Some(entries[i].1),
        lookup(entries.update(i, (entries[i].0, g)), h) == (if h == host {
            Some(g)
        } else {
            lookup(entries, h)
        }),
    decreases entries.len(),
{
    if i > 0 {
        lemma_lookup_update(entries.drop_first(), i - 1, host, g, h);
        assert(entries.update(i, (entries[i].0, g)).drop_first() =~= entries.drop_first().update(
            i - 1,
            (entries[i].0, g),
        ));
    } else {
        assert(entries.update(0, (entries[0].0, g)).drop_first() =~= entries.drop_first());
    }
}

pub(crate) proof fn lemma_lookup_push(entries: Seq<(String, u64)>, e: (String, u64), h: Seq<char>)
    requires
        lookup(entries, e.0@) is None,
    ensures
        lookup(entries.push(e), h) == (if h == e.0@ {
            Some(e.1)
        } else {
            lookup(entries, h)
        }),
    decreases entries.len(),
{
    if entries.len() > 0 {
        assert(entries.push(e).drop_first() =~= entries.drop_first().push(e));
        lemma_lookup_push(entries.drop_first(), e, h);
    } else {
        assert(entries.push(e).drop_first() =~= entries);
    }
}

pub(crate) proof fn lemma_lookup_none(entries: Seq<(String, u64)>, host: Seq<char>)
    requires
        forall|j: int| 0 <= j < entries.len() ==> entries[j].0@ != host,
    ensures
        lookup(entries, host) is None,
    decreases entries.len(),
{
    if entries.len() > 0 {
        lemma_lookup_none(entries.drop_first(), host);
    }
}

/// Position of the first entry for `host` in a list of (host, value) entries.
pub(crate) fn entry_position(entries: &Vec<(String, u64)>, host: &str) -> (r: Option<usize>)
    ensures
        match r {
            Some(i) => i < entries@.len() && entries@[i as int].0@ == host@ && forall|j: int|
                0 <= j < i ==> entries@[j].0@ != host@,
            None => forall|j: int| 0 <= j < entries@.len() ==> entries@[j].0@ != host@,
        },
{
    let h = chars_of(host);
    let mut i: usize = 0;
    while i < entries.len()
        invariant
            i <= entries@.len(),
            h@ == host@,
            forall|j: int| 0 <= j < i ==> entries@[j].0@ != host@,
        decreases entries.len() - i,
    {
        let k = chars_of(entries[i].0.as_str());
        if chars_eq(k.as_slice(), h.as_slice()) {
            return Some(i);
        }
        i = i + 1;
    }
    None
}

impl TunnelRegistry {
    /// A registry that has seen no attempt.
    pub fn new() -> (r: Self)
        ensures
            r@ == Map::<Seq<char>, u64>::empty(),
            r.sessions().len() == 0,
            r.wf(),
    {
        let r = TunnelRegistry { latest_generation: Vec::new(), entries: Vec::new() };
        assert(r@ =~= Map::<Seq<char>, u64>::empty());
        assert(r.sessions() =~= Seq::<(String, TunnelInfo)>::empty());
        r
    }

    /// Position of the first entry for `host`.
    fn position(&self, host: &str) -> (r: Option<usize>)
        ensures
            match r {
                Some(i) => i < self.latest_generation@.len() && self.latest_generation@[i as int].0@
                    == host@ && forall|j: int| 0 <= j < i ==> self.latest_generation@[j].0@ != host@,
                None => forall|j: int|
                    0 <= j < self.latest_generation@.len() ==> self.latest_generation@[j].0@ != host@,
            },
    {
        entry_position(&self.latest_generation, host)
    }

    /// Latest generation recorded for `host`.
    pub fn latest(&self, host: &str) -> (r: Option<u64>)
        ensures
            r == (if self@.contains_key(host@) { Some(self@[host@]) } else { None::<u64> }),
    {
        match self.position(host) {
            Some(i) => {
                proof {
                    let e = self.latest_generation@;
                    lemma_lookup_update(e, i as int, host@, e[i as int].1, host@);
                }
                Some(self.latest_generation[i].1)
            },
            None => {
                proof {
                    lemma_lookup_none(self.latest_generation@, host@);
                }
                None
            },
        }
    }

    /// Allocates the next generation for `host`; it fences every older attempt.
    pub fn reserve_generation(&mut self, host: &str) -> (r: Result<u64, AppError>)
        ensures
            final(self).sessions() == old(self).sessions(),
            old(self).wf() ==> final(self).wf(),
            match r {
                Ok(g) => next_generation(old(self)@, host@) == Some(g) && final(self)@ == old(
                    self,
                )@.insert(host@, g),
                Err(e) => {
                    &&& next_generation(old(self)@, host@) is None
                    &&& final(self)@ == old(self)@
                    &&& e matches AppError::Internal(m) && m@ == exhausted_message(host@)
                },
            },
    {
        let cur = self.latest(host);
        let c: u64 = match cur {
            Some(x) => x,
            None => 0,
        };
        if c == u64::MAX {
            let mut msg = String::new();
            msg.append("SSH session generation exhausted for ");
            msg.append(host);
            return Err(AppError::Internal(msg));
        }
        let g = c + 1;
        let ghost before = self.latest_generation@;
        match self.position(host) {
            Some(i) => {
                let name = self.latest_generation[i].0.clone();
                proof {
                    assert(name@ == before[i as int].0@);
                }
                self.latest_generation.set(i, (name, g));
                proof {
                    assert forall|h: Seq<char>| #![trigger lookup(self.latest_generation@, h)]
                        lookup(self.latest_generation@, h) == (if h == host@ {
                            Some(g)
                        } else {
                            lookup(before, h)
                        }) by {
                        lemma_lookup_update(before, i as int, host@, g, h);
                        assert(lookup(before.update(i as int, (before[i as int].0, g)), h) == lookup(
                            self.latest_generation@,
                            h,
                        )) by {
                            lemma_lookup_update(before, i as int, host@, g, h);
                            lemma_lookup_eq_name(before, i as int, name, g, h);
                        }
                    }
                    assert(self@ =~= old(self)@.insert(host@, g));
                }
            },
            None => {
                let mut name = String::new();
                name.append(host);
                proof {
                    lemma_lookup_none(before, host@);
                }
                self.latest_generation.push((name, g));
                proof {
                    assert forall|h: Seq<char>| #![trigger lookup(self.latest_generation@, h)]
                        lookup(self.latest_generation@, h) == (if h == host@ {
                            Some(g)
                        } else {
                            lookup(before, h)
                        }) by {
                        lemma_lookup_push(before, (name, g), h);
                    }
                    assert(self@ =~= old(self)@.insert(host@, g));
                }
            },
        }
        Ok(g)
    }

    /// Is `generation` the newest attempt for `host`?
    pub fn is_current(&self, host: &str, generation: u64) -> (r: bool)
        ensures
            r == is_current_in(self@, host@, generation),
    {
        match self.latest(host) {
            Some(x) => x == generation,
            None => false,
        }
    }
}

proof fn lemma_lookup_eq_name(entries: Seq<(String, u64)>, i: int, name: String, g: u64, h: Seq<char>)
    requires
        0 <= i < entries.len(),
        name@ == entries[i].0@,
    ensures
        lookup(entries.update(i, (name, g)), h) == lookup(entries.update(i, (entries[i].0, g)), h),
    decreases entries.len(),
{
    if i > 0 {
        assert(entries.update(i, (name, g)).drop_first() =~= entries.drop_first().update(i - 1, (name, g)));
        assert(entries.update(i, (entries[i].0, g)).drop_first() =~= entries.drop_first().update(
            i - 1,
            (entries[i].0, g),
        ));
        lemma_lookup_eq_name(entries.drop_first(), i - 1, name, g, h);
    } else {
        assert(entries.update(0, (name, g)).drop_first() =~= entries.drop_first());
        assert(entries.update(0, (entries[0].0, g)).drop_first() =~= entries.drop_first());
    }
}

pub open spec fn exhausted_message(host: Seq<char>) -> Seq<char> {
    "SSH session generation exhausted for "@ + host
}

/// A newer attempt fences every older one: after a reservation for `host`
/// the reserved generation is the only current one for `host`, it is one more
/// than the previous one, and no other host is affected.
pub proof fn law_newer_generation_fences_older(m: Map<Seq<char>, u64>, host: Seq<char>, g: u64)
    requires
        next_generation(m, host) == Some(g),
    ensures
        is_current_in(m.insert(host, g), host, g),
        forall|older: u64| older != g ==> !is_current_in(m.insert(host, g), host, older),
        m.contains_key(host) ==> g == m[host] + 1,
        !m.contains_key(host) ==> g == 1,
        forall|other: Seq<char>| other != host ==> (#[trigger] m.insert(host, g).contains_key(other)
            == m.contains_key(other) && (m.contains_key(other) ==> m.insert(host, g)[other]
            == m[other])),
{
}

// ── Tunnels ───────────────────────────────────────────────────────────

#[derive(Debug, Clone, Copy, PartialEq, Eq, Structural)]
pub enum TunnelStatus {
    Ready,
    Disconnected,
}

/// What the gateway reports about one SSH session.
#[derive(Debug, Clone)]
pub struct TunnelInfo {
    pub id: String,
    pub host: String,
    pub local_port: u16,
    pub remote_port: u16,
    pub pid: Option<u32>,
    pub started_at: String,
    pub generation: Option<u64>,
    pub status: TunnelStatus,
    pub disconnected_at: Option<String>,
    pub last_error: Option<String>,
}

/// A session opened by one-click connect (it carries a generation) for `host`;
/// such sessions are replaced by a newer connection, manual tunnels are not.
pub fn managed_session_matches(info: &TunnelInfo, host: &str) -> (r: bool)
    ensures
        r == (info.host@ == host@ && info.generation is Some),
{
    let a = chars_of(info.host.as_str());
    let b = chars_of(host);
    chars_eq(a.as_slice(), b.as_slice()) && info.generation.is_some()
}

/// Ids of the managed sessions of `host` among `entries`, in order.
pub open spec fn managed_ids(entries: Seq<(String, TunnelInfo)>, host: Seq<char>) -> Seq<Seq<char>>
    decreases entries.len(),
{
    if entries.len() == 0 {
        seq![]
    } else {
        let rest = managed_ids(entries.drop_last(), host);
        let last = entries.last();
        if last.1.host@ == host && last.1.generation is Some {
            rest.push(last.0@)
        } else {
            rest
        }
    }
}

/// The sessions that a new managed connection to `host` replaces: every
/// session of `host` that carries a generation, in the order given.
pub fn managed_replacements(entries: &[(String, TunnelInfo)], host: &str) -> (r: Vec<String>)
    ensures
        r@.map_values(|s: String| s@) == managed_ids(entries@, host@),
{
    let mut r: Vec<String> = Vec::new();
    let mut i: usize = 0;
    while i < entries.len()
        invariant
            i <= entries@.len(),
            r@.map_values(|s: String| s@) == managed_ids(entries@.take(i as int), host@),
        decreases entries.len() - i,
    {
        assert(entries@.take(i + 1).drop_last() =~= entries@.take(i as int));
        if managed_session_matches(&entries[i].1, host) {
            let id = entries[i].0.clone();
            r.push(id);
            assert(r@.map_values(|s: String| s@) =~= managed_ids(entries@.take(i + 1), host@));
        }
        i = i + 1;
    }
    assert(entries@.take(entries@.len() as int) =~= entries@);
    r
}

// ── Session table ─────────────────────────────────────────────────────

/// No two sessions share an id.
pub open spec fn ids_unique(es: Seq<(String, TunnelInfo)>) -> bool {
    forall|i: int, j: int| 0 <= i < j < es.len() ==> es[i].0@ != es[j].0@
}

/// A session opened by one-click connect for `host`.
pub open spec fn managed_for(e: (String, TunnelInfo), host: Seq<char>) -> bool {
    e.1.host@ == host && e.1.generation is Some
}

/// The sessions other than the managed ones of `host`, in order.
pub open spec fn without_managed(es: Seq<(String, TunnelInfo)>, host: Seq<char>) -> Seq<(String, TunnelInfo)>
    decreases es.len(),
{
    if es.len() == 0 {
        es
    } else {
        let r = without_managed(es.drop_last(), host);
        if managed_for(es.last(), host) {
            r
        } else {
            r.push(es.last())
        }
    }
}

/// Position of the session with id `id`.
pub open spec fn session_index(es: Seq<(String, TunnelInfo)>, id: Seq<char>) -> Option<int>
    decreases es.len(),
{
    if es.len() == 0 {
        None
    } else {
        match session_index(es.drop_last(), id) {
            Some(i) => Some(i),
            None => if es.last().0@ == id {
                Some(es.len() - 1)
            } else {
                None
            },
        }
    }
}

/// The table after storing `info` under `id`: it replaces a session with
/// the same id, or is added at the end.
pub open spec fn upsert(es: Seq<(String, TunnelInfo)>, id: String, info: TunnelInfo) -> Seq<(String, TunnelInfo)> {
    match session_index(es, id@) {
        Some(i) => es.update(i, (id, info)),
        None => es.push((id, info)),
    }
}

proof fn lemma_session_index(es: Seq<(String, TunnelInfo)>, id: Seq<char>)
    ensures
        match session_index(es, id) {
            Some(i) => 0 <= i < es.len() && es[i].0@ == id && forall|j: int|
                0 <= j < i ==> (#[trigger] es[j]).0@ != id,
            None => forall|j: int| 0 <= j < es.len() ==> (#[trigger] es[j]).0@ != id,
        },
    decreases es.len(),
{
    if es.len() > 0 {
        lemma_session_index(es.drop_last(), id);
        assert forall|j: int| 0 <= j < es.len() - 1 implies es[j] == es.drop_last()[j] by {}
    }
}

proof fn lemma_session_index_is(es: Seq<(String, TunnelInfo)>, id: Seq<char>, k: int)
    requires
        0 <= k <= es.len(),
        forall|j: int| 0 <= j < k ==> (#[trigger] es[j]).0@ != id,
        k < es.len() ==> es[k].0@ == id,
    ensures
        session_index(es, id) == (if k < es.len() { Some(k) } else { None::<int> }),
{
    lemma_session_index(es, id);
    match session_index(es, id) {
        Some(i) => {
            if i < k {
            } else if i > k {
                assert(es[k].0@ == id);
            }
        },
        None => {
            if k < es.len() {
                assert(es[k].0@ == id);
            }
        },
    }
}

/// Every id kept by `without_managed` was an id of the table.
proof fn lemma_without_managed_ids(es: Seq<(String, TunnelInfo)>, host: Seq<char>)
    ensures
        forall|i: int| 0 <= i < without_managed(es, host).len() ==> exists|j: int|
            0 <= j < es.len() && #[trigger] without_managed(es, host)[i] == es[j],
        ids_unique(es) ==> ids_unique(without_managed(es, host)),
        forall|i: int| 0 <= i < without_managed(es, host).len() ==> !managed_for(
            #[trigger] without_managed(es, host)[i],
            host,
        ),
    decreases es.len(),
{
    if es.len() > 0 {
        let init = es.drop_last();
        lemma_without_managed_ids(init, host);
        let r = without_managed(init, host);
        if !managed_for(es.last(), host) {
            let r2 = r.push(es.last());
            assert forall|i: int| 0 <= i < r2.len() implies exists|j: int|
                0 <= j < es.len() && #[trigger] r2[i] == es[j] by {
                if i < r.len() {
                    let j = choose|j: int| 0 <= j < init.len() && r[i] == init[j];
                    assert(r2[i] == es[j]);
                } else {
                    assert(r2[i] == es[es.len() - 1]);
                }
            }
            if ids_unique(es) {
                assert(ids_unique(init)) by {
                    assert forall|a: int, b: int| 0 <= a < b < init.len() implies init[a].0@
                        != init[b].0@ by {
                        assert(init[a] == es[a] && init[b] == es[b]);
                    }
                }
                assert forall|a: int, b: int| 0 <= a < b < r2.len() implies r2[a].0@ != r2[b].0@ by {
                    if b == r.len() {
                        let j = choose|j: int| 0 <= j < init.len() && r[a] == init[j];
                        assert(r2[a] == es[j]);
                        assert(r2[b] == es[es.len() - 1]);
                    } else {
                        assert(r2[a] == r[a] && r2[b] == r[b]);
                    }
                }
            }
            assert forall|i: int| 0 <= i < r2.len() implies !managed_for(#[trigger] r2[i], host) by {
                if i < r.len() {
                    assert(r2[i] == r[i]);
                }
            }
        } else {
            assert forall|i: int| 0 <= i < r.len() implies exists|j: int|
                0 <= j < es.len() && #[trigger] r[i] == es[j] by {
                let j = choose|j: int| 0 <= j < init.len() && r[i] == init[j];
                assert(r[i] == es[j]);
            }
            if ids_unique(es) {
                assert(ids_unique(init)) by {
                    assert forall|a: int, b: int| 0 <= a < b < init.len() implies init[a].0@
                        != init[b].0@ by {
                        assert(init[a] == es[a] && init[b] == es[b]);
                    }
                }
            }
        }
    }
}

proof fn lemma_upsert_unique(es: Seq<(String, TunnelInfo)>, id: String, info: TunnelInfo)
    requires
        ids_unique(es),
    ensures
        ids_unique(upsert(es, id, info)),
{
    lemma_session_index(es, id@);
    let u = upsert(es, id, info);
    match session_index(es, id@) {
        Some(k) => {
            assert forall|a: int, b: int| 0 <= a < b < u.len() implies u[a].0@ != u[b].0@ by {
                if a == k {
                    assert(u[a].0@ == es[k].0@);
                } else if b == k {
                    assert(u[b].0@ == es[k].0@);
                }
            }
        },
        None => {
            assert forall|a: int, b: int| 0 <= a < b < u.len() implies u[a].0@ != u[b].0@ by {
                if b == es.len() {
                    assert(u[a] == es[a]);
                }
            }
        },
    }
}

/// After a managed connection to `host` is committed, it is the only
/// managed session of `host`; every other session (manual tunnels, other
/// hosts) is kept, in order, and ids stay unique.
pub proof fn law_commit_replaces_only_managed_sessions(
    es: Seq<(String, TunnelInfo)>,
    host: Seq<char>,
    id: String,
    info: TunnelInfo,
)
    requires
        ids_unique(es),
        info.host@ == host,
        info.generation is Some,
    ensures
        ({
            let after = upsert(without_managed(es, host), id, info);
            &&& ids_unique(after)
            &&& forall|i: int| 0 <= i < after.len() && managed_for(#[trigger] after[i], host) ==> after[i] == (
                id,
                info,
            )
            &&& exists|i: int| 0 <= i < after.len() && after[i] == (id, info)
            &&& forall|j: int|
                0 <= j < es.len() && !managed_for(#[trigger] es[j], host) && es[j].0@ != id@
                    ==> exists|i: int| 0 <= i < after.len() && after[i] == es[j]
        }),
{
    let kept = without_managed(es, host);
    lemma_without_managed_ids(es, host);
    lemma_upsert_unique(kept, id, info);
    lemma_session_index(kept, id@);
    let after = upsert(kept, id, info);
    match session_index(kept, id@) {
        Some(k) => {
            assert(after[k] == (id, info));
            assert forall|i: int| 0 <= i < after.len() && managed_for(#[trigger] after[i], host)
                implies after[i] == (id, info) by {
                if i != k {
                    assert(after[i] == kept[i]);
                }
            }
        },
        None => {
            assert(after[kept.len() as int] == (id, info));
            assert forall|i: int| 0 <= i < after.len() && managed_for(#[trigger] after[i], host)
                implies after[i] == (id, info) by {
                if i < kept.len() {
                    assert(after[i] == kept[i]);
                }
            }
        },
    }
    assert forall|j: int| 0 <= j < es.len() && !managed_for(#[trigger] es[j], host) && es[j].0@ != id@
        implies exists|i: int| 0 <= i < after.len() && after[i] == es[j] by {
        lemma_kept_contains(es, host, j);
        let i = choose|i: int| 0 <= i < kept.len() && kept[i] == es[j];
        match session_index(kept, id@) {
            Some(k) => {
                assert(i != k);
                assert(after[i] == es[j]);
            },
            None => {
                assert(after[i] == es[j]);
            },
        }
    }
}

proof fn lemma_kept_contains(es: Seq<(String, TunnelInfo)>, host: Seq<char>, j: int)
    requires
        0 <= j < es.len(),
        !managed_for(es[j], host),
    ensures
        exists|i: int| 0 <= i < without_managed(es, host).len() && without_managed(es, host)[i] == es[j],
    decreases es.len(),
{
    let init = es.drop_last();
    let r = without_managed(init, host);
    if j == es.len() - 1 {
        assert(without_managed(es, host)[r.len() as int] == es[j]);
    } else {
        assert(init[j] == es[j]);
        lemma_kept_contains(init, host, j);
        let i = choose|i: int| 0 <= i < r.len() && r[i] == init[j];
        if !managed_for(es.last(), host) {
            assert(without_managed(es, host)[i] == es[j]);
        } else {
            assert(without_managed(es, host)[i] == es[j]);
        }
    }
}

impl TunnelRegistry {
    /// The sessions the registry tracks, with their ids, in insertion order.
    pub closed spec fn sessions(&self) -> Seq<(String, TunnelInfo)> {
        self.entries@
    }

    /// Session ids are unique.
    pub closed spec fn wf(&self) -> bool {
        ids_unique(self.entries@)
    }

    fn session_position(&self, id: &str) -> (r: Option<usize>)
        ensures
            match r {
                Some(i) => session_index(self.sessions(), id@) == Some(i as int) && (i as int)
                    < self.sessions().len(),
                None => session_index(self.sessions(), id@) is None,
            },
    {
        let k = chars_of(id);
        let mut i: usize = 0;
        while i < self.entries.len()
            invariant
                i <= self.entries@.len(),
                k@ == id@,
                forall|j: int| 0 <= j < i ==> (#[trigger] self.entries@[j]).0@ != id@,
            decreases self.entries.len() - i,
        {
            let e = chars_of(self.entries[i].0.as_str());
            if chars_eq(e.as_slice(), k.as_slice()) {
                proof {
                    lemma_session_index_is(self.entries@, id@, i as int);
                }
                return Some(i);
            }
            i = i + 1;
        }
        proof {
            lemma_session_index_is(self.entries@, id@, self.entries@.len() as int);
        }
        None
    }

    /// Tracks a session under `id`, replacing one with the same id.
    pub fn insert_session(&mut self, id: String, info: TunnelInfo)
        ensures
            final(self).sessions() == upsert(old(self).sessions(), id, info),
            final(self)@ == old(self)@,
            old(self).wf() ==> final(self).wf(),
    {
        let ghost before = self.entries@;
        match self.session_position(id.as_str()) {
            Some(i) => {
                self.entries.set(i, (id, info));
            },
            None => {
                self.entries.push((id, info));
            },
        }
        proof {
            if ids_unique(before) {
                lemma_upsert_unique(before, id, info);
            }
        }
    }

    /// Stops tracking the session `id`, handing it back.
    pub fn remove_session(&mut self, id: &str) -> (r: Result<TunnelInfo, AppError>)
        ensures
            final(self)@ == old(self)@,
            old(self).wf() ==> final(self).wf(),
            match session_index(old(self).sessions(), id@) {
                Some(i) => r == Ok::<TunnelInfo, AppError>(old(self).sessions()[i].1)
                    && final(self).sessions() == old(self).sessions().remove(i),
                None => {
                    &&& final(self).sessions() == old(self).sessions()
                    &&& r matches Err(e) && e matches AppError::NotFound(m) && m@ == "tunnel "@ + id@
                        + " not found"@
                },
            },
    {
        match self.session_position(id) {
            Some(i) => {
                let ghost before = self.entries@;
                let (_, info) = self.entries.remove(i);
                proof {
                    if ids_unique(before) {
                        assert forall|a: int, b: int| 0 <= a < b < self.entries@.len() implies
                            self.entries@[a].0@ != self.entries@[b].0@ by {
                            let a0 = if a < i { a } else { a + 1 };
                            let b0 = if b < i { b } else { b + 1 };
                            assert(self.entries@[a] == before[a0]);
                            assert(self.entries@[b] == before[b0]);
                        }
                    }
                }
                Ok(info)
            },
            None => {
                let mut m = String::new();
                m.append("tunnel ");
                m.append(id);
                m.append(" not found");
                Err(AppError::NotFound(m))
            },
        }
    }

    /// Registers a managed session for `host` if its attempt is still the
    /// newest; the managed sessions it replaces are untracked and their ids
    /// returned so their processes can be stopped.
    pub fn commit_managed_session(
        &mut self,
        host: &str,
        generation: u64,
        id: String,
        info: TunnelInfo,
    ) -> (r: Result<Vec<String>, AppError>)
        ensures
            final(self)@ == old(self)@,
            old(self).wf() ==> final(self).wf(),
            is_current_in(old(self)@, host@, generation) ==> (r matches Ok(ids) && ids@.map_values(
                |s: String| s@,
            ) == managed_ids(old(self).sessions(), host@) && final(self).sessions() == upsert(
                without_managed(old(self).sessions(), host@),
                id,
                info,
            )),
            !is_current_in(old(self)@, host@, generation) ==> final(self).sessions() == old(
                self,
            ).sessions(),
            !is_current_in(old(self)@, host@, generation) ==> (r matches Err(e) && e matches AppError::Conflict(m) && m@
                == superseded_message(host@, generation)),
    {
        if !self.is_current(host, generation) {
            return Err(superseded_session_error(host, generation));
        }
        let ids = managed_replacements(self.entries.as_slice(), host);
        let ghost orig = self.entries@;
        let ghost n = orig.len();
        let mut old_entries: Vec<(String, TunnelInfo)> = Vec::new();
        std::mem::swap(&mut old_entries, &mut self.entries);
        assert(orig.take(n as int) =~= orig);
        let mut rev: Vec<(String, TunnelInfo)> = Vec::new();
        while old_entries.len() > 0
            invariant
                n == orig.len(),
                old_entries@.len() <= n,
                old_entries@ == orig.take(old_entries@.len() as int),
                rev@.len() == n - old_entries@.len(),
                forall|j: int| 0 <= j < rev@.len() ==> #[trigger] rev@[j] == orig[n - 1 - j],
            decreases old_entries.len(),
        {
            let ghost m = old_entries@.len();
            let e = old_entries.pop().unwrap();
            assert(e == orig[m - 1]);
            assert(old_entries@ =~= orig.take(old_entries@.len() as int));
            rev.push(e);
        }
        let mut kept: Vec<(String, TunnelInfo)> = Vec::new();
        assert(orig.take(0) =~= Seq::<(String, TunnelInfo)>::empty());
        assert(orig.take(n as int) =~= orig);
        while rev.len() > 0
            invariant
                rev@.len() <= n,
                n == orig.len(),
                forall|j: int| 0 <= j < rev@.len() ==> #[trigger] rev@[j] == orig[n - 1 - j],
                kept@ == without_managed(orig.take(n - rev@.len()), host@),
            decreases rev.len(),
        {
            let ghost k = n - rev@.len();
            let e = rev.pop().unwrap();
            assert(e == orig[k]);
            assert(orig.take(k + 1).drop_last() =~= orig.take(k));
            assert(orig.take(k + 1).last() == orig[k]);
            if !managed_session_matches(&e.1, host) {
                kept.push(e);
            }
        }
        self.entries = kept;
        let ghost before = self.entries@;
        match self.session_position(id.as_str()) {
            Some(i) => {
                self.entries.set(i, (id, info));
            },
            None => {
                self.entries.push((id, info));
            },
        }
        proof {
            if ids_unique(orig) {
                lemma_without_managed_ids(orig, host@);
                lemma_upsert_unique(before, id, info);
            }
        }
        Ok(ids)
    }

    /// Refreshes the status of session `id` from what its processes showed;
    /// returns whether its processes must now be stopped.
    pub fn refresh_session(
        &mut self,
        id: &str,
        tunnel_failure: Option<String>,
        runner_failure: Option<String>,
        now: String,
    ) -> (stop: bool)
        ensures
            final(self)@ == old(self)@,
            old(self).wf() ==> final(self).wf(),
            final(self).sessions().len() == old(self).sessions().len(),
            match session_index(old(self).sessions(), id@) {
                None => !stop && final(self).sessions() == old(self).sessions(),
                Some(i) => {
                    &&& forall|j: int|
                        0 <= j < old(self).sessions().len() && j != i ==> final(self).sessions()[j]
                            == old(self).sessions()[j]
                    &&& final(self).sessions()[i].0 == old(self).sessions()[i].0
                    &&& status_refreshed(
                        old(self).sessions()[i].1,
                        tunnel_failure,
                        runner_failure,
                        now,
                        final(self).sessions()[i].1,
                        stop,
                    )
                },
            },
    {
        match self.session_position(id) {
            None => false,
            Some(i) => {
                let ghost before = self.entries@;
                let ghost tf = tunnel_failure;
                let ghost rf = runner_failure;
                let ghost nw = now;
                let (sid, mut info) = self.entries.remove(i);
                let ghost info0 = info;
                let stop = info.refresh_status(tunnel_failure, runner_failure, now);
                assert(status_refreshed(info0, tf, rf, nw, info, stop));
                self.entries.insert(i, (sid, info));
                proof {
                    assert(self.entries@[i as int] == (sid, info));
                    assert forall|j: int| 0 <= j < before.len() && j != i implies self.entries@[j]
                        == before[j] by {}
                    if ids_unique(before) {
                        assert forall|a: int, b: int| 0 <= a < b < self.entries@.len() implies
                            self.entries@[a].0@ != self.entries@[b].0@ by {
                            assert(self.entries@[a].0 == before[a].0);
                            assert(self.entries@[b].0 == before[b].0);
                        }
                    }
                }
                stop
            },
        }
    }

    /// Ids of the tracked sessions, in order.
    pub fn session_ids(&self) -> (r: Vec<String>)
        ensures
            r@.len() == self.sessions().len(),
            forall|i: int| 0 <= i < r@.len() ==> #[trigger] r@[i]@ == self.sessions()[i].0@,
    {
        let mut r: Vec<String> = Vec::new();
        let mut i: usize = 0;
        while i < self.entries.len()
            invariant
                i <= self.entries@.len(),
                r@.len() == i,
                forall|k: int| 0 <= k < i ==> #[trigger] r@[k]@ == self.entries@[k].0@,
            decreases self.entries.len() - i,
        {
            let mut c = String::new();
            c.append(self.entries[i].0.as_str());
            r.push(c);
            i = i + 1;
        }
        r
    }

    /// The session tracked under `id`, if any.
    pub fn session(&self, id: &str) -> (r: Option<&TunnelInfo>)
        ensures
            match session_index(self.sessions(), id@) {
                Some(i) => r == Some(&self.sessions()[i].1),
                None => r is None,
            },
    {
        match self.session_position(id) {
            Some(i) => Some(&self.entries[i].1),
            None => None,
        }
    }
}

/// How a child process was found when polled.
pub enum ChildPoll {
    Running,
    Exited(String),
    Unavailable(String),
}

/// Why a child of a session stopped, if it did.
pub fn child_failure(poll: &ChildPoll, label: &str) -> (r: Option<String>)
    ensures
        match poll {
            ChildPoll::Running => r is None,
            ChildPoll::Exited(status) => r matches Some(m) && m@ == label@ + " exited with "@
                + status@,
            ChildPoll::Unavailable(error) => r matches Some(m) && m@ == "could not inspect "@
                + label@ + ": "@ + error@,
        },
{
    match poll {
        ChildPoll::Running => None,
        ChildPoll::Exited(status) => {
            let mut m = String::new();
            m.append(label);
            m.append(" exited with ");
            m.append(status.as_str());
            Some(m)
        },
        ChildPoll::Unavailable(error) => {
            let mut m = String::new();
            m.append("could not inspect ");
            m.append(label);
            m.append(": ");
            m.append(error.as_str());
            Some(m)
        },
    }
}

/// `after` is `before` once the first failure seen (the tunnel's, else the
/// runner's) is recorded at `now`, and `stop` says whether it was recorded;
/// a session already disconnected, or with no failure, is left as it is.
pub open spec fn status_refreshed(
    before: TunnelInfo,
    tunnel_failure: Option<String>,
    runner_failure: Option<String>,
    now: String,
    after: TunnelInfo,
    stop: bool,
) -> bool {
    if before.status == TunnelStatus::Disconnected || (tunnel_failure is None && runner_failure is None) {
        !stop && after == before
    } else {
        let error = if tunnel_failure is Some {
            tunnel_failure.unwrap()
        } else {
            runner_failure.unwrap()
        };
        &&& stop
        &&& after.status == TunnelStatus::Disconnected
        &&& after.disconnected_at == Some(now)
        &&& after.last_error == Some(error)
        &&& after.id == before.id
        &&& after.host == before.host
        &&& after.local_port == before.local_port
        &&& after.remote_port == before.remote_port
        &&& after.pid == before.pid
        &&& after.started_at == before.started_at
        &&& after.generation == before.generation
    }
}

impl TunnelInfo {
    /// The record of a session that one-click connect has just opened: ready,
    /// under the generation reserved for `host`, with nothing gone wrong yet.
    pub fn managed(
        id: &str,
        host: &str,
        local_port: u16,
        remote_port: u16,
        pid: Option<u32>,
        started_at: String,
        generation: u64,
    ) -> (r: TunnelInfo)
        ensures
            r.id@ == id@,
            r.host@ == host@,
            r.local_port == local_port,
            r.remote_port == remote_port,
            r.pid == pid,
            r.started_at == started_at,
            r.generation == Some(generation),
            r.status == TunnelStatus::Ready,
            r.disconnected_at is None,
            r.last_error is None,
    {
        TunnelInfo {
            id: owned(id),
            host: owned(host),
            local_port,
            remote_port,
            pid,
            started_at,
            generation: Some(generation),
            status: TunnelStatus::Ready,
            disconnected_at: None,
            last_error: None,
        }
    }

    /// Records the first failure of the tunnel or of its remote runner; a
    /// session already disconnected is left as it is. Returns whether the
    /// children must now be stopped.
    pub fn refresh_status(
        &mut self,
        tunnel_failure: Option<String>,
        runner_failure: Option<String>,
        now: String,
    ) -> (stop: bool)
        ensures
            old(self).status == TunnelStatus::Disconnected ==> !stop && *final(self) == *old(self),
            old(self).status != TunnelStatus::Disconnected ==> match (tunnel_failure, runner_failure) {
                (None, None) => !stop && *final(self) == *old(self),
                _ => {
                    let error = if tunnel_failure is Some {
                        tunnel_failure.unwrap()
                    } else {
                        runner_failure.unwrap()
                    };
                    &&& stop
                    &&& final(self).status == TunnelStatus::Disconnected
                    &&& final(self).disconnected_at == Some(now)
                    &&& final(self).last_error == Some(error)
                    &&& final(self).id == old(self).id
                    &&& final(self).host == old(self).host
                    &&& final(self).local_port == old(self).local_port
                    &&& final(self).remote_port == old(self).remote_port
                    &&& final(self).pid == old(self).pid
                    &&& final(self).started_at == old(self).started_at
                    &&& final(self).generation == old(self).generation
                },
            },
    {
        if self.status == TunnelStatus::Disconnected {
            return false;
        }
        let failure = match tunnel_failure {
            Some(e) => Some(e),
            None => runner_failure,
        };
        match failure {
            Some(error) => {
                self.status = TunnelStatus::Disconnected;
                self.disconnected_at = Some(now);
                self.last_error = Some(error);
                true
            },
            None => false,
        }
    }
}

/// The error answered when a newer attempt for the same host took over.
pub fn superseded_session_error(host: &str, generation: u64) -> (e: AppError)
    ensures
        e matches AppError::Conflict(m) && m@ == superseded_message(host@, generation),
{
    let mut m = String::new();
    m.append("SSH session ");
    m.append(host);
    m.append(" generation ");
    let g = u64_to_decimal(generation);
    m.append(g.as_str());
    m.append(" was superseded by a newer connection attempt");
    AppError::Conflict(m)
}

pub open spec fn superseded_message(host: Seq<char>, generation: u64) -> Seq<char> {
    "SSH session "@ + host + " generation "@ + decimal(generation as nat)
        + " was superseded by a newer connection attempt"@
}

// ── Remote command safety ─────────────────────────────────────────────

pub open spec fn safe_path_char(c: char) -> bool {
    is_ascii_alnum_char(c) || c == '.' || c == '_' || c == '-'
}

/// One component of an absolute executable path: not empty, not `.` or
/// `..`, and only ASCII letters, digits, `.`, `_` or `-`.
pub open spec fn safe_segment(seg: Seq<char>) -> bool {
    &&& seg.len() > 0
    &&& seg != "."@
    &&& seg != ".."@
    &&& forall|i: int| 0 <= i < seg.len() ==> safe_path_char(#[trigger] seg[i])
}

/// `choruz-server` on `$PATH`, or an absolute path made of safe components;
/// nothing a remote shell would interpret.
pub open spec fn safe_remote_binary(v: Seq<char>) -> bool {
    v == "choruz-server"@ || (v.len() > 0 && v[0] == '/' && forall|k: int|
        1 <= k < split_on(v, '/').len() ==> safe_segment(#[trigger] split_on(v, '/')[k]))
}

fn safe_segment_exec(seg: &[char]) -> (r: bool)
    ensures
        r == safe_segment(seg@),
{
    if seg.len() == 0 || chars_eq_str(seg, ".") || chars_eq_str(seg, "..") {
        return false;
    }
    let mut i: usize = 0;
    while i < seg.len()
        invariant
            i <= seg.len(),
            forall|j: int| 0 <= j < i ==> safe_path_char(#[trigger] seg@[j]),
        decreases seg.len() - i,
    {
        let c = seg[i];
        if !(char_is_ascii_alnum(c) || c == '.' || c == '_' || c == '-') {
            return false;
        }
        i = i + 1;
    }
    true
}

/// Is `value` safe to run as the remote Choruz server command?
pub fn is_safe_remote_binary(value: &str) -> (r: bool)
    ensures
        r == safe_remote_binary(value@),
{
    let v = chars_of(value);
    if chars_eq_str(v.as_slice(), "choruz-server") {
        return true;
    }
    if v.len() == 0 || v[0] != '/' {
        return false;
    }
    let segs = split_on_exec(v.as_slice(), '/');
    let mut k: usize = 1;
    while k < segs.len()
        invariant
            1 <= k <= segs@.len() || segs@.len() == 0,
            v@ == value@,
            v@ != "choruz-server"@,
            v@.len() > 0 && v@[0] == '/',
            segs@.len() == split_on(v@, '/').len(),
            forall|j: int| 0 <= j < segs@.len() ==> #[trigger] segs@[j]@ == split_on(v@, '/')[j],
            forall|j: int| 1 <= j < k ==> safe_segment(#[trigger] split_on(v@, '/')[j]),
        decreases segs.len() - k,
    {
        if !safe_segment_exec(segs[k].as_slice()) {
            assert(!safe_segment(split_on(v@, '/')[k as int]));
            return false;
        }
        k = k + 1;
    }
    true
}

// ── OpenSSH failures ──────────────────────────────────────────────────

#[derive(Debug, Clone, Copy, PartialEq, Eq, Structural)]
pub enum SshFailureKind {
    HostKeyChanged,
    RemoteCommandConflict,
    Authentication,
    Resolution,
    Connectivity,
    Unknown,
}

/// What OpenSSH's diagnostics say went wrong; a changed host key outranks everything.
pub open spec fn failure_kind(s: Seq<char>) -> SshFailureKind {
    if contains(s, "REMOTE HOST IDENTIFICATION HAS CHANGED"@) {
        SshFailureKind::HostKeyChanged
    } else if contains(s, "Cannot execute command-line and remote command"@) {
        SshFailureKind::RemoteCommandConflict
    } else if contains(s, "Permission denied"@) || contains(s, "Too many authentication failures"@) {
        SshFailureKind::Authentication
    } else if contains(s, "Could not resolve hostname"@) {
        SshFailureKind::Resolution
    } else if contains(s, "Connection timed out"@) || contains(s, "Connection refused"@) || contains(
        s,
        "No route to host"@,
    ) {
        SshFailureKind::Connectivity
    } else {
        SshFailureKind::Unknown
    }
}

/// Classifies OpenSSH's standard error output.
pub fn classify_ssh_failure(stderr: &str) -> (k: SshFailureKind)
    ensures
        k == failure_kind(stderr@),
{
    if str_contains(stderr, "REMOTE HOST IDENTIFICATION HAS CHANGED") {
        SshFailureKind::HostKeyChanged
    } else if str_contains(stderr, "Cannot execute command-line and remote command") {
        SshFailureKind::RemoteCommandConflict
    } else if str_contains(stderr, "Permission denied") || str_contains(
        stderr,
        "Too many authentication failures",
    ) {
        SshFailureKind::Authentication
    } else if str_contains(stderr, "Could not resolve hostname") {
        SshFailureKind::Resolution
    } else if str_contains(stderr, "Connection timed out") || str_contains(
        stderr,
        "Connection refused",
    ) || str_contains(stderr, "No route to host") {
        SshFailureKind::Connectivity
    } else {
        SshFailureKind::Unknown
    }
}

/// Does OpenSSH's output match a failure the gateway can explain?
pub fn is_known_ssh_failure(stderr: &str) -> (r: bool)
    ensures
        r == (failure_kind(stderr@) != SshFailureKind::Unknown),
{
    let k = classify_ssh_failure(stderr);
    k != SshFailureKind::Unknown
}

/// The first non-blank line, trimmed.
pub open spec fn first_nonblank(ls: Seq<Seq<char>>) -> Option<Seq<char>>
    decreases ls.len(),
{
    if ls.len() == 0 {
        None
    } else if trim(ls[0]).len() > 0 {
        Some(trim(ls[0]))
    } else {
        first_nonblank(ls.drop_first())
    }
}

/// The first informative line of OpenSSH's output, or a placeholder.
pub open spec fn failure_detail(stderr: Seq<char>) -> Seq<char> {
    match first_nonblank(lines(stderr)) {
        Some(l) => l,
        None => "SSH exited without an error message"@,
    }
}

pub open spec fn failure_message(host: Seq<char>, action: Seq<char>, stderr: Seq<char>) -> Seq<char> {
    let detail = failure_detail(stderr);
    match failure_kind(stderr) {
        SshFailureKind::HostKeyChanged => "SSH host key for "@ + host
            + " changed. Verify the server identity and repair known_hosts before retrying; Choruz will not bypass this security check."@,
        SshFailureKind::RemoteCommandConflict => "SSH config for "@ + host
            + " defines RemoteCommand and it conflicted with the Choruz command ("@ + action + ")."@,
        SshFailureKind::Authentication => "SSH authentication failed for "@ + host + " while "@
            + action + ": "@ + detail,
        SshFailureKind::Resolution => "SSH could not resolve "@ + host + " while "@ + action + ": "@
            + detail,
        SshFailureKind::Connectivity => "SSH could not reach "@ + host + " while "@ + action + ": "@
            + detail,
        SshFailureKind::Unknown => "SSH failed for "@ + host + " while "@ + action + ": "@ + detail,
    }
}

fn first_nonblank_exec(ls: &Vec<Vec<char>>, Ghost(lv): Ghost<Seq<Seq<char>>>) -> (r: Option<Vec<char>>)
    requires
        ls@.len() == lv.len(),
        forall|k: int| 0 <= k < ls@.len() ==> #[trigger] ls@[k]@ == lv[k],
    ensures
        match r {
            Some(l) => first_nonblank(lv) == Some(l@),
            None => first_nonblank(lv) is None,
        },
{
    let mut i: usize = 0;
    assert(lv.skip(0) =~= lv);
    while i < ls.len()
        invariant
            i <= ls@.len(),
            ls@.len() == lv.len(),
            forall|k: int| 0 <= k < ls@.len() ==> #[trigger] ls@[k]@ == lv[k],
            first_nonblank(lv) == first_nonblank(lv.skip(i as int)),
        decreases ls.len() - i,
    {
        assert(lv.skip(i as int)[0] == lv[i as int]);
        assert(lv.skip(i as int).drop_first() =~= lv.skip(i + 1));
        let t = trim_chars(ls[i].as_slice());
        if t.len() > 0 {
            return Some(t);
        }
        i = i + 1;
    }
    assert(lv.skip(i as int) =~= Seq::<Seq<char>>::empty());
    None
}

/// A user-facing explanation of an OpenSSH failure while performing `action` on `host`.
pub fn describe_ssh_failure(host: &str, action: &str, stderr: &str) -> (r: String)
    ensures
        r@ == failure_message(host@, action@, stderr@),
{
    let v = chars_of(stderr);
    let ls = split_lines(v.as_slice());
    let detail = match first_nonblank_exec(&ls, Ghost(lines(stderr@))) {
        Some(l) => string_from_chars(l.as_slice()),
        None => {
            let mut d = String::new();
            d.append("SSH exited without an error message");
            d
        },
    };
    let mut m = String::new();
    match classify_ssh_failure(stderr) {
        SshFailureKind::HostKeyChanged => {
            m.append("SSH host key for ");
            m.append(host);
            m.append(
                " changed. Verify the server identity and repair known_hosts before retrying; Choruz will not bypass this security check.",
            );
        },
        SshFailureKind::RemoteCommandConflict => {
            m.append("SSH config for ");
            m.append(host);
            m.append(" defines RemoteCommand and it conflicted with the Choruz command (");
            m.append(action);
            m.append(").");
        },
        SshFailureKind::Authentication => {
            m.append("SSH authentication failed for ");
            m.append(host);
            m.append(" while ");
            m.append(action);
            m.append(": ");
            m.append(detail.as_str());
        },
        SshFailureKind::Resolution => {
            m.append("SSH could not resolve ");
            m.append(host);
            m.append(" while ");
            m.append(action);
            m.append(": ");
            m.append(detail.as_str());
        },
        SshFailureKind::Connectivity => {
            m.append("SSH could not reach ");
            m.append(host);
            m.append(" while ");
            m.append(action);
            m.append(": ");
            m.append(detail.as_str());
        },
        SshFailureKind::Unknown => {
            m.append("SSH failed for ");
            m.append(host);
            m.append(" while ");
            m.append(action);
            m.append(": ");
            m.append(detail.as_str());
        },
    }
    m
}


/// OpenSSH output that says the host could not be reached (`Connection
/// timed out`, `Connection refused` or `No route to host`), and carries no
/// higher-ranked diagnostic (a changed host key, a RemoteCommand conflict,
/// an authentication or a name-resolution failure), is a connectivity
/// failure: it counts as known and is explained as "SSH could not reach
/// <host> while <action>: ...".
pub proof fn law_unreachable_hosts_are_connectivity_failures(stderr: Seq<char>, host: Seq<char>, action: Seq<char>)
    requires
        contains(stderr, "Connection timed out"@) || contains(stderr, "Connection refused"@) || contains(
            stderr,
            "No route to host"@,
        ),
        !contains(stderr, "REMOTE HOST IDENTIFICATION HAS CHANGED"@),
        !contains(stderr, "Cannot execute command-line and remote command"@),
        !contains(stderr, "Permission denied"@),
        !contains(stderr, "Too many authentication failures"@),
        !contains(stderr, "Could not resolve hostname"@),
    ensures
        failure_kind(stderr) == SshFailureKind::Connectivity,
        failure_kind(stderr) != SshFailureKind::Unknown,
        failure_message(host, action, stderr) == "SSH could not reach "@ + host + " while "@ + action + ": "@
            + failure_detail(stderr),
{
}

/// How OpenSSH's diagnostics rank: a changed host key outranks everything,
/// then a RemoteCommand conflict, then an authentication failure, then a
/// name that does not resolve; output with none of the known diagnostics
/// is unknown.
pub proof fn law_ssh_diagnostics_rank(stderr: Seq<char>)
    ensures
        contains(stderr, "REMOTE HOST IDENTIFICATION HAS CHANGED"@) ==> failure_kind(stderr)
            == SshFailureKind::HostKeyChanged,
        !contains(stderr, "REMOTE HOST IDENTIFICATION HAS CHANGED"@) && contains(
            stderr,
            "Cannot execute command-line and remote command"@,
        ) ==> failure_kind(stderr) == SshFailureKind::RemoteCommandConflict,
        !contains(stderr, "REMOTE HOST IDENTIFICATION HAS CHANGED"@) && !contains(
            stderr,
            "Cannot execute command-line and remote command"@,
        ) && (contains(stderr, "Permission denied"@) || contains(stderr, "Too many authentication failures"@))
            ==> failure_kind(stderr) == SshFailureKind::Authentication,
        !contains(stderr, "REMOTE HOST IDENTIFICATION HAS CHANGED"@) && !contains(
            stderr,
            "Cannot execute command-line and remote command"@,
        ) && !contains(stderr, "Permission denied"@) && !contains(stderr, "Too many authentication failures"@)
            && contains(stderr, "Could not resolve hostname"@) ==> failure_kind(stderr)
            == SshFailureKind::Resolution,
        failure_kind(stderr) == SshFailureKind::Unknown <==> !contains(
            stderr,
            "REMOTE HOST IDENTIFICATION HAS CHANGED"@,
        ) && !contains(stderr, "Cannot execute command-line and remote command"@) && !contains(
            stderr,
            "Permission denied"@,
        ) && !contains(stderr, "Too many authentication failures"@) && !contains(
            stderr,
            "Could not resolve hostname"@,
        ) && !contains(stderr, "Connection timed out"@) && !contains(stderr, "Connection refused"@)
            && !contains(stderr, "No route to host"@),
{
}
} // verus!
