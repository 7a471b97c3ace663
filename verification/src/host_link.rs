//! The controller side of the host link: which connected link answers for
//! each runtime host, and how a device's first frame is admitted.
use vstd::prelude::*;
use crate::redaction::AppError;
use crate::ssh_session::{entry_position, lemma_lookup_none, lemma_lookup_push, lemma_lookup_update, lookup};
use crate::text::{chars_eq, chars_of, owned};

verus! {

/// Host ids are listed at most once.
pub open spec fn hosts_unique(links: Seq<(String, u64)>) -> bool {
    forall|i: int, j: int| 0 <= i < j < links.len() ==> links[i].0@ != links[j].0@
}

/// The link that answers for each connected host. Links are named by a
/// number the caller gives each connection.
pub struct LinkRegistry {
    links: Vec<(String, u64)>,
}

impl View for LinkRegistry {
    type V = Map<Seq<char>, u64>;

    closed spec fn view(&self) -> Map<Seq<char>, u64> {
        Map::new(|h: Seq<char>| lookup(self.links@, h) is Some, |h: Seq<char>| lookup(self.links@, h).unwrap())
    }
}

/// The links after `link` connects for `host`: it replaces any earlier one.
pub open spec fn registered(m: Map<Seq<char>, u64>, host: Seq<char>, link: u64) -> Map<Seq<char>, u64> {
    m.insert(host, link)
}

/// The links after `link` of `host` goes away: `host` is dropped only if
/// `link` is still the one answering for it.
pub open spec fn unregistered(m: Map<Seq<char>, u64>, host: Seq<char>, link: u64) -> Map<Seq<char>, u64> {
    if m.contains_key(host) && m[host] == link {
        m.remove(host)
    } else {
        m
    }
}

proof fn lemma_lookup_remove(links: Seq<(String, u64)>, i: int, h: Seq<char>)
    requires
        hosts_unique(links),
        0 <= i < links.len(),
    ensures
        lookup(links.remove(i), h) == (if h == links[i].0@ {
            None
        } else {
            lookup(links, h)
        }),
    decreases links.len(),
{
    if i == 0 {
        assert(links.remove(0) =~= links.drop_first());
        if h == links[0].0@ {
            assert forall|j: int| 0 <= j < links.drop_first().len() implies links.drop_first()[j].0@
                != h by {
                assert(links.drop_first()[j] == links[j + 1]);
            }
            lemma_lookup_none(links.drop_first(), h);
        }
    } else {
        let t = links.drop_first();
        assert(hosts_unique(t)) by {
            assert forall|a: int, b: int| 0 <= a < b < t.len() implies t[a].0@ != t[b].0@ by {
                assert(t[a] == links[a + 1] && t[b] == links[b + 1]);
            }
        }
        lemma_lookup_remove(t, i - 1, h);
        assert(links.remove(i).drop_first() =~= t.remove(i - 1));
        assert(links.remove(i)[0] == links[0]);
        assert(t[i - 1] == links[i]);
    }
}

impl LinkRegistry {
    /// Host ids are listed at most once.
    pub closed spec fn wf(&self) -> bool {
        hosts_unique(self.links@)
    }

    /// No host connected.
    pub fn new() -> (r: Self)
        ensures
            r.wf(),
            r@ == Map::<Seq<char>, u64>::empty(),
    {
        let r = LinkRegistry { links: Vec::new() };
        assert(r@ =~= Map::<Seq<char>, u64>::empty());
        r
    }

    /// The link answering for `host`.
    pub fn get(&self, host: &str) -> (r: Option<u64>)
        ensures
            r == (if self@.contains_key(host@) { Some(self@[host@]) } else { None::<u64> }),
    {
        match entry_position(&self.links, host) {
            Some(i) => {
                proof {
                    let e = self.links@;
                    lemma_lookup_update(e, i as int, host@, e[i as int].1, host@);
                }
                Some(self.links[i].1)
            },
            None => {
                proof {
                    lemma_lookup_none(self.links@, host@);
                }
                None
            },
        }
    }

    /// `link` now answers for `host`; the link it replaces, if any, is
    /// returned so that the caller can close it.
    pub fn register(&mut self, host: &str, link: u64) -> (previous: Option<u64>)
        requires
            old(self).wf(),
        ensures
            final(self).wf(),
            final(self)@ == registered(old(self)@, host@, link),
            previous == (if old(self)@.contains_key(host@) {
                Some(old(self)@[host@])
            } else {
                None::<u64>
            }),
    {
        match entry_position(&self.links, host) {
            Some(i) => {
                let ghost e = self.links@;
                let before = self.links[i].1;
                proof {
                    lemma_lookup_update(e, i as int, host@, e[i as int].1, host@);
                }
                let (key, _) = self.links.remove(i);
                self.links.insert(i, (key, link));
                proof {
                    assert forall|h: Seq<char>| #[trigger] lookup(self.links@, h) == (if h == host@ {
                        Some(link)
                    } else {
                        lookup(e, h)
                    }) by {
                        lemma_lookup_update(e, i as int, host@, link, h);
                        assert(self.links@ =~= e.update(i as int, (e[i as int].0, link)));
                        assert(self.links@[i as int].0@ == e[i as int].0@);
                    }
                    assert(hosts_unique(self.links@)) by {
                        assert forall|a: int, b: int| 0 <= a < b < self.links@.len() implies self.links@[a].0@
                            != self.links@[b].0@ by {
                            assert(self.links@[a].0@ == e[a].0@ && self.links@[b].0@ == e[b].0@);
                        }
                    }
                    assert(self@ =~= registered(old(self)@, host@, link));
                }
                Some(before)
            },
            None => {
                let ghost e = self.links@;
                proof {
                    lemma_lookup_none(e, host@);
                }
                self.links.push((owned(host), link));
                proof {
                    assert forall|h: Seq<char>| #[trigger] lookup(self.links@, h) == (if h == host@ {
                        Some(link)
                    } else {
                        lookup(e, h)
                    }) by {
                        lemma_lookup_push(e, (self.links@.last().0, link), h);
                        assert(self.links@ =~= e.push((self.links@.last().0, link)));
                    }
                    assert(hosts_unique(self.links@)) by {
                        assert forall|a: int, b: int| 0 <= a < b < self.links@.len() implies self.links@[a].0@
                            != self.links@[b].0@ by {
                            if b == e.len() {
                                assert(self.links@[a] == e[a]);
                            } else {
                                assert(self.links@[a] == e[a] && self.links@[b] == e[b]);
                            }
                        }
                    }
                    assert(self@ =~= registered(old(self)@, host@, link));
                }
                None
            },
        }
    }

    /// The link `link` of `host` went away: `host` is dropped only when no
    /// newer link has replaced it. Says whether it was dropped.
    pub fn unregister(&mut self, host: &str, link: u64) -> (removed: bool)
        requires
            old(self).wf(),
        ensures
            final(self).wf(),
            final(self)@ == unregistered(old(self)@, host@, link),
            removed == (old(self)@.contains_key(host@) && old(self)@[host@] == link),
    {
        match entry_position(&self.links, host) {
            Some(i) => {
                let ghost e = self.links@;
                proof {
                    lemma_lookup_update(e, i as int, host@, e[i as int].1, host@);
                }
                if self.links[i].1 != link {
                    return false;
                }
                self.links.remove(i);
                proof {
                    assert forall|h: Seq<char>| #[trigger] lookup(self.links@, h) == (if h == host@ {
                        None
                    } else {
                        lookup(e, h)
                    }) by {
                        lemma_lookup_remove(e, i as int, h);
                    }
                    assert(hosts_unique(self.links@)) by {
                        assert forall|a: int, b: int| 0 <= a < b < self.links@.len() implies self.links@[a].0@
                            != self.links@[b].0@ by {
                            let a2 = if a < i { a } else { a + 1 };
                            let b2 = if b < i { b } else { b + 1 };
                            assert(self.links@[a] == e[a2] && self.links@[b] == e[b2]);
                        }
                    }
                    assert(self@ =~= unregistered(old(self)@, host@, link));
                }
                true
            },
            None => {
                proof {
                    lemma_lookup_none(self.links@, host@);
                    assert(self@ =~= unregistered(old(self)@, host@, link));
                }
                false
            },
        }
    }
}

/// A link that goes away after a newer link of the same host connected
/// leaves the newer link answering for the host.
pub proof fn law_stale_link_keeps_newer_link(m: Map<Seq<char>, u64>, host: Seq<char>, older: u64, newer: u64)
    requires
        older != newer,
    ensures
        unregistered(registered(registered(m, host, older), host, newer), host, older) == registered(
            m,
            host,
            newer,
        ),
{
    assert(registered(registered(m, host, older), host, newer) =~= registered(m, host, newer));
}

/// A link that goes away while it still answers for its host leaves the
/// host disconnected and every other host as it was.
pub proof fn law_current_link_goes_away(m: Map<Seq<char>, u64>, host: Seq<char>, link: u64)
    ensures
        unregistered(registered(m, host, link), host, link) == m.remove(host),
{
    assert(registered(m, host, link).remove(host) =~= m.remove(host));
}

/// The error a call to a host without a link gets.
pub fn offline(host_name: &str) -> (e: AppError)
    ensures
        e matches AppError::Conflict(m) && m@ == "runtime host "@ + host_name@ + " is not connected"@,
{
    let mut m = owned("runtime host ");
    m.append(host_name);
    m.append(" is not connected");
    AppError::Conflict(m)
}

/// How the controller closes a link it refuses.
#[derive(Debug)]
pub struct LinkClose {
    pub code: u16,
    pub reason: String,
}

/// Why the first frame of a link is refused, if it is: it must be a
/// `hello` speaking the controller's link protocol.
pub open spec fn hello_refusal(is_hello: bool, protocol: Seq<char>, link_protocol: Seq<char>) -> Option<(u16, Seq<char>)> {
    if !is_hello {
        Some((1008u16, "the first link frame must be hello"@))
    } else if protocol != link_protocol {
        Some((1008u16, "unsupported link protocol "@ + protocol))
    } else {
        None
    }
}

/// Admits or refuses the first frame of a link.
pub fn check_hello(is_hello: bool, protocol: &str, link_protocol: &str) -> (r: Option<LinkClose>)
    ensures
        match hello_refusal(is_hello, protocol@, link_protocol@) {
            None => r is None,
            Some((code, reason)) => r matches Some(c) && c.code == code && c.reason@ == reason,
        },
{
    if !is_hello {
        return Some(LinkClose { code: 1008, reason: owned("the first link frame must be hello") });
    }
    let p = chars_of(protocol);
    let q = chars_of(link_protocol);
    if !chars_eq(p.as_slice(), q.as_slice()) {
        let mut reason = owned("unsupported link protocol ");
        reason.append(protocol);
        return Some(LinkClose { code: 1008, reason });
    }
    None
}

/// How a link with a bad host token is closed.
pub fn token_refusal() -> (c: LinkClose)
    ensures
        c.code == 4401,
        c.reason@ == "invalid runtime host token"@,
{
    LinkClose { code: 4401, reason: owned("invalid runtime host token") }
}

} // verus!
