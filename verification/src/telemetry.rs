//! Peer-liveness telemetry: the set of peers currently believed reachable
//! and the timestamp of the most recent message observed.

use vstd::prelude::*;
use vstd::string::StringExecFns;
use crate::names::name_views;
use crate::names::names_without;
use crate::names::lemma_names_without_views;
use crate::names::views_without;
use crate::names::str_eq;

verus! {

/// Live peer set and last-message timestamp; process lifetime only.
pub struct Telemetry {
    peers: Vec<String>,
    last_message: Option<String>,
}

/// A copy handed out to readers.
pub struct TelemetrySnapshot {
    pub peers: Vec<String>,
    pub last_message: Option<String>,
}

impl Telemetry {
    /// The peer identifiers currently marked online, in insertion order.
    pub closed spec fn peers(&self) -> Seq<Seq<char>> {
        name_views(self.peers@)
    }

    /// The last-message timestamp, if any message was observed.
    pub closed spec fn last(&self) -> Option<Seq<char>> {
        match self.last_message {
            Option::Some(s) => Option::Some(s@),
            Option::None => Option::None,
        }
    }

    /// Whether `peer` is currently marked online.
    pub open spec fn has_peer(&self, peer: Seq<char>) -> bool {
        self.peers().contains(peer)
    }

    /// Invariant: no peer identifier is listed twice.
    pub closed spec fn wf(&self) -> bool {
        forall|i: int, j: int|
            0 <= i < j < self.peers().len() ==> self.peers()[i] != self.peers()[j]
    }

    /// Fresh telemetry: no peers, no message seen.
    pub fn new() -> (r: Telemetry)
        ensures
            r.peers().len() == 0,
            r.last() is None,
            r.wf(),
    {
        Telemetry { peers: Vec::new(), last_message: Option::None }
    }

    /// Marks a peer online; a peer already present stays listed once.
    pub fn note_peer_online(&mut self, peer: &str)
        requires
            old(self).wf(),
        ensures
            final(self).wf(),
            final(self).has_peer(peer@),
            final(self).last() == old(self).last(),
            old(self).has_peer(peer@) ==> final(self).peers() == old(self).peers(),
            !old(self).has_peer(peer@) ==> final(self).peers() == old(self).peers().push(peer@),
    {
        let n = self.peers.len();
        let mut i: usize = 0;
        while i < n
            invariant
                i <= n,
                n == self.peers@.len(),
                *self == *old(self),
                self.wf(),
                forall|j: int| 0 <= j < i ==> self.peers()[j] != peer@,
            decreases n - i,
        {
            if str_eq(self.peers[i].as_str(), peer) {
                proof {
                    assert(self.peers()[i as int] == peer@);
                    assert(self.peers().contains(peer@));
                }
                return ;
            }
            i = i + 1;
        }
        proof {
            assert forall|j: int| 0 <= j < self.peers().len() implies self.peers()[j] != peer@ by {}
            assert(!self.peers().contains(peer@));
        }
        let owned = String::from_str(peer);
        self.peers.push(owned);
        proof {
            assert(final(self).peers() =~= old(self).peers().push(peer@));
            assert(final(self).peers().last() == peer@);
            assert(final(self).peers().contains(peer@));
        }
    }

    /// Marks a peer offline, dropping it from the set.
    pub fn note_peer_offline(&mut self, peer: &str)
        requires
            old(self).wf(),
        ensures
            final(self).wf(),
            final(self).peers() == views_without(old(self).peers(), peer@),
            !final(self).has_peer(peer@),
            final(self).last() == old(self).last(),
            forall|q: Seq<char>|
                q != peer@ ==> (final(self).has_peer(q) <==> old(self).has_peer(q)),
    {
        let ghost before = self.peers@;
        let mut rest: Vec<String> = Vec::new();
        core::mem::swap(&mut self.peers, &mut rest);
        let mut kept: Vec<String> = Vec::new();
        let ghost mut done: int = 0;
        proof {
            assert(before.take(0) =~= Seq::<String>::empty());
            assert(rest@ =~= before.skip(0));
        }
        while rest.len() > 0
            invariant
                0 <= done <= before.len(),
                rest@ == before.skip(done),
                kept@ == names_without(before.take(done), peer@),
            decreases rest@.len(),
        {
            let entry = rest.remove(0);
            proof {
                assert(before.skip(done)[0] == before[done]);
                assert(rest@ =~= before.skip(done + 1));
            }
            let keep = !str_eq(entry.as_str(), peer);
            proof {
                done = done + 1;
                assert(before.take(done).drop_last() =~= before.take(done - 1));
                assert(before.take(done).last() == before[done - 1]);
            }
            if keep {
                kept.push(entry);
            }
        }
        proof {
            assert(before.take(before.len() as int) =~= before);
        }
        self.peers = kept;
        proof {
            lemma_names_without_views(before, peer@);
            lemma_views_without(old(self).peers(), peer@);
        }
    }

    /// Records the timestamp of the most recent message observed.
    pub fn note_message(&mut self, timestamp: String)
        ensures
            final(self).last() == Option::Some(timestamp@),
            final(self).peers() == old(self).peers(),
            old(self).wf() ==> final(self).wf(),
    {
        self.last_message = Option::Some(timestamp);
    }

    /// A copy of the peer set and the last-message slot.
    pub fn snapshot(&self) -> (r: TelemetrySnapshot)
        ensures
            name_views(r.peers@) == self.peers(),
            match r.last_message {
                Option::Some(s) => self.last() == Option::Some(s@),
                Option::None => self.last() is None,
            },
    {
        let peers = self.peers.clone();
        proof {
            assert forall|i: int| 0 <= i < peers@.len() implies peers@[i]@ == self.peers@[i]@ by {
                assert(cloned(self.peers@[i], peers@[i]));
            }
            assert(name_views(peers@) =~= self.peers());
        }
        let last_message = match &self.last_message {
            Option::Some(s) => Option::Some(s.clone()),
            Option::None => Option::None,
        };
        TelemetrySnapshot { peers, last_message }
    }
}

/// What dropping one value does to membership, order and uniqueness.
proof fn lemma_views_without(views: Seq<Seq<char>>, gone: Seq<char>)
    ensures
        !views_without(views, gone).contains(gone),
        forall|q: Seq<char>|
            q != gone ==> (views_without(views, gone).contains(q) <==> views.contains(q)),
        (forall|i: int, j: int| 0 <= i < j < views.len() ==> views[i] != views[j])
            ==> (forall|i: int, j: int|
            0 <= i < j < views_without(views, gone).len() ==> views_without(views, gone)[i]
                != views_without(views, gone)[j]),
    decreases views.len(),
{
    if views.len() > 0 {
        let rest = views.drop_last();
        lemma_views_without_sub(views, gone);
        lemma_views_without(rest, gone);
        assert forall|q: Seq<char>|
            q != gone implies (views_without(views, gone).contains(q) <==> views.contains(
            q,
        )) by {
            let out = views_without(views, gone);
            let inner = views_without(rest, gone);
            if views.contains(q) {
                let i = choose|i: int| 0 <= i < views.len() && views[i] == q;
                if i < views.len() - 1 {
                    assert(rest[i] == q);
                    assert(rest.contains(q));
                    assert(inner.contains(q));
                    let k = choose|k: int| 0 <= k < inner.len() && inner[k] == q;
                    assert(out[k] == q);
                } else {
                    assert(views.last() == q);
                    assert(out.last() == q);
                }
                assert(out.contains(q));
            }
            if out.contains(q) {
                if views.last() == gone {
                    assert(rest.contains(q));
                } else {
                    let i = choose|i: int| 0 <= i < out.len() && out[i] == q;
                    if i < out.len() - 1 {
                        assert(views_without(rest, gone)[i] == q);
                        assert(views_without(rest, gone).contains(q));
                        assert(rest.contains(q));
                    } else {
                        assert(views.last() == q);
                    }
                }
                if rest.contains(q) {
                    let i = choose|i: int| 0 <= i < rest.len() && rest[i] == q;
                    assert(views[i] == q);
                }
                assert(views.contains(q));
            }
        }
        if forall|i: int, j: int| 0 <= i < j < views.len() ==> views[i] != views[j] {
            let out = views_without(views, gone);
            assert(forall|i: int, j: int| 0 <= i < j < rest.len() ==> rest[i] != rest[j]);
            if views.last() != gone {
                assert forall|i: int, j: int| 0 <= i < j < out.len() implies out[i] != out[j] by {
                    let inner = views_without(rest, gone);
                    if j < out.len() - 1 {
                        assert(out[i] == inner[i] && out[j] == inner[j]);
                    } else {
                        assert(out[j] == views.last());
                        assert(out[i] == inner[i]);
                        assert(rest.contains(inner[i]));
                        let k = choose|k: int| 0 <= k < rest.len() && rest[k] == inner[i];
                        assert(views[k] != views.last());
                    }
                }
            }
        }
    }
}

/// Every element of the filtered list is an element of the original.
proof fn lemma_views_without_sub(views: Seq<Seq<char>>, gone: Seq<char>)
    ensures
        forall|i: int|
            0 <= i < views_without(views, gone).len() ==> views.contains(
                #[trigger] views_without(views, gone)[i],
            ),
        views_without(views, gone).len() <= views.len(),
        !views_without(views, gone).contains(gone),
    decreases views.len(),
{
    if views.len() > 0 {
        let rest = views.drop_last();
        lemma_views_without_sub(rest, gone);
        assert forall|i: int|
            0 <= i < views_without(views, gone).len() implies views.contains(
            #[trigger] views_without(views, gone)[i],
        ) by {
            let out = views_without(views, gone);
            if views.last() == gone {
                assert(out[i] == views_without(rest, gone)[i]);
                assert(rest.contains(out[i]));
                let k = choose|k: int| 0 <= k < rest.len() && rest[k] == out[i];
                assert(views[k] == out[i]);
            } else {
                if i < out.len() - 1 {
                    assert(out[i] == views_without(rest, gone)[i]);
                    assert(rest.contains(out[i]));
                    let k = choose|k: int| 0 <= k < rest.len() && rest[k] == out[i];
                    assert(views[k] == out[i]);
                } else {
                    assert(out[i] == views.last());
                }
            }
        }
        if views.last() != gone {
            let out = views_without(views, gone);
            assert forall|i: int| 0 <= i < out.len() implies out[i] != gone by {
                if i < out.len() - 1 {
                    assert(!views_without(rest, gone).contains(gone));
                    assert(views_without(rest, gone)[i] == out[i]);
                }
            }
        }
    }
}

} // verus!
