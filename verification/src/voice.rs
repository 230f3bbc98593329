//! Voice/video signaling relay: the signal type and the bounded in-memory
//! ring that buffers signals for retrieval.  Signals are never persisted.

use vstd::prelude::*;

verus! {

/// How many signals the ring retains; older entries are dropped first.
pub const MAX_VOICE_SIGNALS: usize = 200;

/// A WebRTC-style signaling payload (offer/answer/ICE) relayed over gossip.
#[derive(Debug)]
pub struct VoiceSignal {
    /// Peer identifier of the sender.
    pub from: String,
    /// Optional recipient peer identifier; `None` broadcasts to everyone.
    pub to: Option<String>,
    /// One of `offer`, `answer`, `ice`.
    pub kind: String,
    /// Opaque payload; the mesh relays it without interpreting it.
    pub data: String,
}

/// Mathematical image of a [`VoiceSignal`].
#[verifier::ext_equal]
pub struct VoiceSignalView {
    pub from: Seq<char>,
    pub to: Option<Seq<char>>,
    pub kind: Seq<char>,
    pub data: Seq<char>,
}

impl View for VoiceSignal {
    type V = VoiceSignalView;

    open spec fn view(&self) -> VoiceSignalView {
        VoiceSignalView {
            from: self.from@,
            to: match self.to {
                Option::Some(t) => Option::Some(t@),
                Option::None => Option::None,
            },
            kind: self.kind@,
            data: self.data@,
        }
    }
}

impl Clone for VoiceSignal {
    fn clone(&self) -> (res: Self)
        ensures
            res@ == self@,
    {
        VoiceSignal {
            from: self.from.clone(),
            to: match &self.to {
                Option::Some(t) => Option::Some(t.clone()),
                Option::None => Option::None,
            },
            kind: self.kind.clone(),
            data: self.data.clone(),
        }
    }
}

/// One push onto a ring already within its bound: append, then drop the
/// oldest entry if the bound is exceeded.
pub open spec fn ring_push(ring: Seq<VoiceSignal>, s: VoiceSignal) -> Seq<VoiceSignal> {
    let grown = ring.push(s);
    if grown.len() > MAX_VOICE_SIGNALS {
        grown.skip(grown.len() - MAX_VOICE_SIGNALS)
    } else {
        grown
    }
}

/// The ring after a whole run of pushes, in order.
pub open spec fn ring_after(ring: Seq<VoiceSignal>, pushed: Seq<VoiceSignal>) -> Seq<VoiceSignal>
    decreases pushed.len(),
{
    if pushed.len() == 0 {
        ring
    } else {
        ring_push(ring_after(ring, pushed.drop_last()), pushed.last())
    }
}

/// The most recent `MAX_VOICE_SIGNALS` entries of a sequence.
pub open spec fn ring_window(all: Seq<VoiceSignal>) -> Seq<VoiceSignal> {
    if all.len() > MAX_VOICE_SIGNALS {
        all.skip(all.len() - MAX_VOICE_SIGNALS)
    } else {
        all
    }
}

/// Bounded buffer of recent voice signals, oldest first.
pub struct VoiceRing {
    signals: Vec<VoiceSignal>,
}

impl View for VoiceRing {
    type V = Seq<VoiceSignal>;

    closed spec fn view(&self) -> Seq<VoiceSignal> {
        self.signals@
    }
}

impl VoiceRing {
    /// Invariant: the ring never holds more than the bound.
    pub open spec fn wf(&self) -> bool {
        self@.len() <= MAX_VOICE_SIGNALS
    }

    /// An empty ring.
    pub fn new() -> (r: VoiceRing)
        ensures
            r@.len() == 0,
            r.wf(),
    {
        VoiceRing { signals: Vec::new() }
    }

    /// Appends a signal, dropping the oldest entry when the bound would be
    /// exceeded.
    pub fn push(&mut self, signal: VoiceSignal)
        requires
            old(self).wf(),
        ensures
            final(self)@ == ring_push(old(self)@, signal),
            final(self).wf(),
    {
        self.signals.push(signal);
        if self.signals.len() > MAX_VOICE_SIGNALS {
            self.signals.remove(0);
            proof {
                assert(old(self)@.push(signal).remove(0) =~= old(self)@.push(signal).skip(
                    old(self)@.push(signal).len() - MAX_VOICE_SIGNALS,
                ));
            }
        }
    }

    /// Number of buffered signals.
    pub fn len(&self) -> (r: usize)
        ensures
            r == self@.len(),
    {
        self.signals.len()
    }

    /// A copy of the buffered signals, oldest first.
    pub fn signals(&self) -> (r: Vec<VoiceSignal>)
        ensures
            r@.len() == self@.len(),
            forall|i: int| 0 <= i < r@.len() ==> #[trigger] r@[i]@ == self@[i]@,
    {
        let r = self.signals.clone();
        proof {
            assert forall|i: int| 0 <= i < r@.len() implies r@[i]@ == self@[i]@ by {
                assert(cloned(self.signals@[i], r@[i]));
            }
        }
        r
    }
}

/// Law: starting from any ring within its bound, a run of pushes leaves
/// exactly the most recent `MAX_VOICE_SIGNALS` of (old contents, then the
/// pushed signals), in push order.  In particular, once at least
/// `MAX_VOICE_SIGNALS` signals have been pushed, the ring holds exactly the
/// most recent pushes and nothing older.
pub proof fn lemma_ring_bound(ring: Seq<VoiceSignal>, pushed: Seq<VoiceSignal>)
    requires
        ring.len() <= MAX_VOICE_SIGNALS,
    ensures
        ring_after(ring, pushed) == ring_window(ring + pushed),
        ring_after(ring, pushed).len() <= MAX_VOICE_SIGNALS,
        pushed.len() >= MAX_VOICE_SIGNALS ==> ring_after(ring, pushed) == pushed.skip(
            pushed.len() - MAX_VOICE_SIGNALS,
        ),
    decreases pushed.len(),
{
    if pushed.len() == 0 {
        assert(ring + pushed =~= ring);
    } else {
        let rest = pushed.drop_last();
        let s = pushed.last();
        lemma_ring_bound(ring, rest);
        let prev = ring_after(ring, rest);
        assert(prev == ring_window(ring + rest));
        assert((ring + rest).push(s) =~= ring + pushed);
        if (ring + rest).len() <= MAX_VOICE_SIGNALS {
            assert(prev == ring + rest);
            assert(prev.push(s) =~= ring + pushed);
            if (ring + pushed).len() > MAX_VOICE_SIGNALS {
                assert(ring_push(prev, s) =~= ring_window(ring + pushed));
            }
        } else {
            let all_prev = ring + rest;
            let all = ring + pushed;
            assert(prev == all_prev.skip(all_prev.len() - MAX_VOICE_SIGNALS));
            assert(prev.push(s) =~= all.skip(all_prev.len() - MAX_VOICE_SIGNALS));
            assert(prev.push(s).len() == MAX_VOICE_SIGNALS + 1);
            assert(ring_push(prev, s) =~= all.skip(all.len() - MAX_VOICE_SIGNALS));
        }
        if pushed.len() >= MAX_VOICE_SIGNALS {
            assert(ring_window(ring + pushed) =~= pushed.skip(
                pushed.len() - MAX_VOICE_SIGNALS,
            ));
        }
    }
}

} // verus!
