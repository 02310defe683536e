//! Animation frame subscriptions: the bookkeeping of a frame source.
//!
//! Each subscription carries a payload (its frame callback and its finish
//! callback, which the caller runs). On every frame the caller runs the
//! callbacks of the live subscriptions and reports which of them asked to
//! stop; those finish successfully. A cancelled subscription finishes
//! unsuccessfully at once. Subscriptions that are no longer live are
//! dropped at the end of each frame. A handle is the index a subscription
//! had when it was made.
use vstd::prelude::*;

verus! {

/// State of a subscription.
#[derive(Copy, Clone, Debug, PartialEq, Eq, Structural)]
pub enum SubState {
    /// Receives frames.
    Active,
    /// Cancelled from outside; its finish callback has run.
    Canceled,
    /// Ended by its frame callback.
    Finished,
}

/// A subscription and what it carries.
pub struct FrameSub<C> {
    pub state: SubState,
    pub payload: C,
}

/// The live subscriptions of `s` that did not ask to stop, in order.
pub open spec fn kept_subs<C>(s: Seq<FrameSub<C>>, stopped: Seq<bool>) -> Seq<FrameSub<C>>
    decreases s.len(),
{
    if s.len() == 0 {
        Seq::empty()
    } else {
        let rest = kept_subs(s.skip(1), stopped.skip(1));
        if s[0].state is Active && !stopped[0] {
            seq![s[0]] + rest
        } else {
            rest
        }
    }
}

/// The payloads of the live subscriptions of `s` that asked to stop, in order.
pub open spec fn stopped_payloads<C>(s: Seq<FrameSub<C>>, stopped: Seq<bool>) -> Seq<C>
    decreases s.len(),
{
    if s.len() == 0 {
        Seq::empty()
    } else {
        let rest = stopped_payloads(s.skip(1), stopped.skip(1));
        if s[0].state is Active && stopped[0] {
            seq![s[0].payload] + rest
        } else {
            rest
        }
    }
}

/// How many subscriptions of `s` are live.
pub open spec fn live_count<C>(s: Seq<FrameSub<C>>) -> nat
    decreases s.len(),
{
    if s.len() == 0 {
        0
    } else {
        (if s[0].state is Active { 1nat } else { 0nat }) + live_count(s.skip(1))
    }
}

/// The subscriptions of a frame source.
pub struct FrameSubs<C> {
    subs: Vec<FrameSub<C>>,
}

impl<C> View for FrameSubs<C> {
    type V = Seq<FrameSub<C>>;

    closed spec fn view(&self) -> Seq<FrameSub<C>> {
        self.subs@
    }
}

proof fn lemma_live_count_step<C>(s: Seq<FrameSub<C>>, i: int)
    requires
        0 <= i < s.len(),
    ensures
        live_count(s.skip(i)) == (if s[i].state is Active { 1nat } else { 0nat }) + live_count(s.skip(i + 1)),
{
    assert(s.skip(i).skip(1) =~= s.skip(i + 1));
}

impl<C> FrameSubs<C> {
    /// No subscriptions.
    pub fn new() -> (r: Self)
        ensures
            r@ == Seq::<FrameSub<C>>::empty(),
    {
        FrameSubs { subs: Vec::new() }
    }

    /// Number of subscriptions kept, live or not.
    pub fn len(&self) -> (r: usize)
        ensures
            r == self@.len(),
    {
        self.subs.len()
    }

    /// Adds a live subscription; its handle is returned.
    pub fn subscribe(&mut self, payload: C) -> (handle: usize)
        ensures
            handle == old(self)@.len(),
            final(self)@ == old(self)@.push(FrameSub { state: SubState::Active, payload }),
    {
        let handle = self.subs.len();
        self.subs.push(FrameSub { state: SubState::Active, payload });
        handle
    }

    /// Whether the subscription at `handle` is live (gets its frame callback
    /// run on the next frame).
    pub fn is_live(&self, handle: usize) -> (r: bool)
        ensures
            r == (handle < self@.len() && self@[handle as int].state is Active),
    {
        handle < self.subs.len() && matches!(self.subs[handle].state, SubState::Active)
    }

    /// Cancels the subscription at `handle`. When it was live it is now
    /// cancelled and `true` is returned: its finish callback is to run,
    /// unsuccessful. Otherwise nothing changes.
    pub fn cancel(&mut self, handle: usize) -> (fire: bool)
        ensures
            fire == (handle < old(self)@.len() && old(self)@[handle as int].state is Active),
            final(self)@ == (if fire {
                old(self)@.update(
                    handle as int,
                    FrameSub { state: SubState::Canceled, payload: old(self)@[handle as int].payload },
                )
            } else {
                old(self)@
            }),
    {
        if self.is_live(handle) {
            self.subs[handle].state = SubState::Canceled;
            true
        } else {
            false
        }
    }

    /// The subscription at `handle` failed in its frame callback: when it was
    /// live it has now finished and `true` is returned (its finish callback
    /// is to run, unsuccessful).
    pub fn interrupt(&mut self, handle: usize) -> (fire: bool)
        ensures
            fire == (handle < old(self)@.len() && old(self)@[handle as int].state is Active),
            final(self)@ == (if fire {
                old(self)@.update(
                    handle as int,
                    FrameSub { state: SubState::Finished, payload: old(self)@[handle as int].payload },
                )
            } else {
                old(self)@
            }),
    {
        if self.is_live(handle) {
            self.subs[handle].state = SubState::Finished;
            true
        } else {
            false
        }
    }

    /// The payload of the subscription at `handle`, to run its callbacks.
    pub fn payload_mut(&mut self, handle: usize) -> (r: Option<&mut C>)
        ensures
            r is Some <==> handle < old(self)@.len(),
            r is None ==> final(self)@ == old(self)@,
            r matches Some(p) ==> *p == old(self)@[handle as int].payload && final(self)@ == old(self)@.update(
                handle as int,
                FrameSub { state: old(self)@[handle as int].state, payload: *final(p) },
            ),
    {
        if handle < self.subs.len() {
            Some(&mut self.subs[handle].payload)
        } else {
            None
        }
    }

    /// Whether any subscription is live.
    pub fn has_active_subs(&self) -> (r: bool)
        ensures
            r == (live_count(self@) > 0),
    {
        self.active_count() > 0
    }

    /// Number of live subscriptions.
    pub fn active_count(&self) -> (r: usize)
        ensures
            r == live_count(self@),
    {
        let n = self.subs.len();
        let mut count: usize = 0;
        let mut i: usize = n;
        proof {
            assert(self@.skip(n as int) =~= Seq::<FrameSub<C>>::empty());
        }
        while i > 0
            invariant
                i <= n,
                n == self@.len(),
                count == live_count(self@.skip(i as int)),
                count <= n - i,
            decreases i,
        {
            i = i - 1;
            proof {
                lemma_live_count_step(self@, i as int);
            }
            if matches!(self.subs[i].state, SubState::Active) {
                count = count + 1;
            }
        }
        proof {
            assert(self@.skip(0) =~= self@);
        }
        count
    }

    /// Ends a frame: `stopped[i]` tells whether the frame callback of
    /// subscription `i` asked to stop (ignored for subscriptions that are not
    /// live). The live subscriptions that asked to stop finish: their
    /// payloads are returned, last subscription first, to run their finish
    /// callbacks successfully. Only the live subscriptions that did not ask
    /// to stop are kept.
    pub fn end_tick(&mut self, stopped: &[bool]) -> (done: Vec<C>)
        requires
            stopped@.len() == old(self)@.len(),
        ensures
            final(self)@ == kept_subs(old(self)@, stopped@),
            done@ == stopped_payloads(old(self)@, stopped@).reverse(),
    {
        let ghost orig = self.subs@;
        let mut rest: Vec<FrameSub<C>> = Vec::new();
        std::mem::swap(&mut rest, &mut self.subs);
        let mut kept_rev: Vec<FrameSub<C>> = Vec::new();
        let mut done: Vec<C> = Vec::new();
        proof {
            assert(orig.skip(orig.len() as int) =~= Seq::<FrameSub<C>>::empty());
            assert(stopped@.skip(orig.len() as int) =~= Seq::<bool>::empty());
            assert(orig.take(orig.len() as int) =~= orig);
        }
        while rest.len() > 0
            invariant
                stopped@.len() == orig.len(),
                rest.len() <= orig.len(),
                rest@ == orig.take(rest.len() as int),
                kept_rev@ == kept_subs(
                    orig.skip(rest.len() as int),
                    stopped@.skip(rest.len() as int),
                ).reverse(),
                done@ == stopped_payloads(
                    orig.skip(rest.len() as int),
                    stopped@.skip(rest.len() as int),
                ).reverse(),
            decreases rest.len(),
        {
            let i = rest.len() - 1;
            let sub = rest.pop().unwrap();
            proof {
                assert(rest@ =~= orig.take(i as int));
                assert(orig.skip(i as int).skip(1) =~= orig.skip(i + 1));
                assert(stopped@.skip(i as int).skip(1) =~= stopped@.skip(i + 1));
                assert(orig.skip(i as int)[0] == orig[i as int]);
                assert(stopped@.skip(i as int)[0] == stopped@[i as int]);
            }
            let ghost kept_before = kept_subs(orig.skip(i + 1), stopped@.skip(i + 1));
            let ghost done_before = stopped_payloads(orig.skip(i + 1), stopped@.skip(i + 1));
            match sub.state {
                SubState::Active => {
                    if stopped[i] {
                        done.push(sub.payload);
                        proof {
                            assert((seq![orig[i as int].payload] + done_before).reverse() =~= done_before.reverse().push(
                                orig[i as int].payload,
                            ));
                        }
                    } else {
                        kept_rev.push(sub);
                        proof {
                            assert((seq![orig[i as int]] + kept_before).reverse() =~= kept_before.reverse().push(
                                orig[i as int],
                            ));
                        }
                    }
                },
                _ => {},
            }
        }
        proof {
            assert(orig.skip(0) =~= orig);
            assert(stopped@.skip(0) =~= stopped@);
        }
        let ghost all_kept = kept_subs(orig, stopped@);
        let mut kept: Vec<FrameSub<C>> = Vec::new();
        proof {
            assert(all_kept.subrange(0, all_kept.len() as int) =~= all_kept);
        }
        while kept_rev.len() > 0
            invariant
                kept@.len() + kept_rev@.len() == all_kept.len(),
                kept_rev@ == all_kept.subrange(kept@.len() as int, all_kept.len() as int).reverse(),
                kept@ == all_kept.subrange(0, kept@.len() as int),
            decreases kept_rev.len(),
        {
            let ghost before = kept_rev@;
            let s = kept_rev.pop().unwrap();
            proof {
                assert(s == before[before.len() - 1]);
                assert(s == all_kept[kept@.len() as int]);
            }
            kept.push(s);
            proof {
                assert(kept@ =~= all_kept.subrange(0, kept@.len() as int));
                assert(kept_rev@ =~= all_kept.subrange(kept@.len() as int, all_kept.len() as int).reverse());
            }
        }
        proof {
            assert(kept@ =~= all_kept);
        }
        self.subs = kept;
        done
    }
}

/// Law: after a frame every kept subscription is live.
pub proof fn law_kept_are_live<C>(s: Seq<FrameSub<C>>, stopped: Seq<bool>)
    requires
        stopped.len() == s.len(),
    ensures
        forall|k: int| 0 <= k < kept_subs(s, stopped).len() ==> (#[trigger] kept_subs(s, stopped)[k]).state
            is Active,
    decreases s.len(),
{
    if s.len() > 0 {
        law_kept_are_live(s.skip(1), stopped.skip(1));
    }
}

/// Law: every live subscription either stays or finishes at the end of a
/// frame; none is lost and none finishes twice.
pub proof fn law_live_kept_or_finished<C>(s: Seq<FrameSub<C>>, stopped: Seq<bool>)
    requires
        stopped.len() == s.len(),
    ensures
        kept_subs(s, stopped).len() + stopped_payloads(s, stopped).len() == live_count(s),
    decreases s.len(),
{
    if s.len() > 0 {
        law_live_kept_or_finished(s.skip(1), stopped.skip(1));
    }
}

} // verus!
