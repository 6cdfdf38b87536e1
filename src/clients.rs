//! The client registry: one outbound channel per live connection, and the
//! fan-out of a message to all of them.

use crate::shared::Message;
use tokio::sync::mpsc::UnboundedSender;
use vstd::prelude::*;

verus! {

/// Declares tokio's unbounded sender, the outbound half of a connection's queue.
#[verifier::external_type_specification]
#[verifier::external_body]
#[verifier::reject_recursive_types(T)]
pub struct ExUnboundedSender<T>(UnboundedSender<T>);

/// The messages offered through the sender `tx`, in order, each with whether
/// it was queued on the channel. The channel's receiver gets the queued ones
/// in this order.
pub uninterp spec fn send_log(tx: UnboundedSender<Message>) -> Seq<(Seq<char>, bool)>;

/// Relies on `tokio::sync::mpsc::UnboundedSender::send`: it queues `m` on
/// the channel without waiting and returns `Ok`, or, when the receiving half
/// is closed or dropped, hands `m` back unqueued as `Err`. Each call is one
/// more entry in `send_log`: the message, and whether it was queued.
/// Whether it is depends on the receiver, so that is not promised. (It aborts
/// the process only when a channel holds more messages than a `usize` can
/// count.)
#[verifier::external_body]
fn try_deliver(tx: &mut UnboundedSender<Message>, m: Message) -> (delivered: bool)
    ensures
        send_log(*final(tx)) == send_log(*old(tx)).push((m@, delivered)),
{
    tx.send(m).is_ok()
}

/// The entries of `s` whose flag in `keep` is set, in order.
pub open spec fn kept<A>(s: Seq<A>, keep: Seq<bool>) -> Seq<A>
    decreases s.len(),
{
    if s.len() == 0 || keep.len() == 0 {
        Seq::empty()
    } else if keep.last() {
        kept(s.drop_last(), keep.drop_last()).push(s.last())
    } else {
        kept(s.drop_last(), keep.drop_last())
    }
}

/// Every flag of `flags` flipped.
pub open spec fn negated(flags: Seq<bool>) -> Seq<bool> {
    Seq::new(flags.len(), |i: int| !flags[i])
}

/// The channels `channels` (slot and send log) after `text` was offered to
/// each of them once, the offer to the `i`-th one queued exactly when
/// `queued[i]`.
pub open spec fn offered(
    channels: Seq<(nat, Seq<(Seq<char>, bool)>)>,
    text: Seq<char>,
    queued: Seq<bool>,
) -> Seq<(nat, Seq<(Seq<char>, bool)>)> {
    Seq::new(channels.len(), |i: int| (channels[i].0, channels[i].1.push((text, queued[i]))))
}

/// The slots of a sequence of channels are strictly increasing.
pub open spec fn slots_increasing(channels: Seq<(nat, Seq<(Seq<char>, bool)>)>) -> bool {
    forall|i: int, j: int| 0 <= i < j < channels.len() ==> #[trigger] channels[i].0 < #[trigger] channels[j].0
}

/// Keeping some of a sequence's entries leaves entries of that sequence, no
/// more of them; with distinct keeping and dropping flags, the two parts
/// together are as long as the sequence.
proof fn lemma_kept_within<A>(s: Seq<A>, keep: Seq<bool>)
    requires
        keep.len() == s.len(),
    ensures
        kept(s, keep).len() + kept(s, negated(keep)).len() == s.len(),
        forall|i: int| 0 <= i < kept(s, keep).len() ==> s.contains(#[trigger] kept(s, keep)[i]),
    decreases s.len(),
{
    if s.len() > 0 {
        let p = s.drop_last();
        let kp = keep.drop_last();
        assert(negated(keep).drop_last() =~= negated(kp));
        lemma_kept_within(p, kp);
        let k = kept(p, kp);
        assert forall|i: int| 0 <= i < k.len() implies s.contains(#[trigger] k[i]) by {
            let j = choose|j: int| 0 <= j < p.len() && p[j] == k[i];
            assert(s[j] == p[j]);
        }
        if keep.last() {
            assert forall|i: int| 0 <= i < kept(s, keep).len() implies s.contains(
                #[trigger] kept(s, keep)[i],
            ) by {
                if i == k.len() {
                    assert(s[s.len() - 1] == s.last());
                } else {
                    assert(kept(s, keep)[i] == k[i]);
                }
            }
        }
    }
}

/// Keeping some channels of an increasing sequence of slots below `bound`
/// leaves an increasing sequence of slots below `bound`.
proof fn lemma_kept_increasing(
    s: Seq<(nat, Seq<(Seq<char>, bool)>)>,
    keep: Seq<bool>,
    bound: nat,
)
    requires
        keep.len() == s.len(),
        slots_increasing(s),
        forall|i: int| 0 <= i < s.len() ==> #[trigger] s[i].0 < bound,
    ensures
        slots_increasing(kept(s, keep)),
        forall|i: int| 0 <= i < kept(s, keep).len() ==> #[trigger] kept(s, keep)[i].0 < bound,
    decreases s.len(),
{
    if s.len() > 0 {
        let p = s.drop_last();
        assert forall|i: int, j: int| 0 <= i < j < p.len() implies #[trigger] p[i].0 < #[trigger] p[j].0 by {
            assert(p[i] == s[i] && p[j] == s[j]);
        }
        assert forall|i: int| 0 <= i < p.len() implies #[trigger] p[i].0 < bound by {
            assert(p[i] == s[i]);
        }
        lemma_kept_increasing(p, keep.drop_last(), bound);
        lemma_kept_within(p, keep.drop_last());
        let kp = kept(p, keep.drop_last());
        assert forall|i: int| 0 <= i < kp.len() implies #[trigger] kp[i].0 < s.last().0 by {
            assert(p.contains(kp[i]));
            let j = choose|j: int| 0 <= j < p.len() && p[j] == kp[i];
            assert(s[j] == p[j]);
            assert(s[j].0 < s[s.len() - 1].0);
        }
        if keep.last() {
            let k = kp.push(s.last());
            assert forall|i: int| 0 <= i < k.len() implies #[trigger] k[i].0 < bound by {
                if i < kp.len() {
                    assert(k[i] == kp[i]);
                } else {
                    assert(s[s.len() - 1] == s.last());
                }
            }
            assert forall|i: int, j: int| 0 <= i < j < k.len() implies #[trigger] k[i].0
                < #[trigger] k[j].0 by {
                if j < kp.len() {
                    assert(k[i] == kp[i] && k[j] == kp[j]);
                } else {
                    assert(k[i] == kp[i]);
                }
            }
        }
    }
}

/// A registered outbound channel, with the slot number that identifies it.
struct Outbound {
    tx: UnboundedSender<Message>,
    slot: Ghost<nat>,
}

/// The slot and send log of a registered channel.
spec fn record_of(o: Outbound) -> (nat, Seq<(Seq<char>, bool)>) {
    (o.slot@, send_log(o.tx))
}

/// The slots and send logs of a sequence of registered channels.
spec fn records(v: Seq<Outbound>) -> Seq<(nat, Seq<(Seq<char>, bool)>)> {
    v.map_values(|o: Outbound| record_of(o))
}

/// The outbound channels of the live connections, oldest first, and the
/// channels that the last broadcast found dead, kept until the next one.
pub struct ClientRegistry {
    outbound: Vec<Outbound>,
    retired: Vec<Outbound>,
    next_slot: Ghost<nat>,
}

impl View for ClientRegistry {
    type V = Seq<(nat, Seq<(Seq<char>, bool)>)>;

    /// The registered channels, oldest first: each one's slot and send log.
    closed spec fn view(&self) -> Seq<(nat, Seq<(Seq<char>, bool)>)> {
        records(self.outbound@)
    }
}

/// `after` is `before` once `text` has been offered to each channel that
/// `before` had registered, exactly once: the channels that queued it stay
/// registered, in order, and those whose receiver was gone are retired.
pub open spec fn broadcast_effect(before: ClientRegistry, after: ClientRegistry, text: Seq<char>) -> bool {
    &&& exists|queued: Seq<bool>|
        #![trigger offered(before@, text, queued)]
        {
            &&& queued.len() == before@.len()
            &&& after@ == kept(offered(before@, text, queued), queued)
            &&& after.retired() == kept(offered(before@, text, queued), negated(queued))
        }
    &&& after.fresh_slot() == before.fresh_slot()
}

impl ClientRegistry {
    #[verifier::type_invariant]
    spec fn slots_below_next(&self) -> bool {
        &&& slots_increasing(records(self.outbound@))
        &&& forall|i: int|
            0 <= i < self.outbound@.len() ==> #[trigger] self.outbound@[i].slot@ < self.next_slot@
    }

    /// The slot that the next registered channel will get.
    pub closed spec fn fresh_slot(&self) -> nat {
        self.next_slot@
    }

    /// The channels the last broadcast found dead: slot and send log.
    pub closed spec fn retired(&self) -> Seq<(nat, Seq<(Seq<char>, bool)>)> {
        records(self.retired@)
    }

    /// No channel registered.
    pub fn new() -> (r: ClientRegistry)
        ensures
            r@ == Seq::<(nat, Seq<(Seq<char>, bool)>)>::empty(),
            r.retired() == Seq::<(nat, Seq<(Seq<char>, bool)>)>::empty(),
    {
        let r = ClientRegistry { outbound: Vec::new(), retired: Vec::new(), next_slot: Ghost(0) };
        assert(r@ =~= Seq::<(nat, Seq<(Seq<char>, bool)>)>::empty());
        assert(r.retired() =~= Seq::<(nat, Seq<(Seq<char>, bool)>)>::empty());
        r
    }

    /// How many channels are registered.
    pub fn len(&self) -> (n: usize)
        ensures
            n == self@.len(),
    {
        self.outbound.len()
    }

    /// Registers the outbound channel of a new connection, under a slot above
    /// those of every registered channel.
    pub fn add(&mut self, tx: UnboundedSender<Message>)
        ensures
            final(self)@ == old(self)@.push((old(self).fresh_slot(), send_log(tx))),
            forall|i: int| 0 <= i < old(self)@.len() ==> #[trigger] old(self)@[i].0 < old(self).fresh_slot(),
            final(self).fresh_slot() == old(self).fresh_slot() + 1,
            final(self).retired() == old(self).retired(),
    {
        proof {
            use_type_invariant(&*self);
        }
        let ghost before = self@;
        let ghost slot = self.next_slot@;
        let mut outbound: Vec<Outbound> = Vec::new();
        std::mem::swap(&mut outbound, &mut self.outbound);
        outbound.push(Outbound { tx, slot: Ghost(slot) });
        proof {
            assert(records(outbound@) =~= before.push((slot, send_log(tx))));
            assert forall|i: int| 0 <= i < outbound@.len() implies #[trigger] outbound@[i].slot@ < slot + 1 by {
                if i < before.len() {
                    assert(records(outbound@)[i] == before[i]);
                }
            }
        }
        self.next_slot = Ghost(slot + 1);
        self.outbound = outbound;
    }

    /// Offers a copy of `msg` to every registered channel, once each, one
    /// after the other whatever happens to the others. The channels that
    /// queued it stay registered; those whose receiving half was gone are
    /// retired (the ones retired before are released). Returns how many
    /// channels remain.
    pub fn broadcast(&mut self, msg: &Message) -> (remaining: usize)
        ensures
            broadcast_effect(*old(self), *final(self), msg@),
            remaining == final(self)@.len(),
    {
        proof {
            use_type_invariant(&*self);
        }
        let ghost before = self@;
        let ghost next = self.next_slot@;
        let mut pending: Vec<Outbound> = Vec::new();
        std::mem::swap(&mut pending, &mut self.outbound);
        let mut released: Vec<Outbound> = Vec::new();
        std::mem::swap(&mut released, &mut self.retired);
        let mut live: Vec<Outbound> = Vec::new();
        let mut dead: Vec<Outbound> = Vec::new();
        let ghost mut queued: Seq<bool> = Seq::empty();
        let ghost mut done: int = 0;
        while pending.len() > 0
            invariant
                0 <= done <= before.len(),
                records(pending@) =~= before.subrange(done, before.len() as int),
                queued.len() == done,
                records(live@) == kept(offered(before.subrange(0, done), msg@, queued), queued),
                records(dead@) == kept(offered(before.subrange(0, done), msg@, queued), negated(queued)),
                slots_increasing(before),
                forall|i: int| 0 <= i < before.len() ==> #[trigger] before[i].0 < next,
                self.next_slot@ == next,
                self.outbound@.len() == 0,
            decreases pending@.len(),
        {
            let ghost prev_pending = pending@;
            let ghost prev_live = live@;
            let ghost prev_dead = dead@;
            let ghost prev_queued = queued;
            assert(records(prev_pending).len() == prev_pending.len());
            let mut o = pending.remove(0);
            assert(records(pending@) =~= before.subrange(done + 1, before.len() as int)) by {
                assert(pending@ =~= prev_pending.subrange(1, prev_pending.len() as int));
                assert forall|k: int| 0 <= k < pending@.len() implies #[trigger] records(pending@)[k]
                    == before[done + 1 + k] by {
                    assert(pending@[k] == prev_pending[k + 1]);
                    assert(records(prev_pending)[k + 1] == before.subrange(done, before.len() as int)[k + 1]);
                }
            }
            assert(record_of(o) == before[done]) by {
                assert(prev_pending[0] == o);
                assert(records(prev_pending)[0] == record_of(o));
                assert(before.subrange(done, before.len() as int)[0] == before[done]);
            }
            let delivered = try_deliver(&mut o.tx, msg.duplicate());
            let ghost entry = (before[done].0, before[done].1.push((msg@, delivered)));
            assert(record_of(o) == entry);
            proof {
                queued = queued.push(delivered);
                let prefix = before.subrange(0, done);
                let next_prefix = before.subrange(0, done + 1);
                let grown = offered(next_prefix, msg@, queued);
                assert(grown.drop_last() =~= offered(prefix, msg@, prev_queued));
                assert(grown.last() == entry);
                assert(queued.drop_last() =~= prev_queued);
                assert(negated(queued).drop_last() =~= negated(prev_queued));
                assert(negated(queued).last() == !delivered);
            }
            if delivered {
                live.push(o);
                proof {
                    assert(records(live@) =~= records(prev_live).push(entry));
                    assert(records(dead@) =~= records(prev_dead));
                }
            } else {
                dead.push(o);
                proof {
                    assert(records(dead@) =~= records(prev_dead).push(entry));
                    assert(records(live@) =~= records(prev_live));
                }
            }
            proof {
                done = done + 1;
            }
        }
        proof {
            assert(before.subrange(0, done) =~= before);
            let all = offered(before, msg@, queued);
            assert forall|i: int, j: int| 0 <= i < j < all.len() implies #[trigger] all[i].0
                < #[trigger] all[j].0 by {}
            assert forall|i: int| 0 <= i < all.len() implies #[trigger] all[i].0 < next by {
                assert(all[i].0 == before[i].0);
            }
            lemma_kept_increasing(all, queued, next);
            assert(records(live@) == kept(all, queued));
            assert forall|i: int| 0 <= i < live@.len() implies #[trigger] live@[i].slot@ < next by {
                assert(records(live@)[i] == record_of(live@[i]));
                assert(kept(all, queued)[i].0 < next);
            }
            assert forall|i: int, j: int| 0 <= i < j < records(live@).len() implies #[trigger] records(
                live@,
            )[i].0 < #[trigger] records(live@)[j].0 by {}
        }
        self.outbound = live;
        self.retired = dead;
        assert(queued.len() == before.len() && self@ == kept(offered(before, msg@, queued), queued)
            && self.retired() == kept(offered(before, msg@, queued), negated(queued)));
        self.outbound.len()
    }
}

/// Every channel registered when a broadcast began is offered its payload
/// exactly once, whether or not other channels turn out to be dead: each one
/// either stays registered with the payload queued as its latest message, or
/// is retired with the payload refused as its latest offer. Every channel
/// still registered queued the payload, and none is lost or added.
pub proof fn lemma_broadcast_reaches_every_channel(
    before: ClientRegistry,
    after: ClientRegistry,
    text: Seq<char>,
)
    requires
        broadcast_effect(before, after, text),
    ensures
        after@.len() + after.retired().len() == before@.len(),
        forall|i: int|
            0 <= i < before@.len() ==> after@.contains((before@[i].0, before@[i].1.push((text, true))))
                || after.retired().contains((before@[i].0, before@[i].1.push((text, false)))),
        forall|j: int| 0 <= j < after@.len() ==> (#[trigger] after@[j]).1.last() == (text, true),
        forall|j: int|
            0 <= j < after.retired().len() ==> (#[trigger] after.retired()[j]).1.last() == (text, false),
{
    let queued = choose|queued: Seq<bool>|
        #![trigger offered(before@, text, queued)]
        {
            &&& queued.len() == before@.len()
            &&& after@ == kept(offered(before@, text, queued), queued)
            &&& after.retired() == kept(offered(before@, text, queued), negated(queued))
        };
    let all = offered(before@, text, queued);
    lemma_kept_within(all, queued);
    assert(negated(negated(queued)) =~= queued);
    lemma_kept_within(all, negated(queued));
    assert forall|i: int| 0 <= i < before@.len() implies after@.contains(
        (before@[i].0, before@[i].1.push((text, true))),
    ) || after.retired().contains((before@[i].0, before@[i].1.push((text, false)))) by {
        assert(all[i] == (before@[i].0, before@[i].1.push((text, queued[i]))));
        if queued[i] {
            lemma_kept_contains(all, queued, i);
        } else {
            lemma_kept_contains(all, negated(queued), i);
        }
    }
    assert forall|i: int| 0 <= i < all.len() implies (#[trigger] all[i]).1.last() == (text, queued[i]) by {
        assert(all[i].1 == before@[i].1.push((text, queued[i])));
    }
    assert forall|j: int| 0 <= j < after@.len() implies (#[trigger] after@[j]).1.last() == (text, true) by {
        lemma_kept_flagged(all, queued, text, true, j);
    }
    assert forall|j: int| 0 <= j < after.retired().len() implies (#[trigger] after.retired()[j]).1.last()
        == (text, false) by {
        lemma_kept_flagged(all, negated(queued), text, false, j);
    }
}

/// An entry whose flag is set is kept.
proof fn lemma_kept_contains<A>(s: Seq<A>, keep: Seq<bool>, i: int)
    requires
        keep.len() == s.len(),
        0 <= i < s.len(),
        keep[i],
    ensures
        kept(s, keep).contains(s[i]),
    decreases s.len(),
{
    let n = s.len() - 1;
    if i == n {
        assert(kept(s, keep)[kept(s, keep).len() - 1] == s.last());
    } else {
        assert(s.drop_last()[i] == s[i]);
        assert(keep.drop_last()[i] == keep[i]);
        lemma_kept_contains(s.drop_last(), keep.drop_last(), i);
        let k = kept(s.drop_last(), keep.drop_last());
        let j = choose|j: int| 0 <= j < k.len() && k[j] == s[i];
        if keep.last() {
            assert(kept(s, keep)[j] == k[j]);
        }
    }
}

/// An entry kept from an offer carries the outcome `outcome` as its latest
/// offer, when every entry's latest offer was `text`, with outcome `outcome`
/// exactly where its flag is set.
proof fn lemma_kept_flagged(
    all: Seq<(nat, Seq<(Seq<char>, bool)>)>,
    keep: Seq<bool>,
    text: Seq<char>,
    outcome: bool,
    j: int,
)
    requires
        keep.len() == all.len(),
        forall|i: int|
            0 <= i < all.len() ==> (#[trigger] all[i]).1.last() == (text, if keep[i] {
                outcome
            } else {
                !outcome
            }),
        0 <= j < kept(all, keep).len(),
    ensures
        kept(all, keep)[j].1.last() == (text, outcome),
    decreases all.len(),
{
    let p = all.drop_last();
    let kp = keep.drop_last();
    assert forall|i: int| 0 <= i < p.len() implies (#[trigger] p[i]).1.last() == (text, if kp[i] {
        outcome
    } else {
        !outcome
    }) by {
        assert(p[i] == all[i] && kp[i] == keep[i]);
    }
    if keep.last() && j == kept(p, kp).len() {
        assert(all[all.len() - 1] == all.last());
    } else {
        lemma_kept_flagged(p, kp, text, outcome, j);
        if keep.last() {
            assert(kept(all, keep)[j] == kept(p, kp)[j]);
        }
    }
}

} // verus!
