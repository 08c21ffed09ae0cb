//! The event broadcast hub: one published event goes out to every
//! registered subscriber channel, each with its own unbounded queue.
//!
//! A subscriber whose receiving end has gone away is pruned exactly at
//! the delivery attempt that fails — publishing never fails and never
//! blocks. The wire form of an event is a server-push frame
//! `event: <type>\ndata: <json>\n\n`, composed here; the periodic
//! keep-alive on an exposed stream is the transport layer's business.

use vstd::prelude::*;
use tokio::sync::mpsc::{UnboundedReceiver, UnboundedSender};

verus! {

#[verifier::external_type_specification]
#[verifier::external_body]
#[verifier::reject_recursive_types(T)]
pub struct ExSender<T>(UnboundedSender<T>);

#[verifier::external_type_specification]
#[verifier::external_body]
#[verifier::reject_recursive_types(T)]
pub struct ExReceiver<T>(UnboundedReceiver<T>);

/// Relies on tokio::sync::mpsc::unbounded_channel: returns the sending
/// and receiving halves of a fresh unbounded queue.
#[verifier::external_body]
fn channel_pair() -> (r: (UnboundedSender<String>, UnboundedReceiver<String>)) {
    tokio::sync::mpsc::unbounded_channel()
}

/// Relies on tokio::sync::mpsc::UnboundedSender::send: it fails exactly
/// when the receiving half is gone, never blocks, and messages that
/// succeed arrive in send order.
#[verifier::external_body]
fn send_message(s: &UnboundedSender<String>, msg: String) -> (ok: bool) {
    s.send(msg).is_ok()
}

/// The wire frame for an event of type `event_type` carrying `data`.
pub open spec fn sse_frame(event_type: Seq<char>, data: Seq<char>) -> Seq<char> {
    seq!['e', 'v', 'e', 'n', 't', ':', ' '] + event_type + seq!['\n', 'd', 'a', 't', 'a', ':', ' ']
        + data + seq!['\n', '\n']
}

/// Compose the wire frame for one event.
pub fn compose_frame(event_type: &str, data: &str) -> (r: String)
    ensures
        r@ == sse_frame(event_type@, data@),
{
    let mut s = String::new();
    s.append("event: ");
    s.append(event_type);
    s.append("\ndata: ");
    s.append(data);
    s.append("\n\n");
    proof {
        reveal_strlit("event: ");
        reveal_strlit("\ndata: ");
        reveal_strlit("\n\n");
        assert("event: "@ =~= seq!['e', 'v', 'e', 'n', 't', ':', ' ']);
        assert("\ndata: "@ =~= seq!['\n', 'd', 'a', 't', 'a', ':', ' ']);
        assert("\n\n"@ =~= seq!['\n', '\n']);
        assert(s@ =~= sse_frame(event_type@, data@));
    }
    s
}

/// The subsequence of `s` picked out by the true positions of `keep`.
pub open spec fn mask(s: Seq<UnboundedSender<String>>, keep: Seq<bool>) -> Seq<UnboundedSender<String>>
    decreases s.len(),
{
    if s.len() == 0 || keep.len() == 0 {
        Seq::empty()
    } else {
        let rest = mask(s.drop_last(), keep.drop_last());
        if keep.last() {
            rest.push(s.last())
        } else {
            rest
        }
    }
}

/// A publish on which every delivery succeeds prunes nobody: the
/// registered set comes through unchanged.
pub proof fn lemma_mask_all_kept(s: Seq<UnboundedSender<String>>, keep: Seq<bool>)
    requires
        keep.len() == s.len(),
        forall|i: int| 0 <= i < keep.len() ==> keep[i],
    ensures
        mask(s, keep) == s,
    decreases s.len(),
{
    if s.len() > 0 {
        lemma_mask_all_kept(s.drop_last(), keep.drop_last());
        assert(keep.last());
        assert(mask(s, keep) =~= s);
    } else {
        assert(mask(s, keep) =~= s);
    }
}

/// The hub: the set of currently registered subscriber channels.
pub struct EventHub {
    pub senders: Vec<UnboundedSender<String>>,
}

impl EventHub {
    pub fn new() -> (r: EventHub)
        ensures
            r.senders@.len() == 0,
    {
        EventHub { senders: Vec::new() }
    }

    /// Register an already-made sending half.
    pub fn add_sse_sender(&mut self, sender: UnboundedSender<String>)
        ensures
            final(self).senders@ == old(self).senders@.push(sender),
    {
        self.senders.push(sender);
    }

    /// Register a fresh subscriber and hand back its receiving half;
    /// everything already registered stays registered, in order.
    pub fn subscribe(&mut self) -> (r: UnboundedReceiver<String>)
        ensures
            final(self).senders@.len() == old(self).senders@.len() + 1,
            forall|j: int|
                0 <= j < old(self).senders@.len() ==> final(self).senders@[j] == #[trigger] old(
                    self,
                ).senders@[j],
    {
        let (tx, rx) = channel_pair();
        self.senders.push(tx);
        rx
    }

    /// Publish one event: compose its wire frame and attempt delivery
    /// to every registered subscriber, in registration order. Exactly
    /// the subscribers whose delivery succeeded stay registered — a
    /// failed delivery prunes that subscriber and nothing else, and the
    /// publish itself cannot fail.
    pub fn broadcast_sse(&mut self, event_type: &str, data: &str)
        ensures
            exists|keep: Seq<bool>|
                #![auto]
                keep.len() == old(self).senders@.len() && final(self).senders@ == mask(
                    old(self).senders@,
                    keep,
                ),
            final(self).senders@.len() <= old(self).senders@.len(),
    {
        let msg = compose_frame(event_type, data);
        let ghost orig = self.senders@;
        let mut kept: Vec<UnboundedSender<String>> = Vec::new();
        let ghost mut keep: Seq<bool> = Seq::empty();
        while self.senders.len() > 0
            invariant
                keep.len() <= orig.len(),
                self.senders@ =~= orig.skip(keep.len() as int),
                kept@ == mask(orig.take(keep.len() as int), keep),
                kept@.len() <= keep.len(),
            decreases self.senders@.len(),
        {
            let ghost k = keep.len() as int;
            let s = self.senders.remove(0);
            proof {
                assert(s == orig[k]);
                assert(self.senders@ =~= orig.skip(k + 1));
            }
            let ok = send_message(&s, msg.clone());
            if ok {
                kept.push(s);
            }
            proof {
                let keep0 = keep;
                keep = keep.push(ok);
                assert(keep.drop_last() =~= keep0);
                assert(keep.last() == ok);
                assert(orig.take(k + 1).drop_last() =~= orig.take(k));
                assert(orig.take(k + 1).last() == orig[k]);
                assert(mask(orig.take(k + 1), keep) == if ok {
                    mask(orig.take(k), keep0).push(orig[k])
                } else {
                    mask(orig.take(k), keep0)
                });
                assert(kept@ == mask(orig.take(k + 1), keep));
            }
        }
        proof {
            assert(keep.len() == orig.len());
            assert(orig.take(orig.len() as int) =~= orig);
        }
        self.senders = kept;
        proof {
            assert(final(self).senders@ == mask(orig, keep));
        }
    }
}

} // verus!
