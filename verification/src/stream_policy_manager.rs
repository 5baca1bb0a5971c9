//! Keeping the producer side of every live stream in line with the stream
//! policy of its event system.
use crate::stream_name::StreamName;
use crate::stream_policy::{StreamPolicy, StreamRule};
use std::sync::atomic::{AtomicBool, Ordering};
use std::sync::Arc;
use vstd::prelude::*;

verus! {

/// A handle that tells whether a registered stream still exists (its guard
/// has not been dropped). The answer changes as other owners drop their
/// handles, so nothing is promised of it.
pub trait StreamLiveness {
    fn is_alive(&self) -> bool;
}

/// `Arc::clone`: another pointer to the same allocation, so to the same
/// value.
#[verifier::external_body]
fn share<T>(a: &Arc<T>) -> (r: Arc<T>)
    ensures
        r == *a,
{
    Arc::clone(a)
}

/// Whether a stream may emit events, shared between the producers of the
/// stream and the policy manager. Producers read it while the manager may
/// change it, so a read promises nothing.
#[derive(Debug)]
pub struct AtomicStreamRule {
    is_on: AtomicBool,
}

impl AtomicStreamRule {
    /// A shared rule that starts as `stream_rule`.
    pub fn from_rule(stream_rule: StreamRule) -> (r: AtomicStreamRule) {
        let is_on = match stream_rule {
            StreamRule::On => true,
            StreamRule::Off => false,
        };
        AtomicStreamRule { is_on: AtomicBool::new(is_on) }
    }

    /// Whether events are currently on.
    pub fn is_on(&self) -> bool {
        self.is_on.load(Ordering::Relaxed)
    }

    /// Sets the rule.
    pub fn store(&self, stream_rule: StreamRule) {
        let is_on = match stream_rule {
            StreamRule::On => true,
            StreamRule::Off => false,
        };
        self.is_on.store(is_on, Ordering::Relaxed)
    }
}

/// A registered stream: a weak handle to its guard, its name, its shared
/// rule, and the rule last assigned to it.
pub struct StreamRef<L: StreamLiveness> {
    stream_guard: L,
    stream_name: StreamName,
    atomic_stream_rule: Arc<AtomicStreamRule>,
    assigned: StreamRule,
}

/// The streams of an event system and the policy that they follow.
pub struct StreamPolicyManager<L: StreamLiveness> {
    stream_refs: Vec<StreamRef<L>>,
    stream_policy: StreamPolicy,
    liveness_answers: Ghost<Seq<bool>>,
}

/// The names of the registered streams and the rule assigned to each.
pub open spec fn assignments_follow(
    policy: StreamPolicy,
    streams: Seq<(Seq<char>, StreamRule)>,
) -> bool {
    forall|i: int| 0 <= i < streams.len() ==> (#[trigger] streams[i]).1 == policy.rule_for(streams[i].0)
}

/// Asks whether the stream of `stream_ref` is still alive, and records the
/// answer in front of `answers`.
fn ask_alive<L: StreamLiveness>(stream_ref: &StreamRef<L>, answers: &mut Ghost<Seq<bool>>) -> (r: bool)
    ensures
        final(answers)@ == seq![r] + old(answers)@,
{
    let is_alive = stream_ref.stream_guard.is_alive();
    proof {
        answers@ = seq![is_alive] + answers@;
    }
    is_alive
}

/// The items of `s` whose flag in `alive` is set, in order.
pub open spec fn kept_items<A>(s: Seq<A>, alive: Seq<bool>) -> Seq<A>
    decreases s.len(),
{
    if s.len() == 0 {
        Seq::empty()
    } else if alive.len() > 0 && alive[0] {
        seq![s[0]] + kept_items(s.drop_first(), alive.drop_first())
    } else {
        kept_items(s.drop_first(), alive.drop_first())
    }
}

impl<L: StreamLiveness> StreamPolicyManager<L> {
    /// The policy in force.
    pub closed spec fn policy(&self) -> StreamPolicy {
        self.stream_policy
    }

    /// The registered streams: the name of each and the rule assigned to it.
    pub closed spec fn streams(&self) -> Seq<(Seq<char>, StreamRule)> {
        self.stream_refs@.map_values(|r: StreamRef<L>| (r.stream_name@, r.assigned))
    }

    /// What the liveness check of the last pruning answered for each of the
    /// streams registered before it, in their order.
    pub closed spec fn liveness_answers(&self) -> Seq<bool> {
        self.liveness_answers@
    }

    /// Every registered stream has been assigned the rule that the policy in
    /// force gives it.
    pub open spec fn consistent(&self) -> bool {
        assignments_follow(self.policy(), self.streams())
    }

    /// A manager is always consistent.
    #[verifier::type_invariant]
    closed spec fn always_consistent(&self) -> bool {
        assignments_follow(self.stream_policy, self.streams())
    }

    /// A manager with no streams, following the policy `off`.
    pub fn new() -> (r: Self)
        ensures
            r.streams().len() == 0,
            r.policy().default_view() == StreamRule::Off,
            r.policy().rules_view().len() == 0,
            r.policy().wf(),
            r.consistent(),
    {
        StreamPolicyManager {
            stream_refs: Vec::new(),
            stream_policy: StreamPolicy::off(),
            liveness_answers: Ghost(Seq::empty()),
        }
    }

    /// Makes `new_stream_policy` the policy in force: the streams whose
    /// guard is gone are forgotten, and every stream left is assigned the rule
    /// that the new policy gives it. Exactly the streams that the liveness
    /// check answers alive are kept, in order.
    pub fn set_stream_policy(&mut self, new_stream_policy: StreamPolicy)
        ensures
            final(self).policy() == new_stream_policy,
            final(self).consistent(),
            final(self).liveness_answers().len() == old(self).streams().len(),
            final(self).streams() == kept_items(
                old(self).streams(),
                final(self).liveness_answers(),
            ).map_values(|x: (Seq<char>, StreamRule)| (x.0, new_stream_policy.rule_for(x.0))),
    {
        self.prune_dead_streams();
        let ghost pruned = self.streams();
        let mut updated: Vec<StreamRef<L>> = Vec::new();
        let mut rest: Vec<StreamRef<L>> = Vec::new();
        std::mem::swap(&mut rest, &mut self.stream_refs);
        let ghost all = rest@;
        assert(pruned == all.map_values(|r: StreamRef<L>| (r.stream_name@, r.assigned)));
        while rest.len() > 0
            invariant
                updated@.len() + rest@.len() == all.len(),
                rest@ == all.take(rest@.len() as int),
                forall|i: int| 0 <= i < updated@.len() ==> (#[trigger] updated@[i]).stream_name@ == all[rest@.len() + i].stream_name@
                    && updated@[i].assigned == new_stream_policy.rule_for(updated@[i].stream_name@),
            decreases rest@.len(),
        {
            let ghost k = rest@.len() - 1;
            let ghost before = rest@;
            let mut stream_ref = rest.pop().unwrap();
            proof {
                assert(before[k] == all[k]);
                assert(rest@ =~= all.take(k));
            }
            let stream_rule = new_stream_policy.stream_rule(&stream_ref.stream_name);
            stream_ref.atomic_stream_rule.store(stream_rule);
            stream_ref.assigned = stream_rule;
            updated.insert(0, stream_ref);
        }
        self.stream_policy = new_stream_policy;
        self.stream_refs = updated;
        proof {
            assert(self.streams() =~= pruned.map_values(
                |x: (Seq<char>, StreamRule)| (x.0, new_stream_policy.rule_for(x.0)),
            ));
        }
    }

    /// Registers a new stream named `stream_name`, whose liveness `stream`
    /// tells, and returns its shared rule, set to the rule that the policy in
    /// force gives it. Streams that are gone are forgotten first: exactly
    /// the streams that the liveness check answers alive are kept, in order,
    /// and the new stream comes after them.
    pub fn register_new_stream(&mut self, stream: L, stream_name: StreamName) -> (r: Arc<
        AtomicStreamRule,
    >)
        ensures
            final(self).policy() == old(self).policy(),
            final(self).consistent(),
            final(self).liveness_answers().len() == old(self).streams().len(),
            final(self).streams() == kept_items(
                old(self).streams(),
                final(self).liveness_answers(),
            ).push((stream_name@, old(self).policy().rule_for(stream_name@))),
    {
        self.prune_dead_streams();
        proof {
            use_type_invariant(&*self);
        }
        let stream_rule = self.stream_policy.stream_rule(&stream_name);
        let atomic_stream_rule = Arc::new(AtomicStreamRule::from_rule(stream_rule));
        let stream_ref = StreamRef {
            stream_guard: stream,
            stream_name,
            atomic_stream_rule: share(&atomic_stream_rule),
            assigned: stream_rule,
        };
        let ghost before = self.streams();
        let mut stream_refs: Vec<StreamRef<L>> = Vec::new();
        std::mem::swap(&mut stream_refs, &mut self.stream_refs);
        stream_refs.push(stream_ref);
        proof {
            let pushed = stream_refs@.map_values(|r: StreamRef<L>| (r.stream_name@, r.assigned));
            assert(pushed =~= before.push((stream_name@, stream_rule)));
            assert(assignments_follow(self.stream_policy, pushed));
        }
        self.stream_refs = stream_refs;
        proof {
            assert(self.streams() =~= before.push((stream_name@, stream_rule)));
        }
        atomic_stream_rule
    }

    /// Forgets the streams whose guard is gone, keeping the others in order:
    /// the streams left are those of the old streams, in order, for which
    /// the liveness check answered that they are alive.
    fn prune_dead_streams(&mut self)
        ensures
            final(self).policy() == old(self).policy(),
            final(self).liveness_answers().len() == old(self).streams().len(),
            final(self).streams() == kept_items(old(self).streams(), final(self).liveness_answers()),
            final(self).consistent(),
            forall|i: int| 0 <= i < final(self).streams().len() ==> old(self).streams().contains(
                #[trigger] final(self).streams()[i],
            ),
    {
        proof {
            use_type_invariant(&*self);
        }
        let mut kept: Vec<StreamRef<L>> = Vec::new();
        let mut rest: Vec<StreamRef<L>> = Vec::new();
        std::mem::swap(&mut rest, &mut self.stream_refs);
        let ghost all = rest@;
        let ghost all_view = old(self).streams();
        let mut alive: Ghost<Seq<bool>> = Ghost(Seq::empty());
        while rest.len() > 0
            invariant
                rest@.len() <= all.len(),
                alive@.len() == all.len() - rest@.len(),
                kept@.map_values(|r: StreamRef<L>| (r.stream_name@, r.assigned)) == kept_items(
                    all_view.skip(rest@.len() as int),
                    alive@,
                ),
                rest@ == all.take(rest@.len() as int),
                all_view == all.map_values(|r: StreamRef<L>| (r.stream_name@, r.assigned)),
                forall|i: int| 0 <= i < kept@.len() ==> all_view.contains(
                    (#[trigger] kept@[i].stream_name@, kept@[i].assigned),
                ),
            decreases rest@.len(),
        {
            let ghost k = rest@.len() - 1;
            let ghost before = rest@;
            let stream_ref = rest.pop().unwrap();
            proof {
                assert(before[k] == all[k]);
                assert(rest@ =~= all.take(k));
                assert(all_view[k] == (stream_ref.stream_name@, stream_ref.assigned));
            }
            let ghost old_kept = kept@;
            let ghost old_alive = alive@;
            let is_alive = ask_alive(&stream_ref, &mut alive);
            let ghost item = (stream_ref.stream_name@, stream_ref.assigned);
            if is_alive {
                kept.insert(0, stream_ref);
            }
            proof {
                let suffix = all_view.skip(k);
                assert(suffix.drop_first() =~= all_view.skip(k + 1));
                assert(suffix[0] == item);
                let new_alive = alive@;
                assert(new_alive.drop_first() =~= old_alive);
                if is_alive {
                    assert(kept@.map_values(|r: StreamRef<L>| (r.stream_name@, r.assigned))
                        =~= seq![item] + old_kept.map_values(
                        |r: StreamRef<L>| (r.stream_name@, r.assigned),
                    ));
                } else {
                    assert(kept@ == old_kept);
                }
            }
        }
        self.stream_refs = kept;
        self.liveness_answers = alive;
        proof {
            assert(all_view.skip(0) =~= all_view);
            assert(self.streams() == kept_items(all_view, alive@));
            assert forall|i: int| 0 <= i < self.streams().len() implies all_view.contains(
                #[trigger] self.streams()[i],
            ) by {
                assert(self.streams()[i] == (kept@[i].stream_name@, kept@[i].assigned));
            }
            if assignments_follow(old(self).policy(), all_view) {
                assert forall|i: int| 0 <= i < self.streams().len() implies (#[trigger] self.streams()[i]).1
                    == self.policy().rule_for(self.streams()[i].0) by {
                    let x = self.streams()[i];
                    assert(all_view.contains(x));
                    let j = choose|j: int| 0 <= j < all_view.len() && all_view[j] == x;
                    assert(all_view[j].1 == old(self).policy().rule_for(all_view[j].0));
                }
            }
        }
    }
}

} // verus!
