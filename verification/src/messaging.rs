//! Sending, delivering and dropping messages.
//!
//! A message is queued with the time at which it is due. Delivering it is a
//! step of its own, taken by whoever drives the model.

use vstd::prelude::*;
use crate::byzantine::AttackPhase;
use crate::duplicate::Duplicate;
use crate::consensus::{has_voted_by, voted_by};
use crate::network::{
    base_latency, congestion_delay, dropped_by, link_utilization, model_latency, spiked_latency,
    CoordinationInstruction, CoordinationInstructionView, DeliveredMessage, DeliveredMessageView,
    MessageContent, MessageContentView, MessagePriority, MessageQueueView, PendingMessage,
    PendingMessageView,
};
use crate::sorted_map::lemma_deep_insert;
use crate::state::{AlpenglowState, StateView};
use crate::types::NodeId;

verus! {

/// The ids of the pending messages, in the order of the queue.
pub open spec fn pending_ids(pending: Seq<PendingMessageView>) -> Seq<u64> {
    pending.map_values(|m: PendingMessageView| m.id)
}

/// The first `n` messages of `pending` without those whose id is `id`.
pub open spec fn without_id(pending: Seq<PendingMessageView>, id: u64, n: int) -> Seq<PendingMessageView>
    decreases n,
{
    if n <= 0 {
        Seq::empty()
    } else if pending[n - 1].id == id {
        without_id(pending, id, n - 1)
    } else {
        without_id(pending, id, n - 1).push(pending[n - 1])
    }
}

impl StateView {
    /// Whether a partition separates `from` and `to`: one of them is in one group, the other in the other.
    pub open spec fn crosses_partition(self, from: NodeId, to: NodeId) -> bool {
        match self.network_partition {
            Some(p) => (p.partition_a.contains(from) && p.partition_b.contains(to)) || (p.partition_b.contains(
                from,
            ) && p.partition_a.contains(to)),
            None => false,
        }
    }

    /// The latency of a message from `from` to `to` sent now: what the
    /// latency model gives, multiplied by every latency spike in force.
    pub open spec fn link_latency(self, from: NodeId, to: NodeId) -> int {
        spiked_latency(
            self.network_state.failure_injections,
            self.network_state.failure_injections.len() as int,
            base_latency(
                self.network_state.latency_model,
                link_utilization(self.network_state.congestion_state, from, to),
                from,
                to,
                self.global_time,
            ),
            self.global_time,
        )
    }

    /// The time that a message from `from` to `to` sent now takes: the latency of the link and its congestion delay.
    pub open spec fn transit_time(self, from: NodeId, to: NodeId) -> int {
        self.link_latency(from, to) + congestion_delay(
            self.network_state.congestion_state,
            from,
            to,
            self.link_latency(from, to),
        )
    }

    /// Whether a message from `from` to `to` sent now is lost: a partition
    /// separates the two, or a failure in force drops it.
    pub open spec fn loses(self, from: NodeId, to: NodeId) -> bool {
        self.crosses_partition(from, to) || dropped_by(
            self.network_state.failure_injections,
            self.network_state.failure_injections.len() as int,
            from,
            to,
            self.global_time,
        )
    }

    /// The state after `from` has sent `content` to `to`. A message that is
    /// not lost joins the queue under the next id, due after its transit
    /// time. Nothing changes where the message is lost, or where its due
    /// time or the next id leaves the range of its type.
    pub open spec fn send_message(
        self,
        from: NodeId,
        to: NodeId,
        content: MessageContentView,
        priority: MessagePriority,
    ) -> StateView {
        let due = self.global_time + self.transit_time(from, to);
        if self.loses(from, to) || due > u64::MAX || self.message_queue.message_counter == u64::MAX {
            self
        } else {
            StateView {
                message_queue: MessageQueueView {
                    pending_messages: self.message_queue.pending_messages.push(
                        PendingMessageView {
                            id: self.message_queue.message_counter,
                            from,
                            to,
                            content,
                            send_time: self.global_time,
                            scheduled_delivery_time: due as u64,
                            priority,
                            retry_count: 0,
                        },
                    ),
                    message_counter: (self.message_queue.message_counter + 1) as u64,
                    ..self.message_queue
                },
                ..self
            }
        }
    }

    /// The state after `content` has reached `to`.
    ///
    /// - A vote joins the list that `to` keeps for the vote's slot, unless
    ///   the list holds a vote of the same node for the same block and path.
    /// - A certificate or skip certificate takes the place of the one for its slot.
    /// - An instruction to a coalition sets the phase of the coalition, or ends it.
    /// - Gossip and heartbeats change nothing.
    pub open spec fn apply_content(self, to: NodeId, content: MessageContentView) -> StateView {
        match content {
            MessageContentView::Vote(v) => {
                if self.has_vote_list(to, v.slot) && !voted_by(self.votes[to][v.slot], v.node, v.block, v.path) {
                    self.append_vote(to, v)
                } else {
                    self
                }
            },
            MessageContentView::Certificate(c) => StateView {
                certificates: self.certificates.insert(c.slot, c),
                ..self
            },
            MessageContentView::SkipCertificate(c) => StateView {
                skip_certs: self.skip_certs.insert(c.slot, c),
                ..self
            },
            MessageContentView::CoalitionCoordination { coalition_id, instruction } => {
                if self.coalition_state.contains_key(coalition_id) {
                    let current = self.coalition_state[coalition_id];
                    let next = match instruction {
                        CoordinationInstructionView::PrepareAttack { .. } => crate::byzantine::CoalitionState {
                            current_phase: AttackPhase::Preparation,
                            ..current
                        },
                        CoordinationInstructionView::ExecuteAttack { .. } => crate::byzantine::CoalitionState {
                            current_phase: AttackPhase::Execution,
                            ..current
                        },
                        CoordinationInstructionView::AbortAttack { .. } => crate::byzantine::CoalitionState {
                            active: false,
                            ..current
                        },
                    };
                    StateView { coalition_state: self.coalition_state.insert(coalition_id, next), ..self }
                } else {
                    self
                }
            },
            _ => self,
        }
    }

    /// The state after the first pending message with id `id` has been
    /// delivered: its content applied, the message moved to the delivered
    /// log with the time it took. Nothing changes where no pending message
    /// has the id, or the message was sent after now.
    pub open spec fn deliver_message(self, id: u64) -> StateView {
        match pending_ids(self.message_queue.pending_messages).index_of_first(id) {
            None => self,
            Some(i) => {
                let m = self.message_queue.pending_messages[i];
                if self.global_time < m.send_time {
                    self
                } else {
                    let applied = self.apply_content(m.to, m.content);
                    StateView {
                        message_queue: MessageQueueView {
                            pending_messages: self.message_queue.pending_messages.remove(i),
                            delivered_messages: self.message_queue.delivered_messages.push(
                                DeliveredMessageView {
                                    id: m.id,
                                    from: m.from,
                                    to: m.to,
                                    content: m.content,
                                    send_time: m.send_time,
                                    delivery_time: self.global_time,
                                    actual_latency: (self.global_time - m.send_time) as u64,
                                },
                            ),
                            ..self.message_queue
                        },
                        ..applied
                    }
                }
            },
        }
    }

    /// The state after every pending message with id `id` has been dropped.
    pub open spec fn drop_message(self, id: u64) -> StateView {
        StateView {
            message_queue: MessageQueueView {
                pending_messages: without_id(
                    self.message_queue.pending_messages,
                    id,
                    self.message_queue.pending_messages.len() as int,
                ),
                ..self.message_queue
            },
            ..self
        }
    }
}

impl AlpenglowState {
    /// The latency of a message from `from` to `to` sent now in `state`, before spikes and congestion.
    pub fn calculate_latency(&self, state: &AlpenglowState, from: NodeId, to: NodeId) -> (l: u64)
        requires
            state.network_state.wf(),
        ensures
            l == base_latency(
                state.deep_view().network_state.latency_model,
                link_utilization(state.deep_view().network_state.congestion_state, from, to),
                from,
                to,
                state.deep_view().global_time,
            ),
    {
        let u = state.network_state.utilization(from, to);
        model_latency(&state.network_state.latency_model, u, from, to, state.global_time)
    }

    /// Whether a partition separates `from` and `to`.
    fn crosses_partition(&self, from: NodeId, to: NodeId) -> (b: bool)
        requires
            self.wf(),
        ensures
            b == self.deep_view().crosses_partition(from, to),
    {
        match &self.network_partition {
            Some(p) => (p.partition_a.contains(&from) && p.partition_b.contains(&to)) || (p.partition_b.contains(
                &from,
            ) && p.partition_a.contains(&to)),
            None => false,
        }
    }

    /// `from` sends `content` to `to`.
    pub fn handle_send_message(
        &mut self,
        from: NodeId,
        to: NodeId,
        content: MessageContent,
        priority: MessagePriority,
    )
        requires
            old(self).wf(),
        ensures
            final(self).wf(),
            final(self).deep_view() == old(self).deep_view().send_message(
                from,
                to,
                content.deep_view(),
                priority,
            ),
    {
        if self.crosses_partition(from, to) {
            return ;
        }
        let now = self.global_time;
        if self.network_state.drops(from, to, now) {
            return ;
        }
        let base = self.calculate_latency(&*self, from, to);
        let latency = self.network_state.apply_spikes(base, now);
        let delay = self.network_state.congestion_delay_for(from, to, latency);
        let total: u128 = latency as u128 + delay as u128;
        let due: u128 = now as u128 + total;
        if due > u64::MAX as u128 || self.message_queue.message_counter == u64::MAX {
            return ;
        }
        let id = self.message_queue.message_counter;
        self.message_queue.message_counter = id + 1;
        let message = PendingMessage {
            id,
            from,
            to,
            content,
            send_time: now,
            scheduled_delivery_time: due as u64,
            priority,
            retry_count: 0,
        };
        let ghost m = message;
        self.message_queue.pending_messages.push(message);
        proof {
            assert(self.message_queue.pending_messages.deep_view() =~= old(
                self,
            ).message_queue.pending_messages.deep_view().push(m.deep_view()));
            assert(self.deep_view() =~= old(self).deep_view().send_message(
                from,
                to,
                content.deep_view(),
                priority,
            ));
        }
    }

    /// The position of the first pending message with id `id`.
    fn find_pending(&self, id: u64) -> (r: Option<usize>)
        ensures
            match r {
                Some(i) => pending_ids(self.deep_view().message_queue.pending_messages).index_of_first(id)
                    == Some(i as int) && i < self.message_queue.pending_messages@.len(),
                None => pending_ids(self.deep_view().message_queue.pending_messages).index_of_first(id)
                    is None,
            },
    {
        let ghost ids = pending_ids(self.deep_view().message_queue.pending_messages);
        proof {
            ids.index_of_first_ensures(id);
        }
        let mut i: usize = 0;
        while i < self.message_queue.pending_messages.len()
            invariant
                i <= self.message_queue.pending_messages@.len(),
                ids == pending_ids(self.deep_view().message_queue.pending_messages),
                ids.len() == self.message_queue.pending_messages@.len(),
                forall|j: int| 0 <= j < i ==> ids[j] != id,
                match ids.index_of_first(id) {
                    Some(p) => 0 <= p < ids.len() && ids[p] == id && forall|j: int| 0 <= j < p ==> ids[j] != id,
                    None => !ids.contains(id),
                },
            decreases self.message_queue.pending_messages@.len() - i,
        {
            assert(ids[i as int] == self.message_queue.pending_messages@[i as int].id);
            if self.message_queue.pending_messages[i].id == id {
                return Some(i);
            }
            i += 1;
        }
        None
    }

    /// `content` reaches `to`.
    pub fn apply_content(&mut self, to: NodeId, content: &MessageContent)
        requires
            old(self).wf(),
        ensures
            final(self).wf(),
            final(self).deep_view() == old(self).deep_view().apply_content(to, content.deep_view()),
    {
        let ghost before = *self;
        match content {
            MessageContent::Vote(v) => {
                let fresh = match self.votes_of(to, v.slot) {
                    Some(list) => !has_voted_by(list, v.node, v.block, v.path),
                    None => false,
                };
                if fresh {
                    self.append_vote(to, *v);
                }
            },
            MessageContent::Certificate(c) => {
                let copy = c.duplicate();
                self.certificates.insert(c.slot, copy);
                proof {
                    lemma_deep_insert(before.certificates, self.certificates, c.slot, copy);
                    assert(self.deep_view() =~= before.deep_view().apply_content(to, content.deep_view()));
                }
            },
            MessageContent::SkipCertificate(c) => {
                let copy = c.duplicate();
                self.skip_certs.insert(c.slot, copy);
                proof {
                    lemma_deep_insert(before.skip_certs, self.skip_certs, c.slot, copy);
                    assert(self.deep_view() =~= before.deep_view().apply_content(to, content.deep_view()));
                }
            },
            MessageContent::CoalitionCoordination { coalition_id, instruction } => {
                match self.coalition_state.get_mut(coalition_id) {
                    Some(coalition) => {
                        match instruction {
                            CoordinationInstruction::PrepareAttack { target_slot: _ } => {
                                coalition.current_phase = AttackPhase::Preparation;
                            },
                            CoordinationInstruction::ExecuteAttack { strategy: _ } => {
                                coalition.current_phase = AttackPhase::Execution;
                            },
                            CoordinationInstruction::AbortAttack { reason: _ } => {
                                coalition.active = false;
                            },
                        }
                    },
                    None => {},
                }
                proof {
                    assert(self.deep_view() =~= before.deep_view().apply_content(to, content.deep_view()));
                }
            },
            _ => {},
        }
    }

    /// Delivers the first pending message with id `message_id`.
    pub fn handle_deliver_message(&mut self, message_id: u64)
        requires
            old(self).wf(),
        ensures
            final(self).wf(),
            final(self).deep_view() == old(self).deep_view().deliver_message(message_id),
    {
        match self.find_pending(message_id) {
            None => {},
            Some(pos) => {
                let now = self.global_time;
                if now < self.message_queue.pending_messages[pos].send_time {
                    return ;
                }
                let ghost before = *self;
                assert(before.deep_view().message_queue.pending_messages[pos as int]
                    == before.message_queue.pending_messages@[pos as int].deep_view());
                let message = self.message_queue.pending_messages.remove(pos);
                let ghost mid = *self;
                assert(mid.message_queue.pending_messages.deep_view() =~= before.message_queue.pending_messages.deep_view().remove(
                    pos as int,
                ));
                self.apply_content(message.to, &message.content);
                let ghost applied = *self;
                proof {
                    // the queue does not matter to what a message does on arrival
                    let a = before.deep_view().apply_content(message.to, message.content.deep_view());
                    let b = mid.deep_view().apply_content(message.to, message.content.deep_view());
                    assert(b =~= StateView { message_queue: mid.deep_view().message_queue, ..a });
                }
                let delivered = DeliveredMessage {
                    id: message.id,
                    from: message.from,
                    to: message.to,
                    content: message.content,
                    send_time: message.send_time,
                    delivery_time: now,
                    actual_latency: now - message.send_time,
                };
                let ghost d = delivered;
                self.message_queue.delivered_messages.push(delivered);
                proof {
                    assert(self.message_queue.delivered_messages.deep_view()
                        =~= applied.message_queue.delivered_messages.deep_view().push(d.deep_view()));
                    assert(self.deep_view() =~= before.deep_view().deliver_message(message_id));
                }
            },
        }
    }

    /// Drops every pending message with id `message_id`.
    pub fn handle_drop_message(&mut self, message_id: u64)
        requires
            old(self).wf(),
        ensures
            final(self).wf(),
            final(self).deep_view() == old(self).deep_view().drop_message(message_id),
    {
        let ghost orig = old(self).deep_view().message_queue.pending_messages;
        let ghost mut k: int = 0;
        let mut i: usize = 0;
        assert(self.message_queue.pending_messages.deep_view() =~= without_id(orig, message_id, 0) + orig.subrange(
            0,
            orig.len() as int,
        ));
        while i < self.message_queue.pending_messages.len()
            invariant
                self.wf(),
                0 <= k <= orig.len(),
                i == without_id(orig, message_id, k).len(),
                self.message_queue.pending_messages@.len() == i + orig.len() - k,
                self.message_queue.pending_messages.deep_view() == without_id(orig, message_id, k)
                    + orig.subrange(k, orig.len() as int),
                self.deep_view() == (StateView {
                    message_queue: MessageQueueView {
                        pending_messages: self.message_queue.pending_messages.deep_view(),
                        ..old(self).deep_view().message_queue
                    },
                    ..old(self).deep_view()
                }),
            decreases self.message_queue.pending_messages@.len() - i,
        {
            let ghost cur = self.message_queue.pending_messages.deep_view();
            assert(cur[i as int] == orig[k]);
            assert(cur[i as int] == self.message_queue.pending_messages@[i as int].deep_view());
            if self.message_queue.pending_messages[i].id == message_id {
                self.message_queue.pending_messages.remove(i);
                proof {
                    assert(self.message_queue.pending_messages.deep_view() =~= cur.remove(i as int));
                    k = k + 1;
                    assert(self.message_queue.pending_messages.deep_view() =~= without_id(orig, message_id, k)
                        + orig.subrange(k, orig.len() as int));
                }
            } else {
                i += 1;
                proof {
                    k = k + 1;
                    assert(self.message_queue.pending_messages.deep_view() =~= without_id(orig, message_id, k)
                        + orig.subrange(k, orig.len() as int));
                }
            }
            assert(self.deep_view() =~= StateView {
                message_queue: MessageQueueView {
                    pending_messages: self.message_queue.pending_messages.deep_view(),
                    ..old(self).deep_view().message_queue
                },
                ..old(self).deep_view()
            });
        }
        proof {
            assert(k == orig.len());
            assert(self.message_queue.pending_messages.deep_view() =~= without_id(
                orig,
                message_id,
                orig.len() as int,
            ));
        }
    }
}

} // verus!
