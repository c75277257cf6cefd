//! Acknowledgment bookkeeping of one connection, in both directions, and the
//! scheduling decisions of the confirmer.
use crate::header::{id_order, PackageId};
use vstd::prelude::*;

verus! {

/// A sent reliable package that awaits its confirmation. Times are
/// milliseconds of a monotonic clock.
#[derive(Clone, Copy, Debug, PartialEq, Eq, Structural)]
pub struct PendingConfirmation {
    pub id: PackageId,
    /// When the package was first sent.
    pub sent: u64,
    /// When the package is to be sent again unless confirmed.
    pub resend: u64,
    /// How many times the package has been sent again.
    pub retries: u32,
}

/// `t + d`, or the latest representable time if that overflows.
pub open spec fn later(t: u64, d: u64) -> u64 {
    if t + d <= u64::MAX { (t + d) as u64 } else { u64::MAX }
}

/// An acknowledgment of `ack` retires a pending package that it does not
/// precede in the circular ID order.
pub open spec fn is_retired(e: PendingConfirmation, ack: PackageId) -> bool {
    id_order(e.id@, ack@) != core::cmp::Ordering::Greater
}

/// A package has been waiting for its confirmation for too long.
pub open spec fn is_expired(e: PendingConfirmation, now: u64, give_up: u64) -> bool {
    now >= e.sent + give_up
}

/// A package is due to be sent again.
pub open spec fn is_due(e: PendingConfirmation, now: u64) -> bool {
    e.resend <= now
}

/// The entry after a package has been sent again at `now`.
pub open spec fn resent(e: PendingConfirmation, now: u64, retry_interval: u64) -> PendingConfirmation {
    PendingConfirmation {
        resend: later(now, retry_interval),
        retries: if e.retries < u32::MAX { (e.retries + 1) as u32 } else { e.retries },
        ..e
    }
}

/// Pending packages that an acknowledgment of `ack` leaves pending.
pub open spec fn unretired(s: Seq<PendingConfirmation>, ack: PackageId) -> Seq<PendingConfirmation> {
    s.filter(keeps_unretired(ack))
}

pub open spec fn keeps_unretired(ack: PackageId) -> spec_fn(PendingConfirmation) -> bool {
    |e: PendingConfirmation| !is_retired(e, ack)
}

pub open spec fn keeps_unexpired(now: u64, give_up: u64) -> spec_fn(PendingConfirmation) -> bool {
    |e: PendingConfirmation| !is_expired(e, now, give_up)
}

/// Pending packages that have not expired at `now`.
pub open spec fn unexpired(s: Seq<PendingConfirmation>, now: u64, give_up: u64) -> Seq<PendingConfirmation> {
    s.filter(keeps_unexpired(now, give_up))
}

/// IDs of the pending packages due to be sent again at `now`, in order.
pub open spec fn due_ids(s: Seq<PendingConfirmation>, now: u64) -> Seq<PackageId> {
    s.filter(|e: PendingConfirmation| is_due(e, now)).map_values(|e: PendingConfirmation| e.id)
}

/// Pending packages after those due at `now` were sent again.
pub open spec fn after_resend(s: Seq<PendingConfirmation>, now: u64, retry_interval: u64) -> Seq<
    PendingConfirmation,
> {
    s.map_values(
        |e: PendingConfirmation|
            if is_due(e, now) {
                resent(e, now, retry_interval)
            } else {
                e
            },
    )
}

/// The earliest resend time of the pending packages, and `bound` if that is
/// earlier.
pub open spec fn earliest(s: Seq<PendingConfirmation>, bound: u64) -> u64
    decreases s.len(),
{
    if s.len() == 0 {
        bound
    } else {
        let rest = earliest(s.drop_last(), bound);
        if s.last().resend < rest { s.last().resend } else { rest }
    }
}

/// A pending package is sent again once its retry interval has elapsed
/// unconfirmed, and kept as it is before. A confirmation of an ID that it
/// does not follow in the circular order retires it; one of an ID that it
/// follows leaves it pending.
pub proof fn lemma_confirmation_schedule(
    s: Seq<PendingConfirmation>,
    i: int,
    now: u64,
    retry_interval: u64,
    ack: PackageId,
)
    requires
        0 <= i < s.len(),
    ensures
        s[i].resend <= now ==> due_ids(s, now).contains(s[i].id),
        s[i].resend <= now ==> after_resend(s, now, retry_interval)[i].resend == later(
            now,
            retry_interval,
        ),
        s[i].resend > now ==> after_resend(s, now, retry_interval)[i] == s[i],
        is_retired(s[i], ack) <==> !unretired(s, ack).contains(s[i]),
{
    let due = |e: PendingConfirmation| is_due(e, now);
    let to_id = |e: PendingConfirmation| e.id;
    if s[i].resend <= now {
        s.lemma_filter_contains(due, i);
        let f = s.filter(due);
        let k = choose|k: int| 0 <= k < f.len() && f[k] == s[i];
        assert(f.map_values(to_id)[k] == s[i].id);
    }
    let keep = keeps_unretired(ack);
    if is_retired(s[i], ack) {
        if s.filter(keep).contains(s[i]) {
            let k = choose|k: int| 0 <= k < s.filter(keep).len() && s.filter(keep)[k] == s[i];
            s.lemma_filter_pred(keep, k);
        }
    } else {
        s.lemma_filter_contains(keep, i);
    }
}

/// What the confirmer does after a round.
#[derive(Clone, Copy, Debug, PartialEq, Eq, Structural)]
pub enum ConfirmerStep {
    /// The datagram sender is gone: stop with an error.
    Fail,
    /// Cancelled: stop.
    Finish,
    /// Sleep for this many milliseconds, then run the next round.
    Sleep(u64),
    /// Run the next round at once.
    Repeat,
}

/// Decides what the confirmer does after a round at `now` whose batch was
/// handed over (`delivered`) or not, with the next round due at `next_wake`.
pub fn confirmer_step(delivered: bool, cancelled: bool, now: u64, next_wake: u64) -> (r:
    ConfirmerStep)
    ensures
        r == if !delivered {
            ConfirmerStep::Fail
        } else if cancelled {
            ConfirmerStep::Finish
        } else if next_wake > now {
            ConfirmerStep::Sleep((next_wake - now) as u64)
        } else {
            ConfirmerStep::Repeat
        },
{
    if !delivered {
        ConfirmerStep::Fail
    } else if cancelled {
        ConfirmerStep::Finish
    } else if next_wake > now {
        ConfirmerStep::Sleep(next_wake - now)
    } else {
        ConfirmerStep::Repeat
    }
}

/// What one confirmer round hands to the datagram sender.
pub struct ConfirmBatch {
    /// IDs of the reliable packages to send again.
    pub resend: Vec<PackageId>,
    /// IDs of the received reliable packages to confirm.
    pub confirm: Vec<PackageId>,
    /// When the next round is due.
    pub next_wake: u64,
}

/// Acknowledgment state of one connection: the sent reliable packages that
/// await confirmation and the received ones still to be confirmed.
pub struct Confirmations {
    retry_interval: u64,
    give_up: u64,
    pending: Vec<PendingConfirmation>,
    to_confirm: Vec<PackageId>,
}

impl Confirmations {
    /// Sent reliable packages awaiting confirmation, in order of sending.
    pub closed spec fn pending(&self) -> Seq<PendingConfirmation> {
        self.pending@
    }

    /// Received reliable packages not yet confirmed to the sender.
    pub closed spec fn to_confirm(&self) -> Seq<PackageId> {
        self.to_confirm@
    }

    /// Time after which an unconfirmed package is sent again.
    pub closed spec fn retry_interval(&self) -> u64 {
        self.retry_interval
    }

    /// Age after which an unconfirmed package is given up.
    pub closed spec fn give_up(&self) -> u64 {
        self.give_up
    }

    pub fn new(retry_interval: u64, give_up: u64) -> (r: Self)
        ensures
            r.pending() == Seq::<PendingConfirmation>::empty(),
            r.to_confirm() == Seq::<PackageId>::empty(),
            r.retry_interval() == retry_interval,
            r.give_up() == give_up,
    {
        Confirmations { retry_interval, give_up, pending: Vec::new(), to_confirm: Vec::new() }
    }

    /// Records a reliable package sent at `now`.
    pub fn sent_reliable(&mut self, id: PackageId, now: u64)
        ensures
            final(self).pending() == old(self).pending().push(
                PendingConfirmation { id, sent: now, resend: later(now, old(self).retry_interval()), retries: 0 },
            ),
            final(self).to_confirm() == old(self).to_confirm(),
            final(self).retry_interval() == old(self).retry_interval(),
            final(self).give_up() == old(self).give_up(),
    {
        let resend = if now <= u64::MAX - self.retry_interval {
            now + self.retry_interval
        } else {
            u64::MAX
        };
        self.pending.push(PendingConfirmation { id, sent: now, resend, retries: 0 });
    }

    /// Records a received reliable package, which is to be confirmed to its
    /// sender; an ID already waiting for its confirmation is kept once.
    pub fn received_reliable(&mut self, id: PackageId)
        ensures
            final(self).to_confirm() == if old(self).to_confirm().contains(id) {
                old(self).to_confirm()
            } else {
                old(self).to_confirm().push(id)
            },
            final(self).pending() == old(self).pending(),
            final(self).retry_interval() == old(self).retry_interval(),
            final(self).give_up() == old(self).give_up(),
    {
        let mut i: usize = 0;
        while i < self.to_confirm.len()
            invariant
                i <= self.to_confirm@.len(),
                forall|j: int| 0 <= j < i ==> self.to_confirm@[j] != id,
            decreases self.to_confirm@.len() - i,
        {
            if self.to_confirm[i] == id {
                return;
            }
            i += 1;
        }
        self.to_confirm.push(id);
    }

    /// Handles a confirmation of `ack`: retires every pending package that
    /// `ack` does not precede in the circular ID order, `ack` itself included.
    pub fn confirmed(&mut self, ack: PackageId)
        ensures
            final(self).pending() == unretired(old(self).pending(), ack),
            final(self).to_confirm() == old(self).to_confirm(),
            final(self).retry_interval() == old(self).retry_interval(),
            final(self).give_up() == old(self).give_up(),
    {
        let ghost pred = keeps_unretired(ack);
        let mut kept: Vec<PendingConfirmation> = Vec::new();
        let mut i: usize = 0;
        while i < self.pending.len()
            invariant
                i <= self.pending@.len(),
                kept@ == self.pending@.subrange(0, i as int).filter(pred),
                pred == keeps_unretired(ack),
            decreases self.pending@.len() - i,
        {
            let e = self.pending[i];
            proof {
                assert(self.pending@.subrange(0, i + 1) =~= self.pending@.subrange(0, i as int).push(e));
                self.pending@.subrange(0, i as int).lemma_filter_push(e, pred);
            }
            match e.id.ordering(ack) {
                core::cmp::Ordering::Greater => kept.push(e),
                _ => {},
            }
            i += 1;
        }
        assert(self.pending@.subrange(0, i as int) =~= self.pending@);
        self.pending = kept;
    }

    /// Drops the pending packages that have waited for their confirmation
    /// for the give-up time or longer; returns whether any was dropped, which
    /// means that the peer is unreachable.
    pub fn clean(&mut self, now: u64) -> (expired: bool)
        ensures
            final(self).pending() == unexpired(old(self).pending(), now, old(self).give_up()),
            expired <==> exists|i: int|
                0 <= i < old(self).pending().len() && is_expired(
                    #[trigger] old(self).pending()[i],
                    now,
                    old(self).give_up(),
                ),
            final(self).to_confirm() == old(self).to_confirm(),
            final(self).retry_interval() == old(self).retry_interval(),
            final(self).give_up() == old(self).give_up(),
    {
        let ghost pred = keeps_unexpired(now, self.give_up);
        let mut kept: Vec<PendingConfirmation> = Vec::new();
        let mut expired = false;
        let mut i: usize = 0;
        while i < self.pending.len()
            invariant
                i <= self.pending@.len(),
                kept@ == self.pending@.subrange(0, i as int).filter(pred),
                expired <==> exists|j: int|
                    0 <= j < i && is_expired(#[trigger] self.pending@[j], now, self.give_up),
                pred == keeps_unexpired(now, self.give_up),
            decreases self.pending@.len() - i,
        {
            let e = self.pending[i];
            proof {
                assert(self.pending@.subrange(0, i + 1) =~= self.pending@.subrange(0, i as int).push(e));
                self.pending@.subrange(0, i as int).lemma_filter_push(e, pred);
            }
            if now >= e.sent && now - e.sent >= self.give_up {
                expired = true;
            } else {
                kept.push(e);
            }
            i += 1;
        }
        assert(self.pending@.subrange(0, i as int) =~= self.pending@);
        self.pending = kept;
        expired
    }

    /// One round of the confirmer at `now`: the pending packages due to be
    /// sent again and the received packages to confirm, with the time of the
    /// next round. Once cancelled, nothing is handed out and everything stays
    /// tracked.
    pub fn send_confirms(&mut self, now: u64, cancelled: bool) -> (r: ConfirmBatch)
        ensures
            final(self).retry_interval() == old(self).retry_interval(),
            final(self).give_up() == old(self).give_up(),
            cancelled ==> {
                &&& final(self).pending() == old(self).pending()
                &&& final(self).to_confirm() == old(self).to_confirm()
                &&& r.resend@.len() == 0
                &&& r.confirm@.len() == 0
                &&& r.next_wake == now
            },
            !cancelled ==> {
                &&& final(self).pending() == after_resend(
                    old(self).pending(),
                    now,
                    old(self).retry_interval(),
                )
                &&& r.resend@ == due_ids(old(self).pending(), now)
                &&& r.confirm@ == old(self).to_confirm()
                &&& final(self).to_confirm() == Seq::<PackageId>::empty()
                &&& r.next_wake == earliest(
                    final(self).pending(),
                    later(now, old(self).retry_interval()),
                )
            },
    {
        if cancelled {
            return ConfirmBatch { resend: Vec::new(), confirm: Vec::new(), next_wake: now };
        }
        let next_resend = if now <= u64::MAX - self.retry_interval {
            now + self.retry_interval
        } else {
            u64::MAX
        };
        let ghost due = |e: PendingConfirmation| is_due(e, now);
        let ghost refresh = |e: PendingConfirmation|
            if is_due(e, now) {
                resent(e, now, self.retry_interval)
            } else {
                e
            };
        let ghost to_id = |e: PendingConfirmation| e.id;
        let mut updated: Vec<PendingConfirmation> = Vec::new();
        let mut resend: Vec<PackageId> = Vec::new();
        let mut wake = next_resend;
        let mut i: usize = 0;
        while i < self.pending.len()
            invariant
                i <= self.pending@.len(),
                next_resend == later(now, self.retry_interval),
                due == (|e: PendingConfirmation| is_due(e, now)),
                refresh == (|e: PendingConfirmation|
                    if is_due(e, now) {
                        resent(e, now, self.retry_interval)
                    } else {
                        e
                    }),
                to_id == (|e: PendingConfirmation| e.id),
                updated@ == self.pending@.subrange(0, i as int).map_values(refresh),
                resend@ == self.pending@.subrange(0, i as int).filter(due).map_values(to_id),
                wake == earliest(updated@, next_resend),
            decreases self.pending@.len() - i,
        {
            let e = self.pending[i];
            let ghost prefix = self.pending@.subrange(0, i as int);
            proof {
                assert(self.pending@.subrange(0, i + 1) =~= prefix.push(e));
                prefix.lemma_filter_push(e, due);
                assert(prefix.push(e).map_values(refresh) =~= prefix.map_values(refresh).push(
                    refresh(e),
                ));
                assert(prefix.filter(due).push(e).map_values(to_id) =~= prefix.filter(
                    due,
                ).map_values(to_id).push(e.id));
            }
            let entry = if e.resend <= now {
                resend.push(e.id);
                let retries = if e.retries < u32::MAX {
                    e.retries + 1
                } else {
                    e.retries
                };
                PendingConfirmation { resend: next_resend, retries, ..e }
            } else {
                e
            };
            proof {
                assert(updated@.push(entry).drop_last() =~= updated@);
            }
            updated.push(entry);
            if entry.resend < wake {
                wake = entry.resend;
            }
            i += 1;
        }
        assert(self.pending@.subrange(0, i as int) =~= self.pending@);
        self.pending = updated;
        let mut confirm: Vec<PackageId> = Vec::new();
        core::mem::swap(&mut confirm, &mut self.to_confirm);
        ConfirmBatch { resend, confirm, next_wake: wake }
    }
}

} // verus!
