//! Relaying of player packages among the participants of a game.
use crate::header::Peers;
use vstd::prelude::*;

verus! {

/// Network address of a peer: an IPv6 address (IPv4 ones mapped into it) and
/// a port.
#[derive(Clone, Copy, Debug, PartialEq, Eq, Hash, Structural)]
pub struct PeerAddr {
    pub ip: u128,
    pub port: u16,
}

/// All addresses of `s` but `source`, in order.
pub open spec fn others(s: Seq<PeerAddr>, source: PeerAddr) -> Seq<PeerAddr> {
    s.filter(is_not(source))
}

pub open spec fn is_not(source: PeerAddr) -> spec_fn(PeerAddr) -> bool {
    |a: PeerAddr| a != source
}

/// Addresses of the peers that have joined the game.
pub struct Participants {
    members: Vec<PeerAddr>,
}

impl View for Participants {
    type V = Seq<PeerAddr>;

    closed spec fn view(&self) -> Seq<PeerAddr> {
        self.members@
    }
}

impl Participants {
    /// No address is listed twice.
    pub open spec fn wf(&self) -> bool {
        self@.no_duplicates()
    }

    pub fn new() -> (r: Self)
        ensures
            r@ == Seq::<PeerAddr>::empty(),
            r.wf(),
    {
        Participants { members: Vec::new() }
    }

    /// Whether `addr` has joined.
    pub fn contains(&self, addr: PeerAddr) -> (r: bool)
        ensures
            r == self@.contains(addr),
    {
        let mut i: usize = 0;
        while i < self.members.len()
            invariant
                i <= self.members@.len(),
                forall|j: int| 0 <= j < i ==> self.members@[j] != addr,
            decreases self.members@.len() - i,
        {
            if self.members[i] == addr {
                return true;
            }
            i += 1;
        }
        false
    }

    /// Adds a participant; returns false, with nothing changed, if it had
    /// joined already.
    pub fn join(&mut self, addr: PeerAddr) -> (added: bool)
        requires
            old(self).wf(),
        ensures
            added == !old(self)@.contains(addr),
            final(self)@ == if added { old(self)@.push(addr) } else { old(self)@ },
            final(self).wf(),
    {
        if self.contains(addr) {
            false
        } else {
            self.members.push(addr);
            true
        }
    }

    /// Removes a participant; returns whether it had joined.
    pub fn leave(&mut self, addr: PeerAddr) -> (removed: bool)
        requires
            old(self).wf(),
        ensures
            removed == old(self)@.contains(addr),
            final(self)@ == others(old(self)@, addr),
            final(self).wf(),
    {
        let removed = self.contains(addr);
        self.members = self.targets(Some(addr));
        removed
    }

    /// The participants to send a package to: all of them but `excluding`.
    pub fn targets(&self, excluding: Option<PeerAddr>) -> (r: Vec<PeerAddr>)
        requires
            self.wf(),
        ensures
            r@ == match excluding {
                Some(source) => others(self@, source),
                None => self@,
            },
            r@.no_duplicates(),
    {
        let mut r: Vec<PeerAddr> = Vec::new();
        let mut i: usize = 0;
        let ghost pred = match excluding {
            Some(source) => is_not(source),
            None => |a: PeerAddr| true,
        };
        while i < self.members.len()
            invariant
                i <= self.members@.len(),
                pred == match excluding {
                    Some(source) => is_not(source),
                    None => |a: PeerAddr| true,
                },
                r@ == self.members@.subrange(0, i as int).filter(pred),
            decreases self.members@.len() - i,
        {
            let a = self.members[i];
            proof {
                assert(self.members@.subrange(0, i + 1) =~= self.members@.subrange(0, i as int).push(a));
                self.members@.subrange(0, i as int).lemma_filter_push(a, pred);
            }
            let keep = match excluding {
                Some(source) => a != source,
                None => true,
            };
            if keep {
                r.push(a);
            }
            i += 1;
        }
        proof {
            assert(self.members@.subrange(0, i as int) =~= self.members@);
            lemma_filter_no_duplicates(self@, pred);
            if excluding is None {
                lemma_filter_all(self@, pred);
            }
        }
        r
    }
}

/// A package destined to other players in the game.
pub struct PlayersPackage {
    pub reliable: bool,
    pub source: PeerAddr,
    pub data: Vec<u8>,
}

impl PlayersPackage {
    pub fn new(reliable: bool, source: PeerAddr, data: Vec<u8>) -> (r: Self)
        ensures
            r.reliable == reliable,
            r.source == source,
            r.data@ == data@,
    {
        PlayersPackage { reliable, source, data }
    }
}

/// A package to be sent to a set of peers.
pub struct OutPackage {
    pub data: Vec<u8>,
    pub reliable: bool,
    pub peers: Peers,
    pub targets: Vec<PeerAddr>,
}

/// Where a player package goes.
pub enum Route {
    /// The source has not joined: it gets a single notice of that, addressed
    /// from the server, with the package's reliability.
    NotJoined { target: PeerAddr, reliable: bool },
    /// The package goes on to the other participants.
    Forward(OutPackage),
    /// Nobody else takes part: the package is dropped.
    Drop,
}

/// Routes a package from a player: a non-participant is told that it has not
/// joined; otherwise the package goes, with its reliability and body, to all
/// other participants under the players' peer group, or nowhere if there are
/// none.
pub fn route(participants: &Participants, package: PlayersPackage) -> (r: Route)
    requires
        participants.wf(),
    ensures
        !participants@.contains(package.source) ==> r == (Route::NotJoined {
            target: package.source,
            reliable: package.reliable,
        }),
        participants@.contains(package.source) && others(participants@, package.source).len()
            == 0 ==> r is Drop,
        participants@.contains(package.source) && others(participants@, package.source).len() > 0
            ==> (r matches Route::Forward(out) && out.data@ == package.data@ && out.reliable
            == package.reliable && out.peers == Peers::Players && out.targets@ == others(
            participants@,
            package.source,
        )),
{
    if !participants.contains(package.source) {
        return Route::NotJoined { target: package.source, reliable: package.reliable };
    }
    let targets = participants.targets(Some(package.source));
    if targets.len() == 0 {
        return Route::Drop;
    }
    Route::Forward(
        OutPackage {
            data: package.data,
            reliable: package.reliable,
            peers: Peers::Players,
            targets,
        },
    )
}

/// A package is relayed to every participant but its source, each once, and
/// never back to the source.
pub proof fn lemma_relay_targets(participants: Seq<PeerAddr>, source: PeerAddr)
    requires
        participants.no_duplicates(),
    ensures
        !others(participants, source).contains(source),
        forall|a: PeerAddr|
            #[trigger] others(participants, source).contains(a) <==> participants.contains(a) && a
                != source,
        others(participants, source).no_duplicates(),
{
    let f = others(participants, source);
    assert forall|a: PeerAddr| #[trigger] f.contains(a) <==> participants.contains(a) && a != source by {
        if f.contains(a) {
            participants.lemma_filter_contains_rev(is_not(source), a);
            let k = choose|k: int| 0 <= k < f.len() && f[k] == a;
            participants.lemma_filter_pred(is_not(source), k);
        }
        if participants.contains(a) && a != source {
            let k = choose|k: int| 0 <= k < participants.len() && participants[k] == a;
            participants.lemma_filter_contains(is_not(source), k);
        }
    }
    lemma_filter_no_duplicates(participants, is_not(source));
}

proof fn lemma_filter_all(s: Seq<PeerAddr>, pred: spec_fn(PeerAddr) -> bool)
    requires
        forall|a: PeerAddr| #[trigger] pred(a),
    ensures
        s.filter(pred) == s,
    decreases s.len(),
{
    reveal(Seq::filter);
    if s.len() > 0 {
        lemma_filter_all(s.drop_last(), pred);
        assert(s.drop_last().push(s.last()) =~= s);
    }
}

proof fn lemma_filter_no_duplicates(s: Seq<PeerAddr>, pred: spec_fn(PeerAddr) -> bool)
    requires
        s.no_duplicates(),
    ensures
        s.filter(pred).no_duplicates(),
    decreases s.len(),
{
    reveal(Seq::filter);
    if s.len() > 0 {
        let rest = s.drop_last();
        assert(rest.no_duplicates());
        lemma_filter_no_duplicates(rest, pred);
        if rest.filter(pred).contains(s.last()) {
            rest.lemma_filter_contains_rev(pred, s.last());
        }
    }
}

} // verus!
