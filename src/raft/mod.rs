use vstd::prelude::*;
use crate::store::number::Number;
use rand::distributions::{IndependentSample, Range};

pub mod callback;
pub mod state_machine;

use self::state_machine::{entry_result, is_result, reg_step, run, run_in_batches, ApplyError, MasterStateMachine};
use crate::utils::u8vec::{extract_u64_head, le_value};
use crate::store::number::recovered;

verus! {

/// How often the background ticker runs, and the heartbeat interval (ms).
pub const CHECKER_MS: u64 = 50;

/// Bounds of the randomized election timeout (ms).
pub const TIMEOUT_MIN: u64 = 100;
pub const TIMEOUT_MAX: u64 = 500;

/// Relies on rand 0.4's `Range::ind_sample`: a uniform draw in `[lower, higher)`;
/// `Range::new` panics unless `lower < higher`.
#[verifier::external_body]
fn gen_rand(lower: u64, higher: u64) -> (r: u64)
    requires
        lower < higher,
    ensures
        lower <= r < higher,
{
    Range::new(lower, higher).ind_sample(&mut rand::thread_rng())
}

/// A node's role.
#[derive(Clone, Copy, Debug, PartialEq, Eq, Structural)]
pub enum Membership {
    LEADER,
    FOLLOWER,
    CANDIDATE,
    OFFLINE,
}

/// One replicated command, tagged with the term in which it was appended.
pub struct LogEntry {
    pub state_machine_id: u64,
    pub function_id: u64,
    pub term: u64,
    pub payload: Vec<u8>,
}

impl View for LogEntry {
    type V = (u64, u64, u64, Seq<u8>);

    open spec fn view(&self) -> (u64, u64, u64, Seq<u8>) {
        (self.state_machine_id, self.function_id, self.term, self.payload@)
    }
}

impl LogEntry {
    pub fn copy(&self) -> (r: LogEntry)
        ensures
            r@ == self@,
    {
        let mut payload: Vec<u8> = Vec::new();
        let mut i: usize = 0;
        while i < self.payload.len()
            invariant
                i <= self.payload.len(),
                payload@ == self.payload@.take(i as int),
            decreases self.payload.len() - i,
        {
            payload.push(self.payload[i]);
            i = i + 1;
            assert(self.payload@.take(i as int) == self.payload@.take(i - 1).push(
                self.payload@[i - 1],
            ));
        }
        assert(self.payload@.take(self.payload.len() as int) == self.payload@);
        assert(payload@ =~= self.payload@);
        LogEntry {
            state_machine_id: self.state_machine_id,
            function_id: self.function_id,
            term: self.term,
            payload,
        }
    }
}

/// The per-node protocol state.
pub struct RaftMeta {
    pub term: u64,
    /// Index of the last entry in the log.
    pub log: u64,
    pub voted: bool,
    pub voted_for: u64,
    pub timeout: u64,
    pub last_checked: u64,
    pub last_updated: u64,
    pub membership: Membership,
    pub leader_id: u64,
    /// Entries after the snapshot baseline; `logs[k]` has index `base_index + k + 1`.
    pub logs: Vec<LogEntry>,
    pub base_index: u64,
    pub base_term: u64,
    pub commit: u64,
    pub applied: u64,
    /// Nodes that granted their vote in the current election, self included.
    pub votes: Vec<u64>,
    /// For each peer: the next index to offer, and the highest index known to match.
    pub next_index: Vec<u64>,
    pub match_index: Vec<u64>,
    /// Snapshot chunks received so far.
    pub snapshot_buf: Vec<u8>,
    pub state_machine: MasterStateMachine,
}

/// Where a node keeps its durable state.
#[derive(Clone)]
pub enum Storage {
    MEMORY,
    DISK(String),
}

impl Storage {
    /// The default backend keeps everything in memory.
    #[allow(non_snake_case)]
    pub fn Default() -> (r: Storage)
        ensures
            r is MEMORY,
    {
        Storage::MEMORY
    }
}

#[derive(Clone)]
pub struct Options {
    pub storage: Storage,
    pub address: String,
}

/// A RequestVote call to broadcast.
#[derive(Clone, Copy, Debug, PartialEq, Eq, Structural)]
pub struct VoteRequest {
    pub term: u64,
    pub candidate_id: u64,
    pub last_log_id: u64,
    pub last_log_term: u64,
}

/// An AppendEntries call for one peer.
pub struct AppendRequest {
    pub to: u64,
    pub term: u64,
    pub leader_id: u64,
    pub prev_log_id: u64,
    pub prev_log_term: u64,
    pub entries: Vec<LogEntry>,
    pub leader_commit: u64,
}

/// `r` holds copies of the entries of `s`, in order.
pub open spec fn copies(r: Seq<LogEntry>, s: Seq<LogEntry>) -> bool {
    r.len() == s.len() && forall|i: int| 0 <= i < r.len() ==> (#[trigger] r[i])@ == s[i]@
}

/// What the background ticker has to do after one period.
#[derive(Clone, Copy, Debug, PartialEq, Eq, Structural)]
pub enum TickAction {
    Idle,
    Heartbeat,
    Election(VoteRequest),
    Stop,
}

/// One node: its identity, its peers and its protocol state, owned by one
/// actor that handles timer events and calls one at a time.
pub struct RaftServer {
    pub id: u64,
    pub peers: Vec<u64>,
    pub meta: RaftMeta,
    pub options: Options,
}

/// The term of the entry at index `i`.
pub open spec fn term_at(m: RaftMeta, i: int) -> int {
    if i == m.base_index {
        m.base_term as int
    } else {
        m.logs@[i - m.base_index - 1].term as int
    }
}

pub open spec fn last_term(m: RaftMeta) -> int {
    term_at(m, m.log as int)
}

/// A candidate whose last entry is `(lli, llt)` is at least as up to date as `m`.
pub open spec fn up_to_date(m: RaftMeta, lli: u64, llt: u64) -> bool {
    llt > last_term(m) || (llt == last_term(m) && lli >= m.log)
}

/// Two states agree on everything but term, vote, role and timers.
pub open spec fn same_log(a: RaftMeta, b: RaftMeta) -> bool {
    &&& b.log == a.log
    &&& b.logs@ == a.logs@
    &&& b.base_index == a.base_index
    &&& b.base_term == a.base_term
    &&& b.commit == a.commit
    &&& b.applied == a.applied
    &&& b.state_machine@ == a.state_machine@
}

/// What a RequestVote call does to a node's state and what it replies.
pub open spec fn vote_step(
    a: RaftMeta,
    b: RaftMeta,
    term: u64,
    candidate_id: u64,
    lli: u64,
    llt: u64,
    now: u64,
    r: (u64, bool),
) -> bool {
    if term < a.term || a.membership == Membership::OFFLINE {
        r == (a.term, false) && b == a
    } else {
        let may = (term > a.term || !a.voted) && up_to_date(a, lli, llt);
        &&& r == (term, may)
        &&& b.term == term
        &&& same_log(a, b)
        &&& b.next_index == a.next_index
        &&& b.match_index == a.match_index
        &&& b.leader_id == a.leader_id
        &&& b.timeout == a.timeout
        &&& b.last_updated == a.last_updated
        &&& b.membership == (if term > a.term { Membership::FOLLOWER } else { a.membership })
        &&& b.votes@ == (if term > a.term { Seq::<u64>::empty() } else { a.votes@ })
        &&& if may {
            b.voted && b.voted_for == candidate_id && b.last_checked == now
        } else {
            b.voted == (term == a.term && a.voted) && b.voted_for == a.voted_for
                && b.last_checked == a.last_checked
        }
    }
}

/// Within one term, a node grants at most one vote: of two RequestVote
/// calls in a row that leave the term where it was, at most one is granted.
pub proof fn vote_once_per_term(
    a: RaftMeta,
    b: RaftMeta,
    c: RaftMeta,
    t1: u64,
    c1: u64,
    i1: u64,
    l1: u64,
    n1: u64,
    r1: (u64, bool),
    t2: u64,
    c2: u64,
    i2: u64,
    l2: u64,
    n2: u64,
    r2: (u64, bool),
)
    requires
        vote_step(a, b, t1, c1, i1, l1, n1, r1),
        vote_step(b, c, t2, c2, i2, l2, n2, r2),
        c.term == a.term,
    ensures
        !(r1.1 && r2.1),
{
}

/// Two strict majorities of the same `n` nodes share a node: so two
/// candidates cannot both collect a majority of one-per-term votes.
pub proof fn majorities_intersect(a: Set<nat>, b: Set<nat>, n: nat)
    requires
        a.subset_of(Set::new(|i: nat| i < n)),
        b.subset_of(Set::new(|i: nat| i < n)),
        2 * a.len() > n,
        2 * b.len() > n,
        a.finite(),
        b.finite(),
    ensures
        exists|x: nat| a.contains(x) && b.contains(x),
{
    let all = Set::new(|i: nat| i < n);
    lemma_nat_range_len(n);
    if forall|x: nat| !(a.contains(x) && b.contains(x)) {
        assert(a.disjoint(b));
        vstd::set_lib::lemma_set_disjoint_lens(a, b);
        assert((a + b).subset_of(all));
        vstd::set_lib::lemma_len_subset(a + b, all);
    }
}

/// Election safety: in one term each node casts at most one vote (`votes`
/// maps a node to the candidate it voted for). Two candidates that each
/// collected the votes of a strict majority of the `n` nodes are the same
/// candidate, so a term has at most one leader. `handle_vote_reply` makes a
/// node leader only once the distinct votes it counted, each from itself or
/// a peer (see `wf`), form such a majority.
pub proof fn election_safety(
    votes: Map<nat, u64>,
    a: Set<nat>,
    b: Set<nat>,
    n: nat,
    c1: u64,
    c2: u64,
)
    requires
        a.subset_of(Set::new(|i: nat| i < n)),
        b.subset_of(Set::new(|i: nat| i < n)),
        a.finite(),
        b.finite(),
        2 * a.len() > n,
        2 * b.len() > n,
        forall|x: nat| a.contains(x) ==> votes.contains_key(x) && votes[x] == c1,
        forall|x: nat| b.contains(x) ==> votes.contains_key(x) && votes[x] == c2,
    ensures
        c1 == c2,
{
    majorities_intersect(a, b, n);
    let x = choose|x: nat| a.contains(x) && b.contains(x);
    assert(votes[x] == c1 && votes[x] == c2);
}

proof fn lemma_nat_range_len(n: nat)
    ensures
        Set::new(|i: nat| i < n).finite(),
        Set::new(|i: nat| i < n).len() == n,
    decreases n,
{
    if n == 0 {
        assert(Set::new(|i: nat| i < n) =~= Set::<nat>::empty());
    } else {
        lemma_nat_range_len((n - 1) as nat);
        assert(Set::new(|i: nat| i < n) =~= Set::new(|i: nat| i < (n - 1) as nat).insert(
            (n - 1) as nat,
        ));
    }
}

/// Entry `i` of `new` agrees in term with entry `start + i` of `cur`.
pub open spec fn agrees(cur: Seq<LogEntry>, start: int, new: Seq<LogEntry>, i: int) -> bool {
    0 <= start + i < cur.len() && 0 <= i < new.len() && cur[start + i].term == new[i].term
}

/// How many entries of `new`, from `j` on, agree in term with `cur` from
/// position `start + j` on.
pub open spec fn agree_len(cur: Seq<LogEntry>, start: int, new: Seq<LogEntry>, j: int) -> int
    decreases new.len() - j,
{
    if j < new.len() && agrees(cur, start, new, j) {
        agree_len(cur, start, new, j + 1)
    } else {
        j
    }
}

/// The log after appending `new` behind position `start`: entries that agree
/// in term are kept, and from the first conflict on the old suffix is
/// replaced by the rest of `new`.
pub open spec fn merge(cur: Seq<LogEntry>, start: int, new: Seq<LogEntry>) -> Seq<LogEntry> {
    let j = agree_len(cur, start, new, 0);
    if j == new.len() {
        cur
    } else {
        cur.take(start + j) + new.skip(j)
    }
}

proof fn lemma_agree_len(cur: Seq<LogEntry>, start: int, new: Seq<LogEntry>, j: int)
    requires
        0 <= j <= new.len(),
    ensures
        j <= agree_len(cur, start, new, j) <= new.len(),
        agree_len(cur, start, new, j) < new.len() ==> !agrees(cur, start, new, agree_len(cur, start, new, j)),
        forall|i: int| j <= i < agree_len(cur, start, new, j) ==> #[trigger] agrees(cur, start, new, i),
    decreases new.len() - j,
{
    if j < new.len() && agrees(cur, start, new, j) {
        lemma_agree_len(cur, start, new, j + 1);
    }
}

/// Log matching, the step that AppendEntries takes: let a follower's log
/// `cur` hold the same entries as the leader's log `lead` up to position
/// `start`, and let every entry the two share by position and term be the
/// same entry. Once the leader's entries from `start` to `start + n` are
/// merged in, the follower holds the same entries as the leader up to
/// `start + n`.
pub proof fn log_matching_step(cur: Seq<LogEntry>, lead: Seq<LogEntry>, start: int, n: int)
    requires
        0 <= start <= cur.len(),
        0 <= n,
        start + n <= lead.len(),
        forall|i: int| 0 <= i < start ==> (#[trigger] cur[i])@ == lead[i]@,
        forall|i: int|
            start <= i < cur.len() && i < lead.len() && (#[trigger] cur[i]).term == lead[i].term
                ==> cur[i]@ == lead[i]@,
    ensures
        merge(cur, start, lead.subrange(start, start + n)).len() >= start + n,
        forall|i: int|
            0 <= i < start + n ==> (#[trigger] merge(cur, start, lead.subrange(start, start + n))[i])@
                == lead[i]@,
{
    let new = lead.subrange(start, start + n);
    lemma_agree_len(cur, start, new, 0);
    let j = agree_len(cur, start, new, 0);
    let m = merge(cur, start, new);
    if j > 0 {
        assert(agrees(cur, start, new, j - 1));
    }
    if j == n {
        assert(m == cur);
    } else {
        assert(m == cur.take(start + j) + new.skip(j));
    }
    assert(m.len() >= start + n);
    assert forall|i: int| 0 <= i < start + n implies (#[trigger] m[i])@ == lead[i]@ by {
        if i >= start && i < start + j {
            assert(agrees(cur, start, new, i - start));
            assert(cur[i].term == lead[i].term);
        }
        if j == n {
            assert(m[i] == cur[i]);
        } else if i < start + j {
            assert(m[i] == cur.take(start + j)[i]);
        } else {
            assert(m[i] == new.skip(j)[i - start - j]);
        }
    }
}

/// The local log holds an entry at `prev` of term `prev_term`, or `prev` is 0
/// on a log that starts from nothing.
pub open spec fn log_matches(m: RaftMeta, prev: u64, prev_term: u64) -> bool {
    m.base_index <= prev <= m.log && (prev == 0 || term_at(m, prev as int) == prev_term)
}

/// Appending `new` behind `prev` would discard an entry that is already
/// committed; no correct leader asks for that, and it is refused.
pub open spec fn truncates_committed(m: RaftMeta, prev: u64, new: Seq<LogEntry>) -> bool {
    let j = agree_len(m.logs@, prev - m.base_index, new, 0);
    j < new.len() && prev + j < m.commit
}

pub open spec fn min(a: int, b: int) -> int {
    if a < b { a } else { b }
}

pub open spec fn max(a: int, b: int) -> int {
    if a < b { b } else { a }
}

/// How many of `s` are at least `n`.
pub open spec fn count_ge(s: Seq<u64>, n: u64) -> nat
    decreases s.len(),
{
    if s.len() == 0 {
        0
    } else {
        count_ge(s.drop_last(), n) + (if s.last() >= n { 1nat } else { 0nat })
    }
}

/// A leader may commit index `k`: it holds an entry of the current term, and
/// a strict majority of the cluster (the leader included) has it.
pub open spec fn committable(s: RaftServer, k: int) -> bool {
    &&& term_at(s.meta, k) == s.meta.term
    &&& 2 * (1 + count_ge(s.meta.match_index@, k as u64)) > cluster_size(s)
}

/// The views of a run of entries.
pub open spec fn entry_views(s: Seq<LogEntry>) -> Seq<(u64, u64, u64, Seq<u8>)> {
    Seq::new(s.len(), |i: int| s[i]@)
}

proof fn lemma_entry_views_step(s: Seq<LogEntry>, lo: int, hi: int)
    requires
        0 <= lo < hi <= s.len(),
    ensures
        entry_views(s.subrange(lo, hi)).drop_last() == entry_views(s.subrange(lo, hi - 1)),
        entry_views(s.subrange(lo, hi)).last() == s[hi - 1]@,
{
    assert(entry_views(s.subrange(lo, hi)).drop_last() =~= entry_views(s.subrange(lo, hi - 1)));
}

/// A snapshot ending at `lii` of term `lit` can be installed over `m`: the
/// log either holds that entry, or nothing committed lies beyond it.
pub open spec fn snapshot_fits(m: RaftMeta, lii: u64, lit: u64) -> bool {
    (lii <= m.log && term_at(m, lii as int) == lit) || lii >= m.commit
}

/// The entries committed but not yet applied.
pub open spec fn pending(s: RaftServer) -> Seq<(u64, u64, u64, Seq<u8>)> {
    entry_views(s.meta.logs@.subrange(
        s.meta.applied - s.meta.base_index,
        s.meta.commit - s.meta.base_index,
    ))
}

/// The registry once the pending entries are applied, as `apply_committed`
/// leaves it.
pub open spec fn applied_registry(s: RaftServer) -> Seq<(u64, i8)> {
    run(s.meta.state_machine@, pending(s))
}

/// State determinism: let nodes `x` and `y` start from the same registry
/// `v`, and let `x` have applied `done` so far with `x_pending` still to
/// apply, while `y` has applied nothing with `y_pending` to apply. Where
/// both then hold the same applied prefix, `done + x_pending ==
/// y_pending`, `apply_committed` leaves their registries identical.
pub proof fn state_determinism(x: RaftServer, y: RaftServer, v: Seq<(u64, i8)>, done: Seq<(u64, u64, u64, Seq<u8>)>)
    requires
        x.meta.state_machine@ == run(v, done),
        y.meta.state_machine@ == v,
        done + pending(x) == pending(y),
    ensures
        applied_registry(x) == applied_registry(y),
{
    run_in_batches(v, done, pending(x));
}

/// The number of nodes in the cluster, self included.
pub open spec fn cluster_size(s: RaftServer) -> int {
    s.peers.len() + 1
}

impl RaftServer {
    pub open spec fn wf(&self) -> bool {
        let m = self.meta;
        &&& m.log == m.base_index + m.logs.len()
        &&& m.log < u64::MAX
        &&& m.base_index <= m.applied <= m.commit <= m.log
        &&& m.next_index.len() == self.peers.len()
        &&& m.match_index.len() == self.peers.len()
        &&& self.peers.len() < u64::MAX
        &&& m.votes@.no_duplicates()
        &&& forall|i: int| 0 <= i < m.votes@.len() ==> (#[trigger] m.votes@[i]) == self.id
            || self.peers@.contains(m.votes@[i])
        &&& m.state_machine.wf()
        &&& m.membership == Membership::LEADER ==> forall|p: int|
            0 <= p < self.peers.len() ==> m.match_index@[p] <= m.log && m.base_index + 1
                <= m.next_index@[p] <= m.log + 1
    }

    /// A fresh node: follower in term 0 with an empty log and a random
    /// election timeout.
    pub fn new(id: u64, peers: Vec<u64>, opts: Options, now: u64) -> (r: RaftServer)
        requires
            peers.len() < u64::MAX,
        ensures
            r.wf(),
            r.id == id,
            r.peers@ == peers@,
            r.meta.term == 0,
            r.meta.log == 0,
            !r.meta.voted,
            r.meta.membership == Membership::FOLLOWER,
            TIMEOUT_MIN <= r.meta.timeout <= TIMEOUT_MAX,
            r.meta.last_checked == now,
            r.meta.last_updated == now,
            r.meta.commit == 0,
            r.meta.applied == 0,
            r.meta.base_index == 0,
            r.meta.base_term == 0,
            r.meta.leader_id == 0,
            r.meta.votes@.len() == 0,
            r.meta.snapshot_buf@.len() == 0,
            r.meta.logs@.len() == 0,
            r.meta.state_machine.machines@.len() == 0,
            r.options == opts,
    {
        let timeout = gen_rand(TIMEOUT_MIN, TIMEOUT_MAX + 1);
        let n = peers.len();
        let mut next_index: Vec<u64> = Vec::new();
        let mut match_index: Vec<u64> = Vec::new();
        let mut i: usize = 0;
        while i < n
            invariant
                i <= n,
                next_index.len() == i,
                match_index.len() == i,
            decreases n - i,
        {
            next_index.push(1);
            match_index.push(0);
            i = i + 1;
        }
        RaftServer {
            id,
            peers,
            meta: RaftMeta {
                term: 0,
                log: 0,
                voted: false,
                voted_for: 0,
                timeout,
                last_checked: now,
                last_updated: now,
                membership: Membership::FOLLOWER,
                leader_id: 0,
                logs: Vec::new(),
                base_index: 0,
                base_term: 0,
                commit: 0,
                applied: 0,
                votes: Vec::new(),
                next_index,
                match_index,
                snapshot_buf: Vec::new(),
                state_machine: MasterStateMachine { machines: Vec::new() },
            },
            options: opts,
        }
    }

    /// The term of the last entry of the log.
    pub fn last_log_term(&self) -> (r: u64)
        requires
            self.wf(),
        ensures
            r == last_term(self.meta),
    {
        if self.meta.log == self.meta.base_index {
            self.meta.base_term
        } else {
            self.meta.logs[self.meta.logs.len() - 1].term
        }
    }

    /// The term of the entry at `i`, which must lie between the snapshot
    /// baseline and the end of the log.
    pub fn term_at(&self, i: u64) -> (r: u64)
        requires
            self.wf(),
            self.meta.base_index <= i <= self.meta.log,
        ensures
            r == term_at(self.meta, i as int),
    {
        if i == self.meta.base_index {
            self.meta.base_term
        } else {
            self.meta.logs[(i - self.meta.base_index - 1) as usize].term
        }
    }

    /// Handles a RequestVote call.
    pub fn request_vote(
        &mut self,
        term: u64,
        candidate_id: u64,
        last_log_id: u64,
        last_log_term: u64,
        now: u64,
    ) -> (r: (u64, bool))
        requires
            old(self).wf(),
        ensures
            final(self).wf(),
            final(self).id == old(self).id,
            final(self).peers == old(self).peers,
            vote_step(old(self).meta, final(self).meta, term, candidate_id, last_log_id, last_log_term, now, r),
    {
        if term < self.meta.term || self.meta.membership == Membership::OFFLINE {
            return (self.meta.term, false);
        }
        if term > self.meta.term {
            self.meta.term = term;
            self.meta.voted = false;
            self.meta.membership = Membership::FOLLOWER;
            self.meta.votes = Vec::new();
        }
        let my_last = self.last_log_term();
        let fresh = last_log_term > my_last || (last_log_term == my_last && last_log_id
            >= self.meta.log);
        if !self.meta.voted && fresh {
            self.meta.voted = true;
            self.meta.voted_for = candidate_id;
            self.meta.last_checked = now;
            (term, true)
        } else {
            (term, false)
        }
    }

    fn become_leader(&mut self)
        requires
            old(self).wf(),
        ensures
            final(self).wf(),
            final(self).id == old(self).id,
            final(self).peers == old(self).peers,
            same_log(old(self).meta, final(self).meta),
            final(self).meta.term == old(self).meta.term,
            final(self).meta.voted == old(self).meta.voted,
            final(self).meta.voted_for == old(self).meta.voted_for,
            final(self).meta.votes == old(self).meta.votes,
            final(self).meta.timeout == old(self).meta.timeout,
            final(self).meta.last_checked == old(self).meta.last_checked,
            final(self).meta.membership == Membership::LEADER,
            final(self).meta.leader_id == old(self).id,
            final(self).meta.last_updated == 0,
            forall|p: int| 0 <= p < old(self).peers.len() ==> final(self).meta.next_index@[p]
                == old(self).meta.log + 1 && final(self).meta.match_index@[p] == 0,
    {
        let n = self.peers.len();
        let mut next_index: Vec<u64> = Vec::new();
        let mut match_index: Vec<u64> = Vec::new();
        let mut i: usize = 0;
        while i < n
            invariant
                i <= n,
                next_index.len() == i,
                match_index.len() == i,
                forall|p: int| 0 <= p < i ==> next_index@[p] == self.meta.log + 1 && match_index@[p] == 0,
                self.meta.log < u64::MAX,
            decreases n - i,
        {
            next_index.push(self.meta.log + 1);
            match_index.push(0);
            i = i + 1;
        }
        self.meta.next_index = next_index;
        self.meta.match_index = match_index;
        self.meta.membership = Membership::LEADER;
        self.meta.leader_id = self.id;
        self.meta.last_updated = 0;
    }

    /// Starts an election: a new term, a vote for self and a fresh timeout.
    /// In a cluster of one the node leads at once.
    pub fn become_candidate(&mut self, now: u64, timeout: u64) -> (r: Option<VoteRequest>)
        requires
            old(self).wf(),
            old(self).meta.term < u64::MAX,
        ensures
            final(self).wf(),
            final(self).id == old(self).id,
            final(self).peers == old(self).peers,
            old(self).meta.membership == Membership::LEADER || old(self).meta.membership
                == Membership::OFFLINE ==> r is None && final(self).meta == old(self).meta,
            old(self).meta.membership == Membership::FOLLOWER || old(self).meta.membership
                == Membership::CANDIDATE ==> {
                &&& same_log(old(self).meta, final(self).meta)
                &&& final(self).meta.term == old(self).meta.term + 1
                &&& final(self).meta.voted
                &&& final(self).meta.voted_for == old(self).id
                &&& final(self).meta.votes@ == seq![old(self).id]
                &&& final(self).meta.last_checked == now
                &&& final(self).meta.timeout == timeout
                &&& final(self).meta.membership == (if old(self).peers.len() == 0 {
                    Membership::LEADER
                } else {
                    Membership::CANDIDATE
                })
                &&& r == Some(
                    VoteRequest {
                        term: final(self).meta.term,
                        candidate_id: old(self).id,
                        last_log_id: old(self).meta.log,
                        last_log_term: last_term(old(self).meta) as u64,
                    },
                )
            },
    {
        if self.meta.membership == Membership::LEADER || self.meta.membership
            == Membership::OFFLINE {
            return None;
        }
        self.meta.term = self.meta.term + 1;
        self.meta.voted = true;
        self.meta.voted_for = self.id;
        self.meta.votes = vec![self.id];
        self.meta.last_checked = now;
        self.meta.timeout = timeout;
        self.meta.membership = Membership::CANDIDATE;
        if self.peers.len() == 0 {
            self.become_leader();
        }
        Some(
            VoteRequest {
                term: self.meta.term,
                candidate_id: self.id,
                last_log_id: self.meta.log,
                last_log_term: self.last_log_term(),
            },
        )
    }

    /// One period of the background ticker at time `now`. An election draws
    /// a fresh random timeout for the next round.
    pub fn tick(&mut self, now: u64) -> (r: TickAction)
        requires
            old(self).wf(),
        ensures
            final(self).wf(),
            final(self).id == old(self).id,
            final(self).peers == old(self).peers,
            same_log(old(self).meta, final(self).meta),
            ({
                let m = old(self).meta;
                match m.membership {
                    Membership::OFFLINE => r == TickAction::Stop && final(self).meta == m,
                    Membership::LEADER => final(self).meta == m && r == (if now > m.last_updated
                        + CHECKER_MS {
                        TickAction::Heartbeat
                    } else {
                        TickAction::Idle
                    }),
                    _ => if now > m.timeout + m.last_checked && m.term < u64::MAX {
                        r is Election && r->Election_0.term == m.term + 1
                            && final(self).meta.term == m.term + 1
                            && final(self).meta.voted && final(self).meta.voted_for == old(self).id
                            && final(self).meta.last_checked == now
                            && TIMEOUT_MIN <= final(self).meta.timeout <= TIMEOUT_MAX
                    } else {
                        r == TickAction::Idle && final(self).meta == m
                    },
                }
            }),
    {
        match self.meta.membership {
            Membership::OFFLINE => TickAction::Stop,
            Membership::LEADER => {
                if now > CHECKER_MS && now - CHECKER_MS > self.meta.last_updated {
                    TickAction::Heartbeat
                } else {
                    TickAction::Idle
                }
            },
            _ => {
                let expired = now > self.meta.last_checked && now - self.meta.last_checked
                    > self.meta.timeout;
                if expired && self.meta.term < u64::MAX {
                    let fresh_timeout = gen_rand(TIMEOUT_MIN, TIMEOUT_MAX + 1);
                    match self.become_candidate(now, fresh_timeout) {
                        Some(req) => TickAction::Election(req),
                        None => TickAction::Idle,
                    }
                } else {
                    TickAction::Idle
                }
            },
        }
    }

    /// Handles an AppendEntries call; `Err` carries this node's term on rejection.
    #[verifier::rlimit(50)]
    pub fn append_entries(
        &mut self,
        term: u64,
        leader_id: u64,
        prev_log_id: u64,
        prev_log_term: u64,
        entries: Option<Vec<LogEntry>>,
        leader_commit: u64,
        now: u64,
    ) -> (r: Result<u64, u64>)
        requires
            old(self).wf(),
            entries is Some ==> prev_log_id + entries->Some_0.len() < u64::MAX,
        ensures
            final(self).wf(),
            final(self).id == old(self).id,
            final(self).peers == old(self).peers,
            final(self).meta.commit >= old(self).meta.commit,
            ({
                let a = old(self).meta;
                let b = final(self).meta;
                let new: Seq<LogEntry> = match entries {
                    Some(e) => e@,
                    None => Seq::empty(),
                };
                if term < a.term || a.membership == Membership::OFFLINE {
                    r == Err::<u64, u64>(a.term) && b == a
                } else {
                    &&& b.term == term
                    &&& b.leader_id == leader_id
                    &&& b.last_checked == now
                    &&& b.membership == Membership::FOLLOWER
                    &&& b.voted == (term == a.term && a.voted)
                    &&& b.base_index == a.base_index
                    &&& b.base_term == a.base_term
                    &&& b.applied == a.applied
                    &&& b.state_machine@ == a.state_machine@
                    &&& if log_matches(a, prev_log_id, prev_log_term) && !truncates_committed(a, prev_log_id, new) {
                        let start = prev_log_id - a.base_index;
                        &&& r == Ok::<u64, u64>(term)
                        &&& b.logs@ == merge(a.logs@, start, new)
                        &&& b.commit == max(a.commit as int, min(leader_commit as int, prev_log_id + new.len()))
                        &&& forall|i: int| 0 <= i < new.len() ==> #[trigger] term_at(b, prev_log_id + 1 + i) == new[i].term
                        &&& forall|k: int| 0 <= k < start ==> b.logs@[k] == a.logs@[k]
                    } else {
                        r == Err::<u64, u64>(term) && b.logs@ == a.logs@ && b.log == a.log
                            && b.commit == a.commit
                    }
                }
            }),
    {
        if term < self.meta.term || self.meta.membership == Membership::OFFLINE {
            return Err(self.meta.term);
        }
        self.meta.last_checked = now;
        self.meta.leader_id = leader_id;
        if term > self.meta.term {
            self.meta.term = term;
            self.meta.voted = false;
            self.meta.votes = Vec::new();
        }
        self.meta.membership = Membership::FOLLOWER;
        let base = self.meta.base_index;
        if !(base <= prev_log_id && prev_log_id <= self.meta.log && (prev_log_id == 0
            || self.term_at(prev_log_id) == prev_log_term)) {
            return Err(term);
        }
        let mut entries = match entries {
            Some(e) => e,
            None => Vec::new(),
        };
        let ghost new = entries@;
        let ghost old_logs = self.meta.logs@;
        let n = entries.len();
        let start = (prev_log_id - base) as usize;
        let mut j: usize = 0;
        proof {
            lemma_agree_len(old_logs, start as int, new, 0);
        }
        while j < n && j < self.meta.logs.len() - start && self.meta.logs[start + j].term
            == entries[j].term
            invariant
                j <= n,
                n == new.len(),
                entries@ == new,
                self.meta.logs@ == old_logs,
                start <= self.meta.logs.len(),
                j <= self.meta.logs.len() - start,
                agree_len(old_logs, start as int, new, j as int) == agree_len(
                    old_logs,
                    start as int,
                    new,
                    0,
                ),
            decreases n - j,
        {
            j = j + 1;
        }
        proof {
            lemma_agree_len(old_logs, start as int, new, 0);
        }
        if j < n && prev_log_id + (j as u64) < self.meta.commit {
            return Err(term);
        }
        if j < n {
            self.meta.logs.truncate(start + j);
            let mut tail = entries.split_off(j);
            self.meta.logs.append(&mut tail);
        }
        self.meta.log = base + self.meta.logs.len() as u64;
        let last_new = prev_log_id + n as u64;
        let target = if leader_commit < last_new { leader_commit } else { last_new };
        if target > self.meta.commit {
            self.meta.commit = target;
        }
        proof {
            let b = self.meta;
            if j == n && n > 0 {
                assert(agrees(old_logs, start as int, new, n - 1));
            }
            if j < n {
                assert(b.logs@.len() == start + n);
            }
            assert(prev_log_id + n <= b.log);
            assert(b.log < u64::MAX);
            assert forall|i: int| 0 <= i < new.len() implies #[trigger] term_at(b, prev_log_id + 1 + i) == new[i].term by {
                if j < n {
                    if i < j {
                        assert(agrees(old_logs, start as int, new, i));
                        assert(b.logs@[start + i] == old_logs[start + i]);
                    } else {
                        assert(b.logs@[start + i] == new[i]);
                    }
                } else {
                    assert(agrees(old_logs, start as int, new, i));
                }
            }
        }
        Ok(term)
    }

    fn step_down(&mut self, term: u64, now: u64)
        requires
            old(self).wf(),
        ensures
            final(self).wf(),
            final(self).id == old(self).id,
            final(self).peers == old(self).peers,
            same_log(old(self).meta, final(self).meta),
            final(self).meta.term == term,
            !final(self).meta.voted,
            final(self).meta.membership == Membership::FOLLOWER,
            final(self).meta.votes@ == Seq::<u64>::empty(),
            final(self).meta.last_checked == now,
            final(self).meta.next_index == old(self).meta.next_index,
            final(self).meta.match_index == old(self).meta.match_index,
    {
        self.meta.term = term;
        self.meta.voted = false;
        self.meta.membership = Membership::FOLLOWER;
        self.meta.votes = Vec::new();
        self.meta.last_checked = now;
    }

    /// Counts the votes of a RequestVote reply from `from`; returns whether
    /// this node has just become leader.
    pub fn handle_vote_reply(&mut self, from: u64, term: u64, granted: bool, now: u64) -> (r: bool)
        requires
            old(self).wf(),
        ensures
            final(self).wf(),
            final(self).id == old(self).id,
            final(self).peers == old(self).peers,
            same_log(old(self).meta, final(self).meta),
            old(self).meta.membership == Membership::OFFLINE ==> !r && final(self).meta == old(self).meta,
            term > old(self).meta.term && old(self).meta.membership != Membership::OFFLINE ==> !r && final(self).meta.term == term
                && final(self).meta.last_checked == now
                && final(self).meta.membership == Membership::FOLLOWER && !final(self).meta.voted,
            term <= old(self).meta.term ==> final(self).meta.term == old(self).meta.term,
            term <= old(self).meta.term && !r ==> final(self).meta.membership == old(self).meta.membership,
            r == (old(self).meta.membership == Membership::CANDIDATE && final(self).meta.membership
                == Membership::LEADER),
            ({
                let counted = old(self).meta.membership == Membership::CANDIDATE && term
                    == old(self).meta.term && granted && old(self).peers@.contains(from)
                    && !old(self).meta.votes@.contains(from);
                &&& term <= old(self).meta.term ==> final(self).meta.votes@ == (if counted {
                    old(self).meta.votes@.push(from)
                } else {
                    old(self).meta.votes@
                })
                &&& term <= old(self).meta.term ==> (r <==> counted && 2 * final(self).meta.votes.len()
                    > cluster_size(*old(self)))
            }),
    {
        if self.meta.membership == Membership::OFFLINE {
            return false;
        }
        if term > self.meta.term {
            self.step_down(term, now);
            return false;
        }
        if self.meta.membership == Membership::CANDIDATE && term == self.meta.term && granted
            && contains(&self.peers, from) && !contains(&self.meta.votes, from) {
            self.meta.votes.push(from);
            if self.meta.votes.len() > self.peers.len() / 2 + self.peers.len() % 2 {
                self.become_leader();
                return true;
            }
        }
        false
    }

    /// The number of peers whose matched index is at least `k`.
    fn count_matched(&self, k: u64) -> (r: u64)
        requires
            self.wf(),
        ensures
            r == count_ge(self.meta.match_index@, k),
    {
        let s = &self.meta.match_index;
        let mut c: u64 = 0;
        let mut i: usize = 0;
        while i < s.len()
            invariant
                i <= s.len(),
                s.len() < u64::MAX,
                c == count_ge(s@.take(i as int), k),
                c <= i,
            decreases s.len() - i,
        {
            assert(s@.take(i + 1).drop_last() == s@.take(i as int));
            if s[i] >= k {
                c = c + 1;
            }
            i = i + 1;
        }
        assert(s@.take(s.len() as int) == s@);
        c
    }

    /// Moves the commit index of a leader to the highest index it may commit.
    pub fn advance_commit(&mut self)
        requires
            old(self).wf(),
            old(self).meta.membership == Membership::LEADER,
        ensures
            final(self).wf(),
            final(self).id == old(self).id,
            final(self).peers == old(self).peers,
            final(self).meta == (RaftMeta { commit: final(self).meta.commit, ..old(self).meta }),
            final(self).meta.commit >= old(self).meta.commit,
            final(self).meta.commit > old(self).meta.commit ==> committable(*old(self), final(self).meta.commit as int),
            forall|k: int|
                final(self).meta.commit < k <= old(self).meta.log ==> !committable(*old(self), k),
    {
        let mut idx = self.meta.log;
        while idx > self.meta.commit
            invariant
                self.wf(),
                *self == *old(self),
                self.meta.commit <= idx <= self.meta.log,
                forall|k: int| idx < k <= self.meta.log ==> !committable(*self, k),
            decreases idx,
        {
            let c = self.count_matched(idx);
            if self.term_at(idx) == self.meta.term && c >= self.peers.len() as u64 / 2 + self.peers.len() as u64 % 2 {
                self.meta.commit = idx;
                return;
            }
            idx = idx - 1;
        }
    }

    /// Copies of the entries from index `from` to the end of the log.
    fn entries_from(&self, from: u64) -> (r: Vec<LogEntry>)
        requires
            self.wf(),
            self.meta.base_index + 1 <= from <= self.meta.log + 1,
        ensures
            copies(r@, self.meta.logs@.subrange(from - self.meta.base_index - 1, self.meta.logs@.len() as int)),
    {
        let start = (from - self.meta.base_index - 1) as usize;
        let mut out: Vec<LogEntry> = Vec::new();
        let mut k: usize = start;
        while k < self.meta.logs.len()
            invariant
                start <= k <= self.meta.logs.len(),
                copies(out@, self.meta.logs@.subrange(start as int, k as int)),
            decreases self.meta.logs.len() - k,
        {
            let e = self.meta.logs[k].copy();
            out.push(e);
            proof {
                let s2 = self.meta.logs@.subrange(start as int, k + 1);
                assert forall|i: int| 0 <= i < out@.len() implies (#[trigger] out@[i])@ == s2[i]@ by {
                    if i < out@.len() - 1 {
                        assert(s2[i] == self.meta.logs@.subrange(start as int, k as int)[i]);
                    }
                }
            }
            k = k + 1;
        }
        out
    }

    /// As leader, builds one AppendEntries call per peer, carrying what that
    /// peer has not yet acknowledged (nothing, for a heartbeat), and records
    /// the activity at `now`.
    pub fn send_heartbeat(&mut self, now: u64) -> (r: Vec<AppendRequest>)
        requires
            old(self).wf(),
            old(self).meta.membership == Membership::LEADER,
        ensures
            final(self).wf(),
            final(self).meta == (RaftMeta { last_updated: now, ..old(self).meta }),
            final(self).id == old(self).id,
            final(self).peers == old(self).peers,
            r.len() == old(self).peers.len(),
            forall|p: int| 0 <= p < r.len() ==> {
                let m = old(self).meta;
                let q = #[trigger] r@[p];
                let prev = m.next_index@[p] - 1;
                &&& q.to == old(self).peers@[p]
                &&& q.term == m.term
                &&& q.leader_id == old(self).id
                &&& q.prev_log_id == prev
                &&& q.prev_log_term == term_at(m, prev)
                &&& q.leader_commit == m.commit
                &&& copies(q.entries@, m.logs@.subrange(prev - m.base_index, m.logs@.len() as int))
            },
    {
        self.meta.last_updated = now;
        let mut out: Vec<AppendRequest> = Vec::new();
        let mut p: usize = 0;
        while p < self.peers.len()
            invariant
                self.wf(),
                self.meta == (RaftMeta { last_updated: now, ..old(self).meta }),
                self.meta.membership == Membership::LEADER,
                self.id == old(self).id,
                self.peers == old(self).peers,
                p <= self.peers.len(),
                out.len() == p,
                forall|i: int| 0 <= i < p ==> {
                    let m = old(self).meta;
                    let q = #[trigger] out@[i];
                    let prev = m.next_index@[i] - 1;
                    &&& q.to == old(self).peers@[i]
                    &&& q.term == m.term
                    &&& q.leader_id == old(self).id
                    &&& q.prev_log_id == prev
                    &&& q.prev_log_term == term_at(m, prev)
                    &&& q.leader_commit == m.commit
                    &&& copies(q.entries@, m.logs@.subrange(prev - m.base_index, m.logs@.len() as int))
                },
            decreases self.peers.len() - p,
        {
            let next = self.meta.next_index[p];
            assert(self.meta.match_index@[p as int] <= self.meta.log);
            assert(self.meta.base_index + 1 <= next <= self.meta.log + 1);
            let prev = next - 1;
            let req = AppendRequest {
                to: self.peers[p],
                term: self.meta.term,
                leader_id: self.id,
                prev_log_id: prev,
                prev_log_term: self.term_at(prev),
                entries: self.entries_from(next),
                leader_commit: self.meta.commit,
            };
            out.push(req);
            p = p + 1;
        }
        out
    }

    /// As leader, appends a client command to the log in the current term;
    /// returns its index, or `None` where this node does not lead or the
    /// log is full.
    pub fn propose(&mut self, state_machine_id: u64, function_id: u64, payload: Vec<u8>) -> (r: Option<u64>)
        requires
            old(self).wf(),
        ensures
            final(self).wf(),
            final(self).id == old(self).id,
            final(self).peers == old(self).peers,
            final(self).meta.commit >= old(self).meta.commit,
            final(self).meta.term == old(self).meta.term,
            final(self).meta.membership == old(self).meta.membership,
            old(self).meta.membership != Membership::LEADER || old(self).meta.log + 1 >= u64::MAX
                ==> r is None && final(self).meta == old(self).meta,
            old(self).meta.membership == Membership::LEADER && old(self).meta.log + 1 < u64::MAX ==> {
                &&& r == Some((old(self).meta.log + 1) as u64)
                &&& final(self).meta.log == old(self).meta.log + 1
                &&& final(self).meta.logs@.drop_last() == old(self).meta.logs@
                &&& final(self).meta.logs@.last()@ == (state_machine_id, function_id, old(self).meta.term, payload@)
            },
    {
        if self.meta.membership != Membership::LEADER || self.meta.log >= u64::MAX - 1 {
            return None;
        }
        let e = LogEntry { state_machine_id, function_id, term: self.meta.term, payload };
        self.meta.logs.push(e);
        self.meta.log = self.meta.log + 1;
        assert(self.meta.logs@.drop_last() == old(self).meta.logs@);
        self.advance_commit();
        Some(self.meta.log)
    }

    /// Handles the reply of peer number `peer` to an AppendEntries call that
    /// offered `n_sent` entries behind `prev_log_id`.
    pub fn handle_append_reply(
        &mut self,
        peer: usize,
        reply: Result<u64, u64>,
        prev_log_id: u64,
        n_sent: u64,
        now: u64,
    )
        requires
            old(self).wf(),
            peer < old(self).peers.len(),
        ensures
            final(self).wf(),
            final(self).id == old(self).id,
            final(self).peers == old(self).peers,
            final(self).meta.commit >= old(self).meta.commit,
            final(self).meta.logs@ == old(self).meta.logs@,
            ({
                let a = old(self).meta;
                let b = final(self).meta;
                let t = match reply { Ok(t) => t, Err(t) => t };
                if a.membership == Membership::OFFLINE {
                    b == a
                } else if t > a.term {
                    &&& b.term == t
                    &&& b.membership == Membership::FOLLOWER
                    &&& !b.voted
                    &&& b.last_checked == now
                    &&& b.commit == a.commit
                    &&& b.next_index@ == a.next_index@
                    &&& b.match_index@ == a.match_index@
                } else if a.membership == Membership::LEADER && t == a.term {
                    &&& b.term == a.term
                    &&& b.membership == Membership::LEADER
                    &&& match reply {
                        Ok(_) => if prev_log_id + n_sent <= a.log {
                            let m = max(a.match_index@[peer as int] as int, prev_log_id + n_sent);
                            &&& b.match_index@ == a.match_index@.update(peer as int, m as u64)
                            &&& b.next_index@ == (if m >= a.base_index {
                                a.next_index@.update(peer as int, (m + 1) as u64)
                            } else {
                                a.next_index@
                            })
                            &&& forall|k: int| b.commit < k <= a.log ==> !committable(*final(self), k)
                        } else {
                            b == a
                        },
                        Err(_) => b.next_index@ == a.next_index@.update(peer as int, (if a.next_index@[peer as int] > a.base_index + 1 {
                            a.next_index@[peer as int] - 1
                        } else {
                            a.next_index@[peer as int] as int
                        }) as u64) && b.match_index@ == a.match_index@ && b.commit == a.commit,
                    }
                    &&& b.commit > a.commit ==> committable(*final(self), b.commit as int)
                } else {
                    b == a
                }
            }),
    {
        let t = match reply {
            Ok(t) => t,
            Err(t) => t,
        };
        if self.meta.membership == Membership::OFFLINE {
            return;
        }
        if t > self.meta.term {
            self.step_down(t, now);
            return;
        }
        if self.meta.membership != Membership::LEADER || t != self.meta.term {
            return;
        }
        match reply {
            Ok(_) => {
                if prev_log_id <= self.meta.log && n_sent <= self.meta.log - prev_log_id {
                    let m = prev_log_id + n_sent;
                    if m > self.meta.match_index[peer] {
                        self.meta.match_index.set(peer, m);
                    }
                    let mi = self.meta.match_index[peer];
                    if mi >= self.meta.base_index {
                        self.meta.next_index.set(peer, mi + 1);
                    }
                    let ghost mid = *self;
                    self.advance_commit();
                    assert forall|k: int| self.meta.commit < k <= self.meta.log implies !committable(*self, k) by {
                        assert(!committable(mid, k));
                        assert(term_at(self.meta, k) == term_at(mid.meta, k));
                        assert(self.meta.match_index@ == mid.meta.match_index@);
                    }
                }
            },
            Err(_) => {
                let next = self.meta.next_index[peer];
                if next > self.meta.base_index + 1 {
                    self.meta.next_index.set(peer, next - 1);
                }
            },
        }
    }

    /// Registers a state machine before entries addressed to it commit; an
    /// id that is taken is never overwritten.
    pub fn register(&mut self, n: Number) -> (r: bool)
        requires
            old(self).wf(),
        ensures
            final(self).wf(),
            final(self).id == old(self).id,
            final(self).peers == old(self).peers,
            r == !old(self).meta.state_machine@.map_values(|p: (u64, i8)| p.0).contains(n.id),
            r ==> final(self).meta.state_machine@ == old(self).meta.state_machine@.push((n.id, n.num)),
            !r ==> final(self).meta.state_machine@ == old(self).meta.state_machine@,
            final(self).meta == (RaftMeta { state_machine: final(self).meta.state_machine, ..old(self).meta }),
    {
        self.meta.state_machine.register(n)
    }

    /// Applies the entries committed since the last call, strictly in log
    /// order; returns each one's index and result. An entry addressed to no
    /// registered machine is reported and skipped.
    pub fn apply_committed(&mut self) -> (r: Vec<(u64, Result<Vec<u8>, ApplyError>)>)
        requires
            old(self).wf(),
        ensures
            final(self).wf(),
            final(self).id == old(self).id,
            final(self).peers == old(self).peers,
            final(self).meta == (RaftMeta {
                applied: old(self).meta.commit,
                state_machine: final(self).meta.state_machine,
                ..old(self).meta
            }),
            final(self).meta.state_machine@ == applied_registry(*old(self)),
            r.len() == old(self).meta.commit - old(self).meta.applied,
            forall|k: int| 0 <= k < r.len() ==> (#[trigger] r@[k]).0 == old(self).meta.applied + 1 + k,
            forall|k: int| 0 <= k < r.len() ==> {
                let m = old(self).meta;
                let from = m.applied - m.base_index;
                is_result((#[trigger] r@[k]).1, entry_result(
                    run(m.state_machine@, entry_views(m.logs@.subrange(from, from + k))),
                    m.logs@[from + k]@,
                ))
            },
    {
        let ghost v0 = self.meta.state_machine@;
        let ghost a0 = self.meta.applied;
        let base = self.meta.base_index;
        let mut out: Vec<(u64, Result<Vec<u8>, ApplyError>)> = Vec::new();
        proof {
            assert(entry_views(self.meta.logs@.subrange(a0 - base, a0 - base)) =~= Seq::empty());
        }
        while self.meta.applied < self.meta.commit
            invariant
                self.wf(),
                self.id == old(self).id,
                self.peers == old(self).peers,
                base == self.meta.base_index,
                base <= a0 <= self.meta.applied <= old(self).meta.commit,
                self.meta == (RaftMeta {
                    applied: self.meta.applied,
                    state_machine: self.meta.state_machine,
                    ..old(self).meta
                }),
                self.meta.state_machine@ == run(v0, entry_views(self.meta.logs@.subrange(a0 - base, self.meta.applied - base))),
                out.len() == self.meta.applied - a0,
                forall|k: int| 0 <= k < out.len() ==> (#[trigger] out@[k]).0 == a0 + 1 + k,
                forall|k: int| 0 <= k < out.len() ==> is_result((#[trigger] out@[k]).1, entry_result(
                    run(v0, entry_views(self.meta.logs@.subrange(a0 - base, a0 - base + k))),
                    self.meta.logs@[a0 - base + k]@,
                )),
            decreases self.meta.commit - self.meta.applied,
        {
            let idx = self.meta.applied + 1;
            let k = (idx - base - 1) as usize;
            let ghost before = self.meta.state_machine@;
            let res = self.meta.state_machine.apply_entry(
                self.meta.logs[k].state_machine_id,
                self.meta.logs[k].function_id,
                &self.meta.logs[k].payload,
            );
            self.meta.applied = idx;
            out.push((idx, res));
            proof {
                let e = self.meta.logs@[k as int];
                lemma_entry_views_step(self.meta.logs@, a0 - base, idx - base);
                assert(entry_result(before, (e.state_machine_id, e.function_id, 0u64, e.payload@)) == entry_result(before, e@));
                assert(a0 - base + (out.len() - 1) == k);
                assert(reg_step(before, (e.state_machine_id, e.function_id, 0u64, e.payload@)) =~= reg_step(before, e@));
            }
        }
        out
    }

    /// Handles an InstallSnapshot call. Chunks are gathered until `done`;
    /// the whole payload is the target machine's id (eight little-endian
    /// bytes) followed by its snapshot. A payload that does not validate
    /// leaves the log and every machine as they were, and is answered with
    /// `Err`.
    #[verifier::rlimit(50)]
    pub fn install_snapshot(
        &mut self,
        term: u64,
        leader_id: u64,
        last_included_index: u64,
        last_included_term: u64,
        data: Vec<u8>,
        done: bool,
        now: u64,
    ) -> (r: Result<u64, u64>)
        requires
            old(self).wf(),
        ensures
            final(self).wf(),
            final(self).id == old(self).id,
            final(self).peers == old(self).peers,
            final(self).meta.commit >= old(self).meta.commit,
            ({
                let a = old(self).meta;
                let b = final(self).meta;
                let payload = a.snapshot_buf@ + data@;
                if term < a.term || a.membership == Membership::OFFLINE {
                    r == Err::<u64, u64>(a.term) && b == a
                } else {
                    &&& b.term == term
                    &&& b.leader_id == leader_id
                    &&& b.last_checked == now
                    &&& b.membership == Membership::FOLLOWER
                    &&& !done ==> r == Ok::<u64, u64>(term) && b.snapshot_buf@ == payload
                        && same_log(a, b)
                    &&& done ==> b.snapshot_buf@.len() == 0
                    &&& done && (last_included_index <= a.applied || last_included_index == u64::MAX)
                        ==> r == Ok::<u64, u64>(term) && same_log(a, b)
                    &&& done && a.applied < last_included_index < u64::MAX ==> if payload.len() >= 8
                        && snapshot_fits(a, last_included_index, last_included_term)
                        && recovered(payload.skip(8)) is Some && exists|k: int|
                        0 <= k < a.state_machine@.len() && a.state_machine@[k].0 == le_value(payload) {
                        &&& r == Ok::<u64, u64>(term)
                        &&& exists|k: int| 0 <= k < a.state_machine@.len() && a.state_machine@[k].0
                            == le_value(payload) && b.state_machine@ == a.state_machine@.update(
                            k,
                            (le_value(payload), recovered(payload.skip(8))->Some_0),
                        )
                        &&& b.base_index == last_included_index
                        &&& b.base_term == last_included_term
                        &&& b.applied == last_included_index
                        &&& b.commit == max(a.commit as int, last_included_index as int)
                        &&& b.logs@ == (if last_included_index <= a.log && term_at(a, last_included_index as int)
                            == last_included_term {
                            a.logs@.skip(last_included_index - a.base_index)
                        } else {
                            Seq::empty()
                        })
                    } else {
                        r == Err::<u64, u64>(term) && same_log(a, b)
                    }
                }
            }),
    {
        if term < self.meta.term || self.meta.membership == Membership::OFFLINE {
            return Err(self.meta.term);
        }
        self.meta.last_checked = now;
        self.meta.leader_id = leader_id;
        if term > self.meta.term {
            self.meta.term = term;
            self.meta.voted = false;
            self.meta.votes = Vec::new();
        }
        self.meta.membership = Membership::FOLLOWER;
        let ghost payload0 = self.meta.snapshot_buf@ + data@;
        let mut data = data;
        self.meta.snapshot_buf.append(&mut data);
        if !done {
            return Ok(term);
        }
        let mut payload: Vec<u8> = Vec::new();
        std::mem::swap(&mut payload, &mut self.meta.snapshot_buf);
        if last_included_index <= self.meta.applied || last_included_index == u64::MAX {
            return Ok(term);
        }
        if payload.len() < 8 {
            return Err(term);
        }
        let ghost whole = payload@;
        assert(whole == payload0);
        let (sm_id, snap) = extract_u64_head(payload);
        let keep = last_included_index <= self.meta.log && self.term_at(last_included_index)
            == last_included_term;
        if !keep && last_included_index < self.meta.commit {
            return Err(term);
        }
        match self.meta.state_machine.recover(sm_id, &snap) {
            Err(_) => {
                assert(!(recovered(whole.skip(8)) is Some && exists|k: int|
                    0 <= k < old(self).meta.state_machine@.len() && old(self).meta.state_machine@[k].0 == le_value(whole)));
                return Err(term);
            },
            Ok(()) => {},
        }
        if keep {
            let cut = (last_included_index - self.meta.base_index) as usize;
            let rest = self.meta.logs.split_off(cut);
            self.meta.logs = rest;
        } else {
            self.meta.logs = Vec::new();
        }
        self.meta.base_index = last_included_index;
        self.meta.base_term = last_included_term;
        self.meta.log = last_included_index + self.meta.logs.len() as u64;
        if self.meta.commit < last_included_index {
            self.meta.commit = last_included_index;
        }
        self.meta.applied = last_included_index;
        Ok(term)
    }

    /// Takes the node offline for good; the ticker stops at its next period.
    pub fn shutdown(&mut self)
        requires
            old(self).wf(),
        ensures
            final(self).wf(),
            final(self).id == old(self).id,
            final(self).peers == old(self).peers,
            final(self).meta == (RaftMeta { membership: Membership::OFFLINE, ..old(self).meta }),
    {
        self.meta.membership = Membership::OFFLINE;
    }
}

fn contains(v: &Vec<u64>, x: u64) -> (r: bool)
    ensures
        r == v@.contains(x),
{
    let mut i: usize = 0;
    while i < v.len()
        invariant
            i <= v.len(),
            forall|k: int| 0 <= k < i ==> v@[k] != x,
        decreases v.len() - i,
    {
        if v[i] == x {
            return true;
        }
        i = i + 1;
    }
    false
}

} // verus!
