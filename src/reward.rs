use vstd::prelude::*;

verus! {

/// One purchase of tickets: the tickets from `start` up to the next range's
/// start (or the reward's total) belong to `owner`.
#[derive(Debug)]
pub struct TicketRange {
    pub start: u64,
    pub owner: String,
}

/// A lottery: tickets are sold for `price` points each until `ended_at`, then
/// one ticket index is drawn and its holder wins.
#[derive(Debug)]
pub struct Reward {
    pub title: String,
    pub price: u64,
    pub ended_at: u64,
    pub total_tickets: u64,
    pub winner: Option<String>,
    /// The purchases, by increasing start.
    pub tickets: Vec<TicketRange>,
}

impl Reward {
    /// The end (exclusive) of the range of purchase `i`.
    pub open spec fn range_end(&self, i: int) -> int {
        if i + 1 < self.tickets@.len() {
            self.tickets@[i + 1].start as int
        } else {
            self.total_tickets as int
        }
    }

    /// Whether ticket index `t` lies in the range of purchase `i`.
    pub open spec fn range_contains(&self, i: int, t: int) -> bool {
        &&& 0 <= i < self.tickets@.len()
        &&& self.tickets@[i].start <= t < self.range_end(i)
    }

    /// The ranges start at 0, have increasing starts, none past the total, and
    /// an open reward with tickets sold has at least one range. A reward with a
    /// winner keeps no ranges.
    pub open spec fn wf(&self) -> bool {
        &&& self.tickets@.len() > 0 ==> self.tickets@[0].start == 0
        &&& forall|i: int, j: int|
            0 <= i < j < self.tickets@.len() ==> self.tickets@[i].start < self.tickets@[j].start
        &&& forall|i: int| 0 <= i < self.tickets@.len() ==> self.tickets@[i].start <= self.total_tickets
        &&& self.winner is None && self.total_tickets > 0 ==> self.tickets@.len() > 0
        &&& self.winner is Some ==> self.tickets@.len() == 0
    }

    /// The purchase whose range holds ticket index `t`.
    pub open spec fn range_index(&self, t: int) -> int {
        choose|i: int| self.range_contains(i, t)
    }

    /// The account holding ticket index `t`.
    pub open spec fn holder_of(&self, t: int) -> Seq<char> {
        self.tickets@[self.range_index(t)].owner@
    }

    /// A reward with no ticket sold and no winner.
    pub fn new(title: String, price: u64, ended_at: u64) -> (r: Reward)
        ensures
            r.title == title,
            r.price == price,
            r.ended_at == ended_at,
            r.total_tickets == 0,
            r.winner is None,
            r.tickets@.len() == 0,
            r.wf(),
    {
        Reward { title, price, ended_at, total_tickets: 0, winner: None, tickets: Vec::new() }
    }

    /// Whether the reward is well formed, checked range by range.
    pub fn is_well_formed(&self) -> (b: bool)
        ensures
            b == self.wf(),
    {
        let n = self.tickets.len();
        if n > 0 && self.tickets[0].start != 0 {
            return false;
        }
        if self.winner.is_some() && n > 0 {
            return false;
        }
        if self.winner.is_none() && self.total_tickets > 0 && n == 0 {
            return false;
        }
        let mut i: usize = 0;
        while i < n
            invariant
                n == self.tickets@.len(),
                i <= n,
                forall|a: int, b: int| 0 <= a < b < i ==> self.tickets@[a].start < self.tickets@[b].start,
                forall|a: int| 0 <= a < i ==> self.tickets@[a].start <= self.total_tickets,
            decreases n - i,
        {
            if self.tickets[i].start > self.total_tickets {
                return false;
            }
            if i > 0 && self.tickets[i - 1].start >= self.tickets[i].start {
                return false;
            }
            i = i + 1;
        }
        true
    }

    /// Records a purchase of `amount` tickets by `buyer`: a range keyed at the
    /// current total (replacing an empty range keyed there), then the total grows.
    pub fn add_tickets(&mut self, buyer: String, amount: u64)
        requires
            old(self).wf(),
            old(self).winner is None,
            old(self).total_tickets + amount <= u64::MAX,
        ensures
            final(self).wf(),
            final(self).total_tickets == old(self).total_tickets + amount,
            final(self).tickets@.len() > 0,
            ({
                let n = final(self).tickets@.len() - 1;
                &&& final(self).tickets@[n].start == old(self).total_tickets
                &&& final(self).tickets@[n].owner == buyer
                &&& final(self).range_end(n) == old(self).total_tickets + amount
                &&& final(self).tickets@.subrange(0, n) == old(self).tickets@.subrange(0, n)
            }),
            forall|i: int| 0 <= i < final(self).tickets@.len() - 1 ==> final(self).range_end(i)
                == old(self).range_end(i),
            final(self).title == old(self).title,
            final(self).price == old(self).price,
            final(self).ended_at == old(self).ended_at,
            final(self).winner == old(self).winner,
    {
        let key = self.total_tickets;
        let len = self.tickets.len();
        let entry = TicketRange { start: key, owner: buyer };
        if len > 0 && self.tickets[len - 1].start == key {
            self.tickets.set(len - 1, entry);
        } else {
            self.tickets.push(entry);
        }
        self.total_tickets = key + amount;
    }

    /// The purchase whose range holds ticket index `t`: the last range start
    /// not above `t`, found by binary search.
    pub fn floor_index(&self, t: u64) -> (i: usize)
        requires
            self.wf(),
            self.tickets@.len() > 0,
            t < self.total_tickets,
        ensures
            self.range_contains(i as int, t as int),
    {
        let mut lo: usize = 0;
        let mut hi: usize = self.tickets.len();
        while hi - lo > 1
            invariant
                self.wf(),
                0 <= lo < hi <= self.tickets@.len(),
                self.tickets@[lo as int].start <= t,
                hi < self.tickets@.len() ==> self.tickets@[hi as int].start > t,
            decreases hi - lo,
        {
            let mid = lo + (hi - lo) / 2;
            if self.tickets[mid].start <= t {
                lo = mid;
            } else {
                hi = mid;
            }
        }
        lo
    }

    /// Draws the winner from `random`: the holder of ticket index
    /// `random % total_tickets`. The ranges are dropped afterwards.
    pub fn draw_winner(&mut self, random: u32) -> (w: String)
        requires
            old(self).wf(),
            old(self).winner is None,
            old(self).total_tickets > 0,
        ensures
            final(self).wf(),
            w@ == old(self).holder_of((random as int) % (old(self).total_tickets as int)),
            exists|i: int|
                old(self).range_contains(i, (random as int) % (old(self).total_tickets as int))
                    && old(self).tickets@[i].owner@ == w@,
            final(self).winner == Some(w),
            final(self).tickets@.len() == 0,
            final(self).title == old(self).title,
            final(self).price == old(self).price,
            final(self).ended_at == old(self).ended_at,
            final(self).total_tickets == old(self).total_tickets,
    {
        let r = (random as u64) % self.total_tickets;
        let i = self.floor_index(r);
        proof {
            lemma_range_unique(*self, i as int, self.range_index(r as int), r as int);
        }
        let w = self.tickets[i].owner.clone();
        self.winner = Some(w.clone());
        self.tickets.clear();
        w
    }
}

/// No ticket index lies in two ranges.
pub proof fn lemma_range_unique(r: Reward, i: int, j: int, t: int)
    requires
        r.wf(),
        r.range_contains(i, t),
        r.range_contains(j, t),
    ensures
        i == j,
{
    if i < j {
        if i + 1 < j {
            assert(r.tickets@[i + 1].start < r.tickets@[j].start);
        }
    } else if j < i {
        if j + 1 < i {
            assert(r.tickets@[j + 1].start < r.tickets@[i].start);
        }
    }
}

proof fn lemma_covered_from(r: Reward, k: int, t: int)
    requires
        r.wf(),
        0 <= k < r.tickets@.len(),
        r.tickets@[k].start <= t < r.total_tickets,
    ensures
        exists|i: int| r.range_contains(i, t),
    decreases r.tickets@.len() - k,
{
    if k + 1 < r.tickets@.len() && r.tickets@[k + 1].start <= t {
        lemma_covered_from(r, k + 1, t);
    } else {
        assert(r.range_contains(k, t));
    }
}

/// The ranges of an open reward partition the ticket indices sold: an index
/// lies in some range exactly when it is below the total, and in at most one.
pub proof fn lemma_ranges_cover(r: Reward, t: int)
    requires
        r.wf(),
        r.winner is None,
    ensures
        (exists|i: int| r.range_contains(i, t)) <==> 0 <= t < r.total_tickets,
        forall|i: int, j: int| r.range_contains(i, t) && r.range_contains(j, t) ==> i == j,
{
    if 0 <= t < r.total_tickets {
        lemma_covered_from(r, 0, t);
    }
    if exists|i: int| r.range_contains(i, t) {
        let i = choose|i: int| r.range_contains(i, t);
        assert(r.tickets@[i].start >= r.tickets@[0].start);
        if i + 1 < r.tickets@.len() {
            assert(r.tickets@[i + 1].start <= r.total_tickets);
        }
    }
    assert forall|i: int, j: int| r.range_contains(i, t) && r.range_contains(j, t) implies i
        == j by {
        lemma_range_unique(r, i, j, t);
    }
}

} // verus!
