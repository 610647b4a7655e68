use vstd::prelude::*;

use crate::error::ArkanaError;
use crate::ONE_DAY;
use crate::random::{get_random_number, random_value};
use crate::reward::{lemma_range_unique, lemma_ranges_cover, Reward};
use crate::user::{check_cooldown, cooldown_active, cooldown_remaining, credit, debit, User};
use crate::wheel::{next_streak, spin_outcome, spin_payout, update_streak};

verus! {

/// The state of the points ledger and lottery, as plain values.
pub struct ContractView {
    pub owner: Seq<char>,
    pub daily_claim_points: u64,
    pub spin_wheel_price: u64,
    pub users: Map<Seq<char>, User>,
    /// The reward with id `k` is `rewards[k - 1]`.
    pub rewards: Seq<Reward>,
    pub membership_contracts: Set<Seq<char>>,
    pub spinwheel_wr: u8,
}

/// The ledger of points and the lotteries. Each operation takes the calling
/// account, and where it needs them the current time (ms) and the random seed.
pub struct ArkanaCoreContract {
    owner: String,
    daily_claim_points: u64,
    spin_wheel_price: u64,
    users: Vec<(String, User)>,
    rewards: Vec<Reward>,
    last_reward_id: u64,
    membership_contracts: Vec<String>,
    spinwheel_wr: u8,
}

/// What `get_user` reports of an account.
#[derive(Clone, Copy, Debug, PartialEq, Eq, Structural)]
pub struct UserOutput {
    pub points: u64,
    pub last_daily_claim: u64,
    pub last_free_spinwheel: u64,
}

/// What `get_reward` reports of a reward; its ticket ranges are left out.
#[derive(Debug)]
pub struct RewardOutput {
    pub title: String,
    pub price: u64,
    pub ended_at: u64,
    pub total_tickets: u64,
    pub winner: Option<String>,
}

/// Whether reward id `id` names a reward of `v`.
pub open spec fn has_reward(v: ContractView, id: u64) -> bool {
    1 <= id <= v.rewards.len()
}

/// The reward of `v` with id `id`.
pub open spec fn reward_of(v: ContractView, id: u64) -> Reward {
    v.rewards[id - 1]
}

/// `v` after `account`'s record became `u`.
pub open spec fn with_user(v: ContractView, account: Seq<char>, u: User) -> ContractView {
    ContractView { users: v.users.insert(account, u), ..v }
}

/// `v` after a successful daily claim by `caller` at `now`.
pub open spec fn after_daily_claim(v: ContractView, caller: Seq<char>, now: u64) -> ContractView {
    let u = v.users[caller];
    with_user(
        v,
        caller,
        User { points: (u.points + v.daily_claim_points) as u64, last_daily_claim: now, ..u },
    )
}

/// The record of `caller` once a spin has been paid for, before its payout.
pub open spec fn paid_spin(v: ContractView, caller: Seq<char>, now: u64, is_free: bool) -> User {
    let u = v.users[caller];
    if is_free {
        User { last_free_spinwheel: now, ..u }
    } else {
        User { points: (u.points - v.spin_wheel_price) as u64, ..u }
    }
}

/// The draw that a random seed gives.
pub open spec fn seed_number(seed: Seq<u8>) -> u32 {
    random_value(seed, 0) as u32
}

/// Whether `n` is `o` with ticket purchase of `amount` by `buyer` recorded.
pub open spec fn purchase_recorded(o: Reward, n: Reward, buyer: Seq<char>, amount: u64) -> bool {
    let k = n.tickets@.len() - 1;
    &&& n.wf()
    &&& n.total_tickets == o.total_tickets + amount
    &&& n.tickets@.len() > 0
    &&& n.tickets@[k].start == o.total_tickets
    &&& n.tickets@[k].owner@ == buyer
    &&& n.range_end(k) == o.total_tickets + amount
    &&& n.tickets@.subrange(0, k) == o.tickets@.subrange(0, k)
    &&& forall|i: int| 0 <= i < k ==> n.range_end(i) == o.range_end(i)
    &&& n.title == o.title
    &&& n.price == o.price
    &&& n.ended_at == o.ended_at
    &&& n.winner == o.winner
}

/// Whether `n` is `o` finalized with winner `w`.
pub open spec fn finalized_with(o: Reward, n: Reward, w: Seq<char>) -> bool {
    &&& n.wf()
    &&& n.winner matches Some(x) && x@ == w
    &&& n.tickets@.len() == 0
    &&& n.title == o.title
    &&& n.price == o.price
    &&& n.ended_at == o.ended_at
    &&& n.total_tickets == o.total_tickets
}

impl View for ArkanaCoreContract {
    type V = ContractView;

    closed spec fn view(&self) -> ContractView {
        ContractView {
            owner: self.owner@,
            daily_claim_points: self.daily_claim_points,
            spin_wheel_price: self.spin_wheel_price,
            users: Map::new(
                |k: Seq<char>| exists|i: int| 0 <= i < self.users@.len() && self.users@[i].0@ == k,
                |k: Seq<char>|
                    self.users@[choose|i: int|
                        0 <= i < self.users@.len() && self.users@[i].0@ == k].1,
            ),
            rewards: self.rewards@,
            membership_contracts: Set::new(
                |k: Seq<char>|
                    exists|i: int|
                        0 <= i < self.membership_contracts@.len()
                            && self.membership_contracts@[i]@ == k,
            ),
            spinwheel_wr: self.spinwheel_wr,
        }
    }
}

impl ArkanaCoreContract {
    /// Account names are unique, allowlist entries are unique, reward ids run
    /// from 1 to the counter, and every reward is well formed.
    pub closed spec fn wf(&self) -> bool {
        &&& forall|i: int, j: int|
            0 <= i < j < self.users@.len() ==> self.users@[i].0@ != self.users@[j].0@
        &&& forall|i: int, j: int|
            0 <= i < j < self.membership_contracts@.len() ==> self.membership_contracts@[i]@
                != self.membership_contracts@[j]@
        &&& self.last_reward_id == self.rewards@.len()
        &&& forall|i: int| 0 <= i < self.rewards@.len() ==> self.rewards@[i].wf()
    }

    /// A contract owned by `owner`, with no account, reward or allowed contract.
    pub fn new(owner: String, daily_claim_points: u64, spin_wheel_price: u64) -> (c: Self)
        ensures
            c.wf(),
            c@.owner == owner@,
            c@.daily_claim_points == daily_claim_points,
            c@.spin_wheel_price == spin_wheel_price,
            c@.users == Map::<Seq<char>, User>::empty(),
            c@.rewards.len() == 0,
            c@.membership_contracts == Set::<Seq<char>>::empty(),
            c@.spinwheel_wr == 0,
    {
        let c = ArkanaCoreContract {
            owner,
            daily_claim_points,
            spin_wheel_price,
            users: Vec::new(),
            rewards: Vec::new(),
            last_reward_id: 0,
            membership_contracts: Vec::new(),
            spinwheel_wr: 0,
        };
        assert(c@.users =~= Map::<Seq<char>, User>::empty());
        assert(c@.membership_contracts =~= Set::<Seq<char>>::empty());
        c
    }

    /// Whether the accounts, the allowlist and the rewards can make up a
    /// contract: names unique, entries unique, rewards well formed and
    /// numbered within `u64`.
    pub open spec fn parts_valid(users: Seq<(String, User)>, rewards: Seq<Reward>, members: Seq<
        String,
    >) -> bool {
        &&& forall|i: int, j: int| 0 <= i < j < users.len() ==> users[i].0@ != users[j].0@
        &&& forall|i: int, j: int| 0 <= i < j < members.len() ==> members[i]@ != members[j]@
        &&& forall|i: int| 0 <= i < rewards.len() ==> #[trigger] rewards[i].wf()
        &&& rewards.len() <= u64::MAX
    }

    /// Rebuilds a contract from its parts, as `into_parts` gives them; `None`
    /// if they cannot make up one.
    pub fn from_parts(
        owner: String,
        daily_claim_points: u64,
        spin_wheel_price: u64,
        users: Vec<(String, User)>,
        rewards: Vec<Reward>,
        membership_contracts: Vec<String>,
        spinwheel_wr: u8,
    ) -> (r: Option<Self>)
        ensures
            r is Some <==> Self::parts_valid(users@, rewards@, membership_contracts@),
            r matches Some(c) ==> {
                &&& c.wf()
                &&& c@.owner == owner@
                &&& c@.daily_claim_points == daily_claim_points
                &&& c@.spin_wheel_price == spin_wheel_price
                &&& c@.rewards == rewards@
                &&& c@.spinwheel_wr == spinwheel_wr
                &&& forall|k: Seq<char>|
                    c@.users.contains_key(k) <==> exists|i: int|
                        0 <= i < users@.len() && users@[i].0@ == k
                &&& forall|i: int|
                    0 <= i < users@.len() ==> c@.users[#[trigger] users@[i].0@] == users@[i].1
                &&& forall|k: Seq<char>|
                    c@.membership_contracts.contains(k) <==> exists|i: int|
                        0 <= i < membership_contracts@.len() && membership_contracts@[i]@ == k
            },
    {
        let mut i: usize = 0;
        while i < users.len()
            invariant
                i <= users@.len(),
                forall|a: int, b: int| 0 <= a < b < users@.len() && a < i ==> users@[a].0@ != users@[b].0@,
            decreases users@.len() - i,
        {
            let mut j: usize = i + 1;
            while j < users.len()
                invariant
                    i < j <= users@.len(),
                    forall|a: int, b: int| 0 <= a < b < users@.len() && a < i ==> users@[a].0@ != users@[b].0@,
                    forall|b: int| i < b < j ==> users@[i as int].0@ != users@[b].0@,
                decreases users@.len() - j,
            {
                if users[i].0 == users[j].0 {
                    return None;
                }
                j = j + 1;
            }
            i = i + 1;
        }
        let mut i: usize = 0;
        while i < membership_contracts.len()
            invariant
                i <= membership_contracts@.len(),
                forall|a: int, b: int|
                    0 <= a < b < membership_contracts@.len() && a < i ==> membership_contracts@[a]@
                        != membership_contracts@[b]@,
            decreases membership_contracts@.len() - i,
        {
            let mut j: usize = i + 1;
            while j < membership_contracts.len()
                invariant
                    i < j <= membership_contracts@.len(),
                    forall|a: int, b: int|
                        0 <= a < b < membership_contracts@.len() && a < i
                            ==> membership_contracts@[a]@ != membership_contracts@[b]@,
                    forall|b: int| i < b < j ==> membership_contracts@[i as int]@ != membership_contracts@[b]@,
                decreases membership_contracts@.len() - j,
            {
                if membership_contracts[i] == membership_contracts[j] {
                    return None;
                }
                j = j + 1;
            }
            i = i + 1;
        }
        let mut i: usize = 0;
        while i < rewards.len()
            invariant
                i <= rewards@.len(),
                forall|a: int| 0 <= a < i ==> #[trigger] rewards@[a].wf(),
            decreases rewards@.len() - i,
        {
            if !rewards[i].is_well_formed() {
                return None;
            }
            i = i + 1;
        }
        let count = rewards.len();
        if count as u64 as usize != count {
            return None;
        }
        let c = ArkanaCoreContract {
            owner,
            daily_claim_points,
            spin_wheel_price,
            users,
            rewards,
            last_reward_id: count as u64,
            membership_contracts,
            spinwheel_wr,
        };
        proof {
            assert forall|i: int| 0 <= i < c.users@.len() implies c@.users[#[trigger] c.users@[i].0@]
                == c.users@[i].1 by {
                c.lemma_user_at(i);
            }
        }
        Some(c)
    }

    /// Takes the contract apart into the values `from_parts` takes:
    /// owner, daily points, spin price, accounts, rewards, allowlist, streak counter.
    pub fn into_parts(self) -> (r: (String, u64, u64, Vec<(String, User)>, Vec<Reward>, Vec<String>, u8))
        requires
            self.wf(),
        ensures
            Self::parts_valid(r.3@, r.4@, r.5@),
            r.0@ == self@.owner,
            r.1 == self@.daily_claim_points,
            r.2 == self@.spin_wheel_price,
            r.4@ == self@.rewards,
            r.6 == self@.spinwheel_wr,
            forall|k: Seq<char>|
                self@.users.contains_key(k) <==> exists|i: int| 0 <= i < r.3@.len() && r.3@[i].0@ == k,
            forall|i: int| 0 <= i < r.3@.len() ==> self@.users[#[trigger] r.3@[i].0@] == r.3@[i].1,
            forall|k: Seq<char>|
                self@.membership_contracts.contains(k) <==> exists|i: int|
                    0 <= i < r.5@.len() && r.5@[i]@ == k,
    {
        proof {
            assert forall|i: int| 0 <= i < self.users@.len() implies self@.users[#[trigger] self.users@[i].0@]
                == self.users@[i].1 by {
                self.lemma_user_at(i);
            }
        }
        (
            self.owner,
            self.daily_claim_points,
            self.spin_wheel_price,
            self.users,
            self.rewards,
            self.membership_contracts,
            self.spinwheel_wr,
        )
    }

    /// The position of `account` in the account list, if registered.
    fn find_user(&self, account: &String) -> (r: Option<usize>)
        requires
            self.wf(),
        ensures
            r is None <==> !self@.users.contains_key(account@),
            r matches Some(i) ==> i < self.users@.len() && self.users@[i as int].0@ == account@
                && self@.users[account@] == self.users@[i as int].1,
    {
        let mut i: usize = 0;
        while i < self.users.len()
            invariant
                self.wf(),
                i <= self.users@.len(),
                forall|j: int| 0 <= j < i ==> self.users@[j].0@ != account@,
            decreases self.users@.len() - i,
        {
            if self.users[i].0 == *account {
                proof {
                    self.lemma_user_at(i as int);
                }
                return Some(i);
            }
            i = i + 1;
        }
        None
    }

    proof fn lemma_user_at(&self, i: int)
        requires
            self.wf(),
            0 <= i < self.users@.len(),
        ensures
            self@.users.contains_key(self.users@[i].0@),
            self@.users[self.users@[i].0@] == self.users@[i].1,
    {
        let k = self.users@[i].0@;
        assert(0 <= i < self.users@.len() && self.users@[i].0@ == k);
        let j = choose|j: int| 0 <= j < self.users@.len() && self.users@[j].0@ == k;
        if j != i {
            if j < i {
                assert(self.users@[j].0@ != self.users@[i].0@);
            } else {
                assert(self.users@[i].0@ != self.users@[j].0@);
            }
        }
    }

    /// Replaces the record at position `i`, which belongs to `account`.
    fn set_user(&mut self, i: usize, account: &String, u: User)
        requires
            old(self).wf(),
            i < old(self).users@.len(),
            old(self).users@[i as int].0@ == account@,
        ensures
            final(self).wf(),
            final(self)@ == with_user(old(self)@, account@, u),
    {
        let ghost prev = *self;
        self.users.set(i, (account.clone(), u));
        proof {
            let m = self@.users;
            let e = prev@.users.insert(account@, u);
            assert forall|k: Seq<char>| m.contains_key(k) <==> e.contains_key(k) by {
                if k == account@ {
                    assert(0 <= i < self.users@.len() && self.users@[i as int].0@ == k);
                }
                if e.contains_key(k) && k != account@ {
                    let j = choose|j: int| 0 <= j < prev.users@.len() && prev.users@[j].0@ == k;
                    assert(self.users@[j].0@ == k);
                }
                if m.contains_key(k) {
                    let j = choose|j: int| 0 <= j < self.users@.len() && self.users@[j].0@ == k;
                    assert(prev.users@[j].0@ == k || j == i);
                }
            }
            assert forall|k: Seq<char>| #[trigger] m.contains_key(k) implies m[k] == e[k] by {
                let j = choose|j: int| 0 <= j < self.users@.len() && self.users@[j].0@ == k;
                self.lemma_user_at(j);
                if j != i {
                    prev.lemma_user_at(j);
                }
            }
            assert(m =~= e);
        }
    }

    /// Registers `caller` with a zeroed record; refused if it is registered already.
    pub fn register_account(&mut self, caller: String) -> (r: Result<(), ArkanaError>)
        requires
            old(self).wf(),
        ensures
            final(self).wf(),
            old(self)@.users.contains_key(caller@) ==> r == Err::<(), ArkanaError>(
                ArkanaError::AlreadyRegistered,
            ) && final(self)@ == old(self)@,
            !old(self)@.users.contains_key(caller@) ==> r is Ok && final(self)@ == with_user(
                old(self)@,
                caller@,
                User { points: 0, last_daily_claim: 0, last_free_spinwheel: 0 },
            ),
    {
        if self.find_user(&caller).is_some() {
            return Err(ArkanaError::AlreadyRegistered);
        }
        let ghost prev = *self;
        let ghost name = caller@;
        self.users.push((caller, User::new()));
        proof {
            let n = prev.users@.len() as int;
            assert(self.users@[n].0@ == name);
            let m = self@.users;
            let e = prev@.users.insert(name, User::new_spec());
            assert forall|k: Seq<char>| m.contains_key(k) <==> e.contains_key(k) by {
                if k == name {
                    assert(0 <= n < self.users@.len() && self.users@[n].0@ == k);
                }
                if e.contains_key(k) && k != name {
                    let j = choose|j: int| 0 <= j < prev.users@.len() && prev.users@[j].0@ == k;
                    assert(self.users@[j].0@ == k);
                }
                if m.contains_key(k) {
                    let j = choose|j: int| 0 <= j < self.users@.len() && self.users@[j].0@ == k;
                    assert(prev.users@[j].0@ == k || j == n);
                }
            }
            assert forall|k: Seq<char>| #[trigger] m.contains_key(k) implies m[k] == e[k] by {
                let j = choose|j: int| 0 <= j < self.users@.len() && self.users@[j].0@ == k;
                self.lemma_user_at(j);
                if j != n {
                    prev.lemma_user_at(j);
                }
            }
            assert(m =~= e);
        }
        Ok(())
    }

    /// Credits the daily points to `caller` at `now`, once a day has passed
    /// since the last claim; returns the new balance.
    pub fn daily_claim_point(&mut self, caller: String, now: u64) -> (r: Result<u64, ArkanaError>)
        requires
            old(self).wf(),
        ensures
            final(self).wf(),
            r is Err ==> final(self)@ == old(self)@,
            !old(self)@.users.contains_key(caller@) ==> r == Err::<u64, ArkanaError>(
                ArkanaError::NotFound,
            ),
            old(self)@.users.contains_key(caller@) ==> {
                let u = old(self)@.users[caller@];
                if cooldown_active(u.last_daily_claim, now) {
                    r == Err::<u64, ArkanaError>(
                        ArkanaError::CooldownActive(
                            cooldown_remaining(u.last_daily_claim, now) as u64,
                        ),
                    )
                } else if u.points + old(self)@.daily_claim_points > u64::MAX {
                    r == Err::<u64, ArkanaError>(ArkanaError::Overflow)
                } else {
                    r == Ok::<u64, ArkanaError>((u.points + old(self)@.daily_claim_points) as u64)
                        && final(self)@ == after_daily_claim(old(self)@, caller@, now)
                }
            },
    {
        let i = match self.find_user(&caller) {
            Some(i) => i,
            None => return Err(ArkanaError::NotFound),
        };
        let mut user = self.users[i].1;
        match check_cooldown(user.last_daily_claim, now) {
            Err(s) => return Err(ArkanaError::CooldownActive(s)),
            Ok(()) => {},
        }
        user.points = match credit(user.points, self.daily_claim_points) {
            Some(p) => p,
            None => return Err(ArkanaError::Overflow),
        };
        user.last_daily_claim = now;
        self.set_user(i, &caller, user);
        Ok(user.points)
    }

    /// Plays the wheel for `caller` at `now`, free once a day or for the spin
    /// price; the payout is chosen from `random_seed` under the current streak
    /// counter, credited, and returned.
    pub fn play_spin_wheel(&mut self, caller: String, now: u64, is_free: bool, random_seed: &Vec<u8>)
        -> (r: Result<u64, ArkanaError>)
        requires
            old(self).wf(),
            random_seed@.len() >= 4,
        ensures
            final(self).wf(),
            r is Err ==> final(self)@ == old(self)@,
            !old(self)@.users.contains_key(caller@) ==> r == Err::<u64, ArkanaError>(
                ArkanaError::NotFound,
            ),
            old(self)@.users.contains_key(caller@) ==> {
                let v = old(self)@;
                let u = v.users[caller@];
                let p = spin_payout(v.spinwheel_wr, seed_number(random_seed@));
                let paid = paid_spin(v, caller@, now, is_free);
                if is_free && cooldown_active(u.last_free_spinwheel, now) {
                    r == Err::<u64, ArkanaError>(
                        ArkanaError::CooldownActive(
                            cooldown_remaining(u.last_free_spinwheel, now) as u64,
                        ),
                    )
                } else if !is_free && u.points < v.spin_wheel_price {
                    r == Err::<u64, ArkanaError>(ArkanaError::InsufficientPoints)
                } else if paid.points + p > u64::MAX {
                    r == Err::<u64, ArkanaError>(ArkanaError::Overflow)
                } else {
                    &&& r == Ok::<u64, ArkanaError>(p)
                    &&& final(self)@ == (ContractView {
                        spinwheel_wr: next_streak(v.spinwheel_wr, p),
                        ..with_user(v, caller@, User { points: (paid.points + p) as u64, ..paid })
                    })
                }
            },
    {
        let i = match self.find_user(&caller) {
            Some(i) => i,
            None => return Err(ArkanaError::NotFound),
        };
        let mut user = self.users[i].1;
        if is_free {
            match check_cooldown(user.last_free_spinwheel, now) {
                Err(s) => return Err(ArkanaError::CooldownActive(s)),
                Ok(()) => {},
            }
            user.last_free_spinwheel = now;
        } else {
            user.points = match debit(user.points, self.spin_wheel_price) {
                Some(p) => p,
                None => return Err(ArkanaError::InsufficientPoints),
            };
        }
        let random = get_random_number(random_seed, 0);
        let result = spin_outcome(self.spinwheel_wr, random);
        user.points = match credit(user.points, result) {
            Some(p) => p,
            None => return Err(ArkanaError::Overflow),
        };
        self.spinwheel_wr = update_streak(self.spinwheel_wr, result);
        self.set_user(i, &caller, user);
        Ok(result)
    }

    /// The position of `contract_id` in the allowlist, if there.
    fn find_member(&self, contract_id: &String) -> (r: Option<usize>)
        requires
            self.wf(),
        ensures
            r is None <==> !self@.membership_contracts.contains(contract_id@),
            r matches Some(i) ==> i < self.membership_contracts@.len()
                && self.membership_contracts@[i as int]@ == contract_id@,
    {
        let mut i: usize = 0;
        while i < self.membership_contracts.len()
            invariant
                self.wf(),
                i <= self.membership_contracts@.len(),
                forall|j: int| 0 <= j < i ==> self.membership_contracts@[j]@ != contract_id@,
            decreases self.membership_contracts@.len() - i,
        {
            if self.membership_contracts[i] == *contract_id {
                return Some(i);
            }
            i = i + 1;
        }
        None
    }

    /// Allows `contract_id` to grant points; only the owner may do so.
    pub fn add_membership_nft_contract(&mut self, caller: String, contract_id: String) -> (r: Result<
        (),
        ArkanaError,
    >)
        requires
            old(self).wf(),
        ensures
            final(self).wf(),
            caller@ != old(self)@.owner ==> r == Err::<(), ArkanaError>(ArkanaError::Unauthorized)
                && final(self)@ == old(self)@,
            caller@ == old(self)@.owner ==> r is Ok && final(self)@ == (ContractView {
                membership_contracts: old(self)@.membership_contracts.insert(contract_id@),
                ..old(self)@
            }),
    {
        if caller != self.owner {
            return Err(ArkanaError::Unauthorized);
        }
        if self.find_member(&contract_id).is_some() {
            assert(self@.membership_contracts.insert(contract_id@) =~= self@.membership_contracts);
            return Ok(());
        }
        let ghost prev = *self;
        let ghost name = contract_id@;
        self.membership_contracts.push(contract_id);
        proof {
            let n = prev.membership_contracts@.len() as int;
            assert forall|k: Seq<char>|
                self@.membership_contracts.contains(k) <==> prev@.membership_contracts.insert(
                    name,
                ).contains(k) by {
                if k == name {
                    assert(self.membership_contracts@[n]@ == k);
                }
                if prev@.membership_contracts.contains(k) {
                    let j = choose|j: int|
                        0 <= j < prev.membership_contracts@.len()
                            && prev.membership_contracts@[j]@ == k;
                    assert(self.membership_contracts@[j]@ == k);
                }
                if self@.membership_contracts.contains(k) {
                    let j = choose|j: int|
                        0 <= j < self.membership_contracts@.len()
                            && self.membership_contracts@[j]@ == k;
                    assert(j == n || prev.membership_contracts@[j]@ == k);
                }
            }
            assert(self@.membership_contracts =~= prev@.membership_contracts.insert(name));
        }
        Ok(())
    }

    /// Withdraws `contract_id` from the allowlist; only the owner may do so.
    pub fn remove_membership_nft_contract(&mut self, caller: String, contract_id: String) -> (r:
        Result<(), ArkanaError>)
        requires
            old(self).wf(),
        ensures
            final(self).wf(),
            caller@ != old(self)@.owner ==> r == Err::<(), ArkanaError>(ArkanaError::Unauthorized)
                && final(self)@ == old(self)@,
            caller@ == old(self)@.owner ==> r is Ok && final(self)@ == (ContractView {
                membership_contracts: old(self)@.membership_contracts.remove(contract_id@),
                ..old(self)@
            }),
    {
        if caller != self.owner {
            return Err(ArkanaError::Unauthorized);
        }
        let i = match self.find_member(&contract_id) {
            Some(i) => i,
            None => {
                assert(self@.membership_contracts.remove(contract_id@)
                    =~= self@.membership_contracts);
                return Ok(());
            },
        };
        let ghost prev = *self;
        let ghost name = contract_id@;
        self.membership_contracts.remove(i);
        proof {
            let old_s = prev.membership_contracts@;
            let new_s = self.membership_contracts@;
            assert forall|j: int| 0 <= j < new_s.len() implies #[trigger] new_s[j] == (if j < i {
                old_s[j]
            } else {
                old_s[j + 1]
            }) by {}
            assert forall|k: Seq<char>|
                self@.membership_contracts.contains(k) <==> prev@.membership_contracts.remove(
                    name,
                ).contains(k) by {
                if prev@.membership_contracts.remove(name).contains(k) {
                    let j = choose|j: int| 0 <= j < old_s.len() && old_s[j]@ == k;
                    assert(j != i);
                    if j < i {
                        assert(new_s[j]@ == k);
                    } else {
                        assert(new_s[j - 1]@ == k);
                    }
                }
                if self@.membership_contracts.contains(k) {
                    let j = choose|j: int| 0 <= j < new_s.len() && new_s[j]@ == k;
                    if j < i {
                        assert(old_s[j]@ == k);
                        assert(old_s[j]@ != old_s[i as int]@);
                    } else {
                        assert(old_s[j + 1]@ == k);
                        assert(old_s[i as int]@ != old_s[j + 1]@);
                    }
                }
            }
            assert(self@.membership_contracts =~= prev@.membership_contracts.remove(name));
        }
        Ok(())
    }

    /// Credits `points` to `account_id`; only an allowed membership contract
    /// may do so. Returns the new balance.
    pub fn generate_points(&mut self, caller: String, account_id: String, points: u64) -> (r:
        Result<u64, ArkanaError>)
        requires
            old(self).wf(),
        ensures
            final(self).wf(),
            r is Err ==> final(self)@ == old(self)@,
            !old(self)@.membership_contracts.contains(caller@) ==> r == Err::<u64, ArkanaError>(
                ArkanaError::Unauthorized,
            ),
            old(self)@.membership_contracts.contains(caller@) && !old(self)@.users.contains_key(
                account_id@,
            ) ==> r == Err::<u64, ArkanaError>(ArkanaError::NotFound),
            old(self)@.membership_contracts.contains(caller@) && old(self)@.users.contains_key(
                account_id@,
            ) ==> {
                let u = old(self)@.users[account_id@];
                if u.points + points > u64::MAX {
                    r == Err::<u64, ArkanaError>(ArkanaError::Overflow)
                } else {
                    r == Ok::<u64, ArkanaError>((u.points + points) as u64) && final(self)@
                        == with_user(
                        old(self)@,
                        account_id@,
                        User { points: (u.points + points) as u64, ..u },
                    )
                }
            },
    {
        if self.find_member(&caller).is_none() {
            return Err(ArkanaError::Unauthorized);
        }
        let i = match self.find_user(&account_id) {
            Some(i) => i,
            None => return Err(ArkanaError::NotFound),
        };
        let mut user = self.users[i].1;
        user.points = match credit(user.points, points) {
            Some(p) => p,
            None => return Err(ArkanaError::Overflow),
        };
        self.set_user(i, &account_id, user);
        Ok(user.points)
    }

    /// Opens a reward that sells tickets at `price` points until `ended_at`;
    /// only the owner may do so. Returns the new reward's id.
    pub fn create_reward(&mut self, caller: String, title: String, price: u64, ended_at: u64) -> (r:
        Result<u64, ArkanaError>)
        requires
            old(self).wf(),
        ensures
            final(self).wf(),
            r is Err ==> final(self)@ == old(self)@,
            caller@ != old(self)@.owner ==> r == Err::<u64, ArkanaError>(ArkanaError::Unauthorized),
            caller@ == old(self)@.owner && old(self)@.rewards.len() == u64::MAX ==> r == Err::<
                u64,
                ArkanaError,
            >(ArkanaError::Overflow),
            caller@ == old(self)@.owner && old(self)@.rewards.len() < u64::MAX ==> {
                let v = old(self)@;
                let n = final(self)@.rewards.last();
                &&& r == Ok::<u64, ArkanaError>((v.rewards.len() + 1) as u64)
                &&& final(self)@ == (ContractView { rewards: v.rewards.push(n), ..v })
                &&& n.title == title
                &&& n.price == price
                &&& n.ended_at == ended_at
                &&& n.total_tickets == 0
                &&& n.winner is None
                &&& n.tickets@.len() == 0
            },
    {
        if caller != self.owner {
            return Err(ArkanaError::Unauthorized);
        }
        if self.last_reward_id == u64::MAX {
            return Err(ArkanaError::Overflow);
        }
        let ghost prev = *self;
        self.rewards.push(Reward::new(title, price, ended_at));
        self.last_reward_id = self.last_reward_id + 1;
        proof {
            assert(self@.rewards =~= prev@.rewards.push(self@.rewards.last()));
            assert(self@.users =~= prev@.users);
            assert(self@.membership_contracts =~= prev@.membership_contracts);
        }
        Ok(self.last_reward_id)
    }

    /// Sells `amount` tickets of reward `reward_id` to `caller` at `now`, for
    /// `price * amount` points; the purchase is recorded as one range that
    /// starts at the tickets sold so far. Returns the id and the amount.
    pub fn buy_ticket(&mut self, caller: String, now: u64, reward_id: u64, amount: u64) -> (r:
        Result<(u64, u64), ArkanaError>)
        requires
            old(self).wf(),
        ensures
            final(self).wf(),
            r is Err ==> final(self)@ == old(self)@,
            !has_reward(old(self)@, reward_id) ==> r == Err::<(u64, u64), ArkanaError>(
                ArkanaError::NotFound,
            ),
            has_reward(old(self)@, reward_id) ==> {
                let v = old(self)@;
                let w = reward_of(v, reward_id);
                let cost = w.price * amount;
                if now >= w.ended_at || w.winner is Some {
                    r == Err::<(u64, u64), ArkanaError>(ArkanaError::RewardEnded)
                } else if !v.users.contains_key(caller@) {
                    r == Err::<(u64, u64), ArkanaError>(ArkanaError::NotFound)
                } else if v.users[caller@].points < cost {
                    r == Err::<(u64, u64), ArkanaError>(ArkanaError::InsufficientPoints)
                } else if w.total_tickets + amount > u64::MAX {
                    r == Err::<(u64, u64), ArkanaError>(ArkanaError::Overflow)
                } else {
                    let u = v.users[caller@];
                    let n = final(self)@.rewards[reward_id - 1];
                    &&& r == Ok::<(u64, u64), ArkanaError>((reward_id, amount))
                    &&& final(self)@ == (ContractView {
                        rewards: v.rewards.update(reward_id - 1, n),
                        ..with_user(v, caller@, User { points: (u.points - cost) as u64, ..u })
                    })
                    &&& purchase_recorded(w, n, caller@, amount)
                }
            },
    {
        let count = self.rewards.len();
        if reward_id == 0 || reward_id - 1 >= count as u64 {
            return Err(ArkanaError::NotFound);
        }
        let k = (reward_id - 1) as usize;
        let ended_at = self.rewards[k].ended_at;
        let price = self.rewards[k].price;
        let total = self.rewards[k].total_tickets;
        if now >= ended_at || self.rewards[k].winner.is_some() {
            return Err(ArkanaError::RewardEnded);
        }
        let i = match self.find_user(&caller) {
            Some(i) => i,
            None => return Err(ArkanaError::NotFound),
        };
        let mut user = self.users[i].1;
        let cost = match price.checked_mul(amount) {
            Some(c) => c,
            None => {
                assert(price * amount > u64::MAX);
                return Err(ArkanaError::InsufficientPoints);
            },
        };
        user.points = match debit(user.points, cost) {
            Some(p) => p,
            None => return Err(ArkanaError::InsufficientPoints),
        };
        if total.checked_add(amount).is_none() {
            return Err(ArkanaError::Overflow);
        }
        self.set_user(i, &caller, user);
        let ghost mid = self@;
        let mut reward = self.rewards.remove(k);
        reward.add_tickets(caller.clone(), amount);
        self.rewards.insert(k, reward);
        proof {
            assert(self@.rewards =~= mid.rewards.update(k as int, self@.rewards[k as int]));
            assert forall|j: int| 0 <= j < self.rewards@.len() implies self.rewards@[j].wf() by {
                if j != k {
                    assert(self.rewards@[j] == mid.rewards[j]);
                }
            }
        }
        Ok((reward_id, amount))
    }

    /// Draws the winner of reward `reward_id` at `now` from `random_seed`: the
    /// holder of ticket index `random % total_tickets`. Allowed once the reward
    /// has ended, once only, and only if tickets were sold.
    pub fn finalize_reward(&mut self, reward_id: u64, now: u64, random_seed: &Vec<u8>) -> (r: Result<
        String,
        ArkanaError,
    >)
        requires
            old(self).wf(),
            random_seed@.len() >= 4,
        ensures
            final(self).wf(),
            r is Err ==> final(self)@ == old(self)@,
            !has_reward(old(self)@, reward_id) ==> r == Err::<String, ArkanaError>(
                ArkanaError::NotFound,
            ),
            has_reward(old(self)@, reward_id) ==> {
                let v = old(self)@;
                let w = reward_of(v, reward_id);
                let t = (seed_number(random_seed@) as int) % (w.total_tickets as int);
                if w.winner is Some {
                    r == Err::<String, ArkanaError>(ArkanaError::AlreadyFinalized)
                } else if w.ended_at > now {
                    r == Err::<String, ArkanaError>(ArkanaError::RewardNotEnded)
                } else if w.total_tickets == 0 {
                    r == Err::<String, ArkanaError>(ArkanaError::NoTicketsSold)
                } else {
                    let n = final(self)@.rewards[reward_id - 1];
                    &&& r is Ok
                    &&& r->Ok_0@ == w.holder_of(t)
                    &&& exists|i: int| w.range_contains(i, t) && w.tickets@[i].owner@ == r->Ok_0@
                    &&& final(self)@ == (ContractView { rewards: v.rewards.update(reward_id - 1, n), ..v })
                    &&& finalized_with(w, n, r->Ok_0@)
                }
            },
    {
        let count = self.rewards.len();
        if reward_id == 0 || reward_id - 1 >= count as u64 {
            return Err(ArkanaError::NotFound);
        }
        let k = (reward_id - 1) as usize;
        if self.rewards[k].winner.is_some() {
            return Err(ArkanaError::AlreadyFinalized);
        }
        if self.rewards[k].ended_at > now {
            return Err(ArkanaError::RewardNotEnded);
        }
        if self.rewards[k].total_tickets == 0 {
            return Err(ArkanaError::NoTicketsSold);
        }
        let random = get_random_number(random_seed, 0);
        let ghost prev = self@;
        let mut reward = self.rewards.remove(k);
        let winner = reward.draw_winner(random);
        self.rewards.insert(k, reward);
        proof {
            assert(self@.rewards =~= prev.rewards.update(k as int, self@.rewards[k as int]));
            assert(self@.users =~= prev.users);
            assert(self@.membership_contracts =~= prev.membership_contracts);
            assert forall|j: int| 0 <= j < self.rewards@.len() implies self.rewards@[j].wf() by {
                if j != k {
                    assert(self.rewards@[j] == prev.rewards[j]);
                }
            }
        }
        Ok(winner)
    }

    /// The record of `account_id`.
    pub fn get_user(&self, account_id: String) -> (r: Result<UserOutput, ArkanaError>)
        requires
            self.wf(),
        ensures
            !self@.users.contains_key(account_id@) ==> r == Err::<UserOutput, ArkanaError>(
                ArkanaError::NotFound,
            ),
            self@.users.contains_key(account_id@) ==> r == Ok::<UserOutput, ArkanaError>(
                UserOutput {
                    points: self@.users[account_id@].points,
                    last_daily_claim: self@.users[account_id@].last_daily_claim,
                    last_free_spinwheel: self@.users[account_id@].last_free_spinwheel,
                },
            ),
    {
        match self.find_user(&account_id) {
            None => Err(ArkanaError::NotFound),
            Some(i) => {
                let u = self.users[i].1;
                Ok(
                    UserOutput {
                        points: u.points,
                        last_daily_claim: u.last_daily_claim,
                        last_free_spinwheel: u.last_free_spinwheel,
                    },
                )
            },
        }
    }

    /// The fields of reward `reward_id`, without its ticket ranges.
    pub fn get_reward(&self, reward_id: u64) -> (r: Result<RewardOutput, ArkanaError>)
        requires
            self.wf(),
        ensures
            !has_reward(self@, reward_id) ==> r == Err::<RewardOutput, ArkanaError>(
                ArkanaError::NotFound,
            ),
            has_reward(self@, reward_id) ==> {
                let w = reward_of(self@, reward_id);
                &&& r is Ok
                &&& r->Ok_0.title == w.title
                &&& r->Ok_0.price == w.price
                &&& r->Ok_0.ended_at == w.ended_at
                &&& r->Ok_0.total_tickets == w.total_tickets
                &&& r->Ok_0.winner == w.winner
            },
    {
        let count = self.rewards.len();
        if reward_id == 0 || reward_id - 1 >= count as u64 {
            return Err(ArkanaError::NotFound);
        }
        let w = &self.rewards[(reward_id - 1) as usize];
        let winner = match &w.winner {
            Some(x) => Some(x.clone()),
            None => None,
        };
        Ok(
            RewardOutput {
                title: w.title.clone(),
                price: w.price,
                ended_at: w.ended_at,
                total_tickets: w.total_tickets,
                winner,
            },
        )
    }

    /// The ticket ranges of reward `reward_id`, as `(start, end, owner)`.
    pub fn get_ticket_ranges(&self, reward_id: u64) -> (r: Result<Vec<(u64, u64, String)>, ArkanaError>)
        requires
            self.wf(),
        ensures
            !has_reward(self@, reward_id) ==> r == Err::<Vec<(u64, u64, String)>, ArkanaError>(
                ArkanaError::NotFound,
            ),
            has_reward(self@, reward_id) ==> {
                let w = reward_of(self@, reward_id);
                &&& r is Ok
                &&& r->Ok_0@.len() == w.tickets@.len()
                &&& forall|i: int|
                    0 <= i < w.tickets@.len() ==> {
                        let e = #[trigger] r->Ok_0@[i];
                        &&& e.0 == w.tickets@[i].start
                        &&& e.1 == w.range_end(i)
                        &&& e.2@ == w.tickets@[i].owner@
                    }
            },
    {
        let count = self.rewards.len();
        if reward_id == 0 || reward_id - 1 >= count as u64 {
            return Err(ArkanaError::NotFound);
        }
        let w = &self.rewards[(reward_id - 1) as usize];
        let mut out: Vec<(u64, u64, String)> = Vec::new();
        let mut i: usize = 0;
        while i < w.tickets.len()
            invariant
                w.wf(),
                i <= w.tickets@.len(),
                out@.len() == i,
                forall|j: int|
                    0 <= j < i ==> {
                        let e = #[trigger] out@[j];
                        &&& e.0 == w.tickets@[j].start
                        &&& e.1 == w.range_end(j)
                        &&& e.2@ == w.tickets@[j].owner@
                    },
            decreases w.tickets@.len() - i,
        {
            let end = if i + 1 < w.tickets.len() {
                w.tickets[i + 1].start
            } else {
                w.total_tickets
            };
            out.push((w.tickets[i].start, end, w.tickets[i].owner.clone()));
            i = i + 1;
        }
        Ok(out)
    }

    /// The spin-wheel streak counter shared by all players.
    pub fn spinwheel_wr(&self) -> (r: u8)
        ensures
            r == self@.spinwheel_wr,
    {
        self.spinwheel_wr
    }
}

impl ArkanaCoreContract {
    /// Every reward of a well-formed contract is well formed.
    pub proof fn lemma_rewards_wf(&self)
        requires
            self.wf(),
        ensures
            forall|i: int| 0 <= i < self@.rewards.len() ==> #[trigger] self@.rewards[i].wf(),
    {
    }
}

/// After a successful daily claim at `now`, a claim at any `later` less than a
/// day on finds the cooldown running, with the seconds left until a day has passed.
pub proof fn lemma_claim_then_cooldown(v: ContractView, caller: Seq<char>, now: u64, later: u64)
    requires
        v.users.contains_key(caller),
        now <= later,
        later < now + ONE_DAY,
    ensures
        ({
            let u = after_daily_claim(v, caller, now).users[caller];
            &&& cooldown_active(u.last_daily_claim, later)
            &&& cooldown_remaining(u.last_daily_claim, later) == (now + ONE_DAY - later) / 1000
        }),
{
}

/// The winner drawn from a seed depends on the ticket ranges and the seed
/// alone: an open reward and any reward with the same ranges and total draw
/// the same holder.
pub proof fn lemma_draw_determined(a: Reward, b: Reward, seed: Seq<u8>)
    requires
        a.wf(),
        a.winner is None,
        a.tickets@ == b.tickets@,
        a.total_tickets == b.total_tickets,
        a.total_tickets > 0,
    ensures
        a.holder_of((seed_number(seed) as int) % (a.total_tickets as int)) == b.holder_of(
            (seed_number(seed) as int) % (b.total_tickets as int),
        ),
{
    let t = (seed_number(seed) as int) % (a.total_tickets as int);
    assert(0 <= t < a.total_tickets);
    assert forall|i: int| a.range_contains(i, t) == b.range_contains(i, t) by {}
    lemma_ranges_cover(a, t);
    lemma_range_unique(a, a.range_index(t), b.range_index(t), t);
}

/// A finalized reward has a winner, the one drawn, and no ranges left: a
/// further `finalize_reward` on it is refused with `AlreadyFinalized` and
/// leaves the state, and so the winner, as it was.
pub proof fn lemma_finalized_keeps_winner(o: Reward, n: Reward, w: Seq<char>)
    requires
        finalized_with(o, n, w),
    ensures
        n.winner is Some,
        n.winner->Some_0@ == w,
        n.wf(),
{
}

/// Whether ticket index `t` lies in some range of `r`.
pub open spec fn in_some_range(r: Reward, t: int) -> bool {
    exists|i: int| r.range_contains(i, t)
}

/// The sum of ticket amounts.
pub open spec fn sum_amounts(amounts: Seq<u64>) -> int
    decreases amounts.len(),
{
    if amounts.len() == 0 {
        0
    } else {
        sum_amounts(amounts.drop_last()) + amounts.last()
    }
}

/// After purchases of `amounts` by `buyers` on a fresh reward (each state
/// `rs[i + 1]` being `rs[i]` with purchase `i` recorded), the reward has sold
/// the sum of the amounts, and its ranges partition exactly the indices below
/// that sum: each one lies in one range, and no other index lies in any.
pub proof fn lemma_purchases_partition(rs: Seq<Reward>, buyers: Seq<Seq<char>>, amounts: Seq<u64>)
    requires
        rs.len() == amounts.len() + 1,
        buyers.len() == amounts.len(),
        rs[0].wf(),
        rs[0].winner is None,
        rs[0].total_tickets == 0,
        forall|i: int|
            0 <= i < amounts.len() ==> #[trigger] purchase_recorded(
                rs[i],
                rs[i + 1],
                buyers[i],
                amounts[i],
            ),
    ensures
        rs.last().wf(),
        rs.last().winner is None,
        rs.last().total_tickets == sum_amounts(amounts),
        forall|t: int| #[trigger] in_some_range(rs.last(), t) <==> 0 <= t < sum_amounts(amounts),
        forall|t: int, i: int, j: int|
            rs.last().range_contains(i, t) && rs.last().range_contains(j, t) ==> i == j,
    decreases amounts.len(),
{
    if amounts.len() > 0 {
        let k = amounts.len() - 1;
        let rs0 = rs.drop_last();
        let a0 = amounts.drop_last();
        let b0 = buyers.drop_last();
        assert forall|i: int| 0 <= i < a0.len() implies #[trigger] purchase_recorded(
            rs0[i],
            rs0[i + 1],
            b0[i],
            a0[i],
        ) by {
            assert(purchase_recorded(rs[i], rs[i + 1], buyers[i], amounts[i]));
        }
        lemma_purchases_partition(rs0, b0, a0);
        assert(purchase_recorded(rs[k], rs[k + 1], buyers[k], amounts[k]));
    }
    let r = rs.last();
    assert forall|t: int| #[trigger] in_some_range(r, t) <==> 0 <= t < sum_amounts(amounts) by {
        lemma_ranges_cover(r, t);
    }
    assert forall|t: int, i: int, j: int| r.range_contains(i, t) && r.range_contains(j, t)
        implies i == j by {
        lemma_range_unique(r, i, j, t);
    }
}

} // verus!
