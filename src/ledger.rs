//! A registry of escrow records keyed by game code, together with the
//! balances of every identity. Each operation checks everything it needs
//! before it changes anything, so a record's change of state and the value
//! transfer that goes with it happen together or not at all.
use vstd::prelude::*;
use crate::escrow::{EscrowError, GameEscrow, Identity};

verus! {

/// The value held by one identity.
#[derive(Clone, Copy, Debug, PartialEq, Eq, Structural)]
pub struct Balance {
    pub owner: Identity,
    pub lamports: u64,
}

/// An escrow record together with the value it holds.
#[derive(Clone, Debug)]
pub struct EscrowAccount {
    pub data: GameEscrow,
    pub lamports: u64,
}

/// What a finalizing operation paid out, and to whom.
#[derive(Clone, Copy, Debug, PartialEq, Eq, Structural)]
pub struct Payout {
    pub recipient: Identity,
    pub amount: u64,
}

/// The signer of a game's creation and the addressing nonce of its record.
#[derive(Clone, Copy, Debug)]
pub struct InitializeGame {
    pub host: Identity,
    pub bump: u8,
}

/// The record to complete, by its game code, and the signer.
#[derive(Clone, Debug)]
pub struct CompleteGame {
    pub game_code: String,
    pub host: Identity,
}

/// The record to cancel, by its game code, and the signer.
#[derive(Clone, Debug)]
pub struct CancelGame {
    pub game_code: String,
    pub host: Identity,
}

/// The abstract state of a ledger: the balance of every identity (zero for
/// one never seen) and the escrow account of every registered game code.
pub struct LedgerModel {
    pub balances: Map<Identity, nat>,
    pub games: Map<Seq<char>, EscrowAccount>,
}

impl LedgerModel {
    pub open spec fn balance(self, id: Identity) -> nat {
        if self.balances.contains_key(id) {
            self.balances[id]
        } else {
            0
        }
    }
}

/// The effect of creating a game with code `code` and prize `prize`,
/// signed by `host`.
pub open spec fn initialize_spec(
    m: LedgerModel,
    host: Identity,
    bump: u8,
    code: String,
    prize: u64,
) -> (LedgerModel, Result<(), EscrowError>) {
    if m.games.contains_key(code@) {
        (m, Err(EscrowError::DuplicateGame))
    } else if m.balance(host) < prize {
        (m, Err(EscrowError::InsufficientFunds))
    } else {
        let record = GameEscrow {
            host,
            game_code: code,
            prize_pool: prize,
            winner: None,
            is_completed: false,
            is_cancelled: false,
            bump,
        };
        (
            LedgerModel {
                balances: m.balances.insert(host, (m.balance(host) - prize) as nat),
                games: m.games.insert(code@, EscrowAccount { data: record, lamports: prize }),
            },
            Ok(()),
        )
    }
}

/// The checks that both finalizing operations share, in order: the record
/// exists, the caller is its host, it is active, and it holds its prize.
pub open spec fn finalize_error(m: LedgerModel, code: Seq<char>, caller: Identity) -> Option<
    EscrowError,
> {
    if !m.games.contains_key(code) {
        Some(EscrowError::GameNotFound)
    } else {
        match m.games[code].data.finalize_check(caller) {
            Err(e) => Some(e),
            Ok(_) => if m.games[code].lamports < m.games[code].data.prize_pool {
                Some(EscrowError::IntegrityViolation)
            } else {
                None
            },
        }
    }
}

/// `m` after the escrow of `code` has paid its prize to `recipient` and its
/// record has become `data`.
pub open spec fn pay_out(
    m: LedgerModel,
    code: Seq<char>,
    data: GameEscrow,
    recipient: Identity,
) -> LedgerModel {
    let acct = m.games[code];
    LedgerModel {
        balances: m.balances.insert(recipient, (m.balance(recipient) + acct.data.prize_pool) as nat),
        games: m.games.insert(
            code,
            EscrowAccount { data, lamports: (acct.lamports - acct.data.prize_pool) as u64 },
        ),
    }
}

/// The effect of completing game `code` in favour of `winner`, signed by
/// `caller`.
pub open spec fn complete_spec(
    m: LedgerModel,
    code: Seq<char>,
    caller: Identity,
    winner: Identity,
) -> (LedgerModel, Result<Payout, EscrowError>) {
    match finalize_error(m, code, caller) {
        Some(e) => (m, Err(e)),
        None => (
            pay_out(m, code, m.games[code].data.completed_with(winner), winner),
            Ok(Payout { recipient: winner, amount: m.games[code].data.prize_pool }),
        ),
    }
}

/// The effect of cancelling game `code`, signed by `caller`: the prize goes
/// back to the host.
pub open spec fn cancel_spec(m: LedgerModel, code: Seq<char>, caller: Identity) -> (
    LedgerModel,
    Result<Payout, EscrowError>,
) {
    match finalize_error(m, code, caller) {
        Some(e) => (m, Err(e)),
        None => {
            let host = m.games[code].data.host;
            (
                pay_out(m, code, m.games[code].data.cancelled(), host),
                Ok(Payout { recipient: host, amount: m.games[code].data.prize_pool }),
            )
        },
    }
}

pub open spec fn sum_u64(s: Seq<u64>) -> int
    decreases s.len(),
{
    if s.len() == 0 {
        0
    } else {
        sum_u64(s.drop_last()) + s.last()
    }
}

proof fn lemma_sum_update(s: Seq<u64>, k: int, v: u64)
    requires
        0 <= k < s.len(),
    ensures
        sum_u64(s.update(k, v)) == sum_u64(s) - s[k] + v,
        s[k] <= sum_u64(s),
    decreases s.len(),
{
    let t = s.update(k, v);
    if k == s.len() - 1 {
        assert(t.drop_last() =~= s.drop_last());
        lemma_sum_nonneg(s.drop_last());
    } else {
        assert(t.drop_last() =~= s.drop_last().update(k, v));
        lemma_sum_update(s.drop_last(), k, v);
    }
}

proof fn lemma_sum_nonneg(s: Seq<u64>)
    ensures
        sum_u64(s) >= 0,
    decreases s.len(),
{
    if s.len() > 0 {
        lemma_sum_nonneg(s.drop_last());
    }
}

proof fn lemma_sum_push(s: Seq<u64>, v: u64)
    ensures
        sum_u64(s.push(v)) == sum_u64(s) + v,
{
    assert(s.push(v).drop_last() =~= s);
}

pub open spec fn owners_unique(s: Seq<Balance>) -> bool {
    forall|i: int, j: int| 0 <= i < s.len() && 0 <= j < s.len() && i != j ==> s[i].owner != s[j].owner
}

pub open spec fn codes_unique(s: Seq<EscrowAccount>) -> bool {
    forall|i: int, j: int|
        0 <= i < s.len() && 0 <= j < s.len() && i != j ==> s[i].data.game_code@ != s[j].data.game_code@
}

pub open spec fn balance_in(s: Seq<Balance>, id: Identity) -> nat {
    if exists|i: int| 0 <= i < s.len() && s[i].owner == id {
        s[choose|i: int| 0 <= i < s.len() && s[i].owner == id].lamports as nat
    } else {
        0
    }
}

pub open spec fn game_in(s: Seq<EscrowAccount>, c: Seq<char>) -> EscrowAccount {
    s[choose|i: int| 0 <= i < s.len() && s[i].data.game_code@ == c]
}

pub open spec fn has_game_in(s: Seq<EscrowAccount>, c: Seq<char>) -> bool {
    exists|i: int| 0 <= i < s.len() && s[i].data.game_code@ == c
}

proof fn lemma_balance_at(s: Seq<Balance>, k: int)
    requires
        owners_unique(s),
        0 <= k < s.len(),
    ensures
        balance_in(s, s[k].owner) == s[k].lamports,
{
    let id = s[k].owner;
    assert(exists|i: int| 0 <= i < s.len() && s[i].owner == id);
}

proof fn lemma_balance_update(s: Seq<Balance>, k: int, b: Balance)
    requires
        owners_unique(s),
        0 <= k < s.len(),
        b.owner == s[k].owner,
    ensures
        owners_unique(s.update(k, b)),
        forall|id: Identity|
            balance_in(s.update(k, b), id) == if id == b.owner {
                b.lamports as nat
            } else {
                balance_in(s, id)
            },
{
    let t = s.update(k, b);
    assert(owners_unique(t));
    assert forall|id: Identity|
        balance_in(t, id) == if id == b.owner {
            b.lamports as nat
        } else {
            balance_in(s, id)
        } by {
        if id == b.owner {
            lemma_balance_at(t, k);
        } else if exists|i: int| 0 <= i < s.len() && s[i].owner == id {
            let i = choose|i: int| 0 <= i < s.len() && s[i].owner == id;
            lemma_balance_at(s, i);
            lemma_balance_at(t, i);
        } else {
            assert(!exists|i: int| 0 <= i < t.len() && t[i].owner == id);
        }
    }
}

proof fn lemma_balance_push(s: Seq<Balance>, b: Balance)
    requires
        owners_unique(s),
        forall|i: int| 0 <= i < s.len() ==> s[i].owner != b.owner,
    ensures
        owners_unique(s.push(b)),
        forall|id: Identity|
            balance_in(s.push(b), id) == if id == b.owner {
                b.lamports as nat
            } else {
                balance_in(s, id)
            },
{
    let t = s.push(b);
    assert(owners_unique(t));
    assert forall|id: Identity|
        balance_in(t, id) == if id == b.owner {
            b.lamports as nat
        } else {
            balance_in(s, id)
        } by {
        if id == b.owner {
            lemma_balance_at(t, s.len() as int);
        } else if exists|i: int| 0 <= i < s.len() && s[i].owner == id {
            let i = choose|i: int| 0 <= i < s.len() && s[i].owner == id;
            lemma_balance_at(s, i);
            lemma_balance_at(t, i);
        } else {
            assert(!exists|i: int| 0 <= i < t.len() && t[i].owner == id);
        }
    }
}

proof fn lemma_game_at(s: Seq<EscrowAccount>, k: int)
    requires
        codes_unique(s),
        0 <= k < s.len(),
    ensures
        has_game_in(s, s[k].data.game_code@),
        game_in(s, s[k].data.game_code@) == s[k],
{
    let c = s[k].data.game_code@;
    assert(exists|i: int| 0 <= i < s.len() && s[i].data.game_code@ == c);
}

proof fn lemma_game_update(s: Seq<EscrowAccount>, k: int, a: EscrowAccount)
    requires
        codes_unique(s),
        0 <= k < s.len(),
        a.data.game_code@ == s[k].data.game_code@,
    ensures
        codes_unique(s.update(k, a)),
        forall|c: Seq<char>| has_game_in(s.update(k, a), c) == has_game_in(s, c),
        forall|c: Seq<char>|
            has_game_in(s, c) ==> game_in(s.update(k, a), c) == if c == a.data.game_code@ {
                a
            } else {
                game_in(s, c)
            },
{
    let t = s.update(k, a);
    assert(codes_unique(t));
    assert forall|c: Seq<char>| has_game_in(t, c) == has_game_in(s, c) by {
        if has_game_in(s, c) {
            let i = choose|i: int| 0 <= i < s.len() && s[i].data.game_code@ == c;
            assert(t[i].data.game_code@ == c);
        }
        if has_game_in(t, c) {
            let i = choose|i: int| 0 <= i < t.len() && t[i].data.game_code@ == c;
            assert(s[i].data.game_code@ == c);
        }
    }
    assert forall|c: Seq<char>| has_game_in(s, c) implies game_in(t, c) == if c
        == a.data.game_code@ {
        a
    } else {
        game_in(s, c)
    } by {
        if c == a.data.game_code@ {
            lemma_game_at(t, k);
        } else {
            let i = choose|i: int| 0 <= i < s.len() && s[i].data.game_code@ == c;
            lemma_game_at(s, i);
            lemma_game_at(t, i);
        }
    }
}

proof fn lemma_game_push(s: Seq<EscrowAccount>, a: EscrowAccount)
    requires
        codes_unique(s),
        !has_game_in(s, a.data.game_code@),
    ensures
        codes_unique(s.push(a)),
        forall|c: Seq<char>|
            has_game_in(s.push(a), c) == (has_game_in(s, c) || c == a.data.game_code@),
        forall|c: Seq<char>|
            has_game_in(s.push(a), c) ==> game_in(s.push(a), c) == if c == a.data.game_code@ {
                a
            } else {
                game_in(s, c)
            },
{
    let t = s.push(a);
    assert forall|i: int, j: int|
        0 <= i < t.len() && 0 <= j < t.len() && i != j implies t[i].data.game_code@
        != t[j].data.game_code@ by {
        if i == s.len() {
            assert(s[j].data.game_code@ == s[j].data.game_code@);
        } else if j == s.len() {
            assert(s[i].data.game_code@ == s[i].data.game_code@);
        }
    }
    assert forall|c: Seq<char>|
        has_game_in(t, c) == (has_game_in(s, c) || c == a.data.game_code@) by {
        if has_game_in(s, c) {
            let i = choose|i: int| 0 <= i < s.len() && s[i].data.game_code@ == c;
            assert(t[i].data.game_code@ == c);
        }
        if c == a.data.game_code@ {
            assert(t[s.len() as int].data.game_code@ == c);
        }
        if has_game_in(t, c) && c != a.data.game_code@ {
            let i = choose|i: int| 0 <= i < t.len() && t[i].data.game_code@ == c;
            assert(s[i].data.game_code@ == c);
        }
    }
    assert forall|c: Seq<char>| has_game_in(t, c) implies game_in(t, c) == if c
        == a.data.game_code@ {
        a
    } else {
        game_in(s, c)
    } by {
        if c == a.data.game_code@ {
            lemma_game_at(t, s.len() as int);
        } else {
            let i = choose|i: int| 0 <= i < t.len() && t[i].data.game_code@ == c;
            assert(i < s.len());
            lemma_game_at(s, i);
            lemma_game_at(t, i);
        }
    }
}

pub open spec fn amounts(s: Seq<Balance>) -> Seq<u64> {
    s.map_values(|b: Balance| b.lamports)
}

pub open spec fn held_amounts(s: Seq<EscrowAccount>) -> Seq<u64> {
    s.map_values(|a: EscrowAccount| a.lamports)
}

/// Every identity's balance and every game's escrow. No two balances share
/// an owner, no two records share a game code, and all the value on the
/// ledger fits in a `u64`.
pub struct Ledger {
    accounts: Vec<Balance>,
    games: Vec<EscrowAccount>,
    total: u64,
}

impl View for Ledger {
    type V = LedgerModel;

    closed spec fn view(&self) -> LedgerModel {
        LedgerModel {
            balances: Map::new(|id: Identity| true, |id: Identity| balance_in(self.accounts@, id)),
            games: Map::new(
                |c: Seq<char>| has_game_in(self.games@, c),
                |c: Seq<char>| game_in(self.games@, c),
            ),
        }
    }
}

impl Ledger {
    /// All the value on the ledger: every balance and every held prize.
    pub closed spec fn total_value(&self) -> int {
        sum_u64(amounts(self.accounts@)) + sum_u64(held_amounts(self.games@))
    }

    pub closed spec fn wf(&self) -> bool {
        &&& owners_unique(self.accounts@)
        &&& codes_unique(self.games@)
        &&& forall|i: int|
            0 <= i < self.games@.len() ==> {
                let a = #[trigger] self.games@[i];
                &&& a.data.wf()
                &&& a.lamports == if a.data.is_completed || a.data.is_cancelled {
                    0
                } else {
                    a.data.prize_pool
                }
            }
        &&& self.total == self.total_value()
    }

    /// The ledger's records are well formed, each is registered under its own
    /// code, and an active one holds exactly its prize while a finalized one
    /// holds nothing.
    pub closed spec fn records_consistent(&self) -> bool {
        forall|c: Seq<char>|
            #[trigger] self@.games.contains_key(c) ==> {
                let a = self@.games[c];
                &&& a.data.wf()
                &&& a.data.game_code@ == c
                &&& a.lamports == if a.data.is_completed || a.data.is_cancelled {
                    0
                } else {
                    a.data.prize_pool
                }
            }
    }

    /// An empty ledger: no balances and no games.
    pub fn new() -> (r: Ledger)
        ensures
            r.wf(),
            r@.balances == Map::<Identity, nat>::new(|id: Identity| true, |id: Identity| 0nat),
            r@.games.is_empty(),
            r.total_value() == 0,
    {
        let r = Ledger { accounts: Vec::new(), games: Vec::new(), total: 0 };
        proof {
            assert(amounts(r.accounts@) =~= Seq::<u64>::empty());
            assert(held_amounts(r.games@) =~= Seq::<u64>::empty());
            assert(r@.games =~= Map::<Seq<char>, EscrowAccount>::empty());
            assert(r@.balances =~= Map::<Identity, nat>::new(|id: Identity| true, |id: Identity| 0nat));
        }
        r
    }


    /// A well-formed ledger's records are consistent with their codes and
    /// with the value they hold.
    pub proof fn lemma_records_consistent(&self)
        requires
            self.wf(),
        ensures
            self.records_consistent(),
    {
        assert forall|c: Seq<char>| #[trigger] self@.games.contains_key(c) implies {
            let a = self@.games[c];
            &&& a.data.wf()
            &&& a.data.game_code@ == c
            &&& a.lamports == if a.data.is_completed || a.data.is_cancelled {
                0
            } else {
                a.data.prize_pool
            }
        } by {
            let i = choose|i: int| 0 <= i < self.games@.len() && self.games@[i].data.game_code@ == c;
            lemma_game_at(self.games@, i);
        }
    }

    /// The index of `id`'s balance, added with nothing in it if `id` had none.
    fn account_index(&mut self, id: Identity) -> (i: usize)
        requires
            old(self).wf(),
        ensures
            final(self).wf(),
            final(self)@ == old(self)@,
            final(self).games@ == old(self).games@,
            final(self).total == old(self).total,
            final(self).total_value() == old(self).total_value(),
            i < final(self).accounts@.len(),
            final(self).accounts@[i as int].owner == id,
    {
        match self.find_account(id) {
            Some(i) => i,
            None => {
                let b = Balance { owner: id, lamports: 0 };
                let ghost a0 = self.accounts@;
                proof {
                    lemma_balance_push(a0, b);
                    lemma_sum_push(amounts(a0), 0);
                    assert(amounts(a0.push(b)) =~= amounts(a0).push(0));
                }
                self.accounts.push(b);
                proof {
                    assert(self@.balances =~= old(self)@.balances);
                }
                self.accounts.len() - 1
            },
        }
    }

    /// The escrow at `gi` pays its prize to `recipient`, and its record
    /// becomes `data`.
    fn settle(&mut self, gi: usize, data: GameEscrow, recipient: Identity)
        requires
            old(self).wf(),
            gi < old(self).games@.len(),
            !old(self).games@[gi as int].data.is_completed,
            !old(self).games@[gi as int].data.is_cancelled,
            data.wf(),
            data.is_completed || data.is_cancelled,
            data.game_code@ == old(self).games@[gi as int].data.game_code@,
            data.prize_pool == old(self).games@[gi as int].data.prize_pool,
        ensures
            final(self).wf(),
            final(self)@ == pay_out(
                old(self)@,
                old(self).games@[gi as int].data.game_code@,
                data,
                recipient,
            ),
            final(self).total_value() == old(self).total_value(),
    {
        let ghost code = self.games@[gi as int].data.game_code@;
        proof {
            lemma_game_at(self.games@, gi as int);
        }
        let prize = self.games[gi].data.prize_pool;
        let ri = self.account_index(recipient);
        let ghost g0 = self.games@;
        let ghost a0 = self.accounts@;
        let acct = EscrowAccount { data, lamports: 0 };
        proof {
            lemma_game_update(g0, gi as int, acct);
            lemma_sum_update(held_amounts(g0), gi as int, 0);
            assert(held_amounts(g0.update(gi as int, acct)) =~= held_amounts(g0).update(
                gi as int,
                0,
            ));
        }
        self.games[gi] = acct;
        let cur = self.accounts[ri].lamports;
        proof {
            lemma_sum_update(amounts(a0), ri as int, 0);
            lemma_balance_at(a0, ri as int);
        }
        let b = Balance { owner: recipient, lamports: cur + prize };
        proof {
            lemma_balance_update(a0, ri as int, b);
            lemma_sum_update(amounts(a0), ri as int, b.lamports);
            assert(amounts(a0.update(ri as int, b)) =~= amounts(a0).update(ri as int, b.lamports));
        }
        self.accounts[ri] = b;
        proof {
            let expected = pay_out(old(self)@, code, data, recipient);
            assert forall|i: int| 0 <= i < self.games@.len() implies {
                let a = #[trigger] self.games@[i];
                &&& a.data.wf()
                &&& a.lamports == if a.data.is_completed || a.data.is_cancelled {
                    0
                } else {
                    a.data.prize_pool
                }
            } by {
                if i != gi {
                    assert(self.games@[i] == g0[i]);
                }
            }
            assert(self@.balances =~= expected.balances);
            assert(self@.games =~= expected.games);
        }
    }

    /// The balance of `id`; zero for an identity the ledger has never seen.
    pub fn balance(&self, id: Identity) -> (r: u64)
        requires
            self.wf(),
        ensures
            r == self@.balance(id),
    {
        match self.find_account(id) {
            Some(i) => {
                proof {
                    lemma_balance_at(self.accounts@, i as int);
                }
                self.accounts[i].lamports
            },
            None => 0,
        }
    }

    /// A copy of the record registered under `code`, if there is one.
    pub fn game(&self, code: &String) -> (r: Option<GameEscrow>)
        requires
            self.wf(),
        ensures
            r == if self@.games.contains_key(code@) {
                Some(self@.games[code@].data)
            } else {
                None::<GameEscrow>
            },
    {
        match self.find_game(code) {
            Some(i) => {
                proof {
                    lemma_game_at(self.games@, i as int);
                }
                Some(self.games[i].data.duplicate())
            },
            None => None,
        }
    }

    /// The value held by the escrow of `code`, if there is one.
    pub fn held_balance(&self, code: &String) -> (r: Option<u64>)
        requires
            self.wf(),
        ensures
            r == if self@.games.contains_key(code@) {
                Some(self@.games[code@].lamports)
            } else {
                None::<u64>
            },
    {
        match self.find_game(code) {
            Some(i) => {
                proof {
                    lemma_game_at(self.games@, i as int);
                }
                Some(self.games[i].lamports)
            },
            None => None,
        }
    }

    /// All the value on the ledger.
    pub fn total(&self) -> (r: u64)
        requires
            self.wf(),
        ensures
            r == self.total_value(),
    {
        self.total
    }

    /// Adds `amount` to the balance of `owner`, unless the value on the ledger
    /// would then exceed what a `u64` holds; returns whether it did.
    pub fn deposit(&mut self, owner: Identity, amount: u64) -> (r: bool)
        requires
            old(self).wf(),
        ensures
            final(self).wf(),
            r == (old(self).total_value() + amount <= u64::MAX),
            r ==> final(self)@ == (LedgerModel {
                balances: old(self)@.balances.insert(owner, (old(self)@.balance(owner) + amount) as nat),
                games: old(self)@.games,
            }),
            r ==> final(self).total_value() == old(self).total_value() + amount,
            !r ==> *final(self) == *old(self),
    {
        if amount > u64::MAX - self.total {
            return false;
        }
        let ri = self.account_index(owner);
        let ghost a0 = self.accounts@;
        let cur = self.accounts[ri].lamports;
        proof {
            lemma_sum_update(amounts(a0), ri as int, 0);
            lemma_sum_nonneg(held_amounts(self.games@));
            lemma_balance_at(a0, ri as int);
        }
        let b = Balance { owner, lamports: cur + amount };
        proof {
            lemma_balance_update(a0, ri as int, b);
            lemma_sum_update(amounts(a0), ri as int, b.lamports);
            assert(amounts(a0.update(ri as int, b)) =~= amounts(a0).update(ri as int, b.lamports));
        }
        self.accounts[ri] = b;
        self.total = self.total + amount;
        proof {
            assert(self@.balances =~= old(self)@.balances.insert(
                owner,
                (old(self)@.balance(owner) + amount) as nat,
            ));
        }
        true
    }

    fn find_account(&self, id: Identity) -> (r: Option<usize>)
        ensures
            match r {
                Some(i) => i < self.accounts@.len() && self.accounts@[i as int].owner == id,
                None => forall|i: int|
                    0 <= i < self.accounts@.len() ==> self.accounts@[i].owner != id,
            },
    {
        let mut i: usize = 0;
        while i < self.accounts.len()
            invariant
                i <= self.accounts@.len(),
                forall|j: int| 0 <= j < i ==> self.accounts@[j].owner != id,
            decreases self.accounts@.len() - i,
        {
            if self.accounts[i].owner == id {
                return Some(i);
            }
            i = i + 1;
        }
        None
    }

    fn find_game(&self, code: &String) -> (r: Option<usize>)
        ensures
            match r {
                Some(i) => i < self.games@.len() && self.games@[i as int].data.game_code@
                    == code@,
                None => !has_game_in(self.games@, code@),
            },
    {
        let mut i: usize = 0;
        while i < self.games.len()
            invariant
                i <= self.games@.len(),
                forall|j: int| 0 <= j < i ==> self.games@[j].data.game_code@ != code@,
            decreases self.games@.len() - i,
        {
            if self.games[i].data.game_code == *code {
                return Some(i);
            }
            i = i + 1;
        }
        None
    }
}

/// Creates the escrow of game `game_code`, signed by `ctx.host`, and moves
/// `prize_pool` from the host's balance into it.
pub fn initialize_game(ledger: &mut Ledger, ctx: &InitializeGame, game_code: String, prize_pool: u64) -> (r:
    Result<(), EscrowError>)
    requires
        old(ledger).wf(),
    ensures
        final(ledger).wf(),
        (final(ledger)@, r) == initialize_spec(
            old(ledger)@,
            ctx.host,
            ctx.bump,
            game_code,
            prize_pool,
        ),
        final(ledger).total_value() == old(ledger).total_value(),
{
    if ledger.find_game(&game_code).is_some() {
        return Err(EscrowError::DuplicateGame);
    }
    let hi = ledger.find_account(ctx.host);
    let have: u64 = match hi {
        Some(i) => ledger.accounts[i].lamports,
        None => 0,
    };
    proof {
        if let Some(i) = hi {
            lemma_balance_at(ledger.accounts@, i as int);
        }
    }
    if have < prize_pool {
        return Err(EscrowError::InsufficientFunds);
    }
    if let Some(i) = hi {
        let b = Balance { owner: ctx.host, lamports: have - prize_pool };
        let ghost a0 = ledger.accounts@;
        proof {
            lemma_balance_update(a0, i as int, b);
            lemma_sum_update(amounts(a0), i as int, b.lamports);
            assert(amounts(a0.update(i as int, b)) =~= amounts(a0).update(i as int, b.lamports));
        }
        ledger.accounts[i] = b;
    }
    let ghost code = game_code@;
    let ghost expected = initialize_spec(old(ledger)@, ctx.host, ctx.bump, game_code, prize_pool).0;
    let record = GameEscrow::new(ctx.host, game_code, prize_pool, ctx.bump);
    let acct = EscrowAccount { data: record, lamports: prize_pool };
    let ghost g0 = ledger.games@;
    proof {
        lemma_game_push(g0, acct);
        lemma_sum_push(held_amounts(g0), prize_pool);
        assert(held_amounts(g0.push(acct)) =~= held_amounts(g0).push(prize_pool));
    }
    ledger.games.push(acct);
    proof {
        assert forall|i: int| 0 <= i < ledger.games@.len() implies {
            let a = #[trigger] ledger.games@[i];
            &&& a.data.wf()
            &&& a.lamports == if a.data.is_completed || a.data.is_cancelled {
                0
            } else {
                a.data.prize_pool
            }
        } by {
            if i < g0.len() {
                assert(ledger.games@[i] == g0[i]);
            }
        }
        assert(ledger@.balances =~= expected.balances);
        assert(ledger@.games =~= expected.games);
    }
    Ok(())
}

/// Completes game `ctx.game_code` in favour of `winner_address`, signed by
/// `ctx.host`, and pays the prize to the winner.
pub fn complete_game(ledger: &mut Ledger, ctx: &CompleteGame, winner_address: Identity) -> (r: Result<
    Payout,
    EscrowError,
>)
    requires
        old(ledger).wf(),
    ensures
        final(ledger).wf(),
        (final(ledger)@, r) == complete_spec(old(ledger)@, ctx.game_code@, ctx.host, winner_address),
        r != Err::<Payout, EscrowError>(EscrowError::IntegrityViolation),
        final(ledger).total_value() == old(ledger).total_value(),
{
    let gi = match ledger.find_game(&ctx.game_code) {
        None => {
            return Err(EscrowError::GameNotFound);
        },
        Some(i) => i,
    };
    proof {
        lemma_game_at(ledger.games@, gi as int);
    }
    let mut data = ledger.games[gi].data.duplicate();
    let prize = data.prize_pool;
    if let Err(e) = data.complete(ctx.host, winner_address) {
        return Err(e);
    }
    if ledger.games[gi].lamports < prize {
        return Err(EscrowError::IntegrityViolation);
    }
    ledger.settle(gi, data, winner_address);
    Ok(Payout { recipient: winner_address, amount: prize })
}

/// Cancels game `ctx.game_code`, signed by `ctx.host`, and refunds the prize
/// to the host.
pub fn cancel_game(ledger: &mut Ledger, ctx: &CancelGame) -> (r: Result<Payout, EscrowError>)
    requires
        old(ledger).wf(),
    ensures
        final(ledger).wf(),
        (final(ledger)@, r) == cancel_spec(old(ledger)@, ctx.game_code@, ctx.host),
        r != Err::<Payout, EscrowError>(EscrowError::IntegrityViolation),
        final(ledger).total_value() == old(ledger).total_value(),
{
    let gi = match ledger.find_game(&ctx.game_code) {
        None => {
            return Err(EscrowError::GameNotFound);
        },
        Some(i) => i,
    };
    proof {
        lemma_game_at(ledger.games@, gi as int);
    }
    let mut data = ledger.games[gi].data.duplicate();
    let prize = data.prize_pool;
    let host = data.host;
    if let Err(e) = data.cancel(ctx.host) {
        return Err(e);
    }
    if ledger.games[gi].lamports < prize {
        return Err(EscrowError::IntegrityViolation);
    }
    ledger.settle(gi, data, host);
    Ok(Payout { recipient: host, amount: prize })
}

} // verus!
