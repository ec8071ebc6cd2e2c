//! Properties of the escrow lifecycle that relate several operations,
//! proved over the ledger model that the operations' contracts speak of.
use vstd::prelude::*;
use crate::escrow::{EscrowError, GameState, Identity};
use crate::ledger::{cancel_spec, complete_spec, initialize_spec, LedgerModel, Payout};

verus! {

/// Creating a game succeeds exactly when its code is free and the host can
/// cover the prize; the record then read back is active, holds the prize
/// unchanged, and names no winner.
pub proof fn lemma_initialize_then_read(
    m: LedgerModel,
    host: Identity,
    bump: u8,
    code: String,
    prize: u64,
)
    ensures
        ({
            let (m1, r) = initialize_spec(m, host, bump, code, prize);
            &&& (r is Ok <==> !m.games.contains_key(code@) && m.balance(host) >= prize)
            &&& r is Ok ==> {
                let a = m1.games[code@];
                &&& m1.games.contains_key(code@)
                &&& a.data.spec_state() == GameState::Active
                &&& a.data.host == host
                &&& a.data.prize_pool == prize
                &&& a.data.winner is None
                &&& a.lamports == prize
                &&& m1.balance(host) == m.balance(host) - prize
            }
        }),
{
}

/// Completing a game a second time fails with `GameAlreadyFinalized` and
/// changes nothing: the first winner and the held balance stay.
pub proof fn lemma_complete_twice(
    m: LedgerModel,
    code: Seq<char>,
    host: Identity,
    first: Identity,
    second: Identity,
)
    ensures
        ({
            let (m1, r1) = complete_spec(m, code, host, first);
            let (m2, r2) = complete_spec(m1, code, host, second);
            r1 is Ok ==> {
                &&& r2 == Err::<Payout, EscrowError>(
                    EscrowError::GameAlreadyFinalized,
                )
                &&& m2 == m1
                &&& m2.games[code].data.winner == Some(first)
                &&& m2.games[code].lamports == m1.games[code].lamports
            }
        }),
{
}

/// After a cancellation, completing the same game fails with
/// `GameAlreadyFinalized`.
pub proof fn lemma_cancel_then_complete(
    m: LedgerModel,
    code: Seq<char>,
    host: Identity,
    winner: Identity,
)
    ensures
        ({
            let (m1, r1) = cancel_spec(m, code, host);
            let (m2, r2) = complete_spec(m1, code, host, winner);
            r1 is Ok ==> r2 == Err::<Payout, EscrowError>(
                EscrowError::GameAlreadyFinalized,
            ) && m2 == m1
        }),
{
}

/// After a completion, cancelling the same game fails with
/// `GameAlreadyFinalized`.
pub proof fn lemma_complete_then_cancel(
    m: LedgerModel,
    code: Seq<char>,
    host: Identity,
    winner: Identity,
)
    ensures
        ({
            let (m1, r1) = complete_spec(m, code, host, winner);
            let (m2, r2) = cancel_spec(m1, code, host);
            r1 is Ok ==> r2 == Err::<Payout, EscrowError>(
                EscrowError::GameAlreadyFinalized,
            ) && m2 == m1
        }),
{
}

/// A caller other than the host cannot complete a game: the attempt fails
/// with `UnauthorizedHost` and the record stays as it was, active if it was.
pub proof fn lemma_complete_by_stranger(
    m: LedgerModel,
    code: Seq<char>,
    caller: Identity,
    winner: Identity,
)
    requires
        m.games.contains_key(code),
        caller != m.games[code].data.host,
    ensures
        complete_spec(m, code, caller, winner) == (m, Err::<Payout, EscrowError>(
            EscrowError::UnauthorizedHost,
        )),
{
}

/// A successful completion pays exactly the prize to the winner, takes
/// exactly the prize out of the escrow, records the winner and marks the
/// game completed.
pub proof fn lemma_complete_pays_winner(
    m: LedgerModel,
    code: Seq<char>,
    host: Identity,
    winner: Identity,
)
    ensures
        ({
            let (m1, r) = complete_spec(m, code, host, winner);
            let prize = m.games[code].data.prize_pool;
            r is Ok ==> {
                &&& m1.balance(winner) == m.balance(winner) + prize
                &&& m1.games[code].lamports == m.games[code].lamports - prize
                &&& m1.games[code].data.winner == Some(winner)
                &&& m1.games[code].data.is_completed
                &&& forall|id: Identity| id != winner ==> #[trigger] m1.balance(id) == m.balance(id)
            }
        }),
{
}

/// A successful cancellation refunds exactly the prize to the host and marks
/// the game cancelled.
pub proof fn lemma_cancel_refunds_host(m: LedgerModel, code: Seq<char>, host: Identity)
    ensures
        ({
            let (m1, r) = cancel_spec(m, code, host);
            let prize = m.games[code].data.prize_pool;
            r is Ok ==> {
                &&& m1.balance(host) == m.balance(host) + prize
                &&& m1.games[code].lamports == m.games[code].lamports - prize
                &&& m1.games[code].data.is_cancelled
                &&& forall|id: Identity| id != host ==> #[trigger] m1.balance(id) == m.balance(id)
            }
        }),
{
}

/// For one game, what leaves the host's balance when it is created is what
/// reaches the recipient when it is finalized, whichever way it ends, and
/// the escrow is left holding nothing.
pub proof fn lemma_prize_conserved(
    m: LedgerModel,
    host: Identity,
    bump: u8,
    code: String,
    prize: u64,
    winner: Identity,
)
    ensures
        ({
            let (m1, r1) = initialize_spec(m, host, bump, code, prize);
            let (m2, r2) = complete_spec(m1, code@, host, winner);
            (r1 is Ok && r2 is Ok) ==> {
                &&& m.balance(host) - m1.balance(host) == prize
                &&& m2.balance(winner) - m1.balance(winner) == prize
                &&& m2.games[code@].lamports == 0
            }
        }),
        ({
            let (m1, r1) = initialize_spec(m, host, bump, code, prize);
            let (m2, r2) = cancel_spec(m1, code@, host);
            (r1 is Ok && r2 is Ok) ==> {
                &&& m.balance(host) - m1.balance(host) == prize
                &&& m2.balance(host) == m.balance(host)
                &&& m2.games[code@].lamports == 0
            }
        }),
{
}

} // verus!
