//! One game's escrow record and its lifecycle rules.
use vstd::prelude::*;

verus! {

/// The identity of an account holder: a 32-byte public key, held as two
/// 128-bit halves.
#[derive(Clone, Copy, Debug, PartialEq, Eq, Structural)]
pub struct Identity {
    pub hi: u128,
    pub lo: u128,
}

/// The ways an escrow operation can fail. None of them leaves a trace:
/// a failed operation changes no record and no balance.
#[derive(Clone, Copy, Debug, PartialEq, Eq, Structural)]
pub enum EscrowError {
    /// The caller is not the host of the game.
    UnauthorizedHost,
    /// The game was already completed or cancelled.
    GameAlreadyFinalized,
    /// A record already exists for this game code.
    DuplicateGame,
    /// The source of a transfer holds less than the amount.
    InsufficientFunds,
    /// The held balance of a record does not cover its prize pool.
    IntegrityViolation,
    /// No record is registered under the game code.
    GameNotFound,
}

/// Where a record stands in its lifecycle.
#[derive(Clone, Copy, Debug, PartialEq, Eq, Structural)]
pub enum GameState {
    Active,
    Completed,
    Cancelled,
}

/// The persisted state of one game's escrow.
#[derive(Clone, Debug)]
pub struct GameEscrow {
    pub host: Identity,
    pub game_code: String,
    pub prize_pool: u64,
    pub winner: Option<Identity>,
    pub is_completed: bool,
    pub is_cancelled: bool,
    pub bump: u8,
}

impl GameEscrow {
    /// A record is well formed when it is in at most one terminal state and
    /// names a winner exactly when it is completed.
    pub open spec fn wf(&self) -> bool {
        &&& !(self.is_completed && self.is_cancelled)
        &&& (self.winner is Some <==> self.is_completed)
    }

    pub open spec fn spec_state(&self) -> GameState {
        if self.is_completed {
            GameState::Completed
        } else if self.is_cancelled {
            GameState::Cancelled
        } else {
            GameState::Active
        }
    }

    /// What a finalizing operation by `caller` owes: the host check comes
    /// first, then the check that the game is still active.
    pub open spec fn finalize_check(&self, caller: Identity) -> Result<(), EscrowError> {
        if self.host != caller {
            Err(EscrowError::UnauthorizedHost)
        } else if self.is_completed || self.is_cancelled {
            Err(EscrowError::GameAlreadyFinalized)
        } else {
            Ok(())
        }
    }

    /// The record after it has been completed in favour of `winner`.
    pub open spec fn completed_with(self, winner: Identity) -> GameEscrow {
        GameEscrow { winner: Some(winner), is_completed: true, ..self }
    }

    /// The record after it has been cancelled.
    pub open spec fn cancelled(self) -> GameEscrow {
        GameEscrow { is_cancelled: true, ..self }
    }

    /// A fresh, active record.
    pub fn new(host: Identity, game_code: String, prize_pool: u64, bump: u8) -> (r: GameEscrow)
        ensures
            r.host == host,
            r.game_code == game_code,
            r.prize_pool == prize_pool,
            r.winner is None,
            !r.is_completed,
            !r.is_cancelled,
            r.bump == bump,
            r.wf(),
            r.spec_state() == GameState::Active,
    {
        GameEscrow {
            host,
            game_code,
            prize_pool,
            winner: None,
            is_completed: false,
            is_cancelled: false,
            bump,
        }
    }

    /// A copy of the record, field for field.
    pub fn duplicate(&self) -> (r: GameEscrow)
        ensures
            r == *self,
    {
        GameEscrow {
            host: self.host,
            game_code: self.game_code.clone(),
            prize_pool: self.prize_pool,
            winner: self.winner,
            is_completed: self.is_completed,
            is_cancelled: self.is_cancelled,
            bump: self.bump,
        }
    }

    pub fn state(&self) -> (r: GameState)
        ensures
            r == self.spec_state(),
    {
        if self.is_completed {
            GameState::Completed
        } else if self.is_cancelled {
            GameState::Cancelled
        } else {
            GameState::Active
        }
    }

    /// Whether `caller` may finalize the record now.
    pub fn check_finalize(&self, caller: Identity) -> (r: Result<(), EscrowError>)
        ensures
            r == self.finalize_check(caller),
    {
        if self.host != caller {
            Err(EscrowError::UnauthorizedHost)
        } else if self.is_completed || self.is_cancelled {
            Err(EscrowError::GameAlreadyFinalized)
        } else {
            Ok(())
        }
    }

    /// Completes the game in favour of `winner` when `caller` is the host
    /// and the game is active, and returns the amount now owed to the
    /// winner. On failure the record is left as it was.
    pub fn complete(&mut self, caller: Identity, winner: Identity) -> (r: Result<u64, EscrowError>)
        ensures
            match old(self).finalize_check(caller) {
                Ok(_) => {
                    &&& r == Ok::<u64, EscrowError>(old(self).prize_pool)
                    &&& *final(self) == old(self).completed_with(winner)
                },
                Err(e) => {
                    &&& r == Err::<u64, EscrowError>(e)
                    &&& *final(self) == *old(self)
                },
            },
            old(self).wf() ==> final(self).wf(),
    {
        match self.check_finalize(caller) {
            Err(e) => Err(e),
            Ok(()) => {
                self.winner = Some(winner);
                self.is_completed = true;
                Ok(self.prize_pool)
            },
        }
    }

    /// Cancels the game when `caller` is the host and the game is active,
    /// and returns the amount now owed back to the host. On failure the
    /// record is left as it was.
    pub fn cancel(&mut self, caller: Identity) -> (r: Result<u64, EscrowError>)
        ensures
            match old(self).finalize_check(caller) {
                Ok(_) => {
                    &&& r == Ok::<u64, EscrowError>(old(self).prize_pool)
                    &&& *final(self) == old(self).cancelled()
                },
                Err(e) => {
                    &&& r == Err::<u64, EscrowError>(e)
                    &&& *final(self) == *old(self)
                },
            },
            old(self).wf() ==> final(self).wf(),
    {
        match self.check_finalize(caller) {
            Err(e) => Err(e),
            Ok(()) => {
                self.is_cancelled = true;
                Ok(self.prize_pool)
            },
        }
    }
}

} // verus!
