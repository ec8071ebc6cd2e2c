use trencher_escrow::escrow::{EscrowError, GameEscrow, GameState, Identity};
use trencher_escrow::ledger::{
    cancel_game, complete_game, initialize_game, CancelGame, CompleteGame, InitializeGame, Ledger,
    Payout,
};

const HOST: Identity = Identity { hi: 1, lo: 1 };
const WINNER: Identity = Identity { hi: 2, lo: 2 };
const STRANGER: Identity = Identity { hi: 3, lo: 3 };

fn code(s: &str) -> String {
    s.to_string()
}

fn funded(amount: u64) -> Ledger {
    let mut l = Ledger::new();
    assert!(l.deposit(HOST, amount));
    l
}

fn start(l: &mut Ledger, c: &str, prize: u64) -> Result<(), EscrowError> {
    initialize_game(l, &InitializeGame { host: HOST, bump: 254 }, code(c), prize)
}

fn complete_ctx(c: &str, host: Identity) -> CompleteGame {
    CompleteGame { game_code: code(c), host }
}

fn cancel_ctx(c: &str, host: Identity) -> CancelGame {
    CancelGame { game_code: code(c), host }
}

#[test]
fn full_game_pays_winner_then_refuses_cancel() {
    let mut l = funded(1_000_000);
    assert_eq!(start(&mut l, "ABC123", 1_000_000), Ok(()));
    assert_eq!(l.balance(HOST), 0);
    assert_eq!(l.held_balance(&code("ABC123")), Some(1_000_000));

    let paid = complete_game(&mut l, &complete_ctx("ABC123", HOST), WINNER);
    assert_eq!(paid, Ok(Payout { recipient: WINNER, amount: 1_000_000 }));
    assert_eq!(l.balance(WINNER), 1_000_000);
    let rec = l.game(&code("ABC123")).unwrap();
    assert_eq!(rec.state(), GameState::Completed);

    let again = cancel_game(&mut l, &cancel_ctx("ABC123", HOST));
    assert_eq!(again, Err(EscrowError::GameAlreadyFinalized));
    assert_eq!(l.balance(HOST), 0);
    assert_eq!(l.balance(WINNER), 1_000_000);
    assert_eq!(l.held_balance(&code("ABC123")), Some(0));
}

#[test]
fn second_initialize_with_same_code_is_duplicate() {
    let mut l = funded(1_000);
    assert_eq!(start(&mut l, "ABC123", 500), Ok(()));
    assert_eq!(start(&mut l, "ABC123", 500), Err(EscrowError::DuplicateGame));
    assert_eq!(l.balance(HOST), 500);
    assert_eq!(l.held_balance(&code("ABC123")), Some(500));
}

#[test]
fn initialize_then_read_gives_active_record() {
    let mut l = funded(100);
    assert_eq!(start(&mut l, "XYZ", 40), Ok(()));
    let rec = l.game(&code("XYZ")).unwrap();
    assert_eq!(rec.state(), GameState::Active);
    assert_eq!(rec.prize_pool, 40);
    assert_eq!(rec.winner, None);
    assert_eq!(rec.host, HOST);
    assert_eq!(rec.game_code, "XYZ");
    assert_eq!(rec.bump, 254);
    assert!(!rec.is_completed && !rec.is_cancelled);
    assert_eq!(l.balance(HOST), 60);
}

#[test]
fn initialize_without_enough_funds_fails() {
    let mut l = funded(99);
    assert_eq!(start(&mut l, "G1", 100), Err(EscrowError::InsufficientFunds));
    assert_eq!(l.balance(HOST), 99);
    assert!(l.game(&code("G1")).is_none());
}

#[test]
fn zero_prize_needs_no_funds() {
    let mut l = Ledger::new();
    assert_eq!(start(&mut l, "FREE", 0), Ok(()));
    assert_eq!(l.held_balance(&code("FREE")), Some(0));
    let paid = complete_game(&mut l, &complete_ctx("FREE", HOST), WINNER);
    assert_eq!(paid, Ok(Payout { recipient: WINNER, amount: 0 }));
    assert_eq!(l.balance(WINNER), 0);
}

#[test]
fn complete_twice_keeps_first_winner() {
    let mut l = funded(300);
    start(&mut l, "G2", 300).unwrap();
    complete_game(&mut l, &complete_ctx("G2", HOST), WINNER).unwrap();
    let again = complete_game(&mut l, &complete_ctx("G2", HOST), STRANGER);
    assert_eq!(again, Err(EscrowError::GameAlreadyFinalized));
    assert_eq!(l.game(&code("G2")).unwrap().winner, Some(WINNER));
    assert_eq!(l.balance(WINNER), 300);
    assert_eq!(l.balance(STRANGER), 0);
    assert_eq!(l.held_balance(&code("G2")), Some(0));
}

#[test]
fn cancel_then_complete_fails() {
    let mut l = funded(50);
    start(&mut l, "G3", 50).unwrap();
    cancel_game(&mut l, &cancel_ctx("G3", HOST)).unwrap();
    let r = complete_game(&mut l, &complete_ctx("G3", HOST), WINNER);
    assert_eq!(r, Err(EscrowError::GameAlreadyFinalized));
    assert_eq!(l.balance(WINNER), 0);
    assert_eq!(l.balance(HOST), 50);
}

#[test]
fn complete_then_cancel_fails() {
    let mut l = funded(50);
    start(&mut l, "G4", 50).unwrap();
    complete_game(&mut l, &complete_ctx("G4", HOST), WINNER).unwrap();
    let r = cancel_game(&mut l, &cancel_ctx("G4", HOST));
    assert_eq!(r, Err(EscrowError::GameAlreadyFinalized));
    assert_eq!(l.balance(HOST), 0);
}

#[test]
fn stranger_cannot_complete() {
    let mut l = funded(70);
    start(&mut l, "G5", 70).unwrap();
    let r = complete_game(&mut l, &complete_ctx("G5", STRANGER), STRANGER);
    assert_eq!(r, Err(EscrowError::UnauthorizedHost));
    assert_eq!(l.game(&code("G5")).unwrap().state(), GameState::Active);
    assert_eq!(l.held_balance(&code("G5")), Some(70));
    assert_eq!(l.balance(STRANGER), 0);
}

#[test]
fn stranger_cannot_cancel() {
    let mut l = funded(70);
    start(&mut l, "G6", 70).unwrap();
    let r = cancel_game(&mut l, &cancel_ctx("G6", STRANGER));
    assert_eq!(r, Err(EscrowError::UnauthorizedHost));
    assert_eq!(l.game(&code("G6")).unwrap().state(), GameState::Active);
}

#[test]
fn unauthorized_is_reported_before_finalized() {
    let mut l = funded(10);
    start(&mut l, "G7", 10).unwrap();
    cancel_game(&mut l, &cancel_ctx("G7", HOST)).unwrap();
    let r = complete_game(&mut l, &complete_ctx("G7", STRANGER), WINNER);
    assert_eq!(r, Err(EscrowError::UnauthorizedHost));
}

#[test]
fn complete_moves_exactly_the_prize() {
    let mut l = funded(1_000);
    assert!(l.deposit(WINNER, 25));
    start(&mut l, "G8", 600).unwrap();
    complete_game(&mut l, &complete_ctx("G8", HOST), WINNER).unwrap();
    assert_eq!(l.balance(WINNER), 625);
    assert_eq!(l.held_balance(&code("G8")), Some(0));
    let rec = l.game(&code("G8")).unwrap();
    assert_eq!(rec.winner, Some(WINNER));
    assert!(rec.is_completed);
    assert_eq!(l.balance(HOST), 400);
}

#[test]
fn cancel_refunds_the_host() {
    let mut l = funded(1_000);
    start(&mut l, "G9", 600).unwrap();
    assert_eq!(l.balance(HOST), 400);
    let r = cancel_game(&mut l, &cancel_ctx("G9", HOST));
    assert_eq!(r, Ok(Payout { recipient: HOST, amount: 600 }));
    assert_eq!(l.balance(HOST), 1_000);
    let rec = l.game(&code("G9")).unwrap();
    assert!(rec.is_cancelled);
    assert_eq!(rec.state(), GameState::Cancelled);
}

#[test]
fn host_may_name_itself_winner() {
    let mut l = funded(80);
    start(&mut l, "SELF", 80).unwrap();
    complete_game(&mut l, &complete_ctx("SELF", HOST), HOST).unwrap();
    assert_eq!(l.balance(HOST), 80);
}

#[test]
fn missing_game_is_not_found() {
    let mut l = funded(10);
    let r = complete_game(&mut l, &complete_ctx("NONE", HOST), WINNER);
    assert_eq!(r, Err(EscrowError::GameNotFound));
    let r = cancel_game(&mut l, &cancel_ctx("NONE", HOST));
    assert_eq!(r, Err(EscrowError::GameNotFound));
    assert_eq!(l.held_balance(&code("NONE")), None);
}

#[test]
fn value_is_conserved_across_interleaved_games() {
    let mut l = funded(10_000);
    assert!(l.deposit(STRANGER, 500));
    let total = l.total();
    assert_eq!(total, 10_500);
    start(&mut l, "A", 1_000).unwrap();
    start(&mut l, "B", 2_000).unwrap();
    assert_eq!(l.total(), total);
    start(&mut l, "C", 3_000).unwrap();
    cancel_game(&mut l, &cancel_ctx("B", HOST)).unwrap();
    assert_eq!(l.total(), total);
    complete_game(&mut l, &complete_ctx("C", HOST), WINNER).unwrap();
    complete_game(&mut l, &complete_ctx("A", HOST), STRANGER).unwrap();
    assert_eq!(l.total(), total);
    assert_eq!(l.balance(HOST), 10_000 - 1_000 - 3_000);
    assert_eq!(l.balance(WINNER), 3_000);
    assert_eq!(l.balance(STRANGER), 1_500);
    let held: u64 = ["A", "B", "C"]
        .iter()
        .map(|c| l.held_balance(&code(c)).unwrap())
        .sum();
    assert_eq!(held, 0);
}

#[test]
fn deposit_refuses_to_overflow() {
    let mut l = funded(u64::MAX - 5);
    assert!(!l.deposit(WINNER, 6));
    assert_eq!(l.balance(WINNER), 0);
    assert!(l.deposit(WINNER, 5));
    assert_eq!(l.balance(WINNER), 5);
    assert_eq!(l.total(), u64::MAX);
}

#[test]
fn largest_prize_round_trip() {
    let mut l = funded(u64::MAX);
    start(&mut l, "BIG", u64::MAX).unwrap();
    complete_game(&mut l, &complete_ctx("BIG", HOST), WINNER).unwrap();
    assert_eq!(l.balance(WINNER), u64::MAX);
    assert_eq!(l.balance(HOST), 0);
}

#[test]
fn record_complete_sets_winner() {
    let mut rec = GameEscrow::new(HOST, code("R1"), 9, 3);
    assert_eq!(rec.check_finalize(STRANGER), Err(EscrowError::UnauthorizedHost));
    assert_eq!(rec.complete(STRANGER, WINNER), Err(EscrowError::UnauthorizedHost));
    assert_eq!(rec.state(), GameState::Active);
    assert_eq!(rec.complete(HOST, WINNER), Ok(9));
    assert_eq!(rec.winner, Some(WINNER));
    assert_eq!(rec.state(), GameState::Completed);
    assert_eq!(rec.cancel(HOST), Err(EscrowError::GameAlreadyFinalized));
    assert!(!rec.is_cancelled);
}

#[test]
fn record_cancel_keeps_winner_absent() {
    let mut rec = GameEscrow::new(HOST, code("R2"), 4, 1);
    assert_eq!(rec.cancel(HOST), Ok(4));
    assert_eq!(rec.state(), GameState::Cancelled);
    assert_eq!(rec.winner, None);
    assert_eq!(rec.complete(HOST, WINNER), Err(EscrowError::GameAlreadyFinalized));
    let copy = rec.duplicate();
    assert_eq!(copy.game_code, "R2");
    assert!(copy.is_cancelled);
}
