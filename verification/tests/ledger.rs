use token_ledger::account::Address;
use token_ledger::ledger::Ledger;
use token_ledger::ledger::LedgerError;
use token_ledger::ledger::TransferEvent;
use token_ledger::u256::U256;

fn addr(n: u64) -> Address {
    Address::from_u64(n)
}

fn amount(n: u64) -> U256 {
    U256::from_u64(n)
}

fn seeded(rows: Vec<(Address, U256)>, total_supply: U256) -> Ledger {
    Ledger::from_storage(addr(1), rows, total_supply).unwrap()
}

#[test]
fn fresh_ledger_is_empty() {
    let owner = addr(1);
    let ledger = Ledger::new(owner);
    assert_eq!(ledger.total_supply(), U256::zero());
    assert_eq!(ledger.balance_of(addr(2)), U256::zero());
    assert_eq!(ledger.balance_of(owner), U256::zero());
}

#[test]
fn transfer_from_empty_account_fails() {
    // Fresh ledger, owner O: transfer(O, A, 100) reports the exact
    // shortfall and changes nothing.
    let o = addr(1);
    let a = addr(2);
    let mut ledger = Ledger::new(o);
    let r = ledger.transfer(o, a, amount(100));
    assert_eq!(
        r,
        Err(LedgerError::InsufficientBalance {
            account: o,
            required: amount(100),
            available: U256::zero(),
        })
    );
    assert_eq!(ledger.balance_of(o), U256::zero());
    assert_eq!(ledger.balance_of(a), U256::zero());
    assert_eq!(ledger.total_supply(), U256::zero());
}

#[test]
fn transfer_moves_balance_and_reports_event() {
    // Seed A with 100: transfer(A, B, 40) leaves 60 and 40 and emits
    // exactly one event.
    let a = addr(2);
    let b = addr(3);
    let mut ledger = seeded(vec![(a, amount(100))], amount(100));
    let r = ledger.transfer(a, b, amount(40));
    assert_eq!(r, Ok(TransferEvent { from: a, to: b, value: amount(40) }));
    assert_eq!(ledger.balance_of(a), amount(60));
    assert_eq!(ledger.balance_of(b), amount(40));
    assert_eq!(ledger.total_supply(), amount(100));
}

#[test]
fn transfer_overflowing_recipient_fails() {
    // A holds 2^256 - 1 and B holds 1; crediting A one more unit would
    // overflow, so the transfer fails and the state stays as it was.
    let a = addr(2);
    let b = addr(3);
    let mut ledger = seeded(
        vec![(a, U256::max_value()), (b, amount(1))],
        U256::max_value(),
    );
    let r = ledger.transfer(b, a, amount(1));
    assert_eq!(r, Err(LedgerError::ArithmeticOverflow));
    assert_eq!(ledger.balance_of(a), U256::max_value());
    assert_eq!(ledger.balance_of(b), amount(1));
    assert_eq!(ledger.total_supply(), U256::max_value());
}

#[test]
fn only_owner_rejects_other_callers() {
    let o = addr(1);
    let x = addr(9);
    let ledger = Ledger::new(o);
    assert_eq!(ledger.only_owner(x), Err(LedgerError::NotAuthorized));
    assert_eq!(ledger.only_owner(o), Ok(()));
}

#[test]
fn self_transfer_is_a_net_no_op() {
    // Seed A with 50: transfer(A, A, 10) succeeds, emits exactly one
    // event, and leaves the balance at 50.
    let a = addr(2);
    let mut ledger = seeded(vec![(a, amount(50))], amount(50));
    let r = ledger.transfer(a, a, amount(10));
    assert_eq!(r, Ok(TransferEvent { from: a, to: a, value: amount(10) }));
    assert_eq!(ledger.balance_of(a), amount(50));
    assert_eq!(ledger.total_supply(), amount(50));
}

#[test]
fn self_transfer_still_checks_the_balance() {
    let a = addr(2);
    let mut ledger = seeded(vec![(a, amount(50))], amount(50));
    let r = ledger.transfer(a, a, amount(51));
    assert_eq!(
        r,
        Err(LedgerError::InsufficientBalance {
            account: a,
            required: amount(51),
            available: amount(50),
        })
    );
    assert_eq!(ledger.balance_of(a), amount(50));
}

#[test]
fn supply_is_conserved_across_transfers() {
    // A chain of successful transfers never changes the total supply,
    // and the balances always add back up to it.
    let a = addr(2);
    let b = addr(3);
    let c = addr(4);
    let mut ledger = seeded(vec![(a, amount(1000))], amount(1000));
    assert!(ledger.transfer(a, b, amount(300)).is_ok());
    assert!(ledger.transfer(b, c, amount(120)).is_ok());
    assert!(ledger.transfer(c, a, amount(20)).is_ok());
    assert!(ledger.transfer(a, a, amount(700)).is_ok());
    assert_eq!(ledger.total_supply(), amount(1000));
    let held = [a, b, c]
        .iter()
        .map(|acct| ledger.balance_of(*acct).limb0)
        .sum::<u64>();
    assert_eq!(held, 1000);
    assert_eq!(ledger.balance_of(a), amount(720));
    assert_eq!(ledger.balance_of(b), amount(180));
    assert_eq!(ledger.balance_of(c), amount(100));
}

#[test]
fn failed_transfer_changes_nothing() {
    let a = addr(2);
    let b = addr(3);
    let mut ledger = seeded(vec![(a, amount(10)), (b, amount(5))], amount(15));
    let r = ledger.transfer(a, b, amount(11));
    assert!(r.is_err());
    assert_eq!(ledger.balance_of(a), amount(10));
    assert_eq!(ledger.balance_of(b), amount(5));
    assert_eq!(ledger.total_supply(), amount(15));
}

#[test]
fn reads_are_idempotent() {
    let a = addr(2);
    let ledger = seeded(vec![(a, amount(77))], amount(77));
    assert_eq!(ledger.balance_of(a), ledger.balance_of(a));
    assert_eq!(ledger.total_supply(), ledger.total_supply());
    assert_eq!(ledger.balance_of(a), amount(77));
}

#[test]
fn balances_are_never_negative() {
    // Balances are unsigned: even an account the ledger has never seen
    // reads back as exactly zero.
    let ledger = Ledger::new(addr(1));
    let unseen = ledger.balance_of(addr(42));
    assert_eq!(unseen, U256::zero());
}

#[test]
fn zero_amount_transfer_succeeds_from_any_account() {
    // Nothing moves, but the call succeeds and still emits its event.
    let a = addr(2);
    let b = addr(3);
    let mut ledger = Ledger::new(addr(1));
    let r = ledger.transfer(a, b, U256::zero());
    assert_eq!(r, Ok(TransferEvent { from: a, to: b, value: U256::zero() }));
    assert_eq!(ledger.balance_of(a), U256::zero());
    assert_eq!(ledger.balance_of(b), U256::zero());
    assert_eq!(ledger.total_supply(), U256::zero());
}

#[test]
fn from_storage_rejects_duplicate_accounts() {
    let a = addr(2);
    let rows = vec![(a, amount(1)), (a, amount(2))];
    assert!(Ledger::from_storage(addr(1), rows, amount(3)).is_none());
}

#[test]
fn distinct_160_bit_addresses_do_not_collide() {
    // Two addresses that agree in the low word but differ higher up are
    // different accounts.
    let a = Address::new(0, 0, 7);
    let b = Address::new(1, 0, 7);
    let mut ledger = seeded(vec![(a, amount(100))], amount(100));
    let r = ledger.transfer(a, b, amount(25));
    assert!(r.is_ok());
    assert_eq!(ledger.balance_of(a), amount(75));
    assert_eq!(ledger.balance_of(b), amount(25));
}
