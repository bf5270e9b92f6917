use nix_engine::constants::NIL;
use nix_engine::error::{EngineError, NixError};
use nix_engine::logs::Effect;
use nix_engine::marginfi_utils::{Bank, BankConfig};
use nix_engine::market::{CreateMarketArgs, MarketFixed, MarketSlot, MarketValue};
use nix_engine::market_loan::{ActiveLoan, MarketLoansFixed, MarketLoansValue};
use nix_engine::matching::AddOrderToMarketArgs;
use nix_engine::quantities::WrappedI80F48;
use nix_engine::resting_order::OrderType;

/// A small source of numbers that look random and are the same in every
/// run.
struct Numbers(u64);

impl Numbers {
    fn next(&mut self) -> u64 {
        self.0 = self.0.wrapping_mul(6_364_136_223_846_793_005).wrapping_add(1_442_695_040_888_963_407);
        self.0 >> 33
    }
    fn below(&mut self, n: u64) -> u64 {
        self.next() % n
    }
}

fn key(b: u8) -> [u8; 32] {
    [b; 32]
}

fn q(whole: u64) -> WrappedI80F48 {
    WrappedI80F48::from_u64(whole)
}

fn bank() -> Bank {
    Bank {
        mint_decimals: 6,
        asset_share_value: q(1),
        liability_share_value: q(1),
        config: BankConfig { asset_weight_init: q(1), liability_weight_init: q(1) },
    }
}

fn market_with(slots: usize) -> MarketValue {
    let args = CreateMarketArgs {
        base_a_mint: key(1),
        base_b_mint: key(2),
        base_a_mint_decimals: 6,
        base_b_mint_decimals: 6,
        base_a_vault: key(3),
        base_b_vault: key(4),
        base_a_fee_receiver: key(5),
        base_b_fee_receiver: key(6),
        base_a_marginfi_group: key(7),
        base_a_marginfi_bank: key(8),
        base_a_marginfi_account: key(9),
        base_b_marginfi_group: key(10),
        base_b_marginfi_bank: key(11),
        base_b_marginfi_account: key(12),
        admin: key(13),
        protocol_fee_rate_bps: 0,
        ltv_buffer_bps: 0,
    };
    let mut market = MarketValue::new(MarketFixed::new_empty(&args));
    for _ in 0..slots {
        market.market_expand().unwrap();
    }
    market
}

fn order(trader_index: u32, atoms: u64, rate_bps: u16, is_bid: bool, order_type: OrderType) -> AddOrderToMarketArgs {
    AddOrderToMarketArgs {
        market: key(42),
        trader_index,
        num_base_atoms: atoms,
        rate_bps,
        reverse_spread_bps: 0,
        is_bid,
        use_a_tree: true,
        last_valid_slot: 0,
        order_type,
        base_mint: key(1),
        quote_mint: key(2),
        base_oracle_price_usd: q(1),
        quote_oracle_price_usd: q(1),
        base_bank: bank(),
        quote_bank: bank(),
        now_slot: 100,
        now_unix_timestamp: 0,
    }
}

/// An order as the test remembers it.
#[derive(Clone, Copy, Debug, PartialEq)]
struct Remembered {
    index: u32,
    number: u64,
    rate: u16,
    atoms: u64,
}

/// The best of the remembered orders: the best rate, and of those the oldest.
fn best(book: &[Remembered], is_bid: bool) -> Option<Remembered> {
    book.iter().copied().min_by_key(|o| {
        (if is_bid { u16::MAX - o.rate } else { o.rate }, o.number)
    })
}

fn best_index(market: &MarketValue, is_bid: bool) -> u32 {
    if is_bid {
        market.fixed.base_a_bids_best_index
    } else {
        market.fixed.base_a_asks_best_index
    }
}

fn book_keeps_its_order(makers_bid: bool, seed: u64) {
    let mut numbers = Numbers(seed);
    let mut market = market_with(260);
    market.claim_seat(&key(20)).unwrap();
    market.claim_seat(&key(21)).unwrap();
    let maker = market.get_trader_index(&key(20));
    let taker = market.get_trader_index(&key(21));
    for t in [maker, taker] {
        market.deposit(t, q(1_000_000_000), true).unwrap();
        market.deposit(t, q(1_000_000_000), false).unwrap();
    }
    let mut ledger = MarketLoansValue::new(MarketLoansFixed::new_empty(key(42)));
    let mut book: Vec<Remembered> = Vec::new();
    for step in 0..400 {
        let cancel = !book.is_empty() && (book.len() >= 200 || numbers.below(3) == 0);
        if cancel {
            let gone = book.remove(numbers.below(book.len() as u64) as usize);
            let seat_before = match market.get_slot(maker) {
                Some(MarketSlot::Seat(s)) => s,
                _ => panic!("no seat"),
            };
            let mut effects = Vec::new();
            market
                .cancel_order(true, maker, gone.number, &None, &mut ledger, 0, 100, &mut effects)
                .unwrap();
            assert!(effects.is_empty());
            assert_eq!(market.fixed.free_list_head_index, gone.index, "step {}", step);
            let seat_after = match market.get_slot(maker) {
                Some(MarketSlot::Seat(s)) => s,
                _ => panic!("no seat"),
            };
            if makers_bid {
                assert_eq!(seat_after.base_b_withdrawable_asset_share, seat_before.base_b_withdrawable_asset_share);
            } else {
                assert_eq!(
                    seat_after.base_a_withdrawable_asset_share.value,
                    seat_before.base_a_withdrawable_asset_share.value + q(gone.atoms).value
                );
            }
        } else {
            let rate = 1 + numbers.below(40) as u16;
            let atoms = 1 + numbers.below(50);
            let placed = market
                .place_order(order(maker, atoms, rate, makers_bid, OrderType::Limit), &mut None, &None)
                .unwrap();
            assert_ne!(placed.order_index, NIL);
            assert!(book.iter().all(|o| o.index != placed.order_index));
            // The order has the header's number, which is above all others.
            assert_eq!(placed.order_sequence_number, market.fixed.base_a_order_sequence_number);
            assert!(book.iter().all(|o| o.number < placed.order_sequence_number));
            book.push(Remembered {
                index: placed.order_index,
                number: placed.order_sequence_number,
                rate,
                atoms,
            });
        }
        let expected = best(&book, makers_bid).map(|o| o.index).unwrap_or(NIL);
        assert_eq!(best_index(&market, makers_bid), expected, "step {}", step);
        assert_eq!(best_index(&market, !makers_bid), NIL);
    }
    assert!(book.len() > 20);
    // A cancelled bid became a loan, a cancelled ask did not.
    let cancelled = 400 - count_placed(&book, 400);
    assert_eq!(ledger.fixed.num_active_loans as usize, if makers_bid { cancelled } else { 0 });
    // A taker that takes everything is filled in the order of the book.
    let total: u64 = book.iter().map(|o| o.atoms).sum();
    let limit = if makers_bid { 0 } else { u16::MAX };
    let taken = market
        .place_order(order(taker, total + 5, limit, !makers_bid, OrderType::ImmediateOrCancel), &mut None, &None)
        .unwrap();
    assert_eq!(taken.base_atoms_traded, total);
    let mut expected = book.clone();
    expected.sort_by_key(|o| (if makers_bid { u16::MAX - o.rate } else { o.rate }, o.number));
    let fills: Vec<(u64, u16, u64)> = taken
        .effects
        .iter()
        .filter_map(|e| match e {
            Effect::Fill(f) => Some((f.maker_sequence_number, f.rate_bps, f.base_atoms)),
            _ => None,
        })
        .collect();
    let wanted: Vec<(u64, u16, u64)> = expected.iter().map(|o| (o.number, o.rate, o.atoms)).collect();
    assert_eq!(fills, wanted);
    assert_eq!(taken.matched_loans.len(), book.len());
    assert_eq!(best_index(&market, makers_bid), NIL);
    // Every slot but the two seats is free again: as many orders rest as there
    // are slots.
    let mut rested = 0;
    loop {
        match market.place_order(order(maker, 1, 7, makers_bid, OrderType::Limit), &mut None, &None) {
            Ok(_) => rested += 1,
            Err(e) => {
                assert_eq!(e, EngineError::Nix(NixError::InvalidFreeList));
                break;
            }
        }
    }
    assert_eq!(rested, 258);
}

/// How many of 400 steps placed an order, given what is left of the book.
fn count_placed(book: &[Remembered], steps: usize) -> usize {
    // placed - cancelled = left and placed + cancelled = steps
    (steps + book.len()) / 2
}

#[test]
fn asks_keep_their_order() {
    book_keeps_its_order(false, 1);
    book_keeps_its_order(false, 2024);
}

#[test]
fn bids_keep_their_order() {
    book_keeps_its_order(true, 3);
    book_keeps_its_order(true, 77_777);
}

#[test]
fn many_seats() {
    let mut numbers = Numbers(99);
    let mut market = market_with(300);
    let mut traders: Vec<([u8; 32], u32)> = Vec::new();
    for n in 0..300u32 {
        let mut k = [0u8; 32];
        for b in k.iter_mut() {
            *b = numbers.below(256) as u8;
        }
        k[31] = (n % 256) as u8;
        k[30] = (n / 256) as u8;
        market.claim_seat(&k).unwrap();
        let index = market.get_trader_index(&k);
        assert_ne!(index, NIL);
        assert!(traders.iter().all(|(_, i)| *i != index));
        traders.push((k, index));
    }
    assert!(!market.has_free_block());
    for (k, index) in traders.iter() {
        assert_eq!(market.get_trader_index(k), *index);
        assert_eq!(market.get_trader_key_by_index(*index), k);
        assert_eq!(market.claim_seat(k), Err(EngineError::Nix(NixError::AlreadyClaimedSeat)));
        let mut other = *k;
        other[0] ^= 0x80;
        other[29] = 1;
        assert_eq!(market.get_trader_index(&other), NIL);
    }
}

#[test]
fn many_loans() {
    let mut numbers = Numbers(5);
    let mut ledger = MarketLoansValue::new(MarketLoansFixed::new_empty(key(42)));
    ledger.expand_loan_account(400).unwrap();
    let mut live: Vec<u64> = Vec::new();
    let mut next = 0u64;
    for _ in 0..1500 {
        if !live.is_empty() && (live.len() == 400 || numbers.below(2) == 0) {
            let number = live.remove(numbers.below(live.len() as u64) as usize);
            ledger.remove_loan(number).unwrap();
            assert_eq!(ledger.remove_loan(number), Err(EngineError::Nix(NixError::InvalidFreeList)));
        } else {
            let loan = ActiveLoan::new_empty(true, 1, 2, false, q(next), q(4), 5, 6, 7);
            ledger.add_loan(loan).unwrap();
            live.push(next);
            next += 1;
        }
        assert_eq!(ledger.fixed.num_active_loans as usize, live.len());
        assert_eq!(ledger.fixed.loan_sequence_number, next);
    }
    let mut found: Vec<u64> = (0..400u32)
        .filter_map(|slot| ledger.get_loan(slot * 96))
        .map(|loan| {
            assert_eq!(loan.collateral_shares, q(loan.sequence_number));
            loan.sequence_number
        })
        .collect();
    found.sort();
    live.sort();
    assert_eq!(found, live);
}

/// The balances and the volumes of the seat at `index`.
fn seat_numbers(market: &MarketValue, index: u32) -> [i128; 4] {
    match market.get_slot(index) {
        Some(MarketSlot::Seat(s)) => [
            s.base_a_withdrawable_asset_share.value,
            s.base_b_withdrawable_asset_share.value,
            s.base_a_volume.value,
            s.base_b_volume.value,
        ],
        _ => panic!("no seat"),
    }
}

#[test]
fn an_unfilled_ask_is_cancelled_without_trace() {
    let mut market = market_with(8);
    market.claim_seat(&key(20)).unwrap();
    market.claim_seat(&key(21)).unwrap();
    let maker = market.get_trader_index(&key(20));
    let other = market.get_trader_index(&key(21));
    for t in [maker, other] {
        market.deposit(t, q(1_000_000), true).unwrap();
        market.deposit(t, q(1_000_000), false).unwrap();
    }
    let mut ledger = MarketLoansValue::new(MarketLoansFixed::new_empty(key(42)));
    // A bid that expires, and a bid too cheap for the ask.
    let mut expiring = order(other, 1_000, 30, true, OrderType::Limit);
    expiring.last_valid_slot = 150;
    market.place_order(expiring, &mut None, &None).unwrap();
    market.place_order(order(other, 1_000, 5, true, OrderType::Limit), &mut None, &None).unwrap();
    let evicted = market.fixed.base_a_bids_best_index;
    let before = seat_numbers(&market, maker);
    let mut ask = order(maker, 500, 10, false, OrderType::Limit);
    ask.now_slot = 200;
    let placed = market.place_order(ask, &mut None, &None).unwrap();
    assert_eq!(placed.base_atoms_traded, 0);
    assert_eq!(placed.matched_loans.len(), 1);
    assert_eq!(placed.matched_loans[0].borrower_index, other);
    assert_ne!(placed.order_index, NIL);
    assert!(placed.effects.iter().all(|e| !matches!(e, Effect::Fill(_))));
    assert_ne!(market.fixed.base_a_bids_best_index, evicted);
    assert_ne!(market.fixed.base_a_bids_best_index, NIL);
    // The ask took the slot that the evicted bid left.
    assert_eq!(placed.order_index, evicted);
    assert_ne!(seat_numbers(&market, maker), before);
    let mut effects = Vec::new();
    market
        .cancel_order(true, maker, placed.order_sequence_number, &None, &mut ledger, 0, 200, &mut effects)
        .unwrap();
    assert_eq!(seat_numbers(&market, maker), before);
    assert_eq!(ledger.fixed.num_active_loans, 0);
    assert_eq!(market.fixed.base_a_asks_best_index, NIL);
}
