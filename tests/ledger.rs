use stake_chain::block::{compute_hash, Block};
use stake_chain::chain::{BlockchainError, Chain};
use stake_chain::table::{compare_ids, StakeTable};
use std::cmp::Ordering;

fn s(x: &str) -> String {
    String::from(x)
}

fn two_validator_chain() -> Chain {
    let mut c = Chain::new();
    assert!(c.push_genesis(s("Genesis"), "0".repeat(64)));
    c.set_stake(s("A"), 100000);
    c.set_stake(s("B"), 50000);
    c
}

#[test]
fn hash_of_known_message() {
    // SHA-256 of the ASCII text "0".
    let h = compute_hash(&s(""), 0, &s(""), &s(""));
    assert_eq!(h, "5feceb66ffc86f38d952786c6d696c79c2dbc239dd4e91b46729d73a27fb57e9");
}

#[test]
fn hash_concatenates_fields_in_order() {
    let whole = compute_hash(&s("ab"), -12, &s("cd"), &s("ef"));
    let shifted = compute_hash(&s("a"), -12, &s("bcd"), &s("ef"));
    let other = compute_hash(&s("ab"), 12, &s("cd"), &s("ef"));
    assert_eq!(whole.len(), 64);
    assert_ne!(whole, shifted);
    assert_ne!(whole, other);
    assert!(whole.chars().all(|c| c.is_ascii_hexdigit() && !c.is_ascii_uppercase()));
}

#[test]
fn hash_is_deterministic() {
    let a = Block::with_timestamp(s("payload"), 1700000000123, s("parent"), s("V1"));
    let b = Block::with_timestamp(s("payload"), 1700000000123, s("parent"), s("V1"));
    assert_eq!(a.block_hash(), b.block_hash());
    let c = Block::with_timestamp(s("payload"), 1700000000124, s("parent"), s("V1"));
    assert_ne!(a.block_hash(), c.block_hash());
    assert_eq!(
        a.block_hash(),
        &compute_hash(&s("payload"), 1700000000123, &s("parent"), &s("V1"))
    );
}

#[test]
fn block_keeps_its_fields() {
    let b = Block::new(s("data"), s("p"), s("v"));
    assert_eq!(b.data(), "data");
    assert_eq!(b.parent_block_hash(), "p");
    assert_eq!(b.validator_address(), "v");
    assert_eq!(
        b.block_hash(),
        &compute_hash(&s("data"), b.timestamp(), &s("p"), &s("v"))
    );
}

#[test]
fn blank_hash_is_sixty_four_zeros() {
    assert_eq!(Block::blank_hash(), "0".repeat(64));
}

#[test]
fn unknown_validator_is_rejected_without_change() {
    let mut c = two_validator_chain();
    c.suggest_block(s("a"), s("A")).unwrap();
    let r = c.suggest_block(s("x"), s("unregistered-id"));
    assert_eq!(r, Err(BlockchainError::UnknownValidator));
    assert_eq!(c.blocks().len(), 1);
    assert_eq!(c.candidates().len(), 1);
    assert_eq!(c.round_weights().len(), 1);
    assert_eq!(c.candidates()[0].data(), "a");
}

#[test]
fn error_message() {
    assert_eq!(
        BlockchainError::UnknownValidator.message(),
        "could not suggest block, address has no stake"
    );
}

#[test]
fn candidate_links_to_tip_and_copies_weight() {
    let mut c = two_validator_chain();
    c.suggest_block(s("a1"), s("A")).unwrap();
    c.set_stake(s("A"), 7);
    c.suggest_block(s("a2"), s("A")).unwrap();
    assert_eq!(c.candidates().len(), 2);
    let tip = c.blocks()[0].block_hash().clone();
    assert_eq!(c.candidates()[0].parent_block_hash(), &tip);
    assert_eq!(c.candidates()[1].parent_block_hash(), &tip);
    assert_eq!(c.round_weights().len(), 1);
    assert_eq!(c.round_weights().get(&s("A")), Some(7));
    assert_eq!(c.round_weights().get(&s("B")), None);
}

#[test]
fn first_proposal_on_empty_chain_links_to_zero_hash() {
    let mut c = Chain::new();
    c.set_stake(s("A"), 5);
    c.suggest_block(s("a"), s("A")).unwrap();
    assert_eq!(c.candidates()[0].parent_block_hash(), &"0".repeat(64));
    c.select_winner();
    assert_eq!(c.blocks().len(), 1);
    assert_eq!(c.blocks()[0].data(), "a");
}

#[test]
fn concrete_two_validator_round() {
    let mut c = two_validator_chain();
    assert_eq!(c.blocks()[0].parent_block_hash(), &"0".repeat(64));
    assert_eq!(c.suggest_block(s("Wallet A"), s("A")), Ok(()));
    assert_eq!(c.suggest_block(s("Wallet B"), s("B")), Ok(()));
    c.select_winner();
    assert_eq!(c.blocks().len(), 2);
    let appended = &c.blocks()[1];
    assert!(appended.data() == "Wallet A" || appended.data() == "Wallet B");
    assert_eq!(appended.parent_block_hash(), c.blocks()[0].block_hash());
    assert!(c.candidates().is_empty());
    assert!(c.round_weights().is_empty());
}

#[test]
fn ticket_ranges_start_inclusive_end_exclusive() {
    let cases: [(u128, &str); 5] = [
        (0, "Wallet A"),
        (1, "Wallet A"),
        (99999, "Wallet A"),
        (100000, "Wallet B"),
        (149999, "Wallet B"),
    ];
    for (ticket, expected) in cases {
        let mut c = two_validator_chain();
        c.suggest_block(s("Wallet B"), s("B")).unwrap();
        c.suggest_block(s("Wallet A"), s("A")).unwrap();
        c.close_round_with_ticket(ticket);
        assert_eq!(c.blocks().len(), 2, "ticket {}", ticket);
        assert_eq!(c.blocks()[1].data(), expected, "ticket {}", ticket);
    }
}

#[test]
fn ticket_past_total_appends_nothing() {
    let mut c = two_validator_chain();
    c.suggest_block(s("Wallet A"), s("A")).unwrap();
    c.close_round_with_ticket(150000);
    assert_eq!(c.blocks().len(), 1);
    assert!(c.candidates().is_empty());
    assert!(c.round_weights().is_empty());
}

#[test]
fn first_candidate_of_winner_is_committed() {
    let mut c = two_validator_chain();
    c.suggest_block(s("A first"), s("A")).unwrap();
    c.suggest_block(s("B only"), s("B")).unwrap();
    c.suggest_block(s("A second"), s("A")).unwrap();
    c.close_round_with_ticket(5);
    assert_eq!(c.blocks()[1].data(), "A first");
}

#[test]
fn round_is_cleared_after_close() {
    let mut c = two_validator_chain();
    for i in 0..5 {
        c.suggest_block(format!("a{}", i), s("A")).unwrap();
        c.suggest_block(format!("b{}", i), s("B")).unwrap();
    }
    assert_eq!(c.candidates().len(), 10);
    c.select_winner();
    assert!(c.candidates().is_empty());
    assert!(c.round_weights().is_empty());
    assert_eq!(c.blocks().len(), 2);
    assert_eq!(c.get_stake(&s("A")), Some(100000));
}

#[test]
fn empty_round_closes_without_change() {
    let mut c = two_validator_chain();
    c.select_winner();
    assert_eq!(c.blocks().len(), 1);
    assert!(c.candidates().is_empty());
}

#[test]
fn weightless_round_appends_nothing() {
    let mut c = Chain::new();
    c.set_stake(s("Z"), 0);
    assert_eq!(c.suggest_block(s("z"), s("Z")), Ok(()));
    c.select_winner();
    assert!(c.blocks().is_empty());
    assert!(c.candidates().is_empty());
    assert!(c.round_weights().is_empty());
}

#[test]
fn chain_stays_linked_over_rounds() {
    let mut c = two_validator_chain();
    for round in 0..6 {
        c.suggest_block(format!("A{}", round), s("A")).unwrap();
        c.suggest_block(format!("B{}", round), s("B")).unwrap();
        c.select_winner();
    }
    assert_eq!(c.blocks().len(), 7);
    for i in 1..c.blocks().len() {
        assert_eq!(c.blocks()[i].parent_block_hash(), c.blocks()[i - 1].block_hash());
    }
}

#[test]
fn weighted_selection_frequency() {
    let trials = 20000;
    let mut wins_a = 0;
    for _ in 0..trials {
        let mut c = two_validator_chain();
        c.suggest_block(s("Wallet A"), s("A")).unwrap();
        c.suggest_block(s("Wallet B"), s("B")).unwrap();
        c.select_winner();
        assert_eq!(c.blocks().len(), 2);
        if c.blocks()[1].data() == "Wallet A" {
            wins_a += 1;
        }
    }
    let share = wins_a as f64 / trials as f64;
    assert!((share - 2.0 / 3.0).abs() < 0.02, "share of A: {}", share);
}

#[test]
fn tickets_owned_match_weights() {
    let mut t = StakeTable::new();
    t.set(s("A"), 100000);
    t.set(s("B"), 50000);
    assert_eq!(t.total(), 150000);
    let mut owned = [0u64; 2];
    for ticket in 0..150000u128 {
        let i = t.owner_of(ticket).unwrap();
        owned[i] += 1;
    }
    assert_eq!(owned, [100000, 50000]);
    assert_eq!(t.owner_of(150000), None);
}

#[test]
fn table_keeps_identities_sorted_and_unique() {
    let mut t = StakeTable::new();
    t.set(s("carol"), 3);
    t.set(s("alice"), 1);
    t.set(s("bob"), 2);
    t.set(s("alice"), 10);
    assert_eq!(t.len(), 3);
    assert_eq!(t.key(0), "alice");
    assert_eq!(t.key(1), "bob");
    assert_eq!(t.key(2), "carol");
    assert_eq!(t.weight(0), 10);
    assert_eq!(t.get(&s("bob")), Some(2));
    assert_eq!(t.get(&s("dave")), None);
    t.clear();
    assert!(t.is_empty());
}

#[test]
fn total_of_large_weights() {
    let mut t = StakeTable::new();
    t.set(s("x"), u32::MAX);
    t.set(s("y"), u32::MAX);
    assert_eq!(t.total(), 2 * u32::MAX as u128);
}

#[test]
fn identity_order() {
    assert_eq!(compare_ids(&s("a"), &s("b")), Ordering::Less);
    assert_eq!(compare_ids(&s("ab"), &s("a")), Ordering::Greater);
    assert_eq!(compare_ids(&s(""), &s("a")), Ordering::Less);
    assert_eq!(compare_ids(&s("abc"), &s("abc")), Ordering::Equal);
    assert_eq!(compare_ids(&s("Z"), &s("a")), Ordering::Less);
    assert_eq!(compare_ids(&s("é"), &s("z")), Ordering::Greater);
}

#[test]
fn stake_registry_upserts() {
    let mut c = Chain::new();
    assert_eq!(c.get_stake(&s("A")), None);
    c.set_stake(s("A"), 4);
    c.set_stake(s("A"), 9);
    assert_eq!(c.get_stake(&s("A")), Some(9));
    assert_eq!(c.stakes().len(), 1);
}

#[test]
fn genesis_only_on_empty_ledger() {
    let mut c = Chain::new();
    assert!(c.push_genesis(s("Genesis"), s("g")));
    assert_eq!(c.blocks()[0].parent_block_hash(), &Block::blank_hash());
    assert!(!c.push_genesis(s("Again"), s("g")));
    assert_eq!(c.blocks().len(), 1);
}
