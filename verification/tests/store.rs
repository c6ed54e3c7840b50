use zord::db::{changed_balance, shifted, Db};
use zord::ledger::{Change, DbError};
use zord::records::{
    Balance, InscriptionMeta, NameRecord, TokenInfo, TransferIntent, Zrc721Collection,
};
use zord::reports::TickSums;

fn token(tick: &str, supply: u128) -> TokenInfo {
    TokenInfo {
        tick: tick.to_string(),
        max: "1000".to_string(),
        lim: "1000".to_string(),
        dec: "0".to_string(),
        deployer: "t1A".to_string(),
        supply,
        inscription_id: format!("{}-deploy", tick),
    }
}

fn meta(id: &str, sender: &str) -> InscriptionMeta {
    InscriptionMeta {
        id: id.to_string(),
        content: "c".to_string(),
        content_hex: "63".to_string(),
        content_type: "text/plain".to_string(),
        txid: id.to_string(),
        vout: 0,
        sender: sender.to_string(),
        receiver: sender.to_string(),
        block_height: 1,
        block_time: 2,
    }
}

fn name(n: &str, owner: &str) -> NameRecord {
    NameRecord {
        name: n.to_string(),
        name_lower: n.to_lowercase(),
        owner: owner.to_string(),
        inscription_id: format!("{}-id", n),
    }
}

#[test]
fn mint_credit_raises_supply_and_balance_together() {
    let mut db = Db::new();
    db.deploy_token("zord", token("zord", 0)).unwrap();
    assert_eq!(db.mint_credit_atomic("zord", "t1A", 7), Ok(()));
    assert_eq!(db.mint_credit_atomic("zord", "t1A", 5), Ok(()));
    assert_eq!(db.get_token_info("zord").unwrap().supply, 12);
    assert_eq!(db.get_balance("t1A", "zord"), Balance { available: 12, overall: 12 });
    assert_eq!(db.get_balance("t1A", "other"), Balance { available: 0, overall: 0 });
}

#[test]
fn mint_credit_fails_without_changing_anything() {
    let mut db = Db::new();
    assert_eq!(db.mint_credit_atomic("zord", "t1A", 7), Err(DbError::TokenNotFound));
    db.deploy_token("zord", token("zord", u128::MAX - 1)).unwrap();
    assert_eq!(db.mint_credit_atomic("zord", "t1A", 2), Err(DbError::SupplyOverflow));
    assert_eq!(db.get_token_info("zord").unwrap().supply, u128::MAX - 1);
    assert_eq!(db.get_balance("t1A", "zord"), Balance { available: 0, overall: 0 });
    db.deploy_token("full", token("full", 0)).unwrap();
    db.update_balance("t1A", "full", 0, i128::MAX).unwrap();
    db.mint_credit_atomic("full", "t1A", 1u128 << 127).unwrap();
    assert_eq!(db.get_balance("t1A", "full").overall, u128::MAX);
    assert_eq!(db.mint_credit_atomic("full", "t1A", 2), Err(DbError::OverallOverflow));
    assert_eq!(db.get_token_info("full").unwrap().supply, 1u128 << 127);
    db.deploy_token("lock", token("lock", 0)).unwrap();
    db.update_balance("t1A", "lock", i128::MAX, 0).unwrap();
    db.mint_credit_atomic("lock", "t1A", 1u128 << 127).unwrap();
    assert_eq!(db.mint_credit_atomic("lock", "t1A", 1), Err(DbError::AvailableOverflow));
}

#[test]
fn deploy_of_an_existing_ticker_fails() {
    let mut db = Db::new();
    assert_eq!(db.deploy_token("zord", token("zord", 0)), Ok(()));
    assert_eq!(db.deploy_token("zord", token("zord", 9)), Err(DbError::TokenExists));
    assert_eq!(db.get_token_info("zord").unwrap().supply, 0);
    assert_eq!(db.get_token_count(), 1);
    assert!(db.get_token_info("ZORD").is_none());
}

#[test]
fn supply_of_a_token_can_be_set() {
    let mut db = Db::new();
    assert_eq!(db.update_token_supply("zord", 5), Err(DbError::TokenNotFound));
    db.deploy_token("zord", token("zord", 0)).unwrap();
    assert_eq!(db.update_token_supply("zord", 5), Ok(()));
    let info = db.get_token_info("zord").unwrap();
    assert_eq!(info.supply, 5);
    assert_eq!(info.max, "1000");
    assert_eq!(info.deployer, "t1A");
}

#[test]
fn balance_changes_are_signed() {
    let mut db = Db::new();
    assert_eq!(db.update_balance("a", "zord", 10, 10), Ok(()));
    assert_eq!(db.update_balance("a", "zord", -4, 0), Ok(()));
    assert_eq!(db.get_balance("a", "zord"), Balance { available: 6, overall: 10 });
    assert_eq!(db.update_balance("a", "zord", -7, 0), Err(DbError::InsufficientAvailable));
    assert_eq!(db.update_balance("a", "zord", 0, -11), Err(DbError::InsufficientOverall));
    assert_eq!(db.update_balance("a", "zord", -7, -11), Err(DbError::InsufficientAvailable));
    assert_eq!(db.get_balance("a", "zord"), Balance { available: 6, overall: 10 });
    assert_eq!(db.update_balance("a", "zord", -6, -10), Ok(()));
    assert_eq!(db.get_balance("a", "zord"), Balance { available: 0, overall: 0 });
}

#[test]
fn balances_use_the_whole_range_of_128_bits() {
    let mut db = Db::new();
    assert_eq!(db.update_balance("a", "zord", 0, i128::MAX), Ok(()));
    assert_eq!(db.update_balance("a", "zord", 0, 1), Ok(()));
    assert_eq!(db.get_balance("a", "zord"), Balance { available: 0, overall: 1u128 << 127 });
    assert_eq!(db.update_balance("a", "zord", 0, -1), Ok(()));
    assert_eq!(db.get_balance("a", "zord"), Balance { available: 0, overall: (1u128 << 127) - 1 });
    assert_eq!(db.update_balance("a", "zord", i128::MAX, i128::MAX), Ok(()));
    assert_eq!(
        db.get_balance("a", "zord"),
        Balance { available: (1u128 << 127) - 1, overall: u128::MAX - 1 }
    );
    assert_eq!(db.update_balance("a", "zord", 0, 2), Err(DbError::OverallOverflow));
    assert_eq!(db.update_balance("a", "zord", 0, 1), Ok(()));
    assert_eq!(db.update_balance("a", "zord", i128::MAX, 0), Ok(()));
    assert_eq!(db.update_balance("a", "zord", 2, 0), Err(DbError::AvailableOverflow));
    assert_eq!(db.update_balance("a", "zord", 2, 1), Err(DbError::AvailableOverflow));
    assert_eq!(db.update_balance("a", "zord", 1, 1), Err(DbError::OverallOverflow));
    assert_eq!(db.update_balance("a", "zord", 1, 0), Ok(()));
    assert_eq!(db.get_balance("a", "zord"), Balance { available: u128::MAX, overall: u128::MAX });
    assert_eq!(db.update_balance("a", "zord", i128::MIN, i128::MIN), Ok(()));
    assert_eq!(
        db.get_balance("a", "zord"),
        Balance { available: (1u128 << 127) - 1, overall: (1u128 << 127) - 1 }
    );
    assert_eq!(db.update_balance("a", "zord", i128::MIN, 0), Err(DbError::InsufficientAvailable));
    assert_eq!(db.update_balance("a", "zord", 0, i128::MIN), Err(DbError::InsufficientOverall));
}

#[test]
fn balances_are_raised_and_lowered_by_unsigned_amounts() {
    let mut db = Db::new();
    assert_eq!(
        db.change_balance("a", "zord", Change::Raise(u128::MAX), Change::Raise(u128::MAX)),
        Ok(())
    );
    assert_eq!(
        db.change_balance("a", "zord", Change::Raise(1), Change::Keep),
        Err(DbError::AvailableOverflow)
    );
    assert_eq!(
        db.change_balance("a", "zord", Change::Keep, Change::Raise(1)),
        Err(DbError::OverallOverflow)
    );
    assert_eq!(db.change_balance("a", "zord", Change::Lower(u128::MAX), Change::Keep), Ok(()));
    assert_eq!(db.get_balance("a", "zord"), Balance { available: 0, overall: u128::MAX });
    assert_eq!(
        db.change_balance("a", "zord", Change::Lower(1), Change::Lower(1)),
        Err(DbError::InsufficientAvailable)
    );
    assert_eq!(db.change_balance("a", "zord", Change::Keep, Change::Lower(u128::MAX)), Ok(()));
    assert_eq!(
        db.change_balance("a", "zord", Change::Keep, Change::Lower(1)),
        Err(DbError::InsufficientOverall)
    );
    assert_eq!(db.get_balance("a", "zord"), Balance { available: 0, overall: 0 });
    assert_eq!(
        changed_balance(Balance { available: 3, overall: 4 }, Change::Lower(3), Change::Raise(2)),
        Ok(Balance { available: 0, overall: 6 })
    );
}

#[test]
fn balance_after_signed_changes() {
    let b = Balance { available: 5, overall: 9 };
    assert_eq!(shifted(b, 1, -2), Ok(Balance { available: 6, overall: 7 }));
    assert_eq!(shifted(b, -6, 0), Err(DbError::InsufficientAvailable));
    assert_eq!(shifted(b, 0, -10), Err(DbError::InsufficientOverall));
    assert_eq!(shifted(b, -6, -10), Err(DbError::InsufficientAvailable));
    assert_eq!(shifted(b, i128::MAX - 4, 0), Ok(Balance { available: 1u128 << 127, overall: 9 }));
    let huge = Balance { available: 0, overall: 1u128 << 127 };
    assert_eq!(shifted(huge, 0, -1), Ok(Balance { available: 0, overall: (1u128 << 127) - 1 }));
    let full = Balance { available: u128::MAX, overall: u128::MAX };
    assert_eq!(shifted(full, 1, 0), Err(DbError::AvailableOverflow));
    assert_eq!(shifted(full, 0, 1), Err(DbError::OverallOverflow));
    assert_eq!(shifted(full, 1, 1), Err(DbError::AvailableOverflow));
    assert_eq!(
        shifted(full, i128::MIN, -1),
        Ok(Balance { available: (1u128 << 127) - 1, overall: u128::MAX - 1 })
    );
    assert_eq!(shifted(Balance { available: 0, overall: 0 }, i128::MIN, 0), Err(DbError::InsufficientAvailable));
}

#[test]
fn status_values() {
    let mut db = Db::new();
    assert_eq!(db.get_status("chain_tip"), None);
    db.set_status("chain_tip", 5);
    db.set_status("chain_tip", 9);
    db.set_status("other", 1);
    assert_eq!(db.get_status("chain_tip"), Some(9));
    assert_eq!(db.get_status("other"), Some(1));
}

#[test]
fn blocks_and_latest_height() {
    let mut db = Db::new();
    assert_eq!(db.get_latest_indexed_height(), None);
    db.insert_block(10, "h10");
    db.insert_block(12, "h12");
    db.insert_block(11, "h11");
    assert_eq!(db.get_latest_indexed_height(), Some(12));
    assert_eq!(db.get_status("core_height"), Some(11));
}

#[test]
fn inscriptions_are_numbered_and_listed_by_sender() {
    let mut db = Db::new();
    db.insert_inscription("a", meta("a", "t1A"));
    db.insert_inscription("b", meta("b", "t1B"));
    db.insert_inscription("c", meta("c", "t1A"));
    assert_eq!(db.get_inscription_count(), 3);
    assert_eq!(db.get_inscription_by_number(1), Some("a".to_string()));
    assert_eq!(db.get_inscription_by_number(3), Some("c".to_string()));
    assert_eq!(db.get_inscription_by_number(4), None);
    assert_eq!(db.get_inscriptions_by_address("t1A"), vec!["a".to_string(), "c".to_string()]);
    assert_eq!(db.get_inscriptions_by_address("t1Z"), Vec::<String>::new());
    assert_eq!(db.get_inscription("b").unwrap().sender, "t1B");
    assert!(db.get_inscription("z").is_none());
}

#[test]
fn pages_are_newest_first() {
    let mut db = Db::new();
    for id in ["a", "b", "c", "d", "e"] {
        db.insert_inscription(id, meta(id, "t1A"));
    }
    let ids = |page: Vec<(String, InscriptionMeta)>| -> Vec<String> {
        page.into_iter().map(|(k, _)| k).collect()
    };
    assert_eq!(ids(db.get_inscriptions_page(0, 2)), vec!["e", "d"]);
    assert_eq!(ids(db.get_inscriptions_page(1, 2)), vec!["c", "b"]);
    assert_eq!(ids(db.get_inscriptions_page(2, 2)), vec!["a"]);
    assert_eq!(ids(db.get_inscriptions_page(3, 2)), Vec::<String>::new());
    assert_eq!(ids(db.get_inscriptions_page(0, 0)), Vec::<String>::new());
    assert_eq!(ids(db.get_inscriptions_page(usize::MAX, usize::MAX)), Vec::<String>::new());
    assert_eq!(ids(db.get_inscriptions_page(0, usize::MAX)), vec!["e", "d", "c", "b", "a"]);
}

#[test]
fn token_and_name_pages_and_lists() {
    let mut db = Db::new();
    for t in ["aaaa", "bbbb", "cccc"] {
        db.deploy_token(t, token(t, 0)).unwrap();
    }
    for n in ["x.zec", "y.zec"] {
        db.register_name(n, name(n, "t1A")).unwrap();
    }
    let keys = |rows: Vec<(String, TokenInfo)>| -> Vec<String> { rows.into_iter().map(|(k, _)| k).collect() };
    assert_eq!(keys(db.get_tokens_page(0, 2)), vec!["cccc", "bbbb"]);
    assert_eq!(keys(db.get_tokens_page(1, 2)), vec!["aaaa"]);
    assert_eq!(keys(db.get_all_tokens()), vec!["aaaa", "bbbb", "cccc"]);
    let names: Vec<String> = db.get_names_page(0, 10).into_iter().map(|(k, _)| k).collect();
    assert_eq!(names, vec!["y.zec", "x.zec"]);
    let all: Vec<String> = db.get_all_names().into_iter().map(|(k, _)| k).collect();
    assert_eq!(all, vec!["x.zec", "y.zec"]);
    assert_eq!(db.register_name("x.zec", name("x.zec", "t1B")), Err(DbError::NameTaken));
    assert_eq!(db.get_name("x.zec").unwrap().owner, "t1A");
}

#[test]
fn search_ignores_case_and_stops_at_the_limit() {
    let mut db = Db::new();
    for t in ["zord", "ford", "cats", "lord"] {
        db.deploy_token(t, token(t, 0)).unwrap();
    }
    let keys = |rows: Vec<(String, TokenInfo)>| -> Vec<String> { rows.into_iter().map(|(k, _)| k).collect() };
    assert_eq!(keys(db.search_tokens("ORD", 10)), vec!["zord", "ford", "lord"]);
    assert_eq!(keys(db.search_tokens("ord", 2)), vec!["zord", "ford"]);
    assert_eq!(keys(db.search_tokens("ord", 0)), vec!["zord"]);
    assert_eq!(keys(db.search_tokens("dog", 10)), Vec::<String>::new());
    assert_eq!(keys(db.search_tokens("", 10)), vec!["zord", "ford", "cats", "lord"]);
    db.register_name("alice.zec", name("Alice.zec", "t1A")).unwrap();
    db.register_name("bob.zcash", name("bob.zcash", "t1A")).unwrap();
    let names: Vec<String> = db.search_names("LIC", 5).into_iter().map(|(k, _)| k).collect();
    assert_eq!(names, vec!["alice.zec"]);
}

#[test]
fn holders_are_ranked_by_what_they_hold() {
    let mut db = Db::new();
    db.update_balance("a", "zord", 1, 5).unwrap();
    db.update_balance("b", "zord", 9, 9).unwrap();
    db.update_balance("c", "zord", 0, 5).unwrap();
    db.update_balance("d", "zord", 0, 0).unwrap();
    db.update_balance("e", "zord", 7, 7).unwrap();
    db.update_balance("a", "cats", 100, 100).unwrap();
    let (rows, total) = db.list_balances_for_tick("ZORD", 0, 10);
    let names: Vec<&str> = rows.iter().map(|(a, _)| a.as_str()).collect();
    assert_eq!(names, vec!["b", "e", "a", "c", "d"]);
    assert_eq!(rows[2].1, Balance { available: 1, overall: 5 });
    assert_eq!(total, 5);
    let (page, total) = db.list_balances_for_tick("zord", 1, 2);
    let names: Vec<&str> = page.iter().map(|(a, _)| a.as_str()).collect();
    assert_eq!(names, vec!["a", "c"]);
    assert_eq!(total, 5);
    let (none, total) = db.list_balances_for_tick("none", 0, 10);
    assert!(none.is_empty());
    assert_eq!(total, 0);
    assert_eq!(db.rank_for_address_in_tick("zord", "b"), (1, 4));
    assert_eq!(db.rank_for_address_in_tick("zord", "e"), (2, 4));
    assert_eq!(db.rank_for_address_in_tick("zord", "a"), (3, 4));
    assert_eq!(db.rank_for_address_in_tick("ZORD", "c"), (4, 4));
    assert_eq!(db.rank_for_address_in_tick("zord", "d"), (0, 4));
    assert_eq!(db.rank_for_address_in_tick("zord", "nobody"), (0, 4));
    assert_eq!(db.rank_for_address_in_tick("none", "a"), (0, 0));
    let mine = db.list_balances_for_address("a");
    let ticks: Vec<&str> = mine.iter().map(|(t, _)| t.as_str()).collect();
    assert_eq!(ticks, vec!["cats", "zord"]);
}

#[test]
fn sums_over_the_holders_of_a_token() {
    let mut db = Db::new();
    db.update_balance("a", "zord", 1, 5).unwrap();
    db.update_balance("b", "zord", 9, 9).unwrap();
    db.update_balance("d", "zord", 0, 0).unwrap();
    db.update_balance("a", "cats", 100, 100).unwrap();
    assert_eq!(
        db.sum_balances_for_tick("Zord"),
        Ok(TickSums { overall: 14, available: 10, holders: 3, holders_positive: 2 })
    );
    assert_eq!(
        db.sum_balances_for_tick("none"),
        Ok(TickSums { overall: 0, available: 0, holders: 0, holders_positive: 0 })
    );
    db.deploy_token("big", token("big", 0)).unwrap();
    db.mint_credit_atomic("big", "a", u128::MAX).unwrap();
    db.update_token_supply("big", 0).unwrap();
    db.mint_credit_atomic("big", "b", 1).unwrap();
    assert_eq!(db.sum_balances_for_tick("big"), Err(DbError::SumOverflow));
    assert!(db.token_integrity("big").is_none());
    assert!(db.token_integrity("none").is_none());
}

#[test]
fn integrity_report_notices_a_supply_that_does_not_match() {
    let mut db = Db::new();
    db.deploy_token("zord", token("zord", 0)).unwrap();
    db.mint_credit_atomic("zord", "a", 10).unwrap();
    assert!(db.token_integrity("zord").unwrap().consistent);
    db.update_token_supply("zord", 11).unwrap();
    let report = db.token_integrity("ZORD").unwrap();
    assert!(!report.consistent);
    assert_eq!(report.supply, 11);
    assert_eq!(report.sum_overall, 10);
    assert_eq!(report.sum_available, 10);
}

#[test]
fn transfer_intents_and_outpoints() {
    let mut db = Db::new();
    let intent = || TransferIntent { tick: "zord".to_string(), amt: 5, sender: "a".to_string() };
    db.create_transfer_inscription("i1", intent());
    db.create_transfer_inscription("i2", intent());
    assert!(!db.is_inscription_used("i1"));
    assert!(!db.is_inscription_used("unknown"));
    db.register_transfer_outpoint("tx", 1, "i1");
    db.register_transfer_outpoint("tx", 2, "i2");
    db.register_transfer_outpoint("ty", 1, "i1");
    assert_eq!(db.get_transfer_by_outpoint("tx", 1), Some("i1".to_string()));
    assert_eq!(db.get_transfer_by_outpoint("tx", 3), None);
    assert_eq!(db.find_outpoint_by_transfer_id("i1"), Some(("tx".to_string(), 1)));
    assert_eq!(db.find_outpoint_by_transfer_id("i2"), Some(("tx".to_string(), 2)));
    assert_eq!(db.find_outpoint_by_transfer_id("i3"), None);
    db.remove_transfer_outpoint("tx", 1);
    db.remove_transfer_outpoint("nothing", 0);
    assert_eq!(db.get_transfer_by_outpoint("tx", 1), None);
    assert_eq!(db.find_outpoint_by_transfer_id("i1"), Some(("ty".to_string(), 1)));
    assert_eq!(db.count_completed_transfers_for_tick("zord"), 0);
    db.mark_inscription_used("i1");
    db.mark_inscription_used("not-a-transfer");
    assert!(db.is_inscription_used("i1"));
    assert_eq!(db.count_completed_transfers_for_tick("ZORD"), 1);
    assert_eq!(db.count_completed_transfers_for_tick("cats"), 0);
    assert_eq!(db.get_transfer_inscription("i2").unwrap().amt, 5);
    assert!(db.get_transfer_inscription("i9").is_none());
}

#[test]
fn collections_tokens_and_outpoints() {
    let mut db = Db::new();
    let cats = || Zrc721Collection {
        collection: "cats".to_string(),
        supply: "2".to_string(),
        meta: "null".to_string(),
        royalty: String::new(),
        minted: 0,
        deployer: "a".to_string(),
        inscription_id: "d".to_string(),
    };
    assert_eq!(db.register_zrc721_collection("cats", cats()), Ok(()));
    assert_eq!(db.register_zrc721_collection("cats", cats()), Err(DbError::CollectionExists));
    assert_eq!(db.insert_zrc721_token("dogs", "0", "a", "i", "{}"), Err(DbError::CollectionNotFound));
    assert_eq!(db.insert_zrc721_token("cats", "x", "a", "i", "{}"), Err(DbError::TokenIdOutOfRange));
    assert_eq!(db.insert_zrc721_token("cats", "2", "a", "i", "{}"), Err(DbError::TokenIdOutOfRange));
    assert_eq!(db.insert_zrc721_token("cats", "1", "a", "i1", "{}"), Ok(()));
    assert_eq!(db.insert_zrc721_token("cats", "1", "b", "i2", "{}"), Err(DbError::TokenAlreadyMinted));
    assert_eq!(db.insert_zrc721_token("cats", "0", "b", "i3", "{\"k\":1}"), Ok(()));
    assert_eq!(db.insert_zrc721_token("cats", "00", "b", "i4", "{}"), Err(DbError::MaxTokenCountReached));
    assert_eq!(db.get_zrc721_collection("cats").unwrap().minted, 2);
    assert_eq!(db.zrc721_counts(), (1, 2));
    assert_eq!(db.update_zrc721_owner("cats", "7", "c", false), Err(DbError::NftNotFound));
    assert_eq!(db.update_zrc721_owner("cats", "1", "c", false), Ok(()));
    assert_eq!(db.get_zrc721_token("cats", "1").unwrap().owner, "c");
    db.register_zrc721_outpoint("tx", 0, "cats", "1");
    db.move_zrc721_outpoint("tx", 0, "ty", 3);
    db.move_zrc721_outpoint("unknown", 0, "tz", 1);
    assert_eq!(db.zrc721_by_outpoint("tx", 0), None);
    assert_eq!(db.zrc721_by_outpoint("tz", 1), None);
    assert_eq!(db.zrc721_by_outpoint("ty", 3), Some(("cats".to_string(), "1".to_string())));
    db.remove_zrc721_outpoint("ty", 3);
    assert_eq!(db.zrc721_by_outpoint("ty", 3), None);
    let listed: Vec<String> =
        db.list_zrc721_collections(0, 10).into_iter().map(|(k, _)| k).collect();
    assert_eq!(listed, vec!["cats"]);
}

#[test]
fn tokens_are_listed_in_the_order_of_their_ids() {
    let mut db = Db::new();
    for tick in ["cats", "ants"] {
        db.register_zrc721_collection(
            tick,
            Zrc721Collection {
                collection: tick.to_string(),
                supply: "100".to_string(),
                meta: "null".to_string(),
                royalty: String::new(),
                minted: 0,
                deployer: "a".to_string(),
                inscription_id: "d".to_string(),
            },
        )
        .unwrap();
    }
    for (tick, id, owner) in [
        ("cats", "2", "a"),
        ("cats", "10", "b"),
        ("ants", "5", "a"),
        ("cats", "1", "a"),
        ("ants", "3", "b"),
    ] {
        db.insert_zrc721_token(tick, id, owner, "i", "{}").unwrap();
    }
    let ids = |rows: Vec<zord::records::Zrc721Token>| -> Vec<String> {
        rows.into_iter().map(|t| format!("{}#{}", t.tick, t.token_id)).collect()
    };
    assert_eq!(ids(db.list_zrc721_tokens("cats", 0, 10)), vec!["cats#1", "cats#10", "cats#2"]);
    assert_eq!(ids(db.list_zrc721_tokens("cats", 1, 2)), vec!["cats#2"]);
    assert_eq!(ids(db.list_zrc721_tokens("CATS", 0, 10)), Vec::<String>::new());
    assert_eq!(
        ids(db.list_zrc721_tokens_by_address("a", 0, 10)),
        vec!["ants#5", "cats#1", "cats#2"]
    );
    assert_eq!(ids(db.list_zrc721_tokens_by_address("b", 0, 1)), vec!["ants#3"]);
    assert_eq!(ids(db.list_zrc721_tokens_by_address("b", 1, 1)), vec!["cats#10"]);
}

#[test]
fn health_of_the_follower() {
    let mut db = Db::new();
    assert!(!db.health().synced);
    db.set_status("chain_tip", 10);
    assert!(!db.health().synced);
    db.insert_block(8, "h8");
    assert!(!db.health().synced);
    db.insert_block(9, "h9");
    let h = db.health();
    assert!(h.synced);
    assert_eq!(h.core_height, Some(9));
    assert_eq!(h.chain_tip, Some(10));
    assert_eq!(h.zrc20_height, None);
    db.set_status("chain_tip", 0);
    assert!(db.health().synced);
}

#[test]
fn an_inscription_is_numbered_when_it_is_first_kept() {
    let mut db = Db::new();
    db.insert_inscription("a", meta("a", "t1A"));
    db.insert_inscription("b", meta("b", "t1A"));
    db.insert_inscription("a", meta("a", "t1Z"));
    assert_eq!(db.get_inscription_count(), 2);
    assert_eq!(db.get_inscription_by_number(1), Some("a".to_string()));
    assert_eq!(db.get_inscription_by_number(2), Some("b".to_string()));
    assert_eq!(db.get_inscription_by_number(3), None);
    assert_eq!(db.get_inscription("a").unwrap().sender, "t1Z");
    assert_eq!(db.get_inscriptions_by_address("t1A"), vec!["a".to_string(), "b".to_string()]);
    assert_eq!(db.get_inscriptions_by_address("t1Z"), Vec::<String>::new());
}

#[test]
fn every_table_can_be_read_as_a_whole() {
    let mut db = Db::new();
    db.insert_block(7, "h7");
    db.insert_inscription("a", meta("a", "t1A"));
    db.insert_inscription("b", meta("b", "t1A"));
    db.deploy_token("zord", token("zord", 0)).unwrap();
    db.mint_credit_atomic("zord", "t1A", 5).unwrap();
    db.create_transfer_inscription(
        "a",
        TransferIntent { tick: "zord".to_string(), amt: 2, sender: "t1A".to_string() },
    );
    db.register_transfer_outpoint("a", 0, "a");
    db.mark_inscription_used("b");
    db.register_zrc721_outpoint("m", 1, "cats", "0");
    assert_eq!(db.get_all_blocks(), vec![(7, "h7".to_string())]);
    let ids: Vec<String> = db.get_all_inscriptions().into_iter().map(|(k, _)| k).collect();
    assert_eq!(ids, vec!["a", "b"]);
    assert_eq!(db.get_inscription_numbers(), vec!["a".to_string(), "b".to_string()]);
    let sent = db.get_all_address_inscriptions();
    assert_eq!(sent.len(), 1);
    assert_eq!(sent[0].0, "t1A");
    assert_eq!(sent[0].1.ids, vec!["a".to_string(), "b".to_string()]);
    assert_eq!(
        db.get_all_balances(),
        vec![(("t1A".to_string(), "zord".to_string()), Balance { available: 5, overall: 5 })]
    );
    let transfers = db.get_all_transfers();
    assert_eq!(transfers.len(), 1);
    assert_eq!(transfers[0].0, "a");
    assert_eq!(transfers[0].1.amt, 2);
    assert_eq!(
        db.get_all_transfer_outpoints(),
        vec![(("a".to_string(), 0), "a".to_string())]
    );
    assert_eq!(
        db.get_all_inscription_states(),
        vec![("a".to_string(), false), ("b".to_string(), true)]
    );
    assert_eq!(
        db.get_all_zrc721_outpoints(),
        vec![(("m".to_string(), 1), ("cats".to_string(), "0".to_string()))]
    );
    assert!(db.get_all_zrc721_collections().is_empty());
    assert!(db.get_all_zrc721_tokens().is_empty());
    assert_eq!(db.get_all_status(), vec![("core_height".to_string(), 7)]);
    assert!(db.get_all_burned().is_empty());
}
