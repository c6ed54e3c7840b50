use zord::amount::{AmountError, DecimalsError, NumericError};
use zord::db::Db;
use zord::ledger::DbError;
use zord::records::Balance;
use zord::zrc20::{Zrc20Engine, Zrc20Error};

const DEPLOY: &str =
    r#"{"p":"zrc-20","op":"deploy","tick":"ZORD","max":"21000000","lim":"1000","dec":"18"}"#;
const MINT_500: &str = r#"{"p":"zrc-20","op":"mint","tick":"ZORD","amt":"500"}"#;
const TRANSFER_200: &str = r#"{"p":"zrc-20","op":"transfer","tick":"ZORD","amt":"200"}"#;

const E18: u128 = 1_000_000_000_000_000_000;

fn deployed_and_minted() -> (Db, Zrc20Engine) {
    let mut db = Db::new();
    let engine = Zrc20Engine::new();
    engine
        .process(&mut db, "inscribe", "txAi0", "t1A", Some("t1A"), DEPLOY, Some("txA"), Some(0))
        .unwrap();
    engine
        .process(&mut db, "inscribe", "txBi0", "t1B", Some("t1B"), MINT_500, Some("txB"), Some(0))
        .unwrap();
    (db, engine)
}

#[test]
fn deploy_registers_token_with_zero_supply() {
    let mut db = Db::new();
    let engine = Zrc20Engine::new();
    let r = engine.process(
        &mut db,
        "inscribe",
        "txAi0",
        "t1A",
        Some("t1A"),
        DEPLOY,
        Some("txA"),
        Some(0),
    );
    assert_eq!(r, Ok(()));
    let token = db.get_token_info("zord").unwrap();
    assert_eq!(token.tick, "zord");
    assert_eq!(token.supply, 0);
    assert_eq!(token.max, "21000000");
    assert_eq!(token.lim, "1000");
    assert_eq!(token.dec, "18");
    assert_eq!(token.deployer, "t1A");
    assert_eq!(token.inscription_id, "txAi0");
    assert_eq!(db.get_token_count(), 1);
}

#[test]
fn mint_credits_both_parts_and_supply() {
    let (db, _) = deployed_and_minted();
    assert_eq!(
        db.get_balance("t1B", "zord"),
        Balance { available: 500 * E18, overall: 500 * E18 }
    );
    assert_eq!(db.get_token_info("zord").unwrap().supply, 500_000_000_000_000_000_000);
}

#[test]
fn transfer_to_another_address_moves_overall() {
    let (mut db, engine) = deployed_and_minted();
    engine
        .process(&mut db, "inscribe", "txCi0", "t1B", Some("t1B"), TRANSFER_200, Some("txC"), Some(0))
        .unwrap();
    assert_eq!(
        db.get_balance("t1B", "zord"),
        Balance { available: 300 * E18, overall: 500 * E18 }
    );
    assert_eq!(db.get_transfer_by_outpoint("txC", 0), Some("txCi0".to_string()));
    assert!(!db.is_inscription_used("txCi0"));
    assert_eq!(engine.settle_transfer(&mut db, "txCi0", Some("t1D")), Ok(()));
    assert_eq!(
        db.get_balance("t1B", "zord"),
        Balance { available: 300 * E18, overall: 300 * E18 }
    );
    assert_eq!(
        db.get_balance("t1D", "zord"),
        Balance { available: 200 * E18, overall: 200 * E18 }
    );
    assert!(db.is_inscription_used("txCi0"));
}

#[test]
fn transfer_back_to_sender_unlocks() {
    let (mut db, engine) = deployed_and_minted();
    engine
        .process(&mut db, "inscribe", "txCi0", "t1B", Some("t1B"), TRANSFER_200, Some("txC"), Some(0))
        .unwrap();
    assert_eq!(engine.settle_transfer(&mut db, "txCi0", Some("t1B")), Ok(()));
    assert_eq!(
        db.get_balance("t1B", "zord"),
        Balance { available: 500 * E18, overall: 500 * E18 }
    );
    assert!(db.is_inscription_used("txCi0"));
}

#[test]
fn settled_transfer_is_not_settled_again() {
    let (mut db, engine) = deployed_and_minted();
    engine
        .process(&mut db, "inscribe", "txCi0", "t1B", Some("t1B"), TRANSFER_200, Some("txC"), Some(0))
        .unwrap();
    assert_eq!(engine.settle_transfer(&mut db, "txCi0", None), Ok(()));
    assert_eq!(
        engine.settle_transfer(&mut db, "txCi0", Some("t1D")),
        Err(Zrc20Error::TransferUsed)
    );
    assert_eq!(db.get_balance("t1D", "zord"), Balance { available: 0, overall: 0 });
}

#[test]
fn second_deploy_of_same_ticker_in_other_case_fails() {
    let mut db = Db::new();
    let engine = Zrc20Engine::new();
    engine
        .process(&mut db, "inscribe", "txAi0", "t1A", None, DEPLOY, None, None)
        .unwrap();
    let lower = r#"{"p":"zrc-20","op":"deploy","tick":"zord","max":"5","lim":"1"}"#;
    assert_eq!(
        engine.process(&mut db, "inscribe", "txZi0", "t1Z", None, lower, None, None),
        Err(Zrc20Error::Store(DbError::TokenExists))
    );
    assert_eq!(db.get_token_info("zord").unwrap().deployer, "t1A");
    assert_eq!(db.get_token_count(), 1);
}

fn inscribe(engine: &Zrc20Engine, db: &mut Db, id: &str, sender: &str, body: &str) -> Result<(), Zrc20Error> {
    engine.process(db, "inscribe", id, sender, Some(sender), body, Some(id), Some(0))
}

#[test]
fn payload_must_be_a_json_object_with_the_required_members() {
    let mut db = Db::new();
    let engine = Zrc20Engine::new();
    for body in [
        "not json",
        "[1,2]",
        r#"{"op":"deploy","tick":"zord","max":"1"}"#,
        r#"{"p":"zrc-20","tick":"zord","max":"1"}"#,
        r#"{"p":"zrc-20","op":"deploy","max":"1"}"#,
        r#"{"p":"zrc-20","op":"deploy","tick":"zord","max":21}"#,
        r#"{"p":"zrc-20","op":"deploy","tick":null,"max":"21"}"#,
        r#"{"p":"zrc-20","op":"deploy","tick":"zord","max":"21"} trailing"#,
    ] {
        assert_eq!(inscribe(&engine, &mut db, "i", "t1A", body), Err(Zrc20Error::InvalidJson));
    }
    assert_eq!(db.get_token_count(), 0);
}

#[test]
fn optional_members_may_be_null() {
    let mut db = Db::new();
    let engine = Zrc20Engine::new();
    let body = r#"  {"p":"ZRC-20","op":"deploy","tick":"zord","max":"21","lim":null,"dec":null,"x":1}  "#;
    assert_eq!(inscribe(&engine, &mut db, "i", "t1A", body), Ok(()));
    let token = db.get_token_info("zord").unwrap();
    assert_eq!(token.lim, "21");
    assert_eq!(token.dec, "18");
}

#[test]
fn protocol_op_and_ticker_rules() {
    let mut db = Db::new();
    let engine = Zrc20Engine::new();
    assert_eq!(
        inscribe(&engine, &mut db, "i", "a", r#"{"p":"brc-20","op":"deploy","tick":"zord","max":"1"}"#),
        Err(Zrc20Error::InvalidProtocol)
    );
    assert_eq!(
        inscribe(&engine, &mut db, "i", "a", r#"{"p":"zrc-20","op":"Deploy","tick":"zord","max":"1"}"#),
        Err(Zrc20Error::OpNotLowercase)
    );
    assert_eq!(
        inscribe(&engine, &mut db, "i", "a", r#"{"p":"zrc-20","op":"deploy","tick":"abc","max":"1"}"#),
        Err(Zrc20Error::TickerLength)
    );
    assert_eq!(
        inscribe(&engine, &mut db, "i", "a", r#"{"p":"zrc-20","op":"deploy","tick":"abcdef","max":"1"}"#),
        Err(Zrc20Error::TickerLength)
    );
    assert_eq!(
        inscribe(&engine, &mut db, "i", "a", r#"{"p":"zrc-20","op":"deploy","tick":"abcde","max":"1"}"#),
        Ok(())
    );
    assert_eq!(
        inscribe(&engine, &mut db, "i", "a", r#"{"p":"zrc-20","op":"deploy","tick":"🔥","max":"1"}"#),
        Ok(())
    );
    assert!(db.get_token_info("🔥").is_some());
}

#[test]
fn numeric_members_are_checked_in_order() {
    let mut db = Db::new();
    let engine = Zrc20Engine::new();
    assert_eq!(
        inscribe(&engine, &mut db, "i", "a", r#"{"p":"zrc-20","op":"deploy","tick":"zord","max":"0","lim":"1e3"}"#),
        Err(Zrc20Error::Numeric(NumericError::Zero))
    );
    assert_eq!(
        inscribe(&engine, &mut db, "i", "a", r#"{"p":"zrc-20","op":"deploy","tick":"zord","max":"5","lim":"1e3"}"#),
        Err(Zrc20Error::Numeric(NumericError::InvalidCharacters))
    );
    assert_eq!(
        inscribe(&engine, &mut db, "i", "a", r#"{"p":"zrc-20","op":"mint","tick":"zord","amt":".5"}"#),
        Err(Zrc20Error::Numeric(NumericError::DotAtEdge))
    );
    assert_eq!(
        inscribe(&engine, &mut db, "i", "a", r#"{"p":"zrc-20","op":"deploy","tick":"zord","max":"5","dec":"19"}"#),
        Err(Zrc20Error::Decimals(DecimalsError::TooLarge))
    );
    assert_eq!(
        inscribe(&engine, &mut db, "i", "a", r#"{"p":"zrc-20","op":"deploy","tick":"zord","max":"0.04","dec":"1"}"#),
        Err(Zrc20Error::Numeric(NumericError::Zero))
    );
    assert_eq!(
        inscribe(&engine, &mut db, "i", "a", r#"{"p":"zrc-20","op":"deploy","tick":"zord","max":"5.55","dec":"1"}"#),
        Ok(())
    );
    assert_eq!(db.get_token_info("zord").unwrap().max, "5.55");
}

#[test]
fn deploy_needs_a_maximum() {
    let mut db = Db::new();
    let engine = Zrc20Engine::new();
    assert_eq!(
        inscribe(&engine, &mut db, "i", "a", r#"{"p":"zrc-20","op":"deploy","tick":"zord"}"#),
        Err(Zrc20Error::MissingMax)
    );
}

#[test]
fn token_mint_rules() {
    let (mut db, engine) = deployed_and_minted();
    assert_eq!(
        inscribe(&engine, &mut db, "i", "t1B", r#"{"p":"zrc-20","op":"mint","tick":"zord"}"#),
        Err(Zrc20Error::MissingAmt)
    );
    assert_eq!(
        inscribe(&engine, &mut db, "i", "t1B", r#"{"p":"zrc-20","op":"mint","tick":"none","amt":"1"}"#),
        Err(Zrc20Error::TokenNotFound)
    );
    assert_eq!(
        inscribe(&engine, &mut db, "i", "t1B", r#"{"p":"zrc-20","op":"mint","tick":"zord","amt":"1000.000000000000000001"}"#),
        Err(Zrc20Error::MintExceedsLimit)
    );
    assert_eq!(
        inscribe(&engine, &mut db, "i", "t1B", r#"{"p":"zrc-20","op":"mint","tick":"zord","amt":"1000"}"#),
        Ok(())
    );
    assert_eq!(db.get_token_info("zord").unwrap().supply, 1500 * E18);
    assert_eq!(db.get_balance("t1B", "zord").overall, 1500 * E18);
}

#[test]
fn mint_stops_at_the_maximum_supply() {
    let mut db = Db::new();
    let engine = Zrc20Engine::new();
    inscribe(&engine, &mut db, "d", "a", r#"{"p":"zrc-20","op":"deploy","tick":"tiny","max":"10","lim":"6","dec":"0"}"#)
        .unwrap();
    let mint6 = r#"{"p":"zrc-20","op":"mint","tick":"TINY","amt":"6"}"#;
    assert_eq!(inscribe(&engine, &mut db, "m1", "a", mint6), Ok(()));
    assert_eq!(inscribe(&engine, &mut db, "m2", "b", mint6), Err(Zrc20Error::MaxSupplyExceeded));
    assert_eq!(
        inscribe(&engine, &mut db, "m3", "b", r#"{"p":"zrc-20","op":"mint","tick":"tiny","amt":"4"}"#),
        Ok(())
    );
    assert_eq!(db.get_token_info("tiny").unwrap().supply, 10);
    assert_eq!(db.get_balance("a", "tiny"), Balance { available: 6, overall: 6 });
    assert_eq!(db.get_balance("b", "tiny"), Balance { available: 4, overall: 4 });
    assert_eq!(
        inscribe(&engine, &mut db, "m4", "b", r#"{"p":"zrc-20","op":"mint","tick":"tiny","amt":"1"}"#),
        Err(Zrc20Error::MaxSupplyExceeded)
    );
}

#[test]
fn mint_with_more_decimals_than_the_token_has_is_clipped() {
    let mut db = Db::new();
    let engine = Zrc20Engine::new();
    inscribe(&engine, &mut db, "d", "a", r#"{"p":"zrc-20","op":"deploy","tick":"tiny","max":"10","dec":"0"}"#)
        .unwrap();
    assert_eq!(
        inscribe(&engine, &mut db, "m", "a", r#"{"p":"zrc-20","op":"mint","tick":"tiny","amt":"1.5"}"#),
        Ok(())
    );
    assert_eq!(db.get_balance("a", "tiny"), Balance { available: 1, overall: 1 });
    assert_eq!(db.get_token_info("tiny").unwrap().supply, 1);
    inscribe(&engine, &mut db, "d2", "a", r#"{"p":"zrc-20","op":"deploy","tick":"cent","max":"10","dec":"2"}"#)
        .unwrap();
    assert_eq!(
        inscribe(&engine, &mut db, "m2", "a", r#"{"p":"zrc-20","op":"mint","tick":"cent","amt":"1.239"}"#),
        Ok(())
    );
    assert_eq!(db.get_balance("a", "cent"), Balance { available: 123, overall: 123 });
    assert_eq!(
        inscribe(&engine, &mut db, "m3", "a", r#"{"p":"zrc-20","op":"mint","tick":"tiny","amt":"x"}"#),
        Err(Zrc20Error::Numeric(NumericError::InvalidCharacters))
    );
    db.update_token_supply("tiny", 0).unwrap();
    assert_eq!(
        engine.apply(
            &mut db,
            "inscribe",
            &zord::zrc20::Zrc20Operation {
                p: "zrc-20".to_string(),
                op: "mint".to_string(),
                tick: "tiny".to_string(),
                max: None,
                lim: None,
                amt: Some("x".to_string()),
                dec: None,
            },
            "m4",
            "a",
            None,
            None,
            None,
        ),
        Err(Zrc20Error::Amount(AmountError::BadWhole))
    );
}

#[test]
fn commit_locks_available_and_leaves_overall() {
    let (mut db, engine) = deployed_and_minted();
    assert_eq!(inscribe(&engine, &mut db, "txCi0", "t1B", TRANSFER_200), Ok(()));
    assert_eq!(
        db.get_balance("t1B", "zord"),
        Balance { available: 300 * E18, overall: 500 * E18 }
    );
    let intent = db.get_transfer_inscription("txCi0").unwrap();
    assert_eq!(intent.tick, "zord");
    assert_eq!(intent.amt, 200 * E18);
    assert_eq!(intent.sender, "t1B");
    assert_eq!(db.get_transfer_by_outpoint("txCi0", 0), Some("txCi0".to_string()));
    assert_eq!(db.get_token_info("zord").unwrap().supply, 500 * E18);
}

#[test]
fn commit_needs_enough_available() {
    let (mut db, engine) = deployed_and_minted();
    assert_eq!(
        inscribe(&engine, &mut db, "c1", "t1B", r#"{"p":"zrc-20","op":"transfer","tick":"zord","amt":"500.000000000000000001"}"#),
        Err(Zrc20Error::InsufficientAvailable)
    );
    assert_eq!(
        inscribe(&engine, &mut db, "c2", "t1X", r#"{"p":"zrc-20","op":"transfer","tick":"zord","amt":"1"}"#),
        Err(Zrc20Error::InsufficientAvailable)
    );
    assert_eq!(
        inscribe(&engine, &mut db, "c3", "t1B", r#"{"p":"zrc-20","op":"transfer","tick":"zord"}"#),
        Err(Zrc20Error::MissingAmt)
    );
    assert_eq!(
        inscribe(&engine, &mut db, "c4", "t1B", r#"{"p":"zrc-20","op":"transfer","tick":"none","amt":"1"}"#),
        Err(Zrc20Error::TokenNotFound)
    );
    assert!(db.get_transfer_inscription("c1").is_none());
    assert_eq!(inscribe(&engine, &mut db, "c5", "t1B", TRANSFER_200), Ok(()));
    assert_eq!(inscribe(&engine, &mut db, "c6", "t1B", TRANSFER_200), Ok(()));
    assert_eq!(
        inscribe(&engine, &mut db, "c7", "t1B", TRANSFER_200),
        Err(Zrc20Error::InsufficientAvailable)
    );
    assert_eq!(
        db.get_balance("t1B", "zord"),
        Balance { available: 100 * E18, overall: 500 * E18 }
    );
}

#[test]
fn commit_without_outpoint_registers_none() {
    let (mut db, engine) = deployed_and_minted();
    assert_eq!(
        engine.process(&mut db, "inscribe", "c", "t1B", None, TRANSFER_200, None, Some(0)),
        Ok(())
    );
    assert_eq!(db.find_outpoint_by_transfer_id("c"), None);
    assert!(db.get_transfer_inscription("c").is_some());
}

#[test]
fn settle_of_an_unknown_transfer_fails() {
    let (mut db, engine) = deployed_and_minted();
    assert_eq!(engine.settle_transfer(&mut db, "nope", None), Err(Zrc20Error::TransferNotFound));
}

#[test]
fn transfer_event_settles_through_process() {
    let (mut db, engine) = deployed_and_minted();
    inscribe(&engine, &mut db, "c", "t1B", TRANSFER_200).unwrap();
    assert_eq!(
        engine.process(&mut db, "transfer", "c", "t1B", Some("t1D"), TRANSFER_200, None, None),
        Ok(())
    );
    assert_eq!(db.get_balance("t1D", "zord").overall, 200 * E18);
    assert!(db.is_inscription_used("c"));
}

#[test]
fn events_that_call_for_nothing_change_nothing() {
    let (mut db, engine) = deployed_and_minted();
    assert_eq!(
        engine.process(&mut db, "transfer", "x", "t1B", None, MINT_500, None, None),
        Ok(())
    );
    assert_eq!(
        engine.process(&mut db, "inscribe", "x", "t1B", None, r#"{"p":"zrc-20","op":"burn","tick":"zord"}"#, None, None),
        Ok(())
    );
    assert_eq!(db.get_token_info("zord").unwrap().supply, 500 * E18);
    assert_eq!(db.get_balance("t1B", "zord").overall, 500 * E18);
}

#[test]
fn supply_equals_holdings_after_a_run_of_operations() {
    let (mut db, engine) = deployed_and_minted();
    inscribe(&engine, &mut db, "m2", "t1C", MINT_500).unwrap();
    inscribe(&engine, &mut db, "c1", "t1B", TRANSFER_200).unwrap();
    inscribe(&engine, &mut db, "c2", "t1C", TRANSFER_200).unwrap();
    engine.settle_transfer(&mut db, "c1", Some("t1D")).unwrap();
    engine.settle_transfer(&mut db, "c2", None).unwrap();
    let sums = db.sum_balances_for_tick("ZORD").unwrap();
    let supply = db.get_token_info("zord").unwrap().supply;
    assert_eq!(supply, 1000 * E18);
    assert_eq!(sums.overall + db.get_burned("zord"), supply);
    assert_eq!(sums.available, 1000 * E18);
    assert_eq!(sums.holders, 3);
    for holder in ["t1B", "t1C", "t1D", "t1E"] {
        let b = db.get_balance(holder, "zord");
        assert!(b.available <= b.overall);
    }
    let report = db.token_integrity("Zord").unwrap();
    assert!(report.consistent);
    assert_eq!(report.supply, 1000 * E18);
    assert_eq!(report.sum_overall, 1000 * E18);
    assert_eq!(report.burned, 0);
    assert_eq!(report.holders, 3);
    assert_eq!(report.holders_positive, 3);
}

#[test]
fn reading_and_checking_are_separate_steps() {
    let engine = Zrc20Engine::new();
    let op = engine.read(r#" {"p":"ZRC-20","op":"mint","tick":"ZoRd","amt":"5"} "#).unwrap();
    assert_eq!(op.p, "ZRC-20");
    assert_eq!(op.tick, "ZoRd");
    assert_eq!(op.amt, Some("5".to_string()));
    assert_eq!(op.max, None);
    let checked = engine.validate(op).unwrap();
    assert_eq!(checked.tick, "zord");
    assert_eq!(checked.p, "ZRC-20");
    assert!(engine.read("{").is_none());
    let parsed = engine.parse_and_validate(DEPLOY).unwrap();
    assert_eq!(parsed.tick, "zord");
    assert_eq!(parsed.max, Some("21000000".to_string()));
}

#[test]
fn amounts_and_holdings_beyond_127_bits_are_settled() {
    let mut db = Db::new();
    let engine = Zrc20Engine::new();
    let amount: u128 = (1u128 << 127) + 5;
    db.update_balance("t1A", "zord", 1, i128::MAX).unwrap();
    db.update_balance("t1A", "zord", 0, 7).unwrap();
    assert_eq!(db.get_balance("t1A", "zord"), Balance { available: 1, overall: amount + 1 });
    db.create_transfer_inscription(
        "big",
        zord::records::TransferIntent {
            tick: "zord".to_string(),
            amt: amount,
            sender: "t1A".to_string(),
        },
    );
    assert_eq!(engine.settle_transfer(&mut db, "big", Some("t1B")), Ok(()));
    assert_eq!(db.get_balance("t1A", "zord"), Balance { available: 1, overall: 1 });
    assert_eq!(db.get_balance("t1B", "zord"), Balance { available: amount, overall: amount });
    assert!(db.is_inscription_used("big"));
}

#[test]
fn a_locked_unit_of_a_large_holding_is_released() {
    let mut db = Db::new();
    let engine = Zrc20Engine::new();
    db.update_balance("t1A", "zord", 1, i128::MAX).unwrap();
    db.update_balance("t1A", "zord", 0, 1).unwrap();
    db.create_transfer_inscription(
        "one",
        zord::records::TransferIntent { tick: "zord".to_string(), amt: 1, sender: "t1A".to_string() },
    );
    assert_eq!(engine.settle_transfer(&mut db, "one", Some("t1B")), Ok(()));
    assert_eq!(
        db.get_balance("t1A", "zord"),
        Balance { available: 1, overall: (1u128 << 127) - 1 }
    );
    assert_eq!(db.get_balance("t1B", "zord"), Balance { available: 1, overall: 1 });
    db.create_transfer_inscription(
        "two",
        zord::records::TransferIntent { tick: "zord".to_string(), amt: 1, sender: "t1A".to_string() },
    );
    assert_eq!(engine.settle_transfer(&mut db, "two", None), Ok(()));
    assert_eq!(
        db.get_balance("t1A", "zord"),
        Balance { available: 2, overall: (1u128 << 127) - 1 }
    );
}

#[test]
fn settle_fails_as_a_whole_when_the_receiver_cannot_be_credited() {
    let (mut db, engine) = deployed_and_minted();
    engine
        .process(&mut db, "inscribe", "c", "t1B", None, TRANSFER_200, Some("c"), Some(0))
        .unwrap();
    db.update_balance("t1Full", "zord", 0, i128::MAX).unwrap();
    db.update_balance("t1Full", "zord", 0, i128::MAX).unwrap();
    assert_eq!(
        engine.settle_transfer(&mut db, "c", Some("t1Full")),
        Err(Zrc20Error::Store(DbError::OverallOverflow))
    );
    assert_eq!(
        db.get_balance("t1B", "zord"),
        Balance { available: 300 * E18, overall: 500 * E18 }
    );
    assert_eq!(db.get_balance("t1Full", "zord"), Balance { available: 0, overall: u128::MAX - 1 });
    assert!(!db.is_inscription_used("c"));
}
