use zord::db::Db;
use zord::ledger::DbError;
use zord::zrc721::{Zrc721Engine, Zrc721Error};

const DEPLOY_CATS: &str = r#"{"p":"zrc-721","op":"deploy","collection":"Cats","supply":"3","meta":"QmCid","royalty":"5"}"#;

fn inscribe(engine: &Zrc721Engine, db: &mut Db, id: &str, sender: &str, body: &str) -> Result<(), Zrc721Error> {
    engine.process(db, "inscribe", id, sender, body, Some(id), Some(0))
}

fn with_cats() -> (Db, Zrc721Engine) {
    let mut db = Db::new();
    let engine = Zrc721Engine::new();
    inscribe(&engine, &mut db, "txDi0", "t1A", DEPLOY_CATS).unwrap();
    (db, engine)
}

#[test]
fn deploy_creates_a_collection_with_nothing_minted() {
    let (db, _) = with_cats();
    let c = db.get_zrc721_collection("cats").unwrap();
    assert_eq!(c.collection, "cats");
    assert_eq!(c.supply, "3");
    assert_eq!(c.meta, "\"QmCid\"");
    assert_eq!(c.royalty, "5");
    assert_eq!(c.minted, 0);
    assert_eq!(c.deployer, "t1A");
    assert_eq!(c.inscription_id, "txDi0");
    assert_eq!(db.zrc721_counts(), (1, 0));
}

#[test]
fn deploy_defaults() {
    let mut db = Db::new();
    let engine = Zrc721Engine::new();
    let body = r#"{"p":"ZRC-721","op":"deploy","tick":"Dogs","collection":"ignored","supply":"10"}"#;
    assert_eq!(inscribe(&engine, &mut db, "i", "t1A", body), Ok(()));
    let c = db.get_zrc721_collection("dogs").unwrap();
    assert_eq!(c.meta, "null");
    assert_eq!(c.royalty, "");
    assert!(db.get_zrc721_collection("ignored").is_none());
}

#[test]
fn deploy_keeps_structured_meta_as_json() {
    let mut db = Db::new();
    let engine = Zrc721Engine::new();
    let body = r#"{"p":"zrc-721","op":"deploy","tick":"dogs","supply":"10","meta":{"b":1,"a":[true,null]}}"#;
    assert_eq!(inscribe(&engine, &mut db, "i", "t1A", body), Ok(()));
    assert_eq!(db.get_zrc721_collection("dogs").unwrap().meta, r#"{"a":[true,null],"b":1}"#);
}

#[test]
fn a_collection_cannot_be_deployed_twice() {
    let (mut db, engine) = with_cats();
    let again = r#"{"p":"zrc-721","op":"deploy","tick":"CATS","supply":"99"}"#;
    assert_eq!(
        inscribe(&engine, &mut db, "txEi0", "t1B", again),
        Err(Zrc721Error::Store(DbError::CollectionExists))
    );
    assert_eq!(db.get_zrc721_collection("cats").unwrap().supply, "3");
}

#[test]
fn mint_registers_token_owner_and_outpoint() {
    let (mut db, engine) = with_cats();
    let body = r#"{"p":"zrc-721","op":"mint","collection":"cats","id":"0"}"#;
    assert_eq!(
        engine.process(&mut db, "inscribe", "txMi0", "t1A", body, Some("txM"), Some(1)),
        Ok(())
    );
    let t = db.get_zrc721_token("cats", "0").unwrap();
    assert_eq!(t.tick, "cats");
    assert_eq!(t.token_id, "0");
    assert_eq!(t.owner, "t1A");
    assert_eq!(t.inscription_id, "txMi0");
    assert_eq!(t.metadata, "{}");
    assert!(!t.burned);
    assert_eq!(db.get_zrc721_collection("cats").unwrap().minted, 1);
    assert_eq!(db.zrc721_by_outpoint("txM", 1), Some(("cats".to_string(), "0".to_string())));
    assert_eq!(db.zrc721_by_outpoint("txM", 0), None);
}

#[test]
fn mint_to_another_owner_with_metadata() {
    let (mut db, engine) = with_cats();
    let body = r#"{"p":"zrc-721","op":"mint","tick":"cats","id":"2","to":"t1Z","meta":{"name":"Tom"}}"#;
    assert_eq!(inscribe(&engine, &mut db, "txMi0", "t1A", body), Ok(()));
    let t = db.get_zrc721_token("cats", "2").unwrap();
    assert_eq!(t.owner, "t1Z");
    assert_eq!(t.metadata, r#"{"name":"Tom"}"#);
}

#[test]
fn token_ids_stay_below_the_supply() {
    let (mut db, engine) = with_cats();
    let mint = |id: &str| format!(r#"{{"p":"zrc-721","op":"mint","tick":"cats","id":"{}"}}"#, id);
    assert_eq!(
        inscribe(&engine, &mut db, "a", "t1A", &mint("3")),
        Err(Zrc721Error::Store(DbError::TokenIdOutOfRange))
    );
    assert_eq!(
        inscribe(&engine, &mut db, "a", "t1A", &mint("99999999999999999999999999")),
        Err(Zrc721Error::Store(DbError::TokenIdOutOfRange))
    );
    assert_eq!(inscribe(&engine, &mut db, "a", "t1A", &mint("2")), Ok(()));
    assert_eq!(
        inscribe(&engine, &mut db, "b", "t1A", &mint("2")),
        Err(Zrc721Error::Store(DbError::TokenAlreadyMinted))
    );
    assert_eq!(db.get_zrc721_collection("cats").unwrap().minted, 1);
}

#[test]
fn minted_never_exceeds_the_supply() {
    let (mut db, engine) = with_cats();
    let mint = |id: &str| format!(r#"{{"p":"zrc-721","op":"mint","tick":"cats","id":"{}"}}"#, id);
    assert_eq!(inscribe(&engine, &mut db, "a", "t1A", &mint("0")), Ok(()));
    assert_eq!(inscribe(&engine, &mut db, "b", "t1A", &mint("1")), Ok(()));
    assert_eq!(inscribe(&engine, &mut db, "c", "t1A", &mint("02")), Ok(()));
    assert_eq!(
        inscribe(&engine, &mut db, "d", "t1A", &mint("2")),
        Err(Zrc721Error::Store(DbError::MaxTokenCountReached))
    );
    assert_eq!(db.get_zrc721_collection("cats").unwrap().minted, 3);
    assert_eq!(db.zrc721_counts(), (1, 3));
}

#[test]
fn nft_mint_rules() {
    let (mut db, engine) = with_cats();
    assert_eq!(
        inscribe(&engine, &mut db, "a", "t1A", r#"{"p":"zrc-721","op":"mint","id":"0"}"#),
        Err(Zrc721Error::MissingCollection)
    );
    assert_eq!(
        inscribe(&engine, &mut db, "a", "t1A", r#"{"p":"zrc-721","op":"mint","tick":"cats"}"#),
        Err(Zrc721Error::MissingTokenId)
    );
    assert_eq!(
        inscribe(&engine, &mut db, "a", "t1A", r#"{"p":"zrc-721","op":"mint","tick":"cats","id":"1a"}"#),
        Err(Zrc721Error::TokenIdNotNumeric)
    );
    assert_eq!(
        inscribe(&engine, &mut db, "a", "t1A", r#"{"p":"zrc-721","op":"mint","tick":"cats","id":""}"#),
        Err(Zrc721Error::TokenIdNotNumeric)
    );
    assert_eq!(
        inscribe(&engine, &mut db, "a", "t1A", r#"{"p":"zrc-721","op":"mint","tick":"cats","id":"-1"}"#),
        Err(Zrc721Error::TokenIdNotNumeric)
    );
    assert_eq!(
        inscribe(&engine, &mut db, "a", "t1A", r#"{"p":"zrc-721","op":"mint","tick":"birds","id":"0"}"#),
        Err(Zrc721Error::Store(DbError::CollectionNotFound))
    );
    assert_eq!(db.zrc721_counts(), (1, 0));
}

#[test]
fn nft_deploy_rules() {
    let mut db = Db::new();
    let engine = Zrc721Engine::new();
    assert_eq!(
        inscribe(&engine, &mut db, "a", "t1A", r#"{"p":"zrc-721","op":"deploy","supply":"3"}"#),
        Err(Zrc721Error::MissingCollection)
    );
    assert_eq!(
        inscribe(&engine, &mut db, "a", "t1A", r#"{"p":"zrc-721","op":"deploy","tick":"cats"}"#),
        Err(Zrc721Error::MissingSupply)
    );
    assert_eq!(
        inscribe(&engine, &mut db, "a", "t1A", r#"{"p":"zrc-20","op":"deploy","tick":"cats","supply":"3"}"#),
        Err(Zrc721Error::NotZrc721)
    );
    assert_eq!(
        inscribe(&engine, &mut db, "a", "t1A", r#"{"p":"zrc-721","op":"burn","tick":"cats"}"#),
        Err(Zrc721Error::UnsupportedOp)
    );
    assert_eq!(
        inscribe(&engine, &mut db, "a", "t1A", r#"{"p":"zrc-721","op":"deploy","tick":"cats","supply":3}"#),
        Err(Zrc721Error::InvalidJson)
    );
    assert_eq!(inscribe(&engine, &mut db, "a", "t1A", "nonsense"), Err(Zrc721Error::InvalidJson));
    assert_eq!(db.zrc721_counts(), (0, 0));
}

#[test]
fn other_events_change_nothing() {
    let (mut db, engine) = with_cats();
    assert_eq!(engine.process(&mut db, "transfer", "a", "t1A", "nonsense", None, None), Ok(()));
    assert_eq!(db.zrc721_counts(), (1, 0));
}

#[test]
fn collection_without_a_numeric_supply_has_no_cap() {
    let mut db = Db::new();
    let engine = Zrc721Engine::new();
    inscribe(&engine, &mut db, "d", "t1A", r#"{"p":"zrc-721","op":"deploy","tick":"open","supply":"many"}"#)
        .unwrap();
    assert_eq!(
        inscribe(&engine, &mut db, "m", "t1A", r#"{"p":"zrc-721","op":"mint","tick":"open","id":"123456"}"#),
        Ok(())
    );
    assert_eq!(db.get_zrc721_collection("open").unwrap().minted, 1);
}

#[test]
fn parsing_and_applying_are_separate_steps() {
    let (mut db, engine) = with_cats();
    let op = engine.parse(r#" {"p":"zrc-721","op":"mint","tick":"Cats","id":"1","meta":null} "#).unwrap();
    assert_eq!(op.tick, Some("Cats".to_string()));
    assert_eq!(op.meta, None);
    assert_eq!(op.id, Some("1".to_string()));
    assert_eq!(engine.apply(&mut db, &op, "i", "t1A", None, None), Ok(()));
    assert_eq!(db.get_zrc721_token("cats", "1").unwrap().owner, "t1A");
    assert_eq!(db.zrc721_by_outpoint("i", 0), None);
}

#[test]
fn a_supply_beyond_64_bits_is_a_cap_all_the_same() {
    let mut db = Db::new();
    let engine = Zrc721Engine::new();
    let deploy = r#"{"p":"zrc-721","op":"deploy","tick":"vast","supply":"18446744073709551617"}"#;
    inscribe(&engine, &mut db, "d", "t1A", deploy).unwrap();
    let mint = |id: &str| format!(r#"{{"p":"zrc-721","op":"mint","tick":"vast","id":"{}"}}"#, id);
    assert_eq!(
        inscribe(&engine, &mut db, "a", "t1A", &mint("18446744073709551617")),
        Err(Zrc721Error::Store(DbError::TokenIdOutOfRange))
    );
    assert_eq!(
        inscribe(&engine, &mut db, "a", "t1A", &mint("18446744073709551618")),
        Err(Zrc721Error::Store(DbError::TokenIdOutOfRange))
    );
    assert_eq!(
        inscribe(&engine, &mut db, "a", "t1A", &mint("118446744073709551616")),
        Err(Zrc721Error::Store(DbError::TokenIdOutOfRange))
    );
    assert_eq!(
        inscribe(&engine, &mut db, "a", "t1A", &mint("99999999999999999999999999999999999999999")),
        Err(Zrc721Error::Store(DbError::TokenIdOutOfRange))
    );
    assert_eq!(inscribe(&engine, &mut db, "a", "t1A", &mint("18446744073709551616")), Ok(()));
    assert_eq!(inscribe(&engine, &mut db, "b", "t1A", &mint("09")), Ok(()));
    assert_eq!(
        inscribe(&engine, &mut db, "c", "t1A", &mint("000000000000000000000000018446744073709551615")),
        Ok(())
    );
    assert_eq!(db.get_zrc721_collection("vast").unwrap().minted, 3);
}

#[test]
fn ids_and_supplies_are_compared_as_numbers() {
    let mut db = Db::new();
    let engine = Zrc721Engine::new();
    inscribe(&engine, &mut db, "d", "t1A", r#"{"p":"zrc-721","op":"deploy","tick":"tens","supply":"0010"}"#)
        .unwrap();
    inscribe(&engine, &mut db, "e", "t1A", r#"{"p":"zrc-721","op":"deploy","tick":"plus","supply":"+3"}"#)
        .unwrap();
    inscribe(&engine, &mut db, "f", "t1A", r#"{"p":"zrc-721","op":"deploy","tick":"none","supply":"0"}"#)
        .unwrap();
    let mint = |tick: &str, id: &str| {
        format!(r#"{{"p":"zrc-721","op":"mint","tick":"{}","id":"{}"}}"#, tick, id)
    };
    assert_eq!(inscribe(&engine, &mut db, "a", "t1A", &mint("tens", "9")), Ok(()));
    assert_eq!(inscribe(&engine, &mut db, "b", "t1A", &mint("tens", "007")), Ok(()));
    assert_eq!(
        inscribe(&engine, &mut db, "c", "t1A", &mint("tens", "10")),
        Err(Zrc721Error::Store(DbError::TokenIdOutOfRange))
    );
    assert_eq!(
        inscribe(&engine, &mut db, "c", "t1A", &mint("tens", "0000000000010")),
        Err(Zrc721Error::Store(DbError::TokenIdOutOfRange))
    );
    assert_eq!(inscribe(&engine, &mut db, "g", "t1A", &mint("plus", "2")), Ok(()));
    assert_eq!(
        inscribe(&engine, &mut db, "h", "t1A", &mint("plus", "3")),
        Err(Zrc721Error::Store(DbError::TokenIdOutOfRange))
    );
    assert_eq!(
        inscribe(&engine, &mut db, "i", "t1A", &mint("none", "0")),
        Err(Zrc721Error::Store(DbError::MaxTokenCountReached))
    );
    assert_eq!(
        db.insert_zrc721_token("tens", "+1", "t1A", "j", "{}"),
        Err(DbError::TokenIdOutOfRange)
    );
    assert_eq!(
        db.insert_zrc721_token("tens", "", "t1A", "j", "{}"),
        Err(DbError::TokenIdOutOfRange)
    );
}
