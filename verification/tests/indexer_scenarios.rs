use zord::db::Db;
use zord::indexer::{Indexer, Step};
use zord::records::Balance;
use zord::rpc::{ScriptPubKey, ScriptSig, TxResponse, Vin, Vout};

const E18: u128 = 1_000_000_000_000_000_000;

fn hex(text: &str) -> String {
    let mut out = String::new();
    for b in text.bytes() {
        out.push_str(&format!("{:02x}", b));
    }
    out
}

fn pays(n: u32, address: &str) -> Vout {
    Vout {
        n,
        script_pub_key: ScriptPubKey {
            hex: String::new(),
            script: String::new(),
            kind: "pubkeyhash".to_string(),
            addresses: Some(vec![address.to_string()]),
        },
    }
}

fn unaddressed(n: u32) -> Vout {
    Vout {
        n,
        script_pub_key: ScriptPubKey {
            hex: String::new(),
            script: String::new(),
            kind: "nulldata".to_string(),
            addresses: None,
        },
    }
}

fn inscribing(txid: &str, sender: &str, content_type: &str, body: &str) -> TxResponse {
    TxResponse {
        txid: txid.to_string(),
        hex: String::new(),
        vin: vec![Vin {
            txid: Some(format!("funding-of-{}", txid)),
            vout: Some(0),
            script_sig: Some(ScriptSig {
                hex: String::new(),
                script: format!("{} {}", hex(content_type), hex(body)),
            }),
        }],
        vout: vec![pays(0, sender)],
    }
}

fn spending(txid: &str, prev_txid: &str, prev_vout: u32, outputs: Vec<Vout>) -> TxResponse {
    TxResponse {
        txid: txid.to_string(),
        hex: String::new(),
        vin: vec![Vin { txid: Some(prev_txid.to_string()), vout: Some(prev_vout), script_sig: None }],
        vout: outputs,
    }
}

const DEPLOY: &str =
    r#"{"p":"zrc-20","op":"deploy","tick":"ZORD","max":"21000000","lim":"1000","dec":"18"}"#;
const MINT_500: &str = r#"{"p":"zrc-20","op":"mint","tick":"ZORD","amt":"500"}"#;
const TRANSFER_200: &str = r#"{"p":"zrc-20","op":"transfer","tick":"ZORD","amt":"200"}"#;

fn after_commit() -> Indexer {
    let mut indexer = Indexer::new(Db::new());
    let block = vec![
        inscribing("txA", "t1A", "application/json", DEPLOY),
        inscribing("txB", "t1B", "application/json", MINT_500),
        inscribing("txC", "t1B", "application/json", TRANSFER_200),
    ];
    indexer.index_block(100, "hash100", 1700000000, &block);
    indexer
}

#[test]
fn deploy_inscribed_in_a_block() {
    let mut indexer = Indexer::new(Db::new());
    indexer.index_block(100, "hash100", 1700000000, &vec![inscribing("txA", "t1A", "application/json", DEPLOY)]);
    let token = indexer.db().get_token_info("zord").unwrap();
    assert_eq!(token.supply, 0);
    assert_eq!(token.lim, "1000");
    assert_eq!(token.deployer, "t1A");
    assert_eq!(token.inscription_id, "txAi0");
    let meta = indexer.db().get_inscription("txAi0").unwrap();
    assert_eq!(meta.id, "txAi0");
    assert_eq!(meta.content, DEPLOY);
    assert_eq!(meta.content_hex, hex(DEPLOY));
    assert_eq!(meta.content_type, "application/json");
    assert_eq!(meta.txid, "txA");
    assert_eq!(meta.vout, 0);
    assert_eq!(meta.sender, "t1A");
    assert_eq!(meta.receiver, "t1A");
    assert_eq!(meta.block_height, 100);
    assert_eq!(meta.block_time, 1700000000);
    assert_eq!(indexer.db().get_inscription_count(), 1);
    assert_eq!(indexer.db().get_inscription_by_number(1), Some("txAi0".to_string()));
    assert_eq!(indexer.db().get_inscription_by_number(0), None);
    assert_eq!(indexer.db().get_inscription_by_number(2), None);
    assert_eq!(indexer.db().get_inscriptions_by_address("t1A"), vec!["txAi0".to_string()]);
}

#[test]
fn mint_inscribed_in_a_block() {
    let indexer = after_commit();
    assert_eq!(
        indexer.db().get_token_info("zord").unwrap().supply,
        500_000_000_000_000_000_000
    );
    assert_eq!(indexer.db().get_balance("t1B", "zord").overall, 500 * E18);
}

#[test]
fn commit_then_reveal_to_another_address() {
    let mut indexer = after_commit();
    assert_eq!(
        indexer.db().get_balance("t1B", "zord"),
        Balance { available: 300 * E18, overall: 500 * E18 }
    );
    assert_eq!(indexer.db().get_transfer_by_outpoint("txC", 0), Some("txCi0".to_string()));
    indexer.index_block(101, "hash101", 1700000075, &vec![spending("txD", "txC", 0, vec![pays(0, "t1D")])]);
    assert_eq!(
        indexer.db().get_balance("t1B", "zord"),
        Balance { available: 300 * E18, overall: 300 * E18 }
    );
    assert_eq!(
        indexer.db().get_balance("t1D", "zord"),
        Balance { available: 200 * E18, overall: 200 * E18 }
    );
    assert!(indexer.db().is_inscription_used("txCi0"));
    assert_eq!(indexer.db().get_transfer_by_outpoint("txC", 0), None);
    assert_eq!(indexer.db().count_completed_transfers_for_tick("ZORD"), 1);
}

#[test]
fn commit_then_reveal_back_to_the_sender() {
    let mut indexer = after_commit();
    indexer.index_block(101, "hash101", 1700000075, &vec![spending("txD", "txC", 0, vec![pays(0, "t1B")])]);
    assert_eq!(
        indexer.db().get_balance("t1B", "zord"),
        Balance { available: 500 * E18, overall: 500 * E18 }
    );
    assert!(indexer.db().is_inscription_used("txCi0"));
}

#[test]
fn commit_and_reveal_in_one_block() {
    let mut indexer = Indexer::new(Db::new());
    let block = vec![
        inscribing("txA", "t1A", "application/json", DEPLOY),
        inscribing("txB", "t1B", "application/json", MINT_500),
        inscribing("txC", "t1B", "application/json", TRANSFER_200),
        spending("txD", "txC", 0, vec![unaddressed(0), pays(1, "t1D")]),
    ];
    indexer.index_block(100, "hash100", 1700000000, &block);
    assert_eq!(
        indexer.db().get_balance("t1B", "zord"),
        Balance { available: 300 * E18, overall: 300 * E18 }
    );
    assert_eq!(
        indexer.db().get_balance("t1D", "zord"),
        Balance { available: 200 * E18, overall: 200 * E18 }
    );
}

#[test]
fn reveal_into_shielded_outputs_unlocks_for_the_sender() {
    let mut indexer = after_commit();
    indexer.index_block(101, "hash101", 1700000075, &vec![spending("txD", "txC", 0, vec![pays(0, "zs1hidden")])]);
    assert_eq!(
        indexer.db().get_balance("t1B", "zord"),
        Balance { available: 500 * E18, overall: 500 * E18 }
    );
    assert_eq!(indexer.db().get_balance("zs1hidden", "zord"), Balance { available: 0, overall: 0 });
    assert!(indexer.db().is_inscription_used("txCi0"));
    assert_eq!(indexer.db().get_transfer_by_outpoint("txC", 0), None);
    assert_eq!(indexer.db().get_burned("zord"), 0);
}

#[test]
fn reveal_skips_shielded_outputs_for_the_first_transparent_one() {
    let mut indexer = after_commit();
    indexer.index_block(
        101,
        "hash101",
        1700000075,
        &vec![spending("txD", "txC", 0, vec![pays(0, "zs1hidden"), pays(1, "t1D")])],
    );
    assert_eq!(indexer.db().get_balance("t1D", "zord").overall, 200 * E18);
}

#[test]
fn a_transfer_is_not_settled_by_the_transaction_that_commits_it() {
    let mut indexer = Indexer::new(Db::new());
    indexer.index_block(
        100,
        "hash100",
        1700000000,
        &vec![
            inscribing("txA", "t1A", "application/json", DEPLOY),
            inscribing("txB", "t1B", "application/json", MINT_500),
        ],
    );
    let mut commit = inscribing("txC", "t1B", "application/json", TRANSFER_200);
    commit.vin[0].txid = Some("txC".to_string());
    commit.vin[0].vout = Some(0);
    indexer.index_block(101, "hash101", 1700000075, &vec![commit]);
    assert!(indexer.db().is_inscription_used("txCi0"));
    assert_eq!(
        indexer.db().get_balance("t1B", "zord"),
        Balance { available: 500 * E18, overall: 500 * E18 }
    );
}

#[test]
fn nft_mint_and_move() {
    let mut indexer = Indexer::new(Db::new());
    let deploy = r#"{"p":"zrc-721","op":"deploy","collection":"cats","supply":"3"}"#;
    let mint = r#"{"p":"zrc-721","op":"mint","collection":"cats","id":"0"}"#;
    indexer.index_block(
        7,
        "h7",
        1,
        &vec![
            inscribing("txDeploy", "t1A", "application/json", deploy),
            inscribing("txMint", "t1A", "application/json", mint),
        ],
    );
    assert_eq!(indexer.db().get_zrc721_token("cats", "0").unwrap().owner, "t1A");
    assert_eq!(
        indexer.db().zrc721_by_outpoint("txMint", 0),
        Some(("cats".to_string(), "0".to_string()))
    );
    indexer.index_block(
        8,
        "h8",
        2,
        &vec![spending("txMove", "txMint", 0, vec![unaddressed(0), pays(1, "t1E")])],
    );
    let token = indexer.db().get_zrc721_token("cats", "0").unwrap();
    assert_eq!(token.owner, "t1E");
    assert!(!token.burned);
    assert_eq!(indexer.db().zrc721_by_outpoint("txMint", 0), None);
    assert_eq!(
        indexer.db().zrc721_by_outpoint("txMove", 1),
        Some(("cats".to_string(), "0".to_string()))
    );
}

#[test]
fn nft_into_shielded_outputs_is_burned() {
    let mut indexer = Indexer::new(Db::new());
    let deploy = r#"{"p":"zrc-721","op":"deploy","collection":"cats","supply":"3"}"#;
    let mint = r#"{"p":"zrc-721","op":"mint","collection":"cats","id":"1"}"#;
    indexer.index_block(
        7,
        "h7",
        1,
        &vec![
            inscribing("txDeploy", "t1A", "application/json", deploy),
            inscribing("txMint", "t1A", "application/json", mint),
        ],
    );
    indexer.index_block(8, "h8", 2, &vec![spending("txGone", "txMint", 0, vec![pays(0, "zs1hidden")])]);
    let token = indexer.db().get_zrc721_token("cats", "1").unwrap();
    assert_eq!(token.owner, "shielded");
    assert!(token.burned);
    assert_eq!(indexer.db().zrc721_by_outpoint("txMint", 0), None);
    assert_eq!(indexer.db().zrc721_by_outpoint("txGone", 0), None);
    assert_eq!(indexer.db().get_zrc721_collection("cats").unwrap().minted, 1);
}

#[test]
fn name_race_over_two_blocks() {
    let mut indexer = Indexer::new(Db::new());
    indexer.index_block(1, "h1", 1, &vec![inscribing("tx1", "t1A", "text/plain", "alice.zec")]);
    assert_eq!(indexer.db().get_name_count(), 1);
    indexer.index_block(2, "h2", 2, &vec![inscribing("tx2", "t1B", "text/plain", "alice.zec")]);
    let record = indexer.db().get_name("alice.zec").unwrap();
    assert_eq!(record.inscription_id, "tx1i0");
    assert_eq!(record.owner, "t1A");
    assert_eq!(indexer.db().get_name_count(), 1);
    assert_eq!(indexer.db().get_inscription_count(), 2);
}

#[test]
fn text_that_begins_like_json_goes_to_the_token_engines() {
    let mut indexer = Indexer::new(Db::new());
    indexer.index_block(
        1,
        "h1",
        1,
        &vec![
            inscribing("tx1", "t1A", "text/plain;charset=utf-8", &format!("  {}", DEPLOY)),
            inscribing("tx2", "t1A", "text/markdown; charset=utf-8", MINT_500),
            inscribing("tx3", "t1A", "text/plain", "{not-a-name}.zec"),
        ],
    );
    assert!(indexer.db().get_token_info("zord").is_some());
    assert_eq!(indexer.db().get_balance("t1A", "zord").overall, 500 * E18);
    assert_eq!(indexer.db().get_name_count(), 0);
    assert_eq!(indexer.db().get_inscription_count(), 3);
}

#[test]
fn content_that_is_kept_as_hex_states_no_operation() {
    let mut indexer = Indexer::new(Db::new());
    indexer.index_block(
        1,
        "h1",
        1,
        &vec![
            inscribing("tx1", "t1A", "application/json", DEPLOY),
            inscribing("tx2", "t1A", "application/ld+json", MINT_500),
            inscribing("tx3", "t1A", "image/png", MINT_500),
        ],
    );
    assert_eq!(indexer.db().get_inscription("tx2i0").unwrap().content, hex(MINT_500));
    assert_eq!(indexer.db().get_balance("t1A", "zord").overall, 0);
    assert_eq!(indexer.db().get_inscription_count(), 3);
}

#[test]
fn only_the_first_inscription_of_a_transaction_counts() {
    let mut indexer = Indexer::new(Db::new());
    let mut tx = inscribing("tx1", "t1A", "text/plain", "alice.zec");
    tx.vin.push(Vin {
        txid: None,
        vout: None,
        script_sig: Some(ScriptSig {
            hex: String::new(),
            script: format!("{} {}", hex("text/plain"), hex("bob.zec")),
        }),
    });
    indexer.index_block(1, "h1", 1, &vec![tx]);
    assert!(indexer.db().get_name("alice.zec").is_some());
    assert!(indexer.db().get_name("bob.zec").is_none());
    assert_eq!(indexer.db().get_inscription_count(), 1);
}

#[test]
fn inscription_is_assigned_to_the_output_that_pays_its_sender() {
    let mut indexer = Indexer::new(Db::new());
    let mut tx = inscribing("tx1", "t1A", "application/json", DEPLOY);
    tx.vout = vec![pays(5, "t1A"), pays(6, "t1B")];
    let mut other = inscribing("tx2", "t1A", "application/json", MINT_500);
    other.vout = vec![unaddressed(3), pays(4, "t1Z")];
    let mut none = inscribing("tx3", "t1A", "application/json", MINT_500);
    none.vout = vec![unaddressed(9)];
    indexer.index_block(1, "h1", 1, &vec![tx, other, none]);
    assert_eq!(indexer.db().get_inscription("tx1i0").unwrap().vout, 5);
    let second = indexer.db().get_inscription("tx2i0").unwrap();
    assert_eq!(second.sender, "unknown");
    assert_eq!(second.vout, 4);
    assert_eq!(indexer.db().get_inscription("tx3i0").unwrap().vout, 0);
}

#[test]
fn block_is_recorded_with_all_heights() {
    let mut indexer = Indexer::new(Db::new());
    assert_eq!(indexer.db().get_latest_indexed_height(), None);
    indexer.index_block(42, "hash42", 1, &Vec::new());
    assert_eq!(indexer.db().get_latest_indexed_height(), Some(42));
    assert_eq!(indexer.db().get_status("core_height"), Some(42));
    assert_eq!(indexer.db().get_status("zrc20_height"), Some(42));
    assert_eq!(indexer.db().get_status("zrc721_height"), Some(42));
    assert_eq!(indexer.db().get_status("names_height"), Some(42));
    assert_eq!(indexer.db().get_status("chain_tip"), None);
    indexer.index_block(43, "hash43", 2, &Vec::new());
    assert_eq!(indexer.db().get_latest_indexed_height(), Some(43));
    assert_eq!(indexer.db().get_status("core_height"), Some(43));
}

#[test]
fn follower_plans_the_next_step() {
    let mut indexer = Indexer::new(Db::new());
    assert_eq!(indexer.plan(100, 99), Step::Wait);
    assert_eq!(indexer.db().get_status("chain_tip"), Some(99));
    assert_eq!(indexer.plan(100, 100), Step::Index(100));
    indexer.index_block(100, "h", 1, &Vec::new());
    assert_eq!(indexer.plan(100, 100), Step::Wait);
    assert_eq!(indexer.plan(100, 105), Step::Index(101));
    assert_eq!(indexer.db().get_status("chain_tip"), Some(105));
    assert_eq!(indexer.plan(0, 0), Step::Wait);
    let mut fresh = Indexer::new(Db::new());
    assert_eq!(fresh.plan(0, 0), Step::Index(0));
}

#[test]
fn indexing_twice_from_scratch_gives_the_same_store() {
    let run = || {
        let mut indexer = after_commit();
        indexer.index_block(101, "hash101", 1700000075, &vec![spending("txD", "txC", 0, vec![pays(0, "t1D")])]);
        let db = indexer.db();
        (
            format!("{:?}", db.get_all_tokens()),
            format!("{:?}", db.list_balances_for_tick("zord", 0, 10)),
            format!("{:?}", db.get_all_names()),
            format!("{:?}", db.get_inscriptions_page(0, 10)),
        )
    };
    assert_eq!(run(), run());
}

#[test]
fn a_block_writes_no_block_but_its_own() {
    let mut indexer = Indexer::new(Db::new());
    indexer.index_block(42, "hash42", 1, &Vec::new());
    assert_eq!(indexer.db().get_all_blocks(), vec![(42, "hash42".to_string())]);
    indexer.index_block(
        43,
        "hash43",
        2,
        &vec![inscribing("tx1", "t1A", "text/plain", "alice.zec")],
    );
    assert_eq!(
        indexer.db().get_all_blocks(),
        vec![(42, "hash42".to_string()), (43, "hash43".to_string())]
    );
    assert_eq!(indexer.db().get_latest_indexed_height(), Some(43));
}

#[test]
fn a_settled_transfer_stays_settled_over_later_blocks() {
    let mut indexer = after_commit();
    indexer.index_block(
        101,
        "hash101",
        1700000075,
        &vec![spending("txD", "txC", 0, vec![pays(0, "t1D")])],
    );
    indexer.index_block(
        102,
        "hash102",
        1700000150,
        &vec![
            inscribing("txE", "t1D", "application/json", TRANSFER_200),
            spending("txF", "txC", 0, vec![pays(0, "t1A")]),
            spending("txG", "txE", 0, vec![pays(0, "t1A")]),
        ],
    );
    assert!(indexer.db().is_inscription_used("txCi0"));
    assert!(indexer.db().is_inscription_used("txEi0"));
    assert_eq!(
        indexer.db().get_balance("t1B", "zord"),
        Balance { available: 300 * E18, overall: 300 * E18 }
    );
    assert_eq!(indexer.db().get_balance("t1D", "zord"), Balance { available: 0, overall: 0 });
    assert_eq!(
        indexer.db().get_balance("t1A", "zord"),
        Balance { available: 200 * E18, overall: 200 * E18 }
    );
    assert_eq!(indexer.db().count_completed_transfers_for_tick("zord"), 2);
}
