use zord::inscription::{classify_address, parse_inscription, shielded};
use zord::rpc::{ScriptPubKey, TxResponse, Vout};

fn hex(bytes: &[u8]) -> String {
    let mut out = String::new();
    for b in bytes {
        out.push_str(&format!("{:02x}", b));
    }
    out
}

fn pays(n: u32, addresses: Option<Vec<&str>>) -> Vout {
    Vout {
        n,
        script_pub_key: ScriptPubKey {
            hex: String::new(),
            script: String::new(),
            kind: "pubkeyhash".to_string(),
            addresses: addresses.map(|a| a.into_iter().map(|s| s.to_string()).collect()),
        },
    }
}

fn tx_paying(address: &str) -> TxResponse {
    TxResponse {
        txid: "tx1".to_string(),
        hex: String::new(),
        vin: Vec::new(),
        vout: vec![pays(0, Some(vec![address]))],
    }
}

fn signature() -> Vec<u8> {
    let mut s = vec![0x30u8];
    s.extend(std::iter::repeat(0x11u8).take(70));
    s
}

fn pubkey() -> Vec<u8> {
    let mut k = vec![0x02u8];
    k.extend(std::iter::repeat(0x22u8).take(32));
    k
}

#[test]
fn content_type_followed_by_payload() {
    let script = format!("{} {}", hex(b"text/plain"), hex(b"hello"));
    let found = parse_inscription(&script, "tx1", &tx_paying("t1A")).unwrap();
    assert_eq!(found.inscription_id, "tx1i0");
    assert_eq!(found.sender, "t1A");
    assert_eq!(found.receiver, "t1A");
    assert_eq!(found.content_type, "text/plain");
    assert_eq!(found.content, "hello");
    assert_eq!(found.content_hex, "68656c6c6f");
}

#[test]
fn payload_chunks_are_joined() {
    let script = format!("{} {} {}", hex(b"text/plain"), hex(b"hel"), hex(b"lo!"));
    let found = parse_inscription(&script, "tx1", &tx_paying("t1A")).unwrap();
    assert_eq!(found.content, "hello!");
    assert_eq!(found.content_hex, "68656c6c6f21");
}

#[test]
fn signature_and_pubkey_at_the_end_close_the_payload() {
    let script = format!(
        "{} {} {} {}",
        hex(b"application/json"),
        hex(b"{\"a\":1}"),
        hex(&signature()),
        hex(&pubkey())
    );
    let found = parse_inscription(&script, "tx9", &tx_paying("t1A")).unwrap();
    assert_eq!(found.content_type, "application/json");
    assert_eq!(found.content, "{\"a\":1}");
    assert_eq!(found.inscription_id, "tx9i0");
}

#[test]
fn signature_far_from_the_end_is_payload() {
    let sig = signature();
    let script = format!(
        "{} {} {} {} {} {}",
        hex(b"image/png"),
        hex(&sig),
        hex(b"aa"),
        hex(b"bb"),
        hex(b"cc"),
        hex(b"dd")
    );
    let found = parse_inscription(&script, "tx1", &tx_paying("t1A")).unwrap();
    let mut expected = hex(&sig);
    expected.push_str(&hex(b"aabbccdd"));
    assert_eq!(found.content_hex, expected);
    assert_eq!(found.content, expected);
}

#[test]
fn uncompressed_and_marked_pubkeys_close_the_payload() {
    let mut long_key = vec![0x04u8];
    long_key.extend(std::iter::repeat(0x33u8).take(64));
    let script = format!("{} {} {}", hex(b"text/plain"), hex(b"hi!"), hex(&long_key));
    assert_eq!(parse_inscription(&script, "t", &tx_paying("t1A")).unwrap().content, "hi!");
    let mut marked = vec![0x21u8];
    marked.extend(std::iter::repeat(0x44u8).take(33));
    let script = format!("{} {} {}", hex(b"text/plain"), hex(b"hi!"), hex(&marked));
    assert_eq!(parse_inscription(&script, "t", &tx_paying("t1A")).unwrap().content, "hi!");
}

#[test]
fn short_words_and_words_that_are_no_hex_are_passed_over() {
    let script = format!("{} 0 51 OP_DROP {} zz", hex(b"text/plain"), hex(b"abc"));
    let found = parse_inscription(&script, "tx1", &tx_paying("t1A")).unwrap();
    assert_eq!(found.content, "abc");
}

#[test]
fn one_byte_pushes_are_passed_over() {
    let script = format!("{} 41 {}", hex(b"text/plain"), hex(b"bc"));
    let found = parse_inscription(&script, "tx1", &tx_paying("t1A")).unwrap();
    assert_eq!(found.content, "bc");
}

#[test]
fn upper_case_hex_is_read() {
    let script = format!("{} {}", hex(b"text/plain").to_uppercase(), hex(b"Hello").to_uppercase());
    let found = parse_inscription(&script, "tx1", &tx_paying("t1A")).unwrap();
    assert_eq!(found.content_type, "text/plain");
    assert_eq!(found.content, "Hello");
    assert_eq!(found.content_hex, "48656c6c6f");
}

#[test]
fn content_type_needs_a_slash_and_four_to_ninety_nine_bytes() {
    let payload = hex(b"data");
    assert!(parse_inscription(&format!("{} {}", hex(b"a/b"), payload), "t", &tx_paying("a")).is_none());
    assert!(parse_inscription(&format!("{} {}", hex(b"abcd"), payload), "t", &tx_paying("a")).is_none());
    let found = parse_inscription(&format!("{} {}", hex(b"a/bc"), payload), "t", &tx_paying("a"));
    assert_eq!(found.unwrap().content_type, "a/bc");
    let mut long = b"x/".to_vec();
    long.extend(std::iter::repeat(b'y').take(97));
    assert_eq!(long.len(), 99);
    let found = parse_inscription(&format!("{} {}", hex(&long), payload), "t", &tx_paying("a"));
    assert!(found.is_some());
    long.push(b'y');
    let script = format!("{} {}", hex(&long), hex(b"zz"));
    assert!(parse_inscription(&script, "t", &tx_paying("a")).is_none());
}

#[test]
fn content_type_without_payload_is_passed_over() {
    assert!(parse_inscription(&hex(b"text/plain"), "t", &tx_paying("a")).is_none());
    assert!(parse_inscription("", "t", &tx_paying("a")).is_none());
    let script = format!("{} {}", hex(b"text/plain"), hex(&signature()));
    assert!(parse_inscription(&script, "t", &tx_paying("a")).is_none());
}

#[test]
fn first_content_type_with_a_payload_wins() {
    let script = format!("{} {} {}", hex(b"abcdef"), hex(b"text/plain"), hex(b"image/png"));
    let found = parse_inscription(&script, "t", &tx_paying("a")).unwrap();
    assert_eq!(found.content_type, "text/plain");
    assert_eq!(found.content, "image/png");
}

#[test]
fn binary_content_is_kept_as_hex() {
    let script = format!("{} {}", hex(b"image/png"), hex(&[0x89, 0x50, 0x4e, 0x47]));
    let found = parse_inscription(&script, "t", &tx_paying("a")).unwrap();
    assert_eq!(found.content, "89504e47");
    assert_eq!(found.content_hex, "89504e47");
}

#[test]
fn text_that_is_no_utf8_is_kept_as_hex() {
    let script = format!("{} {}", hex(b"text/plain"), hex(&[0xff, 0xfe, 0x41]));
    let found = parse_inscription(&script, "t", &tx_paying("a")).unwrap();
    assert_eq!(found.content, "fffe41");
}

#[test]
fn text_in_utf8_is_decoded() {
    let script = format!("{} {}", hex(b"text/plain"), hex("🔥fire.zcash".as_bytes()));
    let found = parse_inscription(&script, "t", &tx_paying("a")).unwrap();
    assert_eq!(found.content, "🔥fire.zcash");
}

#[test]
fn sender_is_the_first_address_of_the_first_output() {
    let script = format!("{} {}", hex(b"text/plain"), hex(b"abc"));
    let tx = TxResponse {
        txid: "t".to_string(),
        hex: String::new(),
        vin: Vec::new(),
        vout: vec![pays(0, Some(vec!["t1First", "t1Second"])), pays(1, Some(vec!["t1Other"]))],
    };
    assert_eq!(parse_inscription(&script, "t", &tx).unwrap().sender, "t1First");
}

#[test]
fn sender_is_unknown_without_an_address() {
    let script = format!("{} {}", hex(b"text/plain"), hex(b"abc"));
    let no_outputs =
        TxResponse { txid: "t".to_string(), hex: String::new(), vin: Vec::new(), vout: Vec::new() };
    assert_eq!(parse_inscription(&script, "t", &no_outputs).unwrap().sender, "unknown");
    let no_address = TxResponse {
        txid: "t".to_string(),
        hex: String::new(),
        vin: Vec::new(),
        vout: vec![pays(0, None), pays(1, Some(vec!["t1B"]))],
    };
    assert_eq!(parse_inscription(&script, "t", &no_address).unwrap().sender, "unknown");
    let empty = TxResponse {
        txid: "t".to_string(),
        hex: String::new(),
        vin: Vec::new(),
        vout: vec![pays(0, Some(Vec::new()))],
    };
    assert_eq!(parse_inscription(&script, "t", &empty).unwrap().sender, "unknown");
}

#[test]
fn shielded_sender_is_kept_as_it_is() {
    let script = format!("{} {}", hex(b"text/plain"), hex(b"abc"));
    let found = parse_inscription(&script, "t", &tx_paying("zs1shielded")).unwrap();
    assert_eq!(found.sender, "zs1shielded");
    assert_eq!(found.receiver, "zs1shielded");
}

#[test]
fn addresses_are_classified() {
    let t = pays(0, Some(vec!["t1A", "zs1B"]));
    assert_eq!(classify_address(&t.script_pub_key), ("t1A".to_string(), false));
    let z = pays(0, Some(vec!["zs1B"]));
    assert_eq!(classify_address(&z.script_pub_key), ("zs1B".to_string(), true));
    let none = pays(0, None);
    assert_eq!(classify_address(&none.script_pub_key), ("unknown".to_string(), false));
    assert!(shielded("z"));
    assert!(!shielded(""));
    assert!(!shielded("Zs1"));
}
