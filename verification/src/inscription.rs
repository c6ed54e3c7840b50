//! Finding the inscription that an input script carries.

use crate::hexcode::{
    hex_decode, hex_decoded, hex_encode, hex_encoded, payload_text, utf8_text,
};
use crate::rpc::{ScriptPubKey, TxResponse, TxView};
use crate::text::{
    chars_of, has_char, has_prefix, same_text, split_words, starts_with, tokens, views,
};
use vstd::prelude::*;
use vstd::string::StringExecFns;
use vstd::utf8::{decode_utf8, valid_utf8};

verus! {

/// An inscription as it is found in a transaction.
#[derive(Debug)]
pub struct Inscription {
    pub inscription_id: String,
    pub sender: String,
    pub receiver: String,
    pub content_type: String,
    pub content: String,
    pub content_hex: String,
}

/// The value that an inscription stands for.
pub struct InscriptionView {
    pub inscription_id: Seq<char>,
    pub sender: Seq<char>,
    pub receiver: Seq<char>,
    pub content_type: Seq<char>,
    pub content: Seq<char>,
    pub content_hex: Seq<char>,
}

impl View for Inscription {
    type V = InscriptionView;

    open spec fn view(&self) -> InscriptionView {
        InscriptionView {
            inscription_id: self.inscription_id@,
            sender: self.sender@,
            receiver: self.receiver@,
            content_type: self.content_type@,
            content: self.content@,
            content_hex: self.content_hex@,
        }
    }
}

/// A push of 70 to 74 bytes that begins like a DER signature.
pub open spec fn looks_like_signature(data: Seq<u8>) -> bool {
    70 <= data.len() <= 74 && data[0] == 0x30
}

/// A push that looks like a public key: 33 bytes led by 2 or 3, 65 bytes
/// led by 4, or the marker 0x21 with at least 33 bytes behind it.
pub open spec fn looks_like_pubkey(data: Seq<u8>) -> bool {
    ||| data.len() == 33 && (data[0] == 0x02 || data[0] == 0x03)
    ||| data.len() == 65 && data[0] == 0x04
    ||| data.len() >= 34 && data[0] == 0x21
}

/// The payload that the pushes from position `j` on make up: words of up
/// to two characters and words that are no hexadecimal pushes are passed
/// over, and a signature or public key among the last three words ends
/// the payload.
pub open spec fn payload_from(parts: Seq<Seq<char>>, j: int) -> Seq<u8>
    decreases parts.len() - j,
{
    if j < 0 || j >= parts.len() {
        Seq::empty()
    } else if parts[j].len() <= 2 || hex_decoded(parts[j]) is None {
        payload_from(parts, j + 1)
    } else {
        let data = hex_decoded(parts[j])->0;
        if j + 3 >= parts.len() && (looks_like_signature(data) || looks_like_pubkey(data)) {
            Seq::empty()
        } else {
            data + payload_from(parts, j + 1)
        }
    }
}

/// The content type that a word states: it is a hexadecimal push of 4 to
/// 99 bytes that are valid UTF-8 and hold a slash.
pub open spec fn stated_type(word: Seq<char>) -> Option<Seq<char>> {
    match hex_decoded(word) {
        Some(bytes) => if valid_utf8(bytes) && decode_utf8(bytes).contains('/') && 3
            < bytes.len() < 100 {
            Some(decode_utf8(bytes))
        } else {
            None
        },
        None => None,
    }
}

/// The first content type from position `i` on that has a payload behind
/// it, with that payload.
pub open spec fn envelope_from(parts: Seq<Seq<char>>, i: int) -> Option<(Seq<char>, Seq<u8>)>
    decreases parts.len() - i,
{
    if i < 0 || i >= parts.len() {
        None
    } else if stated_type(parts[i]) is Some && payload_from(parts, i + 1).len() > 0 {
        Some((stated_type(parts[i])->0, payload_from(parts, i + 1)))
    } else {
        envelope_from(parts, i + 1)
    }
}

/// The address that an output script pays first, and whether it is
/// shielded; `unknown` where it pays none.
pub open spec fn address_of(addresses: Option<Seq<Seq<char>>>) -> (Seq<char>, bool) {
    if addresses is Some && addresses->0.len() > 0 {
        (addresses->0[0], is_shielded(addresses->0[0]))
    } else {
        ("unknown"@, false)
    }
}

/// Whether an address is shielded: it begins with `z`.
pub open spec fn is_shielded(address: Seq<char>) -> bool {
    address.len() > 0 && address[0] == 'z'
}

/// The sender of what a transaction inscribes: the address that its first
/// output pays.
pub open spec fn sender_of(tx: TxView) -> Seq<char> {
    if tx.vout.len() > 0 {
        address_of(tx.vout[0].addresses).0
    } else {
        "unknown"@
    }
}

/// Whether content of this type is kept as text.
pub open spec fn textual(content_type: Seq<char>) -> bool {
    starts_with(content_type, "text/"@) || content_type == "application/json"@
}

/// The inscription that the input script `script` of the transaction
/// `tx` carries under the id made of `txid`.
pub open spec fn inscription_in(script: Seq<char>, txid: Seq<char>, tx: TxView) -> Option<
    InscriptionView,
> {
    match envelope_from(tokens(script), 0) {
        None => None,
        Some(e) => Some(
            InscriptionView {
                inscription_id: txid + "i0"@,
                sender: sender_of(tx),
                receiver: sender_of(tx),
                content_type: e.0,
                content: payload_text(e.1, textual(e.0)),
                content_hex: hex_encoded(e.1),
            },
        ),
    }
}

/// Whether an address is shielded.
pub fn shielded(address: &str) -> (r: bool)
    ensures
        r == is_shielded(address@),
{
    let c = chars_of(address);
    c.len() > 0 && c[0] == 'z'
}

/// The address that an output script pays first, and whether it is
/// shielded.
pub fn classify_address(script: &ScriptPubKey) -> (r: (String, bool))
    ensures
        (r.0@, r.1) == address_of(script@),
{
    match &script.addresses {
        Some(a) => {
            if a.len() > 0 {
                return (a[0].clone(), shielded(a[0].as_str()));
            }
        },
        None => {},
    }
    ("unknown".to_owned(), false)
}

/// Whether a push looks like a signature or a public key.
fn closes_payload(data: &Vec<u8>) -> (r: bool)
    ensures
        r == (looks_like_signature(data@) || looks_like_pubkey(data@)),
{
    let n: usize = data.len();
    if n == 0 {
        return false;
    }
    let first: u8 = data[0];
    (n >= 70 && n <= 74 && first == 0x30) || (n == 33 && (first == 0x02 || first == 0x03)) || (n
        == 65 && first == 0x04) || (n >= 34 && first == 0x21)
}

/// The content type that a word states.
fn read_type(word: &Vec<char>) -> (r: Option<String>)
    ensures
        match r {
            Some(t) => stated_type(word@) == Some(t@),
            None => stated_type(word@) is None,
        },
{
    let bytes = match hex_decode(word) {
        Some(b) => b,
        None => {
            return None;
        },
    };
    let text = match utf8_text(&bytes) {
        Some(t) => t,
        None => {
            return None;
        },
    };
    if has_char(&chars_of(text.as_str()), '/') && bytes.len() > 3 && bytes.len() < 100 {
        Some(text)
    } else {
        None
    }
}

/// The payload that the pushes from position `start` on make up.
fn read_payload(parts: &Vec<Vec<char>>, start: usize) -> (r: Vec<u8>)
    requires
        start <= parts.len(),
    ensures
        r@ == payload_from(views(parts@), start as int),
{
    let ghost words = views(parts@);
    let n: usize = parts.len();
    let mut content: Vec<u8> = Vec::new();
    let mut j: usize = start;
    assert(content@ + payload_from(words, j as int) =~= payload_from(words, start as int));
    while j < n
        invariant
            start <= j <= n,
            n == parts.len(),
            words == views(parts@),
            content@ + payload_from(words, j as int) == payload_from(words, start as int),
        decreases n - j,
    {
        assert(words[j as int] == parts@[j as int]@);
        if parts[j].len() > 2 {
            match hex_decode(&parts[j]) {
                Some(mut data) => {
                    if n - j <= 3 && closes_payload(&data) {
                        assert(content@ + Seq::<u8>::empty() =~= content@);
                        return content;
                    }
                    let ghost before = content@;
                    let ghost chunk = data@;
                    content.append(&mut data);
                    assert((before + chunk) + payload_from(words, j as int + 1) =~= before + (
                    chunk + payload_from(words, j as int + 1)));
                },
                None => {},
            }
        }
        j += 1;
    }
    assert(content@ + Seq::<u8>::empty() =~= content@);
    content
}

/// Finds the inscription that an input script carries: the first content
/// type with a payload behind it.
pub fn parse_inscription(script: &str, txid: &str, tx: &TxResponse) -> (r: Option<Inscription>)
    ensures
        match r {
            Some(i) => inscription_in(script@, txid@, tx@) == Some(i@),
            None => inscription_in(script@, txid@, tx@) is None,
        },
{
    let parts = split_words(&chars_of(script));
    let ghost words = views(parts@);
    let n: usize = parts.len();
    let mut i: usize = 0;
    while i < n
        invariant
            i <= n,
            n == parts.len(),
            words == views(parts@),
            words == tokens(script@),
            envelope_from(words, 0) == envelope_from(words, i as int),
        decreases n - i,
    {
        assert(words[i as int] == parts@[i as int]@);
        match read_type(&parts[i]) {
            Some(content_type) => {
                let payload = read_payload(&parts, i + 1);
                if payload.len() > 0 {
                    let content_hex = hex_encode(&payload);
                    let kind = chars_of(content_type.as_str());
                    let as_text = has_prefix(&kind, &chars_of("text/")) || same_text(
                        content_type.as_str(),
                        "application/json",
                    );
                    let content = if as_text {
                        match utf8_text(&payload) {
                            Some(t) => t,
                            None => content_hex.clone(),
                        }
                    } else {
                        content_hex.clone()
                    };
                    let sender = if tx.vout.len() > 0 {
                        assert(tx@.vout[0] == tx.vout@[0]@);
                        classify_address(&tx.vout[0].script_pub_key).0
                    } else {
                        "unknown".to_owned()
                    };
                    let mut inscription_id = txid.to_owned();
                    inscription_id.append("i0");
                    return Some(
                        Inscription {
                            inscription_id,
                            receiver: sender.clone(),
                            sender,
                            content_type,
                            content,
                            content_hex,
                        },
                    );
                }
            },
            None => {},
        }
        i += 1;
    }
    None
}

} // verus!
