//! The rows that the tables of the store hold, each with the mathematical
//! value it stands for.

use crate::table::Stored;
use vstd::prelude::*;

verus! {

/// Spendable and total holdings of one address in one token, in base units.
#[derive(Debug, Clone, Copy, PartialEq, Eq, Structural)]
pub struct Balance {
    pub available: u128,
    pub overall: u128,
}

impl View for Balance {
    type V = Balance;

    open spec fn view(&self) -> Balance {
        *self
    }
}

impl Stored for Balance {
    fn duplicate(&self) -> (r: Self) {
        *self
    }
}

/// A deployed fungible token.
#[derive(Debug)]
pub struct TokenInfo {
    pub tick: String,
    pub max: String,
    pub lim: String,
    pub dec: String,
    pub deployer: String,
    pub supply: u128,
    pub inscription_id: String,
}

/// The value that a token row stands for.
pub struct TokenInfoView {
    pub tick: Seq<char>,
    pub max: Seq<char>,
    pub lim: Seq<char>,
    pub dec: Seq<char>,
    pub deployer: Seq<char>,
    pub supply: u128,
    pub inscription_id: Seq<char>,
}

impl View for TokenInfo {
    type V = TokenInfoView;

    open spec fn view(&self) -> TokenInfoView {
        TokenInfoView {
            tick: self.tick@,
            max: self.max@,
            lim: self.lim@,
            dec: self.dec@,
            deployer: self.deployer@,
            supply: self.supply,
            inscription_id: self.inscription_id@,
        }
    }
}

impl Stored for TokenInfo {
    fn duplicate(&self) -> (r: Self) {
        TokenInfo {
            tick: self.tick.clone(),
            max: self.max.clone(),
            lim: self.lim.clone(),
            dec: self.dec.clone(),
            deployer: self.deployer.clone(),
            supply: self.supply,
            inscription_id: self.inscription_id.clone(),
        }
    }
}

/// A transfer that was committed and waits for the spend that settles it.
#[derive(Debug)]
pub struct TransferIntent {
    pub tick: String,
    pub amt: u128,
    pub sender: String,
}

/// The value that a transfer intent stands for.
pub struct TransferIntentView {
    pub tick: Seq<char>,
    pub amt: u128,
    pub sender: Seq<char>,
}

impl View for TransferIntent {
    type V = TransferIntentView;

    open spec fn view(&self) -> TransferIntentView {
        TransferIntentView { tick: self.tick@, amt: self.amt, sender: self.sender@ }
    }
}

impl Stored for TransferIntent {
    fn duplicate(&self) -> (r: Self) {
        TransferIntent { tick: self.tick.clone(), amt: self.amt, sender: self.sender.clone() }
    }
}

/// A deployed collection of non-fungible tokens. `meta` holds a JSON text.
#[derive(Debug)]
pub struct Zrc721Collection {
    pub collection: String,
    pub supply: String,
    pub meta: String,
    pub royalty: String,
    pub minted: u64,
    pub deployer: String,
    pub inscription_id: String,
}

/// The value that a collection row stands for.
pub struct Zrc721CollectionView {
    pub collection: Seq<char>,
    pub supply: Seq<char>,
    pub meta: Seq<char>,
    pub royalty: Seq<char>,
    pub minted: u64,
    pub deployer: Seq<char>,
    pub inscription_id: Seq<char>,
}

impl View for Zrc721Collection {
    type V = Zrc721CollectionView;

    open spec fn view(&self) -> Zrc721CollectionView {
        Zrc721CollectionView {
            collection: self.collection@,
            supply: self.supply@,
            meta: self.meta@,
            royalty: self.royalty@,
            minted: self.minted,
            deployer: self.deployer@,
            inscription_id: self.inscription_id@,
        }
    }
}

impl Stored for Zrc721Collection {
    fn duplicate(&self) -> (r: Self) {
        Zrc721Collection {
            collection: self.collection.clone(),
            supply: self.supply.clone(),
            meta: self.meta.clone(),
            royalty: self.royalty.clone(),
            minted: self.minted,
            deployer: self.deployer.clone(),
            inscription_id: self.inscription_id.clone(),
        }
    }
}

/// One minted non-fungible token. `metadata` holds a JSON text; `burned`
/// is set once the token has left into a shielded output.
#[derive(Debug)]
pub struct Zrc721Token {
    pub tick: String,
    pub token_id: String,
    pub owner: String,
    pub inscription_id: String,
    pub metadata: String,
    pub burned: bool,
}

/// The value that a token of a collection stands for.
pub struct Zrc721TokenView {
    pub tick: Seq<char>,
    pub token_id: Seq<char>,
    pub owner: Seq<char>,
    pub inscription_id: Seq<char>,
    pub metadata: Seq<char>,
    pub burned: bool,
}

impl View for Zrc721Token {
    type V = Zrc721TokenView;

    open spec fn view(&self) -> Zrc721TokenView {
        Zrc721TokenView {
            tick: self.tick@,
            token_id: self.token_id@,
            owner: self.owner@,
            inscription_id: self.inscription_id@,
            metadata: self.metadata@,
            burned: self.burned,
        }
    }
}

impl Stored for Zrc721Token {
    fn duplicate(&self) -> (r: Self) {
        Zrc721Token {
            tick: self.tick.clone(),
            token_id: self.token_id.clone(),
            owner: self.owner.clone(),
            inscription_id: self.inscription_id.clone(),
            metadata: self.metadata.clone(),
            burned: self.burned,
        }
    }
}

/// A registered name. `name` keeps the case it was written in.
#[derive(Debug)]
pub struct NameRecord {
    pub name: String,
    pub name_lower: String,
    pub owner: String,
    pub inscription_id: String,
}

/// The value that a name record stands for.
pub struct NameRecordView {
    pub name: Seq<char>,
    pub name_lower: Seq<char>,
    pub owner: Seq<char>,
    pub inscription_id: Seq<char>,
}

impl View for NameRecord {
    type V = NameRecordView;

    open spec fn view(&self) -> NameRecordView {
        NameRecordView {
            name: self.name@,
            name_lower: self.name_lower@,
            owner: self.owner@,
            inscription_id: self.inscription_id@,
        }
    }
}

impl Stored for NameRecord {
    fn duplicate(&self) -> (r: Self) {
        NameRecord {
            name: self.name.clone(),
            name_lower: self.name_lower.clone(),
            owner: self.owner.clone(),
            inscription_id: self.inscription_id.clone(),
        }
    }
}

/// What is kept of an inscription.
#[derive(Debug)]
pub struct InscriptionMeta {
    pub id: String,
    pub content: String,
    pub content_hex: String,
    pub content_type: String,
    pub txid: String,
    pub vout: u32,
    pub sender: String,
    pub receiver: String,
    pub block_height: u64,
    pub block_time: u64,
}

/// The value that the record of an inscription stands for.
pub struct InscriptionMetaView {
    pub id: Seq<char>,
    pub content: Seq<char>,
    pub content_hex: Seq<char>,
    pub content_type: Seq<char>,
    pub txid: Seq<char>,
    pub vout: u32,
    pub sender: Seq<char>,
    pub receiver: Seq<char>,
    pub block_height: u64,
    pub block_time: u64,
}

impl View for InscriptionMeta {
    type V = InscriptionMetaView;

    open spec fn view(&self) -> InscriptionMetaView {
        InscriptionMetaView {
            id: self.id@,
            content: self.content@,
            content_hex: self.content_hex@,
            content_type: self.content_type@,
            txid: self.txid@,
            vout: self.vout,
            sender: self.sender@,
            receiver: self.receiver@,
            block_height: self.block_height,
            block_time: self.block_time,
        }
    }
}

impl Stored for InscriptionMeta {
    fn duplicate(&self) -> (r: Self) {
        InscriptionMeta {
            id: self.id.clone(),
            content: self.content.clone(),
            content_hex: self.content_hex.clone(),
            content_type: self.content_type.clone(),
            txid: self.txid.clone(),
            vout: self.vout,
            sender: self.sender.clone(),
            receiver: self.receiver.clone(),
            block_height: self.block_height,
            block_time: self.block_time,
        }
    }
}

/// The views of a sequence of strings.
pub open spec fn texts(v: Seq<String>) -> Seq<Seq<char>> {
    v.map_values(|s: String| s@)
}

/// A copy of a vector of strings.
pub fn copy_texts(v: &Vec<String>) -> (r: Vec<String>)
    ensures
        texts(r@) == texts(v@),
{
    let mut r: Vec<String> = Vec::new();
    let mut i: usize = 0;
    while i < v.len()
        invariant
            i <= v.len(),
            r.len() == i,
            forall|k: int| 0 <= k < i ==> (#[trigger] r@[k])@ == v@[k]@,
        decreases v.len() - i,
    {
        r.push(v[i].clone());
        i += 1;
    }
    assert(texts(r@) =~= texts(v@));
    r
}

/// The inscriptions that one address has sent, oldest first.
#[derive(Debug)]
pub struct IdList {
    pub ids: Vec<String>,
}

impl View for IdList {
    type V = Seq<Seq<char>>;

    open spec fn view(&self) -> Seq<Seq<char>> {
        texts(self.ids@)
    }
}

impl Stored for IdList {
    fn duplicate(&self) -> (r: Self) {
        IdList { ids: copy_texts(&self.ids) }
    }
}

} // verus!
