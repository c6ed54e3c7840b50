//! The collection engine: deploying collections and minting their tokens.

use crate::db::Db;
use crate::json::{
    json_member, opt_str_view, opt_view, optional_json, optional_text, read_json, read_optional,
    read_required, required_text,
};
use crate::laws::{consistent, lemma_nft_process_consistent};
use crate::ledger::{DbError, Ledger};
use crate::records::{Zrc721Collection, Zrc721CollectionView};
use crate::text::{
    all_digits, chars_of, lowercase, lowercase_of, only_digits, same_text, trim_text, trimmed,
};
use crate::zrc20::text_or;
use vstd::prelude::*;

verus! {

/// A collection operation as it is inscribed. `meta` holds the JSON text
/// of that member where the payload has one that is not `null`.
#[derive(Debug)]
pub struct Zrc721Operation {
    pub p: String,
    pub op: String,
    pub tick: Option<String>,
    pub collection: Option<String>,
    pub supply: Option<String>,
    pub meta: Option<String>,
    pub royalty: Option<String>,
    pub id: Option<String>,
    pub to: Option<String>,
}

/// The value that an operation stands for.
pub struct Zrc721OperationView {
    pub p: Seq<char>,
    pub op: Seq<char>,
    pub tick: Option<Seq<char>>,
    pub collection: Option<Seq<char>>,
    pub supply: Option<Seq<char>>,
    pub meta: Option<Seq<char>>,
    pub royalty: Option<Seq<char>>,
    pub id: Option<Seq<char>>,
    pub to: Option<Seq<char>>,
}

impl View for Zrc721Operation {
    type V = Zrc721OperationView;

    open spec fn view(&self) -> Zrc721OperationView {
        Zrc721OperationView {
            p: self.p@,
            op: self.op@,
            tick: opt_view(self.tick),
            collection: opt_view(self.collection),
            supply: opt_view(self.supply),
            meta: opt_view(self.meta),
            royalty: opt_view(self.royalty),
            id: opt_view(self.id),
            to: opt_view(self.to),
        }
    }
}

/// Why the engine refused an operation.
#[derive(Debug, Clone, Copy, PartialEq, Eq, Structural)]
pub enum Zrc721Error {
    /// The payload is no JSON object with string members `p` and `op`, or
    /// one of `tick`, `collection`, `supply`, `royalty`, `id`, `to` is
    /// neither a string nor `null`.
    InvalidJson,
    NotZrc721,
    UnsupportedOp,
    MissingCollection,
    MissingSupply,
    MissingTokenId,
    TokenIdNotNumeric,
    Store(DbError),
}

/// The operation that a payload states.
pub open spec fn parsed_nft_operation(content: Seq<char>) -> Result<
    Zrc721OperationView,
    Zrc721Error,
> {
    let doc = trimmed(content);
    let p = required_text(json_member(doc, "p"@));
    let op = required_text(json_member(doc, "op"@));
    let tick = optional_text(json_member(doc, "tick"@));
    let collection = optional_text(json_member(doc, "collection"@));
    let supply = optional_text(json_member(doc, "supply"@));
    let meta = optional_json(doc, "meta"@);
    let royalty = optional_text(json_member(doc, "royalty"@));
    let id = optional_text(json_member(doc, "id"@));
    let to = optional_text(json_member(doc, "to"@));
    if p is None || op is None || tick is Err || collection is Err || supply is Err || meta
        is Err || royalty is Err || id is Err || to is Err {
        Err(Zrc721Error::InvalidJson)
    } else {
        Ok(
            Zrc721OperationView {
                p: p->0,
                op: op->0,
                tick: tick->Ok_0,
                collection: collection->Ok_0,
                supply: supply->Ok_0,
                meta: meta->Ok_0,
                royalty: royalty->Ok_0,
                id: id->Ok_0,
                to: to->Ok_0,
            },
        )
    }
}

/// The ticker that an operation names: its `tick`, or else its
/// `collection`, in lower case.
pub open spec fn named_collection(op: Zrc721OperationView) -> Option<Seq<char>> {
    if op.tick is Some {
        Some(lowercase_of(op.tick->0))
    } else if op.collection is Some {
        Some(lowercase_of(op.collection->0))
    } else {
        None
    }
}

/// A store failure as an engine failure.
pub open spec fn nft_from_store(r: Result<Ledger, DbError>) -> Result<Ledger, Zrc721Error> {
    match r {
        Ok(s) => Ok(s),
        Err(e) => Err(Zrc721Error::Store(e)),
    }
}

/// Deploy: registers the collection with nothing minted.
pub open spec fn nft_deploy_effect(
    l: Ledger,
    op: Zrc721OperationView,
    inscription_id: Seq<char>,
    deployer: Seq<char>,
) -> Result<Ledger, Zrc721Error> {
    if named_collection(op) is None {
        Err(Zrc721Error::MissingCollection)
    } else if op.supply is None {
        Err(Zrc721Error::MissingSupply)
    } else {
        nft_from_store(
            l.register_collection(
                named_collection(op)->0,
                Zrc721CollectionView {
                    collection: named_collection(op)->0,
                    supply: op.supply->0,
                    meta: text_or(op.meta, "null"@),
                    royalty: text_or(op.royalty, Seq::empty()),
                    minted: 0,
                    deployer: deployer,
                    inscription_id: inscription_id,
                },
            ),
        )
    }
}

/// Mint: adds the token for its owner, who is the sender unless the
/// operation names another, and notes the outpoint that carries it where
/// one is given.
pub open spec fn nft_mint_effect(
    l: Ledger,
    op: Zrc721OperationView,
    inscription_id: Seq<char>,
    sender: Seq<char>,
    txid: Option<Seq<char>>,
    assigned_vout: Option<u32>,
) -> Result<Ledger, Zrc721Error> {
    if named_collection(op) is None {
        Err(Zrc721Error::MissingCollection)
    } else if op.id is None {
        Err(Zrc721Error::MissingTokenId)
    } else if op.id->0.len() == 0 || !all_digits(op.id->0) {
        Err(Zrc721Error::TokenIdNotNumeric)
    } else {
        match l.insert_nft(
            named_collection(op)->0,
            op.id->0,
            text_or(op.to, sender),
            inscription_id,
            text_or(op.meta, "{}"@),
        ) {
            Err(e) => Err(Zrc721Error::Store(e)),
            Ok(minted) => if txid is Some && assigned_vout is Some {
                Ok(
                    minted.register_nft_outpoint(
                        txid->0,
                        assigned_vout->0,
                        named_collection(op)->0,
                        op.id->0,
                    ),
                )
            } else {
                Ok(minted)
            },
        }
    }
}

/// What an operation does to the store: it must belong to the protocol
/// `zrc-721`, in any case, and be a deploy or a mint.
pub open spec fn nft_apply_effect(
    l: Ledger,
    op: Zrc721OperationView,
    inscription_id: Seq<char>,
    sender: Seq<char>,
    txid: Option<Seq<char>>,
    assigned_vout: Option<u32>,
) -> Result<Ledger, Zrc721Error> {
    if lowercase_of(op.p) != "zrc-721"@ {
        Err(Zrc721Error::NotZrc721)
    } else if op.op == "deploy"@ {
        nft_deploy_effect(l, op, inscription_id, sender)
    } else if op.op == "mint"@ {
        nft_mint_effect(l, op, inscription_id, sender, txid, assigned_vout)
    } else {
        Err(Zrc721Error::UnsupportedOp)
    }
}

/// What an event does to the store. Only the creation of an inscription
/// counts; its payload must state an operation, which is then applied.
pub open spec fn nft_process_effect(
    l: Ledger,
    event_type: Seq<char>,
    inscription_id: Seq<char>,
    sender: Seq<char>,
    content: Seq<char>,
    txid: Option<Seq<char>>,
    assigned_vout: Option<u32>,
) -> Result<Ledger, Zrc721Error> {
    if event_type != "inscribe"@ {
        Ok(l)
    } else {
        match parsed_nft_operation(content) {
            Err(e) => Err(e),
            Ok(op) => nft_apply_effect(l, op, inscription_id, sender, txid, assigned_vout),
        }
    }
}

/// An engine operation either succeeds with the new state or fails and
/// leaves the state as it was.
pub open spec fn nft_outcome(
    before: Ledger,
    expected: Result<Ledger, Zrc721Error>,
    result: Result<(), Zrc721Error>,
    after: Ledger,
) -> bool {
    match expected {
        Ok(s) => result is Ok && after == s,
        Err(e) => result == Err::<(), Zrc721Error>(e) && after == before,
    }
}

/// The collection engine.
pub struct Zrc721Engine {}

impl Zrc721Engine {
    /// The engine; it keeps no state of its own.
    pub fn new() -> Self {
        Zrc721Engine {  }
    }

    /// Reads a payload as an operation.
    pub fn parse(&self, content: &str) -> (r: Result<Zrc721Operation, Zrc721Error>)
        ensures
            match r {
                Ok(op) => parsed_nft_operation(content@) == Ok::<
                    Zrc721OperationView,
                    Zrc721Error,
                >(op@),
                Err(e) => parsed_nft_operation(content@) == Err::<
                    Zrc721OperationView,
                    Zrc721Error,
                >(e),
            },
    {
        let doc_owned = trim_text(content);
        let doc = doc_owned.as_str();
        let p = read_required(doc, "p");
        let op = read_required(doc, "op");
        let tick = read_optional(doc, "tick");
        let collection = read_optional(doc, "collection");
        let supply = read_optional(doc, "supply");
        let meta = read_json(doc, "meta");
        let royalty = read_optional(doc, "royalty");
        let id = read_optional(doc, "id");
        let to = read_optional(doc, "to");
        match (p, op, tick, collection, supply, meta, royalty, id, to) {
            (
                Some(p),
                Some(op),
                Ok(tick),
                Ok(collection),
                Ok(supply),
                Ok(meta),
                Ok(royalty),
                Ok(id),
                Ok(to),
            ) => Ok(Zrc721Operation { p, op, tick, collection, supply, meta, royalty, id, to }),
            _ => Err(Zrc721Error::InvalidJson),
        }
    }

    /// Applies an operation.
    pub fn apply(
        &self,
        db: &mut Db,
        op: &Zrc721Operation,
        inscription_id: &str,
        sender: &str,
        txid: Option<&str>,
        assigned_vout: Option<u32>,
    ) -> (r: Result<(), Zrc721Error>)
        requires
            old(db).wf(),
        ensures
            final(db).wf(),
            nft_outcome(
                old(db)@,
                nft_apply_effect(
                    old(db)@,
                    op@,
                    inscription_id@,
                    sender@,
                    opt_str_view(txid),
                    assigned_vout,
                ),
                r,
                final(db)@,
            ),
    {
        if !same_text(lowercase(op.p.as_str()).as_str(), "zrc-721") {
            return Err(Zrc721Error::NotZrc721);
        }
        if same_text(op.op.as_str(), "deploy") {
            self.handle_deploy(db, op, inscription_id, sender)
        } else if same_text(op.op.as_str(), "mint") {
            self.handle_mint(db, op, inscription_id, sender, txid, assigned_vout)
        } else {
            Err(Zrc721Error::UnsupportedOp)
        }
    }

    /// Handles an event for the inscription `inscription_id`.
    pub fn process(
        &self,
        db: &mut Db,
        event_type: &str,
        inscription_id: &str,
        sender: &str,
        content: &str,
        txid: Option<&str>,
        assigned_vout: Option<u32>,
    ) -> (r: Result<(), Zrc721Error>)
        requires
            old(db).wf(),
        ensures
            final(db).wf(),
            nft_outcome(
                old(db)@,
                nft_process_effect(
                    old(db)@,
                    event_type@,
                    inscription_id@,
                    sender@,
                    content@,
                    opt_str_view(txid),
                    assigned_vout,
                ),
                r,
                final(db)@,
            ),
            consistent(old(db)@) ==> consistent(final(db)@),
    {
        proof {
            if consistent(db@) {
                lemma_nft_process_consistent(
                    db@,
                    event_type@,
                    inscription_id@,
                    sender@,
                    content@,
                    opt_str_view(txid),
                    assigned_vout,
                );
            }
        }
        if !same_text(event_type, "inscribe") {
            return Ok(());
        }
        let op = match self.parse(content) {
            Ok(op) => op,
            Err(e) => {
                return Err(e);
            },
        };
        self.apply(db, &op, inscription_id, sender, txid, assigned_vout)
    }

    fn collection_of(&self, op: &Zrc721Operation) -> (r: Option<String>)
        ensures
            opt_view(r) == named_collection(op@),
    {
        match &op.tick {
            Some(t) => Some(lowercase(t.as_str())),
            None => match &op.collection {
                Some(c) => Some(lowercase(c.as_str())),
                None => None,
            },
        }
    }

    fn handle_deploy(
        &self,
        db: &mut Db,
        op: &Zrc721Operation,
        inscription_id: &str,
        deployer: &str,
    ) -> (r: Result<(), Zrc721Error>)
        requires
            old(db).wf(),
        ensures
            final(db).wf(),
            nft_outcome(
                old(db)@,
                nft_deploy_effect(old(db)@, op@, inscription_id@, deployer@),
                r,
                final(db)@,
            ),
    {
        let tick = match self.collection_of(op) {
            Some(t) => t,
            None => {
                return Err(Zrc721Error::MissingCollection);
            },
        };
        let supply = match &op.supply {
            Some(s) => s.clone(),
            None => {
                return Err(Zrc721Error::MissingSupply);
            },
        };
        let royalty = match &op.royalty {
            Some(r) => r.clone(),
            None => String::new(),
        };
        let payload = Zrc721Collection {
            collection: tick.clone(),
            supply,
            meta: match &op.meta {
                Some(m) => m.clone(),
                None => "null".to_owned(),
            },
            royalty,
            minted: 0,
            deployer: deployer.to_owned(),
            inscription_id: inscription_id.to_owned(),
        };
        match db.register_zrc721_collection(tick.as_str(), payload) {
            Ok(()) => Ok(()),
            Err(e) => Err(Zrc721Error::Store(e)),
        }
    }

    fn handle_mint(
        &self,
        db: &mut Db,
        op: &Zrc721Operation,
        inscription_id: &str,
        sender: &str,
        txid: Option<&str>,
        assigned_vout: Option<u32>,
    ) -> (r: Result<(), Zrc721Error>)
        requires
            old(db).wf(),
        ensures
            final(db).wf(),
            nft_outcome(
                old(db)@,
                nft_mint_effect(
                    old(db)@,
                    op@,
                    inscription_id@,
                    sender@,
                    opt_str_view(txid),
                    assigned_vout,
                ),
                r,
                final(db)@,
            ),
    {
        let tick = match self.collection_of(op) {
            Some(t) => t,
            None => {
                return Err(Zrc721Error::MissingCollection);
            },
        };
        let token_id = match &op.id {
            Some(i) => i,
            None => {
                return Err(Zrc721Error::MissingTokenId);
            },
        };
        let id_chars = chars_of(token_id.as_str());
        if id_chars.len() == 0 || !only_digits(&id_chars) {
            return Err(Zrc721Error::TokenIdNotNumeric);
        }
        let owner: &str = match &op.to {
            Some(t) => t.as_str(),
            None => sender,
        };
        let metadata = match &op.meta {
            Some(m) => m.clone(),
            None => "{}".to_owned(),
        };
        if let Err(e) = db.insert_zrc721_token(
            tick.as_str(),
            token_id.as_str(),
            owner,
            inscription_id,
            metadata.as_str(),
        ) {
            return Err(Zrc721Error::Store(e));
        }
        match (txid, assigned_vout) {
            (Some(t), Some(v)) => {
                db.register_zrc721_outpoint(t, v, tick.as_str(), token_id.as_str());
            },
            _ => {},
        }
        Ok(())
    }
}

} // verus!
