//! The mathematical state of the store, and what each of its primitive
//! operations does to it.

use crate::records::{
    Balance, InscriptionMetaView, NameRecordView, TokenInfoView, TransferIntentView,
    Zrc721CollectionView, Zrc721TokenView,
};
use crate::table::{distinct, erase, has_key, lookup, upsert};
use crate::amount::{decimal_number, without_plus};
use vstd::prelude::*;

verus! {

/// A text: the characters of a string.
pub type Text = Seq<char>;

/// An output of a transaction: the id of the transaction and the number
/// of the output.
pub type Outpoint = (Text, u32);

/// Why a primitive of the store refused an operation.
#[derive(Debug, Clone, Copy, PartialEq, Eq, Structural)]
pub enum DbError {
    TokenExists,
    TokenNotFound,
    SupplyOverflow,
    AvailableOverflow,
    InsufficientAvailable,
    OverallOverflow,
    InsufficientOverall,
    CollectionExists,
    CollectionNotFound,
    TokenAlreadyMinted,
    MaxTokenCountReached,
    TokenIdOutOfRange,
    NftNotFound,
    NameTaken,
    SumOverflow,
}

/// The balance of an address that holds nothing.
pub open spec fn no_balance() -> Balance {
    Balance { available: 0, overall: 0 }
}

/// A change to one part of a balance: none, a rise or a fall by an amount
/// of base units.
#[derive(Debug, Clone, Copy, PartialEq, Eq, Structural)]
pub enum Change {
    Keep,
    Raise(u128),
    Lower(u128),
}

/// A part of a balance after a change, as a whole number.
pub open spec fn changed(part: u128, change: Change) -> int {
    match change {
        Change::Keep => part as int,
        Change::Raise(n) => part + n,
        Change::Lower(n) => part - n,
    }
}

/// A balance after changes to both of its parts. A part that would exceed
/// 128 bits overflows, one that would fall below zero is insufficient; the
/// available part is judged first.
pub open spec fn apply_change(b: Balance, available: Change, overall: Change) -> Result<
    Balance,
    DbError,
> {
    if changed(b.available, available) > u128::MAX {
        Err(DbError::AvailableOverflow)
    } else if changed(b.available, available) < 0 {
        Err(DbError::InsufficientAvailable)
    } else if changed(b.overall, overall) > u128::MAX {
        Err(DbError::OverallOverflow)
    } else if changed(b.overall, overall) < 0 {
        Err(DbError::InsufficientOverall)
    } else {
        Ok(
            Balance {
                available: changed(b.available, available) as u128,
                overall: changed(b.overall, overall) as u128,
            },
        )
    }
}

/// A balance after signed changes to both of its parts. A part that would
/// exceed 128 bits overflows, one that would fall below zero is
/// insufficient; the available part is judged first.
pub open spec fn apply_delta(b: Balance, available_delta: i128, overall_delta: i128) -> Result<
    Balance,
    DbError,
> {
    if b.available + available_delta > u128::MAX {
        Err(DbError::AvailableOverflow)
    } else if b.available + available_delta < 0 {
        Err(DbError::InsufficientAvailable)
    } else if b.overall + overall_delta > u128::MAX {
        Err(DbError::OverallOverflow)
    } else if b.overall + overall_delta < 0 {
        Err(DbError::InsufficientOverall)
    } else {
        Ok(
            Balance {
                available: (b.available + available_delta) as u128,
                overall: (b.overall + overall_delta) as u128,
            },
        )
    }
}

/// A signed change as a rise or a fall.
pub open spec fn change_of(delta: i128) -> Change {
    if delta >= 0 {
        Change::Raise(delta as u128)
    } else {
        Change::Lower((-delta) as u128)
    }
}

/// Signed changes do what the rises and falls they stand for do.
pub proof fn lemma_delta_is_change(b: Balance, available_delta: i128, overall_delta: i128)
    ensures
        apply_delta(b, available_delta, overall_delta) == apply_change(
            b,
            change_of(available_delta),
            change_of(overall_delta),
        ),
{
}

/// The number of tokens that a collection with this `supply` text admits,
/// where the text states one: the text is decimal digits of any length, with
/// or without a plus sign before them.
pub open spec fn supply_cap(supply: Text) -> Option<nat> {
    decimal_number(without_plus(supply))
}

/// Everything the store holds. Each table lists its entries in the order
/// in which their keys first arrived.
#[verifier::ext_equal]
pub struct Ledger {
    pub blocks: Seq<(u64, Text)>,
    pub inscriptions: Seq<(Text, InscriptionMetaView)>,
    pub numbers: Seq<Text>,
    pub by_address: Seq<(Text, Seq<Text>)>,
    pub tokens: Seq<(Text, TokenInfoView)>,
    pub balances: Seq<((Text, Text), Balance)>,
    pub transfers: Seq<(Text, TransferIntentView)>,
    pub transfer_outpoints: Seq<(Outpoint, Text)>,
    pub used: Seq<(Text, bool)>,
    pub collections: Seq<(Text, Zrc721CollectionView)>,
    pub nfts: Seq<((Text, Text), Zrc721TokenView)>,
    pub nft_outpoints: Seq<(Outpoint, (Text, Text))>,
    pub names: Seq<(Text, NameRecordView)>,
    pub status: Seq<(Text, u64)>,
    pub burned: Seq<(Text, u128)>,
}

impl Ledger {
    /// The store before anything was indexed.
    pub open spec fn empty() -> Ledger {
        Ledger {
            blocks: Seq::empty(),
            inscriptions: Seq::empty(),
            numbers: Seq::empty(),
            by_address: Seq::empty(),
            tokens: Seq::empty(),
            balances: Seq::empty(),
            transfers: Seq::empty(),
            transfer_outpoints: Seq::empty(),
            used: Seq::empty(),
            collections: Seq::empty(),
            nfts: Seq::empty(),
            nft_outpoints: Seq::empty(),
            names: Seq::empty(),
            status: Seq::empty(),
            burned: Seq::empty(),
        }
    }

    /// No table holds a key twice.
    pub open spec fn wf(self) -> bool {
        &&& distinct(self.blocks)
        &&& distinct(self.inscriptions)
        &&& distinct(self.by_address)
        &&& distinct(self.tokens)
        &&& distinct(self.balances)
        &&& distinct(self.transfers)
        &&& distinct(self.transfer_outpoints)
        &&& distinct(self.used)
        &&& distinct(self.collections)
        &&& distinct(self.nfts)
        &&& distinct(self.nft_outpoints)
        &&& distinct(self.names)
        &&& distinct(self.status)
        &&& distinct(self.burned)
    }

    /// What `address` holds of `tick`.
    pub open spec fn balance(self, address: Text, tick: Text) -> Balance {
        match lookup(self.balances, (address, tick)) {
            Some(b) => b,
            None => no_balance(),
        }
    }

    /// Whether the inscription `id` has been marked as used.
    pub open spec fn is_used(self, id: Text) -> bool {
        lookup(self.used, id) == Some(true)
    }

    /// The minted supply of `tick`; zero for a token that was not deployed.
    pub open spec fn supply_of(self, tick: Text) -> nat {
        match lookup(self.tokens, tick) {
            Some(t) => t.supply as nat,
            None => 0,
        }
    }

    /// The burned amount of `tick`.
    pub open spec fn burned_of(self, tick: Text) -> nat {
        match lookup(self.burned, tick) {
            Some(b) => b as nat,
            None => 0,
        }
    }

    /// The inscriptions that `address` has sent.
    pub open spec fn sent_by(self, address: Text) -> Seq<Text> {
        match lookup(self.by_address, address) {
            Some(ids) => ids,
            None => Seq::empty(),
        }
    }

    /// Keeps the hash of a block and moves the core height to it.
    pub open spec fn insert_block(self, height: u64, hash: Text) -> Ledger {
        Ledger {
            blocks: upsert(self.blocks, height, hash),
            status: upsert(self.status, "core_height"@, height),
            ..self
        }
    }

    /// Sets one status value.
    pub open spec fn set_status(self, key: Text, value: u64) -> Ledger {
        Ledger { status: upsert(self.status, key, value), ..self }
    }

    /// Keeps the inscription. Where its id is new, it is given the next
    /// ordinal number and listed under its sender; where the id was kept
    /// before, only what is kept of it is replaced.
    pub open spec fn insert_inscription(self, id: Text, meta: InscriptionMetaView) -> Ledger {
        if has_key(self.inscriptions, id) {
            Ledger { inscriptions: upsert(self.inscriptions, id, meta), ..self }
        } else {
            Ledger {
                inscriptions: upsert(self.inscriptions, id, meta),
                numbers: self.numbers.push(id),
                by_address: upsert(
                    self.by_address,
                    meta.sender,
                    self.sent_by(meta.sender).push(id),
                ),
                ..self
            }
        }
    }

    /// Registers a token under a ticker that is free.
    pub open spec fn deploy_token(self, tick: Text, info: TokenInfoView) -> Result<
        Ledger,
        DbError,
    > {
        if has_key(self.tokens, tick) {
            Err(DbError::TokenExists)
        } else {
            Ok(Ledger { tokens: self.tokens.push((tick, info)), ..self })
        }
    }

    /// Sets the supply of a registered token.
    pub open spec fn update_token_supply(self, tick: Text, supply: u128) -> Result<
        Ledger,
        DbError,
    > {
        match lookup(self.tokens, tick) {
            None => Err(DbError::TokenNotFound),
            Some(info) => Ok(
                Ledger {
                    tokens: upsert(self.tokens, tick, TokenInfoView { supply: supply, ..info }),
                    ..self
                },
            ),
        }
    }

    /// Raises the supply of `tick` and both parts of the balance of
    /// `address` by `amt`, or changes nothing.
    pub open spec fn mint_credit(self, tick: Text, address: Text, amt: u128) -> Result<
        Ledger,
        DbError,
    > {
        let held = self.balance(address, tick);
        match lookup(self.tokens, tick) {
            None => Err(DbError::TokenNotFound),
            Some(info) => if info.supply + amt > u128::MAX {
                Err(DbError::SupplyOverflow)
            } else if held.available + amt > u128::MAX {
                Err(DbError::AvailableOverflow)
            } else if held.overall + amt > u128::MAX {
                Err(DbError::OverallOverflow)
            } else {
                Ok(
                    Ledger {
                        tokens: upsert(
                            self.tokens,
                            tick,
                            TokenInfoView { supply: (info.supply + amt) as u128, ..info },
                        ),
                        balances: upsert(
                            self.balances,
                            (address, tick),
                            Balance {
                                available: (held.available + amt) as u128,
                                overall: (held.overall + amt) as u128,
                            },
                        ),
                        ..self
                    },
                )
            },
        }
    }

    /// Raises or lowers both parts of a balance, or changes nothing.
    pub open spec fn change_balance(
        self,
        address: Text,
        tick: Text,
        available: Change,
        overall: Change,
    ) -> Result<Ledger, DbError> {
        match apply_change(self.balance(address, tick), available, overall) {
            Err(e) => Err(e),
            Ok(b) => Ok(Ledger { balances: upsert(self.balances, (address, tick), b), ..self }),
        }
    }

    /// Changes both parts of a balance by signed amounts, or changes
    /// nothing.
    pub open spec fn update_balance(
        self,
        address: Text,
        tick: Text,
        available_delta: i128,
        overall_delta: i128,
    ) -> Result<Ledger, DbError> {
        match apply_delta(self.balance(address, tick), available_delta, overall_delta) {
            Err(e) => Err(e),
            Ok(b) => Ok(Ledger { balances: upsert(self.balances, (address, tick), b), ..self }),
        }
    }

    /// Records a transfer intent and marks its inscription as not yet used.
    pub open spec fn create_transfer(self, id: Text, intent: TransferIntentView) -> Ledger {
        Ledger {
            transfers: upsert(self.transfers, id, intent),
            used: upsert(self.used, id, false),
            ..self
        }
    }

    /// Notes that an outpoint carries a transfer intent.
    pub open spec fn register_transfer_outpoint(self, txid: Text, vout: u32, id: Text) -> Ledger {
        Ledger { transfer_outpoints: upsert(self.transfer_outpoints, (txid, vout), id), ..self }
    }

    /// Forgets what an outpoint carried of transfer intents.
    pub open spec fn remove_transfer_outpoint(self, txid: Text, vout: u32) -> Ledger {
        Ledger { transfer_outpoints: erase(self.transfer_outpoints, (txid, vout)), ..self }
    }

    /// Marks an inscription as used.
    pub open spec fn mark_used(self, id: Text) -> Ledger {
        Ledger { used: upsert(self.used, id, true), ..self }
    }

    /// Registers a collection under a ticker that is free.
    pub open spec fn register_collection(self, tick: Text, c: Zrc721CollectionView) -> Result<
        Ledger,
        DbError,
    > {
        if has_key(self.collections, tick) {
            Err(DbError::CollectionExists)
        } else {
            Ok(Ledger { collections: self.collections.push((tick, c)), ..self })
        }
    }

    /// Adds a token to a collection and counts it, or changes nothing. Where
    /// the collection states a cap, the count may not have reached it, and
    /// the token's id must be decimal digits that state a number below it.
    pub open spec fn insert_nft(
        self,
        tick: Text,
        token_id: Text,
        owner: Text,
        inscription_id: Text,
        metadata: Text,
    ) -> Result<Ledger, DbError> {
        if has_key(self.nfts, (tick, token_id)) {
            Err(DbError::TokenAlreadyMinted)
        } else {
            match lookup(self.collections, tick) {
                None => Err(DbError::CollectionNotFound),
                Some(c) => if supply_cap(c.supply) is Some && c.minted >= supply_cap(c.supply)->0 {
                    Err(DbError::MaxTokenCountReached)
                } else if supply_cap(c.supply) is Some && !(decimal_number(token_id) matches Some(
                    n,
                ) && n < supply_cap(c.supply)->0) {
                    Err(DbError::TokenIdOutOfRange)
                } else if c.minted == u64::MAX {
                    Err(DbError::MaxTokenCountReached)
                } else {
                    Ok(
                        Ledger {
                            collections: upsert(
                                self.collections,
                                tick,
                                Zrc721CollectionView { minted: (c.minted + 1) as u64, ..c },
                            ),
                            nfts: self.nfts.push(
                                (
                                    (tick, token_id),
                                    Zrc721TokenView {
                                        tick: tick,
                                        token_id: token_id,
                                        owner: owner,
                                        inscription_id: inscription_id,
                                        metadata: metadata,
                                        burned: false,
                                    },
                                ),
                            ),
                            ..self
                        },
                    )
                },
            }
        }
    }

    /// Notes that an outpoint carries a token.
    pub open spec fn register_nft_outpoint(
        self,
        txid: Text,
        vout: u32,
        tick: Text,
        token_id: Text,
    ) -> Ledger {
        Ledger { nft_outpoints: upsert(self.nft_outpoints, (txid, vout), (tick, token_id)), ..self }
    }

    /// Forgets the token that an outpoint carried.
    pub open spec fn remove_nft_outpoint(self, txid: Text, vout: u32) -> Ledger {
        Ledger { nft_outpoints: erase(self.nft_outpoints, (txid, vout)), ..self }
    }

    /// Moves what the outpoint `(from_txid, from_vout)` carries to
    /// `(txid, vout)`; nothing changes where it carries nothing.
    pub open spec fn move_nft_outpoint(
        self,
        from_txid: Text,
        from_vout: u32,
        txid: Text,
        vout: u32,
    ) -> Ledger {
        match lookup(self.nft_outpoints, (from_txid, from_vout)) {
            None => self,
            Some(carried) => Ledger {
                nft_outpoints: upsert(
                    erase(self.nft_outpoints, (from_txid, from_vout)),
                    (txid, vout),
                    carried,
                ),
                ..self
            },
        }
    }

    /// Sets the owner of a token and whether it counts as burned.
    pub open spec fn update_nft_owner(
        self,
        tick: Text,
        token_id: Text,
        owner: Text,
        burned: bool,
    ) -> Result<Ledger, DbError> {
        match lookup(self.nfts, (tick, token_id)) {
            None => Err(DbError::NftNotFound),
            Some(t) => Ok(
                Ledger {
                    nfts: upsert(
                        self.nfts,
                        (tick, token_id),
                        Zrc721TokenView { owner: owner, burned: burned, ..t },
                    ),
                    ..self
                },
            ),
        }
    }

    /// Registers a name that is free.
    pub open spec fn register_name(self, name: Text, record: NameRecordView) -> Result<
        Ledger,
        DbError,
    > {
        if has_key(self.names, name) {
            Err(DbError::NameTaken)
        } else {
            Ok(Ledger { names: self.names.push((name, record)), ..self })
        }
    }
}

/// An operation that either succeeds with a new state or fails with an
/// error and leaves the state as it was: `result` and `after` are what
/// `expected` asks for.
pub open spec fn outcome<E>(
    before: Ledger,
    expected: Result<Ledger, E>,
    result: Result<(), E>,
    after: Ledger,
) -> bool {
    match expected {
        Ok(s) => result is Ok && after == s,
        Err(e) => result == Err::<(), E>(e) && after == before,
    }
}

} // verus!
