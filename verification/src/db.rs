//! The store: the tables that the indexer fills and the reports read.

use crate::laws::{consistent, lemma_empty_sound};
use crate::ledger::{
    apply_change, apply_delta, change_of, changed, outcome, Change, DbError, Ledger,
};
use crate::records::{
    copy_texts, texts, Balance, IdList, InscriptionMeta, NameRecord, TokenInfo, TransferIntent,
    Zrc721Collection, Zrc721Token,
};
use crate::table::{
    found, has_key, lemma_erase, lemma_upsert, lookup, pairs, Stored, Table,
};
use crate::amount::{decimal_less, is_decimal, strip_plus};
use crate::text::{chars_of, parse_bounded};
use vstd::prelude::*;

verus! {

/// The store. It holds every table in memory; reading it never fails, and a
/// write either takes place as a whole or not at all.
pub struct Db {
    blocks: Table<u64, String>,
    inscriptions: Table<String, InscriptionMeta>,
    numbers: Vec<String>,
    by_address: Table<String, IdList>,
    tokens: Table<String, TokenInfo>,
    balances: Table<(String, String), Balance>,
    transfers: Table<String, TransferIntent>,
    transfer_outpoints: Table<(String, u32), String>,
    used: Table<String, bool>,
    collections: Table<String, Zrc721Collection>,
    nfts: Table<(String, String), Zrc721Token>,
    nft_outpoints: Table<(String, u32), (String, String)>,
    names: Table<String, NameRecord>,
    status: Table<String, u64>,
    burned: Table<String, u128>,
}

impl View for Db {
    type V = Ledger;

    closed spec fn view(&self) -> Ledger {
        Ledger {
            blocks: self.blocks@,
            inscriptions: self.inscriptions@,
            numbers: texts(self.numbers@),
            by_address: self.by_address@,
            tokens: self.tokens@,
            balances: self.balances@,
            transfers: self.transfers@,
            transfer_outpoints: self.transfer_outpoints@,
            used: self.used@,
            collections: self.collections@,
            nfts: self.nfts@,
            nft_outpoints: self.nft_outpoints@,
            names: self.names@,
            status: self.status@,
            burned: self.burned@,
        }
    }
}

/// One part of a balance after a change; none where the part would leave
/// the range of 128 bits, with whether it would exceed it.
fn changed_part(part: u128, change: Change) -> (r: Result<u128, bool>)
    ensures
        match r {
            Ok(v) => v == changed(part, change),
            Err(over) => if over {
                changed(part, change) > u128::MAX
            } else {
                changed(part, change) < 0
            },
        },
{
    match change {
        Change::Keep => Ok(part),
        Change::Raise(n) => match part.checked_add(n) {
            Some(v) => Ok(v),
            None => Err(true),
        },
        Change::Lower(n) => match part.checked_sub(n) {
            Some(v) => Ok(v),
            None => Err(false),
        },
    }
}

/// A balance after changes to both of its parts.
pub fn changed_balance(b: Balance, available: Change, overall: Change) -> (r: Result<
    Balance,
    DbError,
>)
    ensures
        r == apply_change(b, available, overall),
{
    let next_available: u128 = match changed_part(b.available, available) {
        Ok(v) => v,
        Err(over) => {
            return Err(
                if over {
                    DbError::AvailableOverflow
                } else {
                    DbError::InsufficientAvailable
                },
            );
        },
    };
    let next_overall: u128 = match changed_part(b.overall, overall) {
        Ok(v) => v,
        Err(over) => {
            return Err(
                if over {
                    DbError::OverallOverflow
                } else {
                    DbError::InsufficientOverall
                },
            );
        },
    };
    Ok(Balance { available: next_available, overall: next_overall })
}

/// A signed change as a rise or a fall.
pub fn as_change(delta: i128) -> (c: Change)
    ensures
        c == change_of(delta),
{
    if delta >= 0 {
        Change::Raise(delta as u128)
    } else if delta == i128::MIN {
        Change::Lower(170141183460469231731687303715884105728)
    } else {
        Change::Lower((-delta) as u128)
    }
}

/// A balance after signed changes to both of its parts.
pub fn shifted(b: Balance, available_delta: i128, overall_delta: i128) -> (r: Result<
    Balance,
    DbError,
>)
    ensures
        r == apply_delta(b, available_delta, overall_delta),
{
    changed_balance(b, as_change(available_delta), as_change(overall_delta))
}

impl Db {
    /// The store's invariant: no table holds a key twice.
    pub open spec fn wf(&self) -> bool {
        self@.wf()
    }

    /// An empty store. It is consistent: supplies are accounted for, locks
    /// are covered and caps are respected.
    pub fn new() -> (db: Db)
        ensures
            db.wf(),
            db@ == Ledger::empty(),
            consistent(db@),
    {
        proof {
            lemma_empty_sound();
        }
        let db = Db {
            blocks: Table::new(),
            inscriptions: Table::new(),
            numbers: Vec::new(),
            by_address: Table::new(),
            tokens: Table::new(),
            balances: Table::new(),
            transfers: Table::new(),
            transfer_outpoints: Table::new(),
            used: Table::new(),
            collections: Table::new(),
            nfts: Table::new(),
            nft_outpoints: Table::new(),
            names: Table::new(),
            status: Table::new(),
            burned: Table::new(),
        };
        assert(db@ =~= Ledger::empty());
        db
    }

    /// The table of inscriptions.
    pub(crate) fn inscriptions_table(&self) -> (t: &Table<String, InscriptionMeta>)
        ensures
            t@ == self@.inscriptions,
    {
        &self.inscriptions
    }

    /// The table of tokens.
    pub(crate) fn tokens_table(&self) -> (t: &Table<String, TokenInfo>)
        ensures
            t@ == self@.tokens,
    {
        &self.tokens
    }

    /// The table of balances.
    pub(crate) fn balances_table(&self) -> (t: &Table<(String, String), Balance>)
        ensures
            t@ == self@.balances,
    {
        &self.balances
    }

    /// The table of transfer intents.
    pub(crate) fn transfers_table(&self) -> (t: &Table<String, TransferIntent>)
        ensures
            t@ == self@.transfers,
    {
        &self.transfers
    }

    /// The table of the outpoints that carry transfer intents.
    pub(crate) fn transfer_outpoints_table(&self) -> (t: &Table<(String, u32), String>)
        ensures
            t@ == self@.transfer_outpoints,
    {
        &self.transfer_outpoints
    }

    /// The table of collections.
    pub(crate) fn collections_table(&self) -> (t: &Table<String, Zrc721Collection>)
        ensures
            t@ == self@.collections,
    {
        &self.collections
    }

    /// The table of the tokens of collections.
    pub(crate) fn nfts_table(&self) -> (t: &Table<(String, String), Zrc721Token>)
        ensures
            t@ == self@.nfts,
    {
        &self.nfts
    }

    /// The table of names.
    pub(crate) fn names_table(&self) -> (t: &Table<String, NameRecord>)
        ensures
            t@ == self@.names,
    {
        &self.names
    }

    /// Every kept block with its hash, in the order of arrival.
    pub fn get_all_blocks(&self) -> (r: Vec<(u64, String)>)
        ensures
            pairs(r@) == self@.blocks,
    {
        self.blocks.entries()
    }

    /// Every inscription, oldest first.
    pub fn get_all_inscriptions(&self) -> (r: Vec<(String, InscriptionMeta)>)
        ensures
            pairs(r@) == self@.inscriptions,
    {
        self.inscriptions.entries()
    }

    /// The inscriptions by their ordinal numbers: the first entry has the
    /// number one.
    pub fn get_inscription_numbers(&self) -> (r: Vec<String>)
        ensures
            texts(r@) == self@.numbers,
    {
        copy_texts(&self.numbers)
    }

    /// Every sender with the inscriptions it has sent.
    pub fn get_all_address_inscriptions(&self) -> (r: Vec<(String, IdList)>)
        ensures
            pairs(r@) == self@.by_address,
    {
        self.by_address.entries()
    }

    /// Every balance under its address and ticker.
    pub fn get_all_balances(&self) -> (r: Vec<((String, String), Balance)>)
        ensures
            pairs(r@) == self@.balances,
    {
        self.balances.entries()
    }

    /// Every transfer intent under its inscription.
    pub fn get_all_transfers(&self) -> (r: Vec<(String, TransferIntent)>)
        ensures
            pairs(r@) == self@.transfers,
    {
        self.transfers.entries()
    }

    /// Every outpoint that carries a transfer intent.
    pub fn get_all_transfer_outpoints(&self) -> (r: Vec<((String, u32), String)>)
        ensures
            pairs(r@) == self@.transfer_outpoints,
    {
        self.transfer_outpoints.entries()
    }

    /// Every inscription of which it is kept whether it was used.
    pub fn get_all_inscription_states(&self) -> (r: Vec<(String, bool)>)
        ensures
            pairs(r@) == self@.used,
    {
        self.used.entries()
    }

    /// Every collection, oldest first.
    pub fn get_all_zrc721_collections(&self) -> (r: Vec<(String, Zrc721Collection)>)
        ensures
            pairs(r@) == self@.collections,
    {
        self.collections.entries()
    }

    /// Every token of a collection under its collection and id.
    pub fn get_all_zrc721_tokens(&self) -> (r: Vec<((String, String), Zrc721Token)>)
        ensures
            pairs(r@) == self@.nfts,
    {
        self.nfts.entries()
    }

    /// Every outpoint that carries a token, with its collection and id.
    pub fn get_all_zrc721_outpoints(&self) -> (r: Vec<((String, u32), (String, String))>)
        ensures
            pairs(r@) == self@.nft_outpoints,
    {
        self.nft_outpoints.entries()
    }

    /// Every status value.
    pub fn get_all_status(&self) -> (r: Vec<(String, u64)>)
        ensures
            pairs(r@) == self@.status,
    {
        self.status.entries()
    }

    /// What was burned of every token of which anything was.
    pub fn get_all_burned(&self) -> (r: Vec<(String, u128)>)
        ensures
            pairs(r@) == self@.burned,
    {
        self.burned.entries()
    }

    /// The greatest height of which a block was kept.
    pub fn get_latest_indexed_height(&self) -> (r: Option<u64>)
        requires
            self.wf(),
        ensures
            match r {
                Some(h) => has_key(self@.blocks, h) && forall|i: int|
                    0 <= i < self@.blocks.len() ==> (#[trigger] self@.blocks[i]).0 <= h,
                None => self@.blocks.len() == 0,
            },
    {
        let n: usize = self.blocks.len();
        if n == 0 {
            return None;
        }
        let mut best: u64 = *self.blocks.key_at(0);
        let mut i: usize = 1;
        while i < n
            invariant
                1 <= i <= n,
                n == self@.blocks.len(),
                has_key(self@.blocks, best),
                forall|j: int| 0 <= j < i ==> (#[trigger] self@.blocks[j]).0 <= best,
            decreases n - i,
        {
            let k: u64 = *self.blocks.key_at(i);
            if k > best {
                best = k;
            }
            i += 1;
        }
        Some(best)
    }

    /// Keeps the hash of the block at `height` and moves the core height
    /// there.
    pub fn insert_block(&mut self, height: u64, hash: &str)
        requires
            old(self).wf(),
        ensures
            final(self).wf(),
            final(self)@ == old(self)@.insert_block(height, hash@),
            lookup(final(self)@.blocks, height) == Some(hash@),
            lookup(final(self)@.status, "core_height"@) == Some(height),
    {
        proof {
            lemma_upsert(self@.blocks, height, hash@);
            lemma_upsert(self@.status, "core_height"@, height);
        }
        self.blocks.put(height, hash.to_owned());
        self.status.put("core_height".to_owned(), height);
        assert(self@ =~= old(self)@.insert_block(height, hash@));
    }

    /// Keeps an inscription. Where its id is new, it is given the next
    /// ordinal number and listed under its sender; where the id was kept
    /// before, only what is kept of it is replaced.
    pub fn insert_inscription(&mut self, id: &str, meta: InscriptionMeta)
        requires
            old(self).wf(),
        ensures
            final(self).wf(),
            final(self)@ == old(self)@.insert_inscription(id@, meta@),
            lookup(final(self)@.inscriptions, id@) == Some(meta@),
    {
        let key = id.to_owned();
        proof {
            lemma_upsert(self@.inscriptions, id@, meta@);
        }
        if self.inscriptions.contains(&key) {
            self.inscriptions.put(key, meta);
            assert(self@ =~= old(self)@.insert_inscription(id@, meta@));
            return ;
        }
        let sender = meta.sender.clone();
        let mut list = match self.by_address.get(&sender) {
            Some(l) => l.duplicate(),
            None => IdList { ids: Vec::new() },
        };
        assert(list@ =~= self@.sent_by(sender@));
        list.ids.push(id.to_owned());
        assert(list@ =~= self@.sent_by(sender@).push(id@));
        proof {
            lemma_upsert(self@.by_address, sender@, list@);
        }
        self.inscriptions.put(key, meta);
        self.numbers.push(id.to_owned());
        self.by_address.put(sender, list);
        assert(texts(self.numbers@) =~= texts(old(self).numbers@).push(id@));
        assert(self@ =~= old(self)@.insert_inscription(id@, meta@));
    }

    /// The inscription kept under `id`.
    pub fn get_inscription(&self, id: &str) -> (r: Option<InscriptionMeta>)
        requires
            self.wf(),
        ensures
            found(r, lookup(self@.inscriptions, id@)),
    {
        match self.inscriptions.get(&id.to_owned()) {
            Some(m) => Some(m.duplicate()),
            None => None,
        }
    }

    /// The inscription that was given the ordinal `number`; numbers start
    /// at one.
    pub fn get_inscription_by_number(&self, number: u64) -> (r: Option<String>)
        ensures
            match r {
                Some(id) => 1 <= number <= self@.numbers.len() && id@ == self@.numbers[number - 1],
                None => number == 0 || number > self@.numbers.len(),
            },
    {
        if number == 0 || number > self.numbers.len() as u64 {
            None
        } else {
            let at: usize = (number - 1) as usize;
            Some(self.numbers[at].clone())
        }
    }

    /// How many inscriptions were given a number.
    pub fn get_inscription_count(&self) -> (n: u64)
        ensures
            n == self@.numbers.len(),
    {
        self.numbers.len() as u64
    }

    /// The inscriptions that `address` has sent, oldest first.
    pub fn get_inscriptions_by_address(&self, address: &str) -> (r: Vec<String>)
        requires
            self.wf(),
        ensures
            texts(r@) == self@.sent_by(address@),
    {
        match self.by_address.get(&address.to_owned()) {
            Some(l) => copy_texts(&l.ids),
            None => {
                let r: Vec<String> = Vec::new();
                assert(texts(r@) =~= Seq::<Seq<char>>::empty());
                r
            },
        }
    }

    /// Registers a new token; an existing ticker is refused.
    pub fn deploy_token(&mut self, ticker: &str, info: TokenInfo) -> (r: Result<(), DbError>)
        requires
            old(self).wf(),
        ensures
            final(self).wf(),
            outcome(old(self)@, old(self)@.deploy_token(ticker@, info@), r, final(self)@),
            r is Ok ==> lookup(final(self)@.tokens, ticker@) == Some(info@),
    {
        let key = ticker.to_owned();
        if self.tokens.contains(&key) {
            return Err(DbError::TokenExists);
        }
        proof {
            lemma_upsert(self@.tokens, ticker@, info@);
        }
        self.tokens.put(key, info);
        assert(self@ =~= old(self)@.deploy_token(ticker@, info@)->Ok_0);
        Ok(())
    }

    /// The token registered under `ticker`.
    pub fn get_token_info(&self, ticker: &str) -> (r: Option<TokenInfo>)
        requires
            self.wf(),
        ensures
            found(r, lookup(self@.tokens, ticker@)),
    {
        match self.tokens.get(&ticker.to_owned()) {
            Some(t) => Some(t.duplicate()),
            None => None,
        }
    }

    /// How many tokens are registered.
    pub fn get_token_count(&self) -> (n: u64)
        ensures
            n == self@.tokens.len(),
    {
        self.tokens.len() as u64
    }

    /// Sets the supply of a registered token.
    pub fn update_token_supply(&mut self, ticker: &str, new_supply: u128) -> (r: Result<
        (),
        DbError,
    >)
        requires
            old(self).wf(),
        ensures
            final(self).wf(),
            outcome(
                old(self)@,
                old(self)@.update_token_supply(ticker@, new_supply),
                r,
                final(self)@,
            ),
            r is Ok ==> final(self)@.supply_of(ticker@) == new_supply,
    {
        let key = ticker.to_owned();
        let mut info = match self.tokens.get(&key) {
            Some(t) => t.duplicate(),
            None => {
                return Err(DbError::TokenNotFound);
            },
        };
        info.supply = new_supply;
        proof {
            lemma_upsert(self@.tokens, ticker@, info@);
        }
        self.tokens.put(key, info);
        assert(self@ =~= old(self)@.update_token_supply(ticker@, new_supply)->Ok_0);
        Ok(())
    }

    /// Credits a mint: raises the supply of `ticker` and both parts of the
    /// balance of `address` by `amt`, all of it or nothing.
    pub fn mint_credit_atomic(&mut self, ticker: &str, address: &str, amt: u128) -> (r: Result<
        (),
        DbError,
    >)
        requires
            old(self).wf(),
        ensures
            final(self).wf(),
            outcome(old(self)@, old(self)@.mint_credit(ticker@, address@, amt), r, final(self)@),
            r is Ok ==> {
                &&& final(self)@.supply_of(ticker@) == old(self)@.supply_of(ticker@) + amt
                &&& final(self)@.balance(address@, ticker@).available == old(self)@.balance(
                    address@,
                    ticker@,
                ).available + amt
                &&& final(self)@.balance(address@, ticker@).overall == old(self)@.balance(
                    address@,
                    ticker@,
                ).overall + amt
            },
    {
        let key = ticker.to_owned();
        let holder = (address.to_owned(), ticker.to_owned());
        let held = match self.balances.get(&holder) {
            Some(b) => *b,
            None => Balance { available: 0, overall: 0 },
        };
        assert(held == self@.balance(address@, ticker@));
        let mut info = match self.tokens.get(&key) {
            Some(t) => t.duplicate(),
            None => {
                return Err(DbError::TokenNotFound);
            },
        };
        let supply = match info.supply.checked_add(amt) {
            Some(v) => v,
            None => {
                return Err(DbError::SupplyOverflow);
            },
        };
        let available = match held.available.checked_add(amt) {
            Some(v) => v,
            None => {
                return Err(DbError::AvailableOverflow);
            },
        };
        let overall = match held.overall.checked_add(amt) {
            Some(v) => v,
            None => {
                return Err(DbError::OverallOverflow);
            },
        };
        info.supply = supply;
        let credited = Balance { available, overall };
        proof {
            lemma_upsert(self@.tokens, ticker@, info@);
            lemma_upsert(self@.balances, (address@, ticker@), credited);
        }
        self.tokens.put(key, info);
        self.balances.put(holder, credited);
        assert(self@ =~= old(self)@.mint_credit(ticker@, address@, amt)->Ok_0);
        Ok(())
    }

    /// What `address` holds of `ticker`; nothing where no balance is kept.
    pub fn get_balance(&self, address: &str, ticker: &str) -> (b: Balance)
        requires
            self.wf(),
        ensures
            b == self@.balance(address@, ticker@),
    {
        match self.balances.get(&(address.to_owned(), ticker.to_owned())) {
            Some(b) => *b,
            None => Balance { available: 0, overall: 0 },
        }
    }

    /// Raises or lowers both parts of a balance, or changes nothing.
    pub fn change_balance(
        &mut self,
        address: &str,
        ticker: &str,
        available: Change,
        overall: Change,
    ) -> (r: Result<(), DbError>)
        requires
            old(self).wf(),
        ensures
            final(self).wf(),
            outcome(
                old(self)@,
                old(self)@.change_balance(address@, ticker@, available, overall),
                r,
                final(self)@,
            ),
            r is Ok ==> Ok::<Balance, DbError>(final(self)@.balance(address@, ticker@))
                == apply_change(old(self)@.balance(address@, ticker@), available, overall),
    {
        let held = self.get_balance(address, ticker);
        let next = match changed_balance(held, available, overall) {
            Ok(b) => b,
            Err(e) => {
                return Err(e);
            },
        };
        proof {
            lemma_upsert(self@.balances, (address@, ticker@), next);
        }
        self.balances.put((address.to_owned(), ticker.to_owned()), next);
        assert(self@ =~= old(self)@.change_balance(address@, ticker@, available, overall)->Ok_0);
        Ok(())
    }

    /// Changes both parts of a balance by signed amounts, or changes
    /// nothing. It fails exactly where a part would fall below zero or
    /// exceed 128 bits.
    pub fn update_balance(
        &mut self,
        address: &str,
        ticker: &str,
        available_delta: i128,
        overall_delta: i128,
    ) -> (r: Result<(), DbError>)
        requires
            old(self).wf(),
        ensures
            final(self).wf(),
            outcome(
                old(self)@,
                old(self)@.update_balance(address@, ticker@, available_delta, overall_delta),
                r,
                final(self)@,
            ),
            r is Ok ==> Ok::<Balance, DbError>(final(self)@.balance(address@, ticker@))
                == apply_delta(
                old(self)@.balance(address@, ticker@),
                available_delta,
                overall_delta,
            ),
    {
        self.change_balance(address, ticker, as_change(available_delta), as_change(overall_delta))
    }

    /// Sets the status value kept under `key`.
    pub fn set_status(&mut self, key: &str, value: u64)
        requires
            old(self).wf(),
        ensures
            final(self).wf(),
            final(self)@ == old(self)@.set_status(key@, value),
            lookup(final(self)@.status, key@) == Some(value),
    {
        proof {
            lemma_upsert(self@.status, key@, value);
        }
        self.status.put(key.to_owned(), value);
        assert(self@ =~= old(self)@.set_status(key@, value));
    }

    /// The status value kept under `key`.
    pub fn get_status(&self, key: &str) -> (r: Option<u64>)
        requires
            self.wf(),
        ensures
            r == lookup(self@.status, key@),
    {
        match self.status.get(&key.to_owned()) {
            Some(v) => Some(*v),
            None => None,
        }
    }

    /// What was burned of `ticker`.
    pub fn get_burned(&self, ticker: &str) -> (n: u128)
        requires
            self.wf(),
        ensures
            n == self@.burned_of(ticker@),
    {
        match self.burned.get(&ticker.to_owned()) {
            Some(v) => *v,
            None => 0,
        }
    }

    /// Records a transfer intent and marks its inscription as not yet used.
    pub fn create_transfer_inscription(&mut self, inscription_id: &str, data: TransferIntent)
        requires
            old(self).wf(),
        ensures
            final(self).wf(),
            final(self)@ == old(self)@.create_transfer(inscription_id@, data@),
            lookup(final(self)@.transfers, inscription_id@) == Some(data@),
            !final(self)@.is_used(inscription_id@),
    {
        proof {
            lemma_upsert(self@.transfers, inscription_id@, data@);
            lemma_upsert(self@.used, inscription_id@, false);
        }
        self.transfers.put(inscription_id.to_owned(), data);
        self.used.put(inscription_id.to_owned(), false);
        assert(self@ =~= old(self)@.create_transfer(inscription_id@, data@));
    }

    /// Notes that the output `vout` of `txid` carries a transfer intent.
    pub fn register_transfer_outpoint(&mut self, txid: &str, vout: u32, inscription_id: &str)
        requires
            old(self).wf(),
        ensures
            final(self).wf(),
            final(self)@ == old(self)@.register_transfer_outpoint(txid@, vout, inscription_id@),
            lookup(final(self)@.transfer_outpoints, (txid@, vout)) == Some(inscription_id@),
    {
        proof {
            lemma_upsert(self@.transfer_outpoints, (txid@, vout), inscription_id@);
        }
        self.transfer_outpoints.put((txid.to_owned(), vout), inscription_id.to_owned());
        assert(self@ =~= old(self)@.register_transfer_outpoint(txid@, vout, inscription_id@));
    }

    /// The transfer intent that the output `vout` of `txid` carries.
    pub fn get_transfer_by_outpoint(&self, txid: &str, vout: u32) -> (r: Option<String>)
        requires
            self.wf(),
        ensures
            found(r, lookup(self@.transfer_outpoints, (txid@, vout))),
    {
        match self.transfer_outpoints.get(&(txid.to_owned(), vout)) {
            Some(id) => Some(id.clone()),
            None => None,
        }
    }

    /// Forgets what the output `vout` of `txid` carried.
    pub fn remove_transfer_outpoint(&mut self, txid: &str, vout: u32)
        requires
            old(self).wf(),
        ensures
            final(self).wf(),
            final(self)@ == old(self)@.remove_transfer_outpoint(txid@, vout),
            lookup(final(self)@.transfer_outpoints, (txid@, vout)) is None,
    {
        proof {
            lemma_erase(self@.transfer_outpoints, (txid@, vout));
        }
        self.transfer_outpoints.remove(&(txid.to_owned(), vout));
        assert(self@ =~= old(self)@.remove_transfer_outpoint(txid@, vout));
    }

    /// The transfer intent recorded under `inscription_id`.
    pub fn get_transfer_inscription(&self, inscription_id: &str) -> (r: Option<TransferIntent>)
        requires
            self.wf(),
        ensures
            found(r, lookup(self@.transfers, inscription_id@)),
    {
        match self.transfers.get(&inscription_id.to_owned()) {
            Some(t) => Some(t.duplicate()),
            None => None,
        }
    }

    /// Marks an inscription as used.
    pub fn mark_inscription_used(&mut self, inscription_id: &str)
        requires
            old(self).wf(),
        ensures
            final(self).wf(),
            final(self)@ == old(self)@.mark_used(inscription_id@),
            final(self)@.is_used(inscription_id@),
    {
        proof {
            lemma_upsert(self@.used, inscription_id@, true);
        }
        self.used.put(inscription_id.to_owned(), true);
        assert(self@ =~= old(self)@.mark_used(inscription_id@));
    }

    /// Whether an inscription was marked as used.
    pub fn is_inscription_used(&self, inscription_id: &str) -> (r: bool)
        requires
            self.wf(),
        ensures
            r == self@.is_used(inscription_id@),
    {
        match self.used.get(&inscription_id.to_owned()) {
            Some(u) => *u,
            None => false,
        }
    }

    /// Registers a new collection; an existing ticker is refused.
    pub fn register_zrc721_collection(&mut self, tick: &str, payload: Zrc721Collection) -> (r:
        Result<(), DbError>)
        requires
            old(self).wf(),
        ensures
            final(self).wf(),
            outcome(old(self)@, old(self)@.register_collection(tick@, payload@), r, final(self)@),
            r is Ok ==> lookup(final(self)@.collections, tick@) == Some(payload@),
    {
        let key = tick.to_owned();
        if self.collections.contains(&key) {
            return Err(DbError::CollectionExists);
        }
        proof {
            lemma_upsert(self@.collections, tick@, payload@);
        }
        self.collections.put(key, payload);
        assert(self@ =~= old(self)@.register_collection(tick@, payload@)->Ok_0);
        Ok(())
    }

    /// The collection registered under `tick`.
    pub fn get_zrc721_collection(&self, tick: &str) -> (r: Option<Zrc721Collection>)
        requires
            self.wf(),
        ensures
            found(r, lookup(self@.collections, tick@)),
    {
        match self.collections.get(&tick.to_owned()) {
            Some(c) => Some(c.duplicate()),
            None => None,
        }
    }

    /// Adds a token to a collection and counts it, all of it or nothing.
    pub fn insert_zrc721_token(
        &mut self,
        tick: &str,
        token_id: &str,
        owner: &str,
        inscription_id: &str,
        metadata: &str,
    ) -> (r: Result<(), DbError>)
        requires
            old(self).wf(),
        ensures
            final(self).wf(),
            outcome(
                old(self)@,
                old(self)@.insert_nft(tick@, token_id@, owner@, inscription_id@, metadata@),
                r,
                final(self)@,
            ),
            r is Ok ==> lookup(final(self)@.nfts, (tick@, token_id@)) is Some && lookup(
                final(self)@.nfts,
                (tick@, token_id@),
            )->0.owner == owner@,
    {
        let key = (tick.to_owned(), token_id.to_owned());
        if self.nfts.contains(&key) {
            return Err(DbError::TokenAlreadyMinted);
        }
        let mut collection = match self.collections.get(&tick.to_owned()) {
            Some(c) => c.duplicate(),
            None => {
                return Err(DbError::CollectionNotFound);
            },
        };
        let supply = strip_plus(&chars_of(collection.supply.as_str()));
        if is_decimal(&supply) {
            match parse_bounded(&supply, u64::MAX as u128) {
                Some(max_total) => {
                    if collection.minted as u128 >= max_total {
                        return Err(DbError::MaxTokenCountReached);
                    }
                },
                None => {},
            }
            let id = chars_of(token_id);
            if !is_decimal(&id) || !decimal_less(&id, &supply) {
                return Err(DbError::TokenIdOutOfRange);
            }
        }
        if collection.minted == u64::MAX {
            return Err(DbError::MaxTokenCountReached);
        }
        collection.minted = collection.minted + 1;
        let token = Zrc721Token {
            tick: tick.to_owned(),
            token_id: token_id.to_owned(),
            owner: owner.to_owned(),
            inscription_id: inscription_id.to_owned(),
            metadata: metadata.to_owned(),
            burned: false,
        };
        proof {
            lemma_upsert(self@.collections, tick@, collection@);
            lemma_upsert(self@.nfts, (tick@, token_id@), token@);
        }
        self.collections.put(tick.to_owned(), collection);
        self.nfts.put(key, token);
        assert(self@ =~= old(self)@.insert_nft(
            tick@,
            token_id@,
            owner@,
            inscription_id@,
            metadata@,
        )->Ok_0);
        Ok(())
    }

    /// The token `token_id` of the collection `tick`.
    pub fn get_zrc721_token(&self, tick: &str, token_id: &str) -> (r: Option<Zrc721Token>)
        requires
            self.wf(),
        ensures
            found(r, lookup(self@.nfts, (tick@, token_id@))),
    {
        match self.nfts.get(&(tick.to_owned(), token_id.to_owned())) {
            Some(t) => Some(t.duplicate()),
            None => None,
        }
    }

    /// Sets the owner of a token and whether it counts as burned.
    pub fn update_zrc721_owner(&mut self, tick: &str, token_id: &str, owner: &str, burned: bool)
        -> (r: Result<(), DbError>)
        requires
            old(self).wf(),
        ensures
            final(self).wf(),
            outcome(
                old(self)@,
                old(self)@.update_nft_owner(tick@, token_id@, owner@, burned),
                r,
                final(self)@,
            ),
            r is Ok ==> lookup(final(self)@.nfts, (tick@, token_id@)) is Some && lookup(
                final(self)@.nfts,
                (tick@, token_id@),
            )->0.owner == owner@ && lookup(final(self)@.nfts, (tick@, token_id@))->0.burned
                == burned,
    {
        let key = (tick.to_owned(), token_id.to_owned());
        let mut token = match self.nfts.get(&key) {
            Some(t) => t.duplicate(),
            None => {
                return Err(DbError::NftNotFound);
            },
        };
        token.owner = owner.to_owned();
        token.burned = burned;
        proof {
            lemma_upsert(self@.nfts, (tick@, token_id@), token@);
        }
        self.nfts.put(key, token);
        assert(self@ =~= old(self)@.update_nft_owner(tick@, token_id@, owner@, burned)->Ok_0);
        Ok(())
    }

    /// Notes that the output `vout` of `txid` carries a token.
    pub fn register_zrc721_outpoint(&mut self, txid: &str, vout: u32, tick: &str, token_id: &str)
        requires
            old(self).wf(),
        ensures
            final(self).wf(),
            final(self)@ == old(self)@.register_nft_outpoint(txid@, vout, tick@, token_id@),
            lookup(final(self)@.nft_outpoints, (txid@, vout)) == Some((tick@, token_id@)),
    {
        proof {
            lemma_upsert(self@.nft_outpoints, (txid@, vout), (tick@, token_id@));
        }
        self.nft_outpoints.put((txid.to_owned(), vout), (tick.to_owned(), token_id.to_owned()));
        assert(self@ =~= old(self)@.register_nft_outpoint(txid@, vout, tick@, token_id@));
    }

    /// The token that the output `vout` of `txid` carries, as its
    /// collection and its id.
    pub fn zrc721_by_outpoint(&self, txid: &str, vout: u32) -> (r: Option<(String, String)>)
        requires
            self.wf(),
        ensures
            found(r, lookup(self@.nft_outpoints, (txid@, vout))),
    {
        match self.nft_outpoints.get(&(txid.to_owned(), vout)) {
            Some(t) => Some((t.0.clone(), t.1.clone())),
            None => None,
        }
    }

    /// Moves what one outpoint carries to another.
    pub fn move_zrc721_outpoint(&mut self, from_txid: &str, from_vout: u32, txid: &str, vout: u32)
        requires
            old(self).wf(),
        ensures
            final(self).wf(),
            final(self)@ == old(self)@.move_nft_outpoint(from_txid@, from_vout, txid@, vout),
    {
        let from = (from_txid.to_owned(), from_vout);
        let carried = match self.nft_outpoints.get(&from) {
            Some(t) => (t.0.clone(), t.1.clone()),
            None => {
                return ;
            },
        };
        self.nft_outpoints.remove(&from);
        proof {
            lemma_upsert(self@.nft_outpoints, (txid@, vout), carried@);
        }
        self.nft_outpoints.put((txid.to_owned(), vout), carried);
        assert(self@ =~= old(self)@.move_nft_outpoint(from_txid@, from_vout, txid@, vout));
    }

    /// Forgets what the output `vout` of `txid` carried.
    pub fn remove_zrc721_outpoint(&mut self, txid: &str, vout: u32)
        requires
            old(self).wf(),
        ensures
            final(self).wf(),
            final(self)@ == old(self)@.remove_nft_outpoint(txid@, vout),
            lookup(final(self)@.nft_outpoints, (txid@, vout)) is None,
    {
        proof {
            lemma_erase(self@.nft_outpoints, (txid@, vout));
        }
        self.nft_outpoints.remove(&(txid.to_owned(), vout));
        assert(self@ =~= old(self)@.remove_nft_outpoint(txid@, vout));
    }

    /// How many collections and how many tokens the store holds.
    pub fn zrc721_counts(&self) -> (r: (usize, usize))
        ensures
            r.0 == self@.collections.len(),
            r.1 == self@.nfts.len(),
    {
        (self.collections.len(), self.nfts.len())
    }

    /// Registers a name for its first writer; a taken name is refused.
    pub fn register_name(&mut self, name: &str, data: NameRecord) -> (r: Result<(), DbError>)
        requires
            old(self).wf(),
        ensures
            final(self).wf(),
            outcome(old(self)@, old(self)@.register_name(name@, data@), r, final(self)@),
            r is Ok ==> lookup(final(self)@.names, name@) == Some(data@),
    {
        let key = name.to_owned();
        if self.names.contains(&key) {
            return Err(DbError::NameTaken);
        }
        proof {
            lemma_upsert(self@.names, name@, data@);
        }
        self.names.put(key, data);
        assert(self@ =~= old(self)@.register_name(name@, data@)->Ok_0);
        Ok(())
    }

    /// The record of a registered name.
    pub fn get_name(&self, name: &str) -> (r: Option<NameRecord>)
        requires
            self.wf(),
        ensures
            found(r, lookup(self@.names, name@)),
    {
        match self.names.get(&name.to_owned()) {
            Some(n) => Some(n.duplicate()),
            None => None,
        }
    }

    /// How many names are registered.
    pub fn get_name_count(&self) -> (n: u64)
        ensures
            n == self@.names.len(),
    {
        self.names.len() as u64
    }
}

} // verus!
