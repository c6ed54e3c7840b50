//! Indexing a block: the inscription pass and the reveal pass over each of
//! its transactions, and what to do next.

use crate::db::Db;
use crate::inscription::{
    inscription_in, is_shielded, parse_inscription, shielded, Inscription, InscriptionView,
};
use crate::laws::{
    consistent, keeps, lemma_block_consistent, lemma_block_keeps, lemma_no_later_block,
};
use crate::ledger::Ledger;
use crate::names::{name_effect, NamesEngine};
use crate::records::{texts, InscriptionMeta, InscriptionMetaView};
use crate::rpc::{TxResponse, TxView, VoutView};
use crate::table::{lemma_upsert, lookup};
use crate::text::{
    chars_of, ends_with, find_char, has_prefix, has_suffix, lowercase, lowercase_of,
    position_of, same_chars, same_text, skip_space, starts_with, sub_chars, trim_chars,
    trim_start, trimmed,
};
use crate::zrc20::{process_effect, settle_effect, Zrc20Engine};
use crate::zrc721::{nft_process_effect, Zrc721Engine};
use vstd::prelude::*;

verus! {

/// Whether an output pays `address`.
pub open spec fn pays(o: VoutView, address: Seq<char>) -> bool {
    o.addresses is Some && o.addresses->0.contains(address)
}

/// Whether an output pays any address.
pub open spec fn addressed(o: VoutView) -> bool {
    o.addresses is Some && o.addresses->0.len() > 0
}

/// The number of the first output from position `k` on that pays
/// `address`.
pub open spec fn first_paying(vout: Seq<VoutView>, address: Seq<char>, k: int) -> Option<u32>
    decreases vout.len() - k,
{
    if k < 0 || k >= vout.len() {
        None
    } else if pays(vout[k], address) {
        Some(vout[k].n)
    } else {
        first_paying(vout, address, k + 1)
    }
}

/// The number of the first output from position `k` on that pays any
/// address.
pub open spec fn first_addressed(vout: Seq<VoutView>, k: int) -> Option<u32>
    decreases vout.len() - k,
{
    if k < 0 || k >= vout.len() {
        None
    } else if addressed(vout[k]) {
        Some(vout[k].n)
    } else {
        first_addressed(vout, k + 1)
    }
}

/// The output that an inscription is assigned to: the first that pays its
/// sender, else the first that pays anyone, else output 0.
pub open spec fn assigned_vout(tx: TxView, sender: Seq<char>) -> u32 {
    match first_paying(tx.vout, sender, 0) {
        Some(n) => n,
        None => match first_addressed(tx.vout, 0) {
            Some(n) => n,
            None => 0,
        },
    }
}

/// The first output from position `k` on whose first address is
/// transparent, as that address and the number of the output.
pub open spec fn first_transparent(vout: Seq<VoutView>, k: int) -> Option<(Seq<char>, u32)>
    decreases vout.len() - k,
{
    if k < 0 || k >= vout.len() {
        None
    } else if addressed(vout[k]) && !is_shielded(vout[k].addresses->0[0]) {
        Some((vout[k].addresses->0[0], vout[k].n))
    } else {
        first_transparent(vout, k + 1)
    }
}

/// The first inscription that an input of `tx` from position `k` on
/// carries.
pub open spec fn first_inscription(tx: TxView, k: int) -> Option<InscriptionView>
    decreases tx.vin.len() - k,
{
    if k < 0 || k >= tx.vin.len() {
        None
    } else if tx.vin[k].script is Some && inscription_in(tx.vin[k].script->0, tx.txid, tx)
        is Some {
        inscription_in(tx.vin[k].script->0, tx.txid, tx)
    } else {
        first_inscription(tx, k + 1)
    }
}

/// A content type without its parameters, in lower case.
pub open spec fn simple_type(content_type: Seq<char>) -> Seq<char> {
    let lower = lowercase_of(content_type);
    trimmed(lower.take(position_of(lower, ';')))
}

/// Whether a body begins like a JSON document.
pub open spec fn looks_json(content: Seq<char>) -> bool {
    let s = trim_start(content);
    s.len() > 0 && (s[0] == '{' || s[0] == '[')
}

/// Whether an inscription is handed to the token engines: its type is
/// JSON, or it is text that begins like JSON.
pub open spec fn json_like(kind: Seq<char>, content: Seq<char>) -> bool {
    ||| kind == "application/json"@
    ||| starts_with(kind, "application/"@) && ends_with(kind, "+json"@)
    ||| starts_with(kind, "text/"@) && looks_json(content)
}

/// Whether an inscription is handed to the name engine.
pub open spec fn name_candidate(kind: Seq<char>, content: Seq<char>) -> bool {
    kind == "text/plain"@ && !looks_json(content)
}

/// The state after an operation whose refusal is passed over.
pub open spec fn ignoring<E>(l: Ledger, r: Result<Ledger, E>) -> Ledger {
    match r {
        Ok(s) => s,
        Err(_) => l,
    }
}

/// What is kept of an inscription found in `tx`.
pub open spec fn meta_of(i: InscriptionView, tx: TxView, height: u64, time: u64)
    -> InscriptionMetaView {
    InscriptionMetaView {
        id: i.inscription_id,
        content: i.content,
        content_hex: i.content_hex,
        content_type: i.content_type,
        txid: tx.txid,
        vout: assigned_vout(tx, i.sender),
        sender: i.sender,
        receiver: i.receiver,
        block_height: height,
        block_time: time,
    }
}

/// The inscription pass: the first inscription of the transaction is kept
/// and handed to the engines that its type calls for.
pub open spec fn inscribe_effect(l: Ledger, tx: TxView, height: u64, time: u64) -> Ledger {
    match first_inscription(tx, 0) {
        None => l,
        Some(i) => {
            let kept = l.insert_inscription(i.inscription_id, meta_of(i, tx, height, time));
            let kind = simple_type(i.content_type);
            let vout = assigned_vout(tx, i.sender);
            if json_like(kind, i.content) {
                let fungible = ignoring(
                    kept,
                    process_effect(
                        kept,
                        "inscribe"@,
                        i.inscription_id,
                        i.sender,
                        Some(i.receiver),
                        i.content,
                        Some(tx.txid),
                        Some(vout),
                    ),
                );
                ignoring(
                    fungible,
                    nft_process_effect(
                        fungible,
                        "inscribe"@,
                        i.inscription_id,
                        i.sender,
                        i.content,
                        Some(tx.txid),
                        Some(vout),
                    ),
                )
            } else if name_candidate(kind, i.content) {
                ignoring(
                    kept,
                    name_effect(kept, i.inscription_id, i.sender, i.content, i.content_type),
                )
            } else {
                kept
            }
        },
    }
}

/// The receiver of what a transaction reveals: the first transparent
/// address among its outputs.
pub open spec fn receiver_of(tx: TxView) -> Option<Seq<char>> {
    match first_transparent(tx.vout, 0) {
        Some(found) => Some(found.0),
        None => None,
    }
}

/// What spending the output `vout` of `txid` reveals of a transfer: the
/// intent that the output carried is settled, marked as used whether or
/// not it could be settled, and the outpoint is forgotten.
pub open spec fn reveal_transfer(l: Ledger, tx: TxView, txid: Seq<char>, vout: u32) -> Ledger {
    match lookup(l.transfer_outpoints, (txid, vout)) {
        None => l,
        Some(id) => ignoring(l, settle_effect(l, id, receiver_of(tx))).mark_used(
            id,
        ).remove_transfer_outpoint(txid, vout),
    }
}

/// What spending the output `vout` of `txid` does to the token it
/// carried: the token goes to the first transparent address and rides on
/// that output; where there is none it is burned and rides no more.
pub open spec fn reveal_nft(l: Ledger, tx: TxView, txid: Seq<char>, vout: u32) -> Ledger {
    match lookup(l.nft_outpoints, (txid, vout)) {
        None => l,
        Some(token) => match first_transparent(tx.vout, 0) {
            Some(to) => ignoring(
                l,
                l.update_nft_owner(token.0, token.1, to.0, false),
            ).move_nft_outpoint(txid, vout, tx.txid, to.1),
            None => ignoring(
                l,
                l.update_nft_owner(token.0, token.1, "shielded"@, true),
            ).remove_nft_outpoint(txid, vout),
        },
    }
}

/// The reveal pass over the inputs of `tx` from position `k` on.
pub open spec fn reveal_effect(l: Ledger, tx: TxView, k: int) -> Ledger
    decreases tx.vin.len() - k,
{
    if k < 0 || k >= tx.vin.len() {
        l
    } else if tx.vin[k].txid is Some && tx.vin[k].vout is Some {
        reveal_effect(
            reveal_nft(
                reveal_transfer(l, tx, tx.vin[k].txid->0, tx.vin[k].vout->0),
                tx,
                tx.vin[k].txid->0,
                tx.vin[k].vout->0,
            ),
            tx,
            k + 1,
        )
    } else {
        reveal_effect(l, tx, k + 1)
    }
}

/// What a transaction does to the store: its inscription pass, then its
/// reveal pass.
pub open spec fn tx_effect(l: Ledger, tx: TxView, height: u64, time: u64) -> Ledger {
    reveal_effect(inscribe_effect(l, tx, height, time), tx, 0)
}

/// What the transactions from position `k` on do to the store, in order.
pub open spec fn txs_effect(l: Ledger, txs: Seq<TxView>, height: u64, time: u64, k: int) -> Ledger
    decreases txs.len() - k,
{
    if k < 0 || k >= txs.len() {
        l
    } else {
        txs_effect(tx_effect(l, txs[k], height, time), txs, height, time, k + 1)
    }
}

/// What closes a block: its hash is kept and every height moves to it.
pub open spec fn close_block(l: Ledger, height: u64, hash: Seq<char>) -> Ledger {
    l.insert_block(height, hash).set_status("zrc20_height"@, height).set_status(
        "names_height"@,
        height,
    ).set_status("zrc721_height"@, height)
}

/// What indexing a block does to the store.
pub open spec fn block_effect(
    l: Ledger,
    height: u64,
    hash: Seq<char>,
    time: u64,
    txs: Seq<TxView>,
) -> Ledger {
    close_block(txs_effect(l, txs, height, time, 0), height, hash)
}

/// The views of a sequence of transactions.
pub open spec fn tx_views(txs: Seq<TxResponse>) -> Seq<TxView> {
    txs.map_values(|t: TxResponse| t@)
}

/// How many seconds the follower waits at the tip for a new block before
/// it asks again.
pub const POLL_SECONDS: u64 = 10;

/// How many seconds the follower waits before it tries a block again that
/// could not be fetched.
pub const BLOCK_RETRY_SECONDS: u64 = 5;

/// How many seconds pass before the follower is started again for the
/// first time after it failed.
pub const RESTART_BASE_SECONDS: u64 = 5;

/// The longest that a restart of the follower is put off, in seconds.
pub const RESTART_CAP_SECONDS: u64 = 300;

/// The delay before the next restart of the follower, given the last one:
/// twice as long, up to the cap.
pub fn next_restart_delay(last: u64) -> (r: u64)
    ensures
        r == if 2 * last < RESTART_CAP_SECONDS {
            2 * last
        } else {
            RESTART_CAP_SECONDS as int
        },
{
    if last < RESTART_CAP_SECONDS / 2 {
        2 * last
    } else {
        RESTART_CAP_SECONDS
    }
}

/// What the follower does next.
#[derive(Debug, Clone, Copy, PartialEq, Eq, Structural)]
pub enum Step {
    /// Index the block at this height.
    Index(u64),
    /// The tip is reached: wait for a new block.
    Wait,
}

/// The height to index next: the one after the core height, or the
/// configured start where nothing was indexed yet.
pub open spec fn next_height(l: Ledger, start_height: u64) -> int {
    match lookup(l.status, "core_height"@) {
        Some(h) => h + 1,
        None => start_height as int,
    }
}

/// Whether a list of addresses holds `address`.
fn lists(addresses: &Vec<String>, address: &str) -> (r: bool)
    ensures
        r == texts(addresses@).contains(address@),
{
    let mut i: usize = 0;
    while i < addresses.len()
        invariant
            i <= addresses.len(),
            forall|k: int| 0 <= k < i ==> texts(addresses@)[k] != address@,
        decreases addresses.len() - i,
    {
        if same_text(addresses[i].as_str(), address) {
            assert(texts(addresses@)[i as int] == address@);
            return true;
        }
        i += 1;
    }
    false
}

/// The output that an inscription of `sender` is assigned to.
fn assign_vout(tx: &TxResponse, sender: &str) -> (n: u32)
    ensures
        n == assigned_vout(tx@, sender@),
{
    let mut i: usize = 0;
    while i < tx.vout.len()
        invariant
            i <= tx.vout.len(),
            first_paying(tx@.vout, sender@, 0) == first_paying(tx@.vout, sender@, i as int),
        decreases tx.vout.len() - i,
    {
        assert(tx@.vout[i as int] == tx.vout@[i as int]@);
        match &tx.vout[i].script_pub_key.addresses {
            Some(a) => {
                if lists(a, sender) {
                    return tx.vout[i].n;
                }
            },
            None => {},
        }
        i += 1;
    }
    let mut j: usize = 0;
    while j < tx.vout.len()
        invariant
            j <= tx.vout.len(),
            first_paying(tx@.vout, sender@, 0) is None,
            first_addressed(tx@.vout, 0) == first_addressed(tx@.vout, j as int),
        decreases tx.vout.len() - j,
    {
        assert(tx@.vout[j as int] == tx.vout@[j as int]@);
        match &tx.vout[j].script_pub_key.addresses {
            Some(a) => {
                if a.len() > 0 {
                    return tx.vout[j].n;
                }
            },
            None => {},
        }
        j += 1;
    }
    0
}

/// The first output whose first address is transparent.
fn find_transparent(tx: &TxResponse) -> (r: Option<(String, u32)>)
    ensures
        match r {
            Some(found) => first_transparent(tx@.vout, 0) == Some((found.0@, found.1)),
            None => first_transparent(tx@.vout, 0) is None,
        },
{
    let mut i: usize = 0;
    while i < tx.vout.len()
        invariant
            i <= tx.vout.len(),
            first_transparent(tx@.vout, 0) == first_transparent(tx@.vout, i as int),
        decreases tx.vout.len() - i,
    {
        assert(tx@.vout[i as int] == tx.vout@[i as int]@);
        match &tx.vout[i].script_pub_key.addresses {
            Some(a) => {
                if a.len() > 0 && !shielded(a[0].as_str()) {
                    return Some((a[0].clone(), tx.vout[i].n));
                }
            },
            None => {},
        }
        i += 1;
    }
    None
}

/// The first inscription that an input of `tx` carries.
fn find_inscription(tx: &TxResponse) -> (r: Option<Inscription>)
    ensures
        match r {
            Some(i) => first_inscription(tx@, 0) == Some(i@),
            None => first_inscription(tx@, 0) is None,
        },
{
    let mut k: usize = 0;
    while k < tx.vin.len()
        invariant
            k <= tx.vin.len(),
            first_inscription(tx@, 0) == first_inscription(tx@, k as int),
        decreases tx.vin.len() - k,
    {
        assert(tx@.vin[k as int] == tx.vin@[k as int]@);
        match &tx.vin[k].script_sig {
            Some(sig) => {
                match parse_inscription(sig.script.as_str(), tx.txid.as_str(), tx) {
                    Some(i) => {
                        return Some(i);
                    },
                    None => {},
                }
            },
            None => {},
        }
        k += 1;
    }
    None
}

/// A content type without its parameters, in lower case.
fn simplify_type(content_type: &str) -> (r: Vec<char>)
    ensures
        r@ == simple_type(content_type@),
{
    let lower = chars_of(lowercase(content_type).as_str());
    let cut: usize = find_char(&lower, ';');
    let head = sub_chars(&lower, 0, cut);
    assert(head@ =~= lower@.take(cut as int));
    trim_chars(&head)
}

/// Whether a body begins like a JSON document.
fn begins_like_json(content: &str) -> (r: bool)
    ensures
        r == looks_json(content@),
{
    let c = chars_of(content);
    let i: usize = skip_space(&c);
    if i < c.len() {
        assert(c@.skip(i as int)[0] == c@[i as int]);
        c[i] == '{' || c[i] == '['
    } else {
        false
    }
}

/// The follower of the chain: the store with the three engines that fill
/// it.
pub struct Indexer {
    db: Db,
    zrc20: Zrc20Engine,
    names: NamesEngine,
    zrc721: Zrc721Engine,
}

impl View for Indexer {
    type V = Ledger;

    closed spec fn view(&self) -> Ledger {
        self.db@
    }
}

impl Indexer {
    /// The invariant of the store.
    pub open spec fn wf(&self) -> bool {
        self@.wf()
    }

    /// A follower that fills `db`.
    pub fn new(db: Db) -> (r: Self)
        requires
            db.wf(),
        ensures
            r.wf(),
            r@ == db@,
    {
        Indexer {
            db,
            zrc20: Zrc20Engine::new(),
            names: NamesEngine::new(),
            zrc721: Zrc721Engine::new(),
        }
    }

    /// The store.
    pub fn db(&self) -> (r: &Db)
        ensures
            r@ == self@,
    {
        &self.db
    }

    /// Notes the tip of the chain and decides what to do next: index the
    /// block after the core height, or the configured start where nothing
    /// was indexed yet, unless that lies beyond the tip.
    pub fn plan(&mut self, start_height: u64, chain_tip: u64) -> (r: Step)
        requires
            old(self).wf(),
        ensures
            final(self).wf(),
            final(self)@ == old(self)@.set_status("chain_tip"@, chain_tip),
            r == if next_height(old(self)@, start_height) <= chain_tip {
                Step::Index(next_height(old(self)@, start_height) as u64)
            } else {
                Step::Wait
            },
    {
        let core = self.db.get_status("core_height");
        self.db.set_status("chain_tip", chain_tip);
        match core {
            Some(h) => {
                if h < chain_tip {
                    Step::Index(h + 1)
                } else {
                    Step::Wait
                }
            },
            None => {
                if start_height <= chain_tip {
                    Step::Index(start_height)
                } else {
                    Step::Wait
                }
            },
        }
    }

    /// The inscription pass over one transaction.
    fn index_inscription(&mut self, tx: &TxResponse, height: u64, time: u64)
        requires
            old(self).wf(),
        ensures
            final(self).wf(),
            final(self)@ == inscribe_effect(old(self)@, tx@, height, time),
    {
        let found = match find_inscription(tx) {
            Some(i) => i,
            None => {
                return ;
            },
        };
        let vout: u32 = assign_vout(tx, found.sender.as_str());
        let meta = InscriptionMeta {
            id: found.inscription_id.clone(),
            content: found.content.clone(),
            content_hex: found.content_hex.clone(),
            content_type: found.content_type.clone(),
            txid: tx.txid.clone(),
            vout,
            sender: found.sender.clone(),
            receiver: found.receiver.clone(),
            block_height: height,
            block_time: time,
        };
        self.db.insert_inscription(found.inscription_id.as_str(), meta);
        let kind = simplify_type(found.content_type.as_str());
        let json_start = begins_like_json(found.content.as_str());
        let is_json = same_chars(&kind, &chars_of("application/json")) || (has_prefix(
            &kind,
            &chars_of("application/"),
        ) && has_suffix(&kind, &chars_of("+json"))) || (has_prefix(&kind, &chars_of("text/"))
            && json_start);
        if is_json {
            let _ = self.zrc20.process(
                &mut self.db,
                "inscribe",
                found.inscription_id.as_str(),
                found.sender.as_str(),
                Some(found.receiver.as_str()),
                found.content.as_str(),
                Some(tx.txid.as_str()),
                Some(vout),
            );
            let _ = self.zrc721.process(
                &mut self.db,
                "inscribe",
                found.inscription_id.as_str(),
                found.sender.as_str(),
                found.content.as_str(),
                Some(tx.txid.as_str()),
                Some(vout),
            );
        } else if same_chars(&kind, &chars_of("text/plain")) && !json_start {
            let _ = self.names.process(
                &mut self.db,
                found.inscription_id.as_str(),
                found.sender.as_str(),
                found.content.as_str(),
                found.content_type.as_str(),
            );
        }
    }

    /// What spending one output reveals.
    fn reveal_input(&mut self, tx: &TxResponse, txid: &str, vout: u32)
        requires
            old(self).wf(),
        ensures
            final(self).wf(),
            final(self)@ == reveal_nft(
                reveal_transfer(old(self)@, tx@, txid@, vout),
                tx@,
                txid@,
                vout,
            ),
    {
        let target = find_transparent(tx);
        match self.db.get_transfer_by_outpoint(txid, vout) {
            Some(id) => {
                let receiver: Option<&str> = match &target {
                    Some(found) => Some(found.0.as_str()),
                    None => None,
                };
                let _ = self.zrc20.settle_transfer(&mut self.db, id.as_str(), receiver);
                self.db.mark_inscription_used(id.as_str());
                self.db.remove_transfer_outpoint(txid, vout);
            },
            None => {},
        }
        match self.db.zrc721_by_outpoint(txid, vout) {
            Some(token) => {
                match &target {
                    Some(to) => {
                        let _ = self.db.update_zrc721_owner(
                            token.0.as_str(),
                            token.1.as_str(),
                            to.0.as_str(),
                            false,
                        );
                        self.db.move_zrc721_outpoint(txid, vout, tx.txid.as_str(), to.1);
                    },
                    None => {
                        let _ = self.db.update_zrc721_owner(
                            token.0.as_str(),
                            token.1.as_str(),
                            "shielded",
                            true,
                        );
                        self.db.remove_zrc721_outpoint(txid, vout);
                    },
                }
            },
            None => {},
        }
    }

    /// Indexes one transaction: its inscription pass, then its reveal
    /// pass.
    pub fn index_transaction(&mut self, tx: &TxResponse, height: u64, time: u64)
        requires
            old(self).wf(),
        ensures
            final(self).wf(),
            final(self)@ == tx_effect(old(self)@, tx@, height, time),
    {
        self.index_inscription(tx, height, time);
        let ghost inscribed = self@;
        let mut k: usize = 0;
        while k < tx.vin.len()
            invariant
                k <= tx.vin.len(),
                self.wf(),
                reveal_effect(inscribed, tx@, 0) == reveal_effect(self@, tx@, k as int),
            decreases tx.vin.len() - k,
        {
            assert(tx@.vin[k as int] == tx.vin@[k as int]@);
            match (&tx.vin[k].txid, tx.vin[k].vout) {
                (Some(prev_txid), Some(prev_vout)) => {
                    self.reveal_input(tx, prev_txid.as_str(), prev_vout);
                },
                _ => {},
            }
            k += 1;
        }
    }

    /// Indexes the block at `height`: every transaction in order, then
    /// the hash of the block and the heights. Afterwards the hash is kept
    /// under the height and the core height stands at it, and no other
    /// height has gained or lost a block; a consistent store stays
    /// consistent and loses nothing of what it held.
    pub fn index_block(&mut self, height: u64, hash: &str, time: u64, txs: &Vec<TxResponse>)
        requires
            old(self).wf(),
        ensures
            final(self).wf(),
            final(self)@ == block_effect(old(self)@, height, hash@, time, tx_views(txs@)),
            lookup(final(self)@.blocks, height) == Some(hash@),
            lookup(final(self)@.status, "core_height"@) == Some(height),
            forall|other: u64|
                other != height ==> #[trigger] lookup(final(self)@.blocks, other) == lookup(
                    old(self)@.blocks,
                    other,
                ),
            consistent(old(self)@) ==> consistent(final(self)@) && keeps(
                old(self)@,
                final(self)@,
            ),
    {
        let ghost before = self@;
        proof {
            assert forall|other: u64| other != height implies #[trigger] lookup(
                block_effect(before, height, hash@, time, tx_views(txs@)).blocks,
                other,
            ) == lookup(before.blocks, other) by {
                lemma_no_later_block(before, height, hash@, time, tx_views(txs@), other);
            }
            if consistent(before) {
                lemma_block_consistent(before, height, hash@, time, tx_views(txs@));
                lemma_block_keeps(before, height, hash@, time, tx_views(txs@));
            }
        }
        let ghost views = tx_views(txs@);
        let mut i: usize = 0;
        while i < txs.len()
            invariant
                i <= txs.len(),
                self.wf(),
                views == tx_views(txs@),
                txs_effect(before, views, height, time, 0) == txs_effect(
                    self@,
                    views,
                    height,
                    time,
                    i as int,
                ),
            decreases txs.len() - i,
        {
            assert(views[i as int] == txs@[i as int]@);
            self.index_transaction(&txs[i], height, time);
            i += 1;
        }
        self.db.insert_block(height, hash);
        proof {
            reveal_strlit("core_height");
            reveal_strlit("zrc20_height");
            reveal_strlit("names_height");
            reveal_strlit("zrc721_height");
            assert("core_height"@.len() == 11);
            assert("zrc20_height"@.len() == 12);
            assert("names_height"@.len() == 12);
            assert("zrc721_height"@.len() == 13);
            let a = self@;
            let b = a.set_status("zrc20_height"@, height);
            let c = b.set_status("names_height"@, height);
            lemma_upsert(a.status, "zrc20_height"@, height);
            lemma_upsert(b.status, "names_height"@, height);
            lemma_upsert(c.status, "zrc721_height"@, height);
        }
        self.db.set_status("zrc20_height", height);
        self.db.set_status("names_height", height);
        self.db.set_status("zrc721_height", height);
    }
}

} // verus!
