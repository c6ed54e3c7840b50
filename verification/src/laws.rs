//! What holds of every state that the engines can reach, and the proofs.

use crate::amount::{amount_value, decimal_number};
use crate::indexer::{
    addressed, assigned_vout, block_effect, first_inscription, first_transparent, ignoring,
    inscribe_effect, json_like, meta_of, name_candidate, receiver_of, reveal_effect, reveal_nft,
    reveal_transfer, simple_type, tx_effect, txs_effect,
};
use crate::inscription::is_shielded;
use crate::ledger::{apply_change, supply_cap, Change, DbError, Ledger, Text};
use crate::names::{name_effect, name_verdict};
use crate::records::{
    Balance, InscriptionMetaView, NameRecordView, TokenInfoView, TransferIntentView,
    Zrc721CollectionView, Zrc721TokenView,
};
use crate::sums::{
    lemma_total_at_least, lemma_total_at_least_two, lemma_total_shrinks, lemma_total_update,
    overall_weights, sum_overall, total,
};
use crate::table::{
    distinct, erase, has_key, index_of, lemma_erase, lemma_lookup_at, lemma_upsert, lookup,
    upsert,
};
use crate::text::{lowercase_of, trimmed};
use crate::rpc::TxView;
use crate::zrc20::{
    apply_effect, commit_effect, deploy_effect, from_store, mint_effect, parsed_operation,
    process_effect, settle_effect, text_or, Zrc20Error, Zrc20OperationView,
};
use crate::zrc721::{
    named_collection, nft_from_store, nft_process_effect, parsed_nft_operation,
};
use vstd::prelude::*;

verus! {

/// What each transfer intent locks of the holdings of `address` in `tick`:
/// its amount while it has not been used.
pub open spec fn lock_weights(
    transfers: Seq<(Text, TransferIntentView)>,
    used: Seq<(Text, bool)>,
    address: Text,
    tick: Text,
) -> Seq<nat> {
    transfers.map_values(
        |e: (Text, TransferIntentView)|
            if e.1.sender == address && e.1.tick == tick && lookup(used, e.0) != Some(true) {
                e.1.amt as nat
            } else {
                0nat
            },
    )
}

/// What the transfers that wait for their settlement lock of the holdings
/// of `address` in `tick`.
pub open spec fn pending(l: Ledger, address: Text, tick: Text) -> nat {
    total(lock_weights(l.transfers, l.used, address, tick))
}

/// The supply of every token is what its holders hold together with what
/// was burned.
pub open spec fn supply_accounted(l: Ledger) -> bool {
    forall|tick: Text| #[trigger]
        l.supply_of(tick) == sum_overall(l.balances, tick) + l.burned_of(tick)
}

/// What a holder cannot spend covers what their waiting transfers lock.
pub open spec fn locks_covered(l: Ledger) -> bool {
    forall|address: Text, tick: Text|
        (#[trigger] l.balance(address, tick)).overall - l.balance(address, tick).available
            >= pending(l, address, tick)
}

/// A collection with a cap has minted no more than the cap, and each of
/// its tokens carries a number below the cap; every token belongs to a
/// collection.
pub open spec fn caps_respected(l: Ledger) -> bool {
    &&& forall|i: int|
        0 <= i < l.nfts.len() ==> has_key(l.collections, (#[trigger] l.nfts[i]).0.0)
    &&& forall|j: int|
        0 <= j < l.collections.len() && supply_cap((#[trigger] l.collections[j]).1.supply)
            is Some ==> {
            let cap = supply_cap(l.collections[j].1.supply)->0;
            &&& l.collections[j].1.minted <= cap
            &&& forall|i: int|
                0 <= i < l.nfts.len() && (#[trigger] l.nfts[i]).0.0 == l.collections[j].0
                    ==> decimal_number(l.nfts[i].0.1) is Some && decimal_number(l.nfts[i].0.1)->0 < cap
        }
}

/// The state of the fungible tokens is sound: tables are well formed,
/// supplies are accounted for and locks are covered.
pub open spec fn sound(l: Ledger) -> bool {
    &&& l.wf()
    &&& supply_accounted(l)
    &&& locks_covered(l)
}

/// In a sound state nobody has more available than they hold overall.
pub proof fn lemma_available_within_overall(l: Ledger, address: Text, tick: Text)
    requires
        sound(l),
    ensures
        l.balance(address, tick).available <= l.balance(address, tick).overall,
{
}

/// In a sound state the supply of a token equals the sum of what its
/// holders hold overall plus what was burned.
pub proof fn lemma_supply_accounted(l: Ledger, tick: Text)
    requires
        sound(l),
    ensures
        l.supply_of(tick) == sum_overall(l.balances, tick) + l.burned_of(tick),
{
}

/// The empty store is sound and respects all caps.
pub proof fn lemma_empty_sound()
    ensures
        sound(Ledger::empty()),
        caps_respected(Ledger::empty()),
{
    let l = Ledger::empty();
    assert forall|tick: Text| #[trigger]
        l.supply_of(tick) == sum_overall(l.balances, tick) + l.burned_of(tick) by {
        assert(overall_weights(l.balances, tick) =~= Seq::<nat>::empty());
    }
    assert forall|address: Text, tick: Text|
        (#[trigger] l.balance(address, tick)).overall - l.balance(address, tick).available
            >= pending(l, address, tick) by {
        assert(lock_weights(l.transfers, l.used, address, tick) =~= Seq::<nat>::empty());
    }
}

/// How storing a balance changes the total holdings of a token.
pub proof fn lemma_sum_upsert(
    b: Seq<((Text, Text), Balance)>,
    address: Text,
    tick: Text,
    next: Balance,
    of: Text,
)
    requires
        distinct(b),
    ensures
        sum_overall(upsert(b, (address, tick), next), of) + (if tick == of {
            (match lookup(b, (address, tick)) {
                Some(held) => held.overall as nat,
                None => 0nat,
            })
        } else {
            0nat
        }) == sum_overall(b, of) + (if tick == of {
            next.overall as nat
        } else {
            0nat
        }),
{
    let key = (address, tick);
    let after = upsert(b, key, next);
    let w = overall_weights(b, of);
    let v = overall_weights(after, of);
    if has_key(b, key) {
        let i = index_of(b, key);
        lemma_lookup_at(b, i);
        assert forall|j: int| 0 <= j < w.len() && j != i implies w[j] == v[j] by {
            assert(after[j] == b[j]);
        }
        lemma_total_update(w, v, i);
    } else {
        assert(v.drop_last() =~= w);
    }
}

/// Storing a balance leaves the locks as they are.
pub proof fn lemma_pending_ignores_balances(l: Ledger, m: Ledger, address: Text, tick: Text)
    requires
        l.transfers == m.transfers,
        l.used == m.used,
    ensures
        pending(l, address, tick) == pending(m, address, tick),
{
}

/// Recording a transfer intent raises no lock but that of its sender in
/// its token, and that by no more than its amount.
pub proof fn lemma_pending_create(
    l: Ledger,
    id: Text,
    intent: TransferIntentView,
    address: Text,
    tick: Text,
)
    requires
        l.wf(),
    ensures
        pending(l.create_transfer(id, intent), address, tick) <= pending(l, address, tick) + (
        if intent.sender == address && intent.tick == tick {
            intent.amt as nat
        } else {
            0nat
        }),
{
    let m = l.create_transfer(id, intent);
    let w = lock_weights(l.transfers, l.used, address, tick);
    let v = lock_weights(m.transfers, m.used, address, tick);
    lemma_upsert(l.used, id, false);
    lemma_upsert(l.transfers, id, intent);
    if has_key(l.transfers, id) {
        let i = index_of(l.transfers, id);
        lemma_lookup_at(l.transfers, i);
        assert forall|j: int| 0 <= j < w.len() && j != i implies w[j] == v[j] by {
            assert(m.transfers[j] == l.transfers[j]);
            lemma_lookup_at(l.transfers, j);
            assert(l.transfers[j].0 != id);
        }
        lemma_total_update(w, v, i);
    } else {
        assert forall|j: int| 0 <= j < w.len() implies w[j] == v[j] by {
            assert(m.transfers[j] == l.transfers[j]);
            assert(l.transfers[j].0 != id);
        }
        assert(v.drop_last() =~= w);
    }
}

/// Marking an inscription as used raises no lock.
pub proof fn lemma_pending_mark(l: Ledger, id: Text, address: Text, tick: Text)
    requires
        l.wf(),
    ensures
        pending(l.mark_used(id), address, tick) <= pending(l, address, tick),
{
    let m = l.mark_used(id);
    let w = lock_weights(l.transfers, l.used, address, tick);
    let v = lock_weights(m.transfers, m.used, address, tick);
    lemma_upsert(l.used, id, true);
    assert forall|j: int| 0 <= j < w.len() implies v[j] <= w[j] by {
        if l.transfers[j].0 != id {
            assert(lookup(m.used, l.transfers[j].0) == lookup(l.used, l.transfers[j].0));
        }
    }
    lemma_total_shrinks(w, v);
}

/// Marking a waiting transfer as used releases its amount from the lock
/// of its sender in its token.
pub proof fn lemma_pending_settle(l: Ledger, id: Text)
    requires
        l.wf(),
        !l.is_used(id),
        lookup(l.transfers, id) is Some,
    ensures
        ({
            let t = lookup(l.transfers, id)->0;
            pending(l.mark_used(id), t.sender, t.tick) + t.amt == pending(l, t.sender, t.tick)
        }),
{
    let t = lookup(l.transfers, id)->0;
    let m = l.mark_used(id);
    let w = lock_weights(l.transfers, l.used, t.sender, t.tick);
    let v = lock_weights(m.transfers, m.used, t.sender, t.tick);
    lemma_upsert(l.used, id, true);
    let i = index_of(l.transfers, id);
    lemma_lookup_at(l.transfers, i);
    assert forall|j: int| 0 <= j < w.len() && j != i implies w[j] == v[j] by {
        lemma_lookup_at(l.transfers, j);
        assert(l.transfers[j].0 != id);
        assert(lookup(m.used, l.transfers[j].0) == lookup(l.used, l.transfers[j].0));
    }
    lemma_total_update(w, v, i);
    assert(v[i] == 0);
    assert(w[i] == t.amt);
}

/// What storing one balance changes: that balance, and the total holdings
/// of its token by the difference.
pub proof fn lemma_balance_change(
    l: Ledger,
    address: Text,
    tick: Text,
    next: Balance,
)
    requires
        l.wf(),
    ensures
        ({
            let m = Ledger { balances: upsert(l.balances, (address, tick), next), ..l };
            &&& m.wf()
            &&& m.balance(address, tick) == next
            &&& forall|a: Text, t: Text|
                (a, t) != (address, tick) ==> #[trigger] m.balance(a, t) == l.balance(a, t)
            &&& forall|t: Text|
                t != tick ==> #[trigger] sum_overall(m.balances, t) == sum_overall(l.balances, t)
            &&& sum_overall(m.balances, tick) + l.balance(address, tick).overall == sum_overall(
                l.balances,
                tick,
            ) + next.overall
        }),
{
    let m = Ledger { balances: upsert(l.balances, (address, tick), next), ..l };
    lemma_upsert(l.balances, (address, tick), next);
    assert forall|t: Text| t != tick implies #[trigger] sum_overall(m.balances, t) == sum_overall(
        l.balances,
        t,
    ) by {
        lemma_sum_upsert(l.balances, address, tick, next, t);
    }
    lemma_sum_upsert(l.balances, address, tick, next, tick);
}

/// A deploy keeps a sound state sound.
pub proof fn lemma_deploy_sound(
    l: Ledger,
    op: Zrc20OperationView,
    inscription_id: Text,
    deployer: Text,
)
    requires
        sound(l),
        deploy_effect(l, op, inscription_id, deployer) is Ok,
    ensures
        sound(deploy_effect(l, op, inscription_id, deployer)->Ok_0),
{
    let m = deploy_effect(l, op, inscription_id, deployer)->Ok_0;
    let tick = lowercase_of(op.tick);
    let info = m.tokens.last().1;
    lemma_upsert(l.tokens, tick, info);
    assert(m.tokens =~= upsert(l.tokens, tick, info));
    assert forall|t: Text| #[trigger]
        m.supply_of(t) == sum_overall(m.balances, t) + m.burned_of(t) by {
        assert(l.supply_of(t) == sum_overall(l.balances, t) + l.burned_of(t));
    }
    assert forall|a: Text, t: Text|
        (#[trigger] m.balance(a, t)).overall - m.balance(a, t).available >= pending(m, a, t) by {
        assert(m.balance(a, t) == l.balance(a, t));
        lemma_pending_ignores_balances(l, m, a, t);
    }
}

/// Crediting a mint keeps a sound state sound.
pub proof fn lemma_mint_credit_sound(l: Ledger, tick: Text, address: Text, amt: u128)
    requires
        sound(l),
        l.mint_credit(tick, address, amt) is Ok,
    ensures
        sound(l.mint_credit(tick, address, amt)->Ok_0),
{
    let m = l.mint_credit(tick, address, amt)->Ok_0;
    let info = lookup(l.tokens, tick)->0;
    let held = l.balance(address, tick);
    let next = Balance {
        available: (held.available + amt) as u128,
        overall: (held.overall + amt) as u128,
    };
    let grown = TokenInfoView { supply: (info.supply + amt) as u128, ..info };
    let credited = Ledger { balances: upsert(l.balances, (address, tick), next), ..l };
    lemma_upsert(l.tokens, tick, grown);
    lemma_balance_change(l, address, tick, next);
    assert(m.balances == credited.balances);
    assert(m.tokens == upsert(l.tokens, tick, grown));
    assert forall|t: Text| #[trigger]
        m.supply_of(t) == sum_overall(m.balances, t) + m.burned_of(t) by {
        assert(l.supply_of(t) == sum_overall(l.balances, t) + l.burned_of(t));
        if t != tick {
            assert(sum_overall(credited.balances, t) == sum_overall(l.balances, t));
            assert(lookup(m.tokens, t) == lookup(l.tokens, t));
        } else {
            assert(lookup(m.tokens, t) == Some(grown));
        }
    }
    assert forall|a: Text, t: Text|
        (#[trigger] m.balance(a, t)).overall - m.balance(a, t).available >= pending(m, a, t) by {
        lemma_pending_ignores_balances(l, m, a, t);
        assert(m.balance(a, t) == credited.balance(a, t));
        assert(l.balance(a, t).overall - l.balance(a, t).available >= pending(l, a, t));
    }
}

/// A mint keeps a sound state sound.
pub proof fn lemma_mint_sound(l: Ledger, op: Zrc20OperationView, minter: Text)
    requires
        sound(l),
        mint_effect(l, op, minter) is Ok,
    ensures
        sound(mint_effect(l, op, minter)->Ok_0),
{
    let tick = lowercase_of(op.tick);
    let info = lookup(l.tokens, tick)->0;
    let amt = amount_value(op.amt->0, info.dec)->Ok_0;
    assert(mint_effect(l, op, minter) == from_store(
        l.mint_credit(tick, minter, amt),
    ));
    lemma_mint_credit_sound(l, tick, minter, amt);
}

/// The commit of a transfer keeps a sound state sound.
pub proof fn lemma_commit_sound(
    l: Ledger,
    op: Zrc20OperationView,
    inscription_id: Text,
    sender: Text,
    txid: Option<Text>,
    assigned_vout: Option<u32>,
)
    requires
        sound(l),
        commit_effect(l, op, inscription_id, sender, txid, assigned_vout) is Ok,
    ensures
        sound(commit_effect(l, op, inscription_id, sender, txid, assigned_vout)->Ok_0),
{
    let m = commit_effect(l, op, inscription_id, sender, txid, assigned_vout)->Ok_0;
    let tick = lowercase_of(op.tick);
    let info = lookup(l.tokens, tick)->0;
    let amt = amount_value(op.amt->0, info.dec)->Ok_0;
    let intent = TransferIntentView { tick: tick, amt: amt, sender: sender };
    let recorded = l.create_transfer(inscription_id, intent);
    let noted = if txid is Some && assigned_vout is Some {
        recorded.register_transfer_outpoint(txid->0, assigned_vout->0, inscription_id)
    } else {
        recorded
    };
    lemma_upsert(l.transfers, inscription_id, intent);
    lemma_upsert(l.used, inscription_id, false);
    if txid is Some && assigned_vout is Some {
        lemma_upsert(recorded.transfer_outpoints, (txid->0, assigned_vout->0), inscription_id);
    }
    let held = l.balance(sender, tick);
    let next = apply_change(held, Change::Lower(amt), Change::Keep)->Ok_0;
    assert(noted.balance(sender, tick) == held);
    lemma_balance_change(noted, sender, tick, next);
    let locked = Ledger { balances: upsert(noted.balances, (sender, tick), next), ..noted };
    assert(m == locked);
    assert forall|t: Text| #[trigger]
        m.supply_of(t) == sum_overall(m.balances, t) + m.burned_of(t) by {
        assert(l.supply_of(t) == sum_overall(l.balances, t) + l.burned_of(t));
        if t != tick {
            assert(sum_overall(locked.balances, t) == sum_overall(noted.balances, t));
        }
    }
    assert forall|a: Text, t: Text|
        (#[trigger] m.balance(a, t)).overall - m.balance(a, t).available >= pending(m, a, t) by {
        lemma_pending_create(l, inscription_id, intent, a, t);
        lemma_pending_ignores_balances(recorded, m, a, t);
        assert(l.balance(a, t).overall - l.balance(a, t).available >= pending(l, a, t));
        assert(noted.balance(a, t) == l.balance(a, t));
        if (a, t) != (sender, tick) {
            assert(locked.balance(a, t) == noted.balance(a, t));
        }
    }
}

/// The settlement of a transfer keeps a sound state sound.
pub proof fn lemma_settle_sound(l: Ledger, inscription_id: Text, receiver: Option<Text>)
    requires
        sound(l),
        settle_effect(l, inscription_id, receiver) is Ok,
    ensures
        sound(settle_effect(l, inscription_id, receiver)->Ok_0),
{
    let m = settle_effect(l, inscription_id, receiver)->Ok_0;
    let t = lookup(l.transfers, inscription_id)->0;
    let to = text_or(receiver, t.sender);
    let amt = t.amt;
    lemma_upsert(l.used, inscription_id, true);
    lemma_pending_settle(l, inscription_id);
    if to == t.sender {
        let held = l.balance(t.sender, t.tick);
        let next = apply_change(held, Change::Raise(amt), Change::Keep)->Ok_0;
        lemma_balance_change(l, t.sender, t.tick, next);
        let unlocked = Ledger { balances: upsert(l.balances, (t.sender, t.tick), next), ..l };
        assert(m.balances == unlocked.balances);
        assert forall|k: Text| #[trigger]
            m.supply_of(k) == sum_overall(m.balances, k) + m.burned_of(k) by {
            assert(l.supply_of(k) == sum_overall(l.balances, k) + l.burned_of(k));
            if k != t.tick {
                assert(sum_overall(unlocked.balances, k) == sum_overall(l.balances, k));
            }
        }
        assert forall|a: Text, k: Text|
            (#[trigger] m.balance(a, k)).overall - m.balance(a, k).available >= pending(
                m,
                a,
                k,
            ) by {
            lemma_pending_mark(l, inscription_id, a, k);
            lemma_pending_ignores_balances(l.mark_used(inscription_id), m, a, k);
            assert(l.balance(a, k).overall - l.balance(a, k).available >= pending(l, a, k));
            assert(m.balance(a, k) == unlocked.balance(a, k));
        }
    } else {
        let held = l.balance(t.sender, t.tick);
        let lowered = apply_change(held, Change::Keep, Change::Lower(amt))->Ok_0;
        lemma_balance_change(l, t.sender, t.tick, lowered);
        let debited = Ledger { balances: upsert(l.balances, (t.sender, t.tick), lowered), ..l };
        let had = debited.balance(to, t.tick);
        assert(had == l.balance(to, t.tick));
        let raised = apply_change(had, Change::Raise(amt), Change::Raise(amt))->Ok_0;
        lemma_balance_change(debited, to, t.tick, raised);
        let credited = Ledger {
            balances: upsert(debited.balances, (to, t.tick), raised),
            ..debited
        };
        assert(m.balances == credited.balances);
        assert forall|k: Text| #[trigger]
            m.supply_of(k) == sum_overall(m.balances, k) + m.burned_of(k) by {
            assert(l.supply_of(k) == sum_overall(l.balances, k) + l.burned_of(k));
            if k != t.tick {
                assert(sum_overall(debited.balances, k) == sum_overall(l.balances, k));
                assert(sum_overall(credited.balances, k) == sum_overall(debited.balances, k));
            }
        }
        assert forall|a: Text, k: Text|
            (#[trigger] m.balance(a, k)).overall - m.balance(a, k).available >= pending(
                m,
                a,
                k,
            ) by {
            lemma_pending_mark(l, inscription_id, a, k);
            lemma_pending_ignores_balances(l.mark_used(inscription_id), m, a, k);
            assert(l.balance(a, k).overall - l.balance(a, k).available >= pending(l, a, k));
            assert(m.balances == credited.balances);
            assert(m.balance(a, k) == credited.balance(a, k));
            if (a, k) == (t.sender, t.tick) {
                assert(credited.balance(a, k) == debited.balance(a, k));
            } else if (a, k) == (to, t.tick) {
            } else {
                assert(credited.balance(a, k) == debited.balance(a, k));
                assert(debited.balance(a, k) == l.balance(a, k));
            }
        }
    }
}

/// Whatever event the fungible-token engine handles, a sound state stays
/// sound.
pub proof fn lemma_process_sound(
    l: Ledger,
    event_type: Text,
    inscription_id: Text,
    sender: Text,
    receiver: Option<Text>,
    content: Text,
    txid: Option<Text>,
    assigned_vout: Option<u32>,
)
    requires
        sound(l),
        process_effect(
            l,
            event_type,
            inscription_id,
            sender,
            receiver,
            content,
            txid,
            assigned_vout,
        ) is Ok,
    ensures
        sound(
            process_effect(
                l,
                event_type,
                inscription_id,
                sender,
                receiver,
                content,
                txid,
                assigned_vout,
            )->Ok_0,
        ),
{
    let op = parsed_operation(content)->Ok_0;
    lemma_apply_sound(l, event_type, op, inscription_id, sender, receiver, txid, assigned_vout);
}

/// Whatever operation the fungible-token engine applies, a sound state
/// stays sound.
pub proof fn lemma_apply_sound(
    l: Ledger,
    event_type: Text,
    op: Zrc20OperationView,
    inscription_id: Text,
    sender: Text,
    receiver: Option<Text>,
    txid: Option<Text>,
    assigned_vout: Option<u32>,
)
    requires
        sound(l),
        apply_effect(l, event_type, op, inscription_id, sender, receiver, txid, assigned_vout)
            is Ok,
    ensures
        sound(
            apply_effect(
                l,
                event_type,
                op,
                inscription_id,
                sender,
                receiver,
                txid,
                assigned_vout,
            )->Ok_0,
        ),
{
    if op.op == "deploy"@ && event_type == "inscribe"@ {
        lemma_deploy_sound(l, op, inscription_id, sender);
    } else if op.op == "mint"@ && event_type == "inscribe"@ {
        lemma_mint_sound(l, op, sender);
    } else if op.op == "transfer"@ && event_type == "inscribe"@ {
        lemma_commit_sound(l, op, inscription_id, sender, txid, assigned_vout);
    } else if op.op == "transfer"@ && event_type == "transfer"@ {
        lemma_settle_sound(l, inscription_id, receiver);
    }
}

/// A settled transfer is used, and a used transfer is not settled again.
pub proof fn lemma_settles_once(l: Ledger, inscription_id: Text, receiver: Option<Text>, again:
    Option<Text>)
    requires
        l.wf(),
        settle_effect(l, inscription_id, receiver) is Ok,
    ensures
        settle_effect(l, inscription_id, receiver)->Ok_0.is_used(inscription_id),
        settle_effect(settle_effect(l, inscription_id, receiver)->Ok_0, inscription_id, again)
            == Err::<Ledger, Zrc20Error>(Zrc20Error::TransferUsed),
{
    let m = settle_effect(l, inscription_id, receiver)->Ok_0;
    assert(m.used == upsert(l.used, inscription_id, true));
    lemma_upsert(l.used, inscription_id, true);
}

/// The commit of a transfer succeeds wherever the sender has the amount
/// available. It lowers what the sender has available by the amount and
/// nothing else of any balance, records the intent as not yet used, notes
/// the outpoint where one is given, and leaves every token as it was.
pub proof fn lemma_commit_locks(
    l: Ledger,
    op: Zrc20OperationView,
    inscription_id: Text,
    sender: Text,
    txid: Option<Text>,
    assigned_vout: Option<u32>,
)
    requires
        l.wf(),
        op.amt is Some,
        lookup(l.tokens, lowercase_of(op.tick)) is Some,
        amount_value(op.amt->0, lookup(l.tokens, lowercase_of(op.tick))->0.dec) is Ok,
        l.balance(sender, lowercase_of(op.tick)).available >= amount_value(
            op.amt->0,
            lookup(l.tokens, lowercase_of(op.tick))->0.dec,
        )->Ok_0,
    ensures
        commit_effect(l, op, inscription_id, sender, txid, assigned_vout) is Ok,
        ({
            let m = commit_effect(l, op, inscription_id, sender, txid, assigned_vout)->Ok_0;
            let tick = lowercase_of(op.tick);
            let amt = amount_value(op.amt->0, lookup(l.tokens, tick)->0.dec)->Ok_0;
            &&& m.wf()
            &&& m.balance(sender, tick) == Balance {
                available: (l.balance(sender, tick).available - amt) as u128,
                overall: l.balance(sender, tick).overall,
            }
            &&& forall|a: Text, t: Text|
                (a, t) != (sender, tick) ==> #[trigger] m.balance(a, t) == l.balance(a, t)
            &&& lookup(m.transfers, inscription_id) == Some(
                TransferIntentView { tick: tick, amt: amt, sender: sender },
            )
            &&& !m.is_used(inscription_id)
            &&& (txid is Some && assigned_vout is Some ==> lookup(
                m.transfer_outpoints,
                (txid->0, assigned_vout->0),
            ) == Some(inscription_id))
            &&& m.tokens == l.tokens
            &&& m.burned == l.burned
        }),
{
    let m = commit_effect(l, op, inscription_id, sender, txid, assigned_vout)->Ok_0;
    let tick = lowercase_of(op.tick);
    let info = lookup(l.tokens, tick)->0;
    let amt = amount_value(op.amt->0, info.dec)->Ok_0;
    let intent = TransferIntentView { tick: tick, amt: amt, sender: sender };
    let recorded = l.create_transfer(inscription_id, intent);
    let noted = if txid is Some && assigned_vout is Some {
        recorded.register_transfer_outpoint(txid->0, assigned_vout->0, inscription_id)
    } else {
        recorded
    };
    lemma_upsert(l.transfers, inscription_id, intent);
    lemma_upsert(l.used, inscription_id, false);
    if txid is Some && assigned_vout is Some {
        lemma_upsert(recorded.transfer_outpoints, (txid->0, assigned_vout->0), inscription_id);
    }
    let held = l.balance(sender, tick);
    let next = apply_change(held, Change::Lower(amt), Change::Keep)->Ok_0;
    assert(noted.balance(sender, tick) == held);
    lemma_balance_change(noted, sender, tick, next);
    let locked = Ledger { balances: upsert(noted.balances, (sender, tick), next), ..noted };
    assert(m == locked);
    assert forall|a: Text, t: Text| (a, t) != (sender, tick) implies #[trigger] m.balance(a, t)
        == l.balance(a, t) by {
        assert(locked.balance(a, t) == noted.balance(a, t));
        assert(noted.balance(a, t) == l.balance(a, t));
    }
}

/// The settlement of a waiting transfer that returns to its sender
/// succeeds wherever the sender's available part can take the amount. It
/// raises what the sender has available by the amount, changes nothing
/// else of any balance, and marks the transfer as used.
pub proof fn lemma_settle_unlocks(l: Ledger, inscription_id: Text, receiver: Option<Text>)
    requires
        l.wf(),
        !l.is_used(inscription_id),
        lookup(l.transfers, inscription_id) is Some,
        receiver is None || receiver == Some(lookup(l.transfers, inscription_id)->0.sender),
        ({
            let t = lookup(l.transfers, inscription_id)->0;
            l.balance(t.sender, t.tick).available + t.amt <= u128::MAX
        }),
    ensures
        settle_effect(l, inscription_id, receiver) is Ok,
        ({
            let m = settle_effect(l, inscription_id, receiver)->Ok_0;
            let t = lookup(l.transfers, inscription_id)->0;
            &&& m.wf()
            &&& m.balance(t.sender, t.tick) == Balance {
                available: (l.balance(t.sender, t.tick).available + t.amt) as u128,
                overall: l.balance(t.sender, t.tick).overall,
            }
            &&& forall|a: Text, k: Text|
                (a, k) != (t.sender, t.tick) ==> #[trigger] m.balance(a, k) == l.balance(a, k)
            &&& m.is_used(inscription_id)
            &&& m.tokens == l.tokens
            &&& m.burned == l.burned
        }),
{
    let m = settle_effect(l, inscription_id, receiver)->Ok_0;
    let t = lookup(l.transfers, inscription_id)->0;
    let held = l.balance(t.sender, t.tick);
    let next = apply_change(held, Change::Raise(t.amt), Change::Keep)->Ok_0;
    lemma_balance_change(l, t.sender, t.tick, next);
    lemma_upsert(l.used, inscription_id, true);
    let unlocked = Ledger { balances: upsert(l.balances, (t.sender, t.tick), next), ..l };
    assert(m == unlocked.mark_used(inscription_id));
    assert(m.balance(t.sender, t.tick) == unlocked.balance(t.sender, t.tick));
    assert forall|a: Text, k: Text| (a, k) != (t.sender, t.tick) implies #[trigger] m.balance(
        a,
        k,
    ) == l.balance(a, k) by {
        assert(m.balance(a, k) == unlocked.balance(a, k));
    }
}

/// The settlement of a waiting transfer to another address succeeds
/// wherever the sender holds the amount overall and the receiver's parts
/// can take it. It lowers what the sender holds overall by the amount,
/// raises both parts of the receiver by it, changes no other balance,
/// marks the transfer as used, and leaves the supply and the total
/// holdings of every token as they were.
pub proof fn lemma_settle_moves(l: Ledger, inscription_id: Text, receiver: Text)
    requires
        l.wf(),
        !l.is_used(inscription_id),
        lookup(l.transfers, inscription_id) is Some,
        receiver != lookup(l.transfers, inscription_id)->0.sender,
        ({
            let t = lookup(l.transfers, inscription_id)->0;
            &&& l.balance(t.sender, t.tick).overall >= t.amt
            &&& l.balance(receiver, t.tick).available + t.amt <= u128::MAX
            &&& l.balance(receiver, t.tick).overall + t.amt <= u128::MAX
        }),
    ensures
        settle_effect(l, inscription_id, Some(receiver)) is Ok,
        ({
            let m = settle_effect(l, inscription_id, Some(receiver))->Ok_0;
            let t = lookup(l.transfers, inscription_id)->0;
            &&& m.wf()
            &&& m.balance(t.sender, t.tick) == Balance {
                available: l.balance(t.sender, t.tick).available,
                overall: (l.balance(t.sender, t.tick).overall - t.amt) as u128,
            }
            &&& m.balance(receiver, t.tick) == Balance {
                available: (l.balance(receiver, t.tick).available + t.amt) as u128,
                overall: (l.balance(receiver, t.tick).overall + t.amt) as u128,
            }
            &&& forall|a: Text, k: Text|
                (a, k) != (t.sender, t.tick) && (a, k) != (receiver, t.tick) ==> #[trigger] m.balance(
                    a,
                    k,
                ) == l.balance(a, k)
            &&& m.is_used(inscription_id)
            &&& m.tokens == l.tokens
            &&& m.burned == l.burned
            &&& forall|k: Text| #[trigger]
                sum_overall(m.balances, k) == sum_overall(l.balances, k)
        }),
{
    let m = settle_effect(l, inscription_id, Some(receiver))->Ok_0;
    let t = lookup(l.transfers, inscription_id)->0;
    let held = l.balance(t.sender, t.tick);
    let lowered = apply_change(held, Change::Keep, Change::Lower(t.amt))->Ok_0;
    lemma_balance_change(l, t.sender, t.tick, lowered);
    let debited = Ledger { balances: upsert(l.balances, (t.sender, t.tick), lowered), ..l };
    let had = debited.balance(receiver, t.tick);
    assert(had == l.balance(receiver, t.tick));
    let raised = apply_change(had, Change::Raise(t.amt), Change::Raise(t.amt))->Ok_0;
    lemma_balance_change(debited, receiver, t.tick, raised);
    let credited = Ledger {
        balances: upsert(debited.balances, (receiver, t.tick), raised),
        ..debited
    };
    lemma_upsert(l.used, inscription_id, true);
    assert(m == credited.mark_used(inscription_id));
    assert(m.balances == credited.balances);
    assert(m.balance(t.sender, t.tick) == credited.balance(t.sender, t.tick));
    assert(credited.balance(t.sender, t.tick) == debited.balance(t.sender, t.tick));
    assert(m.balance(receiver, t.tick) == credited.balance(receiver, t.tick));
    assert forall|a: Text, k: Text|
        (a, k) != (t.sender, t.tick) && (a, k) != (receiver, t.tick) implies #[trigger] m.balance(
        a,
        k,
    ) == l.balance(a, k) by {
        assert(m.balance(a, k) == credited.balance(a, k));
        assert(credited.balance(a, k) == debited.balance(a, k));
        assert(debited.balance(a, k) == l.balance(a, k));
    }
    assert forall|k: Text| #[trigger]
        sum_overall(m.balances, k) == sum_overall(l.balances, k) by {
        if k != t.tick {
            assert(sum_overall(debited.balances, k) == sum_overall(l.balances, k));
            assert(sum_overall(credited.balances, k) == sum_overall(debited.balances, k));
        }
    }
}

/// Every balance has no more available than it holds overall.
pub open spec fn within_overall(l: Ledger) -> bool {
    forall|a: Text, k: Text|
        (#[trigger] l.balance(a, k)).available <= l.balance(a, k).overall
}

/// Where every balance has no more available than it holds overall, and
/// the sender of a transfer cannot spend at least its amount, a settlement
/// keeps it so for every balance, whether it succeeds or fails.
pub proof fn lemma_settle_within_overall(l: Ledger, inscription_id: Text, receiver: Option<Text>)
    requires
        l.wf(),
        within_overall(l),
        lookup(l.transfers, inscription_id) is Some ==> ({
            let t = lookup(l.transfers, inscription_id)->0;
            l.balance(t.sender, t.tick).overall - l.balance(t.sender, t.tick).available >= t.amt
        }),
    ensures
        within_overall(ignoring(l, settle_effect(l, inscription_id, receiver))),
{
    let r = settle_effect(l, inscription_id, receiver);
    let m = ignoring(l, r);
    if r is Ok {
        let t = lookup(l.transfers, inscription_id)->0;
        let to = text_or(receiver, t.sender);
        assert(l.balance(t.sender, t.tick).available <= l.balance(t.sender, t.tick).overall);
        if to == t.sender {
            lemma_settle_unlocks(l, inscription_id, receiver);
            assert forall|a: Text, k: Text|
                (#[trigger] m.balance(a, k)).available <= m.balance(a, k).overall by {
                if (a, k) != (t.sender, t.tick) {
                    assert(l.balance(a, k).available <= l.balance(a, k).overall);
                }
            }
        } else {
            assert(l.balance(to, t.tick).available <= l.balance(to, t.tick).overall);
            let lowered = apply_change(
                l.balance(t.sender, t.tick),
                Change::Keep,
                Change::Lower(t.amt),
            )->Ok_0;
            lemma_balance_change(l, t.sender, t.tick, lowered);
            let debited = Ledger {
                balances: upsert(l.balances, (t.sender, t.tick), lowered),
                ..l
            };
            assert(debited.balance(to, t.tick) == l.balance(to, t.tick));
            assert(debited.change_balance(to, t.tick, Change::Raise(t.amt), Change::Raise(t.amt))
                is Ok);
            lemma_settle_moves(l, inscription_id, to);
            assert forall|a: Text, k: Text|
                (#[trigger] m.balance(a, k)).available <= m.balance(a, k).overall by {
                if (a, k) != (t.sender, t.tick) && (a, k) != (to, t.tick) {
                    assert(l.balance(a, k).available <= l.balance(a, k).overall);
                }
            }
        }
    }
}

/// A transfer is settled only while it is not used, and is used from
/// then on; a used transfer is refused, and nothing changes.
pub proof fn lemma_settle_gate(l: Ledger, inscription_id: Text, receiver: Option<Text>)
    requires
        l.wf(),
    ensures
        settle_effect(l, inscription_id, receiver) is Ok ==> !l.is_used(inscription_id)
            && settle_effect(l, inscription_id, receiver)->Ok_0.is_used(inscription_id),
        l.is_used(inscription_id) ==> settle_effect(l, inscription_id, receiver) == Err::<
            Ledger,
            Zrc20Error,
        >(Zrc20Error::TransferUsed),
        ignoring(l, settle_effect(l, inscription_id, receiver)) != l ==> settle_effect(
            l,
            inscription_id,
            receiver,
        ) is Ok,
{
    if settle_effect(l, inscription_id, receiver) is Ok {
        lemma_settles_once(l, inscription_id, receiver, None);
    }
}

/// A state in which the fungible tokens are sound and every collection
/// respects its cap. The empty store is such a state, and indexing a block
/// leads from one such state to another.
pub open spec fn consistent(l: Ledger) -> bool {
    sound(l) && caps_respected(l)
}

/// In a consistent state a collection whose supply states a cap has
/// minted no more than the cap.
pub proof fn lemma_minted_within_supply(l: Ledger, tick: Text)
    requires
        consistent(l),
        lookup(l.collections, tick) is Some,
        supply_cap(lookup(l.collections, tick)->0.supply) is Some,
    ensures
        lookup(l.collections, tick)->0.minted <= supply_cap(
            lookup(l.collections, tick)->0.supply,
        )->0,
{
    let j = index_of(l.collections, tick);
    lemma_lookup_at(l.collections, j);
    assert(supply_cap(l.collections[j].1.supply) is Some);
}

/// In a consistent state every token of a collection whose supply states
/// a cap carries a number from zero up to, but not including, the cap.
pub proof fn lemma_token_id_in_range(l: Ledger, tick: Text, token_id: Text)
    requires
        consistent(l),
        lookup(l.nfts, (tick, token_id)) is Some,
    ensures
        lookup(l.collections, tick) is Some,
        supply_cap(lookup(l.collections, tick)->0.supply) matches Some(cap) ==> {
            &&& decimal_number(token_id) is Some
            &&& decimal_number(token_id)->0 < cap
        },
{
    let i = index_of(l.nfts, (tick, token_id));
    lemma_lookup_at(l.nfts, i);
    assert(has_key(l.collections, l.nfts[i].0.0));
    let j = index_of(l.collections, tick);
    lemma_lookup_at(l.collections, j);
    if supply_cap(l.collections[j].1.supply) is Some {
        assert(l.nfts[i].0.0 == l.collections[j].0);
    }
}

/// Soundness looks only at tokens, balances, burns, transfer intents and
/// their use.
pub proof fn lemma_sound_frame(l: Ledger, m: Ledger)
    requires
        sound(l),
        m.wf(),
        m.tokens == l.tokens,
        m.balances == l.balances,
        m.burned == l.burned,
        m.transfers == l.transfers,
        m.used == l.used,
    ensures
        sound(m),
{
    assert forall|tick: Text| #[trigger]
        m.supply_of(tick) == sum_overall(m.balances, tick) + m.burned_of(tick) by {
        assert(l.supply_of(tick) == sum_overall(l.balances, tick) + l.burned_of(tick));
    }
    assert forall|a: Text, t: Text|
        (#[trigger] m.balance(a, t)).overall - m.balance(a, t).available >= pending(m, a, t) by {
        assert(l.balance(a, t).overall - l.balance(a, t).available >= pending(l, a, t));
    }
}

/// Marking an inscription as used keeps a sound state sound.
pub proof fn lemma_mark_used_sound(l: Ledger, id: Text)
    requires
        sound(l),
    ensures
        sound(l.mark_used(id)),
{
    let m = l.mark_used(id);
    lemma_upsert(l.used, id, true);
    assert forall|tick: Text| #[trigger]
        m.supply_of(tick) == sum_overall(m.balances, tick) + m.burned_of(tick) by {
        assert(l.supply_of(tick) == sum_overall(l.balances, tick) + l.burned_of(tick));
    }
    assert forall|a: Text, t: Text|
        (#[trigger] m.balance(a, t)).overall - m.balance(a, t).available >= pending(m, a, t) by {
        assert(l.balance(a, t).overall - l.balance(a, t).available >= pending(l, a, t));
        lemma_pending_mark(l, id, a, t);
    }
}

/// The fungible-token engine leaves collections and their tokens alone.
pub proof fn lemma_process_frame(
    l: Ledger,
    event_type: Text,
    inscription_id: Text,
    sender: Text,
    receiver: Option<Text>,
    content: Text,
    txid: Option<Text>,
    assigned_vout: Option<u32>,
)
    ensures
        ({
            let m = ignoring(
                l,
                process_effect(
                    l,
                    event_type,
                    inscription_id,
                    sender,
                    receiver,
                    content,
                    txid,
                    assigned_vout,
                ),
            );
            m.collections == l.collections && m.nfts == l.nfts
        }),
{
}

/// Settling a transfer leaves collections and their tokens alone.
pub proof fn lemma_settle_frame(l: Ledger, inscription_id: Text, receiver: Option<Text>)
    ensures
        ({
            let m = ignoring(l, settle_effect(l, inscription_id, receiver));
            m.collections == l.collections && m.nfts == l.nfts
        }),
{
}

/// Adding a token keeps the caps respected.
pub proof fn lemma_insert_nft_caps(
    l: Ledger,
    tick: Text,
    token_id: Text,
    owner: Text,
    inscription_id: Text,
    metadata: Text,
)
    requires
        l.wf(),
        caps_respected(l),
        l.insert_nft(tick, token_id, owner, inscription_id, metadata) is Ok,
    ensures
        l.insert_nft(tick, token_id, owner, inscription_id, metadata)->Ok_0.wf(),
        caps_respected(l.insert_nft(tick, token_id, owner, inscription_id, metadata)->Ok_0),
{
    let m = l.insert_nft(tick, token_id, owner, inscription_id, metadata)->Ok_0;
    let c = lookup(l.collections, tick)->0;
    let grown = Zrc721CollectionView { minted: (c.minted + 1) as u64, ..c };
    let at = index_of(l.collections, tick);
    let last = l.nfts.len() as int;
    lemma_upsert(l.collections, tick, grown);
    lemma_lookup_at(l.collections, at);
    assert(m.collections == l.collections.update(at, (tick, grown)));
    assert(m.nfts.len() == last + 1);
    assert(m.nfts[last].0 == (tick, token_id));
    assert(forall|i: int| 0 <= i < last ==> (#[trigger] m.nfts[i]) == l.nfts[i]);
    assert(distinct(m.nfts)) by {
        assert forall|i: int, j: int| 0 <= i < j < m.nfts.len() implies (#[trigger] m.nfts[i]).0
            != (#[trigger] m.nfts[j]).0 by {
            if j == last {
                assert(l.nfts[i].0 != (tick, token_id));
            } else {
                assert(l.nfts[i].0 != l.nfts[j].0);
            }
        }
    }
    assert forall|i: int| 0 <= i < m.nfts.len() implies has_key(
        m.collections,
        (#[trigger] m.nfts[i]).0.0,
    ) by {
        if i < last {
            assert(has_key(l.collections, l.nfts[i].0.0));
        }
    }
    assert forall|j: int|
        0 <= j < m.collections.len() && supply_cap((#[trigger] m.collections[j]).1.supply)
            is Some implies ({
        let cap = supply_cap(m.collections[j].1.supply)->0;
        &&& m.collections[j].1.minted <= cap
        &&& forall|i: int|
            0 <= i < m.nfts.len() && (#[trigger] m.nfts[i]).0.0 == m.collections[j].0
                ==> decimal_number(m.nfts[i].0.1) is Some && decimal_number(m.nfts[i].0.1)->0 < cap
    }) by {
        let cap = supply_cap(m.collections[j].1.supply)->0;
        assert(supply_cap(l.collections[j].1.supply) is Some);
        assert(m.collections[j].0 == l.collections[j].0);
        assert forall|i: int|
            0 <= i < m.nfts.len() && (#[trigger] m.nfts[i]).0.0
                == m.collections[j].0 implies decimal_number(m.nfts[i].0.1)
            is Some && decimal_number(m.nfts[i].0.1)->0 < cap by {
            if i < last {
                assert(l.nfts[i].0.0 == l.collections[j].0);
            } else {
                if j != at {
                    assert(l.collections[j].0 != l.collections[at].0);
                }
            }
        }
    }
}

/// Registering a collection with nothing minted keeps the caps respected.
pub proof fn lemma_register_collection_caps(l: Ledger, tick: Text, c: Zrc721CollectionView)
    requires
        l.wf(),
        caps_respected(l),
        c.minted == 0,
        l.register_collection(tick, c) is Ok,
    ensures
        l.register_collection(tick, c)->Ok_0.wf(),
        caps_respected(l.register_collection(tick, c)->Ok_0),
{
    let m = l.register_collection(tick, c)->Ok_0;
    let last = l.collections.len() as int;
    lemma_upsert(l.collections, tick, c);
    assert(m.collections =~= upsert(l.collections, tick, c));
    assert(forall|j: int| 0 <= j < last ==> (#[trigger] m.collections[j]) == l.collections[j]);
    assert forall|i: int| 0 <= i < m.nfts.len() implies has_key(
        m.collections,
        (#[trigger] m.nfts[i]).0.0,
    ) by {
        assert(has_key(l.collections, l.nfts[i].0.0));
    }
    assert forall|j: int|
        0 <= j < m.collections.len() && supply_cap((#[trigger] m.collections[j]).1.supply)
            is Some implies ({
        let cap = supply_cap(m.collections[j].1.supply)->0;
        &&& m.collections[j].1.minted <= cap
        &&& forall|i: int|
            0 <= i < m.nfts.len() && (#[trigger] m.nfts[i]).0.0 == m.collections[j].0
                ==> decimal_number(m.nfts[i].0.1) is Some && decimal_number(m.nfts[i].0.1)->0 < cap
    }) by {
        let cap = supply_cap(m.collections[j].1.supply)->0;
        if j < last {
            assert(supply_cap(l.collections[j].1.supply) is Some);
        } else {
            assert forall|i: int|
                0 <= i < m.nfts.len() && (#[trigger] m.nfts[i]).0.0
                    == m.collections[j].0 implies false by {
                assert(has_key(l.collections, l.nfts[i].0.0));
            }
        }
    }
}

/// Changing the owner of a token keeps the caps respected.
pub proof fn lemma_update_owner_caps(
    l: Ledger,
    tick: Text,
    token_id: Text,
    owner: Text,
    burned: bool,
)
    requires
        l.wf(),
        caps_respected(l),
    ensures
        ignoring(l, l.update_nft_owner(tick, token_id, owner, burned)).wf(),
        caps_respected(ignoring(l, l.update_nft_owner(tick, token_id, owner, burned))),
{
    let m = ignoring(l, l.update_nft_owner(tick, token_id, owner, burned));
    if lookup(l.nfts, (tick, token_id)) is Some {
        let t = lookup(l.nfts, (tick, token_id))->0;
        let next = Zrc721TokenView { owner: owner, burned: burned, ..t };
        let at = index_of(l.nfts, (tick, token_id));
        lemma_upsert(l.nfts, (tick, token_id), next);
        lemma_lookup_at(l.nfts, at);
        assert(m.nfts == l.nfts.update(at, ((tick, token_id), next)));
        assert(forall|i: int| 0 <= i < l.nfts.len() ==> (#[trigger] m.nfts[i]).0 == l.nfts[i].0);
        assert forall|i: int| 0 <= i < m.nfts.len() implies has_key(
            m.collections,
            (#[trigger] m.nfts[i]).0.0,
        ) by {
            assert(has_key(l.collections, l.nfts[i].0.0));
        }
        assert forall|j: int|
            0 <= j < m.collections.len() && supply_cap((#[trigger] m.collections[j]).1.supply)
                is Some implies ({
            let cap = supply_cap(m.collections[j].1.supply)->0;
            &&& m.collections[j].1.minted <= cap
            &&& forall|i: int|
                0 <= i < m.nfts.len() && (#[trigger] m.nfts[i]).0.0 == m.collections[j].0
                    ==> decimal_number(m.nfts[i].0.1) is Some && decimal_number(m.nfts[i].0.1)->0 < cap
        }) by {
            let cap = supply_cap(m.collections[j].1.supply)->0;
            assert(supply_cap(l.collections[j].1.supply) is Some);
            assert forall|i: int|
                0 <= i < m.nfts.len() && (#[trigger] m.nfts[i]).0.0
                    == m.collections[j].0 implies decimal_number(m.nfts[i].0.1)
                is Some && decimal_number(m.nfts[i].0.1)->0 < cap by {
                assert(l.nfts[i].0.0 == l.collections[j].0);
            }
        }
    }
}

/// The caps look only at collections and their tokens.
pub proof fn lemma_caps_frame(l: Ledger, m: Ledger)
    requires
        caps_respected(l),
        m.collections == l.collections,
        m.nfts == l.nfts,
    ensures
        caps_respected(m),
{
}

/// Whatever event the collection engine handles, a consistent state stays
/// consistent.
pub proof fn lemma_nft_process_consistent(
    l: Ledger,
    event_type: Text,
    inscription_id: Text,
    sender: Text,
    content: Text,
    txid: Option<Text>,
    assigned_vout: Option<u32>,
)
    requires
        consistent(l),
    ensures
        consistent(
            ignoring(
                l,
                nft_process_effect(
                    l,
                    event_type,
                    inscription_id,
                    sender,
                    content,
                    txid,
                    assigned_vout,
                ),
            ),
        ),
{
    let r = nft_process_effect(l, event_type, inscription_id, sender, content, txid, assigned_vout);
    let m = ignoring(l, r);
    if r is Ok && event_type == "inscribe"@ {
        let op = parsed_nft_operation(content)->Ok_0;
        let tick = named_collection(op)->0;
        if op.op == "deploy"@ {
            let c = Zrc721CollectionView {
                collection: tick,
                supply: op.supply->0,
                meta: text_or(op.meta, "null"@),
                royalty: text_or(op.royalty, Seq::empty()),
                minted: 0,
                deployer: sender,
                inscription_id: inscription_id,
            };
            assert(r == nft_from_store(l.register_collection(tick, c)));
            lemma_register_collection_caps(l, tick, c);
            lemma_sound_frame(l, m);
        } else {
            let owner = text_or(op.to, sender);
            let metadata = text_or(op.meta, "{}"@);
            let minted = l.insert_nft(tick, op.id->0, owner, inscription_id, metadata)->Ok_0;
            lemma_insert_nft_caps(l, tick, op.id->0, owner, inscription_id, metadata);
            if txid is Some && assigned_vout is Some {
                lemma_upsert(minted.nft_outpoints, (txid->0, assigned_vout->0), (tick, op.id->0));
            }
            lemma_caps_frame(minted, m);
            lemma_sound_frame(l, m);
        }
    }
}

/// Whatever the name engine handles, a consistent state stays consistent.
pub proof fn lemma_name_consistent(
    l: Ledger,
    inscription_id: Text,
    owner: Text,
    content: Text,
    content_type: Text,
)
    requires
        consistent(l),
    ensures
        consistent(ignoring(l, name_effect(l, inscription_id, owner, content, content_type))),
{
    let r = name_effect(l, inscription_id, owner, content, content_type);
    let m = ignoring(l, r);
    if r is Ok && m != l {
        let name = trimmed(content);
        let record = NameRecordView {
            name: name,
            name_lower: lowercase_of(name),
            owner: owner,
            inscription_id: inscription_id,
        };
        lemma_upsert(l.names, lowercase_of(name), record);
        assert(m.names =~= upsert(l.names, lowercase_of(name), record));
        lemma_sound_frame(l, m);
        lemma_caps_frame(l, m);
    }
}

/// Keeping an inscription keeps a consistent state consistent.
pub proof fn lemma_insert_inscription_consistent(
    l: Ledger,
    id: Text,
    meta: InscriptionMetaView,
)
    requires
        consistent(l),
    ensures
        consistent(l.insert_inscription(id, meta)),
{
    let m = l.insert_inscription(id, meta);
    lemma_upsert(l.inscriptions, id, meta);
    lemma_upsert(l.by_address, meta.sender, l.sent_by(meta.sender).push(id));
    lemma_sound_frame(l, m);
    lemma_caps_frame(l, m);
}

/// The inscription pass keeps a consistent state consistent.
pub proof fn lemma_inscribe_consistent(l: Ledger, tx: TxView, height: u64, time: u64)
    requires
        consistent(l),
    ensures
        consistent(inscribe_effect(l, tx, height, time)),
{
    if first_inscription(tx, 0) is Some {
        let i = first_inscription(tx, 0)->0;
        let kept = l.insert_inscription(i.inscription_id, meta_of(i, tx, height, time));
        lemma_insert_inscription_consistent(l, i.inscription_id, meta_of(i, tx, height, time));
        let kind = simple_type(i.content_type);
        let vout = assigned_vout(tx, i.sender);
        if json_like(kind, i.content) {
            let r = process_effect(
                kept,
                "inscribe"@,
                i.inscription_id,
                i.sender,
                Some(i.receiver),
                i.content,
                Some(tx.txid),
                Some(vout),
            );
            let fungible = ignoring(kept, r);
            if r is Ok {
                lemma_process_sound(
                    kept,
                    "inscribe"@,
                    i.inscription_id,
                    i.sender,
                    Some(i.receiver),
                    i.content,
                    Some(tx.txid),
                    Some(vout),
                );
            }
            lemma_process_frame(
                kept,
                "inscribe"@,
                i.inscription_id,
                i.sender,
                Some(i.receiver),
                i.content,
                Some(tx.txid),
                Some(vout),
            );
            lemma_caps_frame(kept, fungible);
            lemma_nft_process_consistent(
                fungible,
                "inscribe"@,
                i.inscription_id,
                i.sender,
                i.content,
                Some(tx.txid),
                Some(vout),
            );
        } else if name_candidate(kind, i.content) {
            lemma_name_consistent(kept, i.inscription_id, i.sender, i.content, i.content_type);
        }
    }
}

/// The reveal of a transfer keeps a consistent state consistent.
pub proof fn lemma_reveal_transfer_consistent(l: Ledger, tx: TxView, txid: Text, vout: u32)
    requires
        consistent(l),
    ensures
        consistent(reveal_transfer(l, tx, txid, vout)),
{
    if lookup(l.transfer_outpoints, (txid, vout)) is Some {
        let id = lookup(l.transfer_outpoints, (txid, vout))->0;
        let r = settle_effect(l, id, receiver_of(tx));
        let settled = ignoring(l, r);
        if r is Ok {
            lemma_settle_sound(l, id, receiver_of(tx));
        }
        lemma_settle_frame(l, id, receiver_of(tx));
        lemma_caps_frame(l, settled);
        lemma_mark_used_sound(settled, id);
        let marked = settled.mark_used(id);
        lemma_caps_frame(settled, marked);
        let m = marked.remove_transfer_outpoint(txid, vout);
        lemma_erase(marked.transfer_outpoints, (txid, vout));
        lemma_sound_frame(marked, m);
        lemma_caps_frame(marked, m);
    }
}

/// The move or the burn of a token keeps a consistent state consistent.
pub proof fn lemma_reveal_nft_consistent(l: Ledger, tx: TxView, txid: Text, vout: u32)
    requires
        consistent(l),
    ensures
        consistent(reveal_nft(l, tx, txid, vout)),
{
    if lookup(l.nft_outpoints, (txid, vout)) is Some {
        let token = lookup(l.nft_outpoints, (txid, vout))->0;
        let m = reveal_nft(l, tx, txid, vout);
        if first_transparent(tx.vout, 0) is Some {
            let to = first_transparent(tx.vout, 0)->0;
            let owned = ignoring(l, l.update_nft_owner(token.0, token.1, to.0, false));
            lemma_update_owner_caps(l, token.0, token.1, to.0, false);
            lemma_erase(owned.nft_outpoints, (txid, vout));
            lemma_upsert(erase(owned.nft_outpoints, (txid, vout)), (tx.txid, to.1), token);
            lemma_sound_frame(l, m);
            lemma_caps_frame(owned, m);
        } else {
            let owned = ignoring(l, l.update_nft_owner(token.0, token.1, "shielded"@, true));
            lemma_update_owner_caps(l, token.0, token.1, "shielded"@, true);
            lemma_erase(owned.nft_outpoints, (txid, vout));
            lemma_sound_frame(l, m);
            lemma_caps_frame(owned, m);
        }
    }
}

/// The reveal pass keeps a consistent state consistent.
pub proof fn lemma_reveal_consistent(l: Ledger, tx: TxView, k: int)
    requires
        consistent(l),
    ensures
        consistent(reveal_effect(l, tx, k)),
    decreases tx.vin.len() - k,
{
    if 0 <= k < tx.vin.len() {
        if tx.vin[k].txid is Some && tx.vin[k].vout is Some {
            let txid = tx.vin[k].txid->0;
            let vout = tx.vin[k].vout->0;
            lemma_reveal_transfer_consistent(l, tx, txid, vout);
            lemma_reveal_nft_consistent(reveal_transfer(l, tx, txid, vout), tx, txid, vout);
            lemma_reveal_consistent(
                reveal_nft(reveal_transfer(l, tx, txid, vout), tx, txid, vout),
                tx,
                k + 1,
            );
        } else {
            lemma_reveal_consistent(l, tx, k + 1);
        }
    }
}

/// Indexing transactions keeps a consistent state consistent.
pub proof fn lemma_txs_consistent(l: Ledger, txs: Seq<TxView>, height: u64, time: u64, k: int)
    requires
        consistent(l),
    ensures
        consistent(txs_effect(l, txs, height, time, k)),
    decreases txs.len() - k,
{
    if 0 <= k < txs.len() {
        lemma_inscribe_consistent(l, txs[k], height, time);
        lemma_reveal_consistent(inscribe_effect(l, txs[k], height, time), txs[k], 0);
        lemma_txs_consistent(tx_effect(l, txs[k], height, time), txs, height, time, k + 1);
    }
}

/// Indexing a block keeps a consistent state consistent: in every state
/// that indexing reaches from the empty store, supplies are accounted for,
/// nobody has more available than they hold, and collections respect
/// their caps.
pub proof fn lemma_block_consistent(
    l: Ledger,
    height: u64,
    hash: Text,
    time: u64,
    txs: Seq<TxView>,
)
    requires
        consistent(l),
    ensures
        consistent(block_effect(l, height, hash, time, txs)),
{
    let done = txs_effect(l, txs, height, time, 0);
    lemma_txs_consistent(l, txs, height, time, 0);
    let a = done.insert_block(height, hash);
    lemma_upsert(done.blocks, height, hash);
    lemma_upsert(done.status, "core_height"@, height);
    let b = a.set_status("zrc20_height"@, height);
    lemma_upsert(a.status, "zrc20_height"@, height);
    let c = b.set_status("names_height"@, height);
    lemma_upsert(b.status, "names_height"@, height);
    let d = c.set_status("zrc721_height"@, height);
    lemma_upsert(c.status, "zrc721_height"@, height);
    lemma_sound_frame(done, d);
    lemma_caps_frame(done, d);
}

/// After a block is indexed its hash is kept under its height and the
/// core height stands at it.
pub proof fn lemma_block_recorded(l: Ledger, height: u64, hash: Text, time: u64, txs: Seq<TxView>)
    requires
        l.wf(),
    ensures
        lookup(block_effect(l, height, hash, time, txs).blocks, height) == Some(hash),
        lookup(block_effect(l, height, hash, time, txs).status, "core_height"@) == Some(height),
{
    reveal_strlit("core_height");
    reveal_strlit("zrc20_height");
    reveal_strlit("names_height");
    reveal_strlit("zrc721_height");
    let done = txs_effect(l, txs, height, time, 0);
    lemma_txs_same_chain(l, txs, height, time, 0);
    let a = done.insert_block(height, hash);
    lemma_upsert(done.blocks, height, hash);
    lemma_upsert(done.status, "core_height"@, height);
    let b = a.set_status("zrc20_height"@, height);
    lemma_upsert(a.status, "zrc20_height"@, height);
    let c = b.set_status("names_height"@, height);
    lemma_upsert(b.status, "names_height"@, height);
    lemma_upsert(c.status, "zrc721_height"@, height);
    assert("core_height"@.len() == 11);
    assert("zrc20_height"@.len() == 12);
    assert("names_height"@.len() == 12);
    assert("zrc721_height"@.len() == 13);
}

/// Token `b` is token `a` but for its supply.
pub open spec fn same_token(a: TokenInfoView, b: TokenInfoView) -> bool {
    b == TokenInfoView { supply: b.supply, ..a }
}

/// Collection `b` is collection `a` but for the number it has minted.
pub open spec fn same_collection(a: Zrc721CollectionView, b: Zrc721CollectionView) -> bool {
    b == Zrc721CollectionView { minted: b.minted, ..a }
}

/// What `m` keeps of `l`: every name with its record, every token but
/// for its supply, every collection but for its count, every inscription,
/// and the ordinal numbers given so far.
pub open spec fn keeps(l: Ledger, m: Ledger) -> bool {
    &&& forall|n: Text|
        #![trigger lookup(m.names, n)]
        lookup(l.names, n) is Some ==> lookup(m.names, n) == lookup(l.names, n)
    &&& forall|t: Text|
        #![trigger lookup(m.tokens, t)]
        lookup(l.tokens, t) is Some ==> lookup(m.tokens, t) is Some && same_token(
            lookup(l.tokens, t)->0,
            lookup(m.tokens, t)->0,
        )
    &&& forall|c: Text|
        #![trigger lookup(m.collections, c)]
        lookup(l.collections, c) is Some ==> lookup(m.collections, c) is Some && same_collection(
            lookup(l.collections, c)->0,
            lookup(m.collections, c)->0,
        )
    &&& forall|id: Text|
        #![trigger has_key(m.inscriptions, id)]
        has_key(l.inscriptions, id) ==> has_key(m.inscriptions, id)
    &&& l.numbers.is_prefix_of(m.numbers)
}

/// A state keeps all of a state with the same names, tokens, collections,
/// inscriptions and numbers.
pub proof fn lemma_keeps_same(l: Ledger, m: Ledger)
    requires
        m.names == l.names,
        m.tokens == l.tokens,
        m.collections == l.collections,
        m.inscriptions == l.inscriptions,
        m.numbers == l.numbers,
    ensures
        keeps(l, m),
{
}

/// What is kept is kept on.
pub proof fn lemma_keeps_on(a: Ledger, b: Ledger, c: Ledger)
    requires
        keeps(a, b),
        keeps(b, c),
    ensures
        keeps(a, c),
{
    assert forall|n: Text| #![trigger lookup(c.names, n)] lookup(a.names, n) is Some implies lookup(
        c.names,
        n,
    ) == lookup(a.names, n) by {
        assert(lookup(b.names, n) == lookup(a.names, n));
    }
    assert forall|t: Text|
        #![trigger lookup(c.tokens, t)]
        lookup(a.tokens, t) is Some implies lookup(c.tokens, t) is Some && same_token(
        lookup(a.tokens, t)->0,
        lookup(c.tokens, t)->0,
    ) by {
        assert(lookup(b.tokens, t) is Some);
    }
    assert forall|k: Text|
        #![trigger lookup(c.collections, k)]
        lookup(a.collections, k) is Some implies lookup(c.collections, k) is Some
        && same_collection(lookup(a.collections, k)->0, lookup(c.collections, k)->0) by {
        assert(lookup(b.collections, k) is Some);
    }
    assert forall|id: Text|
        #![trigger has_key(c.inscriptions, id)]
        has_key(a.inscriptions, id) implies has_key(c.inscriptions, id) by {
        assert(has_key(b.inscriptions, id));
    }
}

/// The fungible-token engine keeps what there is: it overwrites no token
/// but for its supply.
pub proof fn lemma_process_keeps(
    l: Ledger,
    event_type: Text,
    inscription_id: Text,
    sender: Text,
    receiver: Option<Text>,
    content: Text,
    txid: Option<Text>,
    assigned_vout: Option<u32>,
)
    requires
        l.wf(),
    ensures
        keeps(
            l,
            ignoring(
                l,
                process_effect(
                    l,
                    event_type,
                    inscription_id,
                    sender,
                    receiver,
                    content,
                    txid,
                    assigned_vout,
                ),
            ),
        ),
{
    let r = process_effect(
        l,
        event_type,
        inscription_id,
        sender,
        receiver,
        content,
        txid,
        assigned_vout,
    );
    let m = ignoring(l, r);
    if r is Ok {
        let op = parsed_operation(content)->Ok_0;
        let tick = lowercase_of(op.tick);
        if op.op == "deploy"@ && event_type == "inscribe"@ {
            let info = m.tokens.last().1;
            lemma_upsert(l.tokens, tick, info);
            assert(m.tokens =~= upsert(l.tokens, tick, info));
        } else if op.op == "mint"@ && event_type == "inscribe"@ {
            let info = lookup(l.tokens, tick)->0;
            let amt = amount_value(op.amt->0, info.dec)->Ok_0;
            let grown = TokenInfoView { supply: (info.supply + amt) as u128, ..info };
            lemma_upsert(l.tokens, tick, grown);
            assert(m.tokens == upsert(l.tokens, tick, grown));
        }
    }
}

/// The collection engine keeps what there is: it overwrites no collection
/// but for its count.
pub proof fn lemma_nft_process_keeps(
    l: Ledger,
    event_type: Text,
    inscription_id: Text,
    sender: Text,
    content: Text,
    txid: Option<Text>,
    assigned_vout: Option<u32>,
)
    requires
        l.wf(),
    ensures
        keeps(
            l,
            ignoring(
                l,
                nft_process_effect(
                    l,
                    event_type,
                    inscription_id,
                    sender,
                    content,
                    txid,
                    assigned_vout,
                ),
            ),
        ),
{
    let r = nft_process_effect(l, event_type, inscription_id, sender, content, txid, assigned_vout);
    let m = ignoring(l, r);
    if r is Ok && event_type == "inscribe"@ {
        let op = parsed_nft_operation(content)->Ok_0;
        let tick = named_collection(op)->0;
        if op.op == "deploy"@ {
            let c = m.collections.last().1;
            lemma_upsert(l.collections, tick, c);
            assert(m.collections =~= upsert(l.collections, tick, c));
        } else {
            let c = lookup(l.collections, tick)->0;
            let grown = Zrc721CollectionView { minted: (c.minted + 1) as u64, ..c };
            lemma_upsert(l.collections, tick, grown);
            assert(m.collections == upsert(l.collections, tick, grown));
        }
    }
}

/// The name engine keeps what there is: a name goes to its first writer
/// and stays there.
pub proof fn lemma_name_keeps(
    l: Ledger,
    inscription_id: Text,
    owner: Text,
    content: Text,
    content_type: Text,
)
    requires
        l.wf(),
    ensures
        keeps(l, ignoring(l, name_effect(l, inscription_id, owner, content, content_type))),
{
    let r = name_effect(l, inscription_id, owner, content, content_type);
    let m = ignoring(l, r);
    if r is Ok && m != l {
        let record = m.names.last().1;
        let key = lowercase_of(trimmed(content));
        lemma_upsert(l.names, key, record);
        assert(m.names =~= upsert(l.names, key, record));
    }
}

/// The inscription pass keeps what there is.
pub proof fn lemma_inscribe_keeps(l: Ledger, tx: TxView, height: u64, time: u64)
    requires
        consistent(l),
    ensures
        keeps(l, inscribe_effect(l, tx, height, time)),
{
    if first_inscription(tx, 0) is Some {
        let i = first_inscription(tx, 0)->0;
        let meta = meta_of(i, tx, height, time);
        let kept = l.insert_inscription(i.inscription_id, meta);
        lemma_insert_inscription_consistent(l, i.inscription_id, meta);
        lemma_upsert(l.inscriptions, i.inscription_id, meta);
        assert(keeps(l, kept));
        let kind = simple_type(i.content_type);
        let vout = assigned_vout(tx, i.sender);
        if json_like(kind, i.content) {
            let fungible = ignoring(
                kept,
                process_effect(
                    kept,
                    "inscribe"@,
                    i.inscription_id,
                    i.sender,
                    Some(i.receiver),
                    i.content,
                    Some(tx.txid),
                    Some(vout),
                ),
            );
            lemma_process_keeps(
                kept,
                "inscribe"@,
                i.inscription_id,
                i.sender,
                Some(i.receiver),
                i.content,
                Some(tx.txid),
                Some(vout),
            );
            if fungible != kept {
                lemma_process_sound(
                    kept,
                    "inscribe"@,
                    i.inscription_id,
                    i.sender,
                    Some(i.receiver),
                    i.content,
                    Some(tx.txid),
                    Some(vout),
                );
            }
            lemma_nft_process_keeps(
                fungible,
                "inscribe"@,
                i.inscription_id,
                i.sender,
                i.content,
                Some(tx.txid),
                Some(vout),
            );
            lemma_keeps_on(l, kept, fungible);
            lemma_keeps_on(l, fungible, inscribe_effect(l, tx, height, time));
        } else if name_candidate(kind, i.content) {
            lemma_name_keeps(kept, i.inscription_id, i.sender, i.content, i.content_type);
            lemma_keeps_on(l, kept, inscribe_effect(l, tx, height, time));
        }
    }
}

/// The reveal pass keeps what there is.
pub proof fn lemma_reveal_keeps(l: Ledger, tx: TxView, k: int)
    ensures
        keeps(l, reveal_effect(l, tx, k)),
    decreases tx.vin.len() - k,
{
    if 0 <= k < tx.vin.len() {
        if tx.vin[k].txid is Some && tx.vin[k].vout is Some {
            let txid = tx.vin[k].txid->0;
            let vout = tx.vin[k].vout->0;
            let a = reveal_transfer(l, tx, txid, vout);
            let b = reveal_nft(a, tx, txid, vout);
            lemma_keeps_same(l, a);
            lemma_keeps_same(a, b);
            lemma_reveal_keeps(b, tx, k + 1);
            lemma_keeps_on(l, a, b);
            lemma_keeps_on(l, b, reveal_effect(b, tx, k + 1));
        } else {
            lemma_reveal_keeps(l, tx, k + 1);
        }
    }
}

/// Indexing transactions keeps what there is.
pub proof fn lemma_txs_keep(l: Ledger, txs: Seq<TxView>, height: u64, time: u64, k: int)
    requires
        consistent(l),
    ensures
        keeps(l, txs_effect(l, txs, height, time, k)),
    decreases txs.len() - k,
{
    if 0 <= k < txs.len() {
        let inscribed = inscribe_effect(l, txs[k], height, time);
        let done = tx_effect(l, txs[k], height, time);
        lemma_inscribe_keeps(l, txs[k], height, time);
        lemma_reveal_keeps(inscribed, txs[k], 0);
        lemma_keeps_on(l, inscribed, done);
        lemma_inscribe_consistent(l, txs[k], height, time);
        lemma_reveal_consistent(inscribed, txs[k], 0);
        lemma_txs_keep(done, txs, height, time, k + 1);
        lemma_keeps_on(l, done, txs_effect(done, txs, height, time, k + 1));
    }
}

/// Indexing a block takes nothing back: every name stays with its first
/// writer, every token and every collection stays as it was deployed but
/// for its supply or its count, and every inscription stays, with its
/// number.
pub proof fn lemma_block_keeps(l: Ledger, height: u64, hash: Text, time: u64, txs: Seq<TxView>)
    requires
        consistent(l),
    ensures
        keeps(l, block_effect(l, height, hash, time, txs)),
{
    let done = txs_effect(l, txs, height, time, 0);
    lemma_txs_keep(l, txs, height, time, 0);
    lemma_keeps_same(done, block_effect(l, height, hash, time, txs));
    lemma_keeps_on(l, done, block_effect(l, height, hash, time, txs));
}

/// Where every output from position `k` on that pays anyone pays a
/// shielded address first, there is no transparent output.
pub proof fn lemma_no_transparent_output(vout: Seq<crate::rpc::VoutView>, k: int)
    requires
        0 <= k,
        forall|i: int|
            k <= i < vout.len() && addressed(#[trigger] vout[i]) ==> is_shielded(
                vout[i].addresses->0[0],
            ),
    ensures
        first_transparent(vout, k) is None,
    decreases vout.len() - k,
{
    if k < vout.len() {
        assert(addressed(vout[k]) ==> is_shielded(vout[k].addresses->0[0]));
        lemma_no_transparent_output(vout, k + 1);
    }
}

/// A spent outpoint that carries a waiting transfer, in a transaction
/// without a transparent output: the amount is unlocked for the sender,
/// no other balance changes (so no shielded address is credited), the
/// transfer is used and the outpoint carries nothing any more.
pub proof fn lemma_reveal_into_shielded(l: Ledger, tx: TxView, txid: Text, vout: u32)
    requires
        l.wf(),
        first_transparent(tx.vout, 0) is None,
        lookup(l.transfer_outpoints, (txid, vout)) is Some,
        !l.is_used(lookup(l.transfer_outpoints, (txid, vout))->0),
        lookup(l.transfers, lookup(l.transfer_outpoints, (txid, vout))->0) is Some,
        ({
            let t = lookup(l.transfers, lookup(l.transfer_outpoints, (txid, vout))->0)->0;
            l.balance(t.sender, t.tick).available + t.amt <= u128::MAX
        }),
    ensures
        ({
            let id = lookup(l.transfer_outpoints, (txid, vout))->0;
            let t = lookup(l.transfers, id)->0;
            let m = reveal_transfer(l, tx, txid, vout);
            &&& m.wf()
            &&& m.balance(t.sender, t.tick) == Balance {
                available: (l.balance(t.sender, t.tick).available + t.amt) as u128,
                overall: l.balance(t.sender, t.tick).overall,
            }
            &&& forall|a: Text, k: Text|
                (a, k) != (t.sender, t.tick) ==> #[trigger] m.balance(a, k) == l.balance(a, k)
            &&& m.is_used(id)
            &&& lookup(m.transfer_outpoints, (txid, vout)) is None
            &&& m.tokens == l.tokens
        }),
{
    let id = lookup(l.transfer_outpoints, (txid, vout))->0;
    let t = lookup(l.transfers, id)->0;
    lemma_settle_unlocks(l, id, None);
    let settled = settle_effect(l, id, None)->Ok_0;
    lemma_upsert(settled.used, id, true);
    let marked = settled.mark_used(id);
    lemma_erase(marked.transfer_outpoints, (txid, vout));
    let m = reveal_transfer(l, tx, txid, vout);
    assert(m == marked.remove_transfer_outpoint(txid, vout));
    assert(m.balances == settled.balances);
    assert(m.balance(t.sender, t.tick) == settled.balance(t.sender, t.tick));
    assert forall|a: Text, k: Text| (a, k) != (t.sender, t.tick) implies #[trigger] m.balance(
        a,
        k,
    ) == l.balance(a, k) by {
        assert(m.balance(a, k) == settled.balance(a, k));
    }
}

/// A spent outpoint that carries a waiting transfer, in a transaction
/// whose first transparent address is not the sender: the amount moves
/// from what the sender holds overall to both parts of that address, no
/// other balance changes, the transfer is used and the outpoint carries
/// nothing any more.
pub proof fn lemma_reveal_to_receiver(l: Ledger, tx: TxView, txid: Text, vout: u32)
    requires
        l.wf(),
        first_transparent(tx.vout, 0) is Some,
        lookup(l.transfer_outpoints, (txid, vout)) is Some,
        !l.is_used(lookup(l.transfer_outpoints, (txid, vout))->0),
        lookup(l.transfers, lookup(l.transfer_outpoints, (txid, vout))->0) is Some,
        ({
            let t = lookup(l.transfers, lookup(l.transfer_outpoints, (txid, vout))->0)->0;
            let to = receiver_of(tx)->0;
            &&& to != t.sender
            &&& l.balance(t.sender, t.tick).overall >= t.amt
            &&& l.balance(to, t.tick).available + t.amt <= u128::MAX
            &&& l.balance(to, t.tick).overall + t.amt <= u128::MAX
        }),
    ensures
        ({
            let id = lookup(l.transfer_outpoints, (txid, vout))->0;
            let t = lookup(l.transfers, id)->0;
            let to = receiver_of(tx)->0;
            let m = reveal_transfer(l, tx, txid, vout);
            &&& m.wf()
            &&& m.balance(t.sender, t.tick) == Balance {
                available: l.balance(t.sender, t.tick).available,
                overall: (l.balance(t.sender, t.tick).overall - t.amt) as u128,
            }
            &&& m.balance(to, t.tick) == Balance {
                available: (l.balance(to, t.tick).available + t.amt) as u128,
                overall: (l.balance(to, t.tick).overall + t.amt) as u128,
            }
            &&& forall|a: Text, k: Text|
                (a, k) != (t.sender, t.tick) && (a, k) != (to, t.tick) ==> #[trigger] m.balance(
                    a,
                    k,
                ) == l.balance(a, k)
            &&& m.is_used(id)
            &&& lookup(m.transfer_outpoints, (txid, vout)) is None
            &&& m.tokens == l.tokens
        }),
{
    let id = lookup(l.transfer_outpoints, (txid, vout))->0;
    let t = lookup(l.transfers, id)->0;
    let to = receiver_of(tx)->0;
    lemma_settle_moves(l, id, to);
    let settled = settle_effect(l, id, Some(to))->Ok_0;
    lemma_upsert(settled.used, id, true);
    let marked = settled.mark_used(id);
    lemma_erase(marked.transfer_outpoints, (txid, vout));
    let m = reveal_transfer(l, tx, txid, vout);
    assert(m == marked.remove_transfer_outpoint(txid, vout));
    assert(m.balances == settled.balances);
    assert(m.balance(t.sender, t.tick) == settled.balance(t.sender, t.tick));
    assert(m.balance(to, t.tick) == settled.balance(to, t.tick));
    assert forall|a: Text, k: Text|
        (a, k) != (t.sender, t.tick) && (a, k) != (to, t.tick) implies #[trigger] m.balance(a, k)
        == l.balance(a, k) by {
        assert(m.balance(a, k) == settled.balance(a, k));
    }
}

/// No input of `tx` from position `k` on spends an outpoint that carries
/// a transfer.
pub open spec fn spends_no_transfer(l: Ledger, tx: TxView, k: int) -> bool {
    forall|j: int|
        k <= j < tx.vin.len() && (#[trigger] tx.vin[j]).txid is Some && tx.vin[j].vout is Some
            ==> lookup(l.transfer_outpoints, (tx.vin[j].txid->0, tx.vin[j].vout->0)) is None
}

/// A reveal pass over inputs none of which spends an outpoint that
/// carries a transfer settles nothing: balances, tokens, transfer intents,
/// their use and their outpoints stay as they are.
pub proof fn lemma_reveal_settles_nothing(l: Ledger, tx: TxView, k: int)
    requires
        0 <= k,
        spends_no_transfer(l, tx, k),
    ensures
        ({
            let m = reveal_effect(l, tx, k);
            &&& m.balances == l.balances
            &&& m.tokens == l.tokens
            &&& m.transfers == l.transfers
            &&& m.used == l.used
            &&& m.transfer_outpoints == l.transfer_outpoints
        }),
    decreases tx.vin.len() - k,
{
    if k < tx.vin.len() {
        if tx.vin[k].txid is Some && tx.vin[k].vout is Some {
            let txid = tx.vin[k].txid->0;
            let vout = tx.vin[k].vout->0;
            let a = reveal_transfer(l, tx, txid, vout);
            assert(a == l);
            let b = reveal_nft(a, tx, txid, vout);
            assert(b.transfer_outpoints == l.transfer_outpoints);
            assert(spends_no_transfer(b, tx, k + 1)) by {
                assert forall|j: int|
                    k + 1 <= j < tx.vin.len() && (#[trigger] tx.vin[j]).txid is Some
                        && tx.vin[j].vout is Some implies lookup(
                    b.transfer_outpoints,
                    (tx.vin[j].txid->0, tx.vin[j].vout->0),
                ) is None by {}
            }
            lemma_reveal_settles_nothing(b, tx, k + 1);
        } else {
            lemma_reveal_settles_nothing(l, tx, k + 1);
        }
    }
}

/// A block of two transactions, of which the first commits a transfer and
/// the second spends the outpoint that carries it towards another
/// address. The first transaction leaves the transfer waiting: it is not
/// settled by the transaction that commits it. The second moves the
/// amount from what the sender holds overall to both parts of the
/// receiver, marks the transfer as used and clears the outpoint.
pub proof fn lemma_commit_then_reveal(
    l: Ledger,
    first: TxView,
    second: TxView,
    height: u64,
    time: u64,
    txid: Text,
    vout: u32,
)
    requires
        consistent(l),
        spends_no_transfer(inscribe_effect(l, first, height, time), first, 0),
        first_inscription(second, 0) is None,
        second.vin.len() == 1,
        second.vin[0].txid == Some(txid),
        second.vin[0].vout == Some(vout),
        first_transparent(second.vout, 0) is Some,
        ({
            let committed = inscribe_effect(l, first, height, time);
            &&& lookup(committed.transfer_outpoints, (txid, vout)) is Some
            &&& !committed.is_used(lookup(committed.transfer_outpoints, (txid, vout))->0)
            &&& lookup(
                committed.transfers,
                lookup(committed.transfer_outpoints, (txid, vout))->0,
            ) is Some
        }),
        ({
            let committed = inscribe_effect(l, first, height, time);
            let t = lookup(
                committed.transfers,
                lookup(committed.transfer_outpoints, (txid, vout))->0,
            )->0;
            receiver_of(second)->0 != t.sender
        }),
    ensures
        ({
            let committed = inscribe_effect(l, first, height, time);
            let after_first = tx_effect(l, first, height, time);
            let id = lookup(committed.transfer_outpoints, (txid, vout))->0;
            let t = lookup(committed.transfers, id)->0;
            let to = receiver_of(second)->0;
            let m = txs_effect(l, seq![first, second], height, time, 0);
            &&& !after_first.is_used(id)
            &&& after_first.balances == committed.balances
            &&& lookup(after_first.transfer_outpoints, (txid, vout)) == Some(id)
            &&& m.balance(t.sender, t.tick) == Balance {
                available: committed.balance(t.sender, t.tick).available,
                overall: (committed.balance(t.sender, t.tick).overall - t.amt) as u128,
            }
            &&& m.balance(to, t.tick) == Balance {
                available: (committed.balance(to, t.tick).available + t.amt) as u128,
                overall: (committed.balance(to, t.tick).overall + t.amt) as u128,
            }
            &&& forall|a: Text, k: Text|
                (a, k) != (t.sender, t.tick) && (a, k) != (to, t.tick) ==> #[trigger] m.balance(
                    a,
                    k,
                ) == committed.balance(a, k)
            &&& m.is_used(id)
            &&& lookup(m.transfer_outpoints, (txid, vout)) is None
        }),
{
    let committed = inscribe_effect(l, first, height, time);
    let after_first = tx_effect(l, first, height, time);
    lemma_inscribe_consistent(l, first, height, time);
    lemma_reveal_settles_nothing(committed, first, 0);
    lemma_reveal_consistent(committed, first, 0);
    let txs = seq![first, second];
    assert(txs[0] == first && txs[1] == second);
    assert(inscribe_effect(after_first, second, height, time) == after_first);
    let id = lookup(committed.transfer_outpoints, (txid, vout))->0;
    let t = lookup(committed.transfers, id)->0;
    assert(after_first.balance(t.sender, t.tick) == committed.balance(t.sender, t.tick));
    let to = receiver_of(second)->0;
    assert(after_first.balance(to, t.tick) == committed.balance(to, t.tick));
    lemma_locked_amount(committed, id);
    lemma_two_holders(committed, t.sender, to, t.tick);
    assert(committed.balance(to, t.tick).overall - committed.balance(to, t.tick).available
        >= pending(committed, to, t.tick));
    lemma_reveal_to_receiver(after_first, second, txid, vout);
    let revealed = reveal_transfer(after_first, second, txid, vout);
    let moved = reveal_nft(revealed, second, txid, vout);
    assert(moved.balances == revealed.balances);
    assert(moved.used == revealed.used);
    assert(moved.transfer_outpoints == revealed.transfer_outpoints);
    assert(reveal_effect(moved, second, 1) == moved);
    assert(reveal_effect(after_first, second, 0) == moved);
    assert(tx_effect(after_first, second, height, time) == moved);
    assert(txs_effect(moved, txs, height, time, 2) == moved);
    assert(txs_effect(after_first, txs, height, time, 1) == moved);
    let m = txs_effect(l, txs, height, time, 0);
    assert(m == moved);
    assert(m.balance(t.sender, t.tick) == revealed.balance(t.sender, t.tick));
    assert(m.balance(to, t.tick) == revealed.balance(to, t.tick));
    assert forall|a: Text, k: Text|
        (a, k) != (t.sender, t.tick) && (a, k) != (to, t.tick) implies #[trigger] m.balance(a, k)
        == committed.balance(a, k) by {
        assert(m.balance(a, k) == revealed.balance(a, k));
        assert(after_first.balance(a, k) == committed.balance(a, k));
    }
}

/// A transaction that carries no inscription and has one input does what
/// the reveal of that input does; to balances, tokens, transfer intents,
/// their use and their outpoints it does what the reveal of the transfer
/// does.
pub proof fn lemma_single_reveal(
    l: Ledger,
    tx: TxView,
    height: u64,
    time: u64,
    txid: Text,
    vout: u32,
)
    requires
        first_inscription(tx, 0) is None,
        tx.vin.len() == 1,
        tx.vin[0].txid == Some(txid),
        tx.vin[0].vout == Some(vout),
    ensures
        tx_effect(l, tx, height, time) == reveal_nft(
            reveal_transfer(l, tx, txid, vout),
            tx,
            txid,
            vout,
        ),
        ({
            let m = tx_effect(l, tx, height, time);
            let r = reveal_transfer(l, tx, txid, vout);
            &&& m.balances == r.balances
            &&& m.tokens == r.tokens
            &&& m.transfers == r.transfers
            &&& m.used == r.used
            &&& m.transfer_outpoints == r.transfer_outpoints
        }),
{
    let r = reveal_transfer(l, tx, txid, vout);
    let n = reveal_nft(r, tx, txid, vout);
    assert(inscribe_effect(l, tx, height, time) == l);
    assert(reveal_effect(n, tx, 1) == n);
    assert(reveal_effect(l, tx, 0) == n);
}

/// A transaction without an inscription and without a transparent output
/// that spends the outpoint of a waiting transfer: the amount is unlocked
/// for the sender, no other balance changes, the transfer is used and the
/// outpoint carries nothing any more.
pub proof fn lemma_shielded_reveal_tx(
    l: Ledger,
    tx: TxView,
    height: u64,
    time: u64,
    txid: Text,
    vout: u32,
)
    requires
        l.wf(),
        first_inscription(tx, 0) is None,
        tx.vin.len() == 1,
        tx.vin[0].txid == Some(txid),
        tx.vin[0].vout == Some(vout),
        first_transparent(tx.vout, 0) is None,
        lookup(l.transfer_outpoints, (txid, vout)) is Some,
        !l.is_used(lookup(l.transfer_outpoints, (txid, vout))->0),
        lookup(l.transfers, lookup(l.transfer_outpoints, (txid, vout))->0) is Some,
        ({
            let t = lookup(l.transfers, lookup(l.transfer_outpoints, (txid, vout))->0)->0;
            l.balance(t.sender, t.tick).available + t.amt <= u128::MAX
        }),
    ensures
        ({
            let id = lookup(l.transfer_outpoints, (txid, vout))->0;
            let t = lookup(l.transfers, id)->0;
            let m = tx_effect(l, tx, height, time);
            &&& m.balance(t.sender, t.tick) == Balance {
                available: (l.balance(t.sender, t.tick).available + t.amt) as u128,
                overall: l.balance(t.sender, t.tick).overall,
            }
            &&& forall|a: Text, k: Text|
                (a, k) != (t.sender, t.tick) ==> #[trigger] m.balance(a, k) == l.balance(a, k)
            &&& m.is_used(id)
            &&& lookup(m.transfer_outpoints, (txid, vout)) is None
            &&& m.tokens == l.tokens
        }),
{
    let id = lookup(l.transfer_outpoints, (txid, vout))->0;
    let t = lookup(l.transfers, id)->0;
    lemma_single_reveal(l, tx, height, time, txid, vout);
    lemma_reveal_into_shielded(l, tx, txid, vout);
    let r = reveal_transfer(l, tx, txid, vout);
    let m = tx_effect(l, tx, height, time);
    assert(m.balance(t.sender, t.tick) == r.balance(t.sender, t.tick));
    assert forall|a: Text, k: Text| (a, k) != (t.sender, t.tick) implies #[trigger] m.balance(
        a,
        k,
    ) == l.balance(a, k) by {
        assert(m.balance(a, k) == r.balance(a, k));
    }
}

/// Closing a block changes nothing but the kept blocks and the heights.
pub proof fn lemma_close_block(l: Ledger, height: u64, hash: Text, time: u64, txs: Seq<TxView>)
    ensures
        ({
            let done = txs_effect(l, txs, height, time, 0);
            let m = block_effect(l, height, hash, time, txs);
            m == Ledger { blocks: m.blocks, status: m.status, ..done }
        }),
{
}

/// A spent outpoint that carries a waiting transfer, in a transaction
/// whose first transparent address is the sender: the amount is unlocked
/// for the sender, no other balance changes, the transfer is used and the
/// outpoint carries nothing any more.
pub proof fn lemma_reveal_to_sender(l: Ledger, tx: TxView, txid: Text, vout: u32)
    requires
        l.wf(),
        lookup(l.transfer_outpoints, (txid, vout)) is Some,
        !l.is_used(lookup(l.transfer_outpoints, (txid, vout))->0),
        lookup(l.transfers, lookup(l.transfer_outpoints, (txid, vout))->0) is Some,
        ({
            let t = lookup(l.transfers, lookup(l.transfer_outpoints, (txid, vout))->0)->0;
            &&& receiver_of(tx) == Some(t.sender)
            &&& l.balance(t.sender, t.tick).available + t.amt <= u128::MAX
        }),
    ensures
        ({
            let id = lookup(l.transfer_outpoints, (txid, vout))->0;
            let t = lookup(l.transfers, id)->0;
            let m = reveal_transfer(l, tx, txid, vout);
            &&& m.wf()
            &&& m.balance(t.sender, t.tick) == Balance {
                available: (l.balance(t.sender, t.tick).available + t.amt) as u128,
                overall: l.balance(t.sender, t.tick).overall,
            }
            &&& forall|a: Text, k: Text|
                (a, k) != (t.sender, t.tick) ==> #[trigger] m.balance(a, k) == l.balance(a, k)
            &&& m.is_used(id)
            &&& lookup(m.transfer_outpoints, (txid, vout)) is None
            &&& m.tokens == l.tokens
        }),
{
    let id = lookup(l.transfer_outpoints, (txid, vout))->0;
    let t = lookup(l.transfers, id)->0;
    lemma_settle_unlocks(l, id, receiver_of(tx));
    let settled = settle_effect(l, id, receiver_of(tx))->Ok_0;
    lemma_upsert(settled.used, id, true);
    let marked = settled.mark_used(id);
    lemma_erase(marked.transfer_outpoints, (txid, vout));
    let m = reveal_transfer(l, tx, txid, vout);
    assert(m == marked.remove_transfer_outpoint(txid, vout));
    assert(m.balances == settled.balances);
    assert(m.balance(t.sender, t.tick) == settled.balance(t.sender, t.tick));
    assert forall|a: Text, k: Text| (a, k) != (t.sender, t.tick) implies #[trigger] m.balance(
        a,
        k,
    ) == l.balance(a, k) by {
        assert(m.balance(a, k) == settled.balance(a, k));
    }
}

/// A spent outpoint that carries a token, in a transaction with a
/// transparent output: the token goes to the first transparent address
/// and is not burned, the outpoint carries nothing any more, and the
/// token rides on that output of the spending transaction. Nothing of the
/// fungible tokens changes.
pub proof fn lemma_reveal_nft_moves(l: Ledger, tx: TxView, txid: Text, vout: u32)
    requires
        l.wf(),
        lookup(l.nft_outpoints, (txid, vout)) is Some,
        lookup(l.nfts, lookup(l.nft_outpoints, (txid, vout))->0) is Some,
        first_transparent(tx.vout, 0) is Some,
    ensures
        ({
            let token = lookup(l.nft_outpoints, (txid, vout))->0;
            let to = first_transparent(tx.vout, 0)->0;
            let m = reveal_nft(l, tx, txid, vout);
            &&& m.wf()
            &&& lookup(m.nfts, token) is Some
            &&& lookup(m.nfts, token)->0.owner == receiver_of(tx)->0
            &&& !lookup(m.nfts, token)->0.burned
            &&& lookup(m.nft_outpoints, (tx.txid, to.1)) == Some(token)
            &&& ((txid, vout) != (tx.txid, to.1) ==> lookup(m.nft_outpoints, (txid, vout))
                is None)
            &&& m.collections == l.collections
            &&& m.balances == l.balances
            &&& m.tokens == l.tokens
        }),
{
    let token = lookup(l.nft_outpoints, (txid, vout))->0;
    let to = first_transparent(tx.vout, 0)->0;
    let held = lookup(l.nfts, token)->0;
    let next = Zrc721TokenView { owner: receiver_of(tx)->0, burned: false, ..held };
    assert(token == (token.0, token.1));
    lemma_upsert(l.nfts, token, next);
    let owned = ignoring(l, l.update_nft_owner(token.0, token.1, receiver_of(tx)->0, false));
    assert(owned.nfts == upsert(l.nfts, token, next));
    lemma_erase(owned.nft_outpoints, (txid, vout));
    lemma_upsert(erase(owned.nft_outpoints, (txid, vout)), (tx.txid, to.1), token);
}

/// A spent outpoint that carries a token, in a transaction without a
/// transparent output: the token is burned and owned by `shielded`, and
/// the outpoint carries nothing any more. Nothing of the fungible tokens
/// changes.
pub proof fn lemma_reveal_nft_burns(l: Ledger, tx: TxView, txid: Text, vout: u32)
    requires
        l.wf(),
        lookup(l.nft_outpoints, (txid, vout)) is Some,
        lookup(l.nfts, lookup(l.nft_outpoints, (txid, vout))->0) is Some,
        first_transparent(tx.vout, 0) is None,
    ensures
        ({
            let token = lookup(l.nft_outpoints, (txid, vout))->0;
            let m = reveal_nft(l, tx, txid, vout);
            &&& m.wf()
            &&& lookup(m.nfts, token) is Some
            &&& lookup(m.nfts, token)->0.owner == "shielded"@
            &&& lookup(m.nfts, token)->0.burned
            &&& lookup(m.nft_outpoints, (txid, vout)) is None
            &&& m.collections == l.collections
            &&& m.balances == l.balances
            &&& m.tokens == l.tokens
        }),
{
    let token = lookup(l.nft_outpoints, (txid, vout))->0;
    let held = lookup(l.nfts, token)->0;
    let next = Zrc721TokenView { owner: "shielded"@, burned: true, ..held };
    assert(token == (token.0, token.1));
    lemma_upsert(l.nfts, token, next);
    let owned = ignoring(l, l.update_nft_owner(token.0, token.1, "shielded"@, true));
    assert(owned.nfts == upsert(l.nfts, token, next));
    lemma_erase(owned.nft_outpoints, (txid, vout));
}

/// A name goes to its first writer: a later inscription of a name that
/// is registered, in whatever case, is refused and changes nothing.
pub proof fn lemma_name_taken(
    l: Ledger,
    inscription_id: Text,
    owner: Text,
    content: Text,
    content_type: Text,
)
    requires
        content_type == "text/plain"@,
        name_verdict(trimmed(content)) is Ok,
        lookup(l.names, lowercase_of(trimmed(content))) is Some,
    ensures
        name_effect(l, inscription_id, owner, content, content_type) == Err::<
            Ledger,
            crate::names::NameError,
        >(crate::names::NameError::Taken),
{
}

/// A name that is free is registered for the one who inscribes it, under
/// its lower-case form and with the case it was written in.
pub proof fn lemma_name_registered(
    l: Ledger,
    inscription_id: Text,
    owner: Text,
    content: Text,
    content_type: Text,
)
    requires
        l.wf(),
        content_type == "text/plain"@,
        name_verdict(trimmed(content)) is Ok,
        lookup(l.names, lowercase_of(trimmed(content))) is None,
    ensures
        name_effect(l, inscription_id, owner, content, content_type) is Ok,
        ({
            let m = name_effect(l, inscription_id, owner, content, content_type)->Ok_0;
            &&& lookup(m.names, lowercase_of(trimmed(content))) == Some(
                NameRecordView {
                    name: trimmed(content),
                    name_lower: lowercase_of(trimmed(content)),
                    owner: owner,
                    inscription_id: inscription_id,
                },
            )
            &&& m.names.len() == l.names.len() + 1
        }),
{
    let name = trimmed(content);
    let record = NameRecordView {
        name: name,
        name_lower: lowercase_of(name),
        owner: owner,
        inscription_id: inscription_id,
    };
    lemma_upsert(l.names, lowercase_of(name), record);
    let m = name_effect(l, inscription_id, owner, content, content_type)->Ok_0;
    assert(m.names =~= upsert(l.names, lowercase_of(name), record));
}

/// `m` holds the kept blocks and the heights of `l`.
pub open spec fn same_chain(l: Ledger, m: Ledger) -> bool {
    m.blocks == l.blocks && m.status == l.status
}

/// The inscription pass leaves the kept blocks and the heights alone.
pub proof fn lemma_inscribe_same_chain(l: Ledger, tx: TxView, height: u64, time: u64)
    ensures
        same_chain(l, inscribe_effect(l, tx, height, time)),
{
}

/// The reveal pass leaves the kept blocks and the heights alone.
pub proof fn lemma_reveal_same_chain(l: Ledger, tx: TxView, k: int)
    ensures
        same_chain(l, reveal_effect(l, tx, k)),
    decreases tx.vin.len() - k,
{
    if 0 <= k < tx.vin.len() {
        if tx.vin[k].txid is Some && tx.vin[k].vout is Some {
            let txid = tx.vin[k].txid->0;
            let vout = tx.vin[k].vout->0;
            let a = reveal_transfer(l, tx, txid, vout);
            let b = reveal_nft(a, tx, txid, vout);
            assert(same_chain(l, a));
            assert(same_chain(a, b));
            lemma_reveal_same_chain(b, tx, k + 1);
        } else {
            lemma_reveal_same_chain(l, tx, k + 1);
        }
    }
}

/// The transactions of a block leave the kept blocks and the heights
/// alone: only the close of the block writes them.
pub proof fn lemma_txs_same_chain(l: Ledger, txs: Seq<TxView>, height: u64, time: u64, k: int)
    ensures
        same_chain(l, txs_effect(l, txs, height, time, k)),
    decreases txs.len() - k,
{
    if 0 <= k < txs.len() {
        let inscribed = inscribe_effect(l, txs[k], height, time);
        lemma_inscribe_same_chain(l, txs[k], height, time);
        lemma_reveal_same_chain(inscribed, txs[k], 0);
        lemma_txs_same_chain(tx_effect(l, txs[k], height, time), txs, height, time, k + 1);
    }
}

/// Indexing the block at `height` writes no block but its own: every
/// other height holds the hash it held, or none as before. So a store
/// with no block above `height` has none above it afterwards.
pub proof fn lemma_no_later_block(
    l: Ledger,
    height: u64,
    hash: Text,
    time: u64,
    txs: Seq<TxView>,
    other: u64,
)
    requires
        l.wf(),
        other != height,
    ensures
        lookup(block_effect(l, height, hash, time, txs).blocks, other) == lookup(l.blocks, other),
        has_key(block_effect(l, height, hash, time, txs).blocks, other) == has_key(
            l.blocks,
            other,
        ),
{
    let done = txs_effect(l, txs, height, time, 0);
    lemma_txs_same_chain(l, txs, height, time, 0);
    lemma_upsert(done.blocks, height, hash);
}

/// Tickers are told apart by their lower-case forms alone. After a deploy
/// the token stands under the lower-case form of its ticker, with no
/// supply, its limit defaulting to the maximum and its decimals to 18; a
/// later deploy of a ticker with the same lower-case form is refused and
/// the token stays as it is.
pub proof fn lemma_deploy_once(
    l: Ledger,
    op: Zrc20OperationView,
    inscription_id: Text,
    deployer: Text,
    again: Zrc20OperationView,
    later_id: Text,
    later_deployer: Text,
)
    requires
        l.wf(),
        deploy_effect(l, op, inscription_id, deployer) is Ok,
        lowercase_of(again.tick) == lowercase_of(op.tick),
    ensures
        ({
            let m = deploy_effect(l, op, inscription_id, deployer)->Ok_0;
            &&& lookup(l.tokens, lowercase_of(op.tick)) is None
            &&& lookup(m.tokens, lowercase_of(op.tick)) == Some(
                TokenInfoView {
                    tick: lowercase_of(op.tick),
                    max: op.max->0,
                    lim: text_or(op.lim, op.max->0),
                    dec: text_or(op.dec, "18"@),
                    deployer: deployer,
                    supply: 0,
                    inscription_id: inscription_id,
                },
            )
            &&& deploy_effect(m, again, later_id, later_deployer) is Err
            &&& again.max is Some ==> deploy_effect(m, again, later_id, later_deployer) == Err::<
                Ledger,
                Zrc20Error,
            >(Zrc20Error::Store(DbError::TokenExists))
        }),
{
    let m = deploy_effect(l, op, inscription_id, deployer)->Ok_0;
    let tick = lowercase_of(op.tick);
    let info = m.tokens.last().1;
    lemma_upsert(l.tokens, tick, info);
    assert(m.tokens =~= upsert(l.tokens, tick, info));
}

/// The inscription that `tx` carries, if it carries one, is not `id`.
pub open spec fn inscribes_other(tx: TxView, id: Text) -> bool {
    first_inscription(tx, 0) matches Some(i) ==> i.inscription_id != id
}

/// The inscription pass of a transaction that does not inscribe `id`
/// leaves `id` used.
pub proof fn lemma_inscribe_keeps_used(l: Ledger, tx: TxView, height: u64, time: u64, id: Text)
    requires
        l.wf(),
        l.is_used(id),
        inscribes_other(tx, id),
    ensures
        inscribe_effect(l, tx, height, time).is_used(id),
{
    if let Some(i) = first_inscription(tx, 0) {
        let kept = l.insert_inscription(i.inscription_id, meta_of(i, tx, height, time));
        assert(kept.used == l.used);
        let kind = simple_type(i.content_type);
        let vout = assigned_vout(tx, i.sender);
        if json_like(kind, i.content) {
            let fungible = ignoring(
                kept,
                process_effect(
                    kept,
                    "inscribe"@,
                    i.inscription_id,
                    i.sender,
                    Some(i.receiver),
                    i.content,
                    Some(tx.txid),
                    Some(vout),
                ),
            );
            lemma_upsert(kept.used, i.inscription_id, false);
            assert(fungible.used == kept.used || fungible.used == upsert(
                kept.used,
                i.inscription_id,
                false,
            ));
        }
    }
}

/// Spending an outpoint leaves every used inscription used.
pub proof fn lemma_reveal_transfer_keeps_used(
    l: Ledger,
    tx: TxView,
    txid: Text,
    vout: u32,
    id: Text,
)
    requires
        l.wf(),
        l.is_used(id),
    ensures
        reveal_transfer(l, tx, txid, vout).is_used(id),
        reveal_nft(reveal_transfer(l, tx, txid, vout), tx, txid, vout).is_used(id),
{
    if let Some(spent) = lookup(l.transfer_outpoints, (txid, vout)) {
        let settled = ignoring(l, settle_effect(l, spent, receiver_of(tx)));
        lemma_upsert(l.used, spent, true);
        assert(settled.used == l.used || settled.used == upsert(l.used, spent, true));
        lemma_upsert(settled.used, spent, true);
    }
}

/// The reveal pass leaves every used inscription used.
pub proof fn lemma_reveal_keeps_used(l: Ledger, tx: TxView, k: int, id: Text)
    requires
        consistent(l),
        l.is_used(id),
    ensures
        reveal_effect(l, tx, k).is_used(id),
    decreases tx.vin.len() - k,
{
    if 0 <= k < tx.vin.len() {
        if tx.vin[k].txid is Some && tx.vin[k].vout is Some {
            let txid = tx.vin[k].txid->0;
            let vout = tx.vin[k].vout->0;
            let a = reveal_transfer(l, tx, txid, vout);
            let b = reveal_nft(a, tx, txid, vout);
            lemma_reveal_transfer_keeps_used(l, tx, txid, vout, id);
            lemma_reveal_transfer_consistent(l, tx, txid, vout);
            lemma_reveal_nft_consistent(a, tx, txid, vout);
            lemma_reveal_keeps_used(b, tx, k + 1, id);
        } else {
            lemma_reveal_keeps_used(l, tx, k + 1, id);
        }
    }
}

/// Transactions that do not inscribe `id` leave `id` used.
pub proof fn lemma_txs_keep_used(
    l: Ledger,
    txs: Seq<TxView>,
    height: u64,
    time: u64,
    k: int,
    id: Text,
)
    requires
        consistent(l),
        l.is_used(id),
        forall|j: int| 0 <= j < txs.len() ==> inscribes_other(#[trigger] txs[j], id),
    ensures
        txs_effect(l, txs, height, time, k).is_used(id),
    decreases txs.len() - k,
{
    if 0 <= k < txs.len() {
        let inscribed = inscribe_effect(l, txs[k], height, time);
        lemma_inscribe_keeps_used(l, txs[k], height, time, id);
        lemma_inscribe_consistent(l, txs[k], height, time);
        lemma_reveal_keeps_used(inscribed, txs[k], 0, id);
        lemma_reveal_consistent(inscribed, txs[k], 0);
        lemma_txs_keep_used(tx_effect(l, txs[k], height, time), txs, height, time, k + 1, id);
    }
}

/// A transfer that is settled stays settled: after a block none of whose
/// transactions inscribes `id` anew, a used `id` is still used, and its
/// settlement is refused as before.
pub proof fn lemma_settled_for_good(
    l: Ledger,
    height: u64,
    hash: Text,
    time: u64,
    txs: Seq<TxView>,
    id: Text,
    receiver: Option<Text>,
)
    requires
        consistent(l),
        l.is_used(id),
        forall|j: int| 0 <= j < txs.len() ==> inscribes_other(#[trigger] txs[j], id),
    ensures
        block_effect(l, height, hash, time, txs).is_used(id),
        settle_effect(block_effect(l, height, hash, time, txs), id, receiver) == Err::<
            Ledger,
            Zrc20Error,
        >(Zrc20Error::TransferUsed),
{
    lemma_txs_keep_used(l, txs, height, time, 0, id);
}

/// A waiting transfer locks no more than its sender holds beyond what is
/// available to them.
pub proof fn lemma_locked_amount(l: Ledger, id: Text)
    requires
        sound(l),
        !l.is_used(id),
        lookup(l.transfers, id) is Some,
    ensures
        ({
            let t = lookup(l.transfers, id)->0;
            l.balance(t.sender, t.tick).available + t.amt <= l.balance(t.sender, t.tick).overall
        }),
{
    let t = lookup(l.transfers, id)->0;
    let w = lock_weights(l.transfers, l.used, t.sender, t.tick);
    let i = index_of(l.transfers, id);
    lemma_lookup_at(l.transfers, i);
    assert(w[i] == t.amt);
    lemma_total_at_least(w, i);
    assert(l.balance(t.sender, t.tick).overall - l.balance(t.sender, t.tick).available
        >= pending(l, t.sender, t.tick));
}

/// Two holders of a token hold together no more than its supply.
pub proof fn lemma_two_holders(l: Ledger, a: Text, b: Text, tick: Text)
    requires
        sound(l),
        a != b,
    ensures
        l.balance(a, tick).overall + l.balance(b, tick).overall <= l.supply_of(tick),
        l.supply_of(tick) <= u128::MAX,
{
    let w = overall_weights(l.balances, tick);
    assert(l.supply_of(tick) == sum_overall(l.balances, tick) + l.burned_of(tick));
    if has_key(l.balances, (a, tick)) && has_key(l.balances, (b, tick)) {
        let i = index_of(l.balances, (a, tick));
        let j = index_of(l.balances, (b, tick));
        lemma_lookup_at(l.balances, i);
        lemma_lookup_at(l.balances, j);
        lemma_total_at_least_two(w, i, j);
    } else if has_key(l.balances, (a, tick)) {
        let i = index_of(l.balances, (a, tick));
        lemma_lookup_at(l.balances, i);
        lemma_total_at_least(w, i);
    } else if has_key(l.balances, (b, tick)) {
        let j = index_of(l.balances, (b, tick));
        lemma_lookup_at(l.balances, j);
        lemma_total_at_least(w, j);
    }
}

/// In a sound state the settlement of a waiting transfer is owed: it is
/// refused only where the transfer is used or unknown.
pub proof fn lemma_settle_owed(l: Ledger, inscription_id: Text, receiver: Option<Text>)
    requires
        sound(l),
    ensures
        settle_effect(l, inscription_id, receiver) is Ok <==> !l.is_used(inscription_id) && lookup(
            l.transfers,
            inscription_id,
        ) is Some,
{
    if !l.is_used(inscription_id) && lookup(l.transfers, inscription_id) is Some {
        let t = lookup(l.transfers, inscription_id)->0;
        let to = text_or(receiver, t.sender);
        lemma_locked_amount(l, inscription_id);
        let held = l.balance(t.sender, t.tick);
        if to != t.sender {
            lemma_two_holders(l, t.sender, to, t.tick);
            assert(l.balance(to, t.tick).overall - l.balance(to, t.tick).available >= pending(
                l,
                to,
                t.tick,
            ));
            let next = Balance { available: held.available, overall: (held.overall - t.amt) as u128 };
            lemma_balance_change(l, t.sender, t.tick, next);
            let debited = l.change_balance(t.sender, t.tick, Change::Keep, Change::Lower(t.amt));
            assert(debited is Ok);
            assert(debited->Ok_0.balance(to, t.tick) == l.balance(to, t.tick));
        }
    }
}

} // verus!
