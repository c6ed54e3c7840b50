//! The fungible-token engine: deploy, mint, and the two steps of a
//! transfer.

use crate::amount::{
    amount_value, decimals_verdict, numeric_verdict, parse_amount, validate_decimals,
    validate_numeric_string, AmountError, DecimalsError, NumericError,
};
use crate::db::{changed_balance, Db};
use crate::json::{
    json_member, opt_str_view, opt_view, optional_text, read_optional, read_required,
    required_text,
};
use crate::laws::{
    lemma_apply_sound, lemma_settle_owed, lemma_settle_sound, lemma_settles_once, sound,
};
use crate::ledger::{apply_change, Change, DbError, Ledger};
use crate::records::{TokenInfo, TokenInfoView, TransferIntent, TransferIntentView};
use crate::table::{lemma_upsert, lookup};
use crate::text::{byte_len, byte_length, lowercase, lowercase_of, same_text, trim_text, trimmed};
use vstd::prelude::*;

verus! {

/// A fungible-token operation as it is inscribed.
#[derive(Debug)]
pub struct Zrc20Operation {
    pub p: String,
    pub op: String,
    pub tick: String,
    pub max: Option<String>,
    pub lim: Option<String>,
    pub amt: Option<String>,
    pub dec: Option<String>,
}

/// The value that an operation stands for.
pub struct Zrc20OperationView {
    pub p: Seq<char>,
    pub op: Seq<char>,
    pub tick: Seq<char>,
    pub max: Option<Seq<char>>,
    pub lim: Option<Seq<char>>,
    pub amt: Option<Seq<char>>,
    pub dec: Option<Seq<char>>,
}

impl View for Zrc20Operation {
    type V = Zrc20OperationView;

    open spec fn view(&self) -> Zrc20OperationView {
        Zrc20OperationView {
            p: self.p@,
            op: self.op@,
            tick: self.tick@,
            max: opt_view(self.max),
            lim: opt_view(self.lim),
            amt: opt_view(self.amt),
            dec: opt_view(self.dec),
        }
    }
}

/// Why the engine refused an operation.
#[derive(Debug, Clone, Copy, PartialEq, Eq, Structural)]
pub enum Zrc20Error {
    /// The payload is no JSON object with string members `p`, `op` and
    /// `tick`, or one of `max`, `lim`, `amt`, `dec` is no string.
    InvalidJson,
    InvalidProtocol,
    OpNotLowercase,
    TickerLength,
    Numeric(NumericError),
    Decimals(DecimalsError),
    MissingMax,
    MissingAmt,
    TokenNotFound,
    Amount(AmountError),
    MintExceedsLimit,
    MaxSupplyExceeded,
    InsufficientAvailable,
    TransferUsed,
    TransferNotFound,
    Store(DbError),
}

/// The verdict on an optional numeric field.
pub open spec fn field_verdict(value: Option<Seq<char>>, dec: Option<Seq<char>>) -> Result<
    (),
    NumericError,
> {
    match value {
        Some(v) => numeric_verdict(v, dec),
        None => Ok(()),
    }
}

/// The operation that a payload states as it stands: the members of its
/// JSON object, where `p`, `op` and `tick` are strings and `max`, `lim`,
/// `amt` and `dec` are strings, `null` or absent.
pub open spec fn read_operation(content: Seq<char>) -> Option<Zrc20OperationView> {
    let doc = trimmed(content);
    let p = required_text(json_member(doc, "p"@));
    let op = required_text(json_member(doc, "op"@));
    let tick = required_text(json_member(doc, "tick"@));
    let max = optional_text(json_member(doc, "max"@));
    let lim = optional_text(json_member(doc, "lim"@));
    let amt = optional_text(json_member(doc, "amt"@));
    let dec = optional_text(json_member(doc, "dec"@));
    if p is None || op is None || tick is None || max is Err || lim is Err || amt is Err
        || dec is Err {
        None
    } else {
        Some(
            Zrc20OperationView {
                p: p->0,
                op: op->0,
                tick: tick->0,
                max: max->Ok_0,
                lim: lim->Ok_0,
                amt: amt->Ok_0,
                dec: dec->Ok_0,
            },
        )
    }
}

/// The operation with its ticker in lower case, or the first rule that it
/// breaks: the protocol is `zrc-20` in any case, the op is in lower case,
/// the ticker in lower case is 4 or 5 bytes long, and `max`, `lim`, `amt`
/// and `dec` are well formed.
pub open spec fn checked_operation(op: Zrc20OperationView) -> Result<
    Zrc20OperationView,
    Zrc20Error,
> {
    if lowercase_of(op.p) != "zrc-20"@ {
        Err(Zrc20Error::InvalidProtocol)
    } else if op.op != lowercase_of(op.op) {
        Err(Zrc20Error::OpNotLowercase)
    } else if byte_len(lowercase_of(op.tick)) < 4 || byte_len(lowercase_of(op.tick)) > 5 {
        Err(Zrc20Error::TickerLength)
    } else if field_verdict(op.max, op.dec) is Err {
        Err(Zrc20Error::Numeric(field_verdict(op.max, op.dec)->Err_0))
    } else if field_verdict(op.lim, op.dec) is Err {
        Err(Zrc20Error::Numeric(field_verdict(op.lim, op.dec)->Err_0))
    } else if field_verdict(op.amt, op.dec) is Err {
        Err(Zrc20Error::Numeric(field_verdict(op.amt, op.dec)->Err_0))
    } else if op.dec is Some && decimals_verdict(op.dec->0) is Err {
        Err(Zrc20Error::Decimals(decimals_verdict(op.dec->0)->Err_0))
    } else {
        Ok(Zrc20OperationView { tick: lowercase_of(op.tick), ..op })
    }
}

/// The checked operation that a payload states.
pub open spec fn parsed_operation(content: Seq<char>) -> Result<Zrc20OperationView, Zrc20Error> {
    match read_operation(content) {
        None => Err(Zrc20Error::InvalidJson),
        Some(op) => checked_operation(op),
    }
}

/// `value`, or `fallback` where there is none.
pub open spec fn text_or(value: Option<Seq<char>>, fallback: Seq<char>) -> Seq<char> {
    match value {
        Some(v) => v,
        None => fallback,
    }
}

/// A store failure as an engine failure.
pub open spec fn from_store(r: Result<Ledger, DbError>) -> Result<Ledger, Zrc20Error> {
    match r {
        Ok(s) => Ok(s),
        Err(e) => Err(Zrc20Error::Store(e)),
    }
}

/// Deploy: registers the token with no supply; the mint limit defaults to
/// the maximum and the decimals to 18.
pub open spec fn deploy_effect(
    l: Ledger,
    op: Zrc20OperationView,
    inscription_id: Seq<char>,
    deployer: Seq<char>,
) -> Result<Ledger, Zrc20Error> {
    match op.max {
        None => Err(Zrc20Error::MissingMax),
        Some(max) => from_store(
            l.deploy_token(
                lowercase_of(op.tick),
                TokenInfoView {
                    tick: lowercase_of(op.tick),
                    max: max,
                    lim: text_or(op.lim, max),
                    dec: text_or(op.dec, "18"@),
                    deployer: deployer,
                    supply: 0,
                    inscription_id: inscription_id,
                },
            ),
        ),
    }
}

/// Mint: credits the minter, within the limit per mint and the maximum
/// supply.
pub open spec fn mint_effect(l: Ledger, op: Zrc20OperationView, minter: Seq<char>) -> Result<
    Ledger,
    Zrc20Error,
> {
    let tick = lowercase_of(op.tick);
    if op.amt is None {
        Err(Zrc20Error::MissingAmt)
    } else if lookup(l.tokens, tick) is None {
        Err(Zrc20Error::TokenNotFound)
    } else {
        let info = lookup(l.tokens, tick)->0;
        let max = amount_value(info.max, info.dec);
        let lim = amount_value(info.lim, info.dec);
        let amt = amount_value(op.amt->0, info.dec);
        if max is Err {
            Err(Zrc20Error::Amount(max->Err_0))
        } else if lim is Err {
            Err(Zrc20Error::Amount(lim->Err_0))
        } else if amt is Err {
            Err(Zrc20Error::Amount(amt->Err_0))
        } else if amt->Ok_0 > lim->Ok_0 {
            Err(Zrc20Error::MintExceedsLimit)
        } else if info.supply + amt->Ok_0 > max->Ok_0 {
            Err(Zrc20Error::MaxSupplyExceeded)
        } else {
            from_store(l.mint_credit(tick, minter, amt->Ok_0))
        }
    }
}

/// The commit of a transfer: records the intent, notes the outpoint that
/// carries it where one is given, and locks the amount by lowering what
/// the sender has available.
pub open spec fn commit_effect(
    l: Ledger,
    op: Zrc20OperationView,
    inscription_id: Seq<char>,
    sender: Seq<char>,
    txid: Option<Seq<char>>,
    assigned_vout: Option<u32>,
) -> Result<Ledger, Zrc20Error> {
    let tick = lowercase_of(op.tick);
    if op.amt is None {
        Err(Zrc20Error::MissingAmt)
    } else if lookup(l.tokens, tick) is None {
        Err(Zrc20Error::TokenNotFound)
    } else {
        let info = lookup(l.tokens, tick)->0;
        let amt = amount_value(op.amt->0, info.dec);
        if amt is Err {
            Err(Zrc20Error::Amount(amt->Err_0))
        } else if l.balance(sender, tick).available < amt->Ok_0 {
            Err(Zrc20Error::InsufficientAvailable)
        } else {
            let recorded = l.create_transfer(
                inscription_id,
                TransferIntentView { tick: tick, amt: amt->Ok_0, sender: sender },
            );
            let noted = if txid is Some && assigned_vout is Some {
                recorded.register_transfer_outpoint(txid->0, assigned_vout->0, inscription_id)
            } else {
                recorded
            };
            from_store(noted.change_balance(sender, tick, Change::Lower(amt->Ok_0), Change::Keep))
        }
    }
}

/// The settlement of a transfer: once only, it unlocks the amount where
/// it returns to the sender, and moves it to the receiver otherwise.
pub open spec fn settle_effect(l: Ledger, inscription_id: Seq<char>, receiver: Option<Seq<char>>)
    -> Result<Ledger, Zrc20Error> {
    if l.is_used(inscription_id) {
        Err(Zrc20Error::TransferUsed)
    } else if lookup(l.transfers, inscription_id) is None {
        Err(Zrc20Error::TransferNotFound)
    } else {
        let t = lookup(l.transfers, inscription_id)->0;
        let to = text_or(receiver, t.sender);
        if to == t.sender {
            match l.change_balance(t.sender, t.tick, Change::Raise(t.amt), Change::Keep) {
                Err(e) => Err(Zrc20Error::Store(e)),
                Ok(unlocked) => Ok(unlocked.mark_used(inscription_id)),
            }
        } else {
            match l.change_balance(t.sender, t.tick, Change::Keep, Change::Lower(t.amt)) {
                Err(e) => Err(Zrc20Error::Store(e)),
                Ok(debited) => match debited.change_balance(
                    to,
                    t.tick,
                    Change::Raise(t.amt),
                    Change::Raise(t.amt),
                ) {
                    Err(e) => Err(Zrc20Error::Store(e)),
                    Ok(credited) => Ok(credited.mark_used(inscription_id)),
                },
            }
        }
    }
}

/// What a checked operation does to the store on an event. Deploy, mint
/// and the commit of a transfer take place when the inscription is
/// created, the settlement of a transfer when it is spent; an operation
/// that the event does not call for changes nothing.
pub open spec fn apply_effect(
    l: Ledger,
    event_type: Seq<char>,
    op: Zrc20OperationView,
    inscription_id: Seq<char>,
    sender: Seq<char>,
    receiver: Option<Seq<char>>,
    txid: Option<Seq<char>>,
    assigned_vout: Option<u32>,
) -> Result<Ledger, Zrc20Error> {
    if op.op == "deploy"@ && event_type == "inscribe"@ {
        deploy_effect(l, op, inscription_id, sender)
    } else if op.op == "mint"@ && event_type == "inscribe"@ {
        mint_effect(l, op, sender)
    } else if op.op == "transfer"@ && event_type == "inscribe"@ {
        commit_effect(l, op, inscription_id, sender, txid, assigned_vout)
    } else if op.op == "transfer"@ && event_type == "transfer"@ {
        settle_effect(l, inscription_id, receiver)
    } else {
        Ok(l)
    }
}

/// What an event does to the store: the payload must state an operation
/// that passes the checks, and that operation is applied.
pub open spec fn process_effect(
    l: Ledger,
    event_type: Seq<char>,
    inscription_id: Seq<char>,
    sender: Seq<char>,
    receiver: Option<Seq<char>>,
    content: Seq<char>,
    txid: Option<Seq<char>>,
    assigned_vout: Option<u32>,
) -> Result<Ledger, Zrc20Error> {
    match parsed_operation(content) {
        Err(e) => Err(e),
        Ok(op) => apply_effect(
            l,
            event_type,
            op,
            inscription_id,
            sender,
            receiver,
            txid,
            assigned_vout,
        ),
    }
}

/// An engine operation either succeeds with the new state or fails and
/// leaves the state as it was.
pub open spec fn engine_outcome(
    before: Ledger,
    expected: Result<Ledger, Zrc20Error>,
    result: Result<(), Zrc20Error>,
    after: Ledger,
) -> bool {
    match expected {
        Ok(s) => result is Ok && after == s,
        Err(e) => result == Err::<(), Zrc20Error>(e) && after == before,
    }
}

/// The fungible-token engine.
pub struct Zrc20Engine {}

impl Zrc20Engine {
    /// The engine; it keeps no state of its own.
    pub fn new() -> Self {
        Zrc20Engine {  }
    }

    /// Reads a payload as an operation, as it stands.
    pub fn read(&self, content: &str) -> (r: Option<Zrc20Operation>)
        ensures
            match r {
                Some(op) => read_operation(content@) == Some(op@),
                None => read_operation(content@) is None,
            },
    {
        let doc_owned = trim_text(content);
        let doc = doc_owned.as_str();
        let p = read_required(doc, "p");
        let op = read_required(doc, "op");
        let tick = read_required(doc, "tick");
        let max = read_optional(doc, "max");
        let lim = read_optional(doc, "lim");
        let amt = read_optional(doc, "amt");
        let dec = read_optional(doc, "dec");
        match (p, op, tick, max, lim, amt, dec) {
            (Some(p), Some(op), Some(tick), Ok(max), Ok(lim), Ok(amt), Ok(dec)) => Some(
                Zrc20Operation { p, op, tick, max, lim, amt, dec },
            ),
            _ => None,
        }
    }

    /// Checks an operation and puts its ticker in lower case.
    pub fn validate(&self, op: Zrc20Operation) -> (r: Result<Zrc20Operation, Zrc20Error>)
        ensures
            match r {
                Ok(checked) => checked_operation(op@) == Ok::<Zrc20OperationView, Zrc20Error>(
                    checked@,
                ),
                Err(e) => checked_operation(op@) == Err::<Zrc20OperationView, Zrc20Error>(e),
            },
    {
        if !same_text(lowercase(op.p.as_str()).as_str(), "zrc-20") {
            return Err(Zrc20Error::InvalidProtocol);
        }
        if !same_text(op.op.as_str(), lowercase(op.op.as_str()).as_str()) {
            return Err(Zrc20Error::OpNotLowercase);
        }
        let normalized_tick = lowercase(op.tick.as_str());
        let tick_bytes: usize = byte_length(normalized_tick.as_str());
        if tick_bytes < 4 || tick_bytes > 5 {
            return Err(Zrc20Error::TickerLength);
        }
        if let Some(ref v) = op.max {
            if let Err(e) = validate_numeric_string(v.as_str(), &op.dec) {
                return Err(Zrc20Error::Numeric(e));
            }
        }
        if let Some(ref v) = op.lim {
            if let Err(e) = validate_numeric_string(v.as_str(), &op.dec) {
                return Err(Zrc20Error::Numeric(e));
            }
        }
        if let Some(ref v) = op.amt {
            if let Err(e) = validate_numeric_string(v.as_str(), &op.dec) {
                return Err(Zrc20Error::Numeric(e));
            }
        }
        if let Some(ref d) = op.dec {
            if let Err(e) = validate_decimals(d.as_str()) {
                return Err(Zrc20Error::Decimals(e));
            }
        }
        Ok(
            Zrc20Operation {
                p: op.p,
                op: op.op,
                tick: normalized_tick,
                max: op.max,
                lim: op.lim,
                amt: op.amt,
                dec: op.dec,
            },
        )
    }

    /// Reads a payload as an operation and checks it.
    pub fn parse_and_validate(&self, content: &str) -> (r: Result<Zrc20Operation, Zrc20Error>)
        ensures
            match r {
                Ok(op) => parsed_operation(content@) == Ok::<Zrc20OperationView, Zrc20Error>(op@),
                Err(e) => parsed_operation(content@) == Err::<Zrc20OperationView, Zrc20Error>(e),
            },
    {
        match self.read(content) {
            Some(op) => self.validate(op),
            None => Err(Zrc20Error::InvalidJson),
        }
    }

    /// Applies a checked operation on an event.
    pub fn apply(
        &self,
        db: &mut Db,
        event_type: &str,
        op: &Zrc20Operation,
        inscription_id: &str,
        sender: &str,
        receiver: Option<&str>,
        txid: Option<&str>,
        assigned_vout: Option<u32>,
    ) -> (r: Result<(), Zrc20Error>)
        requires
            old(db).wf(),
        ensures
            final(db).wf(),
            engine_outcome(
                old(db)@,
                apply_effect(
                    old(db)@,
                    event_type@,
                    op@,
                    inscription_id@,
                    sender@,
                    opt_str_view(receiver),
                    opt_str_view(txid),
                    assigned_vout,
                ),
                r,
                final(db)@,
            ),
            sound(old(db)@) ==> sound(final(db)@),
    {
        proof {
            if sound(db@) && apply_effect(
                db@,
                event_type@,
                op@,
                inscription_id@,
                sender@,
                opt_str_view(receiver),
                opt_str_view(txid),
                assigned_vout,
            ) is Ok {
                lemma_apply_sound(
                    db@,
                    event_type@,
                    op@,
                    inscription_id@,
                    sender@,
                    opt_str_view(receiver),
                    opt_str_view(txid),
                    assigned_vout,
                );
            }
        }
        let inscribe = same_text(event_type, "inscribe");
        if same_text(op.op.as_str(), "deploy") && inscribe {
            self.handle_deploy_inscribe(db, op, inscription_id, sender)
        } else if same_text(op.op.as_str(), "mint") && inscribe {
            self.handle_mint_inscribe(db, op, sender)
        } else if same_text(op.op.as_str(), "transfer") && inscribe {
            self.handle_transfer_inscribe(db, op, inscription_id, sender, txid, assigned_vout)
        } else if same_text(op.op.as_str(), "transfer") && same_text(event_type, "transfer") {
            self.handle_transfer_transfer(db, inscription_id, receiver)
        } else {
            Ok(())
        }
    }

    /// Handles an event for the inscription `inscription_id`.
    ///
    /// `event_type` is `"inscribe"` when the inscription is created and
    /// `"transfer"` when the output that carries it is spent.
    pub fn process(
        &self,
        db: &mut Db,
        event_type: &str,
        inscription_id: &str,
        sender: &str,
        receiver: Option<&str>,
        content: &str,
        txid: Option<&str>,
        assigned_vout: Option<u32>,
    ) -> (r: Result<(), Zrc20Error>)
        requires
            old(db).wf(),
        ensures
            final(db).wf(),
            engine_outcome(
                old(db)@,
                process_effect(
                    old(db)@,
                    event_type@,
                    inscription_id@,
                    sender@,
                    opt_str_view(receiver),
                    content@,
                    opt_str_view(txid),
                    assigned_vout,
                ),
                r,
                final(db)@,
            ),
            sound(old(db)@) ==> sound(final(db)@),
    {
        let op = match self.parse_and_validate(content) {
            Ok(op) => op,
            Err(e) => {
                return Err(e);
            },
        };
        self.apply(db, event_type, &op, inscription_id, sender, receiver, txid, assigned_vout)
    }

    fn handle_deploy_inscribe(
        &self,
        db: &mut Db,
        op: &Zrc20Operation,
        inscription_id: &str,
        deployer: &str,
    ) -> (r: Result<(), Zrc20Error>)
        requires
            old(db).wf(),
        ensures
            final(db).wf(),
            engine_outcome(
                old(db)@,
                deploy_effect(old(db)@, op@, inscription_id@, deployer@),
                r,
                final(db)@,
            ),
    {
        let max = match &op.max {
            Some(m) => m.clone(),
            None => {
                return Err(Zrc20Error::MissingMax);
            },
        };
        let lim = match &op.lim {
            Some(l) => l.clone(),
            None => max.clone(),
        };
        let dec = match &op.dec {
            Some(d) => d.clone(),
            None => "18".to_owned(),
        };
        let tick = lowercase(op.tick.as_str());
        let info = TokenInfo {
            tick: tick.clone(),
            max,
            lim,
            dec,
            deployer: deployer.to_owned(),
            supply: 0,
            inscription_id: inscription_id.to_owned(),
        };
        match db.deploy_token(tick.as_str(), info) {
            Ok(()) => Ok(()),
            Err(e) => Err(Zrc20Error::Store(e)),
        }
    }

    fn handle_mint_inscribe(&self, db: &mut Db, op: &Zrc20Operation, minter: &str) -> (r: Result<
        (),
        Zrc20Error,
    >)
        requires
            old(db).wf(),
        ensures
            final(db).wf(),
            engine_outcome(old(db)@, mint_effect(old(db)@, op@, minter@), r, final(db)@),
    {
        let amt_str = match &op.amt {
            Some(a) => a,
            None => {
                return Err(Zrc20Error::MissingAmt);
            },
        };
        let tick = lowercase(op.tick.as_str());
        let info = match db.get_token_info(tick.as_str()) {
            Some(i) => i,
            None => {
                return Err(Zrc20Error::TokenNotFound);
            },
        };
        let max = match parse_amount(info.max.as_str(), info.dec.as_str()) {
            Ok(v) => v,
            Err(e) => {
                return Err(Zrc20Error::Amount(e));
            },
        };
        let lim = match parse_amount(info.lim.as_str(), info.dec.as_str()) {
            Ok(v) => v,
            Err(e) => {
                return Err(Zrc20Error::Amount(e));
            },
        };
        let amt = match parse_amount(amt_str.as_str(), info.dec.as_str()) {
            Ok(v) => v,
            Err(e) => {
                return Err(Zrc20Error::Amount(e));
            },
        };
        if amt > lim {
            return Err(Zrc20Error::MintExceedsLimit);
        }
        match info.supply.checked_add(amt) {
            Some(total) => {
                if total > max {
                    return Err(Zrc20Error::MaxSupplyExceeded);
                }
            },
            None => {
                return Err(Zrc20Error::MaxSupplyExceeded);
            },
        }
        match db.mint_credit_atomic(tick.as_str(), minter, amt) {
            Ok(()) => Ok(()),
            Err(e) => Err(Zrc20Error::Store(e)),
        }
    }

    fn handle_transfer_inscribe(
        &self,
        db: &mut Db,
        op: &Zrc20Operation,
        inscription_id: &str,
        sender: &str,
        txid: Option<&str>,
        assigned_vout: Option<u32>,
    ) -> (r: Result<(), Zrc20Error>)
        requires
            old(db).wf(),
        ensures
            final(db).wf(),
            engine_outcome(
                old(db)@,
                commit_effect(
                    old(db)@,
                    op@,
                    inscription_id@,
                    sender@,
                    opt_str_view(txid),
                    assigned_vout,
                ),
                r,
                final(db)@,
            ),
    {
        let amt_str = match &op.amt {
            Some(a) => a,
            None => {
                return Err(Zrc20Error::MissingAmt);
            },
        };
        let tick = lowercase(op.tick.as_str());
        let info = match db.get_token_info(tick.as_str()) {
            Some(i) => i,
            None => {
                return Err(Zrc20Error::TokenNotFound);
            },
        };
        let amt = match parse_amount(amt_str.as_str(), info.dec.as_str()) {
            Ok(v) => v,
            Err(e) => {
                return Err(Zrc20Error::Amount(e));
            },
        };
        let balance = db.get_balance(sender, tick.as_str());
        if balance.available < amt {
            return Err(Zrc20Error::InsufficientAvailable);
        }
        db.create_transfer_inscription(
            inscription_id,
            TransferIntent { tick: tick.clone(), amt, sender: sender.to_owned() },
        );
        match (txid, assigned_vout) {
            (Some(t), Some(v)) => {
                db.register_transfer_outpoint(t, v, inscription_id);
            },
            _ => {},
        }
        match db.change_balance(sender, tick.as_str(), Change::Lower(amt), Change::Keep) {
            Ok(()) => Ok(()),
            Err(e) => Err(Zrc20Error::Store(e)),
        }
    }

    fn handle_transfer_transfer(&self, db: &mut Db, inscription_id: &str, receiver: Option<&str>)
        -> (r: Result<(), Zrc20Error>)
        requires
            old(db).wf(),
        ensures
            final(db).wf(),
            engine_outcome(
                old(db)@,
                settle_effect(old(db)@, inscription_id@, opt_str_view(receiver)),
                r,
                final(db)@,
            ),
    {
        if db.is_inscription_used(inscription_id) {
            return Err(Zrc20Error::TransferUsed);
        }
        let t = match db.get_transfer_inscription(inscription_id) {
            Some(t) => t,
            None => {
                return Err(Zrc20Error::TransferNotFound);
            },
        };
        let to: &str = match receiver {
            Some(r) => r,
            None => t.sender.as_str(),
        };
        let amt: u128 = t.amt;
        if same_text(to, t.sender.as_str()) {
            if let Err(e) = db.change_balance(
                t.sender.as_str(),
                t.tick.as_str(),
                Change::Raise(amt),
                Change::Keep,
            ) {
                return Err(Zrc20Error::Store(e));
            }
        } else {
            let sender_balance = db.get_balance(t.sender.as_str(), t.tick.as_str());
            let receiver_balance = db.get_balance(to, t.tick.as_str());
            if let Err(e) = changed_balance(sender_balance, Change::Keep, Change::Lower(amt)) {
                return Err(Zrc20Error::Store(e));
            }
            proof {
                let debited = apply_change(sender_balance, Change::Keep, Change::Lower(amt))->Ok_0;
                lemma_upsert(db@.balances, (t.sender@, t.tick@), debited);
            }
            if let Err(e) = changed_balance(
                receiver_balance,
                Change::Raise(amt),
                Change::Raise(amt),
            ) {
                return Err(Zrc20Error::Store(e));
            }
            let _ = db.change_balance(
                t.sender.as_str(),
                t.tick.as_str(),
                Change::Keep,
                Change::Lower(amt),
            );
            let _ = db.change_balance(to, t.tick.as_str(), Change::Raise(amt), Change::Raise(amt));
        }
        db.mark_inscription_used(inscription_id);
        Ok(())
    }

    /// Settles the transfer that `inscription_id` committed, now that the
    /// output carrying it is spent. Without a receiver the amount returns
    /// to the sender. A settled transfer is used, and a used transfer is not
    /// settled again; in a sound store a transfer that waits is always
    /// settled.
    pub fn settle_transfer(&self, db: &mut Db, inscription_id: &str, receiver: Option<&str>) -> (r:
        Result<(), Zrc20Error>)
        requires
            old(db).wf(),
        ensures
            final(db).wf(),
            engine_outcome(
                old(db)@,
                settle_effect(old(db)@, inscription_id@, opt_str_view(receiver)),
                r,
                final(db)@,
            ),
            r is Ok ==> final(db)@.is_used(inscription_id@),
            old(db)@.is_used(inscription_id@) ==> r == Err::<(), Zrc20Error>(
                Zrc20Error::TransferUsed,
            ),
            sound(old(db)@) ==> sound(final(db)@),
            sound(old(db)@) ==> (r is Ok <==> !old(db)@.is_used(inscription_id@) && lookup(
                old(db)@.transfers,
                inscription_id@,
            ) is Some),
    {
        proof {
            if settle_effect(db@, inscription_id@, opt_str_view(receiver)) is Ok {
                lemma_settles_once(db@, inscription_id@, opt_str_view(receiver), None);
                if sound(db@) {
                    lemma_settle_sound(db@, inscription_id@, opt_str_view(receiver));
                }
            }
            if sound(db@) {
                lemma_settle_owed(db@, inscription_id@, opt_str_view(receiver));
            }
        }
        self.handle_transfer_transfer(db, inscription_id, receiver)
    }
}

} // verus!
