//! What the chain node reports of blocks and transactions.

use crate::json::opt_view;
use crate::records::texts;
use vstd::prelude::*;

verus! {

/// A block as the node lists it.
#[derive(Debug)]
pub struct BlockResponse {
    pub height: u64,
    pub hash: String,
    pub tx: Vec<String>,
    pub time: u64,
    pub previousblockhash: Option<String>,
}

/// The script of a transaction input.
#[derive(Debug)]
pub struct ScriptSig {
    pub hex: String,
    pub script: String,
}

/// A transaction input: the output it spends and its script.
#[derive(Debug)]
pub struct Vin {
    pub txid: Option<String>,
    pub vout: Option<u32>,
    pub script_sig: Option<ScriptSig>,
}

/// The script of a transaction output and the addresses it pays.
#[derive(Debug)]
pub struct ScriptPubKey {
    pub hex: String,
    pub script: String,
    pub kind: String,
    pub addresses: Option<Vec<String>>,
}

/// A transaction output. Its value plays no part in indexing and is not
/// kept.
#[derive(Debug)]
pub struct Vout {
    pub n: u32,
    pub script_pub_key: ScriptPubKey,
}

/// A transaction with its inputs and outputs.
#[derive(Debug)]
pub struct TxResponse {
    pub txid: String,
    pub hex: String,
    pub vin: Vec<Vin>,
    pub vout: Vec<Vout>,
}

/// What indexing reads of an input.
pub struct VinView {
    pub txid: Option<Seq<char>>,
    pub vout: Option<u32>,
    pub script: Option<Seq<char>>,
}

/// What indexing reads of an output.
pub struct VoutView {
    pub n: u32,
    pub addresses: Option<Seq<Seq<char>>>,
}

/// What indexing reads of a transaction.
pub struct TxView {
    pub txid: Seq<char>,
    pub vin: Seq<VinView>,
    pub vout: Seq<VoutView>,
}

impl View for ScriptPubKey {
    type V = Option<Seq<Seq<char>>>;

    open spec fn view(&self) -> Option<Seq<Seq<char>>> {
        match self.addresses {
            Some(a) => Some(texts(a@)),
            None => None,
        }
    }
}

impl View for Vin {
    type V = VinView;

    open spec fn view(&self) -> VinView {
        VinView {
            txid: opt_view(self.txid),
            vout: self.vout,
            script: match self.script_sig {
                Some(s) => Some(s.script@),
                None => None,
            },
        }
    }
}

impl View for Vout {
    type V = VoutView;

    open spec fn view(&self) -> VoutView {
        VoutView { n: self.n, addresses: self.script_pub_key@ }
    }
}

impl View for TxResponse {
    type V = TxView;

    open spec fn view(&self) -> TxView {
        TxView {
            txid: self.txid@,
            vin: self.vin@.map_values(|v: Vin| v@),
            vout: self.vout@.map_values(|v: Vout| v@),
        }
    }
}

} // verus!
