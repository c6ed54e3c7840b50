//! The name engine: first writer wins.

use crate::db::Db;
use crate::ledger::Ledger;
use crate::records::{NameRecord, NameRecordView};
use crate::text::{
    byte_len, byte_length, chars_of, ends_with, has_suffix, is_white_space, lowercase,
    lowercase_of, same_text, trim_text, trimmed, white_space,
};
use vstd::prelude::*;

verus! {

/// Why a text is no name.
#[derive(Debug, Clone, Copy, PartialEq, Eq, Structural)]
pub enum NameRule {
    /// The text ends in neither `.zec` nor `.zcash`.
    Suffix,
    /// The text holds white space.
    WhiteSpace,
    /// Nothing stands before the suffix.
    Empty,
    /// The text is longer than 253 bytes.
    TooLong,
}

/// Why a registration failed.
#[derive(Debug, Clone, Copy, PartialEq, Eq, Structural)]
pub enum NameError {
    /// The name is registered already.
    Taken,
}

/// The first rule that a text breaks as a name.
pub open spec fn name_verdict(name: Seq<char>) -> Result<(), NameRule> {
    if !ends_with(name, ".zec"@) && !ends_with(name, ".zcash"@) {
        Err(NameRule::Suffix)
    } else if exists|i: int| 0 <= i < name.len() && white_space(#[trigger] name[i]) {
        Err(NameRule::WhiteSpace)
    } else if (if ends_with(name, ".zcash"@) {
        name.len() == ".zcash"@.len()
    } else {
        name.len() == ".zec"@.len()
    }) {
        Err(NameRule::Empty)
    } else if byte_len(name) > 253 {
        Err(NameRule::TooLong)
    } else {
        Ok(())
    }
}

/// What a plain-text inscription does to the store: where its trimmed
/// body is a name, the name is registered under its lower-case form, and a
/// name that is taken is an error; any other inscription changes nothing.
pub open spec fn name_effect(
    l: Ledger,
    inscription_id: Seq<char>,
    owner: Seq<char>,
    content: Seq<char>,
    content_type: Seq<char>,
) -> Result<Ledger, NameError> {
    let name = trimmed(content);
    if content_type != "text/plain"@ || name_verdict(name) is Err {
        Ok(l)
    } else {
        match l.register_name(
            lowercase_of(name),
            NameRecordView {
                name: name,
                name_lower: lowercase_of(name),
                owner: owner,
                inscription_id: inscription_id,
            },
        ) {
            Ok(s) => Ok(s),
            Err(_) => Err(NameError::Taken),
        }
    }
}

/// The name engine.
pub struct NamesEngine {}

impl NamesEngine {
    /// The engine; it keeps no state of its own.
    pub fn new() -> Self {
        NamesEngine {  }
    }

    /// Checks a text against the rules for names.
    #[verifier::loop_isolation(false)]
    pub fn validate_name(&self, name: &str) -> (r: Result<(), NameRule>)
        ensures
            r == name_verdict(name@),
    {
        let s = chars_of(name);
        let zec = chars_of(".zec");
        let zcash = chars_of(".zcash");
        let by_zec = has_suffix(&s, &zec);
        let by_zcash = has_suffix(&s, &zcash);
        if !by_zec && !by_zcash {
            return Err(NameRule::Suffix);
        }
        let mut i: usize = 0;
        while i < s.len()
            invariant
                i <= s.len(),
                forall|k: int| 0 <= k < i ==> !white_space(#[trigger] s@[k]),
            decreases s.len() - i,
        {
            if is_white_space(s[i]) {
                return Err(NameRule::WhiteSpace);
            }
            i += 1;
        }
        let suffix_len: usize = if by_zcash {
            zcash.len()
        } else {
            zec.len()
        };
        if s.len() == suffix_len {
            return Err(NameRule::Empty);
        }
        if byte_length(name) > 253 {
            return Err(NameRule::TooLong);
        }
        Ok(())
    }

    /// Handles a plain-text inscription.
    pub fn process(
        &self,
        db: &mut Db,
        inscription_id: &str,
        owner: &str,
        content: &str,
        content_type: &str,
    ) -> (r: Result<(), NameError>)
        requires
            old(db).wf(),
        ensures
            final(db).wf(),
            match name_effect(old(db)@, inscription_id@, owner@, content@, content_type@) {
                Ok(s) => r is Ok && final(db)@ == s,
                Err(e) => r == Err::<(), NameError>(e) && final(db)@ == old(db)@,
            },
    {
        if !same_text(content_type, "text/plain") {
            return Ok(());
        }
        let name = trim_text(content);
        if self.validate_name(name.as_str()).is_ok() {
            self.handle_registration(db, name.as_str(), inscription_id, owner)
        } else {
            Ok(())
        }
    }

    fn handle_registration(&self, db: &mut Db, name: &str, inscription_id: &str, owner: &str) -> (r:
        Result<(), NameError>)
        requires
            old(db).wf(),
        ensures
            final(db).wf(),
            match old(db)@.register_name(
                lowercase_of(name@),
                NameRecordView {
                    name: name@,
                    name_lower: lowercase_of(name@),
                    owner: owner@,
                    inscription_id: inscription_id@,
                },
            ) {
                Ok(s) => r is Ok && final(db)@ == s,
                Err(_) => r == Err::<(), NameError>(NameError::Taken) && final(db)@ == old(db)@,
            },
    {
        let name_lower = lowercase(name);
        let record = NameRecord {
            name: name.to_owned(),
            name_lower: name_lower.clone(),
            owner: owner.to_owned(),
            inscription_id: inscription_id.to_owned(),
        };
        match db.register_name(name_lower.as_str(), record) {
            Ok(()) => Ok(()),
            Err(_) => Err(NameError::Taken),
        }
    }
}

} // verus!
