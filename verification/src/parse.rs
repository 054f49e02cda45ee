//! Reading a transaction from a line of text: `type, client, tx, amount`.

use crate::amount::{units_of_text, Amount};
use crate::text::{
    chars_of, field, field_end, find_field_end, parse_unsigned, spells, trim, unsigned_of,
};
use crate::types::{PenguinError, Transaction, TransactionType, TransactionView};
use vstd::prelude::*;
use vstd::string::{StrSliceExecFns, StringExecFns};

verus! {

/// The kind of transaction that a word names.
pub open spec fn keyword(word: Seq<char>) -> Option<TransactionType> {
    if word == "deposit"@ {
        Some(TransactionType::Deposit)
    } else if word == "withdrawal"@ {
        Some(TransactionType::Withdrawal)
    } else if word == "dispute"@ {
        Some(TransactionType::Dispute)
    } else if word == "resolve"@ {
        Some(TransactionType::Resolve)
    } else if word == "chargeback"@ {
        Some(TransactionType::Chargeback)
    } else {
        None
    }
}

/// The amount that the field starting at `start` gives: none where the line
/// has ended before it or the field is empty, and an error where the field
/// is no decimal in range.
pub open spec fn amount_field(line: Seq<char>, start: int) -> Result<Option<int>, Seq<char>> {
    if start > line.len() || field(line, start).len() == 0 {
        Ok(None)
    } else {
        match units_of_text(field(line, start)) {
            Some(units) => Ok(Some(units)),
            None => Err("amount must be decimal"@),
        }
    }
}

/// What a line of text says.
///
/// The line is cut at its commas and each field is taken without the white
/// space around it. The first field names the kind of transaction, the
/// second is the client, the third the transaction id, the fourth, which may
/// be missing or empty, the amount; what follows a fourth comma is not
/// looked at. The first field that fails decides the message of the error.
pub open spec fn parsed_line(line: Seq<char>) -> Result<TransactionView, Seq<char>> {
    let kind_end = field_end(line, 0);
    let client_end = field_end(line, kind_end + 1);
    let tx_end = field_end(line, client_end + 1);
    match keyword(field(line, 0)) {
        None => Err("unexpected type: "@ + field(line, 0)),
        Some(tx_type) => if kind_end >= line.len() {
            Err("client is required"@)
        } else {
            match unsigned_of(field(line, kind_end + 1), u16::MAX as int) {
                None => Err("client must be a u16"@),
                Some(client) => if client_end >= line.len() {
                    Err("tx is required"@)
                } else {
                    match unsigned_of(field(line, client_end + 1), u32::MAX as int) {
                        None => Err("tx must be a u32"@),
                        Some(tx) => match amount_field(line, tx_end + 1) {
                            Err(message) => Err(message),
                            Ok(amount) => Ok(
                                TransactionView {
                                    tx_type,
                                    client: client as u16,
                                    tx: tx as u32,
                                    amount,
                                },
                            ),
                        },
                    }
                },
            }
        },
    }
}

/// The error for a line that is no transaction.
fn refuse(message: &str) -> (r: PenguinError)
    ensures
        r matches PenguinError::TransactionParse(text) && text@ == message@,
{
    PenguinError::TransactionParse(message.to_owned())
}

/// The kind of transaction that the characters in `lo..hi` name.
fn parse_keyword(text: &Vec<char>, lo: usize, hi: usize) -> (r: Option<TransactionType>)
    requires
        lo <= hi <= text@.len(),
    ensures
        r == keyword(text@.subrange(lo as int, hi as int)),
{
    if spells(text, lo, hi, "deposit") {
        Some(TransactionType::Deposit)
    } else if spells(text, lo, hi, "withdrawal") {
        Some(TransactionType::Withdrawal)
    } else if spells(text, lo, hi, "dispute") {
        Some(TransactionType::Dispute)
    } else if spells(text, lo, hi, "resolve") {
        Some(TransactionType::Resolve)
    } else if spells(text, lo, hi, "chargeback") {
        Some(TransactionType::Chargeback)
    } else {
        None
    }
}

impl Transaction {
    /// Reads a transaction from a line of text, as [`parsed_line`] says.
    pub fn parse(line: &str) -> (r: Result<Transaction, PenguinError>)
        ensures
            match parsed_line(line@) {
                Ok(view) => r matches Ok(tx) && tx@ == view,
                Err(message) => r matches Err(PenguinError::TransactionParse(text)) && text@
                    == message,
            },
    {
        let text = chars_of(line);
        let len = text.len();

        let kind_end = find_field_end(&text, 0);
        let (lo, hi) = trim(&text, 0, kind_end);
        let tx_type = match parse_keyword(&text, lo, hi) {
            Some(tx_type) => tx_type,
            None => {
                let mut message = "unexpected type: ".to_owned();
                message.append(line.substring_char(lo, hi));
                return Err(PenguinError::TransactionParse(message));
            },
        };

        if kind_end >= len {
            return Err(refuse("client is required"));
        }
        let client_end = find_field_end(&text, kind_end + 1);
        let (lo, hi) = trim(&text, kind_end + 1, client_end);
        let client: u16 = match parse_unsigned(&text, lo, hi, 0xFFFF) {
            Some(client) => client as u16,
            None => {
                return Err(refuse("client must be a u16"));
            },
        };

        if client_end >= len {
            return Err(refuse("tx is required"));
        }
        let tx_end = find_field_end(&text, client_end + 1);
        let (lo, hi) = trim(&text, client_end + 1, tx_end);
        let tx: u32 = match parse_unsigned(&text, lo, hi, 0xFFFF_FFFF) {
            Some(tx) => tx,
            None => {
                return Err(refuse("tx must be a u32"));
            },
        };

        let amount = if tx_end >= len {
            None
        } else {
            let amount_end = find_field_end(&text, tx_end + 1);
            let (lo, hi) = trim(&text, tx_end + 1, amount_end);
            if lo == hi {
                None
            } else {
                match Amount::parse(line.substring_char(lo, hi)) {
                    Some(amount) => Some(amount),
                    None => {
                        return Err(refuse("amount must be decimal"));
                    },
                }
            }
        };

        Ok(Transaction { tx_type, client, tx, amount })
    }
}

impl std::str::FromStr for Transaction {
    type Err = PenguinError;

    fn from_str(line: &str) -> (r: Result<Transaction, PenguinError>)
        ensures
            match parsed_line(line@) {
                Ok(view) => r matches Ok(tx) && tx@ == view,
                Err(message) => r matches Err(PenguinError::TransactionParse(text)) && text@
                    == message,
            },
    {
        Transaction::parse(line)
    }
}

} // verus!
