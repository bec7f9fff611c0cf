//! Block templates: assembling a block from the node's template, and the
//! coinbase payout a pool coordinator asks for.

use vstd::prelude::*;
use vstd::string::StringSliceAdditionalSpecFns;

use crate::types::{Block, BlockHeader, Transaction};

verus! {

/// Whether `b` is an ASCII hex digit, either case.
pub open spec fn is_hex_digit(b: u8) -> bool {
    (0x30 <= b <= 0x39) || (0x41 <= b <= 0x46) || (0x61 <= b <= 0x66)
}

/// The value of a hex digit.
pub open spec fn hex_value(b: u8) -> int {
    if 0x30 <= b <= 0x39 {
        b - 0x30
    } else if 0x41 <= b <= 0x46 {
        b - 0x41 + 10
    } else {
        b - 0x61 + 10
    }
}

/// The bytes that hex text `t` stands for: pairs of digits, high digit
/// first; `None` for an odd length or a byte that is no hex digit.
pub open spec fn hex_decoded(t: Seq<u8>) -> Option<Seq<u8>> {
    if t.len() % 2 != 0 || exists|i: int| 0 <= i < t.len() && !is_hex_digit(t[i]) {
        None
    } else {
        Some(
            Seq::new(
                t.len() / 2,
                |i: int| (hex_value(t[2 * i]) * 16 + hex_value(t[2 * i + 1])) as u8,
            ),
        )
    }
}

/// Whether `c` is an ASCII hex digit, either case.
pub open spec fn is_hex_char(c: char) -> bool {
    ('0' <= c <= '9') || ('a' <= c <= 'f') || ('A' <= c <= 'F')
}

/// Whether text `t` is hex: an even number of hex digits.
pub open spec fn hex_chars_ok(t: Seq<char>) -> bool {
    t.len() % 2 == 0 && forall|i: int| 0 <= i < t.len() ==> is_hex_char(#[trigger] t[i])
}

/// `hex::decode` of the UTF-8 bytes of `s`: their pairs of hex digits (either
/// case) as bytes, or `None` (its error) for an odd length or a byte that
/// is no hex digit.  As a character other than an ASCII hex digit always
/// has a UTF-8 byte that is no hex digit, it succeeds exactly when the text
/// is an even number of hex digits.
#[verifier::external_body]
fn hex_decode(s: &str) -> (res: Option<Vec<u8>>)
    ensures
        match res {
            Some(v) => hex_decoded(s.spec_bytes()) == Some(v@),
            None => hex_decoded(s.spec_bytes()) is None,
        },
        res is Some <==> hex_chars_ok(s@),
{
    hex::decode(s).ok()
}

/// For each output of a DATUM payout reply, its `script` field when that is
/// a string; `None` when the reply is no JSON or has no `outputs` array.
pub uninterp spec fn payout_reply_scripts(reply: Seq<u8>) -> Option<Seq<Option<Seq<char>>>>;

/// The scripts' texts.
pub open spec fn scripts_view(v: Seq<Option<String>>) -> Seq<Option<Seq<char>>> {
    v.map_values(
        |o: Option<String>|
            match o {
                Some(s) => Some(s@),
                None => None,
            },
    )
}

/// `serde_json::from_slice` of a DATUM payout reply into a JSON value, then
/// of its `outputs` array the `script` of each output that is a string.
/// The answer depends on the bytes alone and is named `payout_reply_scripts`.
#[verifier::external_body]
fn parse_payout_reply(reply: &[u8]) -> (res: Option<Vec<Option<String>>>)
    ensures
        match res {
            Some(v) => payout_reply_scripts(reply@) == Some(scripts_view(v@)),
            None => payout_reply_scripts(reply@) is None,
        },
{
    let json: serde_json::Value = serde_json::from_slice(reply).ok()?;
    let outputs = json.get("outputs")?.as_array()?;
    Some(outputs.iter().map(|o| o.get("script").and_then(|s| s.as_str()).map(|s| s.to_owned())).collect())
}

/// The payout address for a script text: `hex:` and the text, when it is hex.
pub open spec fn address_for_script(h: Seq<char>) -> Option<Seq<char>> {
    if hex_chars_ok(h) {
        Some("hex:"@ + h)
    } else {
        None
    }
}

/// The payout address a DATUM reply gives: that of the first output's
/// script, when there is a first output and its script is a string.
pub open spec fn reply_address(scripts: Option<Seq<Option<Seq<char>>>>) -> Option<Seq<char>> {
    match scripts {
        Some(s) => if s.len() > 0 {
            match s[0] {
                Some(h) => address_for_script(h),
                None => None,
            }
        } else {
            None
        },
        None => None,
    }
}

/// Whether `a` holds the text `want`.
pub open spec fn address_is(a: Option<String>, want: Option<Seq<char>>) -> bool {
    match want {
        Some(w) => a matches Some(x) && x@ == w,
        None => a is None,
    }
}

/// The block a node template gives: its header, and the coinbase followed
/// by the template's other transactions.
pub fn template_block(header: BlockHeader, coinbase_tx: Transaction, transactions: Vec<Transaction>) -> (res: Block)
    ensures
        res@.header == header,
        res@.transactions == seq![coinbase_tx@] + transactions@.map_values(|t: Transaction| t@),
{
    let ghost cb = coinbase_tx@;
    let ghost rest = transactions@.map_values(|t: Transaction| t@);
    let mut all: Vec<Transaction> = Vec::new();
    all.push(coinbase_tx);
    let mut others = transactions;
    all.append(&mut others);
    let res = Block { header, transactions: all };
    assert(res@.transactions =~= seq![cb] + rest);
    res
}

/// The coinbase script and address to request a template with, given the
/// script (hex) of the first payout output a pool coordinator named: no
/// script, and the address `hex:` followed by the script, when the script
/// is valid hex; nothing otherwise.
pub fn coinbase_payout_from_script(script_hex: Option<&str>) -> (res: (Option<Vec<u8>>, Option<String>))
    ensures
        res.0 is None,
        match script_hex {
            Some(h) => address_is(res.1, address_for_script(h@)),
            None => res.1 is None,
        },
{
    match script_hex {
        None => (None, None),
        Some(h) => match hex_decode(h) {
            None => (None, None),
            Some(_script) => {
                let mut address = "hex:".to_owned();
                address.append(h);
                (None, Some(address))
            },
        },
    }
}

/// The coinbase script and address to request a template with, given the
/// scripts read from a DATUM payout reply (`None` when the reply was no
/// JSON or had no outputs): those of the first output's script (see
/// `coinbase_payout_from_script`), and nothing when there is no first
/// output or its script is no string.
pub fn coinbase_payout_from_scripts(scripts: Option<Vec<Option<String>>>) -> (res: (
    Option<Vec<u8>>,
    Option<String>,
))
    ensures
        res.0 is None,
        address_is(
            res.1,
            reply_address(
                match scripts {
                    Some(v) => Some(scripts_view(v@)),
                    None => None,
                },
            ),
        ),
{
    match scripts {
        None => (None, None),
        Some(scripts) => {
            if scripts.len() == 0 {
                return (None, None);
            }
            assert(scripts_view(scripts@)[0] == match scripts@[0] {
                Some(s) => Some(s@),
                None => None::<Seq<char>>,
            });
            match &scripts[0] {
                None => (None, None),
                Some(h) => coinbase_payout_from_script(Some(h.as_str())),
            }
        },
    }
}

/// The coinbase script and address to request a template with, given the
/// raw reply of the DATUM pool to `get_coinbase_payout`: the reply is read
/// as JSON, then handled as `coinbase_payout_from_scripts` does.
pub fn coinbase_payout_from_reply(reply: &[u8]) -> (res: (Option<Vec<u8>>, Option<String>))
    ensures
        res.0 is None,
        address_is(res.1, reply_address(payout_reply_scripts(reply@))),
{
    let scripts = parse_payout_reply(reply);
    coinbase_payout_from_scripts(scripts)
}

} // verus!
