//! Genesis transaction intake: turning the raw lines of a genesis document
//! into the ordered validator transaction list. Reading the document itself
//! is the collaborator's business; this module receives its lines, drops
//! blank ones and insists that every record is a well-formed JSON object.

use vstd::prelude::*;
use vstd::string::StrSliceExecFns;
use crate::errors::LedgerError;

verus! {

/// The characters that may appear in a line carrying no record: the Unicode
/// white-space characters, enumerated.
pub open spec fn blank_char(c: char) -> bool {
    ||| c == ' '
    ||| c == '\t'
    ||| c == '\n'
    ||| c == '\u{B}'
    ||| c == '\u{C}'
    ||| c == '\r'
    ||| c == '\u{85}'
    ||| c == '\u{A0}'
    ||| c == '\u{1680}'
    ||| c == '\u{2000}'
    ||| c == '\u{2001}'
    ||| c == '\u{2002}'
    ||| c == '\u{2003}'
    ||| c == '\u{2004}'
    ||| c == '\u{2005}'
    ||| c == '\u{2006}'
    ||| c == '\u{2007}'
    ||| c == '\u{2008}'
    ||| c == '\u{2009}'
    ||| c == '\u{200A}'
    ||| c == '\u{2028}'
    ||| c == '\u{2029}'
    ||| c == '\u{202F}'
    ||| c == '\u{205F}'
    ||| c == '\u{3000}'
}

/// Whether one character is white space.
fn char_is_blank(c: char) -> (r: bool)
    ensures
        r == blank_char(c),
{
    c == ' ' || c == '\t' || c == '\n' || c == '\u{B}' || c == '\u{C}' || c == '\r'
        || c == '\u{85}' || c == '\u{A0}' || c == '\u{1680}' || c == '\u{2000}'
        || c == '\u{2001}' || c == '\u{2002}' || c == '\u{2003}' || c == '\u{2004}'
        || c == '\u{2005}' || c == '\u{2006}' || c == '\u{2007}' || c == '\u{2008}'
        || c == '\u{2009}' || c == '\u{200A}' || c == '\u{2028}' || c == '\u{2029}'
        || c == '\u{202F}' || c == '\u{205F}' || c == '\u{3000}'
}

/// A blank line: nothing but blank characters (so in particular an empty
/// line). Blank lines separate records and are skipped.
pub open spec fn is_blank_line(s: Seq<char>) -> bool {
    forall|i: int| 0 <= i < s.len() ==> blank_char(#[trigger] s[i])
}

/// Whether serde_json accepts the line as a JSON object — a map from string
/// keys to arbitrary JSON values, which is the shape of one genesis record.
pub uninterp spec fn is_json_object(s: Seq<char>) -> bool;

/// Relies on serde_json::from_str: whether a line parses as a JSON object
/// depends on the line's characters alone.
#[verifier::external_body]
fn parses_as_json_object(line: &str) -> (r: bool)
    ensures
        r == is_json_object(line@),
{
    serde_json::from_str::<std::collections::HashMap<String, serde_json::Value>>(line).is_ok()
}

/// The records among the first `k` lines: the lines that are not blank, in
/// their original order.
pub open spec fn kept_records(lines: Seq<Seq<char>>, k: int) -> Seq<Seq<char>>
    decreases k,
{
    if k <= 0 {
        Seq::empty()
    } else {
        kept_records(lines, k - 1) + if is_blank_line(lines[k - 1]) {
            Seq::empty()
        } else {
            seq![lines[k - 1]]
        }
    }
}

/// Every record among the first `k` lines is a well-formed JSON object.
pub open spec fn records_well_formed(lines: Seq<Seq<char>>, k: int) -> bool {
    forall|i: int| 0 <= i < k && !is_blank_line(#[trigger] lines[i]) ==> is_json_object(lines[i])
}

/// Whether a line is blank.
fn line_is_blank(line: &String) -> (r: bool)
    ensures
        r == is_blank_line(line@),
{
    let s = line.as_str();
    let len = s.unicode_len();
    let mut i: usize = 0;
    while i < len
        invariant
            s@ == line@,
            len == s@.len(),
            0 <= i <= len,
            forall|j: int| 0 <= j < i ==> blank_char(#[trigger] s@[j]),
        decreases len - i,
    {
        let c = s.get_char(i);
        if !char_is_blank(c) {
            return false;
        }
        i += 1;
    }
    true
}

/// Extracts the validator transactions from the raw lines of a genesis
/// document: blank lines are dropped, every other line must be a JSON
/// object and is kept verbatim, in order. Fails with `InvalidStructure` as
/// soon as a non-blank line is not a JSON object.
pub fn transactions_from_genesis(lines: &Vec<String>) -> (r: Result<Vec<String>, LedgerError>)
    ensures
        ({
            let lvs = lines@.map_values(|l: String| l@);
            &&& (r is Ok <==> records_well_formed(lvs, lvs.len() as int))
            &&& (r matches Ok(txns) ==> txns@.map_values(|t: String| t@) == kept_records(
                lvs,
                lvs.len() as int,
            ))
            &&& (r matches Err(e) ==> e is InvalidStructure)
        }),
{
    let ghost lvs = lines@.map_values(|l: String| l@);
    let mut result: Vec<String> = Vec::new();
    let mut i: usize = 0;
    while i < lines.len()
        invariant
            lvs == lines@.map_values(|l: String| l@),
            0 <= i <= lines@.len(),
            records_well_formed(lvs, i as int),
            result@.map_values(|t: String| t@) =~= kept_records(lvs, i as int),
        decreases lines@.len() - i,
    {
        let line = &lines[i];
        proof {
            assert(lvs[i as int] == line@);
        }
        if !line_is_blank(line) {
            if !parses_as_json_object(line.as_str()) {
                return Err(LedgerError::InvalidStructure);
            }
            result.push(line.clone());
        }
        proof {
            assert(result@.map_values(|t: String| t@) =~= kept_records(lvs, i + 1));
        }
        i += 1;
    }
    Ok(result)
}

} // verus!
