//! Error taxonomy of the pool client, and the rendering of query results as
//! the text a front end shows.

use vstd::prelude::*;
use vstd::string::StringExecFns;

verus! {

/// Every failure the client core can report.
///
/// - `InvalidStructure`: malformed or insufficient validator input; fatal at
///   construction, never retried.
/// - `ConnectionError`: a specific node was unreachable; other nodes are
///   unaffected.
/// - `Timeout`: the query deadline elapsed before resolution.
/// - `NoConsensus`: every reachable node was tried and no value gathered a
///   quorum; carries the observed value/count tally for diagnostics.
/// - `Cancelled`: internal signal that abandons now-unneeded sends; never
///   surfaced to the caller of a query operation.
#[derive(Clone, PartialEq, Eq, Debug)]
pub enum LedgerError {
    InvalidStructure,
    ConnectionError,
    Timeout,
    NoConsensus(Vec<(String, usize)>),
    Cancelled,
}

impl LedgerError {
    /// A short stable label for each error kind, for front ends to render.
    pub fn label(&self) -> (r: &'static str)
        ensures
            r@ == self.label_spec(),
    {
        match self {
            LedgerError::InvalidStructure => "invalid structure",
            LedgerError::ConnectionError => "connection error",
            LedgerError::Timeout => "timeout",
            LedgerError::NoConsensus(_) => "no consensus",
            LedgerError::Cancelled => "cancelled",
        }
    }

    /// What `label` returns for each variant.
    pub open spec fn label_spec(&self) -> Seq<char> {
        match self {
            LedgerError::InvalidStructure => "invalid structure"@,
            LedgerError::ConnectionError => "connection error"@,
            LedgerError::Timeout => "timeout"@,
            LedgerError::NoConsensus(_) => "no consensus"@,
            LedgerError::Cancelled => "cancelled"@,
        }
    }
}

/// Result type of every fallible operation of this crate.
pub type LedgerResult<T> = Result<T, LedgerError>;

/// The character of one decimal digit.
pub open spec fn digit_char(d: int) -> char {
    if d == 0 {
        '0'
    } else if d == 1 {
        '1'
    } else if d == 2 {
        '2'
    } else if d == 3 {
        '3'
    } else if d == 4 {
        '4'
    } else if d == 5 {
        '5'
    } else if d == 6 {
        '6'
    } else if d == 7 {
        '7'
    } else if d == 8 {
        '8'
    } else {
        '9'
    }
}

/// The decimal text of a non-negative number.
pub open spec fn decimal_of(n: int) -> Seq<char>
    decreases n,
{
    if n < 10 {
        seq![digit_char(n)]
    } else {
        decimal_of(n / 10).push(digit_char(n % 10))
    }
}

/// One decimal digit as text.
fn digit_str(d: u64) -> (r: &'static str)
    requires
        d < 10,
    ensures
        r@ == seq![digit_char(d as int)],
{
    proof {
        reveal_strlit("0");
        reveal_strlit("1");
        reveal_strlit("2");
        reveal_strlit("3");
        reveal_strlit("4");
        reveal_strlit("5");
        reveal_strlit("6");
        reveal_strlit("7");
        reveal_strlit("8");
        reveal_strlit("9");
    }
    if d == 0 {
        "0"
    } else if d == 1 {
        "1"
    } else if d == 2 {
        "2"
    } else if d == 3 {
        "3"
    } else if d == 4 {
        "4"
    } else if d == 5 {
        "5"
    } else if d == 6 {
        "6"
    } else if d == 7 {
        "7"
    } else if d == 8 {
        "8"
    } else {
        "9"
    }
}

/// Renders a number as its decimal text.
pub fn u64_to_decimal(n: u64) -> (r: String)
    ensures
        r@ == decimal_of(n as int),
    decreases n,
{
    if n < 10 {
        digit_str(n).to_owned()
    } else {
        let mut s = u64_to_decimal(n / 10);
        s.append(digit_str(n % 10));
        proof {
            assert(s@ =~= decimal_of((n / 10) as int).push(digit_char((n % 10) as int)));
        }
        s
    }
}

/// One line of a timing record: the node and the elapsed milliseconds its
/// exchange took.
pub open spec fn timing_line(e: (usize, u64)) -> Seq<char> {
    "node "@ + decimal_of(e.0 as int) + ": "@ + decimal_of(e.1 as int) + " ms\n"@
}

/// A timing record as text: one line per contacted node, in order.
pub open spec fn timing_text(t: Seq<(usize, u64)>) -> Seq<char>
    decreases t.len(),
{
    if t.len() == 0 {
        Seq::empty()
    } else {
        timing_text(t.drop_last()) + timing_line(t.last())
    }
}

/// The text a front end shows for a query result: the successful payload,
/// a blank line and the per-node timing record, or the error's label.
pub fn format_result(result: &LedgerResult<(String, Vec<(usize, u64)>)>) -> (s: String)
    ensures
        match result {
            Ok(p) => s@ == p.0@ + "\n\n"@ + timing_text(p.1@),
            Err(e) => s@ == e.label_spec(),
        },
{
    match result {
        Ok(p) => {
            let mut s = p.0.clone();
            s.append("\n\n");
            let ghost base = s@;
            let mut i: usize = 0;
            while i < p.1.len()
                invariant
                    base == p.0@ + "\n\n"@,
                    0 <= i <= p.1@.len(),
                    s@ == base + timing_text(p.1@.take(i as int)),
                decreases p.1@.len() - i,
            {
                let entry = p.1[i];
                s.append("node ");
                let node_text = u64_to_decimal(entry.0 as u64);
                s.append(node_text.as_str());
                s.append(": ");
                let ms_text = u64_to_decimal(entry.1);
                s.append(ms_text.as_str());
                s.append(" ms\n");
                proof {
                    assert(p.1@.take(i + 1).drop_last() =~= p.1@.take(i as int));
                    assert(p.1@.take(i + 1).last() == p.1@[i as int]);
                    assert(s@ =~= base + timing_text(p.1@.take(i + 1)));
                }
                i += 1;
            }
            proof {
                assert(p.1@.take(p.1@.len() as int) =~= p.1@);
            }
            s
        }
        Err(e) => e.label().to_owned(),
    }
}

} // verus!
