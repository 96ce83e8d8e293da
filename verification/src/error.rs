//! Typed parse errors.
//!
//! Every deviation from the `/proc/stat` grammar is reported through
//! [`ParseError`].  Each variant names what failed and carries the labels or
//! field involved, so a caller can see what was expected and what was found.

use vstd::prelude::*;

verus! {

/// One of the seven mandatory per-CPU counters, named so that an error can
/// say exactly which column was missing.
#[derive(Debug, Clone, Copy, PartialEq, Eq)]
pub enum CpuField {
    User,
    Nice,
    System,
    Idle,
    Iowait,
    Irq,
    Softirq,
}

/// Why a parse failed.  The whole parse stops at the first error; no partial
/// record is ever returned.
#[derive(Debug, Clone, PartialEq, Eq)]
pub enum ParseError {
    /// The stream ended before a mandatory line was read.
    UnexpectedEof,
    /// A line that must start with a token held only whitespace.
    MissingToken,
    /// The leading token of a CPU line did not begin with `cpu`.
    /// Carries the token that was found.
    BadCpuLabel { actual: Vec<u8> },
    /// One of the seven mandatory CPU counters was absent or malformed.
    MissingField { field: CpuField },
    /// A single-value line carried the wrong label; both the expected and
    /// the actual label are reported.
    LabelMismatch { expected: Vec<u8>, actual: Vec<u8> },
    /// A single-value line had no number after its label.
    MissingValue { label: Vec<u8> },
    /// A single-value line held non-whitespace content after its number.
    TrailingContent { label: Vec<u8> },
}

/// The label of one of the five mandatory single-value lines.
#[derive(Debug, Clone, Copy, PartialEq, Eq)]
pub enum LineLabel {
    Ctxt,
    Btime,
    Processes,
    ProcsRunning,
    ProcsBlocked,
}

/// The exact bytes of a single-value line's label.
pub open spec fn label_seq(l: LineLabel) -> Seq<u8> {
    match l {
        LineLabel::Ctxt => seq!['c' as u8, 't' as u8, 'x' as u8, 't' as u8],
        LineLabel::Btime => seq!['b' as u8, 't' as u8, 'i' as u8, 'm' as u8, 'e' as u8],
        LineLabel::Processes => seq![
            'p' as u8,
            'r' as u8,
            'o' as u8,
            'c' as u8,
            'e' as u8,
            's' as u8,
            's' as u8,
            'e' as u8,
            's' as u8,
        ],
        LineLabel::ProcsRunning => seq![
            'p' as u8,
            'r' as u8,
            'o' as u8,
            'c' as u8,
            's' as u8,
            '_' as u8,
            'r' as u8,
            'u' as u8,
            'n' as u8,
            'n' as u8,
            'i' as u8,
            'n' as u8,
            'g' as u8,
        ],
        LineLabel::ProcsBlocked => seq![
            'p' as u8,
            'r' as u8,
            'o' as u8,
            'c' as u8,
            's' as u8,
            '_' as u8,
            'b' as u8,
            'l' as u8,
            'o' as u8,
            'c' as u8,
            'k' as u8,
            'e' as u8,
            'd' as u8,
        ],
    }
}

/// Build the label's bytes for comparisons and error payloads.
pub fn label_bytes(l: LineLabel) -> (v: Vec<u8>)
    ensures
        v@ == label_seq(l),
{
    let mut v: Vec<u8> = Vec::new();
    match l {
        LineLabel::Ctxt => {
            v.push('c' as u8);
            v.push('t' as u8);
            v.push('x' as u8);
            v.push('t' as u8);
        },
        LineLabel::Btime => {
            v.push('b' as u8);
            v.push('t' as u8);
            v.push('i' as u8);
            v.push('m' as u8);
            v.push('e' as u8);
        },
        LineLabel::Processes => {
            v.push('p' as u8);
            v.push('r' as u8);
            v.push('o' as u8);
            v.push('c' as u8);
            v.push('e' as u8);
            v.push('s' as u8);
            v.push('s' as u8);
            v.push('e' as u8);
            v.push('s' as u8);
        },
        LineLabel::ProcsRunning => {
            v.push('p' as u8);
            v.push('r' as u8);
            v.push('o' as u8);
            v.push('c' as u8);
            v.push('s' as u8);
            v.push('_' as u8);
            v.push('r' as u8);
            v.push('u' as u8);
            v.push('n' as u8);
            v.push('n' as u8);
            v.push('i' as u8);
            v.push('n' as u8);
            v.push('g' as u8);
        },
        LineLabel::ProcsBlocked => {
            v.push('p' as u8);
            v.push('r' as u8);
            v.push('o' as u8);
            v.push('c' as u8);
            v.push('s' as u8);
            v.push('_' as u8);
            v.push('b' as u8);
            v.push('l' as u8);
            v.push('o' as u8);
            v.push('c' as u8);
            v.push('k' as u8);
            v.push('e' as u8);
            v.push('d' as u8);
        },
    }
    proof {
        assert(v@ =~= label_seq(l));
    }
    v
}

} // verus!
