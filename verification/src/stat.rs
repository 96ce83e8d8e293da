//! The `/proc/stat` data model and record parsers.
//!
//! A CPU line is a `cpu`-prefixed label followed by seven mandatory and up
//! to three optional decimal counters.  The whole record is the aggregate
//! CPU line, any number of per-CPU lines, one ignored line, and five
//! single-value lines in fixed order.  The spec functions in this module
//! define the grammar exactly; the exec parsers are proved against them.

use vstd::prelude::*;

use crate::error::{label_seq, CpuField, LineLabel, ParseError};
use crate::util::{
    after_line, find_line_end, lemma_line_end_bounds, line_end, parse_token, parse_u64, range_eq,
    skip_ws, spec_token, spec_u64,
};

verus! {

/// Units spent in each CPU context since boot, for one CPU or for the
/// aggregate line.  The three trailing counters are absent on kernels that
/// do not emit them; `None` is distinguishable from an explicit zero.
#[derive(Debug, Copy, Clone, Eq, PartialEq, Ord, PartialOrd, Hash)]
pub struct StatCpu {
    pub user: u64,
    pub nice: u64,
    pub system: u64,
    pub idle: u64,
    pub iowait: u64,
    pub irq: u64,
    pub softirq: u64,
    pub steal: Option<u64>,
    pub guest: Option<u64>,
    pub guest_nice: Option<u64>,
}

/// The bytes `cpu`, the mandatory prefix of every CPU line's label.
pub open spec fn cpu_prefix() -> Seq<u8> {
    seq!['c' as u8, 'p' as u8, 'u' as u8]
}

/// Read `k` numbers in sequence starting at `i`: their values and the
/// position just past the last one, or `None` if any of them is missing.
pub open spec fn spec_u64s(s: Seq<u8>, i: int, k: nat) -> Option<(Seq<u64>, int)>
    decreases k,
{
    if k == 0 {
        Some((Seq::<u64>::empty(), i))
    } else {
        match spec_u64(s, i) {
            None => None,
            Some((v, j)) => match spec_u64s(s, j, (k - 1) as nat) {
                None => None,
                Some((vs, e)) => Some((seq![v] + vs, e)),
            },
        }
    }
}

/// The line's first token exists and begins with `cpu`.
pub open spec fn cpu_label_ok(line: Seq<u8>) -> bool {
    match spec_token(line, 0) {
        None => false,
        Some((ts, te)) => te - ts >= 3 && line.subrange(ts, ts + 3) == cpu_prefix(),
    }
}

/// A CPU line parses: `cpu`-prefixed label, then seven numbers.  Content
/// after the recognized fields is deliberately not rejected.
pub open spec fn cpu_ok(line: Seq<u8>) -> bool {
    &&& spec_token(line, 0) is Some
    &&& cpu_label_ok(line)
    &&& spec_u64s(line, (spec_token(line, 0)->0).1, 7) is Some
}

/// The optional `steal`, `guest` and `guest_nice` counters, attempted in
/// order from position `i`; the first absent one ends the attempts.
pub open spec fn spec_cpu_opts(line: Seq<u8>, i: int) -> (Option<u64>, Option<u64>, Option<u64>) {
    match spec_u64(line, i) {
        None => (None, None, None),
        Some((s1, j)) => match spec_u64(line, j) {
            None => (Some(s1), None, None),
            Some((g, k)) => match spec_u64(line, k) {
                None => (Some(s1), Some(g), None),
                Some((gn, _)) => (Some(s1), Some(g), Some(gn)),
            },
        },
    }
}

/// The record a valid CPU line denotes.
pub open spec fn spec_cpu(line: Seq<u8>) -> StatCpu
    recommends
        cpu_ok(line),
{
    let (vs, p7) = spec_u64s(line, (spec_token(line, 0)->0).1, 7)->0;
    let o = spec_cpu_opts(line, p7);
    StatCpu {
        user: vs[0],
        nice: vs[1],
        system: vs[2],
        idle: vs[3],
        iowait: vs[4],
        irq: vs[5],
        softirq: vs[6],
        steal: o.0,
        guest: o.1,
        guest_nice: o.2,
    }
}

/// The mandatory CPU counter at position `k` of the line.
pub open spec fn field_of(k: int) -> CpuField {
    if k == 0 {
        CpuField::User
    } else if k == 1 {
        CpuField::Nice
    } else if k == 2 {
        CpuField::System
    } else if k == 3 {
        CpuField::Idle
    } else if k == 4 {
        CpuField::Iowait
    } else if k == 5 {
        CpuField::Irq
    } else {
        CpuField::Softirq
    }
}

/// With `k` mandatory counters already read and the cursor at `i`, the
/// error a CPU line produces is a `MissingField` naming the first counter
/// that fails to parse.
pub open spec fn cpu_field_err_is(line: Seq<u8>, i: int, k: int, e: ParseError) -> bool
    decreases 7 - k when k <= 7
{
    if k >= 7 {
        false
    } else {
        match spec_u64(line, i) {
            None => e matches ParseError::MissingField { field } && field == field_of(k),
            Some((v, j)) => cpu_field_err_is(line, j, k + 1, e),
        }
    }
}

/// The exact error an invalid CPU line produces.
pub open spec fn cpu_err_is(line: Seq<u8>, e: ParseError) -> bool {
    match spec_token(line, 0) {
        None => e matches ParseError::MissingToken,
        Some((ts, te)) => if !cpu_label_ok(line) {
            e matches ParseError::BadCpuLabel { actual } && actual@ == line.subrange(ts, te)
        } else {
            cpu_field_err_is(line, te, 0, e)
        },
    }
}

impl StatCpu {
    /// Sum of all present counters, as a mathematical integer.
    pub open spec fn total_spec(&self) -> int {
        self.user + self.nice + self.system + self.idle + self.iowait + self.irq + self.softirq
            + opt_or_zero(self.steal) + opt_or_zero(self.guest) + opt_or_zero(self.guest_nice)
    }

    /// Sum of all present counters; absent optional counters contribute
    /// zero.  `None` exactly when the sum overflows `u64`: the sum is never
    /// silently wrapped.
    pub fn checked_total(&self) -> (r: Option<u64>)
        ensures
            r is Some <==> self.total_spec() <= u64::MAX,
            r is Some ==> r->0 == self.total_spec(),
    {
        let steal: u64 = match self.steal {
            Some(v) => v,
            None => 0,
        };
        let guest: u64 = match self.guest {
            Some(v) => v,
            None => 0,
        };
        let guest_nice: u64 = match self.guest_nice {
            Some(v) => v,
            None => 0,
        };
        let a = match self.user.checked_add(self.nice) {
            Some(a) => a,
            None => {
                return None;
            },
        };
        let a = match a.checked_add(self.system) {
            Some(a) => a,
            None => {
                return None;
            },
        };
        let a = match a.checked_add(self.idle) {
            Some(a) => a,
            None => {
                return None;
            },
        };
        let a = match a.checked_add(self.iowait) {
            Some(a) => a,
            None => {
                return None;
            },
        };
        let a = match a.checked_add(self.irq) {
            Some(a) => a,
            None => {
                return None;
            },
        };
        let a = match a.checked_add(self.softirq) {
            Some(a) => a,
            None => {
                return None;
            },
        };
        let a = match a.checked_add(steal) {
            Some(a) => a,
            None => {
                return None;
            },
        };
        let a = match a.checked_add(guest) {
            Some(a) => a,
            None => {
                return None;
            },
        };
        let a = match a.checked_add(guest_nice) {
            Some(a) => a,
            None => {
                return None;
            },
        };
        Some(a)
    }

    /// Sum of all present counters.  The caller must know the sum fits in
    /// `u64`; [`Self::checked_total`] reports overflow as `None` instead.
    pub fn total(&self) -> (r: u64)
        requires
            self.total_spec() <= u64::MAX,
        ensures
            r == self.total_spec(),
    {
        self.checked_total().unwrap()
    }

    /// Parse one CPU line: a `cpu`-prefixed label, seven mandatory counters
    /// (a missing one is an error naming it), then up to three optional
    /// counters.  Unrecognized trailing columns are ignored so that newer
    /// kernel formats still parse.
    #[verifier::loop_isolation(false)]
    pub fn from_str(line: &[u8]) -> (r: Result<StatCpu, ParseError>)
        ensures
            r is Ok <==> cpu_ok(line@),
            r is Ok ==> r->Ok_0 == spec_cpu(line@),
            r is Err ==> cpu_err_is(line@, r->Err_0),
    {
        let (ts, te) = match parse_token(line, 0) {
            Some(t) => t,
            None => {
                return Err(ParseError::MissingToken);
            },
        };
        let prefix_ok = if te - ts < 3 {
            false
        } else {
            let mut pre: Vec<u8> = Vec::new();
            pre.push('c' as u8);
            pre.push('p' as u8);
            pre.push('u' as u8);
            proof {
                assert(pre@ =~= cpu_prefix());
            }
            range_eq(line, ts, ts + 3, &pre)
        };
        if !prefix_ok {
            assert(!cpu_label_ok(line@));
            let actual = vstd::slice::slice_to_vec(vstd::slice::slice_subrange(line, ts, te));
            return Err(ParseError::BadCpuLabel { actual });
        }
        assert(cpu_label_ok(line@));
        let mut vals: Vec<u64> = Vec::new();
        let mut pos: usize = te;
        let mut k: usize = 0;
        while k < 7
            invariant
                0 <= k <= 7,
                pos <= line@.len(),
                vals@.len() == k,
                spec_u64s(line@, pos as int, (7 - k) as nat) is Some ==> spec_u64s(
                    line@,
                    te as int,
                    7,
                ) == Some(
                    (
                        vals@ + (spec_u64s(line@, pos as int, (7 - k) as nat)->0).0,
                        (spec_u64s(line@, pos as int, (7 - k) as nat)->0).1,
                    ),
                ),
                spec_u64s(line@, pos as int, (7 - k) as nat) is None ==> spec_u64s(
                    line@,
                    te as int,
                    7,
                ) is None,
                forall|e: ParseError|
                    cpu_field_err_is(line@, te as int, 0, e) == cpu_field_err_is(
                        line@,
                        pos as int,
                        k as int,
                        e,
                    ),
            decreases 7 - k,
        {
            match parse_u64(line, pos) {
                Some((v, np)) => {
                    proof {
                        let n = (7 - k) as nat;
                        assert(spec_u64s(line@, pos as int, n) == (match spec_u64s(
                            line@,
                            np as int,
                            (n - 1) as nat,
                        ) {
                            None => None::<(Seq<u64>, int)>,
                            Some((vs, e)) => Some((seq![v] + vs, e)),
                        }));
                        if spec_u64s(line@, np as int, (7 - (k + 1)) as nat) is Some {
                            assert(vals@ + (seq![v] + (spec_u64s(
                                line@,
                                np as int,
                                (7 - (k + 1)) as nat,
                            )->0).0) =~= vals@.push(v) + (spec_u64s(
                                line@,
                                np as int,
                                (7 - (k + 1)) as nat,
                            )->0).0);
                        }
                        assert(forall|e: ParseError|
                            cpu_field_err_is(line@, pos as int, k as int, e) == cpu_field_err_is(
                                line@,
                                np as int,
                                k + 1,
                                e,
                            ));
                    }
                    vals.push(v);
                    pos = np;
                    k = k + 1;
                },
                None => {
                    let field = if k == 0 {
                        CpuField::User
                    } else if k == 1 {
                        CpuField::Nice
                    } else if k == 2 {
                        CpuField::System
                    } else if k == 3 {
                        CpuField::Idle
                    } else if k == 4 {
                        CpuField::Iowait
                    } else if k == 5 {
                        CpuField::Irq
                    } else {
                        CpuField::Softirq
                    };
                    proof {
                        assert(spec_u64s(line@, pos as int, (7 - k) as nat) is None);
                        assert(cpu_field_err_is(
                            line@,
                            pos as int,
                            k as int,
                            ParseError::MissingField { field },
                        ));
                    }
                    return Err(ParseError::MissingField { field });
                },
            }
        }
        proof {
            assert(spec_u64s(line@, pos as int, 0) == Some((Seq::<u64>::empty(), pos as int)));
            assert(vals@ + Seq::<u64>::empty() =~= vals@);
            assert(spec_u64s(line@, te as int, 7) == Some((vals@, pos as int)));
        }
        let opts: (Option<u64>, Option<u64>, Option<u64>) = match parse_u64(line, pos) {
            None => (None, None, None),
            Some((s1, j)) => match parse_u64(line, j) {
                None => (Some(s1), None, None),
                Some((g, k2)) => match parse_u64(line, k2) {
                    None => (Some(s1), Some(g), None),
                    Some((gn, _)) => (Some(s1), Some(g), Some(gn)),
                },
            },
        };
        assert(opts == spec_cpu_opts(line@, pos as int));
        let r = StatCpu {
            user: *vals.get(0).unwrap(),
            nice: *vals.get(1).unwrap(),
            system: *vals.get(2).unwrap(),
            idle: *vals.get(3).unwrap(),
            iowait: *vals.get(4).unwrap(),
            irq: *vals.get(5).unwrap(),
            softirq: *vals.get(6).unwrap(),
            steal: opts.0,
            guest: opts.1,
            guest_nice: opts.2,
        };
        assert(r == spec_cpu(line@));
        Ok(r)
    }
}

/// `Some(v)` counts as `v`, `None` as zero.
pub open spec fn opt_or_zero(o: Option<u64>) -> int {
    match o {
        Some(v) => v as int,
        None => 0,
    }
}

/// A single-value line parses: exactly the expected label, one number, and
/// nothing but whitespace after it.
pub open spec fn labeled_ok(line: Seq<u8>, label: Seq<u8>) -> bool {
    match spec_token(line, 0) {
        None => false,
        Some((ts, te)) => {
            &&& line.subrange(ts, te) == label
            &&& spec_u64(line, te) is Some
            &&& skip_ws(line, (spec_u64(line, te)->0).1) == line.len()
        },
    }
}

/// The number a valid single-value line carries.
pub open spec fn labeled_val(line: Seq<u8>) -> u64
    recommends
        spec_token(line, 0) is Some,
{
    (spec_u64(line, (spec_token(line, 0)->0).1)->0).0
}

/// The exact error an invalid single-value line produces: a missing token,
/// a label mismatch naming both labels, a missing value, or trailing
/// non-whitespace content.
pub open spec fn labeled_err_is(line: Seq<u8>, label: Seq<u8>, e: ParseError) -> bool {
    match spec_token(line, 0) {
        None => e matches ParseError::MissingToken,
        Some((ts, te)) => if line.subrange(ts, te) != label {
            e matches ParseError::LabelMismatch { expected, actual } && expected@ == label
                && actual@ == line.subrange(ts, te)
        } else if spec_u64(line, te) is None {
            e matches ParseError::MissingValue { label: l } && l@ == label
        } else if skip_ws(line, (spec_u64(line, te)->0).1) != line.len() {
            e matches ParseError::TrailingContent { label: l } && l@ == label
        } else {
            false
        },
    }
}

/// Parse a single-value line: the expected label, one number, and no
/// trailing non-whitespace content.
pub fn parse_single(line: &[u8], label: LineLabel) -> (r: Result<u64, ParseError>)
    ensures
        r is Ok <==> labeled_ok(line@, label_seq(label)),
        r is Ok ==> r->Ok_0 == labeled_val(line@),
        r is Err ==> labeled_err_is(line@, label_seq(label), r->Err_0),
{
    let lbl = crate::error::label_bytes(label);
    let (ts, te) = match parse_token(line, 0) {
        Some(t) => t,
        None => {
            return Err(ParseError::MissingToken);
        },
    };
    if !range_eq(line, ts, te, &lbl) {
        let actual = vstd::slice::slice_to_vec(vstd::slice::slice_subrange(line, ts, te));
        return Err(ParseError::LabelMismatch { expected: lbl, actual });
    }
    let (v, vp) = match parse_u64(line, te) {
        Some(p) => p,
        None => {
            return Err(ParseError::MissingValue { label: lbl });
        },
    };
    let rest = crate::util::consume_space(line, vp);
    if rest != line.len() {
        return Err(ParseError::TrailingContent { label: lbl });
    }
    Ok(v)
}

/// The full `/proc/stat` record: one snapshot, parsed in a single pass and
/// immutable afterwards.
#[derive(Debug, Clone, Eq, PartialEq, Ord, PartialOrd, Hash)]
pub struct Stat {
    /// Total stats, the aggregate of all CPUs (the line labelled `cpu`).
    pub cpu_totals: StatCpu,
    /// Per-CPU stats, in the order the `cpu<N>` lines appear.
    pub cpus: Vec<StatCpu>,
    /// Number of context switches since the system booted.
    pub context_switches: u64,
    /// Timestamp (in seconds since epoch) that the system booted.
    pub boot_time: u64,
    /// Total number of processes and threads created since boot.
    pub processes: u64,
    /// Number of processes currently running on a CPU.
    pub procs_running: u64,
    /// Number of processes currently waiting to run.
    pub procs_blocked: u64,
}

/// The text of the line that starts at position `i`.
pub open spec fn line_at(s: Seq<u8>, i: int) -> Seq<u8>
    recommends
        0 <= i <= s.len(),
{
    s.subrange(i, line_end(s, i))
}

/// Position just past the run of consecutive valid CPU lines starting at
/// `i`: the start of the first line that is not a CPU line.
pub open spec fn cpu_block_end(s: Seq<u8>, i: int) -> int
    recommends
        0 <= i <= s.len(),
    decreases s.len() - i when 0 <= i <= s.len() via cpu_block_end_dec
{
    if i < s.len() && cpu_ok(line_at(s, i)) {
        cpu_block_end(s, after_line(s, i))
    } else {
        i
    }
}

#[via_fn]
proof fn cpu_block_end_dec(s: Seq<u8>, i: int) {
    lemma_line_end_bounds(s, i);
}

/// The records of the run of consecutive valid CPU lines starting at `i`.
pub open spec fn cpu_block_seq(s: Seq<u8>, i: int) -> Seq<StatCpu>
    recommends
        0 <= i <= s.len(),
    decreases s.len() - i when 0 <= i <= s.len() via cpu_block_seq_dec
{
    if i < s.len() && cpu_ok(line_at(s, i)) {
        seq![spec_cpu(line_at(s, i))] + cpu_block_seq(s, after_line(s, i))
    } else {
        Seq::<StatCpu>::empty()
    }
}

#[via_fn]
proof fn cpu_block_seq_dec(s: Seq<u8>, i: int) {
    lemma_line_end_bounds(s, i);
}

/// Start of the per-CPU block: just after the aggregate line.
pub open spec fn pos_cpus(s: Seq<u8>) -> int {
    after_line(s, 0)
}

/// Start of the ignored line: just after the per-CPU block.
pub open spec fn pos_ignored(s: Seq<u8>) -> int {
    cpu_block_end(s, pos_cpus(s))
}

/// Start of the `ctxt` line.
pub open spec fn pos_ctxt(s: Seq<u8>) -> int {
    after_line(s, pos_ignored(s))
}

/// Start of the `btime` line.
pub open spec fn pos_btime(s: Seq<u8>) -> int {
    after_line(s, pos_ctxt(s))
}

/// Start of the `processes` line.
pub open spec fn pos_processes(s: Seq<u8>) -> int {
    after_line(s, pos_btime(s))
}

/// Start of the `procs_running` line.
pub open spec fn pos_procs_running(s: Seq<u8>) -> int {
    after_line(s, pos_processes(s))
}

/// Start of the `procs_blocked` line.
pub open spec fn pos_procs_blocked(s: Seq<u8>) -> int {
    after_line(s, pos_procs_running(s))
}

/// The whole stream parses: a valid aggregate CPU line, any number of
/// per-CPU lines, an ignored line, and the five single-value lines in
/// order.  Anything after the `procs_blocked` line is never read.
pub open spec fn stat_ok(s: Seq<u8>) -> bool {
    &&& s.len() > 0
    &&& cpu_ok(line_at(s, 0))
    &&& pos_ignored(s) < s.len()
    &&& pos_ctxt(s) < s.len()
    &&& labeled_ok(line_at(s, pos_ctxt(s)), label_seq(LineLabel::Ctxt))
    &&& pos_btime(s) < s.len()
    &&& labeled_ok(line_at(s, pos_btime(s)), label_seq(LineLabel::Btime))
    &&& pos_processes(s) < s.len()
    &&& labeled_ok(line_at(s, pos_processes(s)), label_seq(LineLabel::Processes))
    &&& pos_procs_running(s) < s.len()
    &&& labeled_ok(line_at(s, pos_procs_running(s)), label_seq(LineLabel::ProcsRunning))
    &&& pos_procs_blocked(s) < s.len()
    &&& labeled_ok(line_at(s, pos_procs_blocked(s)), label_seq(LineLabel::ProcsBlocked))
}

/// The aggregate counters a valid stream denotes.
pub open spec fn stat_cpu_totals(s: Seq<u8>) -> StatCpu {
    spec_cpu(line_at(s, 0))
}

/// The per-CPU records a valid stream denotes, in source order.
pub open spec fn stat_cpus(s: Seq<u8>) -> Seq<StatCpu> {
    cpu_block_seq(s, pos_cpus(s))
}

/// The exact error an invalid stream produces: the first failure in the
/// fixed line sequence, with a missing mandatory line reported as an
/// unexpected end of input.
pub open spec fn stat_err_is(s: Seq<u8>, e: ParseError) -> bool {
    if s.len() == 0 {
        e matches ParseError::UnexpectedEof
    } else if !cpu_ok(line_at(s, 0)) {
        cpu_err_is(line_at(s, 0), e)
    } else if pos_ignored(s) >= s.len() {
        e matches ParseError::UnexpectedEof
    } else if pos_ctxt(s) >= s.len() {
        e matches ParseError::UnexpectedEof
    } else if !labeled_ok(line_at(s, pos_ctxt(s)), label_seq(LineLabel::Ctxt)) {
        labeled_err_is(line_at(s, pos_ctxt(s)), label_seq(LineLabel::Ctxt), e)
    } else if pos_btime(s) >= s.len() {
        e matches ParseError::UnexpectedEof
    } else if !labeled_ok(line_at(s, pos_btime(s)), label_seq(LineLabel::Btime)) {
        labeled_err_is(line_at(s, pos_btime(s)), label_seq(LineLabel::Btime), e)
    } else if pos_processes(s) >= s.len() {
        e matches ParseError::UnexpectedEof
    } else if !labeled_ok(line_at(s, pos_processes(s)), label_seq(LineLabel::Processes)) {
        labeled_err_is(line_at(s, pos_processes(s)), label_seq(LineLabel::Processes), e)
    } else if pos_procs_running(s) >= s.len() {
        e matches ParseError::UnexpectedEof
    } else if !labeled_ok(line_at(s, pos_procs_running(s)), label_seq(LineLabel::ProcsRunning)) {
        labeled_err_is(line_at(s, pos_procs_running(s)), label_seq(LineLabel::ProcsRunning), e)
    } else if pos_procs_blocked(s) >= s.len() {
        e matches ParseError::UnexpectedEof
    } else if !labeled_ok(line_at(s, pos_procs_blocked(s)), label_seq(LineLabel::ProcsBlocked)) {
        labeled_err_is(line_at(s, pos_procs_blocked(s)), label_seq(LineLabel::ProcsBlocked), e)
    } else {
        false
    }
}

impl Stat {
    /// Parse one snapshot of `/proc/stat` from its bytes.
    ///
    /// The result is `Ok` exactly when the stream conforms to the grammar;
    /// otherwise it is the first error encountered, and no partial record
    /// is returned.  Content after the `procs_blocked` line is never read.
    #[verifier::loop_isolation(false)]
    pub fn from_reader(input: &[u8]) -> (r: Result<Stat, ParseError>)
        ensures
            r is Ok <==> stat_ok(input@),
            r is Ok ==> {
                let t = r->Ok_0;
                &&& t.cpu_totals == stat_cpu_totals(input@)
                &&& t.cpus@ == stat_cpus(input@)
                &&& t.context_switches == labeled_val(line_at(input@, pos_ctxt(input@)))
                &&& t.boot_time == labeled_val(line_at(input@, pos_btime(input@)))
                &&& t.processes == labeled_val(line_at(input@, pos_processes(input@)))
                &&& t.procs_running == labeled_val(line_at(input@, pos_procs_running(input@)))
                &&& t.procs_blocked == labeled_val(line_at(input@, pos_procs_blocked(input@)))
            },
            r is Err ==> stat_err_is(input@, r->Err_0),
    {
        let n = input.len();
        if n == 0 {
            return Err(ParseError::UnexpectedEof);
        }
        proof {
            lemma_line_end_bounds(input@, 0);
        }
        let le0 = find_line_end(input, 0);
        let line0 = vstd::slice::slice_subrange(input, 0, le0);
        let cpu_totals = match StatCpu::from_str(line0) {
            Ok(c) => c,
            Err(e) => {
                return Err(e);
            },
        };
        let mut pos: usize = if le0 < n {
            le0 + 1
        } else {
            le0
        };
        assert(pos == pos_cpus(input@));
        let ghost i1 = pos as int;
        let mut cpus: Vec<StatCpu> = Vec::new();
        let mut done: bool = false;
        while !done
            invariant
                i1 <= pos <= n,
                cpu_block_end(input@, i1) == cpu_block_end(input@, pos as int),
                cpu_block_seq(input@, i1) == cpus@ + cpu_block_seq(input@, pos as int),
                done ==> cpu_block_end(input@, i1) == pos as int,
                done ==> cpu_block_seq(input@, i1) == cpus@,
            decreases n - pos + (if done { 0int } else { 1int }),
        {
            if pos >= n {
                proof {
                    assert(cpu_block_end(input@, pos as int) == pos as int);
                    assert(cpu_block_seq(input@, pos as int) =~= Seq::<StatCpu>::empty());
                    assert(cpus@ + Seq::<StatCpu>::empty() =~= cpus@);
                }
                done = true;
            } else {
                proof {
                    lemma_line_end_bounds(input@, pos as int);
                }
                let le = find_line_end(input, pos);
                let lineb = vstd::slice::slice_subrange(input, pos, le);
                match StatCpu::from_str(lineb) {
                    Ok(c) => {
                        proof {
                            assert(cpu_ok(line_at(input@, pos as int)));
                            assert(cpu_block_seq(input@, pos as int) == seq![
                                spec_cpu(line_at(input@, pos as int)),
                            ] + cpu_block_seq(input@, after_line(input@, pos as int)));
                            assert(cpu_block_end(input@, pos as int) == cpu_block_end(
                                input@,
                                after_line(input@, pos as int),
                            ));
                            assert(cpus@ + (seq![c] + cpu_block_seq(
                                input@,
                                after_line(input@, pos as int),
                            )) =~= cpus@.push(c) + cpu_block_seq(
                                input@,
                                after_line(input@, pos as int),
                            ));
                        }
                        cpus.push(c);
                        pos = if le < n {
                            le + 1
                        } else {
                            le
                        };
                    },
                    Err(_) => {
                        proof {
                            assert(!cpu_ok(line_at(input@, pos as int)));
                            assert(cpu_block_end(input@, pos as int) == pos as int);
                            assert(cpu_block_seq(input@, pos as int) =~= Seq::<StatCpu>::empty());
                            assert(cpus@ + Seq::<StatCpu>::empty() =~= cpus@);
                        }
                        done = true;
                    },
                }
            }
        }
        assert(pos == pos_ignored(input@));
        if pos >= n {
            return Err(ParseError::UnexpectedEof);
        }
        proof {
            lemma_line_end_bounds(input@, pos as int);
        }
        let le = find_line_end(input, pos);
        pos = if le < n {
            le + 1
        } else {
            le
        };
        assert(pos == pos_ctxt(input@));
        if pos >= n {
            return Err(ParseError::UnexpectedEof);
        }
        proof {
            lemma_line_end_bounds(input@, pos as int);
        }
        let le = find_line_end(input, pos);
        let context_switches = match parse_single(
            vstd::slice::slice_subrange(input, pos, le),
            LineLabel::Ctxt,
        ) {
            Ok(v) => v,
            Err(e) => {
                return Err(e);
            },
        };
        pos = if le < n {
            le + 1
        } else {
            le
        };
        assert(pos == pos_btime(input@));
        if pos >= n {
            return Err(ParseError::UnexpectedEof);
        }
        proof {
            lemma_line_end_bounds(input@, pos as int);
        }
        let le = find_line_end(input, pos);
        let boot_time = match parse_single(
            vstd::slice::slice_subrange(input, pos, le),
            LineLabel::Btime,
        ) {
            Ok(v) => v,
            Err(e) => {
                return Err(e);
            },
        };
        pos = if le < n {
            le + 1
        } else {
            le
        };
        assert(pos == pos_processes(input@));
        if pos >= n {
            return Err(ParseError::UnexpectedEof);
        }
        proof {
            lemma_line_end_bounds(input@, pos as int);
        }
        let le = find_line_end(input, pos);
        let processes = match parse_single(
            vstd::slice::slice_subrange(input, pos, le),
            LineLabel::Processes,
        ) {
            Ok(v) => v,
            Err(e) => {
                return Err(e);
            },
        };
        pos = if le < n {
            le + 1
        } else {
            le
        };
        assert(pos == pos_procs_running(input@));
        if pos >= n {
            return Err(ParseError::UnexpectedEof);
        }
        proof {
            lemma_line_end_bounds(input@, pos as int);
        }
        let le = find_line_end(input, pos);
        let procs_running = match parse_single(
            vstd::slice::slice_subrange(input, pos, le),
            LineLabel::ProcsRunning,
        ) {
            Ok(v) => v,
            Err(e) => {
                return Err(e);
            },
        };
        pos = if le < n {
            le + 1
        } else {
            le
        };
        assert(pos == pos_procs_blocked(input@));
        if pos >= n {
            return Err(ParseError::UnexpectedEof);
        }
        proof {
            lemma_line_end_bounds(input@, pos as int);
        }
        let le = find_line_end(input, pos);
        let procs_blocked = match parse_single(
            vstd::slice::slice_subrange(input, pos, le),
            LineLabel::ProcsBlocked,
        ) {
            Ok(v) => v,
            Err(e) => {
                return Err(e);
            },
        };
        Ok(
            Stat {
                cpu_totals,
                cpus,
                context_switches,
                boot_time,
                processes,
                procs_running,
                procs_blocked,
            },
        )
    }
}

} // verus!
