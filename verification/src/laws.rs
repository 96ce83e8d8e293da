//! Properties of the parser, stated and proved over the grammar spec
//! functions that the exec parsers' contracts use.
//!
//! The lemmas about assembled inputs build a stream out of its lines
//! ([`join_from`]) and a line out of its label and digit runs
//! ([`cat_nums`]), and show what the parser returns for every such stream.

use vstd::prelude::*;

use crate::error::{label_seq, LineLabel, ParseError};
use crate::stat::{
    cpu_block_end, cpu_block_seq, cpu_ok, cpu_prefix, labeled_err_is, labeled_ok, line_at,
    pos_btime, pos_cpus, pos_ctxt, pos_ignored, pos_procs_blocked, pos_procs_running,
    pos_processes, spec_cpu, spec_cpu_opts, spec_u64s, stat_cpu_totals, stat_cpus, stat_err_is,
    stat_ok, StatCpu,
};
use crate::util::{
    after_line, digits_val, is_digit, is_space, lemma_digits_val_shift, lemma_line_end_exact,
    lemma_spec_token_at, lemma_spec_u64_at, line_end, skip_ws, spec_token, spec_u64,
};

verus! {

/// A label mismatch on a single-value line produces an error that names
/// both the expected and the actual label.
pub proof fn lemma_label_mismatch(line: Seq<u8>, label: Seq<u8>, e: ParseError)
    requires
        spec_token(line, 0) is Some,
        line.subrange((spec_token(line, 0)->0).0, (spec_token(line, 0)->0).1) != label,
        labeled_err_is(line, label, e),
    ensures
        e matches ParseError::LabelMismatch { expected, actual } && expected@ == label && actual@
            == line.subrange((spec_token(line, 0)->0).0, (spec_token(line, 0)->0).1),
        !labeled_ok(line, label),
{
}

/// Trailing non-whitespace content after the value on a single-value line
/// is rejected, and reported as such.
pub proof fn lemma_trailing_content(line: Seq<u8>, label: Seq<u8>, e: ParseError)
    requires
        spec_token(line, 0) is Some,
        line.subrange((spec_token(line, 0)->0).0, (spec_token(line, 0)->0).1) == label,
        spec_u64(line, (spec_token(line, 0)->0).1) is Some,
        skip_ws(line, (spec_u64(line, (spec_token(line, 0)->0).1)->0).1) != line.len(),
        labeled_err_is(line, label, e),
    ensures
        e matches ParseError::TrailingContent { label: l } && l@ == label,
        !labeled_ok(line, label),
{
}

/// A nonempty run of spaces and tabs, fit to separate two fields.
pub open spec fn all_spaces(sep: Seq<u8>) -> bool {
    sep.len() > 0 && forall|k: int| 0 <= k < sep.len() ==> is_space(sep[k])
}

/// A nonempty run of decimal digits.
pub open spec fn all_digits(d: Seq<u8>) -> bool {
    d.len() > 0 && forall|k: int| 0 <= k < d.len() ==> is_digit(d[k])
}

/// The number a digit run denotes.
pub open spec fn num_val(d: Seq<u8>) -> nat {
    digits_val(d, 0, d.len() as int)
}

/// The digit run denotes a number representable as `u64`.
pub open spec fn fits_u64(d: Seq<u8>) -> bool {
    num_val(d) <= u64::MAX
}

/// The text of fields `k` and onward: each separator followed by its
/// digit run.
pub open spec fn cat_nums(seps: Seq<Seq<u8>>, ds: Seq<Seq<u8>>, k: int) -> Seq<u8>
    recommends
        seps.len() == ds.len(),
        0 <= k <= ds.len(),
    decreases ds.len() - k when 0 <= k <= ds.len()
{
    if k < ds.len() {
        seps[k] + ds[k] + cat_nums(seps, ds, k + 1)
    } else {
        Seq::<u8>::empty()
    }
}

/// Cursor position after reading `m` of the fields `k` and onward,
/// starting from position `i`.
pub open spec fn pos_after(i: int, seps: Seq<Seq<u8>>, ds: Seq<Seq<u8>>, k: int, m: int) -> int
    decreases m when 0 <= m
{
    if m > 0 {
        pos_after(i + seps[k].len() + ds[k].len(), seps, ds, k + 1, m - 1)
    } else {
        i
    }
}

/// The values of fields `k` through `k + m - 1`.
pub open spec fn vals_range(ds: Seq<Seq<u8>>, k: int, m: int) -> Seq<u64>
    decreases m when 0 <= m
{
    if m > 0 {
        seq![num_val(ds[k]) as u64] + vals_range(ds, k + 1, m - 1)
    } else {
        Seq::<u64>::empty()
    }
}

pub proof fn lemma_vals_range_index(ds: Seq<Seq<u8>>, k: int, m: int, t: int)
    requires
        0 <= t < m,
    ensures
        vals_range(ds, k, m).len() == m,
        vals_range(ds, k, m)[t] == num_val(ds[k + t]) as u64,
    decreases m,
{
    lemma_vals_range_len(ds, k, m);
    if t > 0 {
        lemma_vals_range_index(ds, k + 1, m - 1, t - 1);
    }
}

pub proof fn lemma_vals_range_len(ds: Seq<Seq<u8>>, k: int, m: int)
    requires
        0 <= m,
    ensures
        vals_range(ds, k, m).len() == m,
    decreases m,
{
    if m > 0 {
        lemma_vals_range_len(ds, k + 1, m - 1);
    }
}

/// Parsing a one-number sequence pins down the single number read.
pub proof fn lemma_u64s_one(s: Seq<u8>, i: int, v: u64, p: int)
    requires
        spec_u64s(s, i, 1) == Some((seq![v], p)),
    ensures
        spec_u64(s, i) == Some((v, p)),
{
    match spec_u64(s, i) {
        None => {
            assert(spec_u64s(s, i, 1) is None);
        },
        Some((v0, j)) => {
            assert(spec_u64s(s, j, 0) == Some((Seq::<u64>::empty(), j)));
            assert(spec_u64s(s, i, 1) == Some((seq![v0] + Seq::<u64>::empty(), j)));
            assert(seq![v0] + Seq::<u64>::empty() =~= seq![v0]);
            assert(seq![v0][0] == seq![v][0]);
        },
    }
}

/// Reading `m` numbers from a position where the text continues as
/// separator-digit pairs yields exactly those digit runs' values, and
/// leaves the cursor at the start of the remaining pairs.
pub proof fn lemma_nums_chain(
    s: Seq<u8>,
    i: int,
    seps: Seq<Seq<u8>>,
    ds: Seq<Seq<u8>>,
    k: int,
    m: int,
)
    requires
        seps.len() == ds.len(),
        0 <= k,
        0 <= m,
        k + m <= ds.len(),
        0 <= i <= s.len(),
        s.subrange(i, s.len() as int) == cat_nums(seps, ds, k),
        forall|j: int| k <= j < ds.len() ==> all_spaces(#[trigger] seps[j]),
        forall|j: int| k <= j < ds.len() ==> all_digits(#[trigger] ds[j]) && fits_u64(ds[j]),
    ensures
        spec_u64s(s, i, m as nat) == Some((vals_range(ds, k, m), pos_after(i, seps, ds, k, m))),
        i <= pos_after(i, seps, ds, k, m) <= s.len(),
        s.subrange(pos_after(i, seps, ds, k, m), s.len() as int) == cat_nums(seps, ds, k + m),
    decreases m,
{
    if m == 0 {
        assert(spec_u64s(s, i, 0) == Some((Seq::<u64>::empty(), i)));
        assert(vals_range(ds, k, 0) == Seq::<u64>::empty());
    } else {
        let sk = seps[k];
        let dk = ds[k];
        let w = i + sk.len();
        let de = w + dk.len();
        let suf = s.subrange(i, s.len() as int);
        assert(cat_nums(seps, ds, k) == sk + dk + cat_nums(seps, ds, k + 1));
        assert(suf.len() == sk.len() + dk.len() + cat_nums(seps, ds, k + 1).len());
        assert(de <= s.len());
        assert forall|t: int| i <= t < w implies is_space(s[t]) by {
            assert(s[t] == suf[t - i]);
            assert(suf[t - i] == sk[t - i]);
        };
        assert forall|t: int| w <= t < de implies is_digit(s[t]) by {
            assert(s[t] == suf[t - i]);
            assert(suf[t - i] == dk[t - i - sk.len()]);
        };
        if k + 1 < ds.len() {
            assert(cat_nums(seps, ds, k + 1) == seps[k + 1] + ds[k + 1] + cat_nums(
                seps,
                ds,
                k + 2,
            ));
            assert(s[de] == suf[de - i]);
            assert(suf[de - i] == seps[k + 1][0]);
            assert(is_space(s[de]) && !is_digit(s[de]));
        } else {
            assert(cat_nums(seps, ds, k + 1) == Seq::<u8>::empty());
            assert(de == s.len());
        }
        lemma_spec_u64_at(s, i, w, de);
        assert forall|t: int| 0 <= t < dk.len() implies #[trigger] s.subrange(w, de)[t] == dk[t] by {
            assert(s[w + t] == suf[w - i + t]);
            assert(suf[w - i + t] == dk[t]);
        };
        assert(s.subrange(w, de) =~= dk.subrange(0, dk.len() as int));
        assert(dk.subrange(0, dk.len() as int) =~= dk);
        lemma_digits_val_shift(s, w, dk, 0, dk.len() as int);
        assert(digits_val(s, w, de) == num_val(dk));
        assert(spec_u64(s, i) == Some((num_val(dk) as u64, de)));
        assert forall|u: int| 0 <= u < s.len() - de implies s[de + u] == #[trigger] cat_nums(
            seps,
            ds,
            k + 1,
        )[u] by {
            assert(s[de + u] == suf[de - i + u]);
            assert(suf[de - i + u] == cat_nums(seps, ds, k + 1)[u]);
        };
        assert(s.subrange(de, s.len() as int) =~= cat_nums(seps, ds, k + 1));
        lemma_nums_chain(s, de, seps, ds, k + 1, m - 1);
        assert(spec_u64s(s, i, m as nat) == Some(
            (
                seq![num_val(dk) as u64] + vals_range(ds, k + 1, m - 1),
                pos_after(de, seps, ds, k + 1, m - 1),
            ),
        ));
        assert(vals_range(ds, k, m) == seq![num_val(dk) as u64] + vals_range(ds, k + 1, m - 1));
        assert(pos_after(i, seps, ds, k, m) == pos_after(de, seps, ds, k + 1, m - 1));
    }
}

/// A CPU line with seven, eight, nine or ten numeric fields parses, the
/// seven mandatory counters take the first seven values, and each optional
/// counter is present exactly when its column is — an absent column is
/// `None`, never a zero.
pub proof fn lemma_cpu_line_parses(label: Seq<u8>, seps: Seq<Seq<u8>>, ds: Seq<Seq<u8>>)
    requires
        label.len() >= 3,
        forall|k: int| 0 <= k < label.len() ==> !is_space(label[k]),
        label.subrange(0, 3) == cpu_prefix(),
        seps.len() == ds.len(),
        7 <= ds.len() <= 10,
        forall|j: int| 0 <= j < ds.len() ==> all_spaces(#[trigger] seps[j]),
        forall|j: int| 0 <= j < ds.len() ==> all_digits(#[trigger] ds[j]) && fits_u64(ds[j]),
    ensures
        ({
            let line = label + cat_nums(seps, ds, 0);
            &&& cpu_ok(line)
            &&& spec_cpu(line).user == num_val(ds[0])
            &&& spec_cpu(line).nice == num_val(ds[1])
            &&& spec_cpu(line).system == num_val(ds[2])
            &&& spec_cpu(line).idle == num_val(ds[3])
            &&& spec_cpu(line).iowait == num_val(ds[4])
            &&& spec_cpu(line).irq == num_val(ds[5])
            &&& spec_cpu(line).softirq == num_val(ds[6])
            &&& spec_cpu(line).steal == (if ds.len() >= 8 {
                Some(num_val(ds[7]) as u64)
            } else {
                None::<u64>
            })
            &&& spec_cpu(line).guest == (if ds.len() >= 9 {
                Some(num_val(ds[8]) as u64)
            } else {
                None::<u64>
            })
            &&& spec_cpu(line).guest_nice == (if ds.len() >= 10 {
                Some(num_val(ds[9]) as u64)
            } else {
                None::<u64>
            })
        }),
{
    let line = label + cat_nums(seps, ds, 0);
    let te = label.len() as int;
    assert(cat_nums(seps, ds, 0) == seps[0] + ds[0] + cat_nums(seps, ds, 1));
    assert(cat_nums(seps, ds, 0).len() > 0);
    assert(line[te] == cat_nums(seps, ds, 0)[0]);
    assert(cat_nums(seps, ds, 0)[0] == seps[0][0]);
    assert(is_space(line[te]));
    assert forall|t: int| 0 <= t < te implies !is_space(line[t]) by {
        assert(line[t] == label[t]);
    };
    lemma_spec_token_at(line, 0, 0, te);
    assert(spec_token(line, 0) == Some((0int, te)));
    assert forall|t: int| 0 <= t < 3 implies #[trigger] line.subrange(0, 3)[t] == label.subrange(
        0,
        3,
    )[t] by {
        assert(line[t] == label[t]);
    };
    assert(line.subrange(0, 3) =~= label.subrange(0, 3));
    assert(crate::stat::cpu_label_ok(line));
    assert forall|u: int| 0 <= u < line.len() - te implies #[trigger] line.subrange(
        te,
        line.len() as int,
    )[u] == cat_nums(seps, ds, 0)[u] by {
        assert(line[te + u] == cat_nums(seps, ds, 0)[u]);
    };
    assert(line.subrange(te, line.len() as int) =~= cat_nums(seps, ds, 0));
    lemma_nums_chain(line, te, seps, ds, 0, 7);
    let p7 = pos_after(te, seps, ds, 0, 7);
    assert(spec_u64s(line, te, 7) == Some((vals_range(ds, 0, 7), p7)));
    assert(cpu_ok(line));
    let vs = (spec_u64s(line, te, 7)->0).0;
    assert forall|t: int| 0 <= t < 7 implies vs[t] == num_val(ds[t]) as u64 by {
        lemma_vals_range_index(ds, 0, 7, t);
    };
    if ds.len() == 7 {
        assert(cat_nums(seps, ds, 7) == Seq::<u8>::empty());
        assert(p7 == line.len());
        assert(crate::util::skip_ws(line, p7) == p7);
        assert(crate::util::digit_end(line, p7) == p7);
        assert(spec_u64(line, p7) is None);
        assert(spec_cpu_opts(line, p7) == (None::<u64>, None::<u64>, None::<u64>));
    } else {
        lemma_nums_chain(line, p7, seps, ds, 7, 1);
        let p8 = pos_after(p7, seps, ds, 7, 1);
        assert(vals_range(ds, 8, 0) == Seq::<u64>::empty());
        assert(vals_range(ds, 7, 1) =~= seq![num_val(ds[7]) as u64]);
        lemma_u64s_one(line, p7, num_val(ds[7]) as u64, p8);
        if ds.len() == 8 {
            assert(cat_nums(seps, ds, 8) == Seq::<u8>::empty());
            assert(p8 == line.len());
            assert(crate::util::skip_ws(line, p8) == p8);
            assert(crate::util::digit_end(line, p8) == p8);
            assert(spec_u64(line, p8) is None);
        } else {
            lemma_nums_chain(line, p8, seps, ds, 8, 1);
            let p9 = pos_after(p8, seps, ds, 8, 1);
            assert(vals_range(ds, 9, 0) == Seq::<u64>::empty());
        assert(vals_range(ds, 8, 1) =~= seq![num_val(ds[8]) as u64]);
            lemma_u64s_one(line, p8, num_val(ds[8]) as u64, p9);
            if ds.len() == 9 {
                assert(cat_nums(seps, ds, 9) == Seq::<u8>::empty());
                assert(p9 == line.len());
                assert(crate::util::skip_ws(line, p9) == p9);
                assert(crate::util::digit_end(line, p9) == p9);
                assert(spec_u64(line, p9) is None);
            } else {
                lemma_nums_chain(line, p9, seps, ds, 9, 1);
                let p10 = pos_after(p9, seps, ds, 9, 1);
                assert(vals_range(ds, 10, 0) == Seq::<u64>::empty());
        assert(vals_range(ds, 9, 1) =~= seq![num_val(ds[9]) as u64]);
                lemma_u64s_one(line, p9, num_val(ds[9]) as u64, p10);
            }
        }
    }
}

/// A stream that is well-formed up to and including the `procs_running`
/// line but ends before the `procs_blocked` line fails with an
/// unexpected-end-of-input error: no partial record can come back.
pub proof fn lemma_truncated_eof(s: Seq<u8>, e: ParseError)
    requires
        s.len() > 0,
        cpu_ok(line_at(s, 0)),
        pos_ignored(s) < s.len(),
        pos_ctxt(s) < s.len(),
        labeled_ok(line_at(s, pos_ctxt(s)), label_seq(LineLabel::Ctxt)),
        pos_btime(s) < s.len(),
        labeled_ok(line_at(s, pos_btime(s)), label_seq(LineLabel::Btime)),
        pos_processes(s) < s.len(),
        labeled_ok(line_at(s, pos_processes(s)), label_seq(LineLabel::Processes)),
        pos_procs_running(s) < s.len(),
        labeled_ok(line_at(s, pos_procs_running(s)), label_seq(LineLabel::ProcsRunning)),
        pos_procs_blocked(s) >= s.len(),
        stat_err_is(s, e),
    ensures
        e matches ParseError::UnexpectedEof,
        !stat_ok(s),
{
}

/// One stream from a list of lines: each line followed by a newline.
pub open spec fn join_from(lines: Seq<Seq<u8>>, k: int) -> Seq<u8>
    recommends
        0 <= k <= lines.len(),
    decreases lines.len() - k when 0 <= k <= lines.len()
{
    if k < lines.len() {
        lines[k] + seq![10u8] + join_from(lines, k + 1)
    } else {
        Seq::<u8>::empty()
    }
}

/// Position at which line `k` starts within the joined stream.
pub open spec fn line_pos(lines: Seq<Seq<u8>>, k: int) -> int
    decreases k when 0 <= k
{
    if k <= 0 {
        0
    } else {
        line_pos(lines, k - 1) + lines[k - 1].len() + 1
    }
}

/// The line holds no newline, as every line produced by splitting does.
pub open spec fn no_newline(l: Seq<u8>) -> bool {
    forall|k: int| 0 <= k < l.len() ==> l[k] != 10
}

/// The suffix of the joined stream from line `k`'s start is the join of
/// the remaining lines (plus the arbitrary trailing bytes).
pub proof fn lemma_join_suffix(s: Seq<u8>, lines: Seq<Seq<u8>>, rest: Seq<u8>, k: int)
    requires
        s == join_from(lines, 0) + rest,
        0 <= k <= lines.len(),
    ensures
        0 <= line_pos(lines, k) <= s.len(),
        s.subrange(line_pos(lines, k), s.len() as int) == join_from(lines, k) + rest,
    decreases k,
{
    if k == 0 {
        assert(line_pos(lines, 0) == 0);
        assert(s.subrange(0, s.len() as int) =~= join_from(lines, 0) + rest);
    } else {
        lemma_join_suffix(s, lines, rest, k - 1);
        let p = line_pos(lines, k - 1);
        let lk = lines[k - 1];
        let q = line_pos(lines, k);
        assert(q == p + lk.len() + 1);
        assert(join_from(lines, k - 1) == lk + seq![10u8] + join_from(lines, k));
        let suf = s.subrange(p, s.len() as int);
        assert(suf == (lk + seq![10u8] + join_from(lines, k)) + rest);
        assert(suf.len() == lk.len() + 1 + join_from(lines, k).len() + rest.len());
        assert(q <= s.len());
        assert forall|u: int| 0 <= u < s.len() - q implies #[trigger] s.subrange(
            q,
            s.len() as int,
        )[u] == (join_from(lines, k) + rest)[u] by {
            assert(s.subrange(q, s.len() as int)[u] == s[q + u]);
            assert(s[q + u] == suf[lk.len() + 1 + u]);
            assert(suf[lk.len() + 1 + u] == (join_from(lines, k) + rest)[u]);
        };
        assert(s.subrange(q, s.len() as int) =~= join_from(lines, k) + rest);
    }
}

/// Within the joined stream, line `k` occupies exactly its own bytes: the
/// line reader finds it and leaves the cursor at line `k + 1`.
pub proof fn lemma_join_structure(s: Seq<u8>, lines: Seq<Seq<u8>>, rest: Seq<u8>, k: int)
    requires
        s == join_from(lines, 0) + rest,
        forall|j: int| 0 <= j < lines.len() ==> no_newline(#[trigger] lines[j]),
        0 <= k < lines.len(),
    ensures
        0 <= line_pos(lines, k) < s.len(),
        line_end(s, line_pos(lines, k)) == line_pos(lines, k) + lines[k].len(),
        line_at(s, line_pos(lines, k)) == lines[k],
        after_line(s, line_pos(lines, k)) == line_pos(lines, k + 1),
        line_pos(lines, k + 1) <= s.len(),
{
    lemma_join_suffix(s, lines, rest, k);
    let p = line_pos(lines, k);
    let lk = lines[k];
    let suf = s.subrange(p, s.len() as int);
    assert(join_from(lines, k) == lk + seq![10u8] + join_from(lines, k + 1));
    assert(suf == (lk + seq![10u8] + join_from(lines, k + 1)) + rest);
    assert(suf.len() == lk.len() + 1 + join_from(lines, k + 1).len() + rest.len());
    assert forall|t: int| p <= t < p + lk.len() implies s[t] != 10 by {
        assert(s[t] == suf[t - p]);
        assert(suf[t - p] == lk[t - p]);
    };
    assert(s[p + lk.len()] == suf[lk.len() as int]);
    assert(suf[lk.len() as int] == 10);
    lemma_line_end_exact(s, p, p + lk.len());
    assert forall|t: int| 0 <= t < lk.len() implies #[trigger] line_at(s, p)[t] == lk[t] by {
        assert(line_at(s, p)[t] == s[p + t]);
        assert(s[p + t] == suf[t]);
        assert(suf[t] == lk[t]);
    };
    assert(line_at(s, p) =~= lk);
}

/// The run of valid CPU lines `k .. b` of the joined stream is read into
/// exactly `b - k` records, and the cursor stops at line `b`, the first
/// line that is not a CPU line.
pub proof fn lemma_cpu_block(s: Seq<u8>, lines: Seq<Seq<u8>>, rest: Seq<u8>, k: int, b: int)
    requires
        s == join_from(lines, 0) + rest,
        forall|j: int| 0 <= j < lines.len() ==> no_newline(#[trigger] lines[j]),
        0 <= k <= b < lines.len(),
        forall|j: int| k <= j < b ==> cpu_ok(#[trigger] lines[j]),
        !cpu_ok(lines[b]),
    ensures
        cpu_block_end(s, line_pos(lines, k)) == line_pos(lines, b),
        cpu_block_seq(s, line_pos(lines, k)).len() == b - k,
        forall|t: int|
            0 <= t < b - k ==> #[trigger] cpu_block_seq(s, line_pos(lines, k))[t] == spec_cpu(
                lines[k + t],
            ),
    decreases b - k,
{
    lemma_join_structure(s, lines, rest, k);
    let p = line_pos(lines, k);
    if k == b {
        assert(!cpu_ok(line_at(s, p)));
        assert(cpu_block_end(s, p) == p);
        assert(cpu_block_seq(s, p) == Seq::<StatCpu>::empty());
    } else {
        assert(cpu_ok(line_at(s, p)));
        lemma_cpu_block(s, lines, rest, k + 1, b);
        let tail = cpu_block_seq(s, line_pos(lines, k + 1));
        assert(cpu_block_end(s, p) == cpu_block_end(s, line_pos(lines, k + 1)));
        assert(cpu_block_seq(s, p) == seq![spec_cpu(lines[k])] + tail);
        assert forall|t: int| 0 <= t < b - k implies #[trigger] cpu_block_seq(s, p)[t]
            == spec_cpu(lines[k + t]) by {
            if t == 0 {
                assert(cpu_block_seq(s, p)[0] == spec_cpu(lines[k]));
            } else {
                assert(cpu_block_seq(s, p)[t] == tail[t - 1]);
                assert(tail[t - 1] == spec_cpu(lines[k + 1 + (t - 1)]));
            }
        };
    }
}

/// Every stream assembled from one valid aggregate CPU line, `n` valid
/// per-CPU lines, one ignored line that does not look like a CPU line, and
/// the five labelled lines in order — followed by anything at all — parses
/// successfully, and `cpus` gets exactly one entry per per-CPU line, in
/// order.
pub proof fn lemma_valid_input_parses(lines: Seq<Seq<u8>>, rest: Seq<u8>, n: int)
    requires
        0 <= n,
        lines.len() == n + 7,
        forall|j: int| 0 <= j < lines.len() ==> no_newline(#[trigger] lines[j]),
        cpu_ok(lines[0]),
        forall|j: int| 1 <= j < 1 + n ==> cpu_ok(#[trigger] lines[j]),
        !cpu_ok(lines[n + 1]),
        labeled_ok(lines[n + 2], label_seq(LineLabel::Ctxt)),
        labeled_ok(lines[n + 3], label_seq(LineLabel::Btime)),
        labeled_ok(lines[n + 4], label_seq(LineLabel::Processes)),
        labeled_ok(lines[n + 5], label_seq(LineLabel::ProcsRunning)),
        labeled_ok(lines[n + 6], label_seq(LineLabel::ProcsBlocked)),
    ensures
        ({
            let s = join_from(lines, 0) + rest;
            &&& stat_ok(s)
            &&& stat_cpu_totals(s) == spec_cpu(lines[0])
            &&& stat_cpus(s).len() == n
            &&& forall|t: int| 0 <= t < n ==> #[trigger] stat_cpus(s)[t] == spec_cpu(lines[1 + t])
            &&& line_at(s, pos_ctxt(s)) == lines[n + 2]
            &&& line_at(s, pos_btime(s)) == lines[n + 3]
            &&& line_at(s, pos_processes(s)) == lines[n + 4]
            &&& line_at(s, pos_procs_running(s)) == lines[n + 5]
            &&& line_at(s, pos_procs_blocked(s)) == lines[n + 6]
        }),
{
    let s = join_from(lines, 0) + rest;
    lemma_join_structure(s, lines, rest, 0);
    assert(line_pos(lines, 0) == 0);
    assert(line_at(s, 0) == lines[0]);
    assert(pos_cpus(s) == line_pos(lines, 1));
    lemma_cpu_block(s, lines, rest, 1, n + 1);
    assert(pos_ignored(s) == line_pos(lines, n + 1));
    lemma_join_structure(s, lines, rest, n + 1);
    assert(pos_ctxt(s) == line_pos(lines, n + 2));
    lemma_join_structure(s, lines, rest, n + 2);
    assert(pos_btime(s) == line_pos(lines, n + 3));
    lemma_join_structure(s, lines, rest, n + 3);
    assert(pos_processes(s) == line_pos(lines, n + 4));
    lemma_join_structure(s, lines, rest, n + 4);
    assert(pos_procs_running(s) == line_pos(lines, n + 5));
    lemma_join_structure(s, lines, rest, n + 5);
    assert(pos_procs_blocked(s) == line_pos(lines, n + 6));
    lemma_join_structure(s, lines, rest, n + 6);
}

/// Zero per-CPU lines — the aggregate line directly followed by the
/// ignored line — is a valid stream whose `cpus` sequence is empty.
pub proof fn lemma_zero_cpu_lines(lines: Seq<Seq<u8>>, rest: Seq<u8>)
    requires
        lines.len() == 7,
        forall|j: int| 0 <= j < lines.len() ==> no_newline(#[trigger] lines[j]),
        cpu_ok(lines[0]),
        !cpu_ok(lines[1]),
        labeled_ok(lines[2], label_seq(LineLabel::Ctxt)),
        labeled_ok(lines[3], label_seq(LineLabel::Btime)),
        labeled_ok(lines[4], label_seq(LineLabel::Processes)),
        labeled_ok(lines[5], label_seq(LineLabel::ProcsRunning)),
        labeled_ok(lines[6], label_seq(LineLabel::ProcsBlocked)),
    ensures
        stat_ok(join_from(lines, 0) + rest),
        stat_cpus(join_from(lines, 0) + rest) == Seq::<StatCpu>::empty(),
{
    lemma_valid_input_parses(lines, rest, 0);
    assert(stat_cpus(join_from(lines, 0) + rest) =~= Seq::<StatCpu>::empty());
}

} // verus!
