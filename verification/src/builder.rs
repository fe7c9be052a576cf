//! The command compiler: an operation list in, a flat transcoder invocation
//! out.
//!
//! Operations are folded into three buffers — filter expressions, the
//! quality/rate fragment, and stream-mapping flags — and the buffers are
//! emitted in that fixed order, regardless of encounter order. The fold and
//! each fragment are specified exactly, over `Seq<char>`, so `build_args`'
//! contract pins the compiled argument list character for character.

use vstd::arithmetic::div_mod::{lemma_div_is_ordered, lemma_div_pos_is_pos};
use vstd::prelude::*;
use vstd::string::StringExecFns;

use crate::parser::{ops_view, ArgModel, ParsedArg};
use crate::text::{dec_str, i32_to_string, int_str, join_strs, join_with, u64_to_string};

verus! {

/// Reserved for an operation variant the compiler cannot handle. The match
/// over operations is exhaustive, so no list the parser produces reaches it.
#[derive(Debug)]
pub enum BuildingErr {
    UnreconizedArg,
}

#[derive(Debug)]
pub struct Cmd {
    pub invocation: String,
    pub args: Vec<String>,
}

/// Rate-control parameters derived from a quality score: a constant-rate
/// factor and a bitrate cap with its buffer size, both in whole megabits.
pub struct CrfRateBuf {
    pub crf: u32,
    pub max_rate: u32,
    pub buf_size: u32,
}

/// The constant-rate factor for a quality score: `(100 - q) / (100 / 51)`,
/// truncated — that is, `(100 - q) * 51` divided by `100`, rounding toward
/// zero.
pub open spec fn crf_of(q: int) -> int {
    (100 - q) * 51 / 100
}

/// `x` to the fifth power, written over squares.
pub open spec fn pow5(x: int) -> int {
    (x * x) * (x * x) * x
}

/// `x` to the eleventh power, written over squares.
pub open spec fn pow11(x: int) -> int {
    ((x * x) * (x * x)) * ((x * x) * (x * x)) * (x * x) * x
}

/// `r` is the bitrate cap for quality `q`: the curve `round(0.5 + q^2.2 /
/// (2.2 * 1000))`, which for a nonnegative real argument equals `1 +
/// floor(q^2.2 / 2200)`. Stated without fractional powers by raising both
/// sides of `2200 * (r - 1) <= q^2.2 < 2200 * r` to the fifth power.
pub open spec fn is_max_rate(q: int, r: int) -> bool {
    1 <= r && pow5(2200 * (r - 1)) <= pow11(q) < pow5(2200 * r)
}

/// The bitrate cap for quality `q`; unique by `lemma_max_rate_unique`.
pub open spec fn max_rate_of(q: int) -> int {
    choose|r: int| is_max_rate(q, r)
}

/// Products of ordered pairs of nonnegative integers are ordered.
proof fn lemma_mul_le(a: int, b: int, c: int, d: int)
    requires
        0 <= a <= b,
        0 <= c <= d,
    ensures
        0 <= a * c <= b * d,
{
    assert(0 <= a * c && a * c <= b * d) by (nonlinear_arith)
        requires
            0 <= a <= b,
            0 <= c <= d,
    ;
}

/// Fifth powers are monotone over the nonnegative integers.
proof fn lemma_pow5_le(a: int, b: int)
    requires
        0 <= a <= b,
    ensures
        pow5(a) <= pow5(b),
{
    lemma_mul_le(a, b, a, b);
    lemma_mul_le(a * a, b * b, a * a, b * b);
    lemma_mul_le((a * a) * (a * a), (b * b) * (b * b), a, b);
}

/// Eleventh powers are monotone over the nonnegative integers.
proof fn lemma_pow11_le(a: int, b: int)
    requires
        0 <= a <= b,
    ensures
        pow11(a) <= pow11(b),
{
    lemma_mul_le(a, b, a, b);
    lemma_mul_le(a * a, b * b, a * a, b * b);
    lemma_mul_le((a * a) * (a * a), (b * b) * (b * b), (a * a) * (a * a), (b * b) * (b * b));
    lemma_mul_le(
        ((a * a) * (a * a)) * ((a * a) * (a * a)),
        ((b * b) * (b * b)) * ((b * b) * (b * b)),
        a * a,
        b * b,
    );
    lemma_mul_le(
        ((a * a) * (a * a)) * ((a * a) * (a * a)) * (a * a),
        ((b * b) * (b * b)) * ((b * b) * (b * b)) * (b * b),
        a,
        b,
    );
}

/// Only one bitrate cap satisfies the curve characterization for a given
/// quality.
proof fn lemma_max_rate_unique(q: int, r1: int, r2: int)
    requires
        is_max_rate(q, r1),
        is_max_rate(q, r2),
    ensures
        r1 == r2,
{
    if r1 < r2 {
        lemma_pow5_le(2200 * r1, 2200 * (r2 - 1));
        assert(false);
    }
    if r2 < r1 {
        lemma_pow5_le(2200 * r2, 2200 * (r1 - 1));
        assert(false);
    }
}

proof fn lemma_max_rate_of(q: int, r: int)
    requires
        is_max_rate(q, r),
    ensures
        max_rate_of(q) == r,
{
    assert(is_max_rate(q, max_rate_of(q))) by {
        assert(exists|x: int| is_max_rate(q, x));
    }
    lemma_max_rate_unique(q, max_rate_of(q), r);
}

/// As quality increases the constant-rate factor never increases, and for
/// qualities in `[0, 100]` it always lies in `[0, 51]`.
pub proof fn lemma_crf_monotone_and_bounded(q1: int, q2: int)
    requires
        0 <= q1 <= q2 <= 100,
    ensures
        crf_of(q2) <= crf_of(q1),
        0 <= crf_of(q2) <= 51,
        0 <= crf_of(q1) <= 51,
{
    lemma_div_is_ordered((100 - q2) * 51, (100 - q1) * 51, 100);
    lemma_div_is_ordered((100 - q1) * 51, 5100, 100);
    lemma_div_is_ordered((100 - q2) * 51, 5100, 100);
    lemma_div_pos_is_pos((100 - q1) * 51, 100);
    lemma_div_pos_is_pos((100 - q2) * 51, 100);
}

/// Maps a 0–100 quality score to rate-control parameters: the truncated
/// constant-rate factor `crf_of`, the rounded bitrate curve `max_rate_of`,
/// and a buffer of exactly twice the bitrate cap.
pub fn quality_to_crf(quality: u32) -> (r: CrfRateBuf)
    requires
        quality <= 100,
    ensures
        r.crf == crf_of(quality as int),
        is_max_rate(quality as int, r.max_rate as int),
        r.max_rate == max_rate_of(quality as int),
        r.buf_size == 2 * r.max_rate,
        r.max_rate <= 12,
{
    let crf: u32 = (100 - quality) * 51 / 100;
    let q: u128 = quality as u128;
    proof {
        assert(q * q <= 10000) by (nonlinear_arith)
            requires
                0 <= q <= 100,
        ;
    }
    let q2: u128 = q * q;
    proof {
        assert(q2 * q2 <= 100000000) by (nonlinear_arith)
            requires
                0 <= q2 <= 10000,
        ;
    }
    let q4: u128 = q2 * q2;
    proof {
        assert(q4 * q4 <= 10000000000000000) by (nonlinear_arith)
            requires
                0 <= q4 <= 100000000,
        ;
    }
    let q8: u128 = q4 * q4;
    proof {
        assert(q8 * q2 <= 100000000000000000000) by (nonlinear_arith)
            requires
                0 <= q8 <= 10000000000000000,
                0 <= q2 <= 10000,
        ;
    }
    let q10: u128 = q8 * q2;
    proof {
        assert(q10 * q <= 10000000000000000000000) by (nonlinear_arith)
            requires
                0 <= q10 <= 100000000000000000000,
                0 <= q <= 100,
        ;
    }
    let q11: u128 = q10 * q;
    proof {
        assert(q11 == pow11(q as int));
        lemma_pow11_le(q as int, 100);
        assert(pow11(100) == 10000000000000000000000) by (nonlinear_arith);
        assert(pow5(26400) == 12823885578240000000000) by (nonlinear_arith);
        assert(pow11(100) < pow5(26400));
        assert(pow5(0) == 0);
    }
    let mut m: u32 = 0;
    loop
        invariant
            q == quality as u128,
            quality <= 100,
            q11 == pow11(q as int),
            q11 <= pow11(100),
            pow11(100) < pow5(26400),
            m <= 11,
            pow5(2200 * (m as int)) <= q11,
        ensures
            m <= 11,
            pow5(2200 * (m as int)) <= q11 < pow5(2200 * (m as int) + 2200),
        decreases 12 - m,
    {
        let c: u128 = 2200 * ((m as u128) + 1);
        proof {
            assert(c * c <= 26400 * 26400) by (nonlinear_arith)
                requires
                    0 <= c <= 26400,
            ;
        }
        let c2: u128 = c * c;
        proof {
            assert(c2 * c2 <= 26400 * 26400 * 26400 * 26400) by (nonlinear_arith)
                requires
                    0 <= c2 <= 26400 * 26400,
            ;
        }
        let c4: u128 = c2 * c2;
        proof {
            assert(c4 * c <= 26400 * 26400 * 26400 * 26400 * 26400) by (nonlinear_arith)
                requires
                    0 <= c4 <= 26400 * 26400 * 26400 * 26400,
                    0 <= c <= 26400,
            ;
        }
        let c5: u128 = c4 * c;
        proof {
            assert(c5 == pow5(c as int));
        }
        if c5 > q11 {
            break ;
        }
        proof {
            if m >= 11 {
                lemma_pow5_le(26400, c as int);
                assert(false);
            }
        }
        m = m + 1;
    }
    let max_rate: u32 = m + 1;
    proof {
        assert(is_max_rate(quality as int, max_rate as int));
        lemma_max_rate_of(quality as int, max_rate as int);
    }
    CrfRateBuf { crf, max_rate, buf_size: 2 * max_rate }
}

/// The `scale=W:H` filter fragment for a resize operation.
pub open spec fn scale_filter(w: int, h: int) -> Seq<char> {
    "scale="@ + int_str(w) + ":"@ + int_str(h)
}

/// The `-crf .. -maxrate ..M -bufsize ..M` fragment for a quality score.
pub open spec fn quality_fragment(q: int) -> Seq<char> {
    "-crf "@ + dec_str(crf_of(q) as nat) + " -maxrate "@ + dec_str(max_rate_of(q) as nat)
        + "M -bufsize "@ + dec_str((2 * max_rate_of(q)) as nat) + "M"@
}

/// The per-input pass-through label `[i][vi]`.
pub open spec fn merge_label(i: nat) -> Seq<char> {
    "["@ + dec_str(i) + "][v"@ + dec_str(i) + "]"@
}

/// The pass-through labels for inputs `0 .. n`, joined by `;`.
pub open spec fn merge_labels(n: nat) -> Seq<char>
    decreases n,
{
    if n == 0 {
        Seq::empty()
    } else if n == 1 {
        merge_label(0)
    } else {
        merge_labels((n - 1) as nat) + ";"@ + merge_label((n - 1) as nat)
    }
}

/// The concat input label `[vi][i:a:0]`.
pub open spec fn concat_label(i: nat) -> Seq<char> {
    "[v"@ + dec_str(i) + "]["@ + dec_str(i) + ":a:0]"@
}

/// One concat input label per input, `0 .. n`, in order.
pub open spec fn concat_inputs(n: nat) -> Seq<char>
    decreases n,
{
    if n == 0 {
        Seq::empty()
    } else {
        concat_inputs((n - 1) as nat) + concat_label((n - 1) as nat)
    }
}

/// The whole filter-graph fragment concatenating `n` inputs.
pub open spec fn merge_filter(n: nat) -> Seq<char> {
    merge_labels(n) + ";"@ + concat_inputs(n) + "concat=n="@ + dec_str(n)
        + ":v=1:a=1[outv][outa]"@
}

/// The fixed two-output mapping emitted alongside a merge.
pub open spec fn map_fragment() -> Seq<char> {
    "-map \"n[outv]\" -map \"[outa]\" -vsync 0"@
}

/// The three buffers the compiler folds the operation list into.
pub struct BuiltBufs {
    pub filters: Seq<Seq<char>>,
    pub quality: Seq<char>,
    pub mapping: Seq<char>,
}

/// The fold: filters accumulate in encounter order; a later quality fragment
/// overwrites an earlier one; a merge also overwrites the mapping buffer;
/// execution-type and output-path operations are not consumed.
pub open spec fn fold_ops(ops: Seq<ArgModel>) -> BuiltBufs
    decreases ops.len(),
{
    if ops.len() == 0 {
        BuiltBufs { filters: Seq::empty(), quality: Seq::empty(), mapping: Seq::empty() }
    } else {
        let st = fold_ops(ops.drop_last());
        match ops.last() {
            ArgModel::Resize(w, h) => BuiltBufs {
                filters: st.filters.push(scale_filter(w, h)),
                quality: st.quality,
                mapping: st.mapping,
            },
            ArgModel::Quality(q) => BuiltBufs {
                filters: st.filters,
                quality: quality_fragment(q as int),
                mapping: st.mapping,
            },
            ArgModel::Merge(paths) => BuiltBufs {
                filters: st.filters.push(merge_filter(paths.len())),
                quality: st.quality,
                mapping: map_fragment(),
            },
            ArgModel::ExecutionType(_) => st,
            ArgModel::OutFilePath(_) => st,
        }
    }
}

/// The compiled argument list: the joined `-vf` filter expression, then the
/// quality fragment, then the mapping flags — each only when non-empty, and
/// always in that fixed order.
pub open spec fn compiled_args(ops: Seq<ArgModel>) -> Seq<Seq<char>> {
    let st = fold_ops(ops);
    (if st.filters.len() > 0 {
        seq!["-vf "@ + join_strs(st.filters, ","@)]
    } else {
        Seq::<Seq<char>>::empty()
    }) + (if st.quality.len() > 0 {
        seq![st.quality]
    } else {
        Seq::<Seq<char>>::empty()
    }) + (if st.mapping.len() > 0 {
        seq![st.mapping]
    } else {
        Seq::<Seq<char>>::empty()
    })
}

/// Compiles the operation list into the transcoder invocation. Always
/// succeeds on any list the parser can produce: the argument list is exactly
/// `compiled_args` of the operations. Quality scores must lie in the curve's
/// 0–100 domain.
pub fn build_args(args: Vec<ParsedArg>) -> (r: Result<Cmd, BuildingErr>)
    requires
        forall|i: int|
            0 <= i < args@.len() ==> ((#[trigger] args@[i])@ matches ArgModel::Quality(q) ==> q
                <= 100),
    ensures
        r matches Ok(cmd) && cmd.invocation@ == "ffmpeg"@ && cmd.args.deep_view() == compiled_args(
            ops_view(args@),
        ),
{
    let ghost ops = ops_view(args@);
    let mut filters_builded: Vec<String> = Vec::new();
    let mut quality_builded = String::new();
    let mut map_builded = String::new();

    let mut idx: usize = 0;
    while idx < args.len()
        invariant
            idx <= args@.len(),
            ops == ops_view(args@),
            ops.len() == args@.len(),
            forall|i: int|
                0 <= i < args@.len() ==> ((#[trigger] args@[i])@ matches ArgModel::Quality(q) ==> q
                    <= 100),
            filters_builded.deep_view() == fold_ops(ops.take(idx as int)).filters,
            quality_builded@ == fold_ops(ops.take(idx as int)).quality,
            map_builded@ == fold_ops(ops.take(idx as int)).mapping,
        decreases args@.len() - idx,
    {
        proof {
            assert(ops.take(idx + 1).drop_last() =~= ops.take(idx as int));
            assert(ops.take(idx + 1).last() == ops[idx as int]);
            assert(args@[idx as int]@ == ops[idx as int]);
        }
        let arg = &args[idx];
        match arg {
            ParsedArg::Resize(dimensions) => {
                let mut filter = String::from_str("scale=");
                let w_str = i32_to_string(dimensions.0);
                filter.append(w_str.as_str());
                filter.append(":");
                let h_str = i32_to_string(dimensions.1);
                filter.append(h_str.as_str());
                filters_builded.push(filter);
                proof {
                    assert(filter@ =~= scale_filter(dimensions.0 as int, dimensions.1 as int));
                    assert(filters_builded.deep_view() =~~= fold_ops(ops.take(idx + 1)).filters);
                }
            },
            ParsedArg::Quality(quality) => {
                let crf = quality_to_crf(*quality);
                let mut fragment = String::from_str("-crf ");
                let crf_str = u64_to_string(crf.crf as u64);
                fragment.append(crf_str.as_str());
                fragment.append(" -maxrate ");
                let rate_str = u64_to_string(crf.max_rate as u64);
                fragment.append(rate_str.as_str());
                fragment.append("M -bufsize ");
                let buf_str = u64_to_string(crf.buf_size as u64);
                fragment.append(buf_str.as_str());
                fragment.append("M");
                proof {
                    assert(fragment@ =~= quality_fragment(*quality as int));
                }
                quality_builded = fragment;
            },
            ParsedArg::Merge(filepaths) => {
                let (filter, map) = build_merge(filepaths);
                filters_builded.push(filter);
                map_builded = map;
                proof {
                    assert(filters_builded.deep_view() =~~= fold_ops(ops.take(idx + 1)).filters);
                }
            },
            ParsedArg::ExecutionType(_) => {
                // Parsed but not consumed by the compiler: no alternate
                // invocation is selected for a preview yet.
            },
            ParsedArg::OutFilePath(_) => {
                // Never incorporated into the compiled argument list.
            },
        }
        idx = idx + 1;
    }

    let mut cmd = Cmd { invocation: String::from_str("ffmpeg"), args: Vec::new() };
    proof {
        assert(ops.take(ops.len() as int) =~= ops);
    }
    if filters_builded.len() > 0 {
        cmd.args.push(build_merged_filters(filters_builded));
    }
    if !quality_builded.as_str().is_empty() {
        cmd.args.push(quality_builded);
    }
    if !map_builded.as_str().is_empty() {
        cmd.args.push(map_builded);
    }
    proof {
        assert(cmd.args.deep_view() =~~= compiled_args(ops));
    }
    Ok(cmd)
}

/// Wraps the accumulated filter fragments as one `-vf` argument, joined by
/// `,`.
fn build_merged_filters(filters: Vec<String>) -> (r: String)
    ensures
        r@ == "-vf "@ + join_strs(filters.deep_view(), ","@),
{
    let mut r = String::from_str("-vf ");
    let joined = join_with(&filters, ",");
    r.append(joined.as_str());
    r
}

/// Builds the concat filter fragment and the fixed mapping flags for merging
/// `n` input clips: per-input labels, then the concat directive naming `n`.
fn build_merge(filepaths: &Vec<String>) -> (r: (String, String))
    ensures
        r.0@ == merge_filter(filepaths@.len() as nat),
        r.1@ == map_fragment(),
{
    let n = filepaths.len();
    let mut builded_filepaths = String::new();
    let mut builded_concat_input = String::new();
    let mut i: usize = 0;
    while i < n
        invariant
            i <= n,
            builded_filepaths@ == merge_labels(i as nat),
            builded_concat_input@ == concat_inputs(i as nat),
        decreases n - i,
    {
        let num = u64_to_string(i as u64);
        if i > 0 {
            builded_filepaths.append(";");
        }
        builded_filepaths.append("[");
        builded_filepaths.append(num.as_str());
        builded_filepaths.append("][v");
        builded_filepaths.append(num.as_str());
        builded_filepaths.append("]");
        builded_concat_input.append("[v");
        builded_concat_input.append(num.as_str());
        builded_concat_input.append("][");
        builded_concat_input.append(num.as_str());
        builded_concat_input.append(":a:0]");
        proof {
            assert(builded_filepaths@ =~= merge_labels((i + 1) as nat));
            assert(builded_concat_input@ =~= concat_inputs((i + 1) as nat));
        }
        i = i + 1;
    }
    let mut builded_filter = builded_filepaths;
    builded_filter.append(";");
    builded_filter.append(builded_concat_input.as_str());
    builded_filter.append("concat=n=");
    let n_str = u64_to_string(n as u64);
    builded_filter.append(n_str.as_str());
    builded_filter.append(":v=1:a=1[outv][outa]");
    let builded_map = String::from_str("-map \"n[outv]\" -map \"[outa]\" -vsync 0");
    proof {
        assert(builded_filter@ =~= merge_filter(n as nat));
    }
    (builded_filter, builded_map)
}

/// Every input `i < n` has its concat input label `[vi][i:a:0]` somewhere in
/// the label run for `n` inputs.
pub proof fn lemma_concat_inputs_contains_each(n: nat, i: nat)
    requires
        i < n,
    ensures
        exists|off: int|
            0 <= off && off + concat_label(i).len() <= concat_inputs(n).len()
                && #[trigger] concat_inputs(n).subrange(off, off + concat_label(i).len() as int)
                == concat_label(i),
    decreases n,
{
    let lab = concat_label(i);
    if i + 1 == n {
        let off = concat_inputs((n - 1) as nat).len() as int;
        assert(concat_inputs(n).subrange(off, off + lab.len() as int) =~= lab);
    } else {
        lemma_concat_inputs_contains_each((n - 1) as nat, i);
        let off = choose|off: int|
            0 <= off && off + lab.len() <= concat_inputs((n - 1) as nat).len()
                && #[trigger] concat_inputs((n - 1) as nat).subrange(off, off + lab.len() as int)
                == lab;
        assert(concat_inputs(n).subrange(off, off + lab.len() as int) =~= concat_inputs(
            (n - 1) as nat,
        ).subrange(off, off + lab.len() as int));
    }
}

/// The merge fragment names its input count: for `n >= 1` inputs it is the
/// `n` pass-through labels, the `n` concat input labels, and the directive
/// `concat=n=` followed by the numeral for `n`.
pub proof fn lemma_merge_filter_structure(n: nat)
    requires
        n >= 1,
    ensures
        merge_filter(n) == merge_labels(n) + ";"@ + concat_inputs(n) + "concat=n="@ + dec_str(n)
            + ":v=1:a=1[outv][outa]"@,
        concat_inputs(n) == concat_inputs((n - 1) as nat) + concat_label((n - 1) as nat),
        n > 1 ==> merge_labels(n) == merge_labels((n - 1) as nat) + ";"@ + merge_label(
            (n - 1) as nat,
        ),
{
}

} // verus!

