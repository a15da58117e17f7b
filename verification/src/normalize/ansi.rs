//! Removal of ANSI CSI escape sequences (colors, cursor movement) from raw bytes.
use vstd::prelude::*;

verus! {

pub open spec fn is_param_byte(b: u8) -> bool {
    0x30 <= b <= 0x3F
}

pub open spec fn is_intermediate_byte(b: u8) -> bool {
    0x20 <= b <= 0x2F
}

pub open spec fn is_final_byte(b: u8) -> bool {
    0x40 <= b <= 0x7E
}

/// The first position at or after `j` that is not a parameter byte.
pub open spec fn params_end(s: Seq<u8>, j: int) -> int
    decreases s.len() - j,
{
    if 0 <= j < s.len() && is_param_byte(s[j]) {
        params_end(s, j + 1)
    } else {
        j
    }
}

/// The first position at or after `j` that is not an intermediate byte.
pub open spec fn intermediates_end(s: Seq<u8>, j: int) -> int
    decreases s.len() - j,
{
    if 0 <= j < s.len() && is_intermediate_byte(s[j]) {
        intermediates_end(s, j + 1)
    } else {
        j
    }
}

/// Where a CSI sequence introduced at `i` (by `ESC [`) stops: the position just past
/// its parameter and intermediate bytes, where its final byte should be.
pub open spec fn csi_end(s: Seq<u8>, i: int) -> int {
    intermediates_end(s, params_end(s, i + 2))
}

pub open spec fn starts_csi(s: Seq<u8>, i: int) -> bool {
    0 <= i && i + 1 < s.len() && s[i] == 0x1B && s[i + 1] == 0x5B
}

proof fn lemma_params_end(s: Seq<u8>, j: int)
    requires
        0 <= j,
    ensures
        j <= params_end(s, j),
        j <= s.len() ==> params_end(s, j) <= s.len(),
    decreases s.len() - j,
{
    if 0 <= j < s.len() && is_param_byte(s[j]) {
        lemma_params_end(s, j + 1);
    }
}

proof fn lemma_intermediates_end(s: Seq<u8>, j: int)
    requires
        0 <= j,
    ensures
        j <= intermediates_end(s, j),
        j <= s.len() ==> intermediates_end(s, j) <= s.len(),
    decreases s.len() - j,
{
    if 0 <= j < s.len() && is_intermediate_byte(s[j]) {
        lemma_intermediates_end(s, j + 1);
    }
}

pub proof fn lemma_csi_end(s: Seq<u8>, i: int)
    requires
        starts_csi(s, i),
    ensures
        i + 2 <= csi_end(s, i) <= s.len(),
{
    lemma_params_end(s, i + 2);
    lemma_intermediates_end(s, params_end(s, i + 2));
}

/// The bytes of `s` from position `i` on, with every complete CSI sequence removed and
/// a sequence truncated by the end of input dropped too.
pub open spec fn strip_from(s: Seq<u8>, i: int) -> Seq<u8>
    decreases s.len() - i,
{
    if i < 0 || i >= s.len() {
        Seq::empty()
    } else if starts_csi(s, i) && (csi_end(s, i) >= s.len() || is_final_byte(s[csi_end(s, i)])) {
        proof {
            lemma_csi_end(s, i);
        }
        if csi_end(s, i) >= s.len() {
            Seq::empty()
        } else {
            strip_from(s, csi_end(s, i) + 1)
        }
    } else {
        seq![s[i]] + strip_from(s, i + 1)
    }
}

pub open spec fn strip_spec(s: Seq<u8>) -> Seq<u8> {
    strip_from(s, 0)
}

/// Strips ANSI CSI escape sequences (`ESC '[' params... final-byte` -- the color/cursor
/// codes terminal output actually uses). Doesn't handle OSC or other rarer escape forms.
pub fn strip(input: &[u8]) -> (out: Vec<u8>)
    ensures
        out@ == strip_spec(input@),
{
    let mut out: Vec<u8> = Vec::new();
    let mut i: usize = 0;
    while i < input.len()
        invariant
            i <= input.len(),
            strip_spec(input@) == out@ + strip_from(input@, i as int),
        decreases input.len() - i,
    {
        if input[i] == 0x1B && i + 1 < input.len() && input[i + 1] == 0x5B {
            let mut j = i + 2;
            while j < input.len() && 0x30 <= input[j] && input[j] <= 0x3F
                invariant
                    i + 2 <= j <= input.len(),
                    params_end(input@, i + 2) == params_end(input@, j as int),
                decreases input.len() - j,
            {
                j += 1;
            }
            let ghost pe = j;
            while j < input.len() && 0x20 <= input[j] && input[j] <= 0x2F
                invariant
                    pe <= j <= input.len(),
                    params_end(input@, i + 2) == pe,
                    intermediates_end(input@, pe as int) == intermediates_end(input@, j as int),
                decreases input.len() - j,
            {
                j += 1;
            }
            assert(j == csi_end(input@, i as int));
            if j >= input.len() {
                // Truncated at end of input: drop the incomplete remnant too.
                i = j;
                assert(strip_from(input@, i as int) == Seq::<u8>::empty());
                continue;
            }
            if 0x40 <= input[j] && input[j] <= 0x7E {
                // Valid final byte: the whole sequence is a real CSI code, strip it.
                i = j + 1;
                continue;
            }
            // Anything else isn't a valid final byte, so this isn't really a CSI
            // sequence -- leave it as literal text.
        }
        let ghost before = out@;
        out.push(input[i]);
        proof {
            assert(strip_from(input@, i as int) == seq![input@[i as int]] + strip_from(
                input@,
                i + 1,
            ));
            assert(out@ + strip_from(input@, i + 1) == before + strip_from(input@, i as int));
        }
        i += 1;
    }
    proof {
        assert(out@ + strip_from(input@, i as int) == out@);
    }
    out
}

proof fn lemma_plain_from(s: Seq<u8>, i: int)
    requires
        0 <= i <= s.len(),
        forall|k: int| 0 <= k < s.len() ==> s[k] != 0x1B,
    ensures
        strip_from(s, i) == s.skip(i),
    decreases s.len() - i,
{
    if i < s.len() {
        lemma_plain_from(s, i + 1);
        assert(seq![s[i]] + s.skip(i + 1) == s.skip(i));
    } else {
        assert(s.skip(i) == Seq::<u8>::empty());
    }
}

/// Text with no escape character at all passes through unchanged.
pub proof fn lemma_plain_text_unchanged(s: Seq<u8>)
    requires
        forall|k: int| 0 <= k < s.len() ==> s[k] != 0x1B,
    ensures
        strip_spec(s) == s,
{
    lemma_plain_from(s, 0);
    assert(s.skip(0) == s);
}

proof fn lemma_strip_from_len(s: Seq<u8>, i: int)
    requires
        0 <= i <= s.len(),
    ensures
        strip_from(s, i).len() <= s.len() - i,
    decreases s.len() - i,
{
    if i < s.len() {
        if starts_csi(s, i) && (csi_end(s, i) >= s.len() || is_final_byte(s[csi_end(s, i)])) {
            lemma_csi_end(s, i);
            if csi_end(s, i) < s.len() {
                lemma_strip_from_len(s, csi_end(s, i) + 1);
            }
        } else {
            lemma_strip_from_len(s, i + 1);
        }
    }
}

/// Stripping never lengthens the input.
pub proof fn lemma_strip_never_grows(s: Seq<u8>)
    ensures
        strip_spec(s).len() <= s.len(),
{
    lemma_strip_from_len(s, 0);
}

proof fn lemma_params_end_shift(x: Seq<u8>, b: Seq<u8>, j: int)
    requires
        0 <= j,
    ensures
        params_end(x + b, x.len() + j) == x.len() + params_end(b, j),
    decreases b.len() - j,
{
    if j < b.len() {
        assert((x + b)[x.len() + j] == b[j]);
        lemma_params_end_shift(x, b, j + 1);
    }
}

proof fn lemma_intermediates_end_shift(x: Seq<u8>, b: Seq<u8>, j: int)
    requires
        0 <= j,
    ensures
        intermediates_end(x + b, x.len() + j) == x.len() + intermediates_end(b, j),
    decreases b.len() - j,
{
    if j < b.len() {
        assert((x + b)[x.len() + j] == b[j]);
        lemma_intermediates_end_shift(x, b, j + 1);
    }
}

/// Stripping what follows a prefix does not depend on the prefix.
proof fn lemma_strip_from_shift(x: Seq<u8>, b: Seq<u8>, j: int)
    requires
        0 <= j,
    ensures
        strip_from(x + b, x.len() + j) == strip_from(b, j),
    decreases b.len() - j,
{
    let s = x + b;
    let i = x.len() + j;
    if j < b.len() {
        assert(s[i] == b[j]);
        if j + 1 < b.len() {
            assert(s[i + 1] == b[j + 1]);
        }
        assert(starts_csi(s, i) == starts_csi(b, j));
        lemma_params_end_shift(x, b, j + 2);
        lemma_params_end(b, j + 2);
        lemma_intermediates_end_shift(x, b, params_end(b, j + 2));
        assert(csi_end(s, i) == x.len() + csi_end(b, j));
        if starts_csi(b, j) {
            lemma_csi_end(b, j);
            if csi_end(b, j) < b.len() {
                assert(s[csi_end(s, i)] == b[csi_end(b, j)]);
                lemma_strip_from_shift(x, b, csi_end(b, j) + 1);
            }
        }
        lemma_strip_from_shift(x, b, j + 1);
    }
}

/// Over a run of parameter bytes `s[from..to]` that reaches or is followed by a byte
/// that is none, the parameters end at `to`.
proof fn lemma_params_run(s: Seq<u8>, from: int, to: int)
    requires
        0 <= from <= to <= s.len(),
        forall|k: int| from <= k < to ==> 0x30 <= #[trigger] s[k] <= 0x3F,
        to < s.len() ==> !(0x30 <= s[to] <= 0x3F),
    ensures
        params_end(s, from) == to,
    decreases to - from,
{
    if from < to {
        lemma_params_run(s, from + 1, to);
    }
}

/// Over a prefix of `s` free of the escape byte, stripping copies it through.
proof fn lemma_plain_prefix(s: Seq<u8>, a: Seq<u8>, i: int)
    requires
        0 <= i <= a.len() <= s.len(),
        forall|k: int| 0 <= k < a.len() ==> #[trigger] a[k] != 0x1B && s[k] == a[k],
    ensures
        strip_from(s, i) == a.skip(i) + strip_from(s, a.len() as int),
    decreases a.len() - i,
{
    if i < a.len() {
        lemma_plain_prefix(s, a, i + 1);
        assert(s[i] == a[i]);
        assert(a.skip(i) == seq![a[i]] + a.skip(i + 1));
    } else {
        assert(a.skip(i) == Seq::<u8>::empty());
    }
}

/// Over a run of intermediate bytes `s[from..to]` that reaches or is followed by a byte
/// that is none, the intermediates end at `to`.
proof fn lemma_intermediates_run(s: Seq<u8>, from: int, to: int)
    requires
        0 <= from <= to <= s.len(),
        forall|k: int| from <= k < to ==> 0x20 <= #[trigger] s[k] <= 0x2F,
        to < s.len() ==> !(0x20 <= s[to] <= 0x2F),
    ensures
        intermediates_end(s, from) == to,
    decreases to - from,
{
    if from < to {
        lemma_intermediates_run(s, from + 1, to);
    }
}

/// A CSI sequence -- `ESC '['`, parameter bytes `p` in `0x30..=0x3F` (digits and `;`
/// alike), intermediate bytes `q` in `0x20..=0x2F` -- that follows text free of escapes:
/// with a final byte `f` in `0x40..=0x7E` it is removed whole and the rest of the input
/// is stripped as if it stood alone (`strip(a + ESC '[' p q f + b) == strip(a) + strip(b)`);
/// cut off by the end of the input, it is dropped (`strip(a + ESC '[' p q) == strip(a)`).
pub proof fn lemma_csi_sequence_removed(a: Seq<u8>, p: Seq<u8>, q: Seq<u8>, f: u8, b: Seq<u8>)
    requires
        forall|k: int| 0 <= k < a.len() ==> a[k] != 0x1B,
        forall|k: int| 0 <= k < p.len() ==> 0x30 <= #[trigger] p[k] <= 0x3F,
        forall|k: int| 0 <= k < q.len() ==> 0x20 <= #[trigger] q[k] <= 0x2F,
        0x40 <= f <= 0x7E,
    ensures
        strip_spec(a + seq![0x1Bu8, 0x5Bu8] + p + q + seq![f] + b) == strip_spec(a) + strip_spec(
            b,
        ),
        strip_spec(a + seq![0x1Bu8, 0x5Bu8] + p + q) == strip_spec(a),
{
    lemma_plain_text_unchanged(a);
    let pre = a + seq![0x1Bu8, 0x5Bu8] + p + q + seq![f];
    let s = pre + b;
    let u = a + seq![0x1Bu8, 0x5Bu8] + p + q;
    assert(a + seq![0x1Bu8, 0x5Bu8] + p + q + seq![f] + b == s);
    let i = a.len() as int;
    let m = i + 2 + p.len();
    let e = m + q.len();
    // The complete sequence.
    assert forall|k: int| 0 <= k < a.len() implies #[trigger] a[k] != 0x1B && s[k] == a[k] by {
        assert(s[k] == a[k]);
    }
    lemma_plain_prefix(s, a, 0);
    assert(a.skip(0) == a);
    assert(s[i] == 0x1B && s[i + 1] == 0x5B);
    assert(s[m] == if q.len() > 0 { q[0] } else { f });
    assert(s[e] == f);
    assert forall|k: int| i + 2 <= k < m implies 0x30 <= #[trigger] s[k] <= 0x3F by {
        assert(s[k] == p[k - i - 2]);
    }
    assert forall|k: int| m <= k < e implies 0x20 <= #[trigger] s[k] <= 0x2F by {
        assert(s[k] == q[k - m]);
    }
    lemma_params_run(s, i + 2, m);
    lemma_intermediates_run(s, m, e);
    assert(csi_end(s, i) == e);
    assert(pre.len() == e + 1);
    lemma_strip_from_shift(pre, b, 0);
    assert(strip_from(s, i) == strip_from(s, e + 1));
    // The sequence cut off by the end of the input.
    assert forall|k: int| 0 <= k < a.len() implies #[trigger] a[k] != 0x1B && u[k] == a[k] by {
        assert(u[k] == a[k]);
    }
    lemma_plain_prefix(u, a, 0);
    assert(u[i] == 0x1B && u[i + 1] == 0x5B);
    assert forall|k: int| i + 2 <= k < m implies 0x30 <= #[trigger] u[k] <= 0x3F by {
        assert(u[k] == p[k - i - 2]);
    }
    assert forall|k: int| m <= k < e implies 0x20 <= #[trigger] u[k] <= 0x2F by {
        assert(u[k] == q[k - m]);
    }
    lemma_params_run(u, i + 2, m);
    lemma_intermediates_run(u, m, e);
    assert(csi_end(u, i) == e);
    assert(u.len() == e);
    assert(a + Seq::<u8>::empty() == a);
}

/// An `ESC '['` whose parameter bytes `p` run into a byte `g` that can neither continue
/// nor end the sequence (another `ESC`, a control character, a byte above `0x7E`) is not
/// a CSI sequence: it stays in the output as literal text, and stripping resumes at `g`.
pub proof fn lemma_broken_sequence_kept(a: Seq<u8>, p: Seq<u8>, g: u8, b: Seq<u8>)
    requires
        forall|k: int| 0 <= k < a.len() ==> a[k] != 0x1B,
        forall|k: int| 0 <= k < p.len() ==> 0x30 <= #[trigger] p[k] <= 0x3F,
        !(0x20 <= g <= 0x7E),
    ensures
        strip_spec(a + seq![0x1Bu8, 0x5Bu8] + p + seq![g] + b) == strip_spec(a) + seq![
            0x1Bu8,
            0x5Bu8,
        ] + p + strip_spec(seq![g] + b),
{
    lemma_plain_text_unchanged(a);
    let lit = seq![0x5Bu8] + p;
    let x = a + seq![0x1Bu8];
    let rest = lit + (seq![g] + b);
    let s = x + rest;
    assert(a + seq![0x1Bu8, 0x5Bu8] + p + seq![g] + b == s);
    let i = a.len() as int;
    let m = i + 2 + p.len();
    // The escape-free text before the escape byte.
    assert forall|k: int| 0 <= k < a.len() implies #[trigger] a[k] != 0x1B && s[k] == a[k] by {
        assert(s[k] == a[k]);
    }
    lemma_plain_prefix(s, a, 0);
    assert(a.skip(0) == a);
    // The escape byte: its sequence stops at `g`, which is no final byte.
    assert(s[i] == 0x1B && s[i + 1] == 0x5B);
    assert(s[m] == g);
    assert forall|k: int| i + 2 <= k < m implies 0x30 <= #[trigger] s[k] <= 0x3F by {
        assert(s[k] == p[k - i - 2]);
    }
    lemma_params_run(s, i + 2, m);
    assert(intermediates_end(s, m) == m);
    assert(csi_end(s, i) == m);
    assert(strip_from(s, i) == seq![0x1Bu8] + strip_from(s, i + 1));
    // The `[` and the parameter bytes: no escape among them.
    lemma_strip_from_shift(x, rest, 0);
    assert forall|k: int| 0 <= k < lit.len() implies #[trigger] lit[k] != 0x1B && rest[k]
        == lit[k] by {
        if k > 0 {
            assert(lit[k] == p[k - 1]);
        }
    }
    lemma_plain_prefix(rest, lit, 0);
    assert(lit.skip(0) == lit);
    lemma_strip_from_shift(lit, seq![g] + b, 0);
    assert(strip_from(s, i + 1) == lit + strip_spec(seq![g] + b));
    assert(seq![0x1Bu8] + (lit + strip_spec(seq![g] + b)) == seq![0x1Bu8, 0x5Bu8] + p
        + strip_spec(seq![g] + b));
}

} // verus!
