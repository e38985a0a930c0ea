//! The general guarantees of the transform, stated over the scanner's model
//! and proved once for every input.

use vstd::prelude::*;

use crate::scanner::COMMA;
use crate::scanner::HASH;
use crate::scanner::RIGHT_BRACE;
use crate::scanner::RIGHT_BRACKET;
use crate::scanner::SLASH;
use crate::scanner::QUOTE;
use crate::scanner::SPACE;
use crate::scanner::ScanModel;
use crate::scanner::ScanState;
use crate::scanner::is_line_break_byte;
use crate::scanner::lemma_scan_stuck;
use crate::scanner::lemma_step_wf;
use crate::scanner::model_wf;
use crate::scanner::scan_bytes;
use crate::scanner::scan_step;
use crate::scanner::start_model;
use crate::settings::CommentSettings;

verus! {

/// The model after the first `i` bytes of `input`, scanning from state `s0`.
pub open spec fn model_at(cfg: CommentSettings, s0: ScanState, input: Seq<u8>, i: int) -> ScanModel {
    scan_bytes(cfg, start_model(s0), input.take(i))
}

/// The output of the whole transform on `input`, scanning from state `s0`.
pub open spec fn output_of(cfg: CommentSettings, s0: ScanState, input: Seq<u8>) -> Seq<u8> {
    scan_bytes(cfg, start_model(s0), input).bytes
}

/// Length invariance: a scan writes exactly one byte per input byte, so the
/// output of the transform always has the length of its input.
pub proof fn lemma_scan_preserves_len(cfg: CommentSettings, m: ScanModel, input: Seq<u8>)
    requires
        model_wf(m),
    ensures
        scan_bytes(cfg, m, input).bytes.len() == m.bytes.len() + input.len(),
    decreases input.len(),
{
    if input.len() > 0 {
        let m2 = scan_step(cfg, m, input.first());
        lemma_step_wf(cfg, m, input.first());
        assert(m2.bytes.len() == m.bytes.len() + 1);
        lemma_scan_preserves_len(cfg, m2, input.drop_first());
    }
}

/// A scan keeps its pending comma well formed.
pub proof fn lemma_scan_wf(cfg: CommentSettings, m: ScanModel, input: Seq<u8>)
    requires
        model_wf(m),
    ensures
        model_wf(scan_bytes(cfg, m, input)),
    decreases input.len(),
{
    if input.len() > 0 {
        lemma_step_wf(cfg, m, input.first());
        lemma_scan_wf(cfg, scan_step(cfg, m, input.first()), input.drop_first());
    }
}

/// Scanning an input in two pieces, carrying the whole model across, is one
/// scan of the concatenation.
pub proof fn lemma_scan_append(cfg: CommentSettings, m: ScanModel, a: Seq<u8>, b: Seq<u8>)
    ensures
        scan_bytes(cfg, m, a + b) == scan_bytes(cfg, scan_bytes(cfg, m, a), b),
    decreases a.len(),
{
    if a.len() == 0 {
        assert(a + b =~= b);
    } else {
        assert((a + b).first() == a.first());
        assert((a + b).drop_first() =~= a.drop_first() + b);
        lemma_scan_append(cfg, scan_step(cfg, m, a.first()), a.drop_first(), b);
    }
}

/// Scanning one more byte after `w` is one step on the model that `w` left.
pub proof fn lemma_scan_snoc(cfg: CommentSettings, m: ScanModel, w: Seq<u8>, b: u8)
    ensures
        scan_bytes(cfg, m, w.push(b)) == scan_step(cfg, scan_bytes(cfg, m, w), b),
{
    let single = seq![b];
    assert(w.push(b) =~= w + single);
    lemma_scan_append(cfg, m, w, single);
    let m1 = scan_bytes(cfg, m, w);
    assert(single.first() == b);
    assert(single.drop_first() =~= Seq::<u8>::empty());
    assert(scan_bytes(cfg, m1, single) == scan_bytes(
        cfg,
        scan_step(cfg, m1, b),
        Seq::<u8>::empty(),
    ));
    assert(scan_bytes(cfg, scan_step(cfg, m1, b), Seq::<u8>::empty()) == scan_step(cfg, m1, b));
}

/// `m`, seen as the continuation of a scan that already wrote `w`.
pub open spec fn shift_model(w: Seq<u8>, m: ScanModel) -> ScanModel {
    ScanModel {
        bytes: w + m.bytes,
        state: m.state,
        pending: match m.pending {
            Some(q) => Some(q + w.len()),
            None => None,
        },
        ok: m.ok,
    }
}

/// Scanning does not look back past its starting point: a scan that already
/// wrote `w` continues exactly as a scan of the same input from a fresh
/// buffer, with every position shifted by the length of `w`.
pub proof fn lemma_scan_shift(cfg: CommentSettings, w: Seq<u8>, m: ScanModel, input: Seq<u8>)
    requires
        model_wf(m),
    ensures
        scan_bytes(cfg, shift_model(w, m), input) == shift_model(w, scan_bytes(cfg, m, input)),
    decreases input.len(),
{
    if input.len() > 0 {
        let b = input.first();
        let m2 = scan_step(cfg, m, b);
        assert(scan_step(cfg, shift_model(w, m), b) =~= shift_model(w, m2)) by {
            assert((w + m.bytes).push(b) =~= w + m.bytes.push(b));
            assert((w + m.bytes).push(SPACE) =~= w + m.bytes.push(SPACE));
            match m.pending {
                Some(q) => {
                    if m.ok {
                        assert((w + m.bytes).update(q + w.len(), SPACE) =~= w + m.bytes.update(
                            q,
                            SPACE,
                        ));
                        assert((w + m.bytes).update(q + w.len(), SPACE).push(b) =~= w
                            + m.bytes.update(q, SPACE).push(b));
                    }
                },
                None => {},
            }
        };
        lemma_step_wf(cfg, m, b);
        lemma_scan_shift(cfg, w, m2, input.drop_first());
    }
}

/// Streaming equivalence: a scan split at a chunk boundary where the first
/// chunk ended validly with no comma pending rewrites the text exactly as
/// one scan of the concatenation, and ends in the same state.
///
/// The condition on the boundary is needed: a trailing-comma candidate is
/// tracked only within one chunk, because its byte has already been handed
/// back to the caller when the next chunk arrives.
pub proof fn lemma_streaming_equivalence(cfg: CommentSettings, s0: ScanState, a: Seq<u8>, b: Seq<u8>)
    requires
        scan_bytes(cfg, start_model(s0), a).ok,
        scan_bytes(cfg, start_model(s0), a).pending is None,
    ensures
        ({
            let first_chunk = scan_bytes(cfg, start_model(s0), a);
            let second_chunk = scan_bytes(cfg, start_model(first_chunk.state), b);
            let whole = scan_bytes(cfg, start_model(s0), a + b);
            &&& whole.bytes == first_chunk.bytes + second_chunk.bytes
            &&& whole.state == second_chunk.state
            &&& whole.ok == second_chunk.ok
        }),
{
    let m1 = scan_bytes(cfg, start_model(s0), a);
    lemma_scan_append(cfg, start_model(s0), a, b);
    assert(m1 =~= shift_model(m1.bytes, start_model(m1.state)));
    lemma_scan_shift(cfg, m1.bytes, start_model(m1.state), b);
}

/// The scan of a stream fed chunk by chunk: each chunk is scanned from the
/// lexical state the previous chunk left, with a fresh trailing-comma
/// register, exactly as repeated [`crate::strip_buf`] calls do.
pub open spec fn scan_chunks(cfg: CommentSettings, s0: ScanState, chunks: Seq<Seq<u8>>) -> ScanModel
    decreases chunks.len(),
{
    if chunks.len() == 0 {
        start_model(s0)
    } else {
        let prev = scan_chunks(cfg, s0, chunks.drop_last());
        let last = scan_bytes(cfg, start_model(prev.state), chunks.last());
        ScanModel {
            bytes: prev.bytes + last.bytes,
            state: last.state,
            pending: last.pending,
            ok: prev.ok && last.ok,
        }
    }
}

/// Every chunk boundary falls where the scan of the text so far is valid
/// and no comma is pending.
pub open spec fn clean_split(cfg: CommentSettings, s0: ScanState, chunks: Seq<Seq<u8>>) -> bool {
    forall|n: int|
        0 <= n < chunks.len() ==> ({
            let m = scan_bytes(cfg, start_model(s0), (#[trigger] chunks.take(n)).flatten());
            m.ok && m.pending is None
        })
}

/// Streaming equivalence for any number of chunks: fed sequentially through
/// the chunked scan, a text is rewritten exactly as one scan of the whole,
/// and ends in the same state, provided every chunk boundary falls where no
/// comma is pending.  The condition is needed: a trailing-comma candidate is
/// tracked only within one chunk, because its byte has already been handed
/// back to the caller when the next chunk arrives.
pub proof fn lemma_chunked_scan_matches_whole(cfg: CommentSettings, s0: ScanState, chunks: Seq<Seq<u8>>)
    requires
        clean_split(cfg, s0, chunks),
    ensures
        ({
            let whole = scan_bytes(cfg, start_model(s0), chunks.flatten());
            let chunked = scan_chunks(cfg, s0, chunks);
            &&& chunked.bytes == whole.bytes
            &&& chunked.state == whole.state
            &&& chunked.ok == whole.ok
        }),
    decreases chunks.len(),
{
    if chunks.len() == 0 {
        assert(chunks.flatten() =~= Seq::<u8>::empty());
    } else {
        let pre = chunks.drop_last();
        let lastc = chunks.last();
        assert forall|n: int| 0 <= n < pre.len() implies ({
            let m = scan_bytes(cfg, start_model(s0), (#[trigger] pre.take(n)).flatten());
            m.ok && m.pending is None
        }) by {
            assert(pre.take(n) =~= chunks.take(n));
        }
        lemma_chunked_scan_matches_whole(cfg, s0, pre);
        chunks.lemma_flatten_and_flatten_alt_are_equivalent();
        pre.lemma_flatten_and_flatten_alt_are_equivalent();
        assert(chunks.flatten_alt() == pre.flatten_alt() + lastc);
        assert(chunks.take(chunks.len() - 1) =~= pre);
        lemma_streaming_equivalence(cfg, s0, pre.flatten(), lastc);
    }
}

/// Every byte the transform alters becomes an ASCII space: position by
/// position, a scan's output either repeats the byte it was given or holds a
/// space.  In particular line breaks inside comments are among the bytes
/// kept, never rewritten to something else.
pub proof fn lemma_scan_blank_or_same(cfg: CommentSettings, m: ScanModel, input: Seq<u8>)
    requires
        model_wf(m),
    ensures
        forall|j: int|
            0 <= j < m.bytes.len() ==> #[trigger] scan_bytes(cfg, m, input).bytes[j] == m.bytes[j]
                || scan_bytes(cfg, m, input).bytes[j] == SPACE,
        forall|j: int|
            m.bytes.len() <= j < m.bytes.len() + input.len() ==> #[trigger] scan_bytes(
                cfg,
                m,
                input,
            ).bytes[j] == input[j - m.bytes.len()] || scan_bytes(cfg, m, input).bytes[j] == SPACE,
    decreases input.len(),
{
    if input.len() > 0 {
        let b = input.first();
        let m2 = scan_step(cfg, m, b);
        lemma_step_wf(cfg, m, b);
        lemma_scan_preserves_len(cfg, m2, input.drop_first());
        lemma_scan_blank_or_same(cfg, m2, input.drop_first());
        assert(m2.bytes.len() == m.bytes.len() + 1);
        assert(forall|j: int|
            0 <= j < m.bytes.len() ==> #[trigger] m2.bytes[j] == m.bytes[j] || m2.bytes[j]
                == SPACE);
        assert(m2.bytes[m.bytes.len() as int] == b || m2.bytes[m.bytes.len() as int] == SPACE);
        assert(forall|k: int|
            0 <= k < input.drop_first().len() ==> #[trigger] input.drop_first()[k] == input[k + 1]);
    }
}

/// The form of the law above for a whole transform: the output repeats the
/// input byte for byte, except for bytes rewritten to spaces.
pub proof fn lemma_transform_only_blanks(cfg: CommentSettings, s0: ScanState, input: Seq<u8>)
    ensures
        output_of(cfg, s0, input).len() == input.len(),
        forall|j: int|
            0 <= j < input.len() ==> #[trigger] output_of(cfg, s0, input)[j] == input[j]
                || output_of(cfg, s0, input)[j] == SPACE,
{
    lemma_scan_preserves_len(cfg, start_model(s0), input);
    lemma_scan_blank_or_same(cfg, start_model(s0), input);
}

/// Folding one more byte onto a prefix is one step of the machine.
pub proof fn lemma_model_at_snoc(cfg: CommentSettings, s0: ScanState, input: Seq<u8>, i: int)
    requires
        0 <= i < input.len(),
    ensures
        model_at(cfg, s0, input, i + 1) == scan_step(cfg, model_at(cfg, s0, input, i), input[i]),
{
    assert(input.take(i + 1) =~= input.take(i).push(input[i]));
    lemma_scan_snoc(cfg, start_model(s0), input.take(i), input[i]);
}

/// After `k` bytes the machine has written `k` bytes.
pub proof fn lemma_model_at_len(cfg: CommentSettings, s0: ScanState, input: Seq<u8>, k: int)
    requires
        0 <= k <= input.len(),
    ensures
        model_at(cfg, s0, input, k).bytes.len() == k,
{
    lemma_scan_preserves_len(cfg, start_model(s0), input.take(k));
}

/// The machine is well formed after any prefix.
pub proof fn lemma_model_at_wf(cfg: CommentSettings, s0: ScanState, input: Seq<u8>, k: int)
    ensures
        model_wf(model_at(cfg, s0, input, k)),
{
    lemma_scan_wf(cfg, start_model(s0), input.take(k));
}

/// A scan that succeeds was valid after every prefix.
pub proof fn lemma_prefix_ok(cfg: CommentSettings, s0: ScanState, input: Seq<u8>, k: int)
    requires
        0 <= k <= input.len(),
        scan_bytes(cfg, start_model(s0), input).ok,
    ensures
        model_at(cfg, s0, input, k).ok,
{
    assert(input.take(k) + input.skip(k) =~= input);
    lemma_scan_append(cfg, start_model(s0), input.take(k), input.skip(k));
    if !model_at(cfg, s0, input, k).ok {
        lemma_scan_stuck(cfg, model_at(cfg, s0, input, k), input.skip(k));
    }
}

/// A pending comma always goes back to a comma byte consumed at top level
/// with trailing-comma rewriting enabled.
pub proof fn lemma_pending_origin(cfg: CommentSettings, s0: ScanState, input: Seq<u8>, k: int)
    requires
        0 <= k <= input.len(),
    ensures
        model_at(cfg, s0, input, k).pending matches Some(q) ==> 0 <= q < k && model_at(
            cfg,
            s0,
            input,
            q,
        ).state is Top && input[q] == COMMA && cfg.trailing_commas,
    decreases k,
{
    if k == 0 {
        assert(input.take(0) =~= Seq::<u8>::empty());
    } else {
        lemma_pending_origin(cfg, s0, input, k - 1);
        lemma_model_at_snoc(cfg, s0, input, k - 1);
        lemma_model_at_len(cfg, s0, input, k - 1);
    }
}

/// How one output position can change after it is written: it stays what the
/// step at that position wrote, except that a comma consumed at top level
/// may later be blanked, once, to a space.
pub proof fn lemma_byte_stable(
    cfg: CommentSettings,
    s0: ScanState,
    input: Seq<u8>,
    j: int,
    k1: int,
    k2: int,
)
    requires
        0 <= j < k1 <= k2 <= input.len(),
    ensures
        ({
            let b1 = model_at(cfg, s0, input, k1).bytes[j];
            let b2 = model_at(cfg, s0, input, k2).bytes[j];
            b2 == b1 || (b1 == COMMA && b2 == SPACE && model_at(cfg, s0, input, j).state is Top
                && input[j] == COMMA && cfg.trailing_commas)
        }),
    decreases k2 - k1,
{
    if k1 < k2 {
        lemma_byte_stable(cfg, s0, input, j, k1, k2 - 1);
        lemma_model_at_snoc(cfg, s0, input, k2 - 1);
        lemma_model_at_len(cfg, s0, input, k2 - 1);
        lemma_model_at_wf(cfg, s0, input, k2 - 1);
        lemma_pending_origin(cfg, s0, input, k2 - 1);
    }
}

/// String-content immutability: a byte consumed inside a string literal --
/// its closing quote and the byte after an escape included -- and the quote
/// that opens one are never altered by the transform.
pub proof fn lemma_string_bytes_untouched(
    cfg: CommentSettings,
    s0: ScanState,
    input: Seq<u8>,
    i: int,
)
    requires
        0 <= i < input.len(),
        model_at(cfg, s0, input, i).state is InString || model_at(cfg, s0, input, i).state
            is StringEscape || (model_at(cfg, s0, input, i).state is Top && input[i] == QUOTE),
    ensures
        output_of(cfg, s0, input)[i] == input[i],
{
    lemma_model_at_snoc(cfg, s0, input, i);
    lemma_model_at_len(cfg, s0, input, i);
    lemma_model_at_wf(cfg, s0, input, i);
    lemma_byte_stable(cfg, s0, input, i, i + 1, input.len() as int);
    assert(input.take(input.len() as int) =~= input);
}

/// The state a second scan of an output is in wherever the first scan was in
/// state `s`.  Comments have been rewritten to whitespace, so on a rescan
/// only the string states survive; everywhere else the rescan sits at top
/// level.
pub open spec fn rescan_state(s: ScanState) -> ScanState {
    match s {
        ScanState::InString => ScanState::InString,
        ScanState::StringEscape => ScanState::StringEscape,
        _ => ScanState::Top,
    }
}

/// Where a second scan of an output sees a pending comma, given where the
/// first scan saw one: at the same place, provided that comma survived into
/// the output.
pub open spec fn rescan_pending(p: Option<int>, w: Seq<u8>) -> Option<int> {
    match p {
        Some(q) => if 0 <= q < w.len() && w[q] == COMMA {
            Some(q)
        } else {
            None
        },
        None => None,
    }
}

/// Position `i` consumes a comma at top level that supersedes a comma still
/// pending, and is itself blanked later.  The superseded comma then survives
/// into the output with only whitespace between it and a closing bracket --
/// the one way a run of the transform can leave a trailing comma behind.
pub open spec fn supersedes_and_blanked(
    cfg: CommentSettings,
    s0: ScanState,
    input: Seq<u8>,
    i: int,
) -> bool {
    &&& model_at(cfg, s0, input, i).state is Top
    &&& model_at(cfg, s0, input, i).pending is Some
    &&& input[i] == COMMA
    &&& cfg.trailing_commas
    &&& output_of(cfg, s0, input)[i] == SPACE
}

/// No comma of the input supersedes a still-pending comma and is then
/// blanked itself.
pub open spec fn no_superseded_trailing_comma(
    cfg: CommentSettings,
    s0: ScanState,
    input: Seq<u8>,
) -> bool {
    forall|i: int| 0 <= i < input.len() ==> !supersedes_and_blanked(cfg, s0, input, i)
}

/// A second scan runs in lockstep with the first: after any prefix of the
/// output it has rewritten nothing, sits in the corresponding state, and
/// holds the corresponding pending comma.
#[verifier::rlimit(60)]
proof fn lemma_rescan_sim(cfg: CommentSettings, s0: ScanState, input: Seq<u8>, k: int)
    requires
        0 <= k <= input.len(),
        rescan_state(s0) == ScanState::Top,
        scan_bytes(cfg, start_model(s0), input).ok,
        no_superseded_trailing_comma(cfg, s0, input),
    ensures
        ({
            let w = output_of(cfg, s0, input);
            let a = model_at(cfg, s0, input, k);
            let r = model_at(cfg, ScanState::Top, w, k);
            &&& r.ok
            &&& r.state == rescan_state(a.state)
            &&& r.bytes == w.take(k)
            &&& r.pending == rescan_pending(a.pending, w)
        }),
    decreases k,
{
    let w = output_of(cfg, s0, input);
    let len = input.len() as int;
    lemma_scan_preserves_len(cfg, start_model(s0), input);
    assert(input.take(len) =~= input);
    assert(model_at(cfg, s0, input, len) == scan_bytes(cfg, start_model(s0), input));
    if k == 0 {
        assert(input.take(0) =~= Seq::<u8>::empty());
        assert(w.take(0) =~= Seq::<u8>::empty());
    } else {
        lemma_rescan_sim(cfg, s0, input, k - 1);
        let a0 = model_at(cfg, s0, input, k - 1);
        let a1 = model_at(cfg, s0, input, k);
        let r0 = model_at(cfg, ScanState::Top, w, k - 1);
        let b = input[k - 1];
        lemma_model_at_snoc(cfg, s0, input, k - 1);
        lemma_model_at_snoc(cfg, ScanState::Top, w, k - 1);
        lemma_model_at_len(cfg, s0, input, k - 1);
        lemma_model_at_wf(cfg, s0, input, k - 1);
        lemma_model_at_wf(cfg, ScanState::Top, w, k - 1);
        lemma_pending_origin(cfg, s0, input, k - 1);
        lemma_prefix_ok(cfg, s0, input, k - 1);
        lemma_prefix_ok(cfg, s0, input, k);
        lemma_byte_stable(cfg, s0, input, k - 1, k, len);
        assert(w.take(k) =~= w.take(k - 1).push(w[k - 1]));
        match a0.state {
            ScanState::Top => {
                if b == QUOTE {
                    assert(w[k - 1] == QUOTE);
                } else if b == SLASH && (cfg.block_comments || cfg.slash_line_comments) {
                    assert(w[k - 1] == SPACE);
                } else if b == HASH && cfg.hash_line_comments {
                    assert(w[k - 1] == SPACE);
                } else if b == COMMA && cfg.trailing_commas {
                    if a0.pending is Some {
                        assert(!supersedes_and_blanked(cfg, s0, input, k - 1));
                        assert(w[k - 1] == COMMA);
                    }
                } else if b == RIGHT_BRACE || b == RIGHT_BRACKET {
                    assert(w[k - 1] == b);
                    match a0.pending {
                        Some(q) => {
                            lemma_byte_stable(cfg, s0, input, q, k, len);
                            assert(a1.bytes[q] == SPACE);
                            assert(w[q] == SPACE);
                        },
                        None => {},
                    }
                } else {
                    assert(w[k - 1] == b);
                }
            },
            ScanState::InString => {
                assert(w[k - 1] == b);
            },
            ScanState::StringEscape => {
                assert(w[k - 1] == b);
            },
            ScanState::InComment => {
                assert(w[k - 1] == SPACE);
            },
            ScanState::InBlockComment => {
                assert(is_line_break_byte(b) ==> w[k - 1] == b);
                assert(!is_line_break_byte(b) ==> w[k - 1] == SPACE);
            },
            ScanState::MaybeBlockCommentEnd => {
                assert(is_line_break_byte(b) ==> w[k - 1] == b);
                assert(!is_line_break_byte(b) ==> w[k - 1] == SPACE);
            },
            ScanState::InLineComment => {
                assert(is_line_break_byte(b) ==> w[k - 1] == b);
                assert(!is_line_break_byte(b) ==> w[k - 1] == SPACE);
            },
        }
    }
}

/// A second run in lockstep with the first, without any condition on the
/// commas: the rescan stays valid and in the corresponding state, and every
/// byte it writes is the byte it read, except commas, which it may blank.
proof fn lemma_rescan_weak_sim(cfg: CommentSettings, s0: ScanState, input: Seq<u8>, k: int)
    requires
        0 <= k <= input.len(),
        rescan_state(s0) == ScanState::Top,
        scan_bytes(cfg, start_model(s0), input).ok,
    ensures
        ({
            let w = output_of(cfg, s0, input);
            let a = model_at(cfg, s0, input, k);
            let r = model_at(cfg, ScanState::Top, w, k);
            &&& r.ok
            &&& r.state == rescan_state(a.state)
            &&& r.bytes.len() == k
            &&& forall|j: int|
                0 <= j < k ==> #[trigger] r.bytes[j] == w[j] || (w[j] == COMMA && r.bytes[j]
                    == SPACE)
        }),
    decreases k,
{
    let w = output_of(cfg, s0, input);
    let len = input.len() as int;
    lemma_scan_preserves_len(cfg, start_model(s0), input);
    assert(input.take(len) =~= input);
    assert(model_at(cfg, s0, input, len) == scan_bytes(cfg, start_model(s0), input));
    if k == 0 {
        assert(input.take(0) =~= Seq::<u8>::empty());
        assert(w.take(0) =~= Seq::<u8>::empty());
    } else {
        lemma_rescan_weak_sim(cfg, s0, input, k - 1);
        let a0 = model_at(cfg, s0, input, k - 1);
        let r0 = model_at(cfg, ScanState::Top, w, k - 1);
        let b = input[k - 1];
        lemma_model_at_snoc(cfg, s0, input, k - 1);
        lemma_model_at_snoc(cfg, ScanState::Top, w, k - 1);
        lemma_model_at_len(cfg, s0, input, k - 1);
        lemma_model_at_wf(cfg, s0, input, k - 1);
        lemma_model_at_wf(cfg, ScanState::Top, w, k - 1);
        lemma_prefix_ok(cfg, s0, input, k - 1);
        lemma_prefix_ok(cfg, s0, input, k);
        lemma_byte_stable(cfg, s0, input, k - 1, k, len);
        // what the rescan blanks at a bracket is a comma of the output
        match r0.pending {
            Some(q) => {
                assert(r0.bytes[q] == COMMA);
                assert(w[q] == COMMA);
            },
            None => {},
        }
        match a0.state {
            ScanState::Top => {
                if b == QUOTE {
                    assert(w[k - 1] == QUOTE);
                } else if b == SLASH && (cfg.block_comments || cfg.slash_line_comments) {
                    assert(w[k - 1] == SPACE);
                } else if b == HASH && cfg.hash_line_comments {
                    assert(w[k - 1] == SPACE);
                } else if b == COMMA && cfg.trailing_commas {
                    assert(w[k - 1] == COMMA || w[k - 1] == SPACE);
                } else if b == RIGHT_BRACE || b == RIGHT_BRACKET {
                    assert(w[k - 1] == b);
                } else {
                    assert(w[k - 1] == b);
                }
            },
            ScanState::InString => {
                assert(w[k - 1] == b);
            },
            ScanState::StringEscape => {
                assert(w[k - 1] == b);
            },
            ScanState::InComment => {
                assert(w[k - 1] == SPACE);
            },
            ScanState::InBlockComment => {
                assert(is_line_break_byte(b) ==> w[k - 1] == b);
                assert(!is_line_break_byte(b) ==> w[k - 1] == SPACE);
            },
            ScanState::MaybeBlockCommentEnd => {
                assert(is_line_break_byte(b) ==> w[k - 1] == b);
                assert(!is_line_break_byte(b) ==> w[k - 1] == SPACE);
            },
            ScanState::InLineComment => {
                assert(is_line_break_byte(b) ==> w[k - 1] == b);
                assert(!is_line_break_byte(b) ==> w[k - 1] == SPACE);
            },
        }
    }
}

/// There is no double blanking: a second run of the transform on its own
/// output never fails, and the only bytes it can still rewrite are commas,
/// each of them to a space.  Comments never reappear in an output, so
/// nothing else is ever blanked twice.
pub proof fn lemma_rescan_only_blanks_commas(cfg: CommentSettings, s0: ScanState, input: Seq<u8>)
    requires
        rescan_state(s0) == ScanState::Top,
        scan_bytes(cfg, start_model(s0), input).ok,
    ensures
        scan_bytes(cfg, start_model(ScanState::Top), output_of(cfg, s0, input)).ok,
        ({
            let w = output_of(cfg, s0, input);
            let again = output_of(cfg, ScanState::Top, w);
            forall|j: int|
                0 <= j < w.len() ==> #[trigger] again[j] == w[j] || (w[j] == COMMA && again[j]
                    == SPACE)
        }),
{
    let w = output_of(cfg, s0, input);
    let len = input.len() as int;
    lemma_scan_preserves_len(cfg, start_model(s0), input);
    lemma_rescan_weak_sim(cfg, s0, input, len);
    assert(w.take(len) =~= w);
    assert(model_at(cfg, ScanState::Top, w, len) == scan_bytes(cfg, start_model(ScanState::Top), w));
}

/// Idempotence: on any text the transform accepts in which no comma
/// supersedes a still-pending comma and is itself blanked, a second run of
/// the transform accepts the output and changes nothing further.
pub proof fn lemma_transform_idempotent(cfg: CommentSettings, s0: ScanState, input: Seq<u8>)
    requires
        rescan_state(s0) == ScanState::Top,
        scan_bytes(cfg, start_model(s0), input).ok,
        no_superseded_trailing_comma(cfg, s0, input),
    ensures
        output_of(cfg, ScanState::Top, output_of(cfg, s0, input)) == output_of(cfg, s0, input),
        scan_bytes(cfg, start_model(ScanState::Top), output_of(cfg, s0, input)).ok,
{
    let w = output_of(cfg, s0, input);
    let len = input.len() as int;
    lemma_scan_preserves_len(cfg, start_model(s0), input);
    lemma_rescan_sim(cfg, s0, input, len);
    assert(w.take(len) =~= w);
    assert(model_at(cfg, ScanState::Top, w, len) == scan_bytes(cfg, start_model(ScanState::Top), w));
}

} // verus!

