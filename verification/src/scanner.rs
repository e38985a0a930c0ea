//! The single-pass scanner: its mathematical model and the executable
//! in-place transform.
//!
//! The model is a small-step machine: [`scan_step`] consumes one byte and
//! [`scan_bytes`] folds it over a whole input.  The executable functions
//! promise to leave the buffer, the lexical state and the success of the call
//! exactly as the model describes them.

use vstd::prelude::*;

use crate::settings::CommentSettings;

verus! {

/// The bytes the scanner distinguishes, by ASCII value.
pub const QUOTE: u8 = 34;
/// `\\`
pub const BACKSLASH: u8 = 92;
/// `/`
pub const SLASH: u8 = 47;
/// `#`
pub const HASH: u8 = 35;
/// `*`
pub const STAR: u8 = 42;
/// `,`
pub const COMMA: u8 = 44;
/// `}`
pub const RIGHT_BRACE: u8 = 125;
/// `]`
pub const RIGHT_BRACKET: u8 = 93;
/// ` `
pub const SPACE: u8 = 32;
/// tab
pub const TAB: u8 = 9;
/// line feed
pub const LINE_FEED: u8 = 10;
/// form feed
pub const FORM_FEED: u8 = 12;
/// carriage return
pub const CARRIAGE_RETURN: u8 = 13;

/// The lexical state of the scanner between two bytes.
#[derive(Clone, Copy, PartialEq, Eq, Structural, Debug)]
pub enum ScanState {
    /// Ordinary JSON content, outside every string literal and comment.
    Top,
    /// Inside a string literal.
    InString,
    /// Inside a string literal, immediately after a backslash.
    StringEscape,
    /// Immediately after a `/` that opened a comment of a kind not yet known.
    InComment,
    /// Inside a block comment.
    InBlockComment,
    /// Inside a block comment, immediately after a `*`.
    MaybeBlockCommentEnd,
    /// Inside a line comment.
    InLineComment,
}

/// The single error of the transform.
#[derive(Clone, Copy, PartialEq, Eq, Structural, Debug)]
pub enum Error {
    /// A `/` opened no comment that the settings recognize, or end of input
    /// was reached inside a string literal or block comment.
    InvalidData,
}

/// ASCII whitespace as the scanner classifies bytes: space, tab, line feed,
/// form feed, carriage return.
pub open spec fn is_whitespace_byte(b: u8) -> bool {
    b == SPACE || b == TAB || b == LINE_FEED || b == FORM_FEED || b == CARRIAGE_RETURN
}

/// A line-structure byte: line feed or carriage return.  These are never
/// overwritten inside comments, so that line numbers reported by a downstream
/// JSON parser stay accurate.
pub open spec fn is_line_break_byte(b: u8) -> bool {
    b == LINE_FEED || b == CARRIAGE_RETURN
}

/// A closing bracket: `}` or `]`.
pub open spec fn is_closing_byte(b: u8) -> bool {
    b == RIGHT_BRACE || b == RIGHT_BRACKET
}

/// The whole state of a scan in progress: the bytes written so far, the
/// lexical state, the position of a comma that may yet prove trailing, and
/// whether the text has been valid so far.
///
/// `bytes` always holds exactly one byte per input byte consumed, so the
/// transform can never change the length of the text.
#[verifier::ext_equal]
pub struct ScanModel {
    /// The rewritten bytes, one per input byte consumed.
    pub bytes: Seq<u8>,
    /// The lexical state after the consumed bytes.
    pub state: ScanState,
    /// The index in `bytes` of the most recent comma that is still followed
    /// by nothing but whitespace and comments, if any.  If a closing bracket
    /// arrives while it is set, that comma is rewritten to a space.
    pub pending: Option<int>,
    /// False once an invalid byte has been reached; later bytes are then
    /// left untouched.
    pub ok: bool,
}

/// The model at the start of a scan from lexical state `state`.
pub open spec fn start_model(state: ScanState) -> ScanModel {
    ScanModel { bytes: Seq::empty(), state, pending: None, ok: true }
}

/// One step of the scanner at top level.
///
/// A `"` opens a string literal; an enabled `/` or `#` opens a comment and is
/// blanked; an enabled `,` becomes the pending trailing-comma candidate; a
/// closing bracket resolves a pending comma by blanking it.  Whitespace and
/// comments keep a pending comma alive; every other byte -- a string literal
/// and a disabled comment marker included -- is ordinary content and clears
/// it.
pub open spec fn scan_step_top(cfg: CommentSettings, m: ScanModel, b: u8) -> ScanModel {
    if b == QUOTE {
        // `"`: a string literal is ordinary content for the trailing-comma rule
        ScanModel { bytes: m.bytes.push(b), state: ScanState::InString, pending: None, ok: true }
    } else if b == SLASH && (cfg.block_comments || cfg.slash_line_comments) {
        // `/`: some comment opens; its kind is decided by the next byte
        ScanModel { bytes: m.bytes.push(SPACE), state: ScanState::InComment, pending: m.pending, ok: true }
    } else if b == HASH && cfg.hash_line_comments {
        // `#`: a shell-style line comment opens
        ScanModel {
            bytes: m.bytes.push(SPACE),
            state: ScanState::InLineComment,
            pending: m.pending,
            ok: true,
        }
    } else if b == COMMA && cfg.trailing_commas {
        // `,`: the newest candidate for a trailing comma
        ScanModel {
            bytes: m.bytes.push(b),
            state: ScanState::Top,
            pending: Some(m.bytes.len() as int),
            ok: true,
        }
    } else if is_closing_byte(b) {
        match m.pending {
            Some(q) => ScanModel {
                bytes: m.bytes.update(q, SPACE).push(b),
                state: ScanState::Top,
                pending: None,
                ok: true,
            },
            None => ScanModel { bytes: m.bytes.push(b), state: ScanState::Top, pending: None, ok: true },
        }
    } else if is_whitespace_byte(b) {
        ScanModel { bytes: m.bytes.push(b), state: ScanState::Top, pending: m.pending, ok: true }
    } else {
        ScanModel { bytes: m.bytes.push(b), state: ScanState::Top, pending: None, ok: true }
    }
}

/// One step of the scanner: consume byte `b` in model `m`.
///
/// Exactly one byte is appended to `m.bytes` in every case, so a scan output
/// always has the length of its input.
pub open spec fn scan_step(cfg: CommentSettings, m: ScanModel, b: u8) -> ScanModel {
    if !m.ok {
        // past the first invalid byte nothing is rewritten any more
        ScanModel { bytes: m.bytes.push(b), state: m.state, pending: m.pending, ok: false }
    } else {
        match m.state {
            ScanState::Top => scan_step_top(cfg, m, b),
            ScanState::InString => ScanModel {
                bytes: m.bytes.push(b),
                state: if b == QUOTE {
                    ScanState::Top
                } else if b == BACKSLASH {
                    ScanState::StringEscape
                } else {
                    ScanState::InString
                },
                pending: m.pending,
                ok: true,
            },
            ScanState::StringEscape => ScanModel {
                bytes: m.bytes.push(b),
                state: ScanState::InString,
                pending: m.pending,
                ok: true,
            },
            ScanState::InComment => {
                if b == STAR && cfg.block_comments {
                    ScanModel {
                        bytes: m.bytes.push(SPACE),
                        state: ScanState::InBlockComment,
                        pending: m.pending,
                        ok: true,
                    }
                } else if b == SLASH && cfg.slash_line_comments {
                    ScanModel {
                        bytes: m.bytes.push(SPACE),
                        state: ScanState::InLineComment,
                        pending: m.pending,
                        ok: true,
                    }
                } else {
                    // the `/` before this byte opened no comment the settings
                    // recognize; the byte is blanked like the `/` was, and the
                    // scan has failed
                    ScanModel {
                        bytes: m.bytes.push(SPACE),
                        state: ScanState::InComment,
                        pending: m.pending,
                        ok: false,
                    }
                }
            },
            ScanState::InBlockComment => ScanModel {
                bytes: m.bytes.push(if is_line_break_byte(b) {
                    b
                } else {
                    SPACE
                }),
                state: if b == STAR {
                    ScanState::MaybeBlockCommentEnd
                } else {
                    ScanState::InBlockComment
                },
                pending: m.pending,
                ok: true,
            },
            ScanState::MaybeBlockCommentEnd => ScanModel {
                bytes: m.bytes.push(if is_line_break_byte(b) {
                    b
                } else {
                    SPACE
                }),
                state: if b == SLASH {
                    ScanState::Top
                } else if b == STAR {
                    ScanState::MaybeBlockCommentEnd
                } else {
                    ScanState::InBlockComment
                },
                pending: m.pending,
                ok: true,
            },
            ScanState::InLineComment => ScanModel {
                bytes: m.bytes.push(if is_line_break_byte(b) {
                    b
                } else {
                    SPACE
                }),
                state: if b == LINE_FEED {
                    ScanState::Top
                } else {
                    ScanState::InLineComment
                },
                pending: m.pending,
                ok: true,
            },
        }
    }
}

/// The scanner folded over a whole input.
pub open spec fn scan_bytes(cfg: CommentSettings, m: ScanModel, input: Seq<u8>) -> ScanModel
    decreases input.len(),
{
    if input.len() == 0 {
        m
    } else {
        scan_bytes(cfg, scan_step(cfg, m, input.first()), input.drop_first())
    }
}

/// A pending comma always points at a comma among the bytes written so far.
pub open spec fn model_wf(m: ScanModel) -> bool {
    m.pending matches Some(q) ==> 0 <= q < m.bytes.len() && m.bytes[q] == COMMA
}

/// The ghost image of the executable pending-comma register.
pub open spec fn pending_view(p: Option<usize>) -> Option<int> {
    match p {
        Some(q) => Some(q as int),
        None => None,
    }
}

/// One scanner step keeps the pending comma well formed.
pub proof fn lemma_step_wf(cfg: CommentSettings, m: ScanModel, b: u8)
    requires
        model_wf(m),
    ensures
        model_wf(scan_step(cfg, m, b)),
{
}

/// A failed scan leaves every further byte untouched: folding more input onto
/// a model whose `ok` is false only appends that input.
pub proof fn lemma_scan_stuck(cfg: CommentSettings, m: ScanModel, input: Seq<u8>)
    requires
        !m.ok,
    ensures
        scan_bytes(cfg, m, input) == (ScanModel { bytes: m.bytes + input, ..m }),
    decreases input.len(),
{
    if input.len() == 0 {
        assert(m.bytes + input =~= m.bytes);
        assert(scan_bytes(cfg, m, input) =~= ScanModel { bytes: m.bytes + input, ..m });
    } else {
        let m2 = scan_step(cfg, m, input.first());
        lemma_scan_stuck(cfg, m2, input.drop_first());
        assert(m.bytes.push(input.first()) + input.drop_first() =~= m.bytes + input);
        assert(scan_bytes(cfg, m, input) =~= ScanModel { bytes: m.bytes + input, ..m });
    }
}

/// Whether `b` is ASCII whitespace, as the scanner classifies bytes.
fn is_whitespace(b: u8) -> (r: bool)
    ensures
        r == is_whitespace_byte(b),
{
    b == SPACE || b == TAB || b == LINE_FEED || b == FORM_FEED || b == CARRIAGE_RETURN
}

/// One executable step of the scanner at position `i`, mirroring [`scan_step`]
/// exactly: it rewrites at most the byte at `i` and, when a closing bracket
/// resolves a pending comma, the byte at that comma.
fn scan_byte(
    cfg: CommentSettings,
    st: ScanState,
    pending: Option<usize>,
    buf: &mut [u8],
    i: usize,
) -> (r: (ScanState, Option<usize>, bool))
    requires
        i < old(buf)@.len(),
        (pending matches Some(q) ==> q < i && old(buf)@[q as int] == COMMA && cfg.trailing_commas),
    ensures
        ({
            let pre = ScanModel {
                bytes: old(buf)@.take(i as int),
                state: st,
                pending: pending_view(pending),
                ok: true,
            };
            let post = scan_step(cfg, pre, old(buf)@[i as int]);
            &&& final(buf)@.len() == old(buf)@.len()
            &&& final(buf)@.take(i as int + 1) == post.bytes
            &&& final(buf)@.skip(i as int + 1) == old(buf)@.skip(i as int + 1)
            &&& r.0 == post.state
            &&& pending_view(r.1) == post.pending
            &&& r.2 == post.ok
            &&& (r.1 matches Some(q) ==> q <= i && final(buf)@[q as int] == COMMA
                && cfg.trailing_commas)
        }),
{
    let b = buf[i];
    let mut next_state: ScanState = st;
    let mut next_pending: Option<usize> = pending;
    let mut ok: bool = true;
    match st {
        ScanState::Top => {
            if b == QUOTE {
                next_state = ScanState::InString;
                next_pending = None;
            } else if b == SLASH && (cfg.block_comments || cfg.slash_line_comments) {
                buf[i] = SPACE;
                next_state = ScanState::InComment;
            } else if b == HASH && cfg.hash_line_comments {
                buf[i] = SPACE;
                next_state = ScanState::InLineComment;
            } else if b == COMMA && cfg.trailing_commas {
                next_pending = Some(i);
            } else if b == RIGHT_BRACE || b == RIGHT_BRACKET {
                if let Some(q) = pending {
                    buf[q] = SPACE;
                }
                next_pending = None;
            } else if !is_whitespace(b) {
                next_pending = None;
            }
        },
        ScanState::InString => {
            if b == QUOTE {
                next_state = ScanState::Top;
            } else if b == BACKSLASH {
                next_state = ScanState::StringEscape;
            }
        },
        ScanState::StringEscape => {
            next_state = ScanState::InString;
        },
        ScanState::InComment => {
            buf[i] = SPACE;
            if b == STAR && cfg.block_comments {
                next_state = ScanState::InBlockComment;
            } else if b == SLASH && cfg.slash_line_comments {
                next_state = ScanState::InLineComment;
            } else {
                ok = false;
            }
        },
        ScanState::InBlockComment => {
            if b != LINE_FEED && b != CARRIAGE_RETURN {
                buf[i] = SPACE;
            }
            if b == STAR {
                next_state = ScanState::MaybeBlockCommentEnd;
            }
        },
        ScanState::MaybeBlockCommentEnd => {
            if b != LINE_FEED && b != CARRIAGE_RETURN {
                buf[i] = SPACE;
            }
            if b == SLASH {
                next_state = ScanState::Top;
            } else if b != STAR {
                next_state = ScanState::InBlockComment;
            }
        },
        ScanState::InLineComment => {
            if b == LINE_FEED {
                next_state = ScanState::Top;
            } else if b != CARRIAGE_RETURN {
                buf[i] = SPACE;
            }
        },
    }
    proof {
        // the byte at `i` and any resolved comma lie outside `skip(i + 1)`
        assert(buf@.skip(i as int + 1) =~= old(buf)@.skip(i as int + 1));
        // the three shapes a step can leave the buffer in: untouched,
        // blanked at `i`, or blanked at a resolved comma before `i`
        assert(old(buf)@.take(i as int + 1) =~= old(buf)@.take(i as int).push(
            old(buf)@[i as int],
        ));
        assert(old(buf)@.update(i as int, 32u8).take(i as int + 1) =~= old(buf)@.take(
            i as int,
        ).push(32u8));
        if let Some(q) = pending {
            assert(old(buf)@.update(q as int, 32u8).take(i as int + 1) =~= old(buf)@.take(
                i as int,
            ).update(q as int, 32u8).push(old(buf)@[i as int]));
        }
    }
    (next_state, next_pending, ok)
}

/// Scan `buf` from its first byte to its last under `settings`, rewriting it
/// in place and advancing `state`, so that repeated calls on successive
/// chunks behave as the model does on each chunk.
///
/// The buffer, the state and the result are exactly what [`scan_bytes`]
/// yields on the old buffer from the old state; in particular the length of
/// the buffer never changes, and the call fails exactly when the model marks
/// the text invalid.
pub fn scan(state: &mut ScanState, buf: &mut [u8], settings: CommentSettings) -> (r: Result<
    (),
    Error,
>)
    ensures
        ({
            let m = scan_bytes(settings, start_model(*old(state)), old(buf)@);
            &&& final(buf)@ == m.bytes
            &&& *final(state) == m.state
            &&& (r is Ok <==> m.ok)
        }),
        final(buf)@.len() == old(buf)@.len(),
{
    let len = buf.len();
    let mut i: usize = 0;
    let mut st: ScanState = *state;
    let mut pending: Option<usize> = None;
    proof {
        assert(buf@.take(0) =~= Seq::<u8>::empty());
        assert(old(buf)@.skip(0) =~= old(buf)@);
    }
    while i < len
        invariant
            i <= len,
            len == buf@.len(),
            buf@.len() == old(buf)@.len(),
            buf@.skip(i as int) == old(buf)@.skip(i as int),
            (pending matches Some(q) ==> q < i && buf@[q as int] == COMMA
                && settings.trailing_commas),
            scan_bytes(settings, start_model(*old(state)), old(buf)@) == scan_bytes(
                settings,
                ScanModel {
                    bytes: buf@.take(i as int),
                    state: st,
                    pending: pending_view(pending),
                    ok: true,
                },
                old(buf)@.skip(i as int),
            ),
        decreases len - i,
    {
        let ghost pre_buf = buf@;
        let ghost pre_st = st;
        let ghost pre_pending = pending;
        let ghost rest = old(buf)@.skip(i as int);
        let stepped = scan_byte(settings, st, pending, buf, i);
        st = stepped.0;
        pending = stepped.1;
        proof {
            let m_pre = ScanModel {
                bytes: pre_buf.take(i as int),
                state: pre_st,
                pending: pending_view(pre_pending),
                ok: true,
            };
            assert(rest.first() == old(buf)@[i as int]);
            assert(pre_buf[i as int] == old(buf)@[i as int]);
            assert(rest.drop_first() =~= old(buf)@.skip(i as int + 1));
            assert(buf@.skip(i as int + 1) =~= old(buf)@.skip(i as int + 1));
            assert(scan_bytes(settings, m_pre, rest) == scan_bytes(
                settings,
                scan_step(settings, m_pre, rest.first()),
                rest.drop_first(),
            ));
        }
        if !stepped.2 {
            proof {
                let m_err = ScanModel {
                    bytes: buf@.take(i as int + 1),
                    state: st,
                    pending: pending_view(pending),
                    ok: false,
                };
                lemma_scan_stuck(settings, m_err, old(buf)@.skip(i as int + 1));
                assert(buf@.take(i as int + 1) + buf@.skip(i as int + 1) =~= buf@);
                assert(buf@.skip(i as int + 1) =~= old(buf)@.skip(i as int + 1));
            }
            *state = st;
            return Err(Error::InvalidData);
        }
        i += 1;
    }
    proof {
        assert(old(buf)@.skip(len as int) =~= Seq::<u8>::empty());
        assert(buf@.take(len as int) =~= buf@);
    }
    *state = st;
    Ok(())
}

/// Scan one chunk of a stream with every category of rewriting enabled,
/// carrying the lexical state so that successive chunks continue one scan.
///
/// A trailing-comma candidate is tracked only within one call: a comma whose
/// closing bracket arrives in a later chunk is kept, because the comma's byte
/// has already been handed back to the caller.
pub fn strip_buf(state: &mut ScanState, buf: &mut [u8]) -> (r: Result<(), Error>)
    ensures
        ({
            let m = scan_bytes(CommentSettings::all_spec(), start_model(*old(state)), old(buf)@);
            &&& final(buf)@ == m.bytes
            &&& *final(state) == m.state
            &&& (r is Ok <==> m.ok)
        }),
        final(buf)@.len() == old(buf)@.len(),
{
    scan(state, buf, CommentSettings::all())
}

/// Strip comments and trailing commas from a whole buffer of JSON-like text,
/// in place, with every category of rewriting enabled.
///
/// The call fails exactly when a `/` opens no comment; an unterminated string
/// or block comment at the end of the buffer is not detected here, because a
/// caller may feed more text -- [`crate::StripComments`] checks the final
/// state at true end of input.
pub fn strip_slice(s: &mut [u8]) -> (r: Result<(), Error>)
    ensures
        ({
            let m = scan_bytes(
                CommentSettings::all_spec(),
                start_model(ScanState::Top),
                old(s)@,
            );
            &&& final(s)@ == m.bytes
            &&& (r is Ok <==> m.ok)
        }),
        final(s)@.len() == old(s)@.len(),
{
    let mut state = ScanState::Top;
    strip_buf(&mut state, s)
}

/// Strip comments and trailing commas from a whole buffer of JSON-like text,
/// in place.  An alias of [`strip_slice`].
pub fn strip(s: &mut [u8]) -> (r: Result<(), Error>)
    ensures
        ({
            let m = scan_bytes(
                CommentSettings::all_spec(),
                start_model(ScanState::Top),
                old(s)@,
            );
            &&& final(s)@ == m.bytes
            &&& (r is Ok <==> m.ok)
        }),
        final(s)@.len() == old(s)@.len(),
{
    strip_slice(s)
}

} // verus!
