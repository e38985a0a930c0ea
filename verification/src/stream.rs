//! The chunked adapter: one scan carried across successive chunks of a
//! byte stream.

use vstd::prelude::*;

use crate::scanner::Error;
use crate::scanner::ScanState;
use crate::scanner::scan;
use crate::scanner::scan_bytes;
use crate::scanner::start_model;
use crate::settings::CommentSettings;

verus! {

/// Carries one scan across successive chunks pulled from an underlying byte
/// source, so that a comment spanning a chunk boundary is still recognized.
///
/// The adapter itself performs no input: the caller pulls each chunk from
/// `inner` by whatever means the source offers and hands it to
/// [`Self::process_chunk`]; an empty chunk announces end of input and is
/// where an unterminated string or block comment is detected.
pub struct StripComments<T> {
    /// The underlying source of bytes.  It is carried for the caller, who
    /// pulls chunks from it; the verified adapter never reads it.
    pub inner: T,
    /// The lexical state reached by the chunks processed so far.
    pub state: ScanState,
    /// The settings every chunk is scanned under.
    pub settings: CommentSettings,
}

impl<T> StripComments<T> {
    /// Whether the scan may legally stop in state `s`: only at top level or
    /// inside a line comment, which end of input closes.
    pub open spec fn may_end_in(s: ScanState) -> bool {
        s == ScanState::Top || s == ScanState::InLineComment
    }

    /// An adapter over `input` with every category of rewriting enabled.
    pub fn new(input: T) -> (r: Self)
        ensures
            r.state == ScanState::Top,
            r.settings == CommentSettings::all_spec(),
            r.inner == input,
    {
        StripComments { inner: input, state: ScanState::Top, settings: CommentSettings::all() }
    }

    /// An adapter over `input` that rewrites the categories `settings`
    /// enables.
    pub fn with_settings(input: T, settings: CommentSettings) -> (r: Self)
        ensures
            r.state == ScanState::Top,
            r.settings == settings,
            r.inner == input,
    {
        StripComments { inner: input, state: ScanState::Top, settings }
    }

    /// Scan the next chunk of the stream in place.
    ///
    /// A non-empty chunk is rewritten exactly as the model scans it from the
    /// carried state; the carried state advances to the model's.  An empty
    /// chunk means end of input: it fails exactly when the stream stops
    /// inside a string literal or a block comment (an open line comment
    /// simply runs to the end of the text).
    pub fn process_chunk(&mut self, buf: &mut [u8]) -> (r: Result<(), Error>)
        ensures
            final(self).inner == old(self).inner,
            final(self).settings == old(self).settings,
            old(buf)@.len() > 0 ==> ({
                let m = scan_bytes(
                    old(self).settings,
                    start_model(old(self).state),
                    old(buf)@,
                );
                &&& final(buf)@ == m.bytes
                &&& final(self).state == m.state
                &&& (r is Ok <==> m.ok)
            }),
            old(buf)@.len() == 0 ==> ({
                &&& final(buf)@ == old(buf)@
                &&& final(self).state == old(self).state
                &&& (r is Ok <==> Self::may_end_in(old(self).state))
            }),
            final(buf)@.len() == old(buf)@.len(),
    {
        if buf.len() > 0 {
            let mut st = self.state;
            let r = scan(&mut st, buf, self.settings);
            self.state = st;
            r
        } else if self.state == ScanState::Top || self.state == ScanState::InLineComment {
            Ok(())
        } else {
            Err(Error::InvalidData)
        }
    }
}

} // verus!
