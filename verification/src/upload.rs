//! Chunked configuration upload: framing, pacing-sized chunks, sentinel
//! scanning and outcome classification.
//!
//! The wire format is `<CFG>\n{payload}\n<END>\n`, written in fixed-size
//! chunks.  The device answers with free-form log lines; a line exactly equal
//! to `ACK` acknowledges the upload, a line beginning with `NAK:` rejects it.
//! The caller performs the timed writes and reads and feeds what it read into
//! an [`UploadSession`]; every decision about those bytes is made here.

use vstd::prelude::*;

use crate::text::{
    append_capped, capped, copy_range, decode_lossy, lines_of, lossy_text, seq_views, split_lines,
    trim_bytes, trimmed,
};

verus! {

/// The bytes of `<CFG>` followed by a newline, opening a framed message.
pub open spec fn frame_header() -> Seq<u8> {
    seq![60u8, 67u8, 70u8, 71u8, 62u8, 10u8]
}

/// The bytes of a newline, `<END>` and a final newline, closing a framed
/// message.
pub open spec fn frame_footer() -> Seq<u8> {
    seq![10u8, 60u8, 69u8, 78u8, 68u8, 62u8, 10u8]
}

/// A payload framed for the wire: `<CFG>\n{payload}\n<END>\n`.
pub open spec fn framed(payload: Seq<u8>) -> Seq<u8> {
    frame_header() + payload + frame_footer()
}

/// Wrap `payload` in the frame markers.
pub fn frame_payload(payload: &[u8]) -> (r: Vec<u8>)
    ensures
        r@ == framed(payload@),
{
    let mut r: Vec<u8> = Vec::new();
    r.push(60u8);
    r.push(67u8);
    r.push(70u8);
    r.push(71u8);
    r.push(62u8);
    r.push(10u8);
    proof {
        assert(r@ =~= frame_header());
    }
    let mut i: usize = 0;
    while i < payload.len()
        invariant
            0 <= i <= payload@.len(),
            r@ == frame_header() + payload@.subrange(0, i as int),
        decreases payload@.len() - i,
    {
        proof {
            assert(frame_header() + payload@.subrange(0, i + 1 as int) =~= (frame_header()
                + payload@.subrange(0, i as int)).push(payload@[i as int]));
        }
        r.push(payload[i]);
        i = i + 1;
    }
    proof {
        assert(payload@.subrange(0, payload@.len() as int) =~= payload@);
    }
    r.push(10u8);
    r.push(60u8);
    r.push(69u8);
    r.push(78u8);
    r.push(68u8);
    r.push(62u8);
    r.push(10u8);
    proof {
        assert(r@ =~= framed(payload@));
    }
    r
}

/// How many chunks a message of `n` bytes yields at `c` bytes per chunk: the
/// rounded-up quotient.
pub open spec fn chunk_count(n: int, c: int) -> int
    recommends
        c >= 1,
{
    (n + c - 1) / c
}

/// Split `data` into chunks of `chunk` bytes; only the last chunk may be
/// shorter.  Concatenating the chunks gives back `data` exactly.
pub fn chunk_bytes(data: &[u8], chunk: usize) -> (r: Vec<Vec<u8>>)
    requires
        1 <= chunk,
    ensures
        seq_views(r@).flatten() == data@,
        r@.len() == chunk_count(data@.len() as int, chunk as int),
        forall|i: int| 0 <= i < r@.len() ==> #[trigger] r@[i]@.len() <= chunk,
        forall|i: int| 0 <= i < r@.len() - 1 ==> #[trigger] r@[i]@.len() == chunk,
{
    let mut r: Vec<Vec<u8>> = Vec::new();
    let mut pos: usize = 0;
    proof {
        assert(seq_views(r@).flatten() =~= data@.take(0));
    }
    while pos < data.len()
        invariant
            1 <= chunk,
            0 <= pos <= data@.len(),
            seq_views(r@).flatten() == data@.take(pos as int),
            pos <= r@.len() * chunk,
            r@.len() >= 1 ==> pos > (r@.len() - 1) * chunk,
            pos < data@.len() ==> pos == r@.len() * chunk,
            pos < data@.len() ==> forall|i: int|
                0 <= i < r@.len() ==> #[trigger] r@[i]@.len() == chunk,
            forall|i: int| 0 <= i < r@.len() ==> #[trigger] r@[i]@.len() <= chunk,
            forall|i: int| 0 <= i < r@.len() - 1 ==> #[trigger] r@[i]@.len() == chunk,
        decreases data@.len() - pos,
    {
        let remaining = data.len() - pos;
        let take_n = if remaining < chunk {
            remaining
        } else {
            chunk
        };
        let piece = copy_range(data, pos, pos + take_n);
        proof {
            assert(seq_views(r@.push(piece)) =~= seq_views(r@).push(piece@));
            seq_views(r@).lemma_flatten_push(piece@);
            assert(data@.take(pos as int) + piece@ =~= data@.take(pos + take_n as int));
            assert((r@.len() + 1) * chunk == r@.len() * chunk + chunk) by (nonlinear_arith);
        }
        r.push(piece);
        pos = pos + take_n;
    }
    proof {
        assert(data@.take(data@.len() as int) =~= data@);
        let n = data@.len() as int;
        let c = chunk as int;
        let k = r@.len() as int;
        if n == 0 {
            assert(k == 0) by (nonlinear_arith)
                requires
                    c >= 1,
                    k >= 1 ==> 0 > (k - 1) * c,
                    k >= 0,
            ;
            assert(chunk_count(0, c) == 0) by (nonlinear_arith)
                requires
                    c >= 1,
            ;
        } else {
            assert(k == chunk_count(n, c)) by (nonlinear_arith)
                requires
                    c >= 1,
                    k >= 1,
                    n <= k * c,
                    n > (k - 1) * c,
            ;
        }
    }
    r
}

/// The line content that acknowledges an upload: `ACK`.
pub open spec fn ack_token() -> Seq<u8> {
    seq![65u8, 67u8, 75u8]
}

/// The prefix of a rejection line: `NAK:`.
pub open spec fn nak_prefix() -> Seq<u8> {
    seq![78u8, 65u8, 75u8, 58u8]
}

/// A line whose trimmed content is exactly the acknowledgment token.
pub open spec fn is_ack_line(l: Seq<u8>) -> bool {
    trimmed(l) == ack_token()
}

/// A line whose trimmed content begins with the rejection prefix.
pub open spec fn is_nak_line(l: Seq<u8>) -> bool {
    trimmed(l).len() >= 4 && trimmed(l).subrange(0, 4) == nak_prefix()
}

/// Whether any line of `s` acknowledges.
pub open spec fn has_ack(s: Seq<u8>) -> bool {
    exists|i: int| 0 <= i < lines_of(s).len() && is_ack_line(#[trigger] lines_of(s)[i])
}

/// The trimmed content of the last rejection line among `lines`, if any:
/// the latest rejection wins.
pub open spec fn last_nak_in(lines: Seq<Seq<u8>>) -> Option<Seq<u8>>
    decreases lines.len(),
{
    if lines.len() == 0 {
        None
    } else if is_nak_line(lines.last()) {
        Some(trimmed(lines.last()))
    } else {
        last_nak_in(lines.drop_last())
    }
}

/// The trimmed content of the last rejection line of `s`, if any.
pub open spec fn nak_of(s: Seq<u8>) -> Option<Seq<u8>> {
    last_nak_in(lines_of(s))
}

/// Scan a whole response buffer line by line for the two sentinels: whether
/// any line acknowledges, and the latest rejection line if one occurs.
pub fn scan_response(buf: &[u8]) -> (r: (bool, Option<Vec<u8>>))
    ensures
        r.0 == has_ack(buf@),
        r.1 is Some <==> nak_of(buf@) is Some,
        r.1 matches Some(v) ==> nak_of(buf@) == Some(v@),
{
    let lines = split_lines(buf);
    let ghost lv = lines_of(buf@);
    let mut ack = false;
    let mut nak: Option<Vec<u8>> = None;
    let mut j: usize = 0;
    while j < lines.len()
        invariant
            lv == lines_of(buf@),
            seq_views(lines@) == lv,
            lines@.len() == lv.len(),
            0 <= j <= lv.len(),
            ack == exists|i: int| 0 <= i < j && is_ack_line(#[trigger] lv[i]),
            nak is Some <==> last_nak_in(lv.take(j as int)) is Some,
            nak matches Some(v) ==> last_nak_in(lv.take(j as int)) == Some(v@),
        decreases lv.len() - j,
    {
        proof {
            assert(lines@[j as int]@ == lv[j as int]);
        }
        let t = trim_bytes(lines[j].as_slice());
        let hit_ack = t.len() == 3 && t[0] == 65 && t[1] == 67 && t[2] == 75;
        let hit_nak = t.len() >= 4 && t[0] == 78 && t[1] == 65 && t[2] == 75 && t[3] == 58;
        proof {
            if hit_ack {
                assert(t@ =~= ack_token());
            } else {
                assert(t@ != ack_token()) by {
                    if t@ == ack_token() {
                        assert(t@.len() == 3 && t@[0] == 65 && t@[1] == 67 && t@[2] == 75);
                    }
                }
            }
            if hit_nak {
                assert(t@.subrange(0, 4) =~= nak_prefix());
            } else {
                assert(!is_nak_line(lv[j as int])) by {
                    if is_nak_line(lv[j as int]) {
                        assert(t@.subrange(0, 4) == nak_prefix());
                        assert(t@[0] == 78 && t@[1] == 65 && t@[2] == 75 && t@[3] == 58);
                    }
                }
            }
            assert(lv.take(j + 1 as int).drop_last() =~= lv.take(j as int));
            assert(lv.take(j + 1 as int).last() == lv[j as int]);
        }
        if hit_ack {
            ack = true;
        }
        if hit_nak {
            nak = Some(t);
        }
        j = j + 1;
        proof {
            assert(ack == exists|i: int| 0 <= i < j && is_ack_line(#[trigger] lv[i])) by {
                if ack {
                    if is_ack_line(lv[j - 1]) {
                        assert(0 <= j - 1 < j && is_ack_line(lv[j - 1]));
                    }
                }
            }
        }
    }
    proof {
        assert(lv.take(lv.len() as int) =~= lv);
    }
    (ack, nak)
}

/// The outcome of one chunked-upload attempt, as the original caller sees it:
/// a success flag, what was sent, what came back (capped), and why it failed
/// if it did.
#[derive(Debug, Clone)]
pub struct UploadResult {
    /// Whether the device acknowledged the upload.
    pub success: bool,
    /// Total framed bytes written to the wire.
    pub bytes_sent: usize,
    /// Number of chunks the framed message was written in.
    pub chunks_sent: usize,
    /// The accumulated (capped) response text, decoded lossily.
    pub raw_response: String,
    /// The first part of the payload, for diagnostics.
    pub config_preview: String,
    /// Why the upload failed, if it did.
    pub error_message: Option<String>,
}

/// The first `n` characters of `s`, or all of it if shorter.
pub open spec fn chars_prefix(s: Seq<char>, n: int) -> Seq<char> {
    if s.len() <= n {
        s
    } else {
        s.subrange(0, n)
    }
}

/// The failure message when the device never answered at all.
pub open spec fn timeout_message() -> Seq<char> {
    "No response from ESP32 - config may not have been applied (timeout)"@
}

/// The prefix of the failure message when the device answered without
/// acknowledging.
pub open spec fn missing_ack_prefix() -> Seq<char> {
    "No ACK received. Response preview: "@
}

/// The bookkeeping of one upload in flight: how much was sent, the capped
/// response collected so far, and which sentinels have been seen.
///
/// The caller writes the chunks, then polls the port until its deadline; every
/// batch of bytes it reads goes through [`UploadSession::on_data`] (or
/// [`UploadSession::on_drain_data`] during the post-acknowledgment drain), and
/// [`UploadSession::finish`] classifies the outcome.
pub struct UploadSession {
    bytes_total: usize,
    chunk_total: usize,
    preview: String,
    cap: usize,
    response: Vec<u8>,
    saw_ack: bool,
    nak: Option<Vec<u8>>,
}

impl UploadSession {
    /// Total framed bytes of the message being uploaded.
    pub closed spec fn bytes_total_spec(&self) -> usize {
        self.bytes_total
    }

    /// Number of chunks the message was split into.
    pub closed spec fn chunk_total_spec(&self) -> usize {
        self.chunk_total
    }

    /// The payload preview carried into the outcome.
    pub closed spec fn preview_spec(&self) -> Seq<char> {
        self.preview@
    }

    /// The response-buffer bound.
    pub closed spec fn cap_spec(&self) -> usize {
        self.cap
    }

    /// The capped response bytes collected so far.
    pub closed spec fn response_view(&self) -> Seq<u8> {
        self.response@
    }

    /// Whether an acknowledgment has been observed (sticky once set).
    pub closed spec fn acked(&self) -> bool {
        self.saw_ack
    }

    /// The latest rejection line observed, if any.
    pub closed spec fn nak_view(&self) -> Option<Seq<u8>> {
        match self.nak {
            Some(v) => Some(v@),
            None => None,
        }
    }

    /// Start the bookkeeping for a framed message of `bytes_total` bytes sent
    /// in `chunk_total` chunks, with responses capped at `cap` bytes.
    pub(crate) fn start(
        bytes_total: usize,
        chunk_total: usize,
        preview: String,
        cap: usize,
    ) -> (s: Self)
        ensures
            s.bytes_total_spec() == bytes_total,
            s.chunk_total_spec() == chunk_total,
            s.preview_spec() == preview@,
            s.cap_spec() == cap,
            s.response_view() == Seq::<u8>::empty(),
            !s.acked(),
            s.nak_view() is None,
    {
        UploadSession {
            bytes_total,
            chunk_total,
            preview,
            cap,
            response: Vec::new(),
            saw_ack: false,
            nak: None,
        }
    }

    /// Feed bytes read while awaiting the device's answer: append them to the
    /// capped buffer, then rescan the whole buffer for sentinels — they may
    /// arrive split across reads.  An acknowledgment is sticky; the latest
    /// rejection line wins.  Returns whether a sentinel has now been seen, so
    /// the caller can stop polling early.
    pub fn on_data(&mut self, data: &[u8]) -> (done: bool)
        ensures
            final(self).response_view() == capped(
                old(self).response_view() + data@,
                old(self).cap_spec() as nat,
            ),
            final(self).acked() == (old(self).acked() || has_ack(final(self).response_view())),
            final(self).nak_view() == (if nak_of(final(self).response_view()) is Some {
                nak_of(final(self).response_view())
            } else {
                old(self).nak_view()
            }),
            done == (final(self).acked() || final(self).nak_view() is Some),
            final(self).bytes_total_spec() == old(self).bytes_total_spec(),
            final(self).chunk_total_spec() == old(self).chunk_total_spec(),
            final(self).preview_spec() == old(self).preview_spec(),
            final(self).cap_spec() == old(self).cap_spec(),
    {
        append_capped(&mut self.response, data, self.cap);
        let (ack, nak) = scan_response(self.response.as_slice());
        if ack {
            self.saw_ack = true;
        }
        if let Some(line) = nak {
            self.nak = Some(line);
        }
        self.saw_ack || self.nak.is_some()
    }

    /// Whether an acknowledgment has been observed, deciding whether the
    /// caller performs the post-acknowledgment drain.
    pub fn has_acked(&self) -> (r: bool)
        ensures
            r == self.acked(),
    {
        self.saw_ack
    }

    /// Feed bytes read during the short post-acknowledgment drain: they are
    /// retained in the capped buffer so the caller sees the full exchange, but
    /// the answer is already in, so they are not rescanned.
    pub fn on_drain_data(&mut self, data: &[u8])
        ensures
            final(self).response_view() == capped(
                old(self).response_view() + data@,
                old(self).cap_spec() as nat,
            ),
            final(self).acked() == old(self).acked(),
            final(self).nak_view() == old(self).nak_view(),
            final(self).bytes_total_spec() == old(self).bytes_total_spec(),
            final(self).chunk_total_spec() == old(self).chunk_total_spec(),
            final(self).preview_spec() == old(self).preview_spec(),
            final(self).cap_spec() == old(self).cap_spec(),
    {
        append_capped(&mut self.response, data, self.cap);
    }

    /// Classify the outcome, in priority order: an effectively empty response
    /// is a timeout; a rejection line, if one was seen, is the failure reason;
    /// a response without an acknowledgment fails with a preview of what came
    /// back; otherwise the upload succeeded.  Every outcome carries what was
    /// sent and what was received.
    pub fn finish(self) -> (r: UploadResult)
        ensures
            r.bytes_sent == self.bytes_total_spec(),
            r.chunks_sent == self.chunk_total_spec(),
            r.raw_response@ == lossy_text(self.response_view()),
            r.config_preview@ == self.preview_spec(),
            trimmed(self.response_view()).len() == 0 ==> !r.success && (r.error_message matches Some(
                m,
            ) && m@ == timeout_message()),
            trimmed(self.response_view()).len() > 0 && self.nak_view() is Some ==> !r.success && (
            self.nak_view() matches Some(nb) && r.error_message matches Some(m) && m@ == lossy_text(
                nb,
            )),
            trimmed(self.response_view()).len() > 0 && self.nak_view() is None && !self.acked()
                ==> !r.success && (r.error_message matches Some(m) && m@ == missing_ack_prefix()
                + chars_prefix(lossy_text(self.response_view()), 300)),
            trimmed(self.response_view()).len() > 0 && self.nak_view() is None && self.acked()
                ==> r.success && r.error_message is None,
    {
        let UploadSession { bytes_total, chunk_total, preview, cap: _, response, saw_ack, nak } =
            self;
        let raw = decode_lossy(response.as_slice());
        let blank = trim_bytes(response.as_slice()).len() == 0;
        if blank {
            return UploadResult {
                success: false,
                bytes_sent: bytes_total,
                chunks_sent: chunk_total,
                raw_response: raw,
                config_preview: preview,
                error_message: Some(
                    "No response from ESP32 - config may not have been applied (timeout)".to_owned(),
                ),
            };
        }
        if let Some(line) = nak {
            let msg = decode_lossy(line.as_slice());
            return UploadResult {
                success: false,
                bytes_sent: bytes_total,
                chunks_sent: chunk_total,
                raw_response: raw,
                config_preview: preview,
                error_message: Some(msg),
            };
        }
        if !saw_ack {
            let n = raw.as_str().unicode_len();
            let upto = if n > 300 {
                300
            } else {
                n
            };
            let shown = raw.as_str().substring_char(0, upto);
            let msg = "No ACK received. Response preview: ".to_owned().concat(shown);
            proof {
                assert(shown@ =~= chars_prefix(lossy_text(response@), 300));
            }
            return UploadResult {
                success: false,
                bytes_sent: bytes_total,
                chunks_sent: chunk_total,
                raw_response: raw,
                config_preview: preview,
                error_message: Some(msg),
            };
        }
        UploadResult {
            success: true,
            bytes_sent: bytes_total,
            chunks_sent: chunk_total,
            raw_response: raw,
            config_preview: preview,
            error_message: None,
        }
    }
}

} // verus!
