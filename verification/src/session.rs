//! Session protocol: the two-message handshake, then the receive loop's
//! decisions.  A session owns one correlation identifier and one audio
//! accumulator.  Every inbound frame is routed through the frame classifier
//! and the header codec; a data frame whose headers name `Path:audio` and
//! this session's identifier contributes its payload, a control frame whose
//! headers name `Path:turn.end` ends the session (successfully only when it
//! carries the session's identifier), and every other frame is ignored by
//! design, since a shared endpoint may interleave frames of other sessions.

use vstd::prelude::*;
use bytes::BytesMut;
use crate::audio::audio_buffer_extend;
use crate::audio::audio_buffer_len;
use crate::audio::audio_buffer_new;
use crate::audio::audio_bytes_of;
use crate::frames::bin_header_bytes;
use crate::frames::bin_payload;
use crate::frames::bin_wf;
use crate::frames::split_binary_frame;
use crate::frames::text_header_block;
use crate::frames::text_header_of;
use crate::frames::utf8_lossy_of;
use crate::headers::has_entry;
use crate::headers::is_space_char;
use crate::headers::headers_contain;
use crate::headers::parse_headers;
use crate::headers::parse_headers_of;
use crate::messages::config_message;
use crate::messages::config_message_of;
use crate::messages::content_message;
use crate::messages::content_message_of;
use crate::messages::hex_digit;
use crate::messages::is_lower_hex_char;

verus! {

/// Where a session stands: the handshake states, then the receive loop,
/// then one of the two terminal states.
#[derive(Clone, Copy, PartialEq, Eq, Structural, Debug)]
pub enum Phase {
    /// Created; nothing sent yet.
    Idle,
    /// The configuration frame has been built; the content frame has not.
    Handshaking,
    /// Both outbound frames have been built; inbound frames are processed.
    Streaming,
    /// A matching `turn.end` arrived; the audio is complete.
    Completed,
    /// The session ended without a matching `turn.end`.
    Failed,
}

/// Why a session failed.
#[derive(Clone, Copy, PartialEq, Eq, Structural, Debug)]
pub enum SessionError {
    /// The transport could not open, send or receive.  Never produced by
    /// the session logic itself; the code driving the connection uses it.
    Transport,
    /// A `turn.end` control frame arrived without this session's
    /// correlation identifier.
    ProtocolMismatch,
    /// The inbound stream ended before any matching `turn.end`.
    UnexpectedClose,
}

/// One inbound happening: a text frame, a binary frame, or the end of the
/// stream.
pub enum InboundEvent {
    Text(String),
    Binary(Vec<u8>),
    Closed,
}

/// What one inbound event means for the session.
#[derive(Clone, Copy, PartialEq, Eq, Structural, Debug)]
pub enum StepOutcome {
    /// Keep receiving.
    Continue,
    /// A matching `turn.end` arrived: the session is complete.
    Finished,
    /// The session failed; no audio is returned.
    Failed(SessionError),
}

/// The header pairs of a text control frame.
pub open spec fn text_pairs(msg: Seq<char>) -> Seq<(Seq<char>, Seq<char>)> {
    parse_headers_of(text_header_of(msg))
}

/// The header pairs of a well-formed binary data frame.
pub open spec fn bin_pairs(d: Seq<u8>) -> Seq<(Seq<char>, Seq<char>)> {
    parse_headers_of(utf8_lossy_of(bin_header_bytes(d)))
}

/// A binary frame contributes its payload exactly when it is well formed
/// and its headers name `Path:audio` and this session's identifier.
pub open spec fn bin_accepts(d: Seq<u8>, id: Seq<char>) -> bool {
    bin_wf(d) && has_entry(bin_pairs(d), "Path"@, "audio"@) && has_entry(
        bin_pairs(d),
        "X-RequestId"@,
        id,
    )
}

/// A text frame is a terminal `turn.end` frame.
pub open spec fn is_turn_end(msg: Seq<char>) -> bool {
    has_entry(text_pairs(msg), "Path"@, "turn.end"@)
}

/// A text frame names this session's correlation identifier.
pub open spec fn names_id(msg: Seq<char>, id: Seq<char>) -> bool {
    has_entry(text_pairs(msg), "X-RequestId"@, id)
}

/// What the receive loop decides on one inbound event.
pub open spec fn step_result(ev: InboundEvent, id: Seq<char>) -> StepOutcome {
    match ev {
        InboundEvent::Text(msg) => if is_turn_end(msg@) {
            if names_id(msg@, id) {
                StepOutcome::Finished
            } else {
                StepOutcome::Failed(SessionError::ProtocolMismatch)
            }
        } else {
            StepOutcome::Continue
        },
        InboundEvent::Binary(_) => StepOutcome::Continue,
        InboundEvent::Closed => StepOutcome::Failed(SessionError::UnexpectedClose),
    }
}

/// What the audio accumulator holds after one inbound event.
pub open spec fn step_audio(ev: InboundEvent, id: Seq<char>, audio: Seq<u8>) -> Seq<u8> {
    match ev {
        InboundEvent::Binary(d) => if bin_accepts(d@, id) && audio.len() + bin_payload(d@).len()
            <= isize::MAX {
            audio + bin_payload(d@)
        } else {
            audio
        },
        _ => audio,
    }
}

/// A binary frame whose total length falls short of what its length prefix
/// announces contributes nothing to the accumulator.
pub proof fn lemma_short_binary_frame_ignored(d: Vec<u8>, id: Seq<char>, audio: Seq<u8>)
    requires
        !bin_wf(d@),
    ensures
        step_audio(InboundEvent::Binary(d), id, audio) == audio,
{
}

/// The accumulator is append-only: whatever an inbound event does, the
/// audio collected so far stays in place, in order, at the front.
pub proof fn lemma_audio_append_only(ev: InboundEvent, id: Seq<char>, audio: Seq<u8>)
    ensures
        audio.is_prefix_of(step_audio(ev, id, audio)),
{
    let after = step_audio(ev, id, audio);
    assert(audio =~= after.subrange(0, audio.len() as int));
}

/// The content frame names its own session: for any identifier that
/// `random_request_id` can produce, the header block of the content frame,
/// run back through the frame classifier and the header codec, holds an
/// `X-RequestId` entry whose value is exactly that identifier.
pub proof fn lemma_content_frame_names_id(id: Seq<char>, ssml: Seq<char>)
    requires
        forall|i: int| 0 <= i < id.len() ==> is_lower_hex_char(#[trigger] id[i]),
    ensures
        has_entry(text_pairs(content_message_of(id, ssml)), "X-RequestId"@, id),
{
    let pre = "X-RequestId:"@;
    let mid = "\r\nContent-Type:application/ssml+xml\r\nPath:ssml\r\n\r\n"@;
    let m = content_message_of(id, ssml);
    reveal_strlit("X-RequestId:");
    reveal_strlit("\r\nContent-Type:application/ssml+xml\r\nPath:ssml\r\n\r\n");
    reveal_strlit("X-RequestId");
    assert(pre.len() == 12);
    assert(mid.len() == 50);
    assert(m =~= pre + id + mid + ssml);
    let n = id.len() as int;
    // No identifier character is a carriage return, a line feed, a colon or
    // whitespace.
    assert forall|i: int| 0 <= i < n implies id[i] != '\r' && id[i] != '\n' && id[i] != ':'
        && !is_space_char(#[trigger] id[i]) by {
        let c = id[i];
        let k = choose|k: int| 0 <= k < 16 && c == hex_digit(k);
        assert(c == hex_digit(k));
    }
    // The first blank line stands where the fixed tail puts it.
    let blank_pos = 12 + n + 46;
    assert(m[blank_pos] == '\r' && m[blank_pos + 1] == '\n' && m[blank_pos + 2] == '\r' && m[
        blank_pos + 3] == '\n');
    assert(m.subrange(blank_pos, blank_pos + 4) =~= crate::frames::blank_pat());
    assert(crate::headers::match_at(m, crate::frames::blank_pat(), blank_pos));
    assert forall|j: int| 0 <= j < blank_pos implies !crate::headers::match_at(
        m,
        crate::frames::blank_pat(),
        j,
    ) by {
        if crate::headers::match_at(m, crate::frames::blank_pat(), j) {
            assert(m.subrange(j, j + 4)[0] == '\r');
            assert(m.subrange(j, j + 4)[1] == '\n');
            assert(m.subrange(j, j + 4)[2] == '\r');
            assert(m.subrange(j, j + 4)[3] == '\n');
            if j < 12 + n {
                // Within `X-RequestId:` or the identifier no `\r` occurs,
                // and the character after the identifier begins the fixed
                // tail with `\r` followed by a character other than `\n`.
                assert(m[j] == '\r');
                assert(j == 12 + n);
            } else {
                // Within the fixed tail the only earlier `\r\n` pairs are
                // followed by a letter, not by another `\r\n`.
                let t = j - (12 + n);
                assert(m[j] == mid[t] && m[j + 1] == mid[t + 1] && m[j + 2] == mid[t + 2] && m[j
                    + 3] == mid[t + 3]);
                assert(t == 0 || t == 35);
                assert(mid[2] == 'C' && mid[37] == 'P');
            }
        }
    }
    crate::headers::lemma_first_match_is(m, crate::frames::blank_pat(), blank_pos);
    let header = m.subrange(0, blank_pos);
    assert(text_header_of(m) == header);
    // The first line terminator of the header block ends the identifier
    // line.
    let line_end = 12 + n;
    assert(header[line_end] == '\r' && header[line_end + 1] == '\n');
    assert(header.subrange(line_end, line_end + 2) =~= crate::headers::crlf_pat());
    assert(crate::headers::match_at(header, crate::headers::crlf_pat(), line_end));
    assert forall|j: int| 0 <= j < line_end implies !crate::headers::match_at(
        header,
        crate::headers::crlf_pat(),
        j,
    ) by {
        if crate::headers::match_at(header, crate::headers::crlf_pat(), j) {
            assert(header.subrange(j, j + 2)[0] == '\r');
            assert(header.subrange(j, j + 2)[1] == '\n');
        }
    }
    crate::headers::lemma_first_match_is(header, crate::headers::crlf_pat(), line_end);
    let line = header.subrange(0, line_end);
    let rest_lines = header.subrange(line_end + 2, header.len() as int);
    assert(crate::headers::split_crlf(header) =~= seq![line] + crate::headers::split_crlf(
        rest_lines,
    ));
    // The identifier line splits at its only colon into the key
    // `X-RequestId` and the identifier itself.
    assert(line[11] == ':');
    assert(line.subrange(11, 12) =~= crate::headers::colon_pat());
    assert(crate::headers::match_at(line, crate::headers::colon_pat(), 11));
    assert forall|j: int| 0 <= j < 11 implies !crate::headers::match_at(
        line,
        crate::headers::colon_pat(),
        j,
    ) by {
        if crate::headers::match_at(line, crate::headers::colon_pat(), j) {
            assert(line.subrange(j, j + 1)[0] == ':');
        }
    }
    crate::headers::lemma_first_match_is(line, crate::headers::colon_pat(), 11);
    assert(crate::headers::split_colon(line).0 =~= "X-RequestId"@);
    assert(crate::headers::split_colon(line).1 =~= id);
    // The identifier trims to itself.
    if n > 0 {
        assert(crate::headers::trim_start_of(id) == id);
        assert(crate::headers::trim_end_of(id) == id);
    }
    assert(crate::headers::trim_of(id) == id);
    // The identifier line is the first parsed pair.
    crate::headers::lemma_pairs_of_cons(line, crate::headers::split_crlf(rest_lines));
    let pairs = text_pairs(m);
    assert(pairs[0] == crate::headers::split_colon(line));
    assert(pairs[0].0 == "X-RequestId"@ && crate::headers::trim_of(pairs[0].1) == id);
}

/// The phase a step outcome leaves the session in.
pub open spec fn phase_after(r: StepOutcome) -> Phase {
    match r {
        StepOutcome::Continue => Phase::Streaming,
        StepOutcome::Finished => Phase::Completed,
        StepOutcome::Failed(_) => Phase::Failed,
    }
}

/// One synthesis session: its correlation identifier, its phase, and the
/// audio collected so far.
pub struct Session {
    phase: Phase,
    request_id: String,
    audio: BytesMut,
}

impl Session {
    /// The session's phase.
    pub closed spec fn phase(self) -> Phase {
        self.phase
    }

    /// The session's correlation identifier.
    pub closed spec fn id(self) -> Seq<char> {
        self.request_id@
    }

    /// The audio bytes collected so far, in arrival order.
    pub closed spec fn audio_view(self) -> Seq<u8> {
        audio_bytes_of(self.audio)
    }

    /// A new idle session with the given correlation identifier and an
    /// empty audio accumulator.
    pub fn new(request_id: String) -> (s: Session)
        ensures
            s.phase() == Phase::Idle,
            s.id() == request_id@,
            s.audio_view() == Seq::<u8>::empty(),
    {
        Session { phase: Phase::Idle, request_id, audio: audio_buffer_new() }
    }

    /// The number of audio bytes collected so far.
    pub fn audio_len(&self) -> (n: usize)
        ensures
            n == self.audio_view().len(),
    {
        audio_buffer_len(&self.audio)
    }

    /// Build the configuration frame, the first of the session's two
    /// outbound frames.  It may be built exactly once, before the content
    /// frame.
    pub fn config_frame(&mut self, output_format: &str) -> (m: String)
        requires
            old(self).phase() == Phase::Idle,
        ensures
            final(self).phase() == Phase::Handshaking,
            final(self).id() == old(self).id(),
            final(self).audio_view() == old(self).audio_view(),
            m@ == config_message_of(output_format@),
    {
        self.phase = Phase::Handshaking;
        config_message(output_format)
    }

    /// Build the content frame, the second of the session's two outbound
    /// frames; it carries this session's correlation identifier and the
    /// caller's markup.  It may be built exactly once, after the
    /// configuration frame.
    pub fn content_frame(&mut self, ssml: &str) -> (m: String)
        requires
            old(self).phase() == Phase::Handshaking,
        ensures
            final(self).phase() == Phase::Streaming,
            final(self).id() == old(self).id(),
            final(self).audio_view() == old(self).audio_view(),
            m@ == content_message_of(old(self).id(), ssml@),
    {
        self.phase = Phase::Streaming;
        content_message(self.request_id.as_str(), ssml)
    }

    /// Process one inbound event of the receive loop.
    ///
    /// A data frame whose headers name `Path:audio` and this session's
    /// identifier appends its payload to the accumulator; a control frame
    /// whose headers name `Path:turn.end` finishes the session when it also
    /// names the identifier and fails it otherwise; the end of the stream
    /// fails the session; every other frame is ignored.
    pub fn on_event(&mut self, ev: InboundEvent) -> (r: StepOutcome)
        requires
            old(self).phase() == Phase::Streaming,
        ensures
            r == step_result(ev, old(self).id()),
            final(self).phase() == phase_after(r),
            final(self).id() == old(self).id(),
            final(self).audio_view() == step_audio(ev, old(self).id(), old(self).audio_view()),
    {
        match ev {
            InboundEvent::Text(msg) => {
                let block = text_header_block(msg.as_str());
                let pairs = parse_headers(block);
                if headers_contain(&pairs, "Path", "turn.end") {
                    if headers_contain(&pairs, "X-RequestId", self.request_id.as_str()) {
                        self.phase = Phase::Completed;
                        StepOutcome::Finished
                    } else {
                        self.phase = Phase::Failed;
                        StepOutcome::Failed(SessionError::ProtocolMismatch)
                    }
                } else {
                    StepOutcome::Continue
                }
            },
            InboundEvent::Binary(d) => {
                match split_binary_frame(d.as_slice()) {
                    Some((header, payload)) => {
                        let pairs = parse_headers(header.as_str());
                        if headers_contain(&pairs, "Path", "audio") && headers_contain(
                            &pairs,
                            "X-RequestId",
                            self.request_id.as_str(),
                        ) {
                            let cur = audio_buffer_len(&self.audio);
                            if cur <= isize::MAX as usize && payload.len() <= isize::MAX as usize
                                - cur {
                                audio_buffer_extend(&mut self.audio, payload.as_slice());
                            }
                        }
                        StepOutcome::Continue
                    },
                    None => StepOutcome::Continue,
                }
            },
            InboundEvent::Closed => {
                self.phase = Phase::Failed;
                StepOutcome::Failed(SessionError::UnexpectedClose)
            },
        }
    }

    /// Hand the completed audio to the caller.  Only a completed session
    /// gives its audio up: a failed session never returns a partial buffer.
    pub fn take_audio(self) -> (b: BytesMut)
        requires
            self.phase() == Phase::Completed,
        ensures
            audio_bytes_of(b) == self.audio_view(),
    {
        self.audio
    }
}

} // verus!
