use edge_tts::messages::config_message;
use edge_tts::messages::content_message;
use edge_tts::messages::random_request_id;
use edge_tts::session::InboundEvent;
use edge_tts::session::Session;
use edge_tts::session::SessionError;
use edge_tts::session::StepOutcome;

const ID: &str = "0123456789abcdef0123456789abcdef";
const OTHER_ID: &str = "ffffffffffffffffffffffffffffffff";

/// A binary data frame: 2-byte big-endian header length, header text,
/// payload.
fn binary_frame(header: &str, payload: &[u8]) -> Vec<u8> {
    let h = header.as_bytes();
    let mut d = Vec::new();
    d.push((h.len() >> 8) as u8);
    d.push((h.len() & 0xff) as u8);
    d.extend_from_slice(h);
    d.extend_from_slice(payload);
    d
}

fn streaming_session(id: &str) -> Session {
    let mut s = Session::new(id.to_string());
    let _config = s.config_frame("audio-24khz-48kbitrate-mono-mp3");
    let _content = s.content_frame("<speak/>");
    s
}

fn audio_frame(id: &str, payload: &[u8]) -> Vec<u8> {
    let header = format!("X-RequestId:{}\r\nContent-Type:audio/mpeg\r\nPath:audio\r\n", id);
    binary_frame(&header, payload)
}

fn turn_end_frame(id: &str) -> String {
    format!("X-RequestId:{}\r\nContent-Type:application/json; charset=utf-8\r\nPath:turn.end\r\n\r\n{{}}", id)
}

#[test]
fn session_assembles_matching_audio_in_order() {
    let mut s = streaming_session(ID);
    // A config acknowledgement: a control frame without Path=audio, ignored.
    let ack = format!("X-RequestId:{}\r\nContent-Type:application/json\r\nPath:turn.start\r\n\r\n{{}}", ID);
    assert_eq!(s.on_event(InboundEvent::Text(ack)), StepOutcome::Continue);
    // A data frame of this session contributes its payload.
    assert_eq!(
        s.on_event(InboundEvent::Binary(audio_frame(ID, b"AB"))),
        StepOutcome::Continue
    );
    // A data frame of some other session is ignored.
    assert_eq!(
        s.on_event(InboundEvent::Binary(audio_frame(OTHER_ID, b"XX"))),
        StepOutcome::Continue
    );
    // The matching terminal frame completes the session.
    assert_eq!(
        s.on_event(InboundEvent::Text(turn_end_frame(ID))),
        StepOutcome::Finished
    );
    let audio = s.take_audio();
    assert_eq!(&audio[..], b"AB");
}

#[test]
fn mismatched_turn_end_is_a_protocol_error() {
    let mut s = streaming_session(ID);
    assert_eq!(
        s.on_event(InboundEvent::Binary(audio_frame(ID, b"AB"))),
        StepOutcome::Continue
    );
    assert_eq!(
        s.on_event(InboundEvent::Binary(audio_frame(OTHER_ID, b"XX"))),
        StepOutcome::Continue
    );
    assert_eq!(
        s.on_event(InboundEvent::Text(turn_end_frame(OTHER_ID))),
        StepOutcome::Failed(SessionError::ProtocolMismatch)
    );
}

#[test]
fn stream_close_before_turn_end_is_unexpected() {
    let mut s = streaming_session(ID);
    assert_eq!(
        s.on_event(InboundEvent::Binary(audio_frame(ID, b"AB"))),
        StepOutcome::Continue
    );
    assert_eq!(
        s.on_event(InboundEvent::Closed),
        StepOutcome::Failed(SessionError::UnexpectedClose)
    );
}

#[test]
fn short_binary_frame_is_ignored_without_panicking() {
    let mut s = streaming_session(ID);
    // Total length shorter than the announced header length plus two.
    let mut short = audio_frame(ID, b"AB");
    short.truncate(10);
    assert_eq!(s.on_event(InboundEvent::Binary(short)), StepOutcome::Continue);
    assert_eq!(s.audio_len(), 0);
    // Too short even for the length prefix.
    assert_eq!(s.on_event(InboundEvent::Binary(vec![7u8])), StepOutcome::Continue);
    assert_eq!(s.on_event(InboundEvent::Binary(Vec::new())), StepOutcome::Continue);
    assert_eq!(s.audio_len(), 0);
}

#[test]
fn turn_end_without_request_id_is_a_protocol_error() {
    let mut s = streaming_session(ID);
    let msg = "Path:turn.end\r\n\r\n{}".to_string();
    assert_eq!(
        s.on_event(InboundEvent::Text(msg)),
        StepOutcome::Failed(SessionError::ProtocolMismatch)
    );
}

#[test]
fn turn_end_value_is_trimmed_before_comparison() {
    let mut s = streaming_session(ID);
    let msg = format!("Path: turn.end \r\nX-RequestId: {} \r\n\r\n", ID);
    assert_eq!(s.on_event(InboundEvent::Text(msg)), StepOutcome::Finished);
}

#[test]
fn turn_end_without_blank_line_is_still_terminal() {
    let mut s = streaming_session(ID);
    let msg = format!("Path:turn.end\r\nX-RequestId:{}", ID);
    assert_eq!(s.on_event(InboundEvent::Text(msg)), StepOutcome::Finished);
}

#[test]
fn request_id_must_match_exactly_not_as_substring() {
    let mut s = streaming_session(ID);
    let longer = format!("{}ff", ID);
    assert_eq!(
        s.on_event(InboundEvent::Binary(audio_frame(&longer, b"AB"))),
        StepOutcome::Continue
    );
    assert_eq!(s.audio_len(), 0);
}

#[test]
fn correlation_ids_are_32_lowercase_hex_chars_and_fresh() {
    let a = random_request_id();
    let b = random_request_id();
    assert_eq!(a.len(), 32);
    assert_eq!(b.len(), 32);
    assert!(a.chars().all(|c| c.is_ascii_hexdigit() && !c.is_ascii_uppercase()));
    assert!(b.chars().all(|c| c.is_ascii_hexdigit() && !c.is_ascii_uppercase()));
    assert_ne!(a, b);
}

#[test]
fn config_frame_comes_first_then_content_with_the_session_id() {
    let mut s = Session::new(ID.to_string());
    let config = s.config_frame("audio-24khz-48kbitrate-mono-mp3");
    assert_eq!(
        config,
        "Content-Type:application/json; charset=utf-8\r\nPath:speech.config\r\n\r\n{\"context\":{\"synthesis\":{\"audio\":{\"metadataoptions\":{\"sentenceBoundaryEnabled\":false,\"wordBoundaryEnabled\":true},\"outputFormat\":\"audio-24khz-48kbitrate-mono-mp3\"}}}}"
    );
    let content = s.content_frame("<speak>hello</speak>");
    assert_eq!(
        content,
        format!(
            "X-RequestId:{}\r\nContent-Type:application/ssml+xml\r\nPath:ssml\r\n\r\n<speak>hello</speak>",
            ID
        )
    );
}

#[test]
fn outbound_builders_match_the_wire_format() {
    assert_eq!(
        config_message("webm"),
        "Content-Type:application/json; charset=utf-8\r\nPath:speech.config\r\n\r\n{\"context\":{\"synthesis\":{\"audio\":{\"metadataoptions\":{\"sentenceBoundaryEnabled\":false,\"wordBoundaryEnabled\":true},\"outputFormat\":\"webm\"}}}}"
    );
    assert_eq!(
        content_message("id0", "<speak/>"),
        "X-RequestId:id0\r\nContent-Type:application/ssml+xml\r\nPath:ssml\r\n\r\n<speak/>"
    );
}
