//! Construction of the SSML markup sent as the content frame's body.  The
//! caller-supplied pieces are XML-escaped before they are spliced into the
//! fixed template.

use vstd::prelude::*;
use vstd::string::StringExecFns;

verus! {

/// How one character is written inside an XML attribute value.
pub open spec fn esc_attr_char(c: char) -> Seq<char> {
    if c == '<' {
        seq!['&', 'l', 't', ';']
    } else if c == '>' {
        seq!['&', 'g', 't', ';']
    } else if c == '"' {
        seq!['&', 'q', 'u', 'o', 't', ';']
    } else if c == '\'' {
        seq!['&', 'a', 'p', 'o', 's', ';']
    } else if c == '&' {
        seq!['&', 'a', 'm', 'p', ';']
    } else if c == '\n' {
        seq!['&', '#', 'x', 'A', ';']
    } else if c == '\r' {
        seq!['&', '#', 'x', 'D', ';']
    } else {
        seq![c]
    }
}

/// A string as written inside an XML attribute value.
pub open spec fn esc_attr_of(s: Seq<char>) -> Seq<char>
    decreases s.len(),
{
    if s.len() == 0 {
        Seq::empty()
    } else {
        esc_attr_char(s[0]) + esc_attr_of(s.subrange(1, s.len() as int))
    }
}

/// How one character is written inside XML character data.
pub open spec fn esc_pcdata_char(c: char) -> Seq<char> {
    if c == '<' {
        seq!['&', 'l', 't', ';']
    } else if c == '>' {
        seq!['&', 'g', 't', ';']
    } else if c == '&' {
        seq!['&', 'a', 'm', 'p', ';']
    } else {
        seq![c]
    }
}

/// A string as written inside XML character data.
pub open spec fn esc_pcdata_of(s: Seq<char>) -> Seq<char>
    decreases s.len(),
{
    if s.len() == 0 {
        Seq::empty()
    } else {
        esc_pcdata_char(s[0]) + esc_pcdata_of(s.subrange(1, s.len() as int))
    }
}

/// Relies on `xml::escape::escape_str_attribute`: replaces `<`, `>`, `"`,
/// `'`, `&`, `\n` and `\r` with their entities and keeps every other
/// character.
#[verifier::external_body]
fn escape_attribute(s: &str) -> (r: String)
    ensures
        r@ == esc_attr_of(s@),
{
    xml::escape::escape_str_attribute(s).into_owned()
}

/// Relies on `xml::escape::escape_str_pcdata`: replaces `<`, `>` and `&`
/// with their entities and keeps every other character.
#[verifier::external_body]
fn escape_pcdata(s: &str) -> (r: String)
    ensures
        r@ == esc_pcdata_of(s@),
{
    xml::escape::escape_str_pcdata(s).into_owned()
}

/// What `build_ssml` produces for the given pieces.
pub open spec fn ssml_of(
    text: Seq<char>,
    voice: Seq<char>,
    pitch: Seq<char>,
    rate: Seq<char>,
    volume: Seq<char>,
) -> Seq<char> {
    "<speak version=\"1.0\" xmlns=\"http://www.w3.org/2001/10/synthesis\" xmlns:mstts=\"https://www.w3.org/2001/mstts\" xml:lang=\"en-US\">\n            <voice name=\""@
        + esc_attr_of(voice) + "\">\n                <prosody pitch=\""@ + esc_attr_of(pitch)
        + "\" rate=\""@ + esc_attr_of(rate) + "\" volume=\""@ + esc_attr_of(volume) + "\">"@
        + esc_pcdata_of(text) + "</prosody>\n            </voice>\n        </speak>"@
}

/// Build the SSML markup for a synthesis request.
///
/// `voice_short_name`, `pitch`, `rate` and `volume` are spliced into the
/// template as attribute values and `text` as character data, each
/// XML-escaped.
pub fn build_ssml(
    text: &str,
    voice_short_name: &str,
    pitch: &str,
    rate: &str,
    volume: &str,
) -> (r: String)
    ensures
        r@ == ssml_of(text@, voice_short_name@, pitch@, rate@, volume@),
{
    let mut m = String::from_str(
        "<speak version=\"1.0\" xmlns=\"http://www.w3.org/2001/10/synthesis\" xmlns:mstts=\"https://www.w3.org/2001/mstts\" xml:lang=\"en-US\">\n            <voice name=\"",
    );
    m.append(escape_attribute(voice_short_name).as_str());
    m.append("\">\n                <prosody pitch=\"");
    m.append(escape_attribute(pitch).as_str());
    m.append("\" rate=\"");
    m.append(escape_attribute(rate).as_str());
    m.append("\" volume=\"");
    m.append(escape_attribute(volume).as_str());
    m.append("\">");
    m.append(escape_pcdata(text).as_str());
    m.append("</prosody>\n            </voice>\n        </speak>");
    m
}

} // verus!
