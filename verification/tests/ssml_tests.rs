use edge_tts::ssml::build_ssml;

#[test]
fn build_ssml_fills_the_template() {
    let s = build_ssml("hello", "en-GB-SoniaNeural", "x-low", "fast", "loud");
    assert_eq!(
        s,
        "<speak version=\"1.0\" xmlns=\"http://www.w3.org/2001/10/synthesis\" xmlns:mstts=\"https://www.w3.org/2001/mstts\" xml:lang=\"en-US\">\n            <voice name=\"en-GB-SoniaNeural\">\n                <prosody pitch=\"x-low\" rate=\"fast\" volume=\"loud\">hello</prosody>\n            </voice>\n        </speak>"
    );
}

#[test]
fn build_ssml_escapes_text_as_character_data() {
    let s = build_ssml("a<b & c>d", "voice", "default", "default", "default");
    assert!(s.contains(">a&lt;b &amp; c&gt;d</prosody>"));
}

#[test]
fn build_ssml_escapes_attribute_values() {
    let s = build_ssml("x", "na\"me<&>'", "default", "default", "default");
    assert!(s.contains("<voice name=\"na&quot;me&lt;&amp;&gt;&apos;\">"));
}
