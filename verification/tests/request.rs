use speakturbo::request::{tts_url, DAEMON_URL};

#[test]
fn service_address() {
    assert_eq!(DAEMON_URL, "http://127.0.0.1:7125");
}

#[test]
fn url_of_plain_text() {
    assert_eq!(tts_url("hello", "alba"), "http://127.0.0.1:7125/tts?text=hello&voice=alba");
}

#[test]
fn url_encodes_text_and_voice() {
    assert_eq!(
        tts_url("hello world", "alba"),
        "http://127.0.0.1:7125/tts?text=hello%20world&voice=alba"
    );
    assert_eq!(
        tts_url("a&voice=x", "jean val"),
        "http://127.0.0.1:7125/tts?text=a%26voice%3Dx&voice=jean%20val"
    );
    assert_eq!(
        tts_url("Ça va?", "é"),
        "http://127.0.0.1:7125/tts?text=%C3%87a%20va%3F&voice=%C3%A9"
    );
}

#[test]
fn url_of_empty_parts() {
    assert_eq!(tts_url("", ""), "http://127.0.0.1:7125/tts?text=&voice=");
}
