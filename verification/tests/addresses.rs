use gimmeurl::ident::sender_peer_id;
use gimmeurl::links::{cleaned_url, download_url, lan_addr, lan_url, link_base, LAN_PORT, PORT};
use gimmeurl::render::{explain_qr, make_qr, QrFault};
use gimmeurl::text::{decimal_text, is_white_space, lower_char, trim};

#[test]
fn ports() {
    assert_eq!(PORT, 3737);
    assert_eq!(LAN_PORT, 3738);
}

#[test]
fn tunnel_addresses_are_cleaned() {
    assert_eq!(cleaned_url("  https://a.example/// \n"), "https://a.example");
    assert_eq!(cleaned_url("https://a.example"), "https://a.example");
    assert_eq!(cleaned_url("https://a.example/x/"), "https://a.example/x");
    assert_eq!(cleaned_url("///"), "");
    assert_eq!(cleaned_url(""), "");
    assert_eq!(cleaned_url("\u{2003}x\u{2003}"), "x");
}

#[test]
fn cleaning_again_changes_nothing() {
    let once = cleaned_url(" https://a.example// ");
    assert_eq!(cleaned_url(&once), once);
}

#[test]
fn space_before_the_slashes_stays() {
    assert_eq!(cleaned_url("x /"), "x ");
}

#[test]
fn links() {
    assert_eq!(link_base(&String::new()), "http://localhost:3737");
    assert_eq!(link_base(&"https://t.example".to_string()), "https://t.example");
    assert_eq!(download_url("https://t.example", "abc"), "https://t.example/get/abc");
    assert_ne!(download_url("b", "x"), download_url("b", "y"));
}

#[test]
fn local_addresses() {
    let ip = Some("192.168.0.7".to_string());
    assert_eq!(lan_url(&ip, "abc").unwrap(), "http://192.168.0.7:3737/get/abc");
    assert_eq!(lan_addr(&ip, LAN_PORT).unwrap(), "192.168.0.7:3738");
    assert_eq!(lan_addr(&ip, PORT).unwrap(), "192.168.0.7:3737");
    assert_eq!(lan_url(&None, "abc"), None);
    assert_eq!(lan_addr(&None, PORT), None);
}

#[test]
fn sender_ids() {
    assert_eq!(
        sender_peer_id("0123abcd-0000-4000-8000-000000000000"),
        "sender-0123abcd"
    );
}

#[test]
fn decimal_texts() {
    assert_eq!(decimal_text(0), "0");
    assert_eq!(decimal_text(7), "7");
    assert_eq!(decimal_text(10), "10");
    assert_eq!(decimal_text(u64::MAX), "18446744073709551615");
}

#[test]
fn qr_codes_are_images() {
    let svg = make_qr("http://localhost:3737/get/x").unwrap();
    assert!(svg.contains("<svg"));
    assert!(svg.contains("#0a0a0f"));
    assert!(svg.contains("#ffffff"));
    assert_eq!(make_qr("http://localhost:3737/get/x").unwrap(), svg);
    assert_ne!(make_qr("http://localhost:3737/get/y").unwrap(), svg);
}

#[test]
fn long_texts_have_no_qr_code() {
    assert_eq!(make_qr(&"x".repeat(5000)), Err("data too long".to_string()));
}

#[test]
fn qr_faults_in_words() {
    assert_eq!(explain_qr(Ok("<svg/>".to_string())), Ok("<svg/>".to_string()));
    let table = [
        (QrFault::DataTooLong, "data too long"),
        (QrFault::InvalidVersion, "invalid version"),
        (QrFault::UnsupportedCharacterSet, "unsupported character set"),
        (QrFault::InvalidEciDesignator, "invalid ECI designator"),
        (QrFault::InvalidCharacter, "invalid character"),
    ];
    for (fault, words) in table {
        assert_eq!(explain_qr(Err(fault)), Err(words.to_string()));
    }
}

#[test]
fn white_space_is_that_of_unicode() {
    for c in '\0'..=char::MAX {
        assert_eq!(is_white_space(c), c.is_whitespace());
    }
}

#[test]
fn ascii_letters_are_lowered() {
    for c in '\0'..='\u{2ff}' {
        assert_eq!(lower_char(c), c.to_ascii_lowercase());
    }
}

#[test]
fn trimmed_texts() {
    for text in ["", " ", " a ", "\u{85}a b\u{2029}", "x", "\u{200b}x"] {
        assert_eq!(trim(text), text.trim());
    }
}
