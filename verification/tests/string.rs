use qtx::string::Str;

fn round_trip(s: &str) {
    let units: Vec<u16> = s.encode_utf16().collect();
    let st = Str::from_utf16(&units).unwrap();
    assert_eq!(st.as_str(), s);
}

#[test]
fn decodes_ascii_bmp_and_supplementary() {
    round_trip("");
    round_trip("Qtx");
    round_trip("héllo wörld");
    round_trip("日本語");
    round_trip("😀 ok 𝄞");
    round_trip("\u{ffff}\u{10000}\u{10ffff}\u{d7ff}\u{e000}");
}

#[test]
fn exact_units() {
    let st = Str::from_utf16(&[0x0051, 0x0074, 0xD83D, 0xDE00]).unwrap();
    assert_eq!(st.as_str(), "Qt\u{1F600}");
}

#[test]
fn lone_surrogates_are_refused() {
    assert!(Str::from_utf16(&[0xD800]).is_none());
    assert!(Str::from_utf16(&[0x41, 0xDC00, 0x42]).is_none());
    assert!(Str::from_utf16(&[0xDE00, 0xD83D]).is_none());
    assert!(Str::from_utf16(&[0xD83D, 0x41]).is_none());
}

#[test]
fn from_str_and_clone_keep_the_text() {
    let s = Str::from_str("Main window");
    let c = s.clone();
    assert_eq!(s.as_str(), "Main window");
    assert_eq!(c.as_str(), "Main window");
}

#[test]
fn share_and_clone_keep_the_text() {
    let units: Vec<u16> = "Qtx 😀".encode_utf16().collect();
    let s = Str::from_utf16(&units).unwrap();
    let a = s.share();
    let b = a.clone();
    drop(s);
    assert_eq!(a.as_str(), "Qtx 😀");
    drop(a);
    assert_eq!(b.as_str(), "Qtx 😀");
}
