use scr_launcher::names::{
    holds_text, is_lock_name, is_named, is_target_image, is_well_formed, LOCK_SIGNATURE,
    TARGET_IMAGE,
};

fn units(text: &str) -> Vec<u16> {
    text.encode_utf16().collect()
}

#[test]
fn constants_are_the_names_looked_for() {
    assert_eq!(TARGET_IMAGE, "starcraft.exe");
    assert_eq!(LOCK_SIGNATURE, "Starcraft Check For Other Instances");
}

#[test]
fn target_image_matches_in_any_case() {
    assert!(is_target_image(&units("starcraft.exe")));
    assert!(is_target_image(&units("STARCRAFT.EXE")));
    assert!(is_target_image(&units("StarCraft.exe")));
    assert!(!is_target_image(&units("other.exe")));
    assert!(!is_target_image(&units("starcraft.ex")));
    assert!(!is_target_image(&units("starcraft.exe\0")));
    assert!(!is_target_image(&[]));
}

#[test]
fn is_named_folds_ascii_letters_only() {
    assert!(is_named(&units("ABC-xyz"), "abc-XYZ"));
    assert!(is_named(&units(""), ""));
    assert!(!is_named(&units("abc"), "abd"));
    assert!(!is_named(&units("@"), "`"));
    assert!(!is_named(&units("["), "{"));
    assert!(is_named(&units("É"), "É"));
    assert!(!is_named(&units("É"), "é"));
    assert!(!is_named(&units("\u{212A}"), "k"));
}

#[test]
fn holds_text_finds_the_text_anywhere() {
    assert!(holds_text(&units("hello world"), "hello"));
    assert!(holds_text(&units("hello world"), "o w"));
    assert!(holds_text(&units("hello world"), "world"));
    assert!(holds_text(&units("hello world"), ""));
    assert!(holds_text(&[], ""));
    assert!(!holds_text(&units("hello world"), "World"));
    assert!(!holds_text(&units("hello"), "hello!"));
    assert!(!holds_text(&[], "a"));
    assert!(holds_text(&units("aab"), "ab"));
}

#[test]
fn well_formed_units_pair_their_surrogates() {
    assert!(is_well_formed(&[]));
    assert!(is_well_formed(&units("plain")));
    assert!(is_well_formed(&units("a\u{1F600}b")));
    assert!(is_well_formed(&[0xD83D, 0xDE00]));
    assert!(!is_well_formed(&[0xD83D]));
    assert!(!is_well_formed(&[0xDE00]));
    assert!(!is_well_formed(&[0xD83D, 0x41]));
    assert!(!is_well_formed(&[0x41, 0xDE00]));
    assert!(!is_well_formed(&[0xD83D, 0xD83D, 0xDE00]));
    assert!(!is_well_formed(&[0xD83D, 0xDE00, 0xDE00]));
    assert!(is_well_formed(&[0xD7FF, 0xE000]));
}

#[test]
fn lock_name_holds_the_signature() {
    let name = "\\Sessions\\1\\BaseNamedObjects\\Starcraft Check For Other Instances";
    assert!(is_lock_name(&units(name)));
    assert!(is_lock_name(&units("Starcraft Check For Other Instances")));
    assert!(is_lock_name(&units("xStarcraft Check For Other Instancesx")));
    assert!(!is_lock_name(&units("starcraft check for other instances")));
    assert!(!is_lock_name(&units("Starcraft Check For Other Instance")));
    assert!(!is_lock_name(&units("\\Device\\HarddiskVolume3")));
    assert!(!is_lock_name(&[]));
}

#[test]
fn lock_name_must_be_text() {
    let mut name = units("Starcraft Check For Other Instances");
    name.push(0xD800);
    assert!(!is_lock_name(&name));
    let mut name = vec![0xDC00];
    name.extend(units("Starcraft Check For Other Instances"));
    assert!(!is_lock_name(&name));
}
