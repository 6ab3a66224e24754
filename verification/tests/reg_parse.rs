use hydra_saves::reg::parse_reg_file;
use hydra_saves::reg::RegValueEnum;
use hydra_saves::wine::get_windows_like_user_profile_path;
use hydra_saves::wine::ProfilePathError;

fn string_value(v: &RegValueEnum) -> String {
    match v {
        RegValueEnum::String(s) => s.clone(),
        RegValueEnum::Number(_) => panic!("expected a string value"),
    }
}

fn number_value(v: &RegValueEnum) -> u32 {
    match v {
        RegValueEnum::String(_) => panic!("expected a number value"),
        RegValueEnum::Number(n) => *n,
    }
}

#[test]
fn no_section_headers_yields_no_entries() {
    let text = "; comment only\n\"Key\"=\"Value\"\n#time=1abc\n\n   \n";
    let entries = parse_reg_file(text);
    assert_eq!(entries.len(), 0);
}

#[test]
fn empty_text_yields_no_entries() {
    assert_eq!(parse_reg_file("").len(), 0);
}

#[test]
fn sections_appear_in_order_with_values() {
    let text = "[First\\Path] 123456\n\"a\"=\"1\"\n[Second] 7\n\"b\"=\"2\"\n";
    let entries = parse_reg_file(text);
    assert_eq!(entries.len(), 2);
    assert_eq!(entries[0].path, "First\\Path");
    assert_eq!(entries[1].path, "Second");
    assert_eq!(entries[0].values.len(), 1);
    assert_eq!(entries[0].values[0].0, "a");
    assert_eq!(string_value(&entries[0].values[0].1), "1");
}

#[test]
fn timestamp_directive_attaches_to_open_entry() {
    let text = "#time=ignored\n[Env]\n#time=1d9a6b2f\n\"k\"=\"v\"\n";
    let entries = parse_reg_file(text);
    assert_eq!(entries.len(), 1);
    assert_eq!(entries[0].timestamp.as_deref(), Some("1d9a6b2f"));
}

#[test]
fn bom_is_stripped() {
    let text = "\u{feff}[Env]\n\"k\"=\"v\"\n";
    let entries = parse_reg_file(text);
    assert_eq!(entries.len(), 1);
    assert_eq!(entries[0].path, "Env");
}

#[test]
fn dword_values_decode_hex() {
    let text = "[Env]\n\"n\"=dword:00000a2f\n\"bad\"=dword:xyz\n\"big\"=dword:1ffffffff\n";
    let entries = parse_reg_file(text);
    assert_eq!(entries.len(), 1);
    assert_eq!(number_value(&entries[0].values[0].1), 0xa2f);
    assert_eq!(number_value(&entries[0].values[1].1), 0);
    assert_eq!(number_value(&entries[0].values[2].1), 0);
}

#[test]
fn dword_round_trips_through_lowercase_hex() {
    for n in [0u32, 1, 0xa2f, 0xdead_beef, u32::MAX] {
        let text = format!("[Env]\n\"n\"=dword:{:x}\n", n);
        let entries = parse_reg_file(&text);
        assert_eq!(number_value(&entries[0].values[0].1), n);
    }
}

#[test]
fn value_decodings() {
    let text = "[Env]\n\"empty\"=\"\"\n\"quoted\"=\"inner text\"\n\"bare\"=plain\n=default\n";
    let entries = parse_reg_file(text);
    let vals = &entries[0].values;
    assert_eq!(vals[0].0, "empty");
    assert_eq!(string_value(&vals[0].1), "");
    assert_eq!(string_value(&vals[1].1), "inner text");
    assert_eq!(string_value(&vals[2].1), "plain");
    assert_eq!(vals[3].0, "@");
    assert_eq!(string_value(&vals[3].1), "default");
}

#[test]
fn duplicate_key_overwrites_in_place() {
    let text = "[Env]\n\"k\"=\"one\"\n\"x\"=\"y\"\n\"k\"=\"two\"\n";
    let entries = parse_reg_file(text);
    let vals = &entries[0].values;
    assert_eq!(vals.len(), 2);
    assert_eq!(vals[0].0, "k");
    assert_eq!(string_value(&vals[0].1), "two");
    assert_eq!(vals[1].0, "x");
}

#[test]
fn profile_path_from_volatile_environment() {
    let text = "[Some\\Other]\n\"USERPROFILE\"=\"D:\\\\wrong\"\n[Volatile Environment] 99\n\"USERPROFILE\"=\"C:\\users\\alice\"\n";
    let r = get_windows_like_user_profile_path(text);
    assert_eq!(r.unwrap(), "C:/users/alice");
}

#[test]
fn profile_path_missing_section() {
    let r = get_windows_like_user_profile_path("[Env]\n\"USERPROFILE\"=\"C:\\u\"\n");
    assert_eq!(r.unwrap_err(), ProfilePathError::VolatileEnvironmentNotFound);
}

#[test]
fn profile_path_missing_value() {
    let r = get_windows_like_user_profile_path("[Volatile Environment]\n\"HOME\"=\"C:\\u\"\n");
    assert_eq!(r.unwrap_err(), ProfilePathError::UserProfileNotFound);
}

#[test]
fn profile_path_number_value_is_rejected() {
    let r = get_windows_like_user_profile_path(
        "[Volatile Environment]\n\"USERPROFILE\"=dword:1f\n",
    );
    assert_eq!(r.unwrap_err(), ProfilePathError::UserProfileNotFound);
}
