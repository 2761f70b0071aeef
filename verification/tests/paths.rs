use appto::paths::{application_dir, appto_cache, appto_data, bin_dir, xdg_or};

#[test]
fn xdg_variable_wins_when_set() {
    assert_eq!(appto_data(Some("/data"), Some("/home/u")).ok(), Some(String::from("/data/appto")));
    assert_eq!(appto_cache(Some("/c/"), None).ok(), Some(String::from("/c/appto")));
    assert_eq!(
        application_dir(Some("/data"), None).ok(),
        Some(String::from("/data/applications"))
    );
}

#[test]
fn empty_or_unset_variable_falls_back_to_home() {
    assert_eq!(appto_data(Some(""), Some("/home/u")).ok(), Some(String::from("/home/u/.local/share/appto")));
    assert_eq!(appto_cache(None, Some("/home/u")).ok(), Some(String::from("/home/u/.cache/appto")));
    assert_eq!(xdg_or(None, Some("/h"), ".x").ok(), Some(String::from("/h/.x")));
}

#[test]
fn missing_home_is_an_error() {
    let e = appto_data(None, None).err().expect("error");
    assert_eq!(e.message(), "Home not found.");
    assert!(bin_dir(None).is_err());
    assert_eq!(bin_dir(Some("/home/u")).ok(), Some(String::from("/home/u/.local/bin")));
}
