use runner::lang::{LangExt, Language};

#[test]
fn wire_identifiers_are_fixed() {
    assert_eq!(Language::Rust1_82.as_u32(), 1);
    assert_eq!(Language::Go1_23.as_u32(), 2);
    assert_eq!(Language::Python3_13.as_u32(), 3);
}

#[test]
fn wire_identifiers_round_trip() {
    for lang in [Language::Rust1_82, Language::Go1_23, Language::Python3_13] {
        assert_eq!(Language::try_from_u32(lang.as_u32()), Some(lang));
    }
    assert_eq!(Language::try_from_u32(0), None);
    assert_eq!(Language::try_from_u32(4), None);
    assert_eq!(Language::try_from_u32(999), None);
}

#[test]
fn installation_paths_follow_the_directory_names() {
    assert_eq!(Language::Rust1_82.dir_name(), "rust182");
    assert_eq!(Language::Go1_23.dir_name(), "go123");
    assert_eq!(Language::Python3_13.dir_name(), "python313");
    assert_eq!(Language::Rust1_82.runner_path("/runner"), "/runner/rust182");
    assert_eq!(Language::Go1_23.bin_path("/runner"), "/runner/go123/bin");
}
