use gaveldrop::locate::advice;

#[test]
fn the_advice_covers_both_ways_of_getting_here() {
    let text = advice("/somewhere/bin");

    assert!(text.contains("cargo install gaveldrop-fake"), "{text}");
    assert!(text.contains("cargo build --workspace"), "{text}");
    assert!(text.contains("/somewhere/bin"), "{text}");
}

#[test]
fn a_found_fake_gives_back_the_path_it_was_found_at_whichever_way() {
    let beside = gaveldrop::locate::Found::Beside(std::path::PathBuf::from("/opt/bin/gaveldrop-fake"));
    let on_path = gaveldrop::locate::Found::OnPath(std::path::PathBuf::from("/usr/bin/gaveldrop-fake"));
    assert_eq!(beside.path(), std::path::Path::new("/opt/bin/gaveldrop-fake"));
    assert_eq!(on_path.path(), std::path::Path::new("/usr/bin/gaveldrop-fake"));
}
