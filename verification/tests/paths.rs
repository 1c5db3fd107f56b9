use gaveldrop::iso::paths::{PathError, expand, expand_known, substitute};
use gaveldrop::strmap::StrMap;

fn map(pairs: &[(&str, &str)]) -> StrMap<String> {
    let mut m = StrMap::new();
    for (k, v) in pairs {
        m.insert(k.to_string(), v.to_string());
    }
    m
}

fn defined() -> StrMap<String> {
    map(&[("HOME", "/iso"), ("XDG_CONFIG_HOME", "/iso/.config")])
}

#[test]
fn a_command_keeps_a_shell_default_it_does_not_own() {
    let defined = map(&[("HOME", "/iso")]);
    assert_eq!(
        expand_known("printf %s \"${MYVAR-none}\"", &defined),
        "printf %s \"${MYVAR-none}\"",
        "`${{MYVAR-none}}` is the shell's syntax for a default"
    );
}

#[test]
fn a_command_substitutes_what_isolation_defines() {
    let defined = map(&[("GAVELDROP_PROJECT", "/repo")]);
    assert_eq!(expand_known("$GAVELDROP_PROJECT/app/server.py", &defined), "/repo/app/server.py");
}

#[test]
fn a_command_substitutes_a_braced_name_too() {
    let defined = map(&[("GAVELDROP_PORT", "8080")]);
    assert_eq!(expand_known("http://127.0.0.1:${GAVELDROP_PORT}/health", &defined), "http://127.0.0.1:8080/health");
}

#[test]
fn a_path_cannot_climb_out_of_the_root() {
    for pattern in [
        "$HOME/../../../../etc/hosts",
        "~/../outside",
        "../../../../etc/hosts",
        "$XDG_CONFIG_HOME/../../../..",
        "$HOME/a/../../b",
    ] {
        let refused = substitute(pattern, &defined());
        assert!(matches!(refused, Err(PathError::OutsideRoot { .. })), "{pattern:?}: {refused:?}");
    }
}

#[test]
fn a_path_that_climbs_and_comes_back_is_fine() {
    assert_eq!(substitute("$HOME/a/b/../note.txt", &defined()).unwrap(), "a/note.txt");
    assert_eq!(substitute("$HOME/./a/./b", &defined()).unwrap(), "a/b");
}

#[test]
fn home_and_tilde_both_resolve_relative_to_the_isolated_root() {
    assert_eq!(substitute("$HOME/Library/k9s/plugins.yaml", &defined()).unwrap(), "Library/k9s/plugins.yaml");
    assert_eq!(substitute("~/.zshrc", &defined()).unwrap(), ".zshrc");
}

#[test]
fn braced_and_bare_forms_are_both_accepted() {
    assert_eq!(substitute("${XDG_CONFIG_HOME}/foo", &defined()).unwrap(), ".config/foo");
    assert_eq!(substitute("$XDG_CONFIG_HOME/foo", &defined()).unwrap(), ".config/foo");
}

#[test]
fn an_absolute_path_outside_the_root_is_refused_rather_than_never_matched() {
    let error = substitute("/etc/passwd", &defined()).unwrap_err();
    assert!(error.message().contains("outside the isolated root"), "{}", error.message());
}

#[test]
fn a_relative_path_stays_relative_to_the_isolated_root() {
    assert_eq!(substitute("out/report.json", &defined()).unwrap(), "out/report.json");
}

#[test]
fn an_unknown_variable_is_an_error_rather_than_a_literal() {
    let error = substitute("$TYPO/plugins.yaml", &defined()).unwrap_err();
    assert!(error.message().contains("TYPO"), "{}", error.message());
    assert!(error.message().contains("HOME"), "{}", error.message());
    assert_eq!(
        error.message(),
        "unknown variable $TYPO in path \"$TYPO/plugins.yaml\". A case may only use what isolation defines: HOME, XDG_CONFIG_HOME"
    );
}

#[test]
fn an_environment_value_is_expanded_strictly() {
    assert_eq!(expand("$HOME/x", &defined()).unwrap(), "/iso/x");
    assert!(expand("$PATH/nope", &defined()).is_err());
}

#[test]
fn a_variable_from_the_developers_environment_is_not_available() {
    let error = substitute("$PATH/nope", &defined()).unwrap_err();

    assert!(
        error.message().contains("PATH"),
        "only what isolation itself defines may be substituted, or a case would depend \
         on whoever runs it: {}",
        error.message()
    );
}
