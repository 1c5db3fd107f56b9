use gaveldrop::adapters::shell::line::{assemble, quote};

#[test]
fn an_argument_with_a_single_quote_survives_quoting() {
    assert_eq!(quote("it's"), r"'it'\''s'");
}

#[test]
fn an_argument_that_would_run_a_second_command_is_inert() {
    let line = assemble(&[], &["echo".to_string(), "hi; rm -rf /".to_string()]);
    assert!(
        line.contains(r"'hi; rm -rf /'"),
        "a case is data, not a script. An argument containing a separator must reach the function as one argument: {line}"
    );
}

#[test]
fn the_sources_come_before_the_call_and_in_order() {
    let line = assemble(
        &["functions/ui.zsh".to_string(), "functions/kube.zsh".to_string()],
        &["kube_switch".to_string(), "staging".to_string()],
    );
    assert_eq!(line, r"source 'functions/ui.zsh'; source 'functions/kube.zsh'; 'kube_switch' 'staging'");
}

#[test]
fn sourcing_with_nothing_to_call_is_a_line_that_only_loads() {
    assert_eq!(assemble(&["rc.zsh".to_string()], &[]), "source 'rc.zsh'");
}

#[test]
fn nothing_at_all_is_an_empty_line() {
    assert_eq!(assemble(&[], &[]), "");
    assert_eq!(quote(""), "''");
}
