use gaveldrop::report::lines::locate;

const CASE: &str = r#"name: an-order-is-created
weight: 8
setup:
  serve: ["python3", "app.py"]
expect:
  exit_code: 0
  stdout:
    contains:
      - "listening"
      - "ready"
  files:
    "$HOME/orders.log":
      contains: ["created"]
steps:
  - name: creates an order
    expect:
      status: 201
      json:
        data.order.id: { contains: ["7"] }
"#;

fn line_of(path: &str) -> usize {
    locate(CASE, path)
}

#[test]
fn a_top_level_key_resolves_to_its_own_line() {
    assert_eq!(line_of("setup"), 3);
}

#[test]
fn a_nested_key_resolves_past_its_parents() {
    assert_eq!(line_of("expect.exit_code"), 6);
}

#[test]
fn an_indexed_element_resolves_to_the_element_not_the_list() {
    assert_eq!(line_of("expect.stdout.contains[1]"), 10);
}

#[test]
fn a_quoted_key_with_a_dot_in_it_is_not_split_on_that_dot() {
    assert_eq!(line_of("expect.files[\"$HOME/orders.log\"]"), 12);
}

#[test]
fn a_step_prefix_resolves_inside_that_step() {
    assert_eq!(line_of("steps[0] \"creates an order\".status"), 17);
}

#[test]
fn a_dotted_json_path_is_a_single_key_here() {
    assert_eq!(line_of("steps[0] \"creates an order\".json.data.order.id.contains[0]"), 19);
}

#[test]
fn a_path_that_stops_resolving_reports_the_deepest_line_it_reached() {
    assert_eq!(line_of("expect.stdout.absent[0]"), 7);
}

#[test]
fn a_path_matching_nothing_at_all_is_line_one_rather_than_an_error() {
    assert_eq!(line_of("nowhere.at.all"), 1);
}
