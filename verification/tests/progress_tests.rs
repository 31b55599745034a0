use webarcade::progress::CargoProgress;

#[test]
fn compiling_line_advances_and_names_unit() {
    let mut p = CargoProgress::new();
    p.apply_line("   Compiling serde v1.0.0");
    assert_eq!(p.compiled, 1);
    assert_eq!(p.total, 150);
    assert_eq!(p.last_unit.as_deref(), Some("serde"));
    assert_eq!(p.errors, "");
}

#[test]
fn bar_line_sets_count_total_and_unit() {
    let mut p = CargoProgress::new();
    p.apply_line("    Building [=====>   ] 50/100: foo");
    assert_eq!(p.compiled, 50);
    assert_eq!(p.total, 100);
    assert_eq!(p.last_unit.as_deref(), Some("foo"));
}

#[test]
fn bar_line_without_name_keeps_last_unit() {
    let mut p = CargoProgress::new();
    p.apply_line("Compiling alpha v0.1.0");
    p.apply_line("    Building [=>] 2/7");
    assert_eq!(p.compiled, 2);
    assert_eq!(p.total, 7);
    assert_eq!(p.last_unit.as_deref(), Some("alpha"));
}

#[test]
fn count_passing_total_grows_it() {
    let mut p = CargoProgress::new();
    p.apply_line("    Building [=>] 3/3: x");
    p.apply_line("Compiling beta v0.2.0");
    assert_eq!(p.compiled, 4);
    assert_eq!(p.total, 14);
}

#[test]
fn error_lines_accumulate_verbatim() {
    let mut p = CargoProgress::new();
    p.apply_line("error[E0308]: mismatched types");
    p.apply_line("some Error: context");
    assert_eq!(p.errors, "error[E0308]: mismatched types\nsome Error: context\n");
    assert_eq!(p.compiled, 0);
}

#[test]
fn other_lines_change_nothing() {
    let mut p = CargoProgress::new();
    p.apply_line("    Finished release profile");
    assert_eq!(p.compiled, 0);
    assert_eq!(p.total, 0);
    assert!(p.last_unit.is_none());
    assert_eq!(p.errors, "");
}

#[test]
fn unparsable_bar_line_changes_nothing() {
    let mut p = CargoProgress::new();
    p.apply_line("    Building [=>] nonsense/x: y");
    assert_eq!(p.compiled, 0);
    assert_eq!(p.total, 0);
}

#[test]
fn bar_line_unit_name_stops_at_the_second_colon() {
    let mut p = CargoProgress::new();
    p.apply_line("    Building [=>] 2/7: foo: extra");
    assert_eq!(p.compiled, 2);
    assert_eq!(p.total, 7);
    assert_eq!(p.last_unit.as_deref(), Some("foo"));
}
