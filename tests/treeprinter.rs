use kaleidoscope::treeprinter::TreePrinter;

fn lines(t: &TreePrinter) -> Vec<String> {
    t.render().iter().map(|l| l.iter().collect()).collect()
}

#[test]
fn empty_tree_has_no_lines() {
    let t = TreePrinter::new();
    assert!(t.render().is_empty());
    assert_eq!(t.min_ident_level, 0);
}

#[test]
fn rows_and_columns() {
    let mut t = TreePrinter::new();
    t.add_print_item(String::from("+"), 0, 0);
    t.add_print_item(String::from("1"), 1, -1);
    t.add_print_item(String::from("*"), 1, 1);
    t.add_print_item(String::from("2"), 2, 0);
    t.add_print_item(String::from("3"), 2, 2);
    assert_eq!(t.min_ident_level, -1);
    assert_eq!(
        lines(&t),
        vec![
            String::from("       +  "),
            String::from("  1         *  "),
            String::from("       2         3  "),
        ]
    );
}

#[test]
fn labels_are_centred() {
    let mut t = TreePrinter::new();
    t.add_print_item(String::from("ab"), 0, 0);
    t.add_print_item(String::from("abcdefg"), 0, 1);
    assert_eq!(lines(&t), vec![format!("{:^5}{:^5}", "ab", "abcdefg")]);
}

#[test]
fn rows_stop_at_first_gap() {
    let mut t = TreePrinter::new();
    t.add_print_item(String::from("a"), 0, 0);
    t.add_print_item(String::from("c"), 2, 0);
    assert_eq!(lines(&t), vec![String::from("  a  ")]);
}
