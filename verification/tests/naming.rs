use urva::case::to_snake;

#[test]
fn namespaces_follow_rust_module_naming() {
    assert_eq!(to_snake("Order"), "order");
    assert_eq!(to_snake("LedgerEntry"), "ledger_entry");
    assert_eq!(to_snake("HTTPServer"), "http_server");
    assert_eq!(to_snake("Shipping2D"), "shipping2_d");
    assert_eq!(to_snake("already_snake"), "already_snake");
}

#[test]
fn a_capital_after_an_underscore_gets_no_second_underscore() {
    assert_eq!(to_snake("Ledger_Entry"), "ledger_entry");
}

#[test]
fn a_run_of_capitals_ends_before_the_capital_that_starts_a_word() {
    assert_eq!(to_snake("XMLHttpRequest"), "xml_http_request");
    assert_eq!(to_snake("ID"), "id");
    assert_eq!(to_snake(""), "");
}

#[test]
fn snake_case_only_adds_underscores() {
    for ident in ["Order", "LedgerEntry", "HTTPServer", "Shipping2D", "already_snake", "_Private__Name"] {
        let snake = urva::case::to_snake(ident);
        let lowered: String = ident.chars().flat_map(char::to_lowercase).filter(|c| *c != '_').collect();
        assert_eq!(snake.replace('_', ""), lowered);
    }
}
