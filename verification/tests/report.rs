use log_analyzer::report::{plan_delivery, plan_overview_delivery, Delivery};

#[test]
fn a_listing_goes_to_the_file_where_a_path_is_given() {
    let plan = plan_delivery(Some("out.txt".to_string()), 7);
    assert_eq!(plan, Delivery::ToFile { path: "out.txt".to_string() });
}

#[test]
fn a_listing_goes_to_the_terminal_with_its_row_count() {
    assert_eq!(plan_delivery(None, 7), Delivery::ToTerminal { row_count: Some(7) });
    assert_eq!(plan_delivery(None, 0), Delivery::ToTerminal { row_count: Some(0) });
}

#[test]
fn an_overview_goes_to_the_file_where_a_path_is_given() {
    let plan = plan_overview_delivery(Some("overview.txt".to_string()));
    assert_eq!(plan, Delivery::ToFile { path: "overview.txt".to_string() });
}

#[test]
fn an_overview_goes_to_the_terminal_without_a_row_count() {
    assert_eq!(plan_overview_delivery(None), Delivery::ToTerminal { row_count: None });
}
