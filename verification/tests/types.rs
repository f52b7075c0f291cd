use iceray::params::Params;
use iceray::types::Pages;
use std::str::FromStr;

#[test]
fn pages_are_named_as_their_tabs() {
    assert_eq!(Pages::from_name("Overview"), Some(Pages::Overview));
    assert_eq!(Pages::from_name("Memory"), Some(Pages::Memory));
    assert_eq!(Pages::from_name("Processes"), Some(Pages::Processes));
    assert_eq!(Pages::from_name("Services"), Some(Pages::Services));
}

#[test]
fn page_names_are_exact() {
    assert_eq!(Pages::from_name("memory"), None);
    assert_eq!(Pages::from_name("Memory "), None);
    assert_eq!(Pages::from_name(" Memory"), None);
    assert_eq!(Pages::from_name("Mem"), None);
    assert_eq!(Pages::from_name("Memoryy"), None);
    assert_eq!(Pages::from_name(""), None);
}

#[test]
fn pages_are_parsed_without_the_whitespace_around_them() {
    assert_eq!(Pages::from_str("Memory"), Ok(Pages::Memory));
    assert_eq!(Pages::from_str("  Services\n"), Ok(Pages::Services));
    assert_eq!(Pages::from_str("\tOverview "), Ok(Pages::Overview));
    assert_eq!(Pages::parse("\u{2003}Processes\u{a0}"), Ok(Pages::Processes));
    assert_eq!("Processes\r\n".parse::<Pages>(), Ok(Pages::Processes));
}

#[test]
fn text_that_names_no_page_is_refused_with_a_message() {
    let message = "Could not parse page type!".to_string();
    assert_eq!(Pages::from_str("memory"), Err(message.clone()));
    assert_eq!(Pages::from_str(""), Err(message.clone()));
    assert_eq!(Pages::from_str("   "), Err(message.clone()));
    assert_eq!(Pages::from_str("Mem ory"), Err(message.clone()));
    assert_eq!(Pages::parse("Memory Services"), Err(message));
}

#[test]
fn pages_stand_at_the_positions_of_their_tabs() {
    assert_eq!(Pages::Overview.index(), 0);
    assert_eq!(Pages::Memory.index(), 1);
    assert_eq!(Pages::Processes.index(), 2);
    assert_eq!(Pages::Services.index(), 3);
}

#[test]
fn params_hold_interval_and_page() {
    let params = Params { update_interval: 1000, initial_page: Pages::Memory };
    assert_eq!(params.update_interval, 1000);
    assert_eq!(params.initial_page, Pages::Memory);
}
