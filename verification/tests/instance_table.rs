use sm_connect::aws::Instance;
use sm_connect::aws::InstanceInfo;
use sm_connect::aws::Tag;
use sm_connect::components::instance_table::InstanceTable;
use sm_connect::components::instance_table::KeyAction;
use sm_connect::components::Action;
use sm_connect::components::Event;
use sm_connect::components::HandleAction;
use sm_connect::components::KeyCode;
use sm_connect::components::instance_table::name_passes;

fn instance(name: &str) -> InstanceInfo {
    InstanceInfo::new(
        "eu-west-1".to_string(),
        Instance {
            tags: Some(vec![Tag { key: Some("Name".to_string()), value: Some(name.to_string()) }]),
            instance_id: Some(format!("i-{name}")),
            private_ip_address: Some("10.0.0.1".to_string()),
            public_ip_address: Some("198.51.100.1".to_string()),
            ..Instance::default()
        },
    )
}

fn table(names: &[&str]) -> InstanceTable {
    InstanceTable::with_items(names.iter().map(|name| instance(name)).collect())
}

fn visible(table: &InstanceTable) -> Vec<String> {
    table.get_visible_items().iter().map(|i| i.get_name()).collect()
}

fn current(table: &InstanceTable) -> Option<String> {
    table.current().map(|i| i.get_name())
}

#[test]
fn a_new_table_shows_everything_and_selects_the_first_row() {
    let table = table(&["web-01", "db-01", "web-02"]);
    assert_eq!(visible(&table), vec!["web-01", "db-01", "web-02"]);
    assert_eq!(table.selected(), Some(0));
    assert_eq!(table.get_filter(), "");
    assert_eq!(table.visible_len(), 3);
    assert_eq!(current(&table), Some("web-01".to_string()));
}

#[test]
fn filtering_by_web_keeps_the_web_instances() {
    let mut table = table(&["web-01", "db-01", "web-02"]);
    table.next();
    table.apply_filter("web".to_string());
    assert_eq!(visible(&table), vec!["web-01", "web-02"]);
    assert_eq!(table.selected(), Some(0));
    assert_eq!(table.get_filter(), "web");
}

#[test]
fn next_on_an_empty_table_selects_nothing() {
    let mut table = table(&[]);
    assert_eq!(table.selected(), None);
    table.next();
    assert_eq!(table.selected(), None);
    table.previous();
    assert_eq!(table.selected(), None);
    assert!(table.current().is_none());
}

#[test]
fn filtering_ignores_case() {
    let mut upper = table(&["web-01", "db-01"]);
    upper.apply_filter("WEB".to_string());
    let mut lower = table(&["web-01", "db-01"]);
    lower.apply_filter("web".to_string());
    assert_eq!(visible(&upper), vec!["web-01"]);
    assert_eq!(visible(&lower), vec!["web-01"]);
    let mut names = table(&["WEB-01", "Web-02", "db"]);
    names.apply_filter("wEb".to_string());
    assert_eq!(visible(&names), vec!["WEB-01", "Web-02"]);
}

#[test]
fn filtering_twice_is_filtering_once() {
    let mut table = table(&["web-01", "db-01", "web-02"]);
    table.apply_filter("web".to_string());
    let once = visible(&table);
    table.apply_filter("web".to_string());
    assert_eq!(visible(&table), once);
    assert_eq!(table.selected(), Some(0));
}

#[test]
fn every_filter_starts_from_the_full_list() {
    let mut table = table(&["web-01", "db-01", "web-02"]);
    table.apply_filter("web".to_string());
    table.apply_filter("db".to_string());
    assert_eq!(visible(&table), vec!["db-01"]);
    table.apply_filter("web-02".to_string());
    assert_eq!(visible(&table), vec!["web-02"]);
    let names: Vec<String> = table.get_items().iter().map(|i| i.get_name()).collect();
    assert_eq!(names, vec!["web-01", "db-01", "web-02"]);
}

#[test]
fn a_narrower_filter_after_a_wider_one_is_the_narrower_alone() {
    let mut after = table(&["web-01", "db-01", "web-02"]);
    after.apply_filter("web".to_string());
    after.apply_filter("web-0".to_string());
    let mut alone = table(&["web-01", "db-01", "web-02"]);
    alone.apply_filter("web-0".to_string());
    assert_eq!(visible(&after), visible(&alone));
}

#[test]
fn the_empty_filter_shows_everything() {
    let mut table = table(&["web-01", "db-01", ""]);
    table.apply_filter("zzz".to_string());
    assert_eq!(table.selected(), None);
    assert!(visible(&table).is_empty());
    table.apply_filter(String::new());
    assert_eq!(visible(&table), vec!["web-01", "db-01", ""]);
    assert_eq!(table.selected(), Some(0));
}

#[test]
fn with_items_and_filter_filters_at_once() {
    let items = vec![instance("web-01"), instance("db-01"), instance("web-02")];
    let table = InstanceTable::with_items_and_filter(items, "DB".to_string());
    assert_eq!(visible(&table), vec!["db-01"]);
    assert_eq!(table.selected(), Some(0));
    assert_eq!(table.get_filter(), "DB");
    assert_eq!(table.get_items().len(), 3);
}

#[test]
fn table_selection_moves_cyclically() {
    let mut table = table(&["a", "b", "c"]);
    table.next();
    assert_eq!(current(&table), Some("b".to_string()));
    table.next();
    table.next();
    assert_eq!(table.selected(), Some(0));
    table.previous();
    assert_eq!(current(&table), Some("c".to_string()));
    table.previous();
    assert_eq!(table.selected(), Some(1));
}

#[test]
fn as_many_steps_as_rows_lead_back_and_previous_undoes_next() {
    let mut table = table(&["a", "b", "c", "d"]);
    table.next();
    for _ in 0..4 {
        table.next();
    }
    assert_eq!(table.selected(), Some(1));
    table.next();
    table.previous();
    assert_eq!(table.selected(), Some(1));
    table.previous();
    table.next();
    assert_eq!(table.selected(), Some(1));
}

#[test]
fn single_row_stays_selected() {
    let mut table = table(&["only"]);
    table.next();
    assert_eq!(table.selected(), Some(0));
    table.previous();
    assert_eq!(table.selected(), Some(0));
}

#[test]
fn rows_show_name_id_and_addresses() {
    let mut table = table(&["web-01", "db-01"]);
    table.apply_filter("db".to_string());
    let rows = table.get_rows();
    assert_eq!(rows.len(), 1);
    assert_eq!(rows[0].name, "db-01");
    assert_eq!(rows[0].instance_id, "i-db-01");
    assert_eq!(rows[0].private_ip, "10.0.0.1");
    assert_eq!(rows[0].public_ip, "198.51.100.1");
}

#[test]
fn key_actions_move_and_select() {
    let mut table = table(&["a", "b"]);
    let action = table.perform_key_action(Some(KeyAction::NextItem));
    assert!(matches!(action, Action::Select(i) if i.get_name() == "b"));
    let action = table.perform_key_action(Some(KeyAction::PreviousItem));
    assert!(matches!(action, Action::Select(i) if i.get_name() == "a"));
    let action = table.perform_key_action(None);
    assert!(matches!(action, Action::Select(i) if i.get_name() == "a"));
    let action = table.perform_key_action(Some(KeyAction::AccessItem));
    assert!(matches!(action, Action::ReturnInstance(i) if i.get_name() == "a"));
    assert_eq!(table.selected(), Some(0));
}

#[test]
fn key_actions_on_an_empty_table_do_nothing() {
    let mut table = table(&[]);
    assert!(matches!(table.perform_key_action(Some(KeyAction::NextItem)), Action::Noop));
    assert!(matches!(table.perform_key_action(Some(KeyAction::AccessItem)), Action::Noop));
    assert_eq!(table.selected(), None);
}

#[test]
fn table_keys_are_turned_into_actions() {
    let mut table = table(&["a", "b"]);
    assert!(matches!(table.handle_action(Event::Key(KeyCode::Char('q'))), Action::Exit));
    assert!(matches!(table.handle_action(Event::Key(KeyCode::Char('/'))), Action::Search));
    assert!(matches!(
        table.handle_action(Event::Key(KeyCode::Char('i'))),
        Action::ToggleInfoPanel
    ));
    assert!(matches!(table.handle_action(Event::Key(KeyCode::Char('x'))), Action::Noop));
    assert!(matches!(table.handle_action(Event::Key(KeyCode::Esc)), Action::Noop));
    assert!(matches!(table.handle_action(Event::Other), Action::Noop));
    assert_eq!(table.selected(), Some(0));
    let action = table.handle_action(Event::Key(KeyCode::Down));
    assert!(matches!(action, Action::Select(i) if i.get_name() == "b"));
    let action = table.handle_action(Event::Key(KeyCode::Down));
    assert!(matches!(action, Action::Select(i) if i.get_name() == "a"));
    let action = table.handle_action(Event::Key(KeyCode::Up));
    assert!(matches!(action, Action::Select(i) if i.get_name() == "b"));
    let action = table.handle_action(Event::Key(KeyCode::Enter));
    assert!(matches!(action, Action::ReturnInstance(i) if i.get_name() == "b"));
    let action = table.handle_action(Event::Key(KeyCode::Right));
    assert!(matches!(action, Action::ReturnInstance(i) if i.get_name() == "b"));
}

#[test]
fn keys_on_an_empty_table_do_nothing() {
    let mut table = table(&["a"]);
    table.apply_filter("zzz".to_string());
    assert!(matches!(table.handle_action(Event::Key(KeyCode::Down)), Action::Noop));
    assert!(matches!(table.handle_action(Event::Key(KeyCode::Up)), Action::Noop));
    assert!(matches!(table.handle_action(Event::Key(KeyCode::Enter)), Action::Noop));
    assert_eq!(table.selected(), None);
}

#[test]
fn a_lowered_name_passes_a_lowered_query_that_occurs_in_it() {
    let chars = |s: &str| s.chars().collect::<Vec<char>>();
    assert!(name_passes(&chars("web-01"), false, &chars("web")));
    assert!(!name_passes(&chars("db-01"), false, &chars("web")));
    assert!(name_passes(&chars("db-01"), true, &chars("")));
    assert!(name_passes(&chars("db-01"), true, &chars("web")));
    assert!(name_passes(&chars(""), false, &chars("")));
}
