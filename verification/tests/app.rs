use sm_connect::app::config::Config;
use sm_connect::app::sort_by_name;
use sm_connect::app::App;
use sm_connect::app::AppStatus;
use sm_connect::app::RuntimeError;
use sm_connect::app::Step;
use sm_connect::aws::Instance;
use sm_connect::aws::InstanceInfo;
use sm_connect::aws::Tag;
use sm_connect::components::Action;
use sm_connect::components::Event;
use sm_connect::components::KeyCode;

fn instance(name: &str, id: &str) -> InstanceInfo {
    InstanceInfo::new(
        "eu-west-1".to_string(),
        Instance {
            tags: Some(vec![Tag { key: Some("Name".to_string()), value: Some(name.to_string()) }]),
            instance_id: Some(id.to_string()),
            ..Instance::default()
        },
    )
}

fn instances(names: &[&str]) -> Vec<InstanceInfo> {
    names.iter().map(|name| instance(name, name)).collect()
}

fn start() -> App {
    App::new(Config::new(None).unwrap())
}

fn browsing(names: &[&str]) -> App {
    let mut app = start();
    let step = app.apply(Action::Return("eu-west-1".to_string()));
    assert!(matches!(step, Step::Fetch(region) if region == "eu-west-1"));
    app.show_instances(instances(names));
    app
}

fn searching(names: &[&str]) -> App {
    let mut app = browsing(names);
    assert!(matches!(app.apply(Action::Search), Step::Continue));
    app
}

fn visible(app: &App) -> Vec<String> {
    app.instance_table().get_visible_items().iter().map(|i| i.get_name()).collect()
}

fn key(app: &mut App, code: KeyCode) -> Step {
    app.step(Event::Key(code))
}

#[test]
fn the_controller_starts_on_the_region_screen() {
    let app = start();
    assert_eq!(app.status(), AppStatus::RegionSelectState);
    assert!(!app.search_enabled());
    assert!(!app.info_panel_enabled());
    assert_eq!(app.region_list().get_items(), Config::get_default_regions());
    assert_eq!(app.region_list().selected(), Some(0));
    assert_eq!(app.search_input().get_value(), "");
    assert_eq!(app.instance_table().visible_len(), 0);
    assert!(app.instance_details().get_instance().is_none());
}

#[test]
fn the_controller_starts_with_the_stored_settings() {
    let text = "[regions]\nhidden=af-south-1\nfavorite=us-west-2,eu-west-1\n".to_string();
    let app = App::new(Config::new(Some(text)).unwrap());
    let items = app.region_list().get_items();
    assert_eq!(items.len(), 28);
    assert_eq!(items[0], "eu-west-1");
    assert_eq!(items[1], "us-west-2");
    assert_eq!(items[2], "ap-east-1");
    assert_eq!(app.config().get_favorite_regions(), vec!["us-west-2", "eu-west-1"]);
}

#[test]
fn exit_on_the_region_screen_ends_the_run() {
    let mut app = start();
    let step = key(&mut app, KeyCode::Char('q'));
    assert!(matches!(step, Step::Exit));
    assert!(matches!(step.outcome(), Some(Err(RuntimeError::UserExit))));
    assert_eq!(app.status(), AppStatus::RegionSelectState);
}

#[test]
fn picking_a_region_asks_for_its_instances() {
    let mut app = start();
    key(&mut app, KeyCode::Down);
    let step = key(&mut app, KeyCode::Enter);
    assert!(matches!(step, Step::Fetch(region) if region == "ap-east-1"));
    assert_eq!(app.status(), AppStatus::MainScreen);
}

#[test]
fn fetched_instances_are_shown_sorted_by_name() {
    let mut app = start();
    key(&mut app, KeyCode::Enter);
    app.show_instances(instances(&["web-02", "db-01", "web-01"]));
    assert_eq!(visible(&app), vec!["db-01", "web-01", "web-02"]);
    assert_eq!(app.instance_table().selected(), Some(0));
    assert_eq!(app.status(), AppStatus::MainScreen);
}

#[test]
fn sorting_by_name_keeps_instances_of_one_name_in_order() {
    let input = vec![
        instance("b", "1"),
        instance("a", "2"),
        instance("b", "3"),
        instance("a", "4"),
        instance("", "5"),
    ];
    let ids: Vec<String> = sort_by_name(&input).iter().map(|i| i.get_instance_id()).collect();
    assert_eq!(ids, vec!["5", "2", "4", "1", "3"]);
}

#[test]
fn fetched_instances_are_filtered_by_the_search_text() {
    let mut app = searching(&["web-01", "db-01"]);
    key(&mut app, KeyCode::Char('w'));
    key(&mut app, KeyCode::Enter);
    key(&mut app, KeyCode::Char('q'));
    assert_eq!(app.status(), AppStatus::RegionSelectState);
    assert_eq!(app.instance_table().visible_len(), 0);
    assert_eq!(app.search_input().get_value(), "w");
    key(&mut app, KeyCode::Enter);
    app.show_instances(instances(&["worker", "db-02", "web-03"]));
    assert_eq!(visible(&app), vec!["web-03", "worker"]);
    assert_eq!(app.instance_table().get_items().len(), 3);
}

#[test]
fn hiding_a_region_takes_it_off_the_list() {
    let mut app = start();
    key(&mut app, KeyCode::Down);
    let step = key(&mut app, KeyCode::Char('h'));
    assert!(matches!(step, Step::Persist));
    let items = app.region_list().get_items();
    assert_eq!(items.len(), 28);
    assert!(!items.contains(&"ap-east-1".to_string()));
    assert_eq!(app.region_list().selected(), Some(1));
    assert_eq!(app.config().get_visible_regions(), items);
}

#[test]
fn hiding_the_last_region_moves_the_selection_up() {
    let mut app = start();
    key(&mut app, KeyCode::Up);
    assert_eq!(app.region_list().selected(), Some(28));
    key(&mut app, KeyCode::Char('h'));
    assert_eq!(app.region_list().selected(), Some(27));
    assert_eq!(app.region_list().current(), Some("us-west-1".to_string()));
}

#[test]
fn reset_brings_hidden_regions_back() {
    let mut app = start();
    key(&mut app, KeyCode::Char('h'));
    key(&mut app, KeyCode::Char('h'));
    assert_eq!(app.region_list().get_items().len(), 27);
    let step = key(&mut app, KeyCode::Char('r'));
    assert!(matches!(step, Step::Persist));
    assert_eq!(app.region_list().get_items(), Config::get_default_regions());
}

#[test]
fn toggling_a_favorite_moves_it_to_the_top() {
    let mut app = start();
    key(&mut app, KeyCode::Up);
    let step = key(&mut app, KeyCode::Char('*'));
    assert!(matches!(step, Step::Persist));
    let items = app.region_list().get_items();
    assert_eq!(items[0], "us-west-2");
    assert_eq!(items[1], "af-south-1");
    assert_eq!(app.region_list().selected(), Some(28));
    assert_eq!(app.config().get_favorite_regions(), vec!["us-west-2"]);
    assert_eq!(app.region_list().get_labels()[0], "★ us-west-2");
    key(&mut app, KeyCode::Down);
    key(&mut app, KeyCode::Char('*'));
    assert_eq!(app.region_list().get_items(), Config::get_default_regions());
}

#[test]
fn other_actions_on_the_region_screen_change_nothing() {
    let mut app = start();
    assert!(matches!(app.apply(Action::Noop), Step::Continue));
    assert!(matches!(app.apply(Action::Search), Step::Continue));
    assert!(matches!(app.apply(Action::PartialReturn("x".to_string())), Step::Continue));
    assert!(matches!(app.step(Event::Other), Step::Continue));
    assert_eq!(app.status(), AppStatus::RegionSelectState);
    assert!(!app.search_enabled());
}

#[test]
fn exit_while_browsing_returns_to_the_regions() {
    let mut app = browsing(&["web-01"]);
    let step = key(&mut app, KeyCode::Char('q'));
    assert!(matches!(step, Step::Continue));
    assert!(step.outcome().is_none());
    assert_eq!(app.status(), AppStatus::RegionSelectState);
    assert_eq!(app.instance_table().get_items().len(), 0);
}

#[test]
fn access_ends_the_run_with_the_instance() {
    let mut app = browsing(&["web-01", "db-01"]);
    key(&mut app, KeyCode::Down);
    let step = key(&mut app, KeyCode::Enter);
    assert!(matches!(&step, Step::Finish(i) if i.get_name() == "web-01"));
    assert!(matches!(step.outcome(), Some(Ok(i)) if i.get_name() == "web-01"));
}

#[test]
fn slash_starts_a_search_and_i_toggles_the_panel() {
    let mut app = browsing(&["web-01"]);
    assert!(matches!(key(&mut app, KeyCode::Char('/')), Step::Continue));
    assert!(app.search_enabled());
    let mut app = browsing(&["web-01"]);
    key(&mut app, KeyCode::Char('i'));
    assert!(app.info_panel_enabled());
    key(&mut app, KeyCode::Char('i'));
    assert!(!app.info_panel_enabled());
}

#[test]
fn moving_the_selection_updates_the_details() {
    let mut app = browsing(&["a", "b"]);
    assert!(app.instance_details().get_instance().is_none());
    key(&mut app, KeyCode::Down);
    assert_eq!(app.instance_details().get_instance().map(|i| i.get_name()), Some("b".to_string()));
    assert_eq!(app.status(), AppStatus::MainScreen);
}

#[test]
fn a_partial_return_then_exit_keeps_the_filter() {
    let mut app = searching(&["x-ray", "web-01", "linux"]);
    let step = app.apply(Action::PartialReturn("x".to_string()));
    assert!(matches!(step, Step::Continue));
    assert!(app.search_enabled());
    assert_eq!(visible(&app), vec!["linux", "x-ray"]);
    let step = app.apply(Action::Exit);
    assert!(matches!(step, Step::Continue));
    assert!(!app.search_enabled());
    assert_eq!(app.instance_table().get_filter(), "x");
    assert_eq!(visible(&app), vec!["linux", "x-ray"]);
    assert_eq!(app.status(), AppStatus::MainScreen);
}

#[test]
fn typing_filters_live_and_escape_keeps_the_filter() {
    let mut app = searching(&["x-ray", "web-01", "linux"]);
    key(&mut app, KeyCode::Char('x'));
    assert!(app.search_enabled());
    assert_eq!(visible(&app), vec!["linux", "x-ray"]);
    key(&mut app, KeyCode::Char('-'));
    assert_eq!(visible(&app), vec!["x-ray"]);
    key(&mut app, KeyCode::Backspace);
    assert_eq!(visible(&app), vec!["linux", "x-ray"]);
    key(&mut app, KeyCode::Esc);
    assert!(!app.search_enabled());
    assert_eq!(visible(&app), vec!["linux", "x-ray"]);
    assert_eq!(app.search_input().get_value(), "x");
}

#[test]
fn a_return_applies_the_filter_and_ends_the_search() {
    let mut app = searching(&["web-01", "db-01"]);
    let step = app.apply(Action::Return("DB".to_string()));
    assert!(matches!(step, Step::Continue));
    assert!(!app.search_enabled());
    assert_eq!(visible(&app), vec!["db-01"]);
}

#[test]
fn up_and_down_leave_the_search_and_move_the_selection() {
    let mut app = searching(&["a", "b", "c"]);
    key(&mut app, KeyCode::Down);
    assert!(!app.search_enabled());
    assert_eq!(app.instance_table().selected(), Some(1));
    key(&mut app, KeyCode::Char('/'));
    key(&mut app, KeyCode::Up);
    assert!(!app.search_enabled());
    assert_eq!(app.instance_table().selected(), Some(0));
    key(&mut app, KeyCode::Char('/'));
    let step = app.apply(Action::ReturnWithKey(KeyCode::Left));
    assert!(matches!(step, Step::Continue));
    assert!(!app.search_enabled());
    assert_eq!(app.instance_table().selected(), Some(0));
}

#[test]
fn down_from_the_search_on_an_empty_table_selects_nothing() {
    let mut app = searching(&[]);
    key(&mut app, KeyCode::Down);
    assert_eq!(app.instance_table().selected(), None);
    assert!(!app.search_enabled());
}

#[test]
fn table_keys_are_text_while_searching() {
    let mut app = searching(&["quiet", "web"]);
    key(&mut app, KeyCode::Char('q'));
    assert_eq!(app.status(), AppStatus::MainScreen);
    assert!(app.search_enabled());
    assert_eq!(app.search_input().get_value(), "q");
    assert_eq!(visible(&app), vec!["quiet"]);
    assert!(matches!(app.apply(Action::Search), Step::Continue));
    assert!(matches!(app.apply(Action::ToggleInfoPanel), Step::Continue));
    assert!(!app.info_panel_enabled());
}

#[test]
fn dispatch_routes_to_the_active_component() {
    let mut app = start();
    assert!(matches!(app.dispatch(Event::Key(KeyCode::Char('r'))), Action::Reset));
    let mut app = browsing(&["a"]);
    assert!(matches!(app.dispatch(Event::Key(KeyCode::Char('r'))), Action::Noop));
    assert!(matches!(app.dispatch(Event::Key(KeyCode::Char('/'))), Action::Search));
    let mut app = searching(&["a"]);
    assert!(matches!(
        app.dispatch(Event::Key(KeyCode::Char('r'))),
        Action::PartialReturn(text) if text == "r"
    ));
}

#[test]
fn the_error_reads_as_a_user_exit() {
    assert_eq!(RuntimeError::UserExit.message(), "User exited the application");
}

#[test]
fn the_tab_follows_the_screen() {
    let mut app = start();
    assert_eq!(app.selected_tab(), 0);
    key(&mut app, KeyCode::Enter);
    assert_eq!(app.selected_tab(), 1);
}

#[test]
fn the_details_panel_takes_a_quarter_while_shown() {
    let mut app = browsing(&["a"]);
    assert_eq!(app.panel_shares(), (100, 0));
    key(&mut app, KeyCode::Char('i'));
    assert_eq!(app.panel_shares(), (75, 25));
}

#[test]
fn fetched_instances_are_shown_and_the_run_goes_on() {
    let mut app = start();
    key(&mut app, KeyCode::Enter);
    let step = app.fetched(Ok(instances(&["web-02", "db-01"])));
    assert!(matches!(step, Step::Continue));
    assert_eq!(visible(&app), vec!["db-01", "web-02"]);
    assert_eq!(app.status(), AppStatus::MainScreen);
}

#[test]
fn a_failed_fetch_ends_the_run_with_its_reason() {
    let mut app = browsing(&["old"]);
    key(&mut app, KeyCode::Char('q'));
    key(&mut app, KeyCode::Down);
    let step = key(&mut app, KeyCode::Enter);
    assert!(matches!(step, Step::Fetch(region) if region == "ap-east-1"));
    let step = app.fetched(Err("no credentials".to_string()));
    assert!(matches!(&step, Step::Abort(why) if why == "no credentials"));
    assert_eq!(app.status(), AppStatus::MainScreen);
    assert_eq!(app.region_list().selected(), Some(1));
    assert_eq!(app.instance_table().visible_len(), 0);
    assert!(!app.search_enabled());
    match step.outcome() {
        Some(Err(error)) => {
            assert!(matches!(&error, RuntimeError::FetchFailed(why) if why == "no credentials"));
            assert_eq!(error.message(), "no credentials");
        }
        _ => panic!("a failed fetch ends the run with an error"),
    }
}
