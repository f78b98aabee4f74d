use mihomo_tui::api::{Config, MihomoController, ProxyEntry};
use mihomo_tui::state::{
    delay_results, poll_timeout, tick_due, Action, App, DelayJob, DelayMessage, Key, TICK_NANOS,
};

fn s(x: &str) -> String {
    x.to_string()
}

fn entry(name: &str, kind: Option<&str>, all: Option<Vec<Option<&str>>>, now: Option<&str>) -> ProxyEntry {
    ProxyEntry {
        name: s(name),
        kind: kind.map(s),
        all: all.map(|v| v.into_iter().map(|o| o.map(s)).collect()),
        now: now.map(s),
    }
}

fn new_app() -> App {
    App::new(MihomoController::new("http://127.0.0.1:9090", None))
}

fn sample_table() -> Vec<ProxyEntry> {
    vec![
        entry("Proxy", Some("Selector"), Some(vec![Some("HK"), Some("JP"), None, Some("US")]), Some("JP")),
        entry("HK", Some("Shadowsocks"), None, None),
        entry("Auto", Some("URLTest"), Some(vec![Some("HK"), Some("US")]), None),
        entry("Broken", Some("Selector"), None, Some("HK")),
        entry("Backup", Some("Fallback"), Some(vec![]), Some("DIRECT")),
        entry("Odd", None, Some(vec![Some("x")]), None),
    ]
}

fn populated() -> App {
    let mut app = new_app();
    app.apply_config(Ok(Config { mode: s("rule") }));
    let job = app.apply_proxies(Ok(sample_table()), 1000);
    assert!(job.is_some());
    app
}

#[test]
fn new_app_defaults() {
    let app = new_app();
    assert_eq!(app.mode, "rule");
    assert_eq!(app.selected_group, 0);
    assert_eq!(app.selected_proxy, 0);
    assert!(app.proxies.is_empty());
    assert!(app.current_proxies.is_empty());
    assert!(app.proxy_delays.is_empty());
    assert_eq!(app.last_updated_group, None);
    assert_eq!(app.last_delay_test, None);
    assert!(!app.api_connected);
    assert_eq!(app.api_error, None);
    assert!(!app.should_quit);
}

#[test]
fn config_reply_sets_mode_and_connection() {
    let mut app = new_app();
    app.api_error = Some(s("old"));
    assert!(app.apply_config(Ok(Config { mode: s("global") })));
    assert_eq!(app.mode, "global");
    assert!(app.api_connected);
    assert_eq!(app.api_error, None);
}

#[test]
fn config_failure_marks_disconnected() {
    let mut app = new_app();
    app.api_connected = true;
    assert!(!app.apply_config(Err(s("Request failed: refused"))));
    assert!(!app.api_connected);
    assert_eq!(app.api_error, Some(s("Request failed: refused")));
    assert_eq!(app.mode, "rule");
}

#[test]
fn first_table_lists_selectable_groups_in_order() {
    let app = populated();
    let names: Vec<&str> = app.proxies.iter().map(|(n, _)| n.as_str()).collect();
    assert_eq!(names, vec!["Proxy", "Auto", "Backup"]);
    assert_eq!(app.proxies[0].1, vec![s("HK"), s("JP"), s("US")]);
    assert_eq!(app.proxies[1].1, vec![s("HK"), s("US")]);
    assert!(app.proxies[2].1.is_empty());
    assert_eq!(app.current_proxies, vec![s("JP"), s(""), s("DIRECT")]);
    assert_eq!(app.proxy_delays, vec![vec![None; 3], vec![None; 2], vec![]]);
    assert_eq!(app.last_delay_test, Some(1000));
}

#[test]
fn first_table_starts_test_of_selected_group() {
    let mut app = new_app();
    let job = app.apply_proxies(Ok(sample_table()), 5).unwrap();
    assert_eq!(job.group_index, 0);
    assert_eq!(job.nodes, vec![s("HK"), s("JP"), s("US")]);
}

#[test]
fn first_table_without_groups_starts_nothing() {
    let mut app = new_app();
    let job = app.apply_proxies(Ok(vec![entry("HK", Some("Shadowsocks"), None, None)]), 5);
    assert!(job.is_none());
    assert!(app.proxies.is_empty());
    assert_eq!(app.last_delay_test, None);
}

#[test]
fn later_tables_only_update_active_nodes() {
    let mut app = populated();
    let later = vec![
        entry("Auto", Some("URLTest"), Some(vec![Some("Z")]), Some("US")),
        entry("Proxy", Some("Selector"), Some(vec![]), None),
        entry("New", Some("Selector"), Some(vec![Some("a")]), Some("a")),
    ];
    let job = app.apply_proxies(Ok(later), 2000);
    assert!(job.is_none());
    assert_eq!(app.proxies.len(), 3);
    assert_eq!(app.proxies[1].1, vec![s("HK"), s("US")]);
    assert_eq!(app.current_proxies, vec![s("JP"), s("US"), s("DIRECT")]);
    assert_eq!(app.last_delay_test, Some(1000));
}

#[test]
fn later_table_uses_first_entry_of_a_name() {
    let mut app = populated();
    let later = vec![
        entry("Backup", None, None, Some("first")),
        entry("Backup", None, None, Some("second")),
    ];
    app.apply_proxies(Ok(later), 0);
    assert_eq!(app.current_proxies[2], "first");
}

#[test]
fn table_failure_is_kept_as_error() {
    let mut app = populated();
    let job = app.apply_proxies(Err(s("Invalid response format")), 9);
    assert!(job.is_none());
    assert_eq!(app.api_error, Some(s("Invalid response format")));
    assert_eq!(app.proxies.len(), 3);
}

#[test]
fn delay_results_fill_their_group() {
    let mut app = populated();
    app.apply_delay_message(DelayMessage::Results { group_index: 1, delays: vec![Some(120), None] });
    assert_eq!(app.proxy_delays[1], vec![Some(120), None]);
    app.apply_delay_message(DelayMessage::Results { group_index: 7, delays: vec![Some(1)] });
    assert_eq!(app.proxy_delays.len(), 3);
    app.apply_delay_message(DelayMessage::RefreshDone(4242));
    assert_eq!(app.last_delay_test, Some(4242));
}

#[test]
fn refresh_is_due_after_a_minute() {
    let mut app = new_app();
    assert!(!app.refresh_due(1_000_000));
    app.last_delay_test = Some(1000);
    assert!(!app.refresh_due(61_000));
    assert!(app.refresh_due(61_001));
    assert!(!app.refresh_due(500));
}

#[test]
fn quit_key() {
    let mut app = populated();
    assert!(app.handle_key(Key::Char('q')).is_none());
    assert!(app.should_quit);
}

#[test]
fn space_selects_highlighted_node() {
    let mut app = populated();
    app.selected_proxy = 1;
    match app.handle_key(Key::Char(' ')) {
        Some(Action::SelectProxy { group, node }) => {
            assert_eq!(group, "Proxy");
            assert_eq!(node, "JP");
        }
        _ => panic!("expected SelectProxy"),
    }
    assert_eq!(app.last_updated_group, Some(0));
}

#[test]
fn space_in_empty_group_does_nothing() {
    let mut app = populated();
    app.selected_group = 2;
    assert!(app.handle_key(Key::Char(' ')).is_none());
    assert_eq!(app.last_updated_group, None);
}

#[test]
fn mode_keys_switch_mode() {
    let mut app = populated();
    for (c, m) in [('r', "rule"), ('g', "global"), ('d', "direct")] {
        match app.handle_key(Key::Char(c)) {
            Some(Action::SwitchMode(mode)) => assert_eq!(mode, m),
            _ => panic!("expected SwitchMode"),
        }
    }
    assert_eq!(app.mode, "rule");
}

#[test]
fn tab_cycles_groups_and_tests_the_new_one() {
    let mut app = populated();
    app.selected_proxy = 2;
    match app.handle_key(Key::Tab) {
        Some(Action::TestDelays(job)) => {
            assert_eq!(job.group_index, 1);
            assert_eq!(job.nodes, vec![s("HK"), s("US")]);
        }
        _ => panic!("expected TestDelays"),
    }
    assert_eq!(app.selected_group, 1);
    assert_eq!(app.selected_proxy, 0);
    app.handle_key(Key::Tab);
    app.handle_key(Key::Tab);
    assert_eq!(app.selected_group, 0);
}

#[test]
fn tab_without_groups_does_nothing() {
    let mut app = new_app();
    assert!(app.handle_key(Key::Tab).is_none());
    assert_eq!(app.selected_group, 0);
}

#[test]
fn f_refreshes_every_group() {
    let mut app = populated();
    assert!(!app.refresh_in_flight);
    match app.handle_key(Key::Char('f')) {
        Some(Action::RefreshAll(jobs)) => {
            assert_eq!(jobs.len(), 3);
            for (i, job) in jobs.iter().enumerate() {
                assert_eq!(job.group_index, i);
                assert_eq!(job.nodes, app.proxies[i].1);
            }
        }
        _ => panic!("expected RefreshAll"),
    }
    assert!(app.refresh_in_flight);
}

#[test]
fn down_and_up_wrap_around() {
    let mut app = populated();
    app.handle_key(Key::Char('k'));
    assert_eq!(app.selected_proxy, 2);
    app.handle_key(Key::Right);
    assert_eq!(app.selected_proxy, 0);
    app.handle_key(Key::Char('j'));
    assert_eq!(app.selected_proxy, 1);
    app.handle_key(Key::Left);
    assert_eq!(app.selected_proxy, 0);
    assert_eq!(app.selected_group, 0);
}

#[test]
fn down_then_up_returns_to_the_same_node() {
    let mut app = populated();
    for start in 0..3 {
        app.selected_proxy = start;
        app.handle_key(Key::Char('j'));
        app.handle_key(Key::Char('k'));
        assert_eq!(app.selected_proxy, start);
    }
}

#[test]
fn navigation_in_empty_group_does_nothing() {
    let mut app = populated();
    app.selected_group = 2;
    app.handle_key(Key::Right);
    app.handle_key(Key::Char('k'));
    assert_eq!(app.selected_proxy, 0);
}

#[test]
fn other_keys_are_ignored() {
    let mut app = populated();
    assert!(app.handle_key(Key::Char('x')).is_none());
    assert!(app.handle_key(Key::Other).is_none());
    assert!(!app.should_quit);
}

#[test]
fn refresh_all_delays_is_empty_without_groups() {
    assert!(new_app().refresh_all_delays().is_empty());
}

#[test]
fn start_delay_test_out_of_range() {
    assert!(populated().start_delay_test(3).is_none());
}

#[test]
fn clamp_cursor_resets_out_of_range_positions() {
    let mut app = populated();
    app.selected_group = 5;
    app.selected_proxy = 4;
    app.clamp_cursor();
    assert_eq!((app.selected_group, app.selected_proxy), (0, 0));
    app.selected_group = 1;
    app.selected_proxy = 2;
    app.clamp_cursor();
    assert_eq!((app.selected_group, app.selected_proxy), (1, 0));
    app.selected_proxy = 1;
    app.clamp_cursor();
    assert_eq!((app.selected_group, app.selected_proxy), (1, 1));
}

#[test]
fn clamp_cursor_without_groups_keeps_cursor() {
    let mut app = new_app();
    app.selected_group = 3;
    app.selected_proxy = 2;
    app.clamp_cursor();
    assert_eq!((app.selected_group, app.selected_proxy), (3, 2));
}

#[test]
fn s_key_switches_to_highlighted_node() {
    let mut app = populated();
    app.selected_group = 1;
    app.selected_proxy = 1;
    match app.handle_key(Key::Char('s')) {
        Some(Action::SelectProxy { group, node }) => {
            assert_eq!(group, "Auto");
            assert_eq!(node, "US");
        }
        _ => panic!("expected SelectProxy"),
    }
    assert_eq!(app.last_updated_group, Some(1));
}

#[test]
fn up_and_down_select_groups() {
    let mut app = populated();
    app.selected_proxy = 1;
    match app.handle_key(Key::Up) {
        Some(Action::TestDelays(job)) => assert_eq!(job.group_index, 2),
        _ => panic!("expected TestDelays"),
    }
    assert_eq!((app.selected_group, app.selected_proxy), (2, 0));
    match app.handle_key(Key::Down) {
        Some(Action::TestDelays(job)) => assert_eq!(job.group_index, 0),
        _ => panic!("expected TestDelays"),
    }
    assert_eq!((app.selected_group, app.selected_proxy), (0, 0));
    app.handle_key(Key::Down);
    app.handle_key(Key::Up);
    assert_eq!(app.selected_group, 0);
}

#[test]
fn up_without_groups_does_nothing() {
    let mut app = new_app();
    assert!(app.handle_key(Key::Up).is_none());
    assert!(app.handle_key(Key::Down).is_none());
    assert_eq!(app.selected_group, 0);
}

#[test]
fn tab_once_per_group_comes_back() {
    let mut app = populated();
    app.selected_group = 1;
    for _ in 0..app.proxies.len() {
        app.handle_key(Key::Tab);
    }
    assert_eq!(app.selected_group, 1);
}

#[test]
fn delay_results_keep_one_entry_per_node() {
    let job = DelayJob { group_index: 2, nodes: vec![s("a"), s("b"), s("c")] };
    match delay_results(&job, &vec![Some(Some(80)), None, Some(None)]) {
        DelayMessage::Results { group_index, delays } => {
            assert_eq!(group_index, 2);
            assert_eq!(delays, vec![Some(80), None, None]);
        }
        _ => panic!("expected Results"),
    }
    match delay_results(&job, &vec![Some(Some(5))]) {
        DelayMessage::Results { delays, .. } => assert_eq!(delays, vec![Some(5), None, None]),
        _ => panic!("expected Results"),
    }
}

#[test]
fn report_of_a_group_job_keeps_alignment() {
    let mut app = populated();
    let job = app.start_delay_test(0).unwrap();
    let msg = delay_results(&job, &vec![Some(Some(10)), Some(Some(20)), Some(Some(30))]);
    app.apply_delay_message(msg);
    assert_eq!(app.proxy_delays[0], vec![Some(10), Some(20), Some(30)]);
    for (i, (_, nodes)) in app.proxies.iter().enumerate() {
        assert_eq!(app.proxy_delays[i].len(), nodes.len());
    }
}

#[test]
fn tick_timing() {
    assert_eq!(TICK_NANOS, 250_000_000);
    assert_eq!(poll_timeout(0), 250_000_000);
    assert_eq!(poll_timeout(100_000_000), 150_000_000);
    assert_eq!(poll_timeout(300_000_000), 0);
    assert!(!tick_due(249_999_999));
    assert!(tick_due(250_000_000));
}

#[test]
fn moving_at_the_largest_cursor_without_nodes_is_allowed() {
    let mut app = new_app();
    app.selected_proxy = usize::MAX;
    assert!(app.handle_key(Key::Char('j')).is_none());
    assert!(app.handle_key(Key::Right).is_none());
    assert_eq!(app.selected_proxy, usize::MAX);
}

#[test]
fn periodic_refresh_starts_once_until_done() {
    let mut app = populated();
    assert_eq!(app.last_delay_test, Some(1000));
    assert!(app.begin_refresh(61_000).is_none());
    let jobs = app.begin_refresh(61_001).unwrap();
    assert_eq!(jobs.len(), 3);
    assert!(app.refresh_in_flight);
    assert!(!app.refresh_due(1_000_000));
    assert!(app.begin_refresh(1_000_000).is_none());
    app.apply_delay_message(DelayMessage::RefreshDone(70_000));
    assert!(!app.refresh_in_flight);
    assert_eq!(app.last_delay_test, Some(70_000));
    assert!(!app.refresh_due(130_000));
    assert!(app.refresh_due(130_001));
}

#[test]
fn would_overflow_matches_the_key_rules() {
    let mut app = populated();
    assert!(!app.would_overflow(&Key::Tab));
    app.selected_group = usize::MAX;
    assert!(app.would_overflow(&Key::Tab));
    assert!(app.would_overflow(&Key::Down));
    assert!(!app.would_overflow(&Key::Char('j')));
    app.selected_group = 0;
    app.selected_proxy = usize::MAX;
    assert!(app.would_overflow(&Key::Char('j')));
    assert!(app.would_overflow(&Key::Right));
    assert!(!app.would_overflow(&Key::Char('k')));
    app.selected_group = 2;
    assert!(!app.would_overflow(&Key::Char('j')));
}
