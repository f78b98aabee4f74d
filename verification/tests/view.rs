use mihomo_tui::api::{MihomoController, ProxyEntry};
use mihomo_tui::state::App;
use mihomo_tui::view::{
    latency_color, list_offset, Color, HeaderContent, Marker, ProxyPanel, RowStyle, Ui,
};

fn s(x: &str) -> String {
    x.to_string()
}

fn app_with_groups() -> App {
    let mut app = App::new(MihomoController::new("http://h", None));
    let table = vec![
        ProxyEntry {
            name: s("Proxy"),
            kind: Some(s("Selector")),
            all: Some(vec![Some(s("HK")), Some(s("JP")), Some(s("US"))]),
            now: Some(s("JP")),
        },
        ProxyEntry {
            name: s("GLOBAL"),
            kind: Some(s("Selector")),
            all: Some(vec![Some(s("DIRECT"))]),
            now: Some(s("DIRECT")),
        },
    ];
    app.apply_proxies(Ok(table), 0);
    app.api_connected = true;
    app
}

#[test]
fn latency_colors_follow_the_bands() {
    assert_eq!(latency_color(Some(0)), Color::Green);
    assert_eq!(latency_color(Some(199)), Color::Green);
    assert_eq!(latency_color(Some(200)), Color::Yellow);
    assert_eq!(latency_color(Some(499)), Color::Yellow);
    assert_eq!(latency_color(Some(500)), Color::Yellow);
    assert_eq!(latency_color(Some(501)), Color::Red);
    assert_eq!(latency_color(None), Color::DarkGray);
}

#[test]
fn slower_is_never_greener() {
    let rank = |c: Color| match c {
        Color::Green => 0,
        Color::Yellow => 1,
        Color::Red => 2,
        _ => 3,
    };
    for d in [0u64, 150, 199, 200, 350, 499, 500, 501, 3000] {
        assert!(rank(latency_color(Some(d))) <= rank(latency_color(Some(d + 1))));
    }
}

#[test]
fn header_in_rule_mode() {
    let mut app = app_with_groups();
    app.mode = s("rule");
    let h = Ui::header(&app);
    assert_eq!(h.status_color, Color::Green);
    match h.content {
        HeaderContent::Modes { mode, mode_color, hint } => {
            assert_eq!(mode, "RULE");
            assert_eq!(mode_color, Color::Green);
            assert_eq!(hint, " (Rule-based proxy)");
        }
        _ => panic!("expected Modes"),
    }
}

#[test]
fn header_colors_of_each_mode() {
    let mut app = app_with_groups();
    for (m, up, c, hint) in [
        ("global", "GLOBAL", Color::Yellow, " (Global group)"),
        ("direct", "DIRECT", Color::Blue, " (Direct connection)"),
        ("script", "SCRIPT", Color::Gray, ""),
    ] {
        app.mode = s(m);
        match Ui::header(&app).content {
            HeaderContent::Modes { mode, mode_color, hint: h } => {
                assert_eq!(mode, up);
                assert_eq!(mode_color, c);
                assert_eq!(h, hint);
            }
            _ => panic!("expected Modes"),
        }
    }
}

#[test]
fn header_shows_the_error() {
    let mut app = app_with_groups();
    app.api_connected = false;
    app.api_error = Some(s("Request failed: refused"));
    let h = Ui::header(&app);
    assert_eq!(h.status_color, Color::Red);
    match h.content {
        HeaderContent::Error(m) => assert_eq!(m, "API unreachable: Request failed: refused"),
        _ => panic!("expected Error"),
    }
}

#[test]
fn group_rows_mark_selection_global_and_last_switched() {
    let mut app = app_with_groups();
    app.mode = s("global");
    app.last_updated_group = Some(0);
    app.selected_group = 1;
    let rows = Ui::group_rows(&app);
    assert_eq!(rows.len(), 2);
    assert_eq!(rows[0].name, "Proxy");
    assert_eq!(rows[0].label, "[S] Proxy");
    assert_eq!(rows[1].label, "[S] GLOBAL");
    assert_eq!(rows[0].marker, Marker::LastUpdated);
    assert_eq!(rows[0].color, Color::Yellow);
    assert!(!rows[0].bold);
    assert_eq!(rows[1].name, "GLOBAL");
    assert_eq!(rows[1].marker, Marker::Active);
    assert_eq!(rows[1].color, Color::Green);
    assert!(rows[1].bold);
}

#[test]
fn group_rows_outside_global_mode() {
    let mut app = app_with_groups();
    app.mode = s("rule");
    app.selected_group = 0;
    let rows = Ui::group_rows(&app);
    assert_eq!(rows[1].marker, Marker::Plain);
    assert_eq!(rows[1].color, Color::White);
    assert_eq!(rows[0].color, Color::Green);
}

#[test]
fn proxy_panel_lists_nodes_of_selected_group() {
    let mut app = app_with_groups();
    app.proxy_delays[0] = vec![Some(120), Some(500), None];
    app.selected_proxy = 2;
    match Ui::proxy_panel(&app, 20) {
        ProxyPanel::Nodes { title, rows, offset, selected } => {
            assert_eq!(title, " Proxy ");
            assert_eq!(offset, 0);
            assert_eq!(selected, 2);
            assert_eq!(rows.len(), 3);
            assert_eq!(rows[0].label, " HK ");
            assert_eq!(rows[0].style, RowStyle::Normal);
            assert!(!rows[0].current);
            assert_eq!(rows[0].latency, " 120ms");
            assert_eq!(rows[0].latency_color, Color::Green);
            assert_eq!(rows[1].style, RowStyle::Current);
            assert!(rows[1].current);
            assert_eq!(rows[1].latency_color, Color::Yellow);
            assert_eq!(rows[2].style, RowStyle::Selected);
            assert_eq!(rows[2].latency, " -- ");
            assert_eq!(rows[2].latency_color, Color::DarkGray);
        }
        _ => panic!("expected Nodes"),
    }
}

#[test]
fn proxy_panel_when_nothing_is_listed() {
    let mut app = App::new(MihomoController::new("http://h", None));
    match Ui::proxy_panel(&app, 10) {
        ProxyPanel::Empty { message, color } => {
            assert_eq!(message, "Cannot connect to Mihomo API");
            assert_eq!(color, Color::Red);
        }
        _ => panic!("expected Empty"),
    }
    app.api_connected = true;
    match Ui::proxy_panel(&app, 10) {
        ProxyPanel::Empty { message, color } => {
            assert_eq!(message, "No proxy groups available");
            assert_eq!(color, Color::Gray);
        }
        _ => panic!("expected Empty"),
    }
}

#[test]
fn list_offset_keeps_selection_visible() {
    assert_eq!(list_offset(5, 4, 10), 0);
    assert_eq!(list_offset(20, 3, 10), 0);
    assert_eq!(list_offset(20, 6, 10), 0);
    assert_eq!(list_offset(20, 7, 10), 1);
    assert_eq!(list_offset(20, 8, 10), 1);
    assert_eq!(list_offset(20, 15, 10), 8);
    assert_eq!(list_offset(20, 0, 2), 1);
    assert_eq!(list_offset(20, 5, 0), 6);
}

#[test]
fn groups_title_explains_the_tag() {
    assert_eq!(Ui::groups_title(), " Groups [S=Selectable] ");
}

#[test]
fn five_hundred_ms_shows_yellow_in_the_panel() {
    let mut app = app_with_groups();
    app.proxy_delays[0] = vec![Some(500), Some(501), Some(199)];
    match Ui::proxy_panel(&app, 10) {
        ProxyPanel::Nodes { rows, .. } => {
            assert_eq!(rows[0].latency, " 500ms");
            assert_eq!(rows[0].latency_color, Color::Yellow);
            assert_eq!(rows[1].latency_color, Color::Red);
            assert_eq!(rows[2].latency_color, Color::Green);
        }
        _ => panic!("expected Nodes"),
    }
}

#[test]
fn panel_overflows_only_in_a_frame_without_rows() {
    let mut app = app_with_groups();
    assert!(!Ui::panel_overflows(&app, 2));
    app.selected_proxy = usize::MAX;
    assert!(Ui::panel_overflows(&app, 2));
    assert!(!Ui::panel_overflows(&app, 3));
}
