use server_browser::interval::parse_u32;
use server_browser::server::Server;
use server_browser::state::update;
use server_browser::state::initial_state;
use server_browser::state::mount_effect;
use server_browser::state::server_list_url;
use server_browser::state::AppState;
use server_browser::state::Effect;
use server_browser::state::Event;

fn srv(name: &str) -> Server {
    Server {
        name: name.to_string(),
        slots: 0,
        max_slots: 8,
        map_id: "UGC1".to_string(),
        map_label: "Range".to_string(),
        port: 7000,
        password_protected: false,
        secured: false,
        game_mode: "DM".to_string(),
        game_mode_label: "Deathmatch".to_string(),
        ip: "203.0.113.9".to_string(),
        version: "1.0.24".to_string(),
        updated: "2023-04-02T00:00:00Z".to_string(),
    }
}

#[test]
fn initial_state_matches_defaults() {
    let s = initial_state();
    assert!(s.servers.is_empty());
    assert_eq!(s.search_query, "");
    assert_eq!(s.refresh_interval, 60);
    assert!(!s.auto_refresh);
    assert_eq!(s.version, "1.0.24");
}

#[test]
fn mount_fires_one_fetch_without_timer_when_auto_off() {
    let s = initial_state();
    assert_eq!(mount_effect(&s), Effect::Refresh { repeat_every: None });
}

#[test]
fn parse_u32_accepts_plain_and_signed_digits() {
    assert_eq!(parse_u32("10"), Some(10));
    assert_eq!(parse_u32("+7"), Some(7));
    assert_eq!(parse_u32("00123"), Some(123));
    assert_eq!(parse_u32("4294967295"), Some(u32::MAX));
    assert_eq!(parse_u32("0"), Some(0));
}

#[test]
fn parse_u32_rejects_everything_else() {
    assert_eq!(parse_u32(""), None);
    assert_eq!(parse_u32("+"), None);
    assert_eq!(parse_u32("abc"), None);
    assert_eq!(parse_u32("12a"), None);
    assert_eq!(parse_u32(" 5"), None);
    assert_eq!(parse_u32("5 "), None);
    assert_eq!(parse_u32("-5"), None);
    assert_eq!(parse_u32("4294967296"), None);
    assert_eq!(parse_u32("99999999999999999999"), None);
}

#[test]
fn unparsable_interval_edit_is_ignored() {
    let s = initial_state();
    let (s, eff) = update(s, Event::IntervalEdited("abc".to_string()));
    assert_eq!(s.refresh_interval, 60);
    assert_eq!(eff, Effect::Keep);
}

#[test]
fn interval_edit_rebuilds_poller_only_on_change() {
    let s = initial_state();
    let (s, eff) = update(s, Event::IntervalEdited("45".to_string()));
    assert_eq!(s.refresh_interval, 45);
    assert_eq!(eff, Effect::Refresh { repeat_every: None });
    let (s, eff) = update(s, Event::IntervalEdited("45".to_string()));
    assert_eq!(s.refresh_interval, 45);
    assert_eq!(eff, Effect::Keep);
}

#[test]
fn search_edit_never_touches_the_poller() {
    let s = initial_state();
    let (s, eff) = update(s, Event::SearchEdited("eta".to_string()));
    assert_eq!(s.search_query, "eta");
    assert_eq!(eff, Effect::Keep);
}

#[test]
fn version_edit_rebuilds_poller_only_on_change() {
    let s = initial_state();
    let (s, eff) = update(s, Event::VersionEdited("1.0.25".to_string()));
    assert_eq!(s.version, "1.0.25");
    assert_eq!(eff, Effect::Refresh { repeat_every: None });
    let (s, eff) = update(s, Event::VersionEdited("1.0.25".to_string()));
    assert_eq!(s.version, "1.0.25");
    assert_eq!(eff, Effect::Keep);
}

#[test]
fn auto_refresh_cycle_arms_and_cancels_the_timer() {
    let s = initial_state();
    let (s, eff) = update(s, Event::IntervalEdited("10".to_string()));
    assert_eq!(eff, Effect::Refresh { repeat_every: None });
    let (s, eff) = update(s, Event::AutoRefreshToggled(true));
    assert_eq!(eff, Effect::Refresh { repeat_every: Some(10) });
    let (s, eff) = update(s, Event::FetchSucceeded(vec![srv("a")]));
    assert_eq!(eff, Effect::Keep);
    assert_eq!(s.servers.len(), 1);
    let (s, eff) = update(s, Event::AutoRefreshToggled(false));
    assert_eq!(eff, Effect::Refresh { repeat_every: None });
    let (_, eff) = update(s, Event::AutoRefreshToggled(false));
    assert_eq!(eff, Effect::Keep);
}

#[test]
fn successful_fetch_replaces_the_list_wholesale() {
    let s = initial_state();
    let (s, _) = update(s, Event::FetchSucceeded(vec![srv("old1"), srv("old2")]));
    let (s, eff) = update(s, Event::FetchSucceeded(vec![srv("new")]));
    assert_eq!(eff, Effect::Keep);
    assert_eq!(s.servers.len(), 1);
    assert_eq!(s.servers[0].name, "new");
}

#[test]
fn failed_fetch_leaves_state_exactly_as_it_was() {
    let s = initial_state();
    let (s, _) = update(s, Event::FetchSucceeded(vec![srv("kept")]));
    let before_names: Vec<String> = s.servers.iter().map(|x| x.name.clone()).collect();
    let (s, eff): (AppState, Effect) = update(s, Event::FetchFailed);
    assert_eq!(eff, Effect::Keep);
    let after_names: Vec<String> = s.servers.iter().map(|x| x.name.clone()).collect();
    assert_eq!(after_names, before_names);
    assert_eq!(s.refresh_interval, 60);
    assert_eq!(s.version, "1.0.24");
}

#[test]
fn url_embeds_the_version_between_fixed_segments() {
    assert_eq!(
        server_list_url("1.0.24"),
        "https://prod-crossplay-pavlov-ms.vankrupt.net/servers/v2/list/1.0.24/steam/0/0/0/all"
    );
    assert_eq!(
        server_list_url("2.1"),
        "https://prod-crossplay-pavlov-ms.vankrupt.net/servers/v2/list/2.1/steam/0/0/0/all"
    );
}
