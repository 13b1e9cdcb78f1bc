use server_browser::filter::display_list;
use server_browser::filter::filter_servers;
use server_browser::filter::sort_by_name;
use server_browser::server::Server;

fn srv(name: &str, map_label: &str) -> Server {
    Server {
        name: name.to_string(),
        slots: 3,
        max_slots: 10,
        map_id: "UGC000".to_string(),
        map_label: map_label.to_string(),
        port: 7777,
        password_protected: false,
        secured: true,
        game_mode: "SND".to_string(),
        game_mode_label: "Search and Destroy".to_string(),
        ip: "198.51.100.7".to_string(),
        version: "1.0.24".to_string(),
        updated: "2023-04-01T00:00:00Z".to_string(),
    }
}

fn names(l: &[Server]) -> Vec<String> {
    l.iter().map(|s| s.name.clone()).collect()
}

fn sample() -> Vec<Server> {
    vec![
        srv("Zeta", "Sand"),
        srv("alpha", "Station"),
        srv("Beta", "Datacenter"),
    ]
}

#[test]
fn empty_query_keeps_all_sorted() {
    let d = display_list(sample(), "");
    assert_eq!(names(&d), vec!["alpha", "Beta", "Zeta"]);
}

#[test]
fn query_eta_matches_zeta_and_beta() {
    let d = display_list(sample(), "ETA");
    assert_eq!(names(&d), vec!["Beta", "Zeta"]);
}

#[test]
fn query_matches_map_label_too() {
    let d = display_list(sample(), "station");
    assert_eq!(names(&d), vec!["alpha"]);
    let d = display_list(sample(), "SAND");
    assert_eq!(names(&d), vec!["Zeta"]);
}

#[test]
fn query_without_match_gives_empty_display() {
    let d = display_list(sample(), "does-not-occur");
    assert!(d.is_empty());
}

#[test]
fn display_is_subset_with_matching_members() {
    let l = sample();
    let d = display_list(l.clone(), "a");
    assert!(!d.is_empty());
    for s in &d {
        assert!(l.contains(s));
        assert!(
            s.name.to_lowercase().contains("a") || s.map_label.to_lowercase().contains("a")
        );
    }
}

#[test]
fn display_is_sorted_by_lowercased_name() {
    let mut l = sample();
    l.push(srv("delta", "Bridge"));
    l.push(srv("ALPHA2", "Bridge"));
    let d = display_list(l, "");
    for w in d.windows(2) {
        assert!(w[0].name.to_lowercase() <= w[1].name.to_lowercase());
    }
    assert_eq!(names(&d), vec!["alpha", "ALPHA2", "Beta", "delta", "Zeta"]);
}

#[test]
fn filtering_twice_equals_filtering_once() {
    let once = display_list(sample(), "eta");
    let twice = display_list(once.clone(), "eta");
    assert_eq!(twice, once);
}

#[test]
fn filter_preserves_original_order() {
    let kept = filter_servers(sample(), "eta");
    assert_eq!(names(&kept), vec!["Zeta", "Beta"]);
}

#[test]
fn sort_keeps_records_with_equal_names() {
    let mut l = Vec::new();
    let mut a = srv("Same", "One");
    a.ip = "198.51.100.1".to_string();
    let mut b = srv("same", "Two");
    b.ip = "198.51.100.2".to_string();
    l.push(a);
    l.push(b);
    l.push(srv("Aaa", "Three"));
    let d = sort_by_name(l);
    assert_eq!(d.len(), 3);
    assert_eq!(d[0].name, "Aaa");
    assert!(d.iter().any(|s| s.ip == "198.51.100.1"));
    assert!(d.iter().any(|s| s.ip == "198.51.100.2"));
}

#[test]
fn sorted_input_comes_back_unchanged() {
    let l = vec![srv("apple", "M1"), srv("Banana", "M2"), srv("cherry", "M3")];
    let d = sort_by_name(l.clone());
    assert_eq!(d, l);
}
