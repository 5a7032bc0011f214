use survey_app::render::{mode_name, resource_counts, str_less, survey_position, to_decimal};
use survey_app::state::{AppState, Mode, Survey};

fn survey(name: &str, dx: i32, dy: i32, found: bool) -> Survey {
    Survey { resource: name.to_string(), dx, dy, found }
}

#[test]
fn decimal_text() {
    assert_eq!(to_decimal(0), "0");
    assert_eq!(to_decimal(7), "7");
    assert_eq!(to_decimal(10), "10");
    assert_eq!(to_decimal(1234567), "1234567");
    assert_eq!(to_decimal(usize::MAX), usize::MAX.to_string());
}

#[test]
fn labels_prefer_route_position() {
    let mut s = AppState::default();
    s.surveys = vec![survey("A", 1, 0, false), survey("B", 2, 0, true), survey("C", 3, 0, false), survey("D", 4, 0, false)];
    s.path_order = vec![2, 0];
    assert_eq!(s.dot_label(0), "2");
    assert_eq!(s.dot_label(1), "\u{00d7}");
    assert_eq!(s.dot_label(2), "1");
    assert_eq!(s.dot_label(3), "4");
}

#[test]
fn summary_text() {
    let mut s = AppState::default();
    assert_eq!(s.summary(), "0/0 found");
    s.surveys = vec![survey("A", 1, 0, true), survey("B", 2, 0, false), survey("C", 3, 0, true)];
    assert_eq!(s.summary(), "2/3 found");
}

#[test]
fn counts_sorted_by_name() {
    let v = vec![survey("Gem", 0, 0, false), survey("Apple", 0, 0, true), survey("Gem", 0, 0, false), survey("Ore", 0, 0, false)];
    let c = resource_counts(&v);
    let got: Vec<(&str, usize)> = c.iter().map(|r| (r.name.as_str(), r.count)).collect();
    assert_eq!(got, vec![("Apple", 1), ("Gem", 2), ("Ore", 1)]);
    assert!(resource_counts(&[]).is_empty());
}

#[test]
fn text_order() {
    assert!(str_less("Apple", "Gem"));
    assert!(str_less("Ge", "Gem"));
    assert!(!str_less("Gem", "Gem"));
    assert!(!str_less("b", "B"));
    assert!(str_less("", "a"));
}

#[test]
fn geometry_in_serbule() {
    let s = survey("Ore", 100, 0, false);
    assert_eq!(survey_position((500_000, 500_000), "Serbule", &s), (1_291_000, 1_244_000));
    let far = survey("Ore", -5000, 99_999, false);
    assert_eq!(survey_position((500_000, 500_000), "Serbule", &far), (0, 2_488_000));
    let here = survey("Ore", 0, 0, false);
    assert_eq!(survey_position((500_000, 500_000), "Serbule", &here), (1_191_000, 1_244_000));
}

#[test]
fn mode_names() {
    assert_eq!(mode_name(Mode::Record), "record");
    assert_eq!(mode_name(Mode::Find), "find");
}
