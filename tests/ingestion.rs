use survey_app::parser::{is_collection, parse_digits, parse_sighting, parse_zone};
use survey_app::state::{AppState, Mode, Survey};

fn survey(name: &str, dx: i32, dy: i32, found: bool) -> Survey {
    Survey { resource: name.to_string(), dx, dy, found }
}

fn lines(v: &[&str]) -> Vec<String> {
    v.iter().map(|s| s.to_string()).collect()
}

#[test]
fn sighting_line_parses_with_signs() {
    let s = parse_sighting("[Status] The Iron Ore is 120m west and 45m north.").unwrap();
    assert_eq!(s.resource, "Iron Ore");
    assert_eq!(s.dx, -120);
    assert_eq!(s.dy, -45);
    assert!(!s.found);
    let s = parse_sighting("12:00 [Status] The Gem is 7m east and 3m south.").unwrap();
    assert_eq!((s.dx, s.dy), (7, 3));
    assert!(parse_sighting("[Status] The Gem is far away.").is_none());
}

#[test]
fn oversized_distance_counts_as_zero() {
    let s = parse_sighting("[Status] The Gem is 99999999999m east and 3m south.").unwrap();
    assert_eq!(s.dx, 0);
    assert_eq!(s.dy, 3);
}

#[test]
fn digits_parse() {
    assert_eq!(parse_digits("0"), Some(0));
    assert_eq!(parse_digits("2147483647"), Some(i32::MAX));
    assert_eq!(parse_digits("2147483648"), None);
    assert_eq!(parse_digits(""), None);
    assert_eq!(parse_digits("12a"), None);
}

#[test]
fn zone_and_collection_lines() {
    assert_eq!(parse_zone("Entering Area: Serbule Hills  ").unwrap(), "Serbule Hills");
    assert!(parse_zone("Leaving Area: Serbule").is_none());
    assert!(is_collection("[Status] Iron Ore collected!"));
    assert!(!is_collection("Iron Ore collected!"));
}

#[test]
fn default_state() {
    let s = AppState::default();
    assert_eq!(s.mode, Mode::Record);
    assert_eq!(s.zone, "Serbule");
    assert_eq!(s.batch_size, 5);
    assert_eq!(s.player_pos, (500_000, 500_000));
    assert_eq!((s.map_width, s.map_height), (750, 750));
    assert!(s.surveys.is_empty() && s.record_buffer.is_empty() && s.path_order.is_empty());
    assert_eq!(s.file_position, 0);
    assert!(s.log_directory.is_none());
}

#[test]
fn batch_fills_and_switches_to_find() {
    let mut s = AppState::default();
    s.set_batch_size(2);
    let (z, c) = s.process_line("[Status] The Iron Ore is 100m east and 20m south.");
    assert!(!z && c);
    assert_eq!(s.mode, Mode::Record);
    assert_eq!(s.record_buffer.len(), 1);
    s.process_line("[Status] The Gem is 50m west and 80m north.");
    assert_eq!(s.mode, Mode::Find);
    assert_eq!(s.surveys.len(), 2);
    assert!(s.record_buffer.is_empty());
    assert_eq!(s.path_order.len(), 2);
}

#[test]
fn batch_of_two_through_a_read() {
    let mut s = AppState::default();
    s.set_batch_size(2);
    s.set_log_directory("/logs".to_string());
    assert!(s.needs_read(10));
    let (_, c) = s.ingest(
        10,
        &lines(&[
            "[Status] The Iron Ore is 100m east and 20m south.",
            "[Status] The Gem is 50m west and 80m north.",
        ]),
    );
    assert!(c);
    assert_eq!(s.mode, Mode::Find);
    assert_eq!(s.surveys.len(), 2);
    assert!(s.record_buffer.is_empty());
    assert!(!s.path_order.is_empty());
    assert_eq!(s.file_position, 10);
    assert!(!s.needs_read(10));
    assert!(s.needs_read(11));
}

#[test]
fn collections_follow_path_order() {
    let mut s = AppState::default();
    s.surveys = vec![survey("A", 10, 0, false), survey("B", 20, 0, false), survey("C", 30, 0, false)];
    s.path_order = vec![2, 0, 1];
    s.mode = Mode::Find;
    assert!(s.collect_next());
    assert!(s.surveys[2].found);
    assert!(!s.surveys[0].found);
    let (_, c) = s.process_line("[Status] B collected!");
    assert!(c);
    assert!(s.surveys[0].found);
    assert!(!s.surveys[1].found);
    assert!(s.collect_next());
    assert!(!s.collect_next());
}

#[test]
fn sightings_ignored_in_find_and_collections_in_record() {
    let mut s = AppState::default();
    s.surveys = vec![survey("A", 10, 0, false)];
    s.path_order = vec![0];
    let (_, c) = s.process_line("[Status] A collected!");
    assert!(!c);
    assert!(!s.surveys[0].found);
    s.mode = Mode::Find;
    let (_, c) = s.process_line("[Status] The Gem is 5m east and 5m south.");
    assert!(!c);
    assert!(s.record_buffer.is_empty());
}

#[test]
fn zone_change_sets_flags() {
    let mut s = AppState::default();
    let (z, c) = s.process_line("Entering Area: Eltibule");
    assert!(z && c);
    assert_eq!(s.zone, "Eltibule");
    let (z, c) = s.process_lines(&lines(&["Entering Area: Eltibule", "nothing here"]));
    assert!(!z && !c);
}

#[test]
fn buffer_keeps_last_batch_after_shrinking() {
    let mut s = AppState::default();
    for (i, n) in ["a", "b", "c", "d"].iter().enumerate() {
        s.push_sighting(survey(n, i as i32, 0, false));
    }
    assert_eq!(s.record_buffer.len(), 4);
    s.set_batch_size(2);
    let names: Vec<&str> = s.record_buffer.iter().map(|x| x.resource.as_str()).collect();
    assert_eq!(names, vec!["c", "d"]);
    assert!(s.record_buffer.len() <= s.batch_size);
    s.push_sighting(survey("e", 9, 0, false));
    assert_eq!(s.mode, Mode::Find);
    let names: Vec<&str> = s.surveys.iter().map(|x| x.resource.as_str()).collect();
    assert_eq!(names, vec!["d", "e"]);
}

#[test]
fn dedup_on_commit() {
    let mut s = AppState::default();
    s.set_batch_size(3);
    s.process_lines(&lines(&[
        "[Status] The A is 1m east and 1m south.",
        "[Status] The B is 2m east and 2m south.",
        "[Status] The A is 3m east and 3m south.",
    ]));
    assert_eq!(s.mode, Mode::Find);
    assert_eq!(s.surveys.len(), 2);
    assert_eq!(s.surveys[0].resource, "B");
    assert_eq!(s.surveys[1].dx, 3);
}

#[test]
fn controls() {
    let mut s = AppState::default();
    s.set_batch_size(0);
    assert_eq!(s.batch_size, 1);
    s.set_player_pos(2_000_000, 250_000);
    assert_eq!(s.player_pos, (1_000_000, 250_000));
    s.set_map_size(0, 300);
    assert_eq!((s.map_width, s.map_height), (1, 300));
    s.surveys = vec![survey("A", 10, 0, false), survey("B", 20, 0, false)];
    s.path_order = vec![0, 1];
    s.toggle_found(0);
    assert!(s.surveys[0].found);
    assert_eq!(s.path_order, vec![1]);
    s.toggle_found(7);
    assert_eq!(s.path_order, vec![1]);
    s.set_mode("find");
    assert_eq!(s.mode, Mode::Find);
    s.set_zone("Ilmari".to_string());
    assert_eq!(s.zone, "Ilmari");
    s.set_mode("record");
    assert_eq!(s.mode, Mode::Record);
    s.clear_surveys();
    assert!(s.surveys.is_empty() && s.path_order.is_empty());
    assert_eq!(s.mode, Mode::Record);
}

#[test]
fn zone_trims_unicode_whitespace() {
    assert_eq!(parse_zone("Entering Area: \u{3000}Ilmari\u{a0}").unwrap(), "Ilmari");
    assert_eq!(parse_zone("Entering Area: \tKur Mountains\r").unwrap(), "Kur Mountains");
}
