use survey_app::pathfinder::{distance_matrix, find_path, isqrt, nearest_neighbor, two_opt, POS_SCALE};
use survey_app::state::Survey;
use survey_app::survey::{deduplicate_surveys, zone_dimensions};

fn survey(name: &str, dx: i32, dy: i32, found: bool) -> Survey {
    Survey { resource: name.to_string(), dx, dy, found }
}

fn open_len(dist: &Vec<Vec<u64>>, route: &Vec<usize>) -> u64 {
    route.windows(2).map(|w| dist[w[0]][w[1]]).sum()
}

#[test]
fn zone_table_and_default() {
    assert_eq!(zone_dimensions("Serbule"), (2382, 2488));
    assert_eq!(zone_dimensions("Serbule Hills"), (2748, 2668));
    assert_eq!(zone_dimensions("Eltibule"), (2684, 2778));
    assert_eq!(zone_dimensions("Ilmari"), (2920, 2920));
    assert_eq!(zone_dimensions("Kur Mountains"), (3000, 3000));
    assert_eq!(zone_dimensions("Nowhere"), (2382, 2488));
    assert_eq!(zone_dimensions(""), (2382, 2488));
}

#[test]
fn dedup_keeps_last_of_each_name() {
    let input = vec![survey("A", 1, 0, false), survey("B", 2, 0, false), survey("A", 3, 0, false)];
    let out = deduplicate_surveys(&input);
    assert_eq!(out.len(), 2);
    assert_eq!(out[0].resource, "B");
    assert_eq!(out[0].dx, 2);
    assert_eq!(out[1].resource, "A");
    assert_eq!(out[1].dx, 3);
}

#[test]
fn dedup_empty_and_distinct() {
    assert!(deduplicate_surveys(&[]).is_empty());
    let input = vec![survey("A", 1, 0, false), survey("B", 2, 0, false)];
    let out = deduplicate_surveys(&input);
    assert_eq!(out.len(), 2);
    assert_eq!(out[0].resource, "A");
    assert_eq!(out[1].resource, "B");
}

#[test]
fn isqrt_rounds_down() {
    assert_eq!(isqrt(0), 0);
    assert_eq!(isqrt(1), 1);
    assert_eq!(isqrt(15), 3);
    assert_eq!(isqrt(16), 4);
    assert_eq!(isqrt(25_000_000), 5000);
    assert_eq!(isqrt(u64::MAX), 4_294_967_295);
}

#[test]
fn route_empty_when_all_found() {
    let s = vec![survey("A", 10, 10, true)];
    assert!(find_path((POS_SCALE / 2, POS_SCALE / 2), &s, "Serbule").is_empty());
    assert!(find_path((POS_SCALE / 2, POS_SCALE / 2), &[], "Serbule").is_empty());
}

#[test]
fn route_single_survey_geometry_example() {
    let s = vec![survey("Ore", 100, 0, false)];
    assert_eq!(find_path((500_000, 500_000), &s, "Serbule"), vec![0]);
    let s = vec![survey("Ore", 100, 0, true), survey("Gem", -5, 7, false)];
    assert_eq!(find_path((500_000, 500_000), &s, "Serbule"), vec![1]);
}

#[test]
fn route_is_permutation_of_unvisited() {
    let s = vec![
        survey("A", 300, 0, false),
        survey("B", -200, 50, true),
        survey("C", 100, 0, false),
        survey("D", 0, -400, false),
        survey("E", 50, 50, false),
    ];
    let mut r = find_path((500_000, 500_000), &s, "Eltibule");
    r.sort();
    assert_eq!(r, vec![0, 2, 3, 4]);
}

#[test]
fn route_follows_nearest_along_a_line() {
    let s = vec![survey("A", 300, 0, false), survey("B", 100, 0, false), survey("C", 200, 0, false)];
    assert_eq!(find_path((500_000, 500_000), &s, "Serbule"), vec![1, 2, 0]);
}

#[test]
fn route_is_deterministic() {
    let s = vec![
        survey("A", 300, 20, false),
        survey("B", -200, 50, false),
        survey("C", 100, -80, false),
        survey("D", 0, -400, false),
    ];
    let a = find_path((123_456, 654_321), &s, "Ilmari");
    let b = find_path((123_456, 654_321), &s, "Ilmari");
    assert_eq!(a, b);
}

#[test]
fn two_opt_never_longer_than_nearest_neighbor() {
    let xs: Vec<i64> = vec![0, 1000, 2000, 1000, 3000, 0, 2500];
    let ys: Vec<i64> = vec![0, 2000, 0, 0, 1000, 3000, 2500];
    let d = distance_matrix(&xs, &ys);
    let nn = nearest_neighbor(&d);
    let mut r = nn.clone();
    two_opt(&d, &mut r);
    assert!(open_len(&d, &r) <= open_len(&d, &nn));
    assert_eq!(r[0], 0);
    let mut sorted = r.clone();
    sorted.sort();
    assert_eq!(sorted, (0..7).collect::<Vec<usize>>());
}

#[test]
fn two_opt_uncrosses_a_path() {
    // nearest neighbor from 0 goes 0 -> 1 -> 2 -> 3 with crossing edges
    let xs: Vec<i64> = vec![0, 1000, 1000, 0, 3000];
    let ys: Vec<i64> = vec![0, 0, 1000, 1000, 5000];
    let d = distance_matrix(&xs, &ys);
    let nn = nearest_neighbor(&d);
    let mut r = nn.clone();
    two_opt(&d, &mut r);
    assert!(open_len(&d, &r) <= open_len(&d, &nn));
}

#[test]
fn distance_matrix_values() {
    let xs: Vec<i64> = vec![0, 3000];
    let ys: Vec<i64> = vec![0, 4000];
    let d = distance_matrix(&xs, &ys);
    assert_eq!(d, vec![vec![0, 5000], vec![5000, 0]]);
}

#[test]
fn nearest_neighbor_breaks_ties_by_lowest_index() {
    let xs: Vec<i64> = vec![1000, 2000, 0];
    let ys: Vec<i64> = vec![0, 0, 0];
    let d = distance_matrix(&xs, &ys);
    assert_eq!(nearest_neighbor(&d), vec![0, 1, 2]);
}

#[test]
fn route_ignores_found_surveys_and_names() {
    let a = vec![
        survey("A", 300, 20, false),
        survey("B", -200, 50, true),
        survey("C", 100, -80, false),
        survey("D", 0, -400, false),
    ];
    let b = vec![
        survey("X", 300, 20, false),
        survey("Y", 999, -999, true),
        survey("Z", 100, -80, false),
        survey("W", 0, -400, false),
    ];
    assert_eq!(find_path((400_000, 600_000), &a, "Serbule"), find_path((400_000, 600_000), &b, "Serbule"));
}
