use eipi::canvas::{
    best_camera, boxes_fit, cameras_fit, overlaps_any, place_from_draws, placements_fit,
    random_position, visible_confessions,
};
use eipi::confession::{confession_height, Confession, BOX_WIDTH};

fn conf(id: i64, text: &str, x: i64, y: i64, votes: i64) -> Confession {
    Confession {
        id,
        text: text.to_string(),
        x,
        y,
        votes,
        reply_count: 0,
        author_fingerprint: String::new(),
        created_at: String::new(),
    }
}

#[test]
fn visible_lists_boxes_meeting_the_view_in_order() {
    // Each short confession is 42 wide and 3 high.
    let cs = vec![
        conf(1, "a", 0, 0, 0),
        conf(2, "b", 100, 0, 0),
        conf(3, "c", -41, -2, 0),
        conf(4, "d", -42, 0, 0),
        conf(5, "e", 0, 10, 0),
        conf(6, "f", 79, 9, 0),
    ];
    assert_eq!(visible_confessions(&cs, 0, 0, 80, 10), vec![0, 2, 5]);
    assert_eq!(visible_confessions(&cs, 0, 0, 0, 0), vec![2]);
    assert_eq!(visible_confessions(&[], 0, 0, 80, 24), Vec::<usize>::new());
}

#[test]
fn overlap_counts_padding() {
    let cs = vec![conf(1, "a", 0, 0, 0)];
    // Box at x 0..42, y 0..3; with padding 2 it reaches up to x 44 and y 5.
    assert!(overlaps_any(43, 0, 42, 3, &cs, 2));
    assert!(!overlaps_any(44, 0, 42, 3, &cs, 2));
    assert!(overlaps_any(0, 4, 42, 3, &cs, 2));
    assert!(!overlaps_any(0, 5, 42, 3, &cs, 2));
    assert!(!overlaps_any(-44, 0, 42, 3, &cs, 2));
    assert!(overlaps_any(-43, 0, 42, 3, &cs, 2));
    assert!(!overlaps_any(0, 0, 42, 3, &[], 2));
}

#[test]
fn best_camera_of_empty_canvas_centres_the_origin() {
    assert_eq!(best_camera(&[], 80, 24), (-40, -12));
    assert_eq!(best_camera(&[], 81, 25), (-40, -12));
}

#[test]
fn best_camera_centres_on_the_most_voted_busiest_view() {
    let cs = vec![
        conf(1, "lonely", 1000, 1000, 50),
        conf(2, "crowd one", 0, 0, 1),
        conf(3, "crowd two", 0, 5, 0),
        conf(4, "crowd three", 50, 0, 0),
    ];
    // The view on confession 2 shows three confessions; the one on confession 1 shows one.
    let cam = best_camera(&cs, 80, 24);
    assert_eq!(cam, (0 - 40 + 21, 0 - 12 + 2));
}

#[test]
fn best_camera_prefers_more_votes_on_ties() {
    let cs = vec![conf(1, "a", 0, 0, 1), conf(2, "b", 500, 500, 9)];
    assert_eq!(best_camera(&cs, 80, 24), (500 - 40 + 21, 500 - 12 + 2));
}

#[test]
fn random_position_never_crowds_existing_boxes() {
    let mut cs: Vec<Confession> = Vec::new();
    for k in 0..20i64 {
        cs.push(conf(k, "some confession text here", (k % 5) * 50, (k / 5) * 8, 0));
    }
    for _ in 0..50 {
        let (x, y) = random_position(&cs, "a new one");
        let h = confession_height("a new one") as i64;
        assert!(!overlaps_any(x, y, BOX_WIDTH as i64, h, &cs, 2));
    }
}

#[test]
fn random_position_on_empty_canvas_stays_in_the_spread() {
    for _ in 0..50 {
        let (x, y) = random_position(&[], "hi");
        // Three columns: 3 * 48 wide and 3 * 8 high, centred on the origin.
        assert!(-72 <= x && x <= 72);
        assert!(-12 <= y && y <= 12);
    }
}

#[test]
fn checks_before_handing_over_confessions() {
    let good = vec![conf(1, "fine", 0, 0, 0)];
    assert!(boxes_fit(&good));
    assert!(placements_fit(&good));
    assert!(cameras_fit(&good, 80, 24));
    let far = vec![conf(1, "fine", i64::MAX - 10, 0, 0)];
    assert!(!boxes_fit(&far));
    assert!(!placements_fit(&far));
    assert!(!cameras_fit(&far, 80, 24));
    let low = vec![conf(1, "fine", i64::MIN, 0, 0)];
    assert!(boxes_fit(&low));
    assert!(!cameras_fit(&low, 80, 24));
    let uncuttable = vec![conf(1, &"€".repeat(13), 0, 0, 0)];
    assert!(!boxes_fit(&uncuttable));
    assert!(boxes_fit(&[]));
}

#[test]
fn placement_takes_the_first_free_draw() {
    let cs = vec![conf(1, "a", 0, 0, 0)];
    let mut draws = vec![(0i64, 0i64); 300];
    draws[3] = (60, 0);
    draws[4] = (-60, 0);
    assert_eq!(place_from_draws(&cs, "b", &draws, 7), (60, 0));
    let mut first = vec![(0i64, 0i64); 300];
    first[0] = (-60, 1);
    assert_eq!(place_from_draws(&cs, "b", &first, 7), (-60, 1));
}

#[test]
fn placement_falls_back_below_everything() {
    // Every draw lands on the existing box: the fallback column, four rows below the
    // lowest bottom edge (3), is used.
    let cs = vec![conf(1, "a", 0, 0, 0), conf(2, "b", 50, -1, 0)];
    let draws = vec![(1i64, 1i64); 300];
    assert_eq!(place_from_draws(&cs, "c", &draws, 7), (7, 7));
    assert_eq!(place_from_draws(&[], "c", &vec![(5i64, -3i64); 300], 0), (5, -3));
}
