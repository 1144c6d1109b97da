use std::path::{Path, PathBuf};

use waypoint_core::basemap::{
    box_fits, cache_path, cache_segments, claim_fresh, fill_template, first_tile_template,
    is_drawn_layer, tiles_across, tiles_in_box, MAX_ZOOM,
};
use waypoint_core::{Availability, Shape, TileId};

#[test]
fn roads_are_classified_by_their_class_not_their_layer() {
    assert_eq!(
        Shape::for_feature("transportation", Some("motorway")),
        Some(Shape::Motorway)
    );
    assert_eq!(
        Shape::for_feature("transportation", Some("secondary")),
        Some(Shape::MajorRoad)
    );
    assert_eq!(Shape::for_feature("transportation", Some("path")), None);
    assert_eq!(Shape::for_feature("transportation", None), None);
}

#[test]
fn only_layers_worth_the_resolution_are_kept() {
    assert_eq!(Shape::for_feature("water", None), Some(Shape::Water));
    assert_eq!(Shape::for_feature("park", None), Some(Shape::Park));
    // Buildings and labels would be noise on a braille grid.
    assert_eq!(Shape::for_feature("building", None), None);
    assert_eq!(Shape::for_feature("place", None), None);
}

#[test]
fn wide_views_keep_only_the_shapes_that_orient_you() {
    assert!(Shape::Motorway.is_landmark());
    assert!(Shape::Water.is_landmark());
    // Side streets and ground cover are detail, not orientation.
    assert!(!Shape::MinorRoad.is_landmark());
    assert!(!Shape::Landcover.is_landmark());
    assert!(!Shape::Park.is_landmark());
}

/// Water must draw over landcover, and roads over both.
#[test]
fn shapes_sort_back_to_front() {
    let mut order = vec![Shape::Motorway, Shape::Landcover, Shape::Water];
    order.sort();
    assert_eq!(order, vec![Shape::Landcover, Shape::Water, Shape::Motorway]);
}

#[test]
fn tile_template_is_read_out_of_tilejson() {
    let body = r#"{"tilejson":"3.0.0","tiles":["https://tiles.example.org/planet/20260802/{z}/{x}/{y}.pbf"],"maxzoom":14}"#;
    let template = first_tile_template(body).expect("a tiles array");
    assert_eq!(
        fill_template(
            &template,
            TileId {
                zoom: 14,
                x: 8192,
                y: 5450
            }
        ),
        "https://tiles.example.org/planet/20260802/14/8192/5450.pbf"
    );
}

/// A pinned snapshot goes stale, so a malformed or empty document must not
/// be mistaken for a usable endpoint.
#[test]
fn a_document_without_tiles_yields_nothing() {
    assert_eq!(first_tile_template("{}"), None);
    assert_eq!(first_tile_template(r#"{"tiles":[]}"#), None);
    assert_eq!(first_tile_template(r#"{"tiles":["ftp://nope"]}"#), None);
}

#[test]
fn the_first_of_several_entries_is_taken_trimmed() {
    let body = "{\"tiles\" : [ \"http://a/{z}\" ,\n \"http://b/{z}\" ], \"x\":1}";
    assert_eq!(first_tile_template(body).as_deref(), Some("http://a/{z}"));
    let unquoted = "{\"tiles\":[\u{a0}http://c/{z}/{x}/{y}]}";
    assert_eq!(
        first_tile_template(unquoted).as_deref(),
        Some("http://c/{z}/{x}/{y}")
    );
}

#[test]
fn brackets_must_open_and_close_after_the_key() {
    assert_eq!(first_tile_template("\"tiles\" \"http://x\""), None);
    assert_eq!(first_tile_template("\"tiles\":[\"http://x\""), None);
    // Only what lies between the first and second "tiles" is looked at.
    assert_eq!(
        first_tile_template("\"tiles\" \"tiles\":[\"http://x\"]"),
        None
    );
}

#[test]
fn templates_fill_every_placeholder() {
    let tile = TileId { zoom: 3, x: 0, y: 7 };
    assert_eq!(fill_template("{z}/{x}/{y}/{z}", tile), "3/0/7/3");
    assert_eq!(fill_template("no placeholders", tile), "no placeholders");
    assert_eq!(fill_template("{zz}{x", tile), "{zz}{x");
    let max = TileId { zoom: 255, x: u32::MAX, y: 10 };
    assert_eq!(fill_template("{z}-{x}-{y}", max), "255-4294967295-10");
}

#[test]
fn the_world_is_two_to_the_zoom_tiles_across() {
    assert_eq!(tiles_across(0), 1);
    assert_eq!(tiles_across(MAX_ZOOM), 16384);
    assert_eq!(tiles_across(31), 1u32 << 31);
}

#[test]
fn tiles_are_cached_by_zoom_column_and_row() {
    let tile = TileId { zoom: 14, x: 8192, y: 5450 };
    assert_eq!(
        cache_path(Path::new("/cache/tiles"), tile),
        PathBuf::from("/cache/tiles/14/8192/5450.pbf")
    );
    let (z, x, y) = cache_segments(tile);
    assert_eq!((z.as_str(), x.as_str(), y.as_str()), ("14", "8192", "5450.pbf"));
}

#[test]
fn availability_reads_as_a_map_state() {
    assert_eq!(Availability::Disabled.label(), "map off");
    assert_eq!(Availability::Idle.label(), "map idle");
    assert_eq!(Availability::Loading.label(), "map loading");
    assert_eq!(Availability::Online.label(), "map online");
    assert_eq!(Availability::Offline.label(), "map cached");
    assert_eq!(Availability::Unavailable.label(), "map unavailable");
}

#[test]
fn rail_and_green_space_are_recognised() {
    assert_eq!(Shape::for_feature("transportation", Some("rail")), Some(Shape::Rail));
    assert_eq!(Shape::for_feature("transportation", Some("street")), Some(Shape::MinorRoad));
    assert_eq!(Shape::for_feature("transportation", Some("trunk")), Some(Shape::Motorway));
    assert_eq!(Shape::for_feature("landcover", Some("grass")), Some(Shape::Landcover));
    assert_eq!(Shape::for_feature("waterway", None), Some(Shape::Waterway));
    assert!(Shape::Waterway.is_landmark());
    assert!(Shape::MajorRoad.is_landmark());
    assert!(!Shape::Rail.is_landmark());
}

#[test]
fn a_map_starts_idle_only_when_wanted() {
    assert_eq!(Availability::initial(true), Availability::Idle);
    assert_eq!(Availability::initial(false), Availability::Disabled);
}

#[test]
fn a_load_reports_where_its_tiles_came_from() {
    assert_eq!(Availability::after_load(false, true), Availability::Unavailable);
    assert_eq!(Availability::after_load(false, false), Availability::Unavailable);
    assert_eq!(Availability::after_load(true, true), Availability::Online);
    assert_eq!(Availability::after_load(true, false), Availability::Offline);
}

#[test]
fn a_box_across_the_meridian_spans_both_columns() {
    let top_left = TileId { zoom: 14, x: 8191, y: 5449 };
    let bottom_right = TileId { zoom: 14, x: 8192, y: 5450 };
    let tiles = tiles_in_box(14, bottom_right, top_left);
    assert_eq!(tiles.len(), 4);
    assert!(tiles.iter().any(|t| t.x == 8191));
    assert!(tiles.iter().any(|t| t.x == 8192));
    let cells: Vec<(u32, u32)> = tiles.iter().map(|t| (t.x, t.y)).collect();
    assert_eq!(cells, vec![(8191, 5449), (8191, 5450), (8192, 5449), (8192, 5450)]);
    assert!(tiles.iter().all(|t| t.zoom == 14));
    assert!(box_fits(top_left, bottom_right, 4));
    assert!(!box_fits(top_left, bottom_right, 3));
    assert!(box_fits(bottom_right, top_left, 4));
}

#[test]
fn a_single_tile_box_is_one_tile() {
    let t = TileId { zoom: 0, x: 0, y: 0 };
    assert_eq!(tiles_in_box(0, t, t), vec![t]);
    assert!(box_fits(t, t, 1));
    assert!(!box_fits(t, t, 0));
    let far = TileId { zoom: 31, x: u32::MAX, y: u32::MAX };
    assert!(!box_fits(TileId { zoom: 31, x: 0, y: 0 }, far, u32::MAX));
}

#[test]
fn only_tiles_not_yet_requested_are_fetched() {
    let a = TileId { zoom: 3, x: 1, y: 1 };
    let b = TileId { zoom: 3, x: 1, y: 2 };
    let c = TileId { zoom: 3, x: 2, y: 1 };
    let mut requested = vec![b];
    let fresh = claim_fresh(&vec![a, b, a, c], &mut requested);
    assert_eq!(fresh, vec![a, c]);
    assert_eq!(requested, vec![b, a, c]);
    // The same view again asks for nothing.
    assert!(claim_fresh(&vec![a, b, a, c], &mut requested).is_empty());
    assert_eq!(requested.len(), 3);
}

#[test]
fn only_drawn_layers_are_decoded() {
    for layer in ["water", "waterway", "park", "landcover", "transportation"] {
        assert!(is_drawn_layer(layer), "{layer}");
    }
    for layer in ["building", "place", "poi", "Water", ""] {
        assert!(!is_drawn_layer(layer), "{layer}");
        assert_eq!(Shape::for_feature(layer, Some("motorway")), None);
    }
}
