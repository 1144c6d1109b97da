//! The terminal basemap's vocabulary: which vector-tile features are drawn and
//! how, slippy-tile addressing, and reading the tile URL out of a TileJSON
//! document.

use vstd::prelude::*;

use std::path::{Path, PathBuf};

use crate::paths::{borrowed, join, joined};
use crate::text::{
    chars_of, decimal, push_char, push_decimal, same_text, string_of, trim_both, trim_range,
};

verus! {

/// Attribution required by the tile data's licence, shown with the map.
pub const ATTRIBUTION: &'static str = "© OpenMapTiles © OpenStreetMap";

/// OpenMapTiles data stops here — deeper zooms are rendered by over-zooming
/// the z14 tile rather than by fetching one that does not exist.
pub const MAX_ZOOM: u8 = 14;

/// What a shape is, which decides how it is drawn. Ordered back to front:
/// later variants are drawn over earlier ones.
#[derive(Debug, Clone, Copy, PartialEq, Eq, PartialOrd, Ord, Structural)]
pub enum Shape {
    Landcover,
    Park,
    Water,
    Waterway,
    MinorRoad,
    MajorRoad,
    Motorway,
    Rail,
}

/// The shape an OpenMapTiles feature draws as, from its layer and, for
/// roads, its `class`.
pub open spec fn shape_for(layer: Seq<char>, class: Option<Seq<char>>) -> Option<Shape> {
    if layer == "water"@ {
        Some(Shape::Water)
    } else if layer == "waterway"@ {
        Some(Shape::Waterway)
    } else if layer == "park"@ {
        Some(Shape::Park)
    } else if layer == "landcover"@ {
        Some(Shape::Landcover)
    } else if layer == "transportation"@ {
        match class {
            None => None,
            Some(c) => if c == "motorway"@ || c == "trunk"@ {
                Some(Shape::Motorway)
            } else if c == "primary"@ || c == "secondary"@ || c == "tertiary"@ {
                Some(Shape::MajorRoad)
            } else if c == "minor"@ || c == "service"@ || c == "street"@ {
                Some(Shape::MinorRoad)
            } else if c == "rail"@ || c == "transit"@ {
                Some(Shape::Rail)
            } else {
                None
            },
        }
    } else {
        None
    }
}

pub open spec fn class_view(class: Option<&str>) -> Option<Seq<char>> {
    match class {
        Some(c) => Some(c@),
        None => None,
    }
}

impl Shape {
    /// Whether this shape is worth drawing in a wide view. These are the ones
    /// that tell you where you are — a river, a motorway, a main road — as
    /// opposed to the detail that only reads close up.
    pub fn is_landmark(self) -> (r: bool)
        ensures
            r == (self == Shape::Water || self == Shape::Waterway || self == Shape::Motorway
                || self == Shape::MajorRoad),
    {
        matches!(self, Shape::Water | Shape::Waterway | Shape::Motorway | Shape::MajorRoad)
    }

    /// OpenMapTiles classifies roads in the `class` field; everything else is
    /// decided by which layer it came from. Paths, tracks, buildings and
    /// labels are noise at a terminal's resolution and draw as nothing.
    pub fn for_feature(layer: &str, class: Option<&str>) -> (r: Option<Shape>)
        ensures
            r == shape_for(layer@, class_view(class)),
    {
        if same_text(layer, "water") {
            Some(Shape::Water)
        } else if same_text(layer, "waterway") {
            Some(Shape::Waterway)
        } else if same_text(layer, "park") {
            Some(Shape::Park)
        } else if same_text(layer, "landcover") {
            Some(Shape::Landcover)
        } else if same_text(layer, "transportation") {
            match class {
                None => None,
                Some(c) => {
                    if same_text(c, "motorway") || same_text(c, "trunk") {
                        Some(Shape::Motorway)
                    } else if same_text(c, "primary") || same_text(c, "secondary") || same_text(
                        c,
                        "tertiary",
                    ) {
                        Some(Shape::MajorRoad)
                    } else if same_text(c, "minor") || same_text(c, "service") || same_text(
                        c,
                        "street",
                    ) {
                        Some(Shape::MinorRoad)
                    } else if same_text(c, "rail") || same_text(c, "transit") {
                        Some(Shape::Rail)
                    } else {
                        None
                    }
                },
            }
        } else {
            None
        }
    }
}

/// The OpenMapTiles layers anything is drawn from. A tile's other layers are
/// skipped whole, before any geometry is read.
pub open spec fn drawn_layer(layer: Seq<char>) -> bool {
    layer == "water"@ || layer == "waterway"@ || layer == "park"@ || layer == "landcover"@
        || layer == "transportation"@
}

/// Whether a tile layer is worth decoding at all.
pub fn is_drawn_layer(layer: &str) -> (r: bool)
    ensures
        r == drawn_layer(layer@),
{
    same_text(layer, "water") || same_text(layer, "waterway") || same_text(layer, "park")
        || same_text(layer, "landcover") || same_text(layer, "transportation")
}

/// Law: skipping the layers that are not drawn never loses a feature that
/// would have been — whatever its class, a feature of such a layer draws as
/// nothing.
pub proof fn lemma_skipped_layers_draw_nothing(layer: Seq<char>, class: Option<Seq<char>>)
    requires
        !drawn_layer(layer),
    ensures
        shape_for(layer, class) is None,
{
}

/// Law: the road hierarchy of OpenMapTiles' `transportation` layer. Motorways
/// and trunk roads draw as motorways; primary, secondary and tertiary roads as
/// major roads (landmarks, kept in wide views); minor roads, service roads and
/// streets as minor roads; rail and transit as rail. Features of the water,
/// waterway, park and landcover layers draw as such whatever their class.
pub proof fn lemma_road_classes(class: Seq<char>, class_or_none: Option<Seq<char>>)
    ensures
        class == "motorway"@ || class == "trunk"@ ==> shape_for("transportation"@, Some(class))
            == Some(Shape::Motorway),
        class == "primary"@ || class == "secondary"@ || class == "tertiary"@ ==> shape_for(
            "transportation"@,
            Some(class),
        ) == Some(Shape::MajorRoad),
        class == "minor"@ || class == "service"@ || class == "street"@ ==> shape_for(
            "transportation"@,
            Some(class),
        ) == Some(Shape::MinorRoad),
        class == "rail"@ || class == "transit"@ ==> shape_for("transportation"@, Some(class))
            == Some(Shape::Rail),
        shape_for("transportation"@, None) is None,
        shape_for("water"@, class_or_none) == Some(Shape::Water),
        shape_for("waterway"@, class_or_none) == Some(Shape::Waterway),
        shape_for("park"@, class_or_none) == Some(Shape::Park),
        shape_for("landcover"@, class_or_none) == Some(Shape::Landcover),
{
    reveal_strlit("transportation");
    reveal_strlit("water");
    reveal_strlit("waterway");
    reveal_strlit("park");
    reveal_strlit("landcover");
    reveal_strlit("motorway");
    reveal_strlit("trunk");
    reveal_strlit("primary");
    reveal_strlit("secondary");
    reveal_strlit("tertiary");
    reveal_strlit("minor");
    reveal_strlit("service");
    reveal_strlit("street");
    reveal_strlit("rail");
    reveal_strlit("transit");
    lemma_words_differ("waterway"@, "water"@);
    lemma_words_differ("park"@, "water"@);
    lemma_words_differ("park"@, "waterway"@);
    lemma_words_differ("landcover"@, "water"@);
    lemma_words_differ("landcover"@, "waterway"@);
    lemma_words_differ("landcover"@, "park"@);
    let t = "transportation"@;
    lemma_words_differ(t, "water"@);
    lemma_words_differ(t, "waterway"@);
    lemma_words_differ(t, "park"@);
    lemma_words_differ(t, "landcover"@);
    if class == "primary"@ {
        lemma_words_differ("primary"@, "motorway"@);
        lemma_words_differ("primary"@, "trunk"@);
    }
    if class == "secondary"@ {
        lemma_words_differ("secondary"@, "motorway"@);
        lemma_words_differ("secondary"@, "trunk"@);
    }
    if class == "tertiary"@ {
        lemma_words_differ("tertiary"@, "motorway"@);
        lemma_words_differ("tertiary"@, "trunk"@);
    }
    if class == "minor"@ {
        lemma_words_differ("minor"@, "motorway"@);
        lemma_words_differ("minor"@, "trunk"@);
        lemma_words_differ("minor"@, "primary"@);
        lemma_words_differ("minor"@, "secondary"@);
        lemma_words_differ("minor"@, "tertiary"@);
    }
    if class == "service"@ {
        lemma_words_differ("service"@, "motorway"@);
        lemma_words_differ("service"@, "trunk"@);
        assert("service"@[0] == 's' && "primary"@[0] == 'p');
        lemma_words_differ("service"@, "primary"@);
        lemma_words_differ("service"@, "secondary"@);
        lemma_words_differ("service"@, "tertiary"@);
    }
    if class == "street"@ {
        lemma_words_differ("street"@, "motorway"@);
        lemma_words_differ("street"@, "trunk"@);
        lemma_words_differ("street"@, "primary"@);
        lemma_words_differ("street"@, "secondary"@);
        lemma_words_differ("street"@, "tertiary"@);
    }
    if class == "rail"@ {
        lemma_words_differ("rail"@, "motorway"@);
        lemma_words_differ("rail"@, "trunk"@);
        lemma_words_differ("rail"@, "primary"@);
        lemma_words_differ("rail"@, "secondary"@);
        lemma_words_differ("rail"@, "tertiary"@);
        lemma_words_differ("rail"@, "minor"@);
        lemma_words_differ("rail"@, "service"@);
        lemma_words_differ("rail"@, "street"@);
    }
    if class == "transit"@ {
        lemma_words_differ("transit"@, "motorway"@);
        lemma_words_differ("transit"@, "trunk"@);
        assert("transit"@[0] == 't' && "primary"@[0] == 'p');
        lemma_words_differ("transit"@, "primary"@);
        lemma_words_differ("transit"@, "secondary"@);
        lemma_words_differ("transit"@, "tertiary"@);
        lemma_words_differ("transit"@, "minor"@);
        lemma_words_differ("transit"@, "service"@);
        lemma_words_differ("transit"@, "street"@);
    }
}

/// Two words differ when their lengths or their first letters do.
proof fn lemma_words_differ(a: Seq<char>, b: Seq<char>)
    requires
        a.len() != b.len() || (a.len() > 0 && b.len() > 0 && a[0] != b[0]),
    ensures
        a != b,
{
}

#[derive(Debug, Clone, Copy, PartialEq, Eq, Structural)]
pub enum Availability {
    /// No basemap wanted.
    Disabled,
    /// Nothing fetched yet.
    Idle,
    Loading,
    /// Drawing tiles, at least one of which came from the network.
    Online,
    /// Drawing tiles, all of them from the cache.
    Offline,
    /// Nothing to draw and nowhere to get it.
    Unavailable,
}

impl Availability {
    /// Before anything is fetched: idle, or off when no basemap is wanted.
    pub fn initial(enabled: bool) -> (r: Availability)
        ensures
            r == if enabled {
                Availability::Idle
            } else {
                Availability::Disabled
            },
    {
        if enabled {
            Availability::Idle
        } else {
            Availability::Disabled
        }
    }

    /// What a finished load leaves the map showing: with nothing decoded there
    /// is nothing to draw; otherwise it is online if any tile came over the
    /// network, and cached if every one came from disk.
    pub fn after_load(any_decoded: bool, used_network: bool) -> (r: Availability)
        ensures
            r == if !any_decoded {
                Availability::Unavailable
            } else if used_network {
                Availability::Online
            } else {
                Availability::Offline
            },
    {
        if !any_decoded {
            Availability::Unavailable
        } else if used_network {
            Availability::Online
        } else {
            Availability::Offline
        }
    }

    pub fn label(self) -> (r: &'static str)
        ensures
            r@ == match self {
                Availability::Disabled => "map off"@,
                Availability::Idle => "map idle"@,
                Availability::Loading => "map loading"@,
                Availability::Online => "map online"@,
                Availability::Offline => "map cached"@,
                Availability::Unavailable => "map unavailable"@,
            },
    {
        match self {
            Availability::Disabled => "map off",
            Availability::Idle => "map idle",
            Availability::Loading => "map loading",
            Availability::Online => "map online",
            Availability::Offline => "map cached",
            Availability::Unavailable => "map unavailable",
        }
    }
}

/// A slippy-map tile: zoom level and column/row at that zoom.
#[derive(Debug, Clone, Copy, PartialEq, Eq, Hash, PartialOrd, Ord, Structural)]
pub struct TileId {
    pub zoom: u8,
    pub x: u32,
    pub y: u32,
}

/// Tiles across (and down) the world at a zoom level.
pub fn tiles_across(zoom: u8) -> (r: u32)
    requires
        zoom < 32,
    ensures
        r as nat == vstd::arithmetic::power2::pow2(zoom as nat),
{
    let shift = zoom as u32;
    proof {
        vstd::bits::lemma_u32_pow2_no_overflow(shift as nat);
        vstd::bits::lemma_u32_shl_is_mul(1u32, shift);
    }
    1u32 << shift
}

/// The larger minus the smaller of two coordinates.
pub open spec fn span(a: u32, b: u32) -> nat {
    if a <= b {
        (b - a) as nat
    } else {
        (a - b) as nat
    }
}

/// Whether the tiles from one corner of a box to the other, inclusive, number
/// at most `budget`.
pub fn box_fits(top_left: TileId, bottom_right: TileId, budget: u32) -> (r: bool)
    ensures
        r == ((span(top_left.x, bottom_right.x) + 1) * (span(top_left.y, bottom_right.y) + 1)
            <= budget),
{
    let wide: u64 = if top_left.x <= bottom_right.x {
        (bottom_right.x - top_left.x) as u64 + 1
    } else {
        (top_left.x - bottom_right.x) as u64 + 1
    };
    let tall: u64 = if top_left.y <= bottom_right.y {
        (bottom_right.y - top_left.y) as u64 + 1
    } else {
        (top_left.y - bottom_right.y) as u64 + 1
    };
    assert(wide * tall <= 0x1_0000_0000 * 0x1_0000_0000) by (nonlinear_arith)
        requires
            wide <= 0x1_0000_0000,
            tall <= 0x1_0000_0000,
    ;
    (wide as u128) * (tall as u128) <= budget as u128
}

/// One column of tiles, rows `y0..=y1`.
pub open spec fn tile_column(zoom: u8, x: u32, y0: int, y1: int) -> Seq<TileId>
    decreases y1 - y0 + 1,
{
    if y1 < y0 {
        Seq::empty()
    } else {
        tile_column(zoom, x, y0, y1 - 1).push(TileId { zoom, x, y: y1 as u32 })
    }
}

/// The tiles of columns `x0..=x1`, each column top to bottom.
pub open spec fn tile_block(zoom: u8, x0: int, x1: int, y0: int, y1: int) -> Seq<TileId>
    decreases x1 - x0 + 1,
{
    if x1 < x0 {
        Seq::empty()
    } else {
        tile_block(zoom, x0, x1 - 1, y0, y1) + tile_column(zoom, x1 as u32, y0, y1)
    }
}

pub open spec fn min_u32(a: u32, b: u32) -> u32 {
    if a <= b { a } else { b }
}

pub open spec fn max_u32(a: u32, b: u32) -> u32 {
    if a <= b { b } else { a }
}

/// Every tile of a box given by two opposite corners, at `zoom`: column by
/// column from the west, each from the north.
pub fn tiles_in_box(zoom: u8, corner_a: TileId, corner_b: TileId) -> (r: Vec<TileId>)
    ensures
        r@ == tile_block(
            zoom,
            min_u32(corner_a.x, corner_b.x) as int,
            max_u32(corner_a.x, corner_b.x) as int,
            min_u32(corner_a.y, corner_b.y) as int,
            max_u32(corner_a.y, corner_b.y) as int,
        ),
{
    let x0 = if corner_a.x <= corner_b.x { corner_a.x } else { corner_b.x };
    let x1 = if corner_a.x <= corner_b.x { corner_b.x } else { corner_a.x };
    let y0 = if corner_a.y <= corner_b.y { corner_a.y } else { corner_b.y };
    let y1 = if corner_a.y <= corner_b.y { corner_b.y } else { corner_a.y };
    let mut out: Vec<TileId> = Vec::new();
    let mut x: u64 = x0 as u64;
    while x <= x1 as u64
        invariant
            x0 <= x <= x1 + 1,
            y0 <= y1,
            out@ == tile_block(zoom, x0 as int, x - 1, y0 as int, y1 as int),
        decreases x1 + 1 - x,
    {
        let mut y: u64 = y0 as u64;
        let ghost before = out@;
        while y <= y1 as u64
            invariant
                x0 <= x <= x1,
                y0 <= y <= y1 + 1,
                out@ == before + tile_column(zoom, x as u32, y0 as int, y - 1),
            decreases y1 + 1 - y,
        {
            out.push(TileId { zoom, x: x as u32, y: y as u32 });
            proof {
                assert(tile_column(zoom, x as u32, y0 as int, y as int) == tile_column(
                    zoom,
                    x as u32,
                    y0 as int,
                    y - 1,
                ).push(TileId { zoom, x: x as u32, y: y as u32 }));
            }
            y += 1;
        }
        assert(out@ == tile_block(zoom, x0 as int, x as int, y0 as int, y1 as int));
        x += 1;
    }
    out
}

proof fn lemma_column_holds(zoom: u8, x: u32, y0: int, y1: int, t: TileId)
    requires
        0 <= y0,
        y1 <= u32::MAX,
    ensures
        tile_column(zoom, x, y0, y1).contains(t) <==> (t.zoom == zoom && t.x == x && y0 <= t.y <= y1),
    decreases y1 - y0 + 1,
{
    if y1 >= y0 {
        let shorter = tile_column(zoom, x, y0, y1 - 1);
        let last = TileId { zoom, x, y: y1 as u32 };
        lemma_column_holds(zoom, x, y0, y1 - 1, t);
        if shorter.push(last).contains(t) && t != last {
            let w = choose|w: int| 0 <= w < shorter.push(last).len() && shorter.push(last)[w] == t;
            assert(shorter[w] == t);
        }
        if shorter.contains(t) {
            let w = choose|w: int| 0 <= w < shorter.len() && shorter[w] == t;
            assert(shorter.push(last)[w] == t);
        }
        if t == last {
            assert(shorter.push(last)[shorter.len() as int] == t);
        }
    }
}

/// Law: the tiles of a box are exactly those at its zoom whose column and row
/// lie within it — every tile the box touches is covered, and nothing else.
pub proof fn lemma_box_covers(zoom: u8, x0: int, x1: int, y0: int, y1: int, t: TileId)
    requires
        0 <= x0,
        x1 <= u32::MAX,
        0 <= y0,
        y1 <= u32::MAX,
    ensures
        tile_block(zoom, x0, x1, y0, y1).contains(t) <==> (t.zoom == zoom && x0 <= t.x <= x1 && y0
            <= t.y <= y1),
    decreases x1 - x0 + 1,
{
    if x1 >= x0 {
        let before = tile_block(zoom, x0, x1 - 1, y0, y1);
        let column = tile_column(zoom, x1 as u32, y0, y1);
        lemma_box_covers(zoom, x0, x1 - 1, y0, y1, t);
        lemma_column_holds(zoom, x1 as u32, y0, y1, t);
        lemma_contains_concat(before, column, t);
    }
}

proof fn lemma_all_claimed(wanted: Seq<TileId>, requested: Seq<TileId>, t: TileId)
    requires
        wanted.contains(t),
    ensures
        requested.contains(t) || fresh_of(wanted, requested).contains(t),
    decreases wanted.len(),
{
    let earlier = fresh_of(wanted.drop_last(), requested);
    let last = wanted.last();
    if t != last {
        let w = choose|w: int| 0 <= w < wanted.len() && wanted[w] == t;
        assert(wanted.drop_last()[w] == t);
        lemma_all_claimed(wanted.drop_last(), requested, t);
        if earlier.contains(t) && !(requested.contains(last) || earlier.contains(last)) {
            let v = choose|v: int| 0 <= v < earlier.len() && earlier[v] == t;
            assert(earlier.push(last)[v] == t);
        }
    } else if !(requested.contains(last) || earlier.contains(last)) {
        assert(earlier.push(last)[earlier.len() as int] == t);
    }
}

proof fn lemma_nothing_fresh(wanted: Seq<TileId>, requested: Seq<TileId>)
    requires
        forall|i: int| 0 <= i < wanted.len() ==> requested.contains(#[trigger] wanted[i]),
    ensures
        fresh_of(wanted, requested) == Seq::<TileId>::empty(),
    decreases wanted.len(),
{
    if wanted.len() > 0 {
        assert forall|i: int| 0 <= i < wanted.drop_last().len() implies requested.contains(
            #[trigger] wanted.drop_last()[i],
        ) by {
            assert(wanted.drop_last()[i] == wanted[i]);
        }
        lemma_nothing_fresh(wanted.drop_last(), requested);
        assert(requested.contains(wanted[wanted.len() - 1]));
    }
}

/// Law: asking again for a view whose tiles were just claimed claims nothing —
/// a view that does not move never fetches twice.
pub proof fn lemma_second_claim_is_empty(wanted: Seq<TileId>, requested: Seq<TileId>)
    ensures
        fresh_of(wanted, requested + fresh_of(wanted, requested)) == Seq::<TileId>::empty(),
{
    let after = requested + fresh_of(wanted, requested);
    assert forall|i: int| 0 <= i < wanted.len() implies after.contains(#[trigger] wanted[i]) by {
        lemma_all_claimed(wanted, requested, wanted[i]);
        lemma_contains_concat(requested, fresh_of(wanted, requested), wanted[i]);
    }
    lemma_nothing_fresh(wanted, after);
}

/// Whether `tile` is already in `tiles`.
fn holds_tile(tiles: &Vec<TileId>, tile: TileId) -> (r: bool)
    ensures
        r == tiles@.contains(tile),
{
    let n = tiles.len();
    let mut i: usize = 0;
    while i < n
        invariant
            i <= n,
            n == tiles@.len(),
            forall|j: int| 0 <= j < i ==> tiles@[j] != tile,
        decreases n - i,
    {
        if tiles[i] == tile {
            assert(tiles@[i as int] == tile);
            return true;
        }
        i += 1;
    }
    false
}

/// The tiles of `wanted`, in order, that neither `requested` nor an earlier
/// entry of `wanted` already holds.
pub open spec fn fresh_of(wanted: Seq<TileId>, requested: Seq<TileId>) -> Seq<TileId>
    decreases wanted.len(),
{
    if wanted.len() == 0 {
        Seq::empty()
    } else {
        let earlier = fresh_of(wanted.drop_last(), requested);
        let t = wanted.last();
        if requested.contains(t) || earlier.contains(t) {
            earlier
        } else {
            earlier.push(t)
        }
    }
}

proof fn lemma_contains_concat(a: Seq<TileId>, b: Seq<TileId>, t: TileId)
    ensures
        (a + b).contains(t) <==> a.contains(t) || b.contains(t),
{
    if (a + b).contains(t) {
        let w = choose|w: int| 0 <= w < (a + b).len() && (a + b)[w] == t;
        if w < a.len() {
            assert(a[w] == t);
        } else {
            assert(b[w - a.len()] == t);
        }
    }
    if a.contains(t) {
        let w = choose|w: int| 0 <= w < a.len() && a[w] == t;
        assert((a + b)[w] == t);
    }
    if b.contains(t) {
        let w = choose|w: int| 0 <= w < b.len() && b[w] == t;
        assert((a + b)[a.len() + w] == t);
    }
}

/// The tiles of `wanted` not yet requested, in order, each once; every one of
/// them is recorded in `requested`, so a later view that overlaps this one
/// fetches only what it adds.
pub fn claim_fresh(wanted: &Vec<TileId>, requested: &mut Vec<TileId>) -> (fresh: Vec<TileId>)
    ensures
        fresh@ == fresh_of(wanted@, old(requested)@),
        final(requested)@ == old(requested)@ + fresh@,
{
    let n = wanted.len();
    let mut fresh: Vec<TileId> = Vec::new();
    let mut k: usize = 0;
    let ghost start = requested@;
    assert(wanted@.take(0) =~= Seq::<TileId>::empty());
    while k < n
        invariant
            k <= n,
            n == wanted@.len(),
            requested@ == start + fresh@,
            fresh@ == fresh_of(wanted@.take(k as int), start),
        decreases n - k,
    {
        let tile = wanted[k];
        assert(wanted@.take(k + 1).drop_last() =~= wanted@.take(k as int));
        assert(wanted@.take(k + 1).last() == tile);
        proof {
            lemma_contains_concat(start, fresh@, tile);
        }
        if !holds_tile(requested, tile) {
            requested.push(tile);
            fresh.push(tile);
            assert(requested@ =~= start + fresh@);
        }
        k += 1;
    }
    assert(wanted@.take(n as int) =~= wanted@);
    fresh
}

/// `s` with every occurrence of `pattern`, scanning left to right without
/// overlap, replaced by `replacement` — what `str::replace` does.
pub open spec fn replace_all(s: Seq<char>, pattern: Seq<char>, replacement: Seq<char>) -> Seq<
    char,
>
    recommends
        pattern.len() > 0,
    decreases s.len(),
{
    if pattern.len() == 0 || s.len() < pattern.len() {
        s
    } else if s.take(pattern.len() as int) == pattern {
        replacement + replace_all(s.skip(pattern.len() as int), pattern, replacement)
    } else {
        seq![s[0]] + replace_all(s.drop_first(), pattern, replacement)
    }
}

/// A tile URL from a `{z}/{x}/{y}` template.
pub open spec fn filled_template(template: Seq<char>, tile: TileId) -> Seq<char> {
    replace_all(
        replace_all(
            replace_all(template, "{z}"@, decimal(tile.zoom as nat)),
            "{x}"@,
            decimal(tile.x as nat),
        ),
        "{y}"@,
        decimal(tile.y as nat),
    )
}

/// Whether `pattern` occurs in `s` at position `at`.
fn occurs_at(s: &Vec<char>, at: usize, pattern: &Vec<char>) -> (r: bool)
    requires
        at <= s@.len(),
    ensures
        r == (s@.len() - at >= pattern@.len() && s@.subrange(at as int, at + pattern@.len())
            == pattern@),
{
    let m = pattern.len();
    if s.len() - at < m {
        return false;
    }
    let mut k: usize = 0;
    while k < m
        invariant
            k <= m,
            m == pattern@.len(),
            at + m <= s@.len(),
            s@.len() == s.len(),
            forall|j: int| 0 <= j < k ==> s@[at + j] == pattern@[j],
        decreases m - k,
    {
        if s[at + k] != pattern[k] {
            assert(s@.subrange(at as int, at + m)[k as int] != pattern@[k as int]);
            return false;
        }
        k += 1;
    }
    assert(s@.subrange(at as int, at + m) =~= pattern@);
    true
}

/// `s` with every occurrence of `pattern` replaced, as `str::replace` does.
fn replace_chars(s: &Vec<char>, pattern: &Vec<char>, replacement: &Vec<char>) -> (r: Vec<char>)
    requires
        pattern@.len() > 0,
    ensures
        r@ == replace_all(s@, pattern@, replacement@),
{
    let n = s.len();
    let m = pattern.len();
    let mut out: Vec<char> = Vec::new();
    let mut i: usize = 0;
    assert(s@.skip(0) =~= s@);
    while i < n
        invariant
            i <= n,
            n == s@.len(),
            m == pattern@.len(),
            m > 0,
            out@ + replace_all(s@.skip(i as int), pattern@, replacement@) == replace_all(
                s@,
                pattern@,
                replacement@,
            ),
        decreases n - i,
    {
        let ghost rest = s@.skip(i as int);
        if occurs_at(s, i, pattern) {
            assert(rest.take(m as int) =~= s@.subrange(i as int, i + m));
            assert(rest.skip(m as int) =~= s@.skip(i + m));
            let mut k: usize = 0;
            let ghost before = out@;
            while k < replacement.len()
                invariant
                    k <= replacement@.len(),
                    out@ == before + replacement@.subrange(0, k as int),
                decreases replacement@.len() - k,
            {
                out.push(replacement[k]);
                k += 1;
                assert(out@ =~= before + replacement@.subrange(0, k as int));
            }
            assert(replacement@.subrange(0, replacement@.len() as int) =~= replacement@);
            assert(out@ + replace_all(s@.skip(i + m), pattern@, replacement@) =~= before + (
            replacement@ + replace_all(rest.skip(m as int), pattern@, replacement@)));
            i += m;
        } else {
            proof {
                if rest.len() >= m {
                    assert(rest.take(m as int) =~= s@.subrange(i as int, i + m));
                }
            }
            assert(rest.drop_first() =~= s@.skip(i + 1));
            let ghost before = out@;
            out.push(s[i]);
            assert(out@ + replace_all(s@.skip(i + 1), pattern@, replacement@) =~= before + (seq![
                rest[0],
            ] + replace_all(rest.drop_first(), pattern@, replacement@)));
            i += 1;
        }
    }
    assert(s@.skip(n as int) =~= Seq::<char>::empty());
    assert(out@ + Seq::<char>::empty() =~= out@);
    out
}

fn decimal_chars(n: u32) -> (r: Vec<char>)
    ensures
        r@ == decimal(n as nat),
{
    let mut s = String::new();
    push_decimal(&mut s, n as u64);
    assert(s@ =~= decimal(n as nat));
    chars_of(s.as_str())
}

/// Fill a `{z}`/`{x}`/`{y}` URL template in with a tile's coordinates.
pub fn fill_template(template: &str, tile: TileId) -> (r: String)
    ensures
        r@ == filled_template(template@, tile),
{
    let t = chars_of(template);
    let z = chars_of("{z}");
    let x = chars_of("{x}");
    let y = chars_of("{y}");
    proof {
        reveal_strlit("{z}");
        reveal_strlit("{x}");
        reveal_strlit("{y}");
    }
    let a = replace_chars(&t, &z, &decimal_chars(tile.zoom as u32));
    let b = replace_chars(&a, &x, &decimal_chars(tile.x));
    let c = replace_chars(&b, &y, &decimal_chars(tile.y));
    string_of(&c, 0, c.len())
}

/// The directory and file names under a cache root where a tile is stored:
/// zoom, column, and `{row}.pbf`.
pub fn cache_segments(tile: TileId) -> (r: (String, String, String))
    ensures
        r.0@ == decimal(tile.zoom as nat),
        r.1@ == decimal(tile.x as nat),
        r.2@ == decimal(tile.y as nat) + seq!['.', 'p', 'b', 'f'],
{
    let mut zoom = String::new();
    push_decimal(&mut zoom, tile.zoom as u64);
    let mut x = String::new();
    push_decimal(&mut x, tile.x as u64);
    let mut y = String::new();
    push_decimal(&mut y, tile.y as u64);
    push_char(&mut y, '.');
    push_char(&mut y, 'p');
    push_char(&mut y, 'b');
    push_char(&mut y, 'f');
    assert(y@ =~= decimal(tile.y as nat) + seq!['.', 'p', 'b', 'f']);
    (zoom, x, y)
}

/// Where a tile lives on disk: `root/{zoom}/{x}/{y}.pbf`, the components being
/// those of [`cache_segments`], joined onto `root` in that order by
/// `Path::join`.
pub fn cache_path(root: &Path, tile: TileId) -> (r: PathBuf)
    ensures
        r == joined(
            borrowed(&joined(borrowed(&joined(root, decimal(tile.zoom as nat))), decimal(tile.x as nat))),
            decimal(tile.y as nat) + seq!['.', 'p', 'b', 'f'],
        ),
{
    let (zoom, x, y) = cache_segments(tile);
    let by_zoom = join(root, zoom.as_str());
    let by_column = join(by_zoom.as_path(), x.as_str());
    join(by_column.as_path(), y.as_str())
}

/// The first position at or after `i` where `p` occurs in `s`.
pub open spec fn find_from(s: Seq<char>, p: Seq<char>, i: int) -> Option<int>
    decreases s.len() + 1 - i,
{
    if i < 0 || i + p.len() > s.len() {
        None
    } else if s.subrange(i, i + p.len()) == p {
        Some(i)
    } else {
        find_from(s, p, i + 1)
    }
}

/// The key that introduces TileJSON's tile URL array, quotes included.
pub open spec fn tiles_key() -> Seq<char> {
    seq!['"', 't', 'i', 'l', 'e', 's', '"']
}

/// What follows the first `"tiles"` in a document, up to the next one.
pub open spec fn tiles_section(body: Seq<char>) -> Option<Seq<char>> {
    match find_from(body, tiles_key(), 0) {
        None => None,
        Some(i) => {
            let rest = body.skip(i + 7);
            match find_from(rest, tiles_key(), 0) {
                Some(j) => Some(rest.take(j)),
                None => Some(rest),
            }
        },
    }
}

/// The first entry of a `tiles` array, if it is an `http` URL: the text
/// between the first `[` and the `]` that closes it, up to the first comma,
/// with whitespace and then quotes trimmed off both ends.
pub open spec fn first_entry(after: Seq<char>) -> Option<Seq<char>> {
    match find_from(after, seq!['['], 0) {
        None => None,
        Some(open) => match find_from(after.skip(open), seq![']'], 0) {
            None => None,
            Some(k) => {
                let inner = after.subrange(open + 1, open + k);
                let first = match find_from(inner, seq![','], 0) {
                    Some(c) => inner.take(c),
                    None => inner,
                };
                let url = trim_both(trim_both(first, false), true);
                if url.len() >= 4 && url.take(4) == seq!['h', 't', 't', 'p'] {
                    Some(url)
                } else {
                    None
                }
            },
        },
    }
}

/// The tile URL template a TileJSON document names first, if any.
pub open spec fn tile_template_in(body: Seq<char>) -> Option<Seq<char>> {
    match tiles_section(body) {
        None => None,
        Some(after) => first_entry(after),
    }
}

pub open spec fn text_option(r: Option<String>) -> Option<Seq<char>> {
    match r {
        Some(s) => Some(s@),
        None => None,
    }
}

proof fn lemma_find_from_found(s: Seq<char>, p: Seq<char>, i: int)
    requires
        find_from(s, p, i) is Some,
    ensures
        i <= find_from(s, p, i)->0,
        find_from(s, p, i)->0 + p.len() <= s.len(),
        s.subrange(find_from(s, p, i)->0, find_from(s, p, i)->0 + p.len()) == p,
    decreases s.len() + 1 - i,
{
    if !(i < 0 || i + p.len() > s.len()) && s.subrange(i, i + p.len()) != p {
        lemma_find_from_found(s, p, i + 1);
    }
}

proof fn lemma_find_from_none(s: Seq<char>, p: Seq<char>, i: int)
    requires
        0 <= i,
        i + p.len() > s.len(),
    ensures
        find_from(s, p, i) is None,
{
}

/// The first occurrence of `p` in `v[lo..hi]`, as a position in `v`.
fn find_in(v: &Vec<char>, lo: usize, hi: usize, p: &Vec<char>) -> (r: Option<usize>)
    requires
        lo <= hi <= v@.len(),
        p@.len() > 0,
    ensures
        match find_from(v@.subrange(lo as int, hi as int), p@, 0) {
            Some(j) => r is Some && r->0 == j + lo,
            None => r is None,
        },
        r matches Some(j) ==> lo <= j && j + p@.len() <= hi && v@.subrange(j as int, j + p@.len())
            == p@,
{
    let ghost sub = v@.subrange(lo as int, hi as int);
    let m = p.len();
    let mut i = lo;
    while hi - i >= m
        invariant
            lo <= i <= hi <= v@.len(),
            m == p@.len(),
            m > 0,
            sub == v@.subrange(lo as int, hi as int),
            find_from(sub, p@, 0) == find_from(sub, p@, i - lo),
        decreases hi - i,
    {
        assert(sub.subrange(i - lo, i - lo + m) =~= v@.subrange(i as int, i + m));
        if occurs_at(v, i, p) {
            proof {
                lemma_find_from_found(sub, p@, 0);
            }
            return Some(i);
        }
        i += 1;
    }
    proof {
        lemma_find_from_none(sub, p@, i - lo);
    }
    None
}

/// The bounds in `v` of what [`tiles_section`] picks out.
fn section_bounds(v: &Vec<char>) -> (r: Option<(usize, usize)>)
    ensures
        match tiles_section(v@) {
            None => r is None,
            Some(after) => r matches Some((a, b)) && a <= b <= v@.len() && v@.subrange(
                a as int,
                b as int,
            ) == after,
        },
{
    let n = v.len();
    let key: Vec<char> = vec!['"', 't', 'i', 'l', 'e', 's', '"'];
    assert(key@ =~= tiles_key());
    assert(v@.subrange(0, n as int) =~= v@);
    let i = match find_in(v, 0, n, &key) {
        Some(i) => i,
        None => return None,
    };
    let start = i + 7;
    let end = match find_in(v, start, n, &key) {
        Some(j) => j,
        None => n,
    };
    proof {
        let rest = v@.skip(start as int);
        assert(rest =~= v@.subrange(start as int, n as int));
        match find_from(rest, tiles_key(), 0) {
            Some(j) => {
                assert(rest.take(j) =~= v@.subrange(start as int, end as int));
            },
            None => {
                assert(rest =~= v@.subrange(start as int, end as int));
            },
        }
    }
    Some((start, end))
}

/// [`first_entry`] of `v[start..end]`.
fn entry_in(v: &Vec<char>, start: usize, end: usize) -> (r: Option<String>)
    requires
        start <= end <= v@.len(),
    ensures
        text_option(r) == first_entry(v@.subrange(start as int, end as int)),
{
    let ghost after = v@.subrange(start as int, end as int);
    let open_bracket: Vec<char> = vec!['['];
    let close_bracket: Vec<char> = vec![']'];
    let comma: Vec<char> = vec![','];
    assert(open_bracket@ =~= seq!['[']);
    assert(close_bracket@ =~= seq![']']);
    assert(comma@ =~= seq![',']);
    let open = match find_in(v, start, end, &open_bracket) {
        Some(o) => o,
        None => return None,
    };
    assert(after.skip(open - start) =~= v@.subrange(open as int, end as int));
    let close = match find_in(v, open, end, &close_bracket) {
        Some(c) => c,
        None => return None,
    };
    assert(close > open) by {
        if close == open {
            assert(v@.subrange(open as int, open + 1)[0] == v@[open as int]);
            assert(v@.subrange(close as int, close + 1)[0] == v@[close as int]);
        }
    }
    let ghost inner = v@.subrange(open + 1, close as int);
    assert(after.subrange(open - start + 1, close - start) =~= inner);
    let comma_at = match find_in(v, open + 1, close, &comma) {
        Some(c) => c,
        None => close,
    };
    let ghost first = v@.subrange(open + 1, comma_at as int);
    proof {
        match find_from(inner, seq![','], 0) {
            Some(c) => {
                assert(inner.take(c) =~= first);
            },
            None => {
                assert(inner =~= first);
            },
        }
    }
    let (a, b) = trim_range(v, open + 1, comma_at, false);
    let (a2, b2) = trim_range(v, a, b, true);
    let ghost url = v@.subrange(a2 as int, b2 as int);
    if b2 - a2 >= 4 && v[a2] == 'h' && v[a2 + 1] == 't' && v[a2 + 2] == 't' && v[a2 + 3] == 'p' {
        assert(url.take(4) =~= seq!['h', 't', 't', 'p']);
        Some(string_of(v, a2, b2))
    } else {
        proof {
            if url.len() >= 4 && url.take(4) == seq!['h', 't', 't', 'p'] {
                assert(url.take(4)[0] == url[0]);
                assert(url.take(4)[1] == url[1]);
                assert(url.take(4)[2] == url[2]);
                assert(url.take(4)[3] == url[3]);
            }
        }
        None
    }
}

/// Pull the first entry of TileJSON's `tiles` array, if it is an `http` URL.
///
/// Read by hand rather than with a JSON parser for one field: the document is
/// a fixed shape from a known server, and the array is the only thing wanted.
pub fn first_tile_template(body: &str) -> (r: Option<String>)
    ensures
        text_option(r) == tile_template_in(body@),
{
    let v = chars_of(body);
    match section_bounds(&v) {
        Some((start, end)) => entry_in(&v, start, end),
        None => None,
    }
}

} // verus!
